//! File-level handling of an archive: the timestamp and uid a file name
//! carries, chronological ordering, and the path-level time filter.

use vstd::prelude::*;

use vstd::seq_lib::lemma_multiset_commutative;

use crate::error::MetricParseError;
use crate::filter::{spec_includes_margin, TimeWindow};

verus! {

/// Four hours, in milliseconds: the margin of the path-level time filter.
/// A file holds chunks from well before its name's timestamp, so the
/// window is widened before files are discarded.
pub const PATH_TIME_MARGIN_MILLIS: i64 = 14_400_000;

/// A diagnostic data file: its path, and the timestamp and uid parsed
/// from its extension.
#[derive(Debug, Clone)]
pub struct FileInfo {
    /// The path of the file, as text.
    pub path: String,
    /// The timestamp the extension encodes: UTC milliseconds.
    pub timestamp: i64,
    /// The uid the extension encodes.
    pub uid: u16,
}

/// What the timestamp part of a file extension denotes: UTC milliseconds,
/// or nothing when it is not of the form `%Y-%m-%dT%H-%M-%S%#z`.
pub uninterp spec fn file_ts_millis(s: Seq<char>) -> Option<i64>;

/// Relies on chrono's `DateTime::parse_from_str` with the format
/// `%Y-%m-%dT%H-%M-%S%#z`, converted to UTC milliseconds: the outcome is a
/// function of the text alone.
#[verifier::external_body]
fn parse_file_timestamp(s: &str) -> (r: Option<i64>)
    ensures
        r == file_ts_millis(s@),
{
    match chrono::DateTime::parse_from_str(s, "%Y-%m-%dT%H-%M-%S%#z") {
        Ok(dt) => Some(dt.with_timezone(&chrono::Utc).timestamp_millis()),
        Err(_) => None,
    }
}

/// The value of a decimal digit character, if it is one.
pub open spec fn digit_val(c: char) -> Option<int> {
    if 48 <= (c as u32) <= 57 {
        Option::Some((c as u32) - 48)
    } else {
        Option::None
    }
}

/// The value the characters from `i` on denote in decimal on top of
/// `acc`, or nothing on a non-digit or on overflow past sixteen bits.
pub open spec fn parse_u16_from(s: Seq<char>, i: int, acc: int) -> Option<u16>
    decreases s.len() - i,
{
    if i < 0 || acc < 0 || acc > 0xffff {
        Option::None
    } else if i >= s.len() {
        Option::Some(acc as u16)
    } else {
        match digit_val(s[i]) {
            Option::Some(d) => {
                if acc * 10 + d > 0xffff {
                    Option::None
                } else {
                    parse_u16_from(s, i + 1, acc * 10 + d)
                }
            },
            Option::None => Option::None,
        }
    }
}

/// What a uid string denotes: its decimal value, with one optional
/// leading plus sign and at least one digit, as `u16` parsing accepts it.
pub open spec fn spec_parse_u16(s: Seq<char>) -> Option<u16> {
    if s.len() == 0 {
        Option::None
    } else if s[0] == '+' {
        if s.len() == 1 {
            Option::None
        } else {
            parse_u16_from(s, 1, 0)
        }
    } else {
        parse_u16_from(s, 0, 0)
    }
}

/// Parses a uid string as a decimal sixteen-bit unsigned integer.
#[verifier::loop_isolation(false)]
pub fn parse_u16(s: &str) -> (r: Option<u16>)
    ensures
        r == spec_parse_u16(s@),
{
    let n = s.unicode_len();
    if n == 0 {
        return None;
    }
    let first = s.get_char(0);
    let start: usize = if first == '+' {
        1
    } else {
        0
    };
    if start == 1 && n == 1 {
        return None;
    }
    let mut acc: u32 = 0;
    let mut i: usize = start;
    while i < n
        invariant
            start <= i <= n,
            n == s@.len(),
            acc <= 0xffff,
            spec_parse_u16(s@) == parse_u16_from(s@, i as int, acc as int),
        decreases n - i,
    {
        let c = s.get_char(i);
        let cv = c as u32;
        if cv < 48 || cv > 57 {
            return None;
        }
        let d = cv - 48;
        if acc * 10 + d > 0xffff {
            return None;
        }
        acc = acc * 10 + d;
        i = i + 1;
    }
    Some(acc as u16)
}

/// Whether the extension does not mark a file as currently being written.
pub fn is_not_interim_file(extension: Option<&str>) -> (r: bool)
    ensures
        r == match extension {
            Option::Some(e) => e@ != "interim"@,
            Option::None => true,
        },
{
    match extension {
        Some(e) => {
            let interim = String::from_str("interim");
            let ext = e.to_owned();
            !(interim == ext)
        },
        None => true,
    }
}

/// The index right after the last `-` in `s`, if any occurs.
pub open spec fn last_dash_end(s: Seq<char>) -> Option<int> {
    if exists|i: int| 0 <= i < s.len() && s[i] == '-' {
        let i = choose|i: int|
            0 <= i < s.len() && s[i] == '-' && (forall|j: int| i < j < s.len() ==> s[j] != '-');
        Option::Some(i + 1)
    } else {
        Option::None
    }
}

/// Splits a file extension at its last `-` into a timestamp part and a
/// uid part.
#[verifier::loop_isolation(false)]
fn rsplit_dash(s: &str) -> (r: Option<(String, String)>)
    ensures
        match r {
            Option::Some(parts) => {
                &&& last_dash_end(s@) matches Option::Some(e)
                &&& parts.0@ == s@.subrange(0, e - 1)
                &&& parts.1@ == s@.subrange(e, s@.len() as int)
            },
            Option::None => last_dash_end(s@) is None,
        },
{
    let n = s.unicode_len();
    let mut i: usize = n;
    while i > 0
        invariant
            0 <= i <= n,
            n == s@.len(),
            forall|j: int| i <= j < n ==> s@[j] != '-',
        decreases i,
    {
        let c = s.get_char(i - 1);
        if c == '-' {
            let dash = i - 1;
            let mut ts = String::new();
            let mut k: usize = 0;
            while k < dash
                invariant
                    0 <= k <= dash < n,
                    n == s@.len(),
                    ts@ =~= s@.subrange(0, k as int),
                decreases dash - k,
            {
                crate::strfmt::push_char(&mut ts, s.get_char(k));
                k = k + 1;
            }
            let mut uid = String::new();
            let mut k2: usize = dash + 1;
            while k2 < n
                invariant
                    dash < k2 <= n,
                    n == s@.len(),
                    uid@ =~= s@.subrange(dash + 1, k2 as int),
                decreases n - k2,
            {
                crate::strfmt::push_char(&mut uid, s.get_char(k2));
                k2 = k2 + 1;
            }
            proof {
                assert(0 <= dash < s@.len() && s@[dash as int] == '-');
                assert(forall|j: int| dash < j < s@.len() ==> s@[j] != '-');
                let w = choose|w: int|
                    0 <= w < s@.len() && s@[w] == '-' && (forall|j: int|
                        w < j < s@.len() ==> s@[j] != '-');
                assert(w == dash) by {
                    if w < dash {
                        assert(s@[dash as int] == '-');
                    } else if w > dash {
                        assert(s@[w] != '-');
                    }
                }
            }
            return Some((ts, uid));
        }
        i = i - 1;
    }
    None
}

/// What a whole file extension denotes: its timestamp in UTC milliseconds
/// and its uid, or nothing when the split, the timestamp or the uid fails.
pub open spec fn spec_file_parts(ext: Seq<char>) -> Option<(i64, u16)> {
    match last_dash_end(ext) {
        Option::Some(e) => match file_ts_millis(ext.subrange(0, e - 1)) {
            Option::Some(t) => match spec_parse_u16(ext.subrange(e, ext.len() as int)) {
                Option::Some(u) => Option::Some((t, u)),
                Option::None => Option::None,
            },
            Option::None => Option::None,
        },
        Option::None => Option::None,
    }
}

/// The message a failed extension parse carries: the failing stage's
/// offending text, embedded in the message.
pub open spec fn file_parse_error_message(ext: Seq<char>) -> Seq<char> {
    match last_dash_end(ext) {
        Option::None => "splitting file extension ("@ + ext
            + ") into a timestamp and a uid failed"@,
        Option::Some(e) => {
            if file_ts_millis(ext.subrange(0, e - 1)) is None {
                "parsing file extension timestamp ("@ + ext.subrange(0, e - 1) + ") failed"@
            } else {
                "parsing file extension uid ("@ + ext.subrange(e, ext.len() as int) + ") failed"@
            }
        },
    }
}

impl FileInfo {
    /// Parses the timestamp and uid out of a file extension: the text is
    /// split at its last `-` into a timestamp in the archive's format and
    /// a decimal uid. A parse failure is an input/output error whose
    /// message carries the offending text.
    pub fn parse_timestamp_and_uid(extension: &str) -> (r: Result<(i64, u16), MetricParseError>)
        ensures
            match r {
                Ok(tu) => spec_file_parts(extension@) == Option::Some(tu),
                Err(e) => {
                    &&& (e matches MetricParseError::Io { message } && message@
                        == file_parse_error_message(extension@))
                    &&& spec_file_parts(extension@) is None
                },
            },
    {
        let parts = match rsplit_dash(extension) {
            Some(p) => p,
            None => {
                let mut message = String::from_str("splitting file extension (");
                message.append(extension);
                message.append(") into a timestamp and a uid failed");
                return Err(MetricParseError::Io { message });
            },
        };
        let ts = match parse_file_timestamp(parts.0.as_str()) {
            Some(t) => t,
            None => {
                let mut message = String::from_str("parsing file extension timestamp (");
                message.append(parts.0.as_str());
                message.append(") failed");
                return Err(MetricParseError::Io { message });
            },
        };
        let uid = match parse_u16(parts.1.as_str()) {
            Some(u) => u,
            None => {
                let mut message = String::from_str("parsing file extension uid (");
                message.append(parts.1.as_str());
                message.append(") failed");
                return Err(MetricParseError::Io { message });
            },
        };
        Ok((ts, uid))
    }

    /// Builds the file record of a path from the path text and its
    /// extension; a parse failure carries the offending text.
    pub fn from(path: String, extension: &str) -> (r: Result<FileInfo, MetricParseError>)
        ensures
            match r {
                Ok(fi) => fi.path@ == path@ && spec_file_parts(extension@) == Option::Some(
                    (fi.timestamp, fi.uid),
                ),
                Err(e) => {
                    &&& (e matches MetricParseError::Io { message } && message@
                        == file_parse_error_message(extension@))
                    &&& spec_file_parts(extension@) is None
                },
            },
    {
        match Self::parse_timestamp_and_uid(extension) {
            Ok((timestamp, uid)) => Ok(FileInfo { path, timestamp, uid }),
            Err(e) => Err(e),
        }
    }
}

/// The chronological order on files: by timestamp, then by uid.
pub open spec fn file_le(a: FileInfo, b: FileInfo) -> bool {
    a.timestamp < b.timestamp || (a.timestamp == b.timestamp && a.uid <= b.uid)
}

/// A list of files in non-decreasing chronological order.
pub open spec fn files_sorted(s: Seq<FileInfo>) -> bool {
    forall|i: int, j: int| 0 <= i < j < s.len() ==> file_le(#[trigger] s[i], #[trigger] s[j])
}

/// Sorts files ascending by timestamp and uid. The result holds the same
/// files, in non-decreasing chronological order, so that every consumer
/// downstream observes file timestamps in non-decreasing order.
#[verifier::loop_isolation(false)]
pub fn sort_file_infos(files: Vec<FileInfo>) -> (r: Vec<FileInfo>)
    ensures
        files_sorted(r@),
        r@.to_multiset() == files@.to_multiset(),
{
    let mut out: Vec<FileInfo> = Vec::new();
    let n = files.len();
    let mut i: usize = 0;
    proof {
        assert(out@.to_multiset() =~= files@.subrange(0, 0).to_multiset()) by {
            assert(files@.subrange(0, 0) =~= Seq::<FileInfo>::empty());
            files@.subrange(0, 0).to_multiset_ensures();
            out@.to_multiset_ensures();
        }
    }
    while i < n
        invariant
            0 <= i <= n,
            n == files@.len(),
            out@.len() == i,
            files_sorted(out@),
            out@.to_multiset() == files@.subrange(0, i as int).to_multiset(),
        decreases n - i,
    {
        let x = clone_file(&files[i]);
        let mut j: usize = out.len();
        while j > 0
            invariant
                0 <= j <= out@.len(),
                forall|k: int| j <= k < out@.len() ==> !file_le(#[trigger] out@[k], x),
            decreases j,
        {
            let less = out[j - 1].timestamp < x.timestamp || (out[j - 1].timestamp == x.timestamp
                && out[j - 1].uid <= x.uid);
            if less {
                break ;
            }
            j = j - 1;
        }
        let ghost out_pre = out@;
        out.insert(j, x);
        proof {
            assert(out@ =~= out_pre.insert(j as int, x));
            lemma_insert_sorted(out_pre, x, j as int);
            lemma_to_multiset_insert(out_pre, x, j as int);
            assert(files@.subrange(0, i + 1) =~= files@.subrange(0, i as int).push(files@[i as int]));
            files@.subrange(0, i as int).to_multiset_ensures();
            assert(files@.subrange(0, i as int).push(files@[i as int]).to_multiset()
                == files@.subrange(0, i as int).to_multiset().insert(files@[i as int]));
            assert(x == files@[i as int]);
        }
        i = i + 1;
    }
    proof {
        assert(files@.subrange(0, n as int) =~= files@);
    }
    out
}

/// Inserting an element anywhere adds exactly it to the list's multiset.
proof fn lemma_to_multiset_insert(s: Seq<FileInfo>, x: FileInfo, j: int)
    requires
        0 <= j <= s.len(),
    ensures
        s.insert(j, x).to_multiset() == s.to_multiset().insert(x),
{
    let a = s.subrange(0, j);
    let b = s.subrange(j, s.len() as int);
    let sx = seq![x];
    assert(s.insert(j, x) =~= a + (sx + b));
    lemma_multiset_commutative(a, sx + b);
    lemma_multiset_commutative(sx, b);
    assert(s =~= a + b);
    lemma_multiset_commutative(a, b);
    assert(sx =~= Seq::<FileInfo>::empty().push(x));
    Seq::<FileInfo>::empty().to_multiset_ensures();
    assert(sx.to_multiset() =~= Seq::<FileInfo>::empty().to_multiset().insert(x));
    assert(Seq::<FileInfo>::empty().to_multiset() =~= vstd::multiset::Multiset::<
        FileInfo,
    >::empty()) by {
        Seq::<FileInfo>::empty().to_multiset_ensures();
    }
    assert(a.to_multiset().add(sx.to_multiset().add(b.to_multiset())) =~= a.to_multiset().add(
        b.to_multiset(),
    ).insert(x));
}

/// Copies one file record.
fn clone_file(f: &FileInfo) -> (r: FileInfo)
    ensures
        r == *f,
{
    FileInfo { path: f.path.clone(), timestamp: f.timestamp, uid: f.uid }
}

/// Inserting at the boundary the insertion scan found keeps the list
/// sorted.
proof fn lemma_insert_sorted(s: Seq<FileInfo>, x: FileInfo, j: int)
    requires
        0 <= j <= s.len(),
        files_sorted(s),
        forall|k: int| j <= k < s.len() ==> !file_le(#[trigger] s[k], x),
        j > 0 ==> file_le(s[j - 1], x),
    ensures
        files_sorted(s.insert(j, x)),
{
    let t = s.insert(j, x);
    assert forall|a: int, b: int| 0 <= a < b < t.len() implies file_le(
        #[trigger] t[a],
        #[trigger] t[b],
    ) by {
        assert(forall|k: int| 0 <= k < j ==> t[k] == s[k]);
        assert(t[j] == x);
        assert(forall|k: int| j < k < t.len() ==> t[k] == s[k - 1]);
        if a < j && b < j {
        } else if a < j && b == j {
            if !file_le(s[a], x) {
                assert(file_le(s[j - 1], x));
                assert(file_le(s[a], s[j - 1]) || a == j - 1);
            }
        } else if a < j && b > j {
        } else if a == j && b > j {
            assert(!file_le(s[b - 1], x));
            assert(file_le(x, s[b - 1]) || file_le(s[b - 1], x)) by {
                assert(x.timestamp < s[b - 1].timestamp || x.timestamp > s[b - 1].timestamp || (
                x.timestamp == s[b - 1].timestamp && (x.uid <= s[b - 1].uid || s[b - 1].uid
                    <= x.uid)));
            }
        } else if a > j && b > j {
        }
    }
}

/// The path-level time filter: whether a file is kept against the window
/// widened by the fixed four-hour margin.
pub fn path_filter_keeps(window: &TimeWindow, file: &FileInfo) -> (r: bool)
    ensures
        r == spec_includes_margin(*window, file.timestamp, PATH_TIME_MARGIN_MILLIS as int),
{
    window.includes_with_margin(file.timestamp, PATH_TIME_MARGIN_MILLIS)
}

} // verus!
