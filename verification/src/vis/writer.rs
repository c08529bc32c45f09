//! Builders of the script text that carries a chart's data series: a
//! reserved header line, one assignment line per point, and a final
//! header sized to the points written.

use vstd::prelude::*;

use crate::strfmt::dec_digits;
use crate::vis::chart::Series;

verus! {

/// The characters reserved for the header line, beyond the two series
/// names: the static text, the spaces and two counters of up to sixteen
/// digits.
pub const COMMON_RESERVED_CHARS: usize = 67;

/// `n` spaces.
pub open spec fn spaces(n: nat) -> Seq<char> {
    Seq::new(n, |i: int| ' ')
}

/// `n` NUL characters.
pub open spec fn nuls(n: nat) -> Seq<char> {
    Seq::new(n, |i: int| '\0')
}

/// The final header line: both arrays declared with their size.
pub open spec fn array_header(xs: Seq<char>, ys: Seq<char>, size: nat) -> Seq<char> {
    "let "@ + xs + " = new Array("@ + dec_digits(size) + "), "@ + ys + " = new Array("@
        + dec_digits(size) + ");\n"@
}

/// One data line of a series file: the quoted x value and the plain y
/// value assigned at the same index.
pub open spec fn series_line(
    xs: Seq<char>,
    ys: Seq<char>,
    idx: nat,
    x: Seq<char>,
    y: Seq<char>,
) -> Seq<char> {
    xs + "["@ + dec_digits(idx) + "] = \""@ + x + "\"; "@ + ys + "["@ + dec_digits(idx) + "] = "@
        + y + ";\n"@
}

/// One data line of a chart-data file: both values plain.
pub open spec fn chart_data_line(
    xs: Seq<char>,
    ys: Seq<char>,
    idx: nat,
    x: Seq<char>,
    y: Seq<char>,
) -> Seq<char> {
    xs + "["@ + dec_digits(idx) + "] = "@ + x + "; "@ + ys + "["@ + dec_digits(idx) + "] = "@ + y
        + ";\n"@
}

/// The content with its head overwritten by `head`, which may run past
/// the end.
pub open spec fn splice_head(content: Seq<char>, head: Seq<char>) -> Seq<char> {
    if head.len() >= content.len() {
        head
    } else {
        head + content.skip(head.len() as int)
    }
}

/// Appends every character of `s` to the buffer.
#[verifier::loop_isolation(false)]
fn push_str_chars(buf: &mut Vec<char>, s: &str) -> (nothing: ())
    ensures
        final(buf)@ == old(buf)@ + s@,
{
    let n = s.unicode_len();
    let mut i: usize = 0;
    while i < n
        invariant
            0 <= i <= n,
            n == s@.len(),
            buf@ =~= old(buf)@ + s@.subrange(0, i as int),
        decreases n - i,
    {
        buf.push(s.get_char(i));
        i = i + 1;
    }
    proof {
        assert(buf@ =~= old(buf)@ + s@);
    }
}

/// Builds the text of one series data file, line by line.
#[derive(Debug)]
pub struct SeriesWriter {
    /// The characters written so far.
    pub buffer: Vec<char>,
    /// The count of data lines written so far.
    pub index: usize,
    /// The names of the series arrays.
    pub series: Series,
}

impl SeriesWriter {
    /// A writer for the given series, with nothing written yet.
    pub fn new(series: Series) -> (r: SeriesWriter)
        ensures
            r.series == series,
            r.buffer@ == Seq::<char>::empty(),
            r.index == 0,
    {
        SeriesWriter { buffer: Vec::new(), index: 0, series }
    }

    /// Reserves the header area: spaces enough for the final header, then
    /// a line break.
    pub fn start(&mut self)
        requires
            2 * old(self).series.xs@.len() + COMMON_RESERVED_CHARS + 1 <= usize::MAX,
        ensures
            final(self).buffer@ == old(self).buffer@ + spaces(
                (COMMON_RESERVED_CHARS + 2 * old(self).series.xs@.len()) as nat,
            ) + "\n"@,
            final(self).index == old(self).index,
            final(self).series == old(self).series,
    {
        let total = COMMON_RESERVED_CHARS + self.series.xs.unicode_len()
            + self.series.xs.unicode_len();
        let mut i: usize = 0;
        while i < total
            invariant
                0 <= i <= total,
                self.buffer@ =~= old(self).buffer@ + spaces(i as nat),
                self.index == old(self).index,
                self.series == old(self).series,
            decreases total - i,
        {
            self.buffer.push(' ');
            i = i + 1;
            proof {
                assert(self.buffer@ =~= old(self).buffer@ + spaces(i as nat));
            }
        }
        self.buffer.push('\n');
        proof {
            assert(self.buffer@ =~= old(self).buffer@ + spaces(total as nat) + "\n"@) by {
                reveal_strlit("\n");
            }
        }
    }

    /// Appends one data line for the given x and y texts and counts it.
    pub fn write(&mut self, x: &str, y: &str)
        requires
            old(self).index < usize::MAX,
        ensures
            final(self).buffer@ == old(self).buffer@ + series_line(
                old(self).series.xs@,
                old(self).series.ys@,
                old(self).index as nat,
                x@,
                y@,
            ),
            final(self).index == old(self).index + 1,
            final(self).series == old(self).series,
    {
        let digits = crate::strfmt::usize_to_string(self.index);
        let xs = self.series.xs.clone();
        let ys = self.series.ys.clone();
        push_str_chars(&mut self.buffer, xs.as_str());
        push_str_chars(&mut self.buffer, "[");
        push_str_chars(&mut self.buffer, digits.as_str());
        push_str_chars(&mut self.buffer, "] = \"");
        push_str_chars(&mut self.buffer, x);
        push_str_chars(&mut self.buffer, "\"; ");
        push_str_chars(&mut self.buffer, ys.as_str());
        push_str_chars(&mut self.buffer, "[");
        push_str_chars(&mut self.buffer, digits.as_str());
        push_str_chars(&mut self.buffer, "] = ");
        push_str_chars(&mut self.buffer, y);
        push_str_chars(&mut self.buffer, ";\n");
        self.index = self.index + 1;
    }

    /// Finishes the file: the sized header overwrites the reserved area
    /// and the data lines follow.
    pub fn end(self) -> (r: String)
        ensures
            r@ == splice_head(
                self.buffer@,
                array_header(self.series.xs@, self.series.ys@, self.index as nat),
            ),
    {
        let digits = crate::strfmt::usize_to_string(self.index);
        let mut header = String::from_str("let ");
        header.append(self.series.xs.as_str());
        header.append(" = new Array(");
        header.append(digits.as_str());
        header.append("), ");
        header.append(self.series.ys.as_str());
        header.append(" = new Array(");
        header.append(digits.as_str());
        header.append(");\n");
        let hlen = header.unicode_len();
        let mut out = header;
        let total = self.buffer.len();
        if hlen < total {
            let mut k: usize = hlen;
            while k < total
                invariant
                    hlen <= k <= total,
                    total == self.buffer@.len(),
                    out@ =~= array_header(self.series.xs@, self.series.ys@, self.index as nat)
                        + self.buffer@.subrange(hlen as int, k as int),
                decreases total - k,
            {
                crate::strfmt::push_char(&mut out, self.buffer[k]);
                k = k + 1;
            }
            proof {
                assert(out@ =~= splice_head(
                    self.buffer@,
                    array_header(self.series.xs@, self.series.ys@, self.index as nat),
                ));
            }
        }
        out
    }
}

/// Builds the text of one chart data file, line by line; its indices
/// start at one and its reserved area is NUL characters.
#[derive(Debug)]
pub struct ChartData {
    /// The characters written so far.
    pub buffer: Vec<char>,
    /// The count of data lines written so far.
    pub written_items: usize,
    /// The name of the x-value array.
    pub xaxis_name: String,
    /// The name of the y-value array.
    pub yaxis_name: String,
}

impl ChartData {
    /// A writer for the given axis names, with nothing written yet.
    pub fn new(xaxis_name: String, yaxis_name: String) -> (r: ChartData)
        ensures
            r.xaxis_name == xaxis_name,
            r.yaxis_name == yaxis_name,
            r.buffer@ == Seq::<char>::empty(),
            r.written_items == 0,
    {
        ChartData { buffer: Vec::new(), written_items: 0, xaxis_name, yaxis_name }
    }

    /// Reserves the header area: NUL characters enough for the final
    /// header, then a line break.
    pub fn start(&mut self)
        requires
            2 * old(self).xaxis_name@.len() + COMMON_RESERVED_CHARS + 1 <= usize::MAX,
        ensures
            final(self).buffer@ == old(self).buffer@ + nuls(
                (COMMON_RESERVED_CHARS + 2 * old(self).xaxis_name@.len()) as nat,
            ) + "\n"@,
            final(self).written_items == old(self).written_items,
            final(self).xaxis_name == old(self).xaxis_name,
            final(self).yaxis_name == old(self).yaxis_name,
    {
        let total = COMMON_RESERVED_CHARS + self.xaxis_name.unicode_len()
            + self.xaxis_name.unicode_len();
        let mut i: usize = 0;
        while i < total
            invariant
                0 <= i <= total,
                self.buffer@ =~= old(self).buffer@ + nuls(i as nat),
                self.written_items == old(self).written_items,
                self.xaxis_name == old(self).xaxis_name,
                self.yaxis_name == old(self).yaxis_name,
            decreases total - i,
        {
            self.buffer.push('\0');
            i = i + 1;
            proof {
                assert(self.buffer@ =~= old(self).buffer@ + nuls(i as nat));
            }
        }
        self.buffer.push('\n');
        proof {
            assert(self.buffer@ =~= old(self).buffer@ + nuls(total as nat) + "\n"@) by {
                reveal_strlit("\n");
            }
        }
    }

    /// Appends one data line: both values at the index one past the
    /// count of lines already written.
    pub fn write(&mut self, x: &str, y: &str)
        requires
            old(self).written_items < usize::MAX,
        ensures
            final(self).buffer@ == old(self).buffer@ + chart_data_line(
                old(self).xaxis_name@,
                old(self).yaxis_name@,
                (old(self).written_items + 1) as nat,
                x@,
                y@,
            ),
            final(self).written_items == old(self).written_items + 1,
            final(self).xaxis_name == old(self).xaxis_name,
            final(self).yaxis_name == old(self).yaxis_name,
    {
        let digits = crate::strfmt::usize_to_string(self.written_items + 1);
        let xs = self.xaxis_name.clone();
        let ys = self.yaxis_name.clone();
        push_str_chars(&mut self.buffer, xs.as_str());
        push_str_chars(&mut self.buffer, "[");
        push_str_chars(&mut self.buffer, digits.as_str());
        push_str_chars(&mut self.buffer, "] = ");
        push_str_chars(&mut self.buffer, x);
        push_str_chars(&mut self.buffer, "; ");
        push_str_chars(&mut self.buffer, ys.as_str());
        push_str_chars(&mut self.buffer, "[");
        push_str_chars(&mut self.buffer, digits.as_str());
        push_str_chars(&mut self.buffer, "] = ");
        push_str_chars(&mut self.buffer, y);
        push_str_chars(&mut self.buffer, ";\n");
        self.written_items = self.written_items + 1;
    }

    /// Finishes the file: the sized header overwrites the reserved area
    /// and the data lines follow.
    pub fn end(self) -> (r: String)
        ensures
            r@ == splice_head(
                self.buffer@,
                array_header(self.xaxis_name@, self.yaxis_name@, self.written_items as nat),
            ),
    {
        let digits = crate::strfmt::usize_to_string(self.written_items);
        let mut header = String::from_str("let ");
        header.append(self.xaxis_name.as_str());
        header.append(" = new Array(");
        header.append(digits.as_str());
        header.append("), ");
        header.append(self.yaxis_name.as_str());
        header.append(" = new Array(");
        header.append(digits.as_str());
        header.append(");\n");
        let hlen = header.unicode_len();
        let mut out = header;
        let total = self.buffer.len();
        if hlen < total {
            let mut k: usize = hlen;
            while k < total
                invariant
                    hlen <= k <= total,
                    total == self.buffer@.len(),
                    out@ =~= array_header(
                        self.xaxis_name@,
                        self.yaxis_name@,
                        self.written_items as nat,
                    ) + self.buffer@.subrange(hlen as int, k as int),
                decreases total - k,
            {
                crate::strfmt::push_char(&mut out, self.buffer[k]);
                k = k + 1;
            }
            proof {
                assert(out@ =~= splice_head(
                    self.buffer@,
                    array_header(self.xaxis_name@, self.yaxis_name@, self.written_items as nat),
                ));
            }
        }
        out
    }
}

} // verus!
