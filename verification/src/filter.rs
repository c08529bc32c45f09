//! Filtering of the diagnostic stream: a time window over timestamps and a
//! stateful host-name filter over the document stream.
//!
//! All timestamps are UTC milliseconds since the Unix epoch.

use vstd::prelude::*;

use crate::bson::{doc_get, spec_hostname, BsonValue, Document};
use crate::error::KeyAccessError;
use crate::error::MetricParseError;

verus! {

/// An optional closed time interval; an absent bound does not constrain.
#[derive(Debug, Clone, Copy, PartialEq, Eq, Structural)]
pub struct TimeWindow {
    /// The inclusive lower bound, when set.
    pub start: Option<i64>,
    /// The inclusive upper bound, when set.
    pub end: Option<i64>,
}

/// Whether `ts` lies within the window widened by `margin` on both sides;
/// both ends are closed.
pub open spec fn spec_includes_margin(w: TimeWindow, ts: i64, margin: int) -> bool {
    &&& (w.start matches Option::Some(s) ==> ts >= s - margin)
    &&& (w.end matches Option::Some(e) ==> ts <= e + margin)
}

/// Whether `ts` lies within the window itself.
pub open spec fn spec_includes(w: TimeWindow, ts: i64) -> bool {
    spec_includes_margin(w, ts, 0)
}

/// Whether the closed interval `[start, end]` overlaps the window.
pub open spec fn spec_overlaps(w: TimeWindow, start: i64, end: i64) -> bool {
    &&& (w.start matches Option::Some(s) ==> end >= s)
    &&& (w.end matches Option::Some(e) ==> start <= e)
}

/// `wide` spans at least as much as `narrow` on both sides.
pub open spec fn spec_wider(wide: TimeWindow, narrow: TimeWindow) -> bool {
    &&& (wide.start matches Option::Some(ws) ==> narrow.start matches Option::Some(ns) && ws
        <= ns)
    &&& (wide.end matches Option::Some(we) ==> narrow.end matches Option::Some(ne) && ne <= we)
}

impl TimeWindow {
    /// A window with the given optional bounds.
    pub fn new(start: Option<i64>, end: Option<i64>) -> (r: TimeWindow)
        ensures
            r.start == start,
            r.end == end,
    {
        TimeWindow { start, end }
    }

    /// Whether `ts` lies within this window, both ends closed.
    pub fn includes(&self, ts: i64) -> (r: bool)
        ensures
            r == spec_includes(*self, ts),
    {
        self.includes_with_margin(ts, 0)
    }

    /// Whether `ts` lies within this window widened by `margin`
    /// milliseconds on both sides.
    pub fn includes_with_margin(&self, ts: i64, margin: i64) -> (r: bool)
        requires
            margin >= 0,
        ensures
            r == spec_includes_margin(*self, ts, margin as int),
    {
        let after_start = match self.start {
            Some(s) => (ts as i128) >= (s as i128) - (margin as i128),
            None => true,
        };
        let before_end = match self.end {
            Some(e) => (ts as i128) <= (e as i128) + (margin as i128),
            None => true,
        };
        after_start && before_end
    }

    /// Whether the closed interval `[start, end]` overlaps this window.
    pub fn overlaps(&self, start: i64, end: i64) -> (r: bool)
        ensures
            r == spec_overlaps(*self, start, end),
    {
        let from_ok = match self.start {
            Some(s) => end >= s,
            None => true,
        };
        let to_ok = match self.end {
            Some(e) => start <= e,
            None => true,
        };
        from_ok && to_ok
    }
}

/// Widening a window keeps every timestamp it already included, with any
/// margin.
pub proof fn lemma_window_widening_monotone(
    wide: TimeWindow,
    narrow: TimeWindow,
    ts: i64,
    margin: int,
)
    requires
        spec_wider(wide, narrow),
        spec_includes_margin(narrow, ts, margin),
        margin >= 0,
    ensures
        spec_includes_margin(wide, ts, margin),
{
}

/// A filter over the diagnostic data: an optional host name and an
/// optional time window.
#[derive(Debug)]
pub struct MetricsFilter {
    /// The host whose metrics are selected; absent selects every host.
    pub hostname: Option<String>,
    /// The inclusive start of the selected window, when set.
    pub start: Option<i64>,
    /// The inclusive end of the selected window, when set.
    pub end: Option<i64>,
}

impl MetricsFilter {
    /// A filter with the given optional host name and window bounds.
    pub fn new(hostname: Option<String>, start: Option<i64>, end: Option<i64>) -> (r:
        MetricsFilter)
        ensures
            r.hostname == hostname,
            r.start == start,
            r.end == end,
    {
        MetricsFilter { hostname, start, end }
    }
}

/// What the host-name filter does with one document.
#[derive(Debug, Clone, Copy, PartialEq, Eq, Structural)]
pub enum HostStep {
    /// The document passes through.
    Pass,
    /// The document is dropped.
    Drop,
    /// An error item is emitted in its place.
    Fail,
}

/// Whether a document's host matches the requested one; no request
/// matches every host.
pub open spec fn matches_host(host: Option<Seq<char>>, h: Seq<char>) -> bool {
    match host {
        Option::Some(w) => w == h,
        Option::None => true,
    }
}

/// The decision of the host-name filter on one document together with its
/// next state: a metadata document updates the state with whether its host
/// matches and passes only on a match; other known kinds pass only while
/// the state is set; anything that cannot be classified, and a metadata
/// document without a readable host name, fails without changing state.
pub open spec fn host_step(host: Option<Seq<char>>, flag: bool, d: Document) -> (HostStep, bool) {
    match doc_get(d, "type"@) {
        Option::Some(BsonValue::Int32(t)) => {
            if t == 0 {
                match spec_hostname(d) {
                    Ok(h) => {
                        let m = matches_host(host, h);
                        (
                            if m {
                                HostStep::Pass
                            } else {
                                HostStep::Drop
                            },
                            m,
                        )
                    },
                    Err(_) => (HostStep::Fail, flag),
                }
            } else if t == 1 || t == 2 {
                (
                    if flag {
                        HostStep::Pass
                    } else {
                        HostStep::Drop
                    },
                    flag,
                )
            } else {
                (HostStep::Fail, flag)
            }
        },
        _ => (HostStep::Fail, flag),
    }
}

/// The error item the host-name filter emits for a document it fails on:
/// an unknown kind value, a missing or mistyped `type` field, or the first
/// failing key of the host-name path.
pub open spec fn host_fail_error(d: Document, e: MetricParseError) -> bool {
    match doc_get(d, "type"@) {
        Option::Some(BsonValue::Int32(t)) => {
            if t == 0 {
                match spec_hostname(d) {
                    Ok(_) => false,
                    Err(crate::bson::KeyErr::NotFound(k)) => e matches MetricParseError::FieldAccess(
                        KeyAccessError::KeyNotFound { key },
                    ) && key@ == k,
                    Err(crate::bson::KeyErr::WrongType(k)) => e matches MetricParseError::FieldAccess(
                        KeyAccessError::UnexpectedKeyType { key },
                    ) && key@ == k,
                }
            } else if t == 1 || t == 2 {
                false
            } else {
                e == MetricParseError::UnknownDocumentKind(t)
            }
        },
        Option::Some(_) => e matches MetricParseError::FieldAccess(
            KeyAccessError::UnexpectedKeyType { key },
        ) && key@ == "type"@,
        Option::None => e matches MetricParseError::FieldAccess(
            KeyAccessError::KeyNotFound { key },
        ) && key@ == "type"@,
    }
}

/// The view of an optional host name.
pub open spec fn host_view(host: Option<String>) -> Option<Seq<char>> {
    match host {
        Option::Some(h) => Option::Some(h@),
        Option::None => Option::None,
    }
}

/// The documents the host-name filter passes through, starting in state
/// `flag`; dropped and failing documents leave the stream.
pub open spec fn host_docs_filter(host: Option<Seq<char>>, flag: bool, docs: Seq<Document>) -> Seq<
    Document,
>
    decreases docs.len(),
{
    if docs.len() == 0 {
        Seq::empty()
    } else {
        let (o, f2) = host_step(host, flag, docs[0]);
        (if o == HostStep::Pass {
            seq![docs[0]]
        } else {
            Seq::empty()
        }) + host_docs_filter(host, f2, docs.drop_first())
    }
}

/// Passing the host-name filter's own output through it again changes
/// nothing, for the same host. The second pass may start in any state at
/// least as permissive as the first.
pub proof fn lemma_host_filter_idempotent(
    host: Option<Seq<char>>,
    f1: bool,
    f2: bool,
    docs: Seq<Document>,
)
    requires
        f1 ==> f2,
    ensures
        host_docs_filter(host, f2, host_docs_filter(host, f1, docs)) == host_docs_filter(
            host,
            f1,
            docs,
        ),
    decreases docs.len(),
{
    if docs.len() == 0 {
        assert(host_docs_filter(host, f2, Seq::empty()) =~= Seq::<Document>::empty());
    } else {
        let d = docs[0];
        let rest = docs.drop_first();
        let (o, g1) = host_step(host, f1, d);
        if o == HostStep::Pass {
            let out_rest = host_docs_filter(host, g1, rest);
            let out = seq![d] + out_rest;
            assert(host_docs_filter(host, f1, docs) == out);
            assert(out.drop_first() =~= out_rest);
            assert(out[0] == d);
            let (o2, g2) = host_step(host, f2, d);
            match doc_get(d, "type"@) {
                Option::Some(BsonValue::Int32(t)) => {
                    if t == 0 {
                        assert(o2 == HostStep::Pass && g2 == g1);
                    } else {
                        assert(g1 == f1 && f1);
                        assert(o2 == HostStep::Pass && g2 == f2);
                    }
                },
                _ => {
                    assert(false);
                },
            }
            lemma_host_filter_idempotent(host, g1, g2, rest);
            assert(host_docs_filter(host, f2, out) == seq![d] + host_docs_filter(
                host,
                g2,
                out_rest,
            ));
            assert(seq![d] + host_docs_filter(host, g1, rest) =~= out);
        } else {
            lemma_host_filter_idempotent(host, g1, f2, rest);
            assert(host_docs_filter(host, f1, docs) =~= host_docs_filter(host, g1, rest));
        }
    }
}

/// The stateful host-name filter over the document stream.
#[derive(Debug)]
pub struct HostnameFilter {
    /// The requested host name; absent matches every host.
    pub hostname: Option<String>,
    /// Whether the stream is currently inside a matching host's documents.
    pub are_host_metrics: bool,
}

impl HostnameFilter {
    /// A filter for the given host, starting outside any matching run.
    pub fn new(hostname: Option<String>) -> (r: HostnameFilter)
        ensures
            r.hostname == hostname,
            r.are_host_metrics == false,
    {
        HostnameFilter { hostname, are_host_metrics: false }
    }

    /// Decides one document: passes or drops it as [`host_step`] states,
    /// or reports the classification error in its place.
    pub fn step(&mut self, doc: &Document) -> (r: Result<bool, MetricParseError>)
        ensures
            final(self).hostname == old(self).hostname,
            ({
                let (o, f2) = host_step(host_view(old(self).hostname), old(self).are_host_metrics, *doc);
                &&& final(self).are_host_metrics == f2
                &&& (o == HostStep::Pass <==> r == Ok::<bool, MetricParseError>(true))
                &&& (o == HostStep::Drop <==> r == Ok::<bool, MetricParseError>(false))
                &&& (o == HostStep::Fail <==> r is Err)
                &&& (r matches Err(e) ==> host_fail_error(*doc, e))
            }),
    {
        match doc.kind() {
            Ok(crate::bson::DocumentKind::Metadata) => {
                match doc.hostname() {
                    Ok(h) => {
                        let matched = match &self.hostname {
                            Some(want) => *want == *h,
                            None => true,
                        };
                        self.are_host_metrics = matched;
                        Ok(matched)
                    },
                    Err(e) => Err(e),
                }
            },
            Ok(_) => Ok(self.are_host_metrics),
            Err(e) => Err(e),
        }
    }
}

/// A standalone document filter that widens the window by a fixed margin
/// before judging a document's timestamp. The chunk pipeline itself holds
/// documents against the window with no margin; this filter is for
/// callers that assemble their own stream and want boundary chunks kept.
#[derive(Debug)]
pub struct TimeWindowFilter {
    /// The window documents are held against.
    pub time_window: TimeWindow,
    /// The margin, in milliseconds, by which the window is widened.
    pub time_margin: i64,
}

/// Two hours, in milliseconds: the margin of the document-level filter.
pub const DOCUMENT_TIME_MARGIN_MILLIS: i64 = 7_200_000;

impl TimeWindowFilter {
    /// A document-level filter over the given window, with the fixed
    /// two-hour margin.
    pub fn new(time_window: TimeWindow) -> (r: TimeWindowFilter)
        ensures
            r.time_window == time_window,
            r.time_margin == DOCUMENT_TIME_MARGIN_MILLIS,
    {
        TimeWindowFilter { time_window, time_margin: DOCUMENT_TIME_MARGIN_MILLIS }
    }

    /// Decides one document: passes it when its timestamp lies within the
    /// widened window, drops it otherwise, and reports a document without
    /// a readable timestamp as an error item.
    pub fn step(&self, doc: &Document) -> (r: Result<bool, MetricParseError>)
        requires
            self.time_margin >= 0,
        ensures
            match doc_get(*doc, "_id"@) {
                Option::Some(BsonValue::DateTime(ms)) => r == Ok::<bool, MetricParseError>(
                    spec_includes_margin(self.time_window, ms, self.time_margin as int),
                ),
                _ => r is Err,
            },
    {
        match doc.timestamp() {
            Ok(ts) => Ok(self.time_window.includes_with_margin(ts, self.time_margin)),
            Err(e) => Err(e),
        }
    }
}

} // verus!
