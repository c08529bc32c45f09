//! Streaming of binary documents out of a file's bytes and the per-file
//! pipeline that turns selected documents into metric chunks.

use vstd::prelude::*;

use crate::bson::{doc_bytes, doc_get, parse_document, wf_doc, BsonValue, Document, MAX_DEPTH};
use crate::error::MetricParseError;
use crate::filter::{host_fail_error, host_step, host_view, spec_includes, HostStep, HostnameFilter, TimeWindow};
use crate::metrics::MetricsChunk;

verus! {

/// A pull-based reader of length-prefixed binary documents over a file's
/// bytes.
#[derive(Debug)]
pub struct BsonReader {
    /// The file's bytes.
    pub data: Vec<u8>,
    /// The position the next document starts at.
    pub pos: usize,
}

impl BsonReader {
    /// A reader over the given bytes, starting at their beginning.
    pub fn new(data: Vec<u8>) -> (r: BsonReader)
        ensures
            r.data == data,
            r.pos == 0,
    {
        BsonReader { data, pos: 0 }
    }

    /// Yields the next document.
    ///
    /// The stream ends cleanly when fewer than four bytes remain, the
    /// width of a document's length header. A malformed document is one
    /// error item, and the reader is exhausted afterwards.
    pub fn next(&mut self) -> (r: Option<Result<Document, MetricParseError>>)
        ensures
            final(self).data == old(self).data,
            match r {
                Option::None => {
                    &&& old(self).data@.len() < old(self).pos + 4
                    &&& final(self).pos == old(self).pos
                },
                Option::Some(Ok(d)) => {
                    &&& old(self).pos + 4 <= old(self).data@.len()
                    &&& wf_doc(d)
                    &&& old(self).pos + 5 <= final(self).pos <= old(self).data@.len()
                    &&& doc_bytes(d) == old(self).data@.subrange(
                        old(self).pos as int,
                        final(self).pos as int,
                    )
                },
                Option::Some(Err(e)) => {
                    &&& old(self).pos + 4 <= old(self).data@.len()
                    &&& e matches MetricParseError::BsonDeserialzation { .. }
                    &&& final(self).pos == old(self).data@.len()
                },
            },
    {
        if self.pos > self.data.len() || self.data.len() - self.pos < 4 {
            return None;
        }
        match parse_document(self.data.as_slice(), self.pos, MAX_DEPTH) {
            Ok((d, end)) => {
                self.pos = end;
                Some(Ok(d))
            },
            Err(pe) => {
                self.pos = self.data.len();
                let message = match pe {
                    crate::bytes::ReadError::Eof => String::from_str("a document is truncated"),
                    crate::bytes::ReadError::InvalidData { message } => message,
                };
                Some(Err(MetricParseError::BsonDeserialzation { message }))
            },
        }
    }
}

/// Whether a document is a metrics chunk: its `type` field holds one; a
/// missing or mistyped field is a key-access error naming the key.
pub fn metrics_chunk(document: &Document) -> (r: Result<bool, MetricParseError>)
    ensures
        match doc_get(*document, "type"@) {
            Option::Some(BsonValue::Int32(t)) => r == Ok::<bool, MetricParseError>(t == 1),
            Option::Some(_) => r matches Err(
                MetricParseError::FieldAccess(
                    crate::error::KeyAccessError::UnexpectedKeyType { key: k },
                ),
            ) && k@ == "type"@,
            Option::None => r matches Err(
                MetricParseError::FieldAccess(
                    crate::error::KeyAccessError::KeyNotFound { key: k },
                ),
            ) && k@ == "type"@,
        },
{
    match document.get_i32("type") {
        Ok(t) => Ok(t == 1),
        Err(e) => Err(MetricParseError::FieldAccess(e)),
    }
}

/// A run of documents parsed one after another out of `data`: each is
/// well formed and serializes to the bytes from its start, and the next
/// one starts where it ended, the last at `to`.
pub open spec fn docs_chain(data: Seq<u8>, from: int, docs: Seq<Document>, to: int) -> bool
    decreases docs.len(),
{
    if docs.len() == 0 {
        to == from
    } else {
        let l = doc_bytes(docs[0]).len() as int;
        &&& wf_doc(docs[0])
        &&& 5 <= l
        &&& from + l <= data.len()
        &&& doc_bytes(docs[0]) == data.subrange(from, from + l)
        &&& docs_chain(data, from + l, docs.drop_first(), to)
    }
}

/// The host-filter state after it has seen the given documents in order.
pub open spec fn host_flag_after(host: Option<Seq<char>>, flag: bool, docs: Seq<Document>) -> bool
    decreases docs.len(),
{
    if docs.len() == 0 {
        flag
    } else {
        host_flag_after(host, host_step(host, flag, docs[0]).1, docs.drop_first())
    }
}

/// Whether the pipeline consumes a document silently: the host filter
/// drops it, or it passes with a readable timestamp that lies outside the
/// window, or inside it but with a kind other than metrics chunk.
pub open spec fn doc_consumed(
    host: Option<Seq<char>>,
    flag: bool,
    window: TimeWindow,
    d: Document,
) -> bool {
    let o = host_step(host, flag, d).0;
    if o == HostStep::Drop {
        true
    } else if o == HostStep::Pass {
        match doc_get(d, "_id"@) {
            Option::Some(BsonValue::DateTime(ms)) => !spec_includes(window, ms) || (match doc_get(
                d,
                "type"@,
            ) {
                Option::Some(BsonValue::Int32(t)) => t != 1,
                _ => false,
            }),
            _ => false,
        }
    } else {
        false
    }
}

/// Every document of the run is consumed silently, the filter state
/// threading through.
pub open spec fn all_consumed(
    host: Option<Seq<char>>,
    flag: bool,
    window: TimeWindow,
    docs: Seq<Document>,
) -> bool
    decreases docs.len(),
{
    if docs.len() == 0 {
        true
    } else {
        doc_consumed(host, flag, window, docs[0]) && all_consumed(
            host,
            host_step(host, flag, docs[0]).1,
            window,
            docs.drop_first(),
        )
    }
}

/// The error item the pipeline emits for a parsed document: the host
/// filter's own failure; or, past the filter, a missing or mistyped
/// timestamp; or, for an in-window chunk document, a missing or mistyped
/// payload field, or a payload whose decode failed with one of the decode
/// error kinds (which `MetricsChunk::from_reader` ties to their causes).
pub open spec fn doc_yields_error(
    host: Option<Seq<char>>,
    flag: bool,
    window: TimeWindow,
    d: Document,
    e: MetricParseError,
) -> bool {
    let o = host_step(host, flag, d).0;
    if o == HostStep::Fail {
        host_fail_error(d, e)
    } else if o == HostStep::Pass {
        match doc_get(d, "_id"@) {
            Option::Some(BsonValue::DateTime(ms)) => spec_includes(window, ms) && (match doc_get(
                d,
                "type"@,
            ) {
                Option::Some(BsonValue::Int32(t)) => t == 1,
                _ => false,
            }) && (match doc_get(d, "data"@) {
                Option::Some(BsonValue::Binary(sub, b)) => {
                    if sub == 0 {
                        !(e is UnknownDocumentKind) && !(e is IntConversion)
                    } else {
                        e matches MetricParseError::FieldAccess(
                            crate::error::KeyAccessError::UnexpectedKeyType { key },
                        ) && key@ == "data"@
                    }
                },
                Option::Some(_) => e matches MetricParseError::FieldAccess(
                    crate::error::KeyAccessError::UnexpectedKeyType { key },
                ) && key@ == "data"@,
                Option::None => e matches MetricParseError::FieldAccess(
                    crate::error::KeyAccessError::KeyNotFound { key },
                ) && key@ == "data"@,
            }),
            Option::Some(_) => e matches MetricParseError::FieldAccess(
                crate::error::KeyAccessError::UnexpectedKeyType { key },
            ) && key@ == "_id"@,
            Option::None => e matches MetricParseError::FieldAccess(
                crate::error::KeyAccessError::KeyNotFound { key },
            ) && key@ == "_id"@,
        }
    } else {
        false
    }
}

/// One more parsed document extends a run.
proof fn lemma_docs_chain_snoc(data: Seq<u8>, from: int, docs: Seq<Document>, to: int, d: Document)
    requires
        docs_chain(data, from, docs, to),
        wf_doc(d),
        5 <= doc_bytes(d).len(),
        to + doc_bytes(d).len() <= data.len(),
        doc_bytes(d) == data.subrange(to, to + doc_bytes(d).len() as int),
    ensures
        docs_chain(data, from, docs.push(d), to + doc_bytes(d).len() as int),
    decreases docs.len(),
{
    let to2 = to + doc_bytes(d).len() as int;
    if docs.len() == 0 {
        assert(docs.push(d)[0] == d);
        assert(docs.push(d).drop_first() =~= Seq::<Document>::empty());
        assert(docs_chain(data, to2, Seq::<Document>::empty(), to2));
        assert(docs_chain(data, from, docs.push(d), to2));
    } else {
        assert(docs.push(d)[0] == docs[0]);
        assert(docs.push(d).drop_first() =~= docs.drop_first().push(d));
        lemma_docs_chain_snoc(data, from + doc_bytes(docs[0]).len() as int, docs.drop_first(), to, d);
        assert(docs_chain(data, from, docs.push(d), to2));
    }
}

/// One more consumed document extends a consumed run, when it is consumed
/// in the state the run leaves.
proof fn lemma_all_consumed_snoc(
    host: Option<Seq<char>>,
    flag: bool,
    window: TimeWindow,
    docs: Seq<Document>,
    d: Document,
)
    requires
        all_consumed(host, flag, window, docs),
        doc_consumed(host, host_flag_after(host, flag, docs), window, d),
    ensures
        all_consumed(host, flag, window, docs.push(d)),
    decreases docs.len(),
{
    if docs.len() == 0 {
        assert(docs.push(d)[0] == d);
        assert(docs.push(d).drop_first() =~= Seq::<Document>::empty());
        assert(all_consumed(host, host_step(host, flag, d).1, window, Seq::<Document>::empty()));
        assert(all_consumed(host, flag, window, docs.push(d)));
    } else {
        assert(docs.push(d)[0] == docs[0]);
        assert(docs.push(d).drop_first() =~= docs.drop_first().push(d));
        lemma_all_consumed_snoc(host, host_step(host, flag, docs[0]).1, window, docs.drop_first(), d);
        assert(all_consumed(host, flag, window, docs.push(d)));
    }
}

/// The filter state after a run and one more document.
proof fn lemma_host_flag_after_snoc(
    host: Option<Seq<char>>,
    flag: bool,
    docs: Seq<Document>,
    d: Document,
)
    ensures
        host_flag_after(host, flag, docs.push(d)) == host_step(
            host,
            host_flag_after(host, flag, docs),
            d,
        ).1,
    decreases docs.len(),
{
    if docs.len() == 0 {
        assert(docs.push(d)[0] == d);
        assert(docs.push(d).drop_first() =~= Seq::<Document>::empty());
        assert(host_flag_after(host, host_step(host, flag, d).1, Seq::<Document>::empty())
            == host_step(host, flag, d).1);
        assert(host_flag_after(host, flag, docs.push(d)) == host_step(host, flag, d).1);
    } else {
        assert(docs.push(d)[0] == docs[0]);
        assert(docs.push(d).drop_first() =~= docs.drop_first().push(d));
        lemma_host_flag_after_snoc(host, host_step(host, flag, docs[0]).1, docs.drop_first(), d);
        assert(host_flag_after(host, flag, docs.push(d)) == host_step(
            host,
            host_flag_after(host, flag, docs),
            d,
        ).1);
    }
}

/// The per-file pipeline: reads documents out of one file's bytes, applies
/// the host-name filter, the document-level window and the kind selection,
/// and decodes each selected document's payload into a metric chunk.
#[derive(Debug)]
pub struct MetricsChunkReader {
    /// The document reader over the file's bytes.
    pub reader: BsonReader,
}

impl MetricsChunkReader {
    /// A pipeline over one file's document reader.
    pub fn new(reader: BsonReader) -> (r: MetricsChunkReader)
        ensures
            r.reader == reader,
    {
        MetricsChunkReader { reader }
    }

    /// Yields the next metric chunk or per-item error of this file.
    ///
    /// The host-name filter's state is handed in so that one state spans
    /// the whole archive. Whatever comes back, a run of silently consumed
    /// documents was parsed first, as [`docs_chain`] and [`all_consumed`]
    /// state: the filter dropped each, or it lay outside the window, or it
    /// was of another kind. A yielded chunk decodes from the `data`
    /// payload of the next document after the run: one the filter passes,
    /// timestamped inside the window and of the metrics-chunk kind. An
    /// error item names its cause: either the bytes after the run are
    /// malformed and the file is exhausted, or the next document parsed
    /// and its own classification or decode failure is the item, the
    /// cursor moving past it. The stream ends only when a consumed run
    /// reaches the clean end of the bytes, and every yield makes
    /// progress.
    #[verifier::loop_isolation(false)]
    pub fn next(&mut self, hostname_filter: &mut HostnameFilter, window: &TimeWindow) -> (r:
        Option<Result<MetricsChunk, MetricParseError>>)
        ensures
            final(self).reader.data == old(self).reader.data,
            old(self).reader.pos <= final(self).reader.pos,
            r is Some ==> old(self).reader.pos < final(self).reader.pos,
            final(hostname_filter).hostname == old(hostname_filter).hostname,
            match r {
                Option::None => exists|seen: Seq<Document>|
                    #![trigger docs_chain(
                        old(self).reader.data@,
                        old(self).reader.pos as int,
                        seen,
                        final(self).reader.pos as int,
                    )]
                    ({
                        let host = host_view(old(hostname_filter).hostname);
                        &&& docs_chain(
                            old(self).reader.data@,
                            old(self).reader.pos as int,
                            seen,
                            final(self).reader.pos as int,
                        )
                        &&& all_consumed(
                            host,
                            old(hostname_filter).are_host_metrics,
                            *window,
                            seen,
                        )
                        &&& final(hostname_filter).are_host_metrics == host_flag_after(
                            host,
                            old(hostname_filter).are_host_metrics,
                            seen,
                        )
                        &&& old(self).reader.data@.len() < final(self).reader.pos + 4
                    }),
                Option::Some(Ok(chunk)) => exists|seen: Seq<Document>, dk: Document, p: int|
                    #![trigger docs_chain(
                        old(self).reader.data@,
                        old(self).reader.pos as int,
                        seen,
                        p,
                    ), doc_bytes(dk)]
                    ({
                        let host = host_view(old(hostname_filter).hostname);
                        let mid_flag = host_flag_after(
                            host,
                            old(hostname_filter).are_host_metrics,
                            seen,
                        );
                        &&& docs_chain(
                            old(self).reader.data@,
                            old(self).reader.pos as int,
                            seen,
                            p,
                        )
                        &&& all_consumed(
                            host,
                            old(hostname_filter).are_host_metrics,
                            *window,
                            seen,
                        )
                        &&& wf_doc(dk)
                        &&& p + doc_bytes(dk).len() <= old(self).reader.data@.len()
                        &&& doc_bytes(dk) == old(self).reader.data@.subrange(
                            p,
                            p + doc_bytes(dk).len() as int,
                        )
                        &&& host_step(host, mid_flag, dk).0 == HostStep::Pass
                        &&& final(hostname_filter).are_host_metrics == host_step(
                            host,
                            mid_flag,
                            dk,
                        ).1
                        &&& (doc_get(dk, "_id"@) matches Option::Some(BsonValue::DateTime(ms))
                            && spec_includes(*window, ms))
                        &&& doc_get(dk, "type"@) == Option::Some(BsonValue::Int32(1i32))
                        &&& (doc_get(dk, "data"@) matches Option::Some(BsonValue::Binary(sub, b))
                            && sub == 0 && b@.len() >= 4 && crate::compress::zlib_inflate(
                            b@.subrange(4, b@.len() as int),
                        ) is Some && (exists|
                            doc2: Document,
                            de2: int,
                            rs2: Seq<crate::metrics::raw::RawMetric>,
                        |
                            crate::metrics::chunk_decodes(
                                crate::compress::zlib_inflate(
                                    b@.subrange(4, b@.len() as int),
                                )->Some_0,
                                doc2,
                                de2,
                                rs2,
                                chunk,
                            )))
                    }),
                Option::Some(Err(e)) => exists|seen: Seq<Document>, p: int|
                    #![trigger docs_chain(
                        old(self).reader.data@,
                        old(self).reader.pos as int,
                        seen,
                        p,
                    )]
                    ({
                        let host = host_view(old(hostname_filter).hostname);
                        let mid_flag = host_flag_after(
                            host,
                            old(hostname_filter).are_host_metrics,
                            seen,
                        );
                        &&& docs_chain(
                            old(self).reader.data@,
                            old(self).reader.pos as int,
                            seen,
                            p,
                        )
                        &&& all_consumed(
                            host,
                            old(hostname_filter).are_host_metrics,
                            *window,
                            seen,
                        )
                        &&& ({
                            ||| (p + 4 <= old(self).reader.data@.len() && final(self).reader.pos
                                == old(self).reader.data@.len() && (e matches MetricParseError::BsonDeserialzation {
                                ..
                            }) && final(hostname_filter).are_host_metrics == mid_flag)
                            ||| (exists|dk: Document|
                                wf_doc(dk) && p + doc_bytes(dk).len() <= old(
                                    self,
                                ).reader.data@.len() && #[trigger] doc_bytes(dk) == old(
                                    self,
                                ).reader.data@.subrange(p, p + doc_bytes(dk).len() as int)
                                    && final(self).reader.pos >= p + doc_bytes(dk).len()
                                    && doc_yields_error(host, mid_flag, *window, dk, e)
                                    && final(hostname_filter).are_host_metrics == host_step(
                                    host,
                                    mid_flag,
                                    dk,
                                ).1)
                        })
                    }),
            },
    {
        let ghost data0 = old(self).reader.data@;
        let ghost pos0 = old(self).reader.pos as int;
        let ghost host = host_view(old(hostname_filter).hostname);
        let ghost flag0 = old(hostname_filter).are_host_metrics;
        let ghost mut seen: Seq<Document> = Seq::empty();
        loop
            invariant
                self.reader.data == old(self).reader.data,
                old(self).reader.pos <= self.reader.pos,
                self.reader.pos <= self.reader.data@.len() || self.reader.data@.len()
                    < self.reader.pos + 4,
                hostname_filter.hostname == old(hostname_filter).hostname,
                docs_chain(data0, pos0, seen, self.reader.pos as int),
                all_consumed(host, flag0, *window, seen),
                hostname_filter.are_host_metrics == host_flag_after(host, flag0, seen),
            decreases self.reader.data@.len() + 5 - self.reader.pos,
        {
            let ghost prev = self.reader.pos as int;
            let item = match self.reader.next() {
                Some(x) => x,
                None => {
                    return None;
                },
            };
            let doc = match item {
                Ok(d) => d,
                Err(e) => {
                    proof {
                        assert(docs_chain(data0, pos0, seen, prev));
                    }
                    return Some(Err(e));
                },
            };
            let ghost cur = self.reader.pos as int;
            proof {
                assert(doc_bytes(doc).len() == cur - prev);
            }
            let keep = match hostname_filter.step(&doc) {
                Ok(k) => k,
                Err(e) => {
                    proof {
                        assert(docs_chain(data0, pos0, seen, prev));
                    }
                    return Some(Err(e));
                },
            };
            if !keep {
                proof {
                    lemma_docs_chain_snoc(data0, pos0, seen, prev, doc);
                    lemma_all_consumed_snoc(host, flag0, *window, seen, doc);
                    lemma_host_flag_after_snoc(host, flag0, seen, doc);
                    seen = seen.push(doc);
                }
                continue ;
            }
            let ts = match doc.timestamp() {
                Ok(t) => t,
                Err(e) => {
                    proof {
                        assert(docs_chain(data0, pos0, seen, prev));
                    }
                    return Some(Err(e));
                },
            };
            if !window.includes(ts) {
                proof {
                    lemma_docs_chain_snoc(data0, pos0, seen, prev, doc);
                    lemma_all_consumed_snoc(host, flag0, *window, seen, doc);
                    lemma_host_flag_after_snoc(host, flag0, seen, doc);
                    seen = seen.push(doc);
                }
                continue ;
            }
            let is_chunk = match metrics_chunk(&doc) {
                Ok(b) => b,
                Err(e) => {
                    proof {
                        assert(docs_chain(data0, pos0, seen, prev));
                    }
                    return Some(Err(e));
                },
            };
            if !is_chunk {
                proof {
                    lemma_docs_chain_snoc(data0, pos0, seen, prev, doc);
                    lemma_all_consumed_snoc(host, flag0, *window, seen, doc);
                    lemma_host_flag_after_snoc(host, flag0, seen, doc);
                    seen = seen.push(doc);
                }
                continue ;
            }
            let payload = match doc.metrics_chunk() {
                Ok(p) => p,
                Err(e) => {
                    proof {
                        assert(docs_chain(data0, pos0, seen, prev));
                    }
                    return Some(Err(e));
                },
            };
            let decoded = MetricsChunk::from_reader(payload.as_slice());
            match decoded {
                Ok(chunk) => {
                    proof {
                        assert(docs_chain(data0, pos0, seen, prev));
                        assert(doc_bytes(doc) == data0.subrange(
                            prev,
                            prev + doc_bytes(doc).len() as int,
                        ));
                    }
                    return Some(Ok(chunk));
                },
                Err(e) => {
                    proof {
                        assert(docs_chain(data0, pos0, seen, prev));
                    }
                    return Some(Err(e));
                },
            }
        }
    }
}

} // verus!
