//! Decoded diagnostic metrics: typed values, measurements, metrics and the
//! chunks that group them.

pub mod raw;

use vstd::prelude::*;

use crate::bson::Document;
use crate::error::MetricParseError;

verus! {

/// A single typed metric value.
///
/// Values travel through the decoder as raw 64-bit slots; this type is the
/// final reinterpretation of a slot under the metric's declared type. A
/// floating-point metric is carried as the unsigned integer the archive
/// stored for it, which is the double rounded toward zero and clamped to
/// the 64-bit unsigned range; a datetime is milliseconds since the Unix
/// epoch.
#[derive(Debug, Clone, Copy, PartialEq, Eq, Structural)]
pub enum MetricValue {
    /// An unsigned 32-bit integer.
    UInt32(u32),
    /// A signed 32-bit integer.
    Int32(i32),
    /// A signed 64-bit integer.
    Int64(i64),
    /// A 64-bit floating point number, as the integer it was stored as.
    Float64(u64),
    /// A boolean value.
    Boolean(bool),
    /// A point in time: milliseconds since the Unix epoch.
    DateTime(i64),
}

/// A measurement of a metric at a single point in time.
#[derive(Debug, Clone, Copy, PartialEq, Eq, Structural)]
pub struct Measurement {
    /// When the measurement was taken: milliseconds since the Unix epoch.
    pub timestamp: i64,
    /// The measured value.
    pub value: MetricValue,
}


/// A single named time series decoded from a chunk.
#[derive(Debug, Clone)]
pub struct Metric {
    /// The display name: the path components joined by single spaces.
    pub name: String,
    /// The path components of the metric.
    pub groups: Vec<String>,
    /// The measurements of the metric, one per sample.
    pub measurements: Vec<Measurement>,
    /// The timestamp of the first measurement position.
    pub start: i64,
    /// The timestamp of the last measurement position.
    pub end: i64,
}

/// The spec-level shape of one assembled metric.
#[verifier::ext_equal]
pub struct MetricModel {
    /// The joined display name.
    pub name: Seq<char>,
    /// The path components.
    pub groups: Seq<Seq<char>>,
    /// The measurements.
    pub measurements: Seq<Measurement>,
    /// The first rail timestamp.
    pub start: i64,
    /// The last rail timestamp.
    pub end: i64,
}

/// The spec-level shape of an assembled metric, read off an executable one.
pub open spec fn metric_view(m: Metric) -> MetricModel {
    MetricModel {
        name: m.name@,
        groups: raw::path_view(m.groups@),
        measurements: m.measurements@,
        start: m.start,
        end: m.end,
    }
}

/// The timestamps a rail row stands for: each slot reinterpreted as signed
/// milliseconds.
pub open spec fn to_ts(values: Seq<u64>) -> Seq<i64> {
    values.map_values(|v: u64| v as i64)
}

/// The name of a path: its first `i` components joined by single spaces.
pub open spec fn join_pre(g: Seq<Seq<char>>, i: int) -> Seq<char>
    decreases i,
{
    if i <= 0 {
        Seq::empty()
    } else if i == 1 {
        g[0]
    } else {
        join_pre(g, i - 1) + " "@ + g[i - 1]
    }
}

/// The display name of a path: its components joined by single spaces.
pub open spec fn join_sp(g: Seq<Seq<char>>) -> Seq<char> {
    join_pre(g, g.len() as int)
}

/// What assembling the raw metrics from position `i` on yields, starting
/// from the given chunk-level and metric-level timestamp rails: either the
/// assembled metrics together with the final chunk rail, or the name of
/// the first metric that found no rail.
///
/// A single-component `start` row becomes the chunk rail and also serves
/// as the metric rail until a deeper `start` row replaces it; `end` rows
/// are dropped; every other row pairs its values with the metric rail.
pub open spec fn spec_assemble(
    rows: Seq<raw::RawMetric>,
    i: int,
    chunk_ts: Seq<i64>,
    ts: Seq<i64>,
) -> Result<(Seq<MetricModel>, Seq<i64>), Seq<char>>
    decreases rows.len() - i,
{
    if i < 0 || i >= rows.len() {
        Ok((Seq::empty(), chunk_ts))
    } else {
        let g = raw::path_view(rows[i].groups@);
        let vals = rows[i].values@;
        if g.len() > 0 && g.last() == "start"@ {
            if g.len() == 1 {
                spec_assemble(rows, i + 1, to_ts(vals), to_ts(vals))
            } else {
                spec_assemble(rows, i + 1, chunk_ts, to_ts(vals))
            }
        } else if g.len() > 0 && g.last() == "end"@ {
            spec_assemble(rows, i + 1, chunk_ts, ts)
        } else if ts.len() == 0 {
            Err(join_sp(g))
        } else {
            let count = if ts.len() <= vals.len() {
                ts.len() as int
            } else {
                vals.len() as int
            };
            let meas = Seq::new(
                count as nat,
                |j: int|
                    Measurement {
                        timestamp: ts[j],
                        value: raw::spec_convert(rows[i].vtype, vals[j]),
                    },
            );
            let m = MetricModel {
                name: join_sp(g),
                groups: g,
                measurements: meas,
                start: ts.first(),
                end: ts.last(),
            };
            match spec_assemble(rows, i + 1, chunk_ts, ts) {
                Ok(rest) => Ok((seq![m] + rest.0, rest.1)),
                Err(e) => Err(e),
            }
        }
    }
}


/// An assembly outcome with `prefix` put before its metrics.
pub open spec fn glue_asm(
    prefix: Seq<MetricModel>,
    x: Result<(Seq<MetricModel>, Seq<i64>), Seq<char>>,
) -> Result<(Seq<MetricModel>, Seq<i64>), Seq<char>> {
    match x {
        Ok(res) => Ok((prefix + res.0, res.1)),
        Err(e) => Err(e),
    }
}

/// An assembly outcome with one metric put in front.
pub open spec fn cons_asm(m: MetricModel, x: Result<(Seq<MetricModel>, Seq<i64>), Seq<char>>) -> Result<
    (Seq<MetricModel>, Seq<i64>),
    Seq<char>,
> {
    match x {
        Ok(res) => Ok((seq![m] + res.0, res.1)),
        Err(e) => Err(e),
    }
}

/// Moving one metric from the remainder to the prefix keeps the glued
/// outcome.
proof fn lemma_glue_asm_step(
    prefix: Seq<MetricModel>,
    m: MetricModel,
    x: Result<(Seq<MetricModel>, Seq<i64>), Seq<char>>,
)
    ensures
        glue_asm(prefix, cons_asm(m, x)) == glue_asm(prefix.push(m), x),
{
    match x {
        Ok(res) => {
            assert(prefix + (seq![m] + res.0) =~= prefix.push(m) + res.0);
        },
        Err(_) => {},
    }
}

/// Reinterprets rail slots as signed milliseconds.
fn to_timestamps(values: &Vec<u64>) -> (r: Vec<i64>)
    ensures
        r@ == to_ts(values@),
{
    let mut out: Vec<i64> = Vec::new();
    let n = values.len();
    let mut i: usize = 0;
    while i < n
        invariant
            0 <= i <= n,
            n == values@.len(),
            out@.len() == i,
            forall|k: int| 0 <= k < i ==> out@[k] == (values@[k] as i64),
        decreases n - i,
    {
        out.push(#[verifier::truncate] (values[i] as i64));
        i = i + 1;
    }
    proof {
        assert(out@ =~= to_ts(values@));
    }
    out
}

/// Joins path components with single spaces into a display name.
fn join_groups(groups: &Vec<String>) -> (r: String)
    ensures
        r@ == join_sp(raw::path_view(groups@)),
{
    let mut out = String::new();
    let n = groups.len();
    let mut i: usize = 0;
    while i < n
        invariant
            0 <= i <= n,
            n == groups@.len(),
            out@ == join_pre(raw::path_view(groups@), i as int),
        decreases n - i,
    {
        if i > 0 {
            out.append(" ");
        }
        out.append(groups[i].as_str());
        i = i + 1;
    }
    out
}

/// A chunk of metrics in a contiguous time window, decoded from one
/// compressed payload.
#[derive(Debug, Clone)]
pub struct MetricsChunk {
    /// The metadata shared by all metrics in the chunk.
    pub metadata: crate::metadata::Metadata,
    /// The decoded metrics.
    pub metrics: Vec<Metric>,
    /// When the recording of the chunk started.
    pub start: i64,
    /// When the recording of the chunk ended.
    pub end: i64,
}

impl MetricsChunk {
    /// Assembles decoded raw metrics into a chunk: timestamp rails are
    /// recognized and consumed as [`spec_assemble`] states, the chunk
    /// bounds come from the chunk-level rail, and the metadata from the
    /// reference document.
    #[verifier::loop_isolation(false)]
    pub fn from_raw(metrics: Vec<raw::RawMetric>, reference_doc: &Document) -> (r: Result<
        MetricsChunk,
        MetricParseError,
    >)
        ensures
            match spec_assemble(metrics@, 0, Seq::empty(), Seq::empty()) {
                Ok(res) => {
                    if res.1.len() == 0 {
                        r matches Err(MetricParseError::MetricTimestampNotFound { name })
                            && name@ == "start"@
                    } else {
                        match crate::metadata::spec_metadata(*reference_doc) {
                            Ok(md) => r matches Ok(chunk) && chunk.metrics@.map_values(
                                |m: Metric| metric_view(m),
                            ) == res.0 && chunk.start == res.1.first() && chunk.end
                                == res.1.last() && chunk.metadata.host@ == md.0
                                && chunk.metadata.process@ == md.1 && chunk.metadata.version@
                                == md.2,
                            Err(crate::bson::KeyErr::NotFound(k)) => r matches Err(
                                MetricParseError::FieldAccess(
                                    crate::error::KeyAccessError::KeyNotFound { key },
                                ),
                            ) && key@ == k,
                            Err(crate::bson::KeyErr::WrongType(k)) => r matches Err(
                                MetricParseError::FieldAccess(
                                    crate::error::KeyAccessError::UnexpectedKeyType { key },
                                ),
                            ) && key@ == k,
                        }
                    }
                },
                Err(nm) => r matches Err(MetricParseError::MetricTimestampNotFound { name })
                    && name@ == nm,
            },
    {
        let ghost rows = metrics@;
        let ghost full = spec_assemble(rows, 0, Seq::empty(), Seq::empty());
        let n = metrics.len();
        let mut built: Vec<Metric> = Vec::new();
        let mut chunk_ts: Vec<i64> = Vec::new();
        let mut ts: Vec<i64> = Vec::new();
        let ghost mut models: Seq<MetricModel> = Seq::empty();
        let start_name = String::from_str("start");
        let end_name = String::from_str("end");
        let mut i: usize = 0;
        proof {
            assert(glue_asm(models, spec_assemble(rows, 0, chunk_ts@, ts@)) == full) by {
                match spec_assemble(rows, 0, chunk_ts@, ts@) {
                    Ok(res) => {
                        assert(models + res.0 =~= res.0);
                    },
                    Err(_) => {},
                }
            }
        }
        while i < n
            invariant
                0 <= i <= n,
                n == rows.len(),
                rows == metrics@,
                start_name@ == "start"@,
                end_name@ == "end"@,
                built@.len() == models.len(),
                forall|k: int| 0 <= k < models.len() ==> metric_view(#[trigger] built@[k]) == models[k],
                glue_asm(models, spec_assemble(rows, i as int, chunk_ts@, ts@)) == full,
            decreases n - i,
        {
            let ghost g = raw::path_view(rows[i as int].groups@);
            let ghost vals = rows[i as int].values@;
            let glen = metrics[i].groups.len();
            let is_start = glen > 0 && metrics[i].groups[glen - 1] == start_name;
            let is_end = glen > 0 && metrics[i].groups[glen - 1] == end_name;
            if is_start {
                let nts = to_timestamps(&metrics[i].values);
                if glen == 1 {
                    chunk_ts = nts;
                    ts = to_timestamps(&metrics[i].values);
                } else {
                    ts = nts;
                }
                proof {
                    assert(g.last() == rows[i as int].groups@.last()@);
                }
            } else if is_end {
                proof {
                    assert(g.last() == rows[i as int].groups@.last()@);
                }
            } else {
                proof {
                    if g.len() > 0 {
                        assert(g.last() == rows[i as int].groups@.last()@);
                    }
                }
                if ts.len() == 0 {
                    let name = join_groups(&metrics[i].groups);
                    return Err(MetricParseError::MetricTimestampNotFound { name });
                }
                let vlen = metrics[i].values.len();
                let count = if ts.len() <= vlen {
                    ts.len()
                } else {
                    vlen
                };
                let mut meas: Vec<Measurement> = Vec::new();
                let mut j: usize = 0;
                while j < count
                    invariant
                        0 <= j <= count,
                        count <= ts@.len(),
                        count <= metrics@[i as int].values@.len(),
                        meas@.len() == j,
                        forall|q: int|
                            0 <= q < j ==> meas@[q] == (Measurement {
                                timestamp: ts@[q],
                                value: raw::spec_convert(
                                    metrics@[i as int].vtype,
                                    metrics@[i as int].values@[q],
                                ),
                            }),
                    decreases count - j,
                {
                    let v = metrics[i].vtype.convert(metrics[i].values[j]);
                    meas.push(Measurement { timestamp: ts[j], value: v });
                    j = j + 1;
                }
                let name = join_groups(&metrics[i].groups);
                let groups = raw::clone_path(&metrics[i].groups);
                let start = ts[0];
                let end = ts[ts.len() - 1];
                let m = Metric { name, groups, measurements: meas, start, end };
                let ghost count_s = if ts@.len() <= vals.len() {
                    ts@.len() as int
                } else {
                    vals.len() as int
                };
                let ghost meas_s = Seq::new(
                    count_s as nat,
                    |q: int|
                        Measurement {
                            timestamp: ts@[q],
                            value: raw::spec_convert(rows[i as int].vtype, vals[q]),
                        },
                );
                let ghost model = MetricModel {
                    name: join_sp(g),
                    groups: g,
                    measurements: meas_s,
                    start: ts@.first(),
                    end: ts@.last(),
                };
                let ghost models_pre = models;
                built.push(m);
                proof {
                    assert(m.measurements@ =~= meas_s);
                    assert(metric_view(m) =~~= model);
                    lemma_glue_asm_step(
                        models_pre,
                        model,
                        spec_assemble(rows, i + 1, chunk_ts@, ts@),
                    );
                    models = models.push(model);
                    assert forall|k: int| 0 <= k < models.len() implies metric_view(
                        #[trigger] built@[k],
                    ) == models[k] by {
                        if k < models.len() - 1 {
                            assert(built@[k] == built@.subrange(0, models.len() - 1)[k]);
                        }
                    }
                }
            }
            i = i + 1;
        }
        proof {
            assert(glue_asm(models, spec_assemble(rows, n as int, chunk_ts@, ts@)) == full);
            assert(spec_assemble(rows, n as int, chunk_ts@, ts@) == Ok::<
                (Seq<MetricModel>, Seq<i64>),
                Seq<char>,
            >((Seq::empty(), chunk_ts@)));
            assert(models + Seq::<MetricModel>::empty() =~= models);
            assert(full == Ok::<(Seq<MetricModel>, Seq<i64>), Seq<char>>((models, chunk_ts@)));
        }
        if chunk_ts.len() == 0 {
            return Err(
                MetricParseError::MetricTimestampNotFound { name: String::from_str("start") },
            );
        }
        let start_chunk = chunk_ts[0];
        let end_chunk = chunk_ts[chunk_ts.len() - 1];
        let metadata = match crate::metadata::Metadata::from_reference_document(reference_doc) {
            Ok(md) => md,
            Err(e) => {
                return Err(MetricParseError::FieldAccess(e));
            },
        };
        let chunk = MetricsChunk { metadata, metrics: built, start: start_chunk, end: end_chunk };
        proof {
            assert(chunk.metrics@.map_values(|m: Metric| metric_view(m)) =~~= models);
        }
        Ok(chunk)
    }
}


/// A well-formed reference document at the head of an inflated payload,
/// ending at `dend`.
pub open spec fn doc_prefix(data: Seq<u8>, doc: Document, dend: int) -> bool {
    &&& crate::bson::wf_doc(doc)
    &&& 5 <= dend <= data.len()
    &&& crate::bson::doc_bytes(doc) == data.subrange(0, dend)
}

/// The header of a chunk: its reference document with room for the two
/// counts after it.
pub open spec fn chunk_header(data: Seq<u8>, doc: Document, dend: int) -> bool {
    &&& doc_prefix(data, doc, dend)
    &&& dend + 8 <= data.len()
}

/// The sampling stage of a chunk decode: the header, a schema whose
/// length equals the metric count, and rows that carry the schema paths
/// with the decoded samples.
pub open spec fn chunk_stage(
    data: Seq<u8>,
    doc: Document,
    dend: int,
    rows: Seq<raw::RawMetric>,
) -> bool {
    &&& chunk_header(data, doc, dend)
    &&& {
        let mc = crate::bytes::le_value(data.subrange(dend, dend + 4));
        let sc = crate::bytes::le_value(data.subrange(dend + 4, dend + 8));
        let entries = raw::spec_select(doc);
        &&& entries.len() == mc
        &&& if sc == 0 {
            raw::rows_of_entries_init(rows, entries)
        } else {
            match raw::rle_matrix(data, dend + 8, mc, sc, 0) {
                Option::Some(mp) => raw::rows_of_entries_deltas(rows, entries, mp.rows),
                Option::None => false,
            }
        }
    }
}

/// The chunk `chunk` is what decoding the inflated payload `data` yields,
/// through the reference document `doc` that ends at `dend`: the document
/// serializes to the payload's head, the two counts follow it, the schema
/// matches the first count, and the metrics assemble from rows that carry
/// the schema paths and the decoded samples.
pub open spec fn chunk_decodes(
    data: Seq<u8>,
    doc: Document,
    dend: int,
    rows: Seq<raw::RawMetric>,
    chunk: MetricsChunk,
) -> bool {
    &&& chunk_stage(data, doc, dend, rows)
    &&& assemble_matches(rows, doc, chunk)
}

/// The error the assembly stage reports for decoded rows, tied to its
/// exact condition: a metric with no rail, an empty chunk rail, or the
/// first failing metadata key.
pub open spec fn assemble_error(
    rows: Seq<raw::RawMetric>,
    doc: Document,
    e: MetricParseError,
) -> bool {
    match spec_assemble(rows, 0, Seq::empty(), Seq::empty()) {
        Ok(res) => {
            if res.1.len() == 0 {
                e matches MetricParseError::MetricTimestampNotFound { name } && name@ == "start"@
            } else {
                match crate::metadata::spec_metadata(doc) {
                    Err(crate::bson::KeyErr::NotFound(k)) => e matches MetricParseError::FieldAccess(
                        crate::error::KeyAccessError::KeyNotFound { key },
                    ) && key@ == k,
                    Err(crate::bson::KeyErr::WrongType(k)) => e matches MetricParseError::FieldAccess(
                        crate::error::KeyAccessError::UnexpectedKeyType { key },
                    ) && key@ == k,
                    Ok(_) => false,
                }
            }
        },
        Err(nm) => e matches MetricParseError::MetricTimestampNotFound { name } && name@ == nm,
    }
}

/// The chunk `chunk` is what assembling `rows` under the metadata of `doc`
/// yields.
pub open spec fn assemble_matches(
    rows: Seq<raw::RawMetric>,
    doc: Document,
    chunk: MetricsChunk,
) -> bool {
    match spec_assemble(rows, 0, Seq::empty(), Seq::empty()) {
        Ok(res) => {
            &&& res.1.len() > 0
            &&& chunk.metrics@.map_values(|m: Metric| metric_view(m)) == res.0
            &&& chunk.start == res.1.first()
            &&& chunk.end == res.1.last()
            &&& crate::metadata::spec_metadata(doc) == Ok::<
                (Seq<char>, Seq<char>, Seq<char>),
                crate::bson::KeyErr,
            >((chunk.metadata.host@, chunk.metadata.process@, chunk.metadata.version@))
        },
        Err(_) => false,
    }
}

impl MetricsChunk {
    /// Decodes one compressed chunk payload into a chunk of metrics:
    /// inflates the payload, parses the reference document, reads the two
    /// counts, decodes the sample matrix and assembles the metrics.
    ///
    /// A returned chunk is exactly what [`chunk_decodes`] states of the
    /// inflated payload for some reference document and raw rows; every
    /// failure along the way surfaces as the matching error kind.
    pub fn from_reader(payload: &[u8]) -> (r: Result<MetricsChunk, MetricParseError>)
        ensures
            match r {
                Ok(chunk) => {
                    &&& payload@.len() >= 4
                    &&& crate::compress::zlib_inflate(
                        payload@.subrange(4, payload@.len() as int),
                    ) is Some
                    &&& exists|doc: Document, dend: int, rows: Seq<raw::RawMetric>|
                        chunk_decodes(
                            crate::compress::zlib_inflate(
                                payload@.subrange(4, payload@.len() as int),
                            )->Some_0,
                            doc,
                            dend,
                            rows,
                            chunk,
                        )
                },
                Err(e) => ({
                    let inflated = crate::compress::zlib_inflate(
                        payload@.subrange(4, payload@.len() as int),
                    );
                    &&& ((payload@.len() < 4 || inflated is None) ==> (e matches MetricParseError::Io {
                        ..
                    }))
                    &&& !(e is UnknownDocumentKind)
                    &&& !(e is IntConversion)
                    &&& ((e matches MetricParseError::BsonDeserialzation { .. }) ==> payload@.len()
                        >= 4 && inflated is Some)
                    &&& (e is MetricCountMismatch ==> inflated is Some && (exists|
                        doc: Document,
                        dend: int,
                    |
                        chunk_header(inflated->Some_0, doc, dend) && raw::spec_select(doc).len()
                            != crate::bytes::le_value(inflated->Some_0.subrange(dend, dend + 4))))
                    &&& ((e is MetricTimestampNotFound || e is FieldAccess) ==> inflated is Some
                        && (exists|doc: Document, dend: int, rows: Seq<raw::RawMetric>|
                        chunk_stage(inflated->Some_0, doc, dend, rows) && assemble_error(
                            rows,
                            doc,
                            e,
                        )))
                    &&& (e is Io ==> payload@.len() < 4 || inflated is None || (exists|
                        doc: Document,
                        dend: int,
                    |
                        doc_prefix(inflated->Some_0, doc, dend) && dend + 8
                            > inflated->Some_0.len()) || (exists|doc: Document, dend: int|
                        chunk_header(inflated->Some_0, doc, dend) && raw::spec_select(doc).len()
                            == crate::bytes::le_value(inflated->Some_0.subrange(dend, dend + 4))
                            && crate::bytes::le_value(
                            inflated->Some_0.subrange(dend + 4, dend + 8),
                        ) > 0 && raw::rle_matrix(
                            inflated->Some_0,
                            dend + 8,
                            crate::bytes::le_value(inflated->Some_0.subrange(dend, dend + 4)),
                            crate::bytes::le_value(inflated->Some_0.subrange(dend + 4, dend + 8)),
                            0,
                        ) is None))
                }),
            },
    {
        let data = match crate::compress::decompress(payload) {
            Ok(v) => v,
            Err(e) => {
                return Err(e);
            },
        };
        let slice = data.as_slice();
        let (reference_doc, dend) = match crate::bson::parse_document(
            slice,
            0,
            crate::bson::MAX_DEPTH,
        ) {
            Ok(x) => x,
            Err(pe) => {
                let message = match pe {
                    crate::bytes::ReadError::Eof => String::from_str(
                        "the reference document of the chunk is truncated",
                    ),
                    crate::bytes::ReadError::InvalidData { message } => message,
                };
                return Err(MetricParseError::BsonDeserialzation { message });
            },
        };
        let ghost inflated = crate::compress::zlib_inflate(
            payload@.subrange(4, payload@.len() as int),
        );
        proof {
            assert(inflated->Some_0 == data@);
            assert(doc_prefix(data@, reference_doc, dend as int));
        }
        let mut pos: usize = dend;
        let metrics_count = match crate::bytes::read_le_u32(slice, &mut pos) {
            Ok(v) => v,
            Err(_) => {
                proof {
                    assert(dend + 8 > data@.len());
                    assert(exists|doc: Document, de: int|
                        doc_prefix(inflated->Some_0, doc, de) && de + 8 > inflated->Some_0.len());
                }
                return Err(
                    MetricParseError::Io {
                        message: String::from_str("the chunk ends before its metric count"),
                    },
                );
            },
        };
        let samples_count = match crate::bytes::read_le_u32(slice, &mut pos) {
            Ok(v) => v,
            Err(_) => {
                proof {
                    assert(dend + 8 > data@.len());
                    assert(exists|doc: Document, de: int|
                        doc_prefix(inflated->Some_0, doc, de) && de + 8 > inflated->Some_0.len());
                }
                return Err(
                    MetricParseError::Io {
                        message: String::from_str("the chunk ends before its sample count"),
                    },
                );
            },
        };
        let rows = match raw::MetricParser::parse(
            &reference_doc,
            slice,
            &mut pos,
            metrics_count as usize,
            samples_count as usize,
        ) {
            Ok(v) => v,
            Err(e) => {
                proof {
                    let mc = crate::bytes::le_value(data@.subrange(dend as int, dend + 4));
                    let sc = crate::bytes::le_value(data@.subrange(dend + 4, dend + 8));
                    assert(mc == metrics_count && sc == samples_count);
                    assert(chunk_header(inflated->Some_0, reference_doc, dend as int));
                    if raw::spec_select(reference_doc).len() != metrics_count as usize {
                        assert(e is MetricCountMismatch);
                        assert(exists|doc: Document, de: int|
                            chunk_header(inflated->Some_0, doc, de) && raw::spec_select(doc).len()
                                != crate::bytes::le_value(
                                inflated->Some_0.subrange(de, de + 4),
                            ));
                    } else {
                        assert(samples_count > 0);
                        assert(raw::rle_matrix(
                            data@,
                            dend + 8,
                            metrics_count as nat,
                            samples_count as nat,
                            0,
                        ) is None);
                        assert(e matches MetricParseError::Io { .. });
                        assert(exists|doc: Document, de: int|
                            chunk_header(inflated->Some_0, doc, de) && raw::spec_select(doc).len()
                                == crate::bytes::le_value(inflated->Some_0.subrange(de, de + 4))
                                && crate::bytes::le_value(
                                inflated->Some_0.subrange(de + 4, de + 8),
                            ) > 0 && raw::rle_matrix(
                                inflated->Some_0,
                                de + 8,
                                crate::bytes::le_value(inflated->Some_0.subrange(de, de + 4)),
                                crate::bytes::le_value(inflated->Some_0.subrange(de + 4, de + 8)),
                                0,
                            ) is None);
                    }
                }
                return Err(e);
            },
        };
        let ghost rows_v = rows@;
        let r = Self::from_raw(rows, &reference_doc);
        match r {
            Ok(chunk) => {
                proof {
                    assert(chunk_decodes(
                        inflated->Some_0,
                        reference_doc,
                        dend as int,
                        rows_v,
                        chunk,
                    ));
                    assert(exists|doc: Document, de: int, rs: Seq<raw::RawMetric>|
                        chunk_decodes(inflated->Some_0, doc, de, rs, chunk));
                }
                Ok(chunk)
            },
            Err(e) => {
                proof {
                    assert(chunk_stage(inflated->Some_0, reference_doc, dend as int, rows_v));
                    assert(assemble_error(rows_v, reference_doc, e));
                    assert(e is MetricTimestampNotFound || e is FieldAccess);
                    assert(exists|doc: Document, de: int, rs: Seq<raw::RawMetric>|
                        chunk_stage(inflated->Some_0, doc, de, rs) && assemble_error(rs, doc, e));
                }
                Err(e)
            },
        }
    }
}


/// Rows of one common sample count.
pub open spec fn uniform_rows(rows: Seq<raw::RawMetric>, len: nat) -> bool {
    forall|k: int| 0 <= k < rows.len() ==> (#[trigger] rows[k].values)@.len() == len
}

/// A non-decreasing timestamp rail.
pub open spec fn rail_sorted(s: Seq<i64>) -> bool {
    forall|i: int, j: int| 0 <= i <= j < s.len() ==> #[trigger] s[i] <= #[trigger] s[j]
}

/// The inductive shape of assembly over uniform rows: every assembled
/// metric has exactly `len` measurements whose first and last timestamps
/// are its bounds, and sorted rails keep every metric's bounds and the
/// chunk's bounds ordered.
proof fn lemma_assemble_shape(
    rows: Seq<raw::RawMetric>,
    i: int,
    chunk_ts: Seq<i64>,
    ts: Seq<i64>,
    len: nat,
)
    requires
        uniform_rows(rows, len),
        ts.len() == 0 || ts.len() == len,
        chunk_ts.len() == 0 || chunk_ts.len() == len,
    ensures
        match spec_assemble(rows, i, chunk_ts, ts) {
            Ok(res) => {
                &&& res.1.len() == 0 || res.1.len() == len
                &&& forall|k: int|
                    0 <= k < res.0.len() ==> (#[trigger] res.0[k]).measurements.len() == len
                &&& len > 0 ==> forall|k: int|
                    0 <= k < res.0.len() ==> (#[trigger] res.0[k]).measurements.first().timestamp
                        == res.0[k].start && res.0[k].measurements.last().timestamp == res.0[k].end
                &&& (rail_sorted(ts) && rail_sorted(chunk_ts) && (forall|k: int|
                    0 <= k < rows.len() ==> rail_sorted(to_ts((#[trigger] rows[k].values)@))))
                    ==> (rail_sorted(res.1) && (forall|k: int|
                    0 <= k < res.0.len() ==> (#[trigger] res.0[k]).start <= res.0[k].end))
            },
            Err(_) => true,
        },
    decreases rows.len() - i,
{
    if i < 0 || i >= rows.len() {
    } else {
        let g = raw::path_view(rows[i].groups@);
        let vals = rows[i].values@;
        assert(vals.len() == len);
        assert(to_ts(vals).len() == len);
        if g.len() > 0 && g.last() == "start"@ {
            if g.len() == 1 {
                lemma_assemble_shape(rows, i + 1, to_ts(vals), to_ts(vals), len);
            } else {
                lemma_assemble_shape(rows, i + 1, chunk_ts, to_ts(vals), len);
            }
        } else if g.len() > 0 && g.last() == "end"@ {
            lemma_assemble_shape(rows, i + 1, chunk_ts, ts, len);
        } else if ts.len() == 0 {
        } else {
            lemma_assemble_shape(rows, i + 1, chunk_ts, ts, len);
            match spec_assemble(rows, i + 1, chunk_ts, ts) {
                Ok(rest) => {
                    let count = if ts.len() <= vals.len() {
                        ts.len() as int
                    } else {
                        vals.len() as int
                    };
                    assert(count == len);
                    match spec_assemble(rows, i, chunk_ts, ts) {
                        Ok(res) => {
                            assert(res.0.len() == rest.0.len() + 1);
                            assert(forall|k: int| 1 <= k < res.0.len() ==> res.0[k] == rest.0[k - 1]);
                            assert(res.0[0].measurements.len() == len);
                            if len > 0 {
                                assert(res.0[0].measurements.first().timestamp == ts.first());
                                assert(res.0[0].measurements.last().timestamp == ts[len - 1]);
                                assert(res.0[0].end == ts.last());
                            }
                        },
                        Err(_) => {},
                    }
                },
                Err(_) => {},
            }
        }
    }
}

/// Every metric of an assembled chunk carries one measurement per sample:
/// with a common row length, all measurement counts are that length.
pub proof fn lemma_chunk_measurement_counts(rows: Seq<raw::RawMetric>, len: nat)
    requires
        uniform_rows(rows, len),
    ensures
        match spec_assemble(rows, 0, Seq::empty(), Seq::empty()) {
            Ok(res) => forall|k: int|
                0 <= k < res.0.len() ==> (#[trigger] res.0[k]).measurements.len() == len,
            Err(_) => true,
        },
{
    lemma_assemble_shape(rows, 0, Seq::empty(), Seq::empty(), len);
}

/// Every assembled metric begins and ends at its own bounds: its first
/// measurement carries `start` and its last carries `end`.
pub proof fn lemma_chunk_measurement_bounds(rows: Seq<raw::RawMetric>, len: nat)
    requires
        uniform_rows(rows, len),
        len > 0,
    ensures
        match spec_assemble(rows, 0, Seq::empty(), Seq::empty()) {
            Ok(res) => forall|k: int|
                0 <= k < res.0.len() ==> (#[trigger] res.0[k]).measurements.first().timestamp
                    == res.0[k].start && res.0[k].measurements.last().timestamp == res.0[k].end,
            Err(_) => true,
        },
{
    lemma_assemble_shape(rows, 0, Seq::empty(), Seq::empty(), len);
}

/// With non-decreasing timestamp rails, every assembled metric's bounds
/// are ordered and so are the chunk's.
pub proof fn lemma_chunk_bounds_ordered(rows: Seq<raw::RawMetric>, len: nat)
    requires
        uniform_rows(rows, len),
        forall|k: int| 0 <= k < rows.len() ==> rail_sorted(to_ts((#[trigger] rows[k].values)@)),
    ensures
        match spec_assemble(rows, 0, Seq::empty(), Seq::empty()) {
            Ok(res) => {
                &&& forall|k: int|
                    0 <= k < res.0.len() ==> (#[trigger] res.0[k]).start <= res.0[k].end
                &&& res.1.len() > 0 ==> res.1.first() <= res.1.last()
            },
            Err(_) => true,
        },
{
    lemma_assemble_shape(rows, 0, Seq::empty(), Seq::empty(), len);
}

} // verus!
