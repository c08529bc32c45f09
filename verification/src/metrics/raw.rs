//! The raw decoding stage of a metrics chunk: schema extraction from the
//! reference document and delta-RLE decoding of the sample matrix.

use vstd::prelude::*;

use crate::bson::{BsonValue, Document, Element};
use crate::bytes::{read_var_u64, varint_at, ReadError};
use crate::error::MetricParseError;
use crate::metrics::MetricValue;
use crate::strfmt::{dec_digits, usize_to_string};

verus! {

/// The declared type of a metric, fixed at schema extraction.
#[derive(Debug, Clone, Copy, PartialEq, Eq, Structural)]
pub enum ValueType {
    /// An unsigned 32-bit integer.
    U32,
    /// A signed 32-bit integer.
    I32,
    /// A signed 64-bit integer.
    I64,
    /// A 64-bit floating point number.
    F64,
    /// A boolean.
    Bool,
    /// A point in time.
    DateTime,
}

/// One schema entry at the spec level: the metric's path, its type and its
/// initial 64-bit slot value.
pub type SchemaEntry = (Seq<Seq<char>>, ValueType, u64);

/// A metric's path, declared type and initial value, extracted from the
/// reference document.
#[derive(Debug)]
pub struct MetricInitVal {
    /// The path components of the metric.
    pub groups: Vec<String>,
    /// The initial 64-bit slot value.
    pub value: u64,
    /// The declared type.
    pub vtype: ValueType,
}

impl MetricInitVal {
    /// Bundles a path, a type and an initial slot value.
    pub fn new(groups: Vec<String>, vtype: ValueType, value: u64) -> (r: MetricInitVal)
        ensures
            r.groups == groups,
            r.vtype == vtype,
            r.value == value,
    {
        MetricInitVal { groups, value, vtype }
    }
}

/// A metric's path, declared type and decoded 64-bit sample values.
#[derive(Debug)]
pub struct RawMetric {
    /// The path components of the metric.
    pub groups: Vec<String>,
    /// The declared type.
    pub vtype: ValueType,
    /// The decoded absolute slot values, one per sample.
    pub values: Vec<u64>,
}

impl RawMetric {
    /// Bundles a path, a type and decoded sample values.
    pub fn new(groups: Vec<String>, vtype: ValueType, values: Vec<u64>) -> (r: RawMetric)
        ensures
            r.groups == groups,
            r.vtype == vtype,
            r.values == values,
    {
        RawMetric { groups, vtype, values }
    }
}

/// The view of an executable path: each component as its character
/// sequence.
pub open spec fn path_view(groups: Seq<String>) -> Seq<Seq<char>> {
    groups.map_values(|s: String| s@)
}

/// The schema entry an extracted metric stands for.
pub open spec fn entry_of(m: MetricInitVal) -> SchemaEntry {
    (path_view(m.groups@), m.vtype, m.value)
}

/// The schema entries a list of extracted metrics stands for.
pub open spec fn entries_of(ms: Seq<MetricInitVal>) -> Seq<SchemaEntry> {
    ms.map_values(|m: MetricInitVal| entry_of(m))
}

/// What a double, given by its bits, becomes in a 64-bit unsigned slot:
/// the value rounded toward zero and clamped to the unsigned 64-bit range,
/// with anything that is not a number becoming zero. This is the saturating
/// float-to-integer cast the archive format applies to floating-point
/// initial values.
pub open spec fn double_to_u64_sat(bits: u64) -> u64 {
    let sign = bits >> 63u64;
    let exp = (bits >> 52u64) & 0x7ff;
    let frac = bits & 0xf_ffff_ffff_ffff;
    if exp == 0x7ff {
        if frac != 0 {
            0u64
        } else if sign == 1 {
            0u64
        } else {
            0xffff_ffff_ffff_ffffu64
        }
    } else if sign == 1 {
        0u64
    } else if exp < 1023 {
        0u64
    } else if exp >= 1087 {
        0xffff_ffff_ffff_ffffu64
    } else {
        let e = (exp - 1023) as u64;
        let sig = 0x10_0000_0000_0000u64 | frac;
        if e >= 52 {
            sig << ((e - 52) as u64)
        } else {
            sig >> ((52 - e) as u64)
        }
    }
}

/// Computes the 64-bit slot value of a double from its bits, as
/// [`double_to_u64_sat`] states it.
pub fn double_bits_to_u64(bits: u64) -> (r: u64)
    ensures
        r == double_to_u64_sat(bits),
{
    let sign = bits >> 63u64;
    let exp = (bits >> 52u64) & 0x7ff;
    let frac = bits & 0xf_ffff_ffff_ffff;
    if exp == 0x7ff {
        if frac != 0 {
            0u64
        } else if sign == 1 {
            0u64
        } else {
            0xffff_ffff_ffff_ffffu64
        }
    } else if sign == 1 {
        0u64
    } else if exp < 1023 {
        0u64
    } else if exp >= 1087 {
        0xffff_ffff_ffff_ffffu64
    } else {
        proof {
            assert(exp - 1023 >= 52 <==> exp >= 1075);
            assert((bits >> 52u64) & 0x7ff < 0x800) by (bit_vector);
        }
        let sig = 0x10_0000_0000_0000u64 | frac;
        if exp >= 1075 {
            let sh = exp - 1075;
            proof {
                assert(sh == ((exp - 1023) as u64 - 52) as u64);
            }
            sig << sh
        } else {
            let sh = 1075 - exp;
            proof {
                assert(sh == (52 - (exp - 1023) as u64) as u64);
            }
            sig >> sh
        }
    }
}

/// The schema entries of the elements of a document from position `i` on,
/// under the path `parent`.
pub open spec fn sel_elems_from(es: Seq<Element>, parent: Seq<Seq<char>>, i: int) -> Seq<
    SchemaEntry,
>
    decreases es, es.len() - i, 0nat,
{
    if i < 0 || i >= es.len() {
        Seq::empty()
    } else {
        sel_value(es[i].value, parent, es[i].key@) + sel_elems_from(es, parent, i + 1)
    }
}

/// The schema entries a single value contributes, under path `parent` and
/// its element's key.
pub open spec fn sel_value(v: BsonValue, parent: Seq<Seq<char>>, key: Seq<char>) -> Seq<
    SchemaEntry,
>
    decreases v, 0nat, 0nat,
{
    match v {
        BsonValue::Int32(x) => seq![(parent.push(key), ValueType::I32, x as u64)],
        BsonValue::Int64(x) => seq![(parent.push(key), ValueType::I64, x as u64)],
        BsonValue::Double(bits) => seq![
            (parent.push(key), ValueType::F64, double_to_u64_sat(bits)),
        ],
        BsonValue::Boolean(b) => seq![
            (parent.push(key), ValueType::Bool, if b { 1u64 } else { 0u64 }),
        ],
        BsonValue::DateTime(ms) => seq![(parent.push(key), ValueType::DateTime, ms as u64)],
        BsonValue::Timestamp(inc, time) => seq![
            (parent.push(key).push("time"@), ValueType::U32, time as u64),
            (parent.push(key).push("increment"@), ValueType::U32, inc as u64),
        ],
        BsonValue::Doc(d) => sel_elems_from(d.elements@, parent.push(key), 0),
        BsonValue::Array(d) => sel_array_from(d.elements@, parent, 0),
        _ => Seq::empty(),
    }
}

/// The schema entries of an array's elements from position `i` on: each
/// element that is itself a document is entered under the path extended by
/// its decimal index; other elements contribute nothing.
pub open spec fn sel_array_from(es: Seq<Element>, parent: Seq<Seq<char>>, i: int) -> Seq<
    SchemaEntry,
>
    decreases es, es.len() - i, 1nat,
{
    if i < 0 || i >= es.len() {
        Seq::empty()
    } else {
        (match es[i].value {
            BsonValue::Doc(d) => sel_elems_from(
                d.elements@,
                parent.push(dec_digits(i as nat)),
                0,
            ),
            _ => Seq::empty(),
        }) + sel_array_from(es, parent, i + 1)
    }
}

/// The full ordered schema of a reference document: its metric paths,
/// types and initial slot values, in traversal order.
pub open spec fn spec_select(d: Document) -> Seq<SchemaEntry> {
    sel_elems_from(d.elements@, Seq::empty(), 0)
}

/// Copies a path, component by component.
pub(crate) fn clone_path(v: &Vec<String>) -> (r: Vec<String>)
    ensures
        r@ =~= v@,
{
    let mut out: Vec<String> = Vec::new();
    let n = v.len();
    let mut i: usize = 0;
    while i < n
        invariant
            0 <= i <= n,
            n == v@.len(),
            out@ =~= v@.subrange(0, i as int),
        decreases n - i,
    {
        out.push(v[i].clone());
        i = i + 1;
    }
    out
}


/// The schema-extraction and sample-decoding stage of the chunk decoder.
pub struct MetricParser;

impl MetricParser {
    /// Walks the reference document depth-first and appends one extracted
    /// metric per schema entry, in traversal order.
    #[verifier::loop_isolation(false)]
    fn select_metrics(
        reference_doc: &Document,
        parent_key: Vec<String>,
        metrics: &mut Vec<MetricInitVal>,
    )
        ensures
            entries_of(final(metrics)@) == entries_of(old(metrics)@) + sel_elems_from(
                reference_doc.elements@,
                path_view(parent_key@),
                0,
            ),
        decreases *reference_doc,
    {
        let ghost parent = path_view(parent_key@);
        let ghost es = reference_doc.elements@;
        let ghost entries0 = entries_of(metrics@);
        let n = reference_doc.elements.len();
        let mut i: usize = 0;
        while i < n
            invariant
                0 <= i <= n,
                n == es.len(),
                es == reference_doc.elements@,
                parent == path_view(parent_key@),
                entries0 + sel_elems_from(es, parent, 0) == entries_of(metrics@)
                    + sel_elems_from(es, parent, i as int),
            decreases n - i,
        {
            let ghost pre = entries_of(metrics@);
            let element = &reference_doc.elements[i];
            let ghost key = element.key@;
            match &element.value {
                BsonValue::Int32(x) => {
                    let mut parts = clone_path(&parent_key);
                    parts.push(element.key.clone());
                    let v = #[verifier::truncate] (*x as u64);
                    metrics.push(MetricInitVal::new(parts, ValueType::I32, v));
                    proof {
                        assert(entries_of(metrics@) =~~= pre + sel_value(element.value, parent, key));
                    }
                },
                BsonValue::Int64(x) => {
                    let mut parts = clone_path(&parent_key);
                    parts.push(element.key.clone());
                    let v = #[verifier::truncate] (*x as u64);
                    metrics.push(MetricInitVal::new(parts, ValueType::I64, v));
                    proof {
                        assert(entries_of(metrics@) =~~= pre + sel_value(element.value, parent, key));
                    }
                },
                BsonValue::Double(bits) => {
                    let mut parts = clone_path(&parent_key);
                    parts.push(element.key.clone());
                    let v = double_bits_to_u64(*bits);
                    metrics.push(MetricInitVal::new(parts, ValueType::F64, v));
                    proof {
                        assert(entries_of(metrics@) =~~= pre + sel_value(element.value, parent, key));
                    }
                },
                BsonValue::Boolean(b) => {
                    let mut parts = clone_path(&parent_key);
                    parts.push(element.key.clone());
                    let v: u64 = if *b {
                        1
                    } else {
                        0
                    };
                    metrics.push(MetricInitVal::new(parts, ValueType::Bool, v));
                    proof {
                        assert(entries_of(metrics@) =~~= pre + sel_value(element.value, parent, key));
                    }
                },
                BsonValue::DateTime(ms) => {
                    let mut parts = clone_path(&parent_key);
                    parts.push(element.key.clone());
                    let v = #[verifier::truncate] (*ms as u64);
                    metrics.push(MetricInitVal::new(parts, ValueType::DateTime, v));
                    proof {
                        assert(entries_of(metrics@) =~~= pre + sel_value(element.value, parent, key));
                    }
                },
                BsonValue::Timestamp(inc, time) => {
                    let mut parts = clone_path(&parent_key);
                    parts.push(element.key.clone());
                    parts.push(String::from_str("time"));
                    metrics.push(MetricInitVal::new(parts, ValueType::U32, *time as u64));
                    let mut parts = clone_path(&parent_key);
                    parts.push(element.key.clone());
                    parts.push(String::from_str("increment"));
                    metrics.push(MetricInitVal::new(parts, ValueType::U32, *inc as u64));
                    proof {
                        reveal_strlit("time");
                        reveal_strlit("increment");
                        assert(entries_of(metrics@) =~~= pre + sel_value(element.value, parent, key));
                    }
                },
                BsonValue::Doc(sub) => {
                    let mut parts = clone_path(&parent_key);
                    parts.push(element.key.clone());
                    let ghost parts_v = parts@;
                    Self::select_metrics(sub, parts, metrics);
                    proof {
                        assert(path_view(parts_v) =~= parent.push(key));
                        assert(entries_of(metrics@) =~~= pre + sel_value(element.value, parent, key));
                    }
                },
                BsonValue::Array(arr) => {
                    let m = arr.elements.len();
                    let mut j: usize = 0;
                    while j < m
                        invariant
                            0 <= j <= m,
                            m == arr.elements@.len(),
                            parent == path_view(parent_key@),
                            pre + sel_array_from(arr.elements@, parent, 0) == entries_of(metrics@)
                                + sel_array_from(arr.elements@, parent, j as int),
                        decreases m - j,
                    {
                        let ghost arr_pre = entries_of(metrics@);
                        match &arr.elements[j].value {
                            BsonValue::Doc(sub) => {
                                let mut parts = clone_path(&parent_key);
                                parts.push(usize_to_string(j));
                                let ghost parts_v = parts@;
                                Self::select_metrics(sub, parts, metrics);
                                proof {
                                    assert(path_view(parts_v) =~= parent.push(
                                        dec_digits(j as nat),
                                    ));
                                    assert(entries_of(metrics@) =~~= arr_pre + sel_elems_from(
                                        sub.elements@,
                                        parent.push(dec_digits(j as nat)),
                                        0,
                                    ));
                                }
                            },
                            _ => {},
                        }
                        j = j + 1;
                    }
                    proof {
                        assert(sel_array_from(arr.elements@, parent, m as int) =~= Seq::<
                            SchemaEntry,
                        >::empty());
                        assert(entries_of(metrics@) =~~= pre + sel_value(element.value, parent, key));
                    }
                },
                _ => {
                    proof {
                        assert(sel_value(element.value, parent, key) =~= Seq::<
                            SchemaEntry,
                        >::empty());
                        assert(entries_of(metrics@) =~~= pre + sel_value(element.value, parent, key));
                    }
                },
            }
            i = i + 1;
        }
        proof {
            assert(sel_elems_from(es, parent, n as int) =~~= Seq::<SchemaEntry>::empty());
            assert(entries_of(metrics@) =~~= entries0 + sel_elems_from(es, parent, 0));
        }
    }

    /// Extracts the schema of the reference document and checks its length
    /// against the announced metric count.
    pub fn read_initial_values(reference_doc: &Document, metrics_count: usize) -> (r: Result<
        Vec<MetricInitVal>,
        MetricParseError,
    >)
        ensures
            match r {
                Ok(ms) => entries_of(ms@) == spec_select(*reference_doc) && ms@.len()
                    == metrics_count,
                Err(MetricParseError::MetricCountMismatch) => spec_select(*reference_doc).len()
                    != metrics_count,
                Err(_) => false,
            },
    {
        let mut metrics: Vec<MetricInitVal> = Vec::new();
        proof {
            assert(entries_of(metrics@) =~~= Seq::<SchemaEntry>::empty());
        }
        Self::select_metrics(reference_doc, Vec::new(), &mut metrics);
        proof {
            assert(path_view(Seq::<String>::empty()) =~~= Seq::<Seq<char>>::empty());
            assert(entries_of(metrics@) =~~= spec_select(*reference_doc));
        }
        if metrics.len() != metrics_count {
            return Err(MetricParseError::MetricCountMismatch);
        }
        Ok(metrics)
    }
}


/// Addition on 64-bit slots that wraps around.
pub open spec fn wadd(a: u64, b: u64) -> u64 {
    (((a + b) as nat) % 0x1_0000_0000_0000_0000) as u64
}

/// Wrapping addition of two slots.
fn wadd_exec(a: u64, b: u64) -> (r: u64)
    ensures
        r == wadd(a, b),
{
    let r = a.wrapping_add(b);
    proof {
        if a + b > u64::MAX {
            assert(((a + b) as nat) % 0x1_0000_0000_0000_0000 == a + b
                - 0x1_0000_0000_0000_0000) by (nonlinear_arith)
                requires
                    0x1_0000_0000_0000_0000 <= a + b < 2 * 0x1_0000_0000_0000_0000,
            ;
        } else {
            assert(((a + b) as nat) % 0x1_0000_0000_0000_0000 == a + b) by (nonlinear_arith)
                requires
                    0 <= a + b < 0x1_0000_0000_0000_0000,
            ;
        }
    }
    r
}

/// The outcome of decoding one row of delta slots: the slots, the position
/// after them and the zero-run count that carries over.
#[verifier::ext_equal]
pub struct RowParse {
    /// The decoded delta slots of the row.
    pub row: Seq<u64>,
    /// The position right after the bytes the row consumed.
    pub end: int,
    /// The pending zero-run count after the row.
    pub zeroes: nat,
}

/// The outcome of decoding a whole sample matrix.
#[verifier::ext_equal]
pub struct MatParse {
    /// The decoded delta rows, one per metric.
    pub rows: Seq<Seq<u64>>,
    /// The position right after the bytes the matrix consumed.
    pub end: int,
    /// The pending zero-run count after the matrix.
    pub zeroes: nat,
}

/// Prepends one slot to a row outcome.
pub open spec fn cons_row(h: u64, x: Option<RowParse>) -> Option<RowParse> {
    match x {
        Option::Some(rp) => Option::Some(
            RowParse { row: seq![h] + rp.row, end: rp.end, zeroes: rp.zeroes },
        ),
        Option::None => Option::None,
    }
}

/// Decodes `count` delta slots starting at `pos` with `zeroes` pending:
/// a pending zero fills the slot; otherwise a varint is read, and a zero
/// varint is followed by the length of the zero run it opens.
pub open spec fn rle_row(s: Seq<u8>, pos: int, count: nat, zeroes: nat) -> Option<RowParse>
    decreases count,
{
    if count == 0 {
        Option::Some(RowParse { row: Seq::empty(), end: pos, zeroes })
    } else if zeroes > 0 {
        cons_row(0, rle_row(s, pos, (count - 1) as nat, (zeroes - 1) as nat))
    } else {
        match varint_at(s, pos) {
            Option::Some(ve) => {
                if ve.0 == 0 {
                    match varint_at(s, ve.1) {
                        Option::Some(ze) => cons_row(
                            0,
                            rle_row(s, ze.1, (count - 1) as nat, ze.0 as nat),
                        ),
                        Option::None => Option::None,
                    }
                } else {
                    cons_row(ve.0, rle_row(s, ve.1, (count - 1) as nat, 0))
                }
            },
            Option::None => Option::None,
        }
    }
}

/// Prepends one row to a matrix outcome.
pub open spec fn cons_mat(row: Seq<u64>, x: Option<MatParse>) -> Option<MatParse> {
    match x {
        Option::Some(mp) => Option::Some(
            MatParse { rows: seq![row] + mp.rows, end: mp.end, zeroes: mp.zeroes },
        ),
        Option::None => Option::None,
    }
}

/// Decodes `m` rows of `scount` delta slots each, threading the pending
/// zero-run count across row boundaries.
pub open spec fn rle_matrix(s: Seq<u8>, pos: int, m: nat, scount: nat, zeroes: nat) -> Option<
    MatParse,
>
    decreases m,
{
    if m == 0 {
        Option::Some(MatParse { rows: Seq::empty(), end: pos, zeroes })
    } else {
        match rle_row(s, pos, scount, zeroes) {
            Option::Some(rp) => cons_mat(
                rp.row,
                rle_matrix(s, rp.end, (m - 1) as nat, scount, rp.zeroes),
            ),
            Option::None => Option::None,
        }
    }
}

/// A row outcome with `prefix` put before its slots.
pub open spec fn glue_row(prefix: Seq<u64>, x: Option<RowParse>) -> Option<RowParse> {
    match x {
        Option::Some(rp) => Option::Some(
            RowParse { row: prefix + rp.row, end: rp.end, zeroes: rp.zeroes },
        ),
        Option::None => Option::None,
    }
}

/// A matrix outcome with `prefix` put before its rows.
pub open spec fn glue_mat(prefix: Seq<Seq<u64>>, x: Option<MatParse>) -> Option<MatParse> {
    match x {
        Option::Some(mp) => Option::Some(
            MatParse { rows: prefix + mp.rows, end: mp.end, zeroes: mp.zeroes },
        ),
        Option::None => Option::None,
    }
}

/// Moving one slot from the remainder to the prefix keeps the glued row.
proof fn lemma_glue_row_step(prefix: Seq<u64>, h: u64, x: Option<RowParse>)
    ensures
        glue_row(prefix, cons_row(h, x)) == glue_row(prefix.push(h), x),
{
    match x {
        Option::Some(rp) => {
            assert(prefix + (seq![h] + rp.row) =~= prefix.push(h) + rp.row);
        },
        Option::None => {},
    }
}

/// Moving one row from the remainder to the prefix keeps the glued matrix.
proof fn lemma_glue_mat_step(prefix: Seq<Seq<u64>>, row: Seq<u64>, x: Option<MatParse>)
    ensures
        glue_mat(prefix, cons_mat(row, x)) == glue_mat(prefix.push(row), x),
{
    match x {
        Option::Some(mp) => {
            assert(prefix + (seq![row] + mp.rows) =~= prefix.push(row) + mp.rows);
        },
        Option::None => {},
    }
}

/// The absolute slot value at position `j` of a row: the running wrapped
/// sum of the deltas, seeded with the initial value.
pub open spec fn abs_at(deltas: Seq<u64>, init: u64, j: int) -> u64
    decreases j,
{
    if j <= 0 {
        wadd(deltas[0], init)
    } else {
        wadd(deltas[j], abs_at(deltas, init, j - 1))
    }
}

/// The absolute slot values of a row of deltas.
pub open spec fn abs_row(deltas: Seq<u64>, init: u64) -> Seq<u64> {
    Seq::new(deltas.len(), |j: int| abs_at(deltas, init, j))
}


/// The rows that stand for metrics with no samples: one value per metric,
/// its initial one.
pub open spec fn rows_from_init(rows: Seq<RawMetric>, ms: Seq<MetricInitVal>) -> bool {
    &&& rows.len() == ms.len()
    &&& forall|k: int| 0 <= k < rows.len() ==> (#[trigger] rows[k].groups)@ == ms[k].groups@
    &&& forall|k: int| 0 <= k < rows.len() ==> #[trigger] rows[k].vtype == ms[k].vtype
    &&& forall|k: int| 0 <= k < rows.len() ==> (#[trigger] rows[k].values)@ == seq![ms[k].value]
}

/// The rows that stand for a decoded delta matrix: per metric, the
/// absolute values rebuilt from its delta row and initial value.
pub open spec fn rows_from_deltas(
    rows: Seq<RawMetric>,
    ms: Seq<MetricInitVal>,
    dmat: Seq<Seq<u64>>,
) -> bool {
    &&& rows.len() == ms.len()
    &&& dmat.len() == ms.len()
    &&& forall|k: int| 0 <= k < rows.len() ==> (#[trigger] rows[k].groups)@ == ms[k].groups@
    &&& forall|k: int| 0 <= k < rows.len() ==> #[trigger] rows[k].vtype == ms[k].vtype
    &&& forall|k: int|
        0 <= k < rows.len() ==> (#[trigger] rows[k].values)@ == abs_row(dmat[k], ms[k].value)
}

impl MetricParser {
    /// Decodes the sample matrix that follows the chunk header and returns
    /// one raw metric per schema entry with its absolute sample values.
    ///
    /// With no samples, each metric keeps exactly its initial value as its
    /// one sample and no bytes are consumed. Otherwise the delta matrix is
    /// decoded as [`rle_matrix`] states and every row is rebuilt into
    /// absolute values as [`abs_row`] states; a matrix that cannot be
    /// decoded is an input/output error.
    #[verifier::loop_isolation(false)]
    pub fn read_samples(
        data: &[u8],
        pos: &mut usize,
        metrics: Vec<MetricInitVal>,
        samples_count: usize,
    ) -> (r: Result<Vec<RawMetric>, MetricParseError>)
        requires
            *old(pos) <= data.len(),
        ensures
            samples_count == 0 ==> *final(pos) == *old(pos) && (r matches Ok(rows)
                && rows_from_init(rows@, metrics@)),
            samples_count > 0 ==> match rle_matrix(
                data@,
                *old(pos) as int,
                metrics@.len() as nat,
                samples_count as nat,
                0,
            ) {
                Option::Some(mp) => r matches Ok(rows) && *final(pos) == mp.end
                    && rows_from_deltas(rows@, metrics@, mp.rows),
                Option::None => r matches Err(MetricParseError::Io { .. }),
            },
    {
        let ghost s = data@;
        let m = metrics.len();
        let mut out: Vec<RawMetric> = Vec::new();

        if samples_count == 0 {
            let mut i: usize = 0;
            while i < m
                invariant
                    0 <= i <= m,
                    out@.len() == i,
                    forall|k: int| 0 <= k < i ==> (#[trigger] out@[k].groups)@ == metrics@[k].groups@,
                    forall|k: int| 0 <= k < i ==> #[trigger] out@[k].vtype == metrics@[k].vtype,
                    forall|k: int|
                        0 <= k < i ==> (#[trigger] out@[k].values)@ == seq![metrics@[k].value],
                decreases m - i,
            {
                let groups = clone_path(&metrics[i].groups);
                let values = vec![metrics[i].value];
                out.push(RawMetric::new(groups, metrics[i].vtype, values));
                proof {
                    assert((out@[i as int].groups)@ == metrics@[i as int].groups@);
                    assert(out@[i as int].values@ =~= seq![metrics@[i as int].value]);
                    assert(out@[i as int].vtype == metrics@[i as int].vtype);
                }
                i = i + 1;
            }
            return Ok(out);
        }

        let ghost p0 = *pos as int;
        let ghost mm = metrics@.len() as nat;
        let ghost sc = samples_count as nat;
        let mut zeroes: u64 = 0;
        let mut i: usize = 0;
        let ghost mut dmat: Seq<Seq<u64>> = Seq::empty();
        proof {
            assert(glue_mat(dmat, rle_matrix(s, p0, mm, sc, 0)) == rle_matrix(s, p0, mm, sc, 0))
                by {
                match rle_matrix(s, p0, mm, sc, 0) {
                    Option::Some(mp) => {
                        assert(dmat + mp.rows =~= mp.rows);
                    },
                    Option::None => {},
                }
            }
        }
        while i < m
            invariant
                0 <= i <= m,
                *pos <= data.len(),
                out@.len() == i,
                dmat.len() == i,
                rle_matrix(s, p0, mm, sc, 0) == glue_mat(
                    dmat,
                    rle_matrix(s, *pos as int, (mm - i) as nat, sc, zeroes as nat),
                ),
                forall|k: int| 0 <= k < i ==> (#[trigger] out@[k].groups)@ == metrics@[k].groups@,
                forall|k: int| 0 <= k < i ==> #[trigger] out@[k].vtype == metrics@[k].vtype,
                forall|k: int|
                    0 <= k < i ==> (#[trigger] out@[k].values)@ == abs_row(
                        dmat[k],
                        metrics@[k].value,
                    ),
            decreases m - i,
        {
            let ghost row_start = *pos as int;
            let ghost z_row0 = zeroes as nat;
            let mut row: Vec<u64> = Vec::new();
            let mut j: usize = 0;
            proof {
                assert(glue_row(row@, rle_row(s, row_start, sc, z_row0)) == rle_row(
                    s,
                    row_start,
                    sc,
                    z_row0,
                )) by {
                    match rle_row(s, row_start, sc, z_row0) {
                        Option::Some(rp) => {
                            assert(row@ + rp.row =~= rp.row);
                        },
                        Option::None => {},
                    }
                }
            }
            while j < samples_count
                invariant
                    0 <= j <= samples_count,
                    *pos <= data.len(),
                    row@.len() == j,
                    rle_row(s, row_start, sc, z_row0) == glue_row(
                        row@,
                        rle_row(s, *pos as int, (sc - j) as nat, zeroes as nat),
                    ),
                decreases samples_count - j,
            {
                let ghost row_pre = row@;
                let ghost p_pre = *pos as int;
                let ghost z_pre = zeroes as nat;
                if zeroes != 0 {
                    row.push(0);
                    zeroes = zeroes - 1;
                    proof {
                        assert(rle_row(s, p_pre, (sc - j) as nat, z_pre) == cons_row(
                            0,
                            rle_row(s, p_pre, (sc - j - 1) as nat, (z_pre - 1) as nat),
                        ));
                        lemma_glue_row_step(
                            row_pre,
                            0,
                            rle_row(s, p_pre, (sc - j - 1) as nat, (z_pre - 1) as nat),
                        );
                    }
                    j = j + 1;
                    continue ;
                }
                let delta = match read_var_u64(data, pos) {
                    Ok(v) => v,
                    Err(e) => {
                        proof {
                            crate::bytes::lemma_read_var_u64_matches(
                                s,
                                p_pre,
                                *pos as int,
                                Err::<u64, ReadError>(e),
                            );
                        }
                        let message = match e {
                            ReadError::Eof => String::from_str(
                                "the sample matrix ends before all samples were decoded",
                            ),
                            ReadError::InvalidData { message } => message,
                        };
                        return Err(MetricParseError::Io { message });
                    },
                };
                proof {
                    crate::bytes::lemma_read_var_u64_matches(
                        s,
                        p_pre,
                        *pos as int,
                        Ok::<u64, ReadError>(delta),
                    );
                }
                if delta == 0 {
                    let ghost p_mid = *pos as int;
                    let zero_count = match read_var_u64(data, pos) {
                        Ok(v) => v,
                        Err(e) => {
                            proof {
                                crate::bytes::lemma_read_var_u64_matches(
                                    s,
                                    p_mid,
                                    *pos as int,
                                    Err::<u64, ReadError>(e),
                                );
                            }
                            let message = match e {
                                ReadError::Eof => String::from_str(
                                    "the sample matrix ends inside a zero-run length",
                                ),
                                ReadError::InvalidData { message } => message,
                            };
                            return Err(MetricParseError::Io { message });
                        },
                    };
                    proof {
                        crate::bytes::lemma_read_var_u64_matches(
                            s,
                            p_mid,
                            *pos as int,
                            Ok::<u64, ReadError>(zero_count),
                        );
                    }
                    zeroes = zero_count;
                    row.push(0);
                    proof {
                        assert(rle_row(s, p_pre, (sc - j) as nat, z_pre) == cons_row(
                            0,
                            rle_row(s, *pos as int, (sc - j - 1) as nat, zero_count as nat),
                        ));
                        lemma_glue_row_step(
                            row_pre,
                            0,
                            rle_row(s, *pos as int, (sc - j - 1) as nat, zero_count as nat),
                        );
                    }
                } else {
                    row.push(delta);
                    proof {
                        assert(rle_row(s, p_pre, (sc - j) as nat, z_pre) == cons_row(
                            delta,
                            rle_row(s, *pos as int, (sc - j - 1) as nat, 0),
                        ));
                        lemma_glue_row_step(
                            row_pre,
                            delta,
                            rle_row(s, *pos as int, (sc - j - 1) as nat, 0),
                        );
                    }
                }
                j = j + 1;
            }
            proof {
                assert(rle_row(s, *pos as int, 0, zeroes as nat) == Option::Some(
                    RowParse { row: Seq::empty(), end: *pos as int, zeroes: zeroes as nat },
                ));
                assert(row@ + Seq::<u64>::empty() =~= row@);
                assert(rle_row(s, row_start, sc, z_row0) == Option::Some(
                    RowParse { row: row@, end: *pos as int, zeroes: zeroes as nat },
                ));
            }

            let init = metrics[i].value;
            let mut values: Vec<u64> = Vec::new();
            let mut k: usize = 0;
            while k < samples_count
                invariant
                    0 <= k <= samples_count,
                    row@.len() == samples_count,
                    values@.len() == k,
                    forall|q: int| 0 <= q < k ==> values@[q] == abs_at(row@, init, q),
                decreases samples_count - k,
            {
                let v = if k == 0 {
                    wadd_exec(row[0], init)
                } else {
                    wadd_exec(row[k], values[k - 1])
                };
                values.push(v);
                k = k + 1;
            }
            proof {
                assert(values@ =~= abs_row(row@, init));
            }

            let groups = clone_path(&metrics[i].groups);
            let ghost out_pre = out@;
            out.push(RawMetric::new(groups, metrics[i].vtype, values));
            proof {
                assert((out@[i as int].groups)@ == metrics@[i as int].groups@);
                assert(out@[i as int].values@ == abs_row(row@, metrics@[i as int].value));
                assert(rle_matrix(s, row_start, (mm - i) as nat, sc, z_row0) == cons_mat(
                    row@,
                    rle_matrix(s, *pos as int, (mm - i - 1) as nat, sc, zeroes as nat),
                ));
                lemma_glue_mat_step(
                    dmat,
                    row@,
                    rle_matrix(s, *pos as int, (mm - i - 1) as nat, sc, zeroes as nat),
                );
                let ghost dmat_pre = dmat;
                dmat = dmat.push(row@);
                assert forall|k: int| 0 <= k < i implies (#[trigger] out@[k].values)@ == abs_row(
                    dmat[k],
                    metrics@[k].value,
                ) by {
                    assert(out@[k] == out_pre[k]);
                    assert(dmat[k] == dmat_pre[k]);
                }
                assert(dmat[i as int] == row@);
                assert((out@[i as int].values)@ == abs_row(dmat[i as int], metrics@[i as int].value));
            }
            i = i + 1;
        }
        proof {
            assert(rle_matrix(s, *pos as int, 0, sc, zeroes as nat) == Option::Some(
                MatParse { rows: Seq::empty(), end: *pos as int, zeroes: zeroes as nat },
            ));
            assert(dmat + Seq::<Seq<u64>>::empty() =~= dmat);
            assert(rle_matrix(s, p0, mm, sc, 0) == Option::Some(
                MatParse { rows: dmat, end: *pos as int, zeroes: zeroes as nat },
            ));
        }
        Ok(out)
    }
}


/// The typed value a 64-bit slot converts to under each declared type.
///
/// Integer widths truncate; a boolean is any non-zero slot; a datetime
/// reinterprets the slot as signed milliseconds; a floating-point metric
/// keeps the slot itself.
pub open spec fn spec_convert(t: ValueType, value: u64) -> MetricValue {
    match t {
        ValueType::U32 => MetricValue::UInt32(value as u32),
        ValueType::I32 => MetricValue::Int32(value as i32),
        ValueType::I64 => MetricValue::Int64(value as i64),
        ValueType::F64 => MetricValue::Float64(value),
        ValueType::Bool => MetricValue::Boolean(value != 0),
        ValueType::DateTime => MetricValue::DateTime(value as i64),
    }
}

impl ValueType {
    /// Reinterprets a decoded 64-bit slot under this type.
    pub fn convert(&self, value: u64) -> (r: MetricValue)
        ensures
            r == spec_convert(*self, value),
    {
        match *self {
            ValueType::U32 => MetricValue::UInt32(#[verifier::truncate] (value as u32)),
            ValueType::I32 => MetricValue::Int32(#[verifier::truncate] (value as i32)),
            ValueType::I64 => MetricValue::Int64(#[verifier::truncate] (value as i64)),
            ValueType::F64 => MetricValue::Float64(value),
            ValueType::Bool => MetricValue::Boolean(value != 0),
            ValueType::DateTime => MetricValue::DateTime(#[verifier::truncate] (value as i64)),
        }
    }
}

/// Rows that carry, for each schema entry, its path and type together with
/// exactly its initial value as the one sample.
pub open spec fn rows_of_entries_init(rows: Seq<RawMetric>, entries: Seq<SchemaEntry>) -> bool {
    &&& rows.len() == entries.len()
    &&& forall|k: int|
        0 <= k < rows.len() ==> path_view((#[trigger] rows[k].groups)@) == entries[k].0
    &&& forall|k: int| 0 <= k < rows.len() ==> #[trigger] rows[k].vtype == entries[k].1
    &&& forall|k: int| 0 <= k < rows.len() ==> (#[trigger] rows[k].values)@ == seq![entries[k].2]
}

/// Rows that carry, for each schema entry, its path and type together with
/// the absolute samples rebuilt from the decoded delta matrix.
pub open spec fn rows_of_entries_deltas(
    rows: Seq<RawMetric>,
    entries: Seq<SchemaEntry>,
    dmat: Seq<Seq<u64>>,
) -> bool {
    &&& rows.len() == entries.len()
    &&& dmat.len() == entries.len()
    &&& forall|k: int|
        0 <= k < rows.len() ==> path_view((#[trigger] rows[k].groups)@) == entries[k].0
    &&& forall|k: int| 0 <= k < rows.len() ==> #[trigger] rows[k].vtype == entries[k].1
    &&& forall|k: int|
        0 <= k < rows.len() ==> (#[trigger] rows[k].values)@ == abs_row(dmat[k], entries[k].2)
}

impl MetricParser {
    /// Decodes the whole sample stage of a chunk: extracts the schema from
    /// the reference document, checks it against the announced metric
    /// count, and decodes the sample matrix into one raw metric per entry.
    pub fn parse(
        reference_doc: &Document,
        data: &[u8],
        pos: &mut usize,
        metrics_count: usize,
        samples_count: usize,
    ) -> (r: Result<Vec<RawMetric>, MetricParseError>)
        requires
            *old(pos) <= data.len(),
        ensures
            spec_select(*reference_doc).len() != metrics_count ==> (r matches Err(
                MetricParseError::MetricCountMismatch,
            )) && *final(pos) == *old(pos),
            spec_select(*reference_doc).len() == metrics_count && samples_count == 0
                ==> *final(pos) == *old(pos) && (r matches Ok(rows) && rows_of_entries_init(
                rows@,
                spec_select(*reference_doc),
            )),
            spec_select(*reference_doc).len() == metrics_count && samples_count > 0 ==> match
                rle_matrix(
                data@,
                *old(pos) as int,
                metrics_count as nat,
                samples_count as nat,
                0,
            ) {
                Option::Some(mp) => r matches Ok(rows) && *final(pos) == mp.end
                    && rows_of_entries_deltas(rows@, spec_select(*reference_doc), mp.rows),
                Option::None => r matches Err(MetricParseError::Io { .. }),
            },
    {
        let init_values = match Self::read_initial_values(reference_doc, metrics_count) {
            Ok(v) => v,
            Err(e) => {
                return Err(e);
            },
        };
        let ghost ms = init_values@;
        let r = Self::read_samples(data, pos, init_values, samples_count);
        proof {
            let entries = spec_select(*reference_doc);
            assert(entries_of(ms) == entries);
            assert(forall|k: int|
                0 <= k < ms.len() ==> #[trigger] entries[k] == entry_of(ms[k]));
        }
        r
    }
}


/// The count of leading zero slots.
pub open spec fn leading_zeros(slots: Seq<u64>) -> nat
    decreases slots.len(),
{
    if slots.len() == 0 || slots[0] != 0 {
        0
    } else {
        1 + leading_zeros(slots.drop_first())
    }
}

/// The delta-RLE encoding of a slot sequence: a non-zero slot is one
/// varint; a maximal run of zero slots is a zero varint followed by the
/// run's length less one.
pub open spec fn rle_encode(slots: Seq<u64>) -> Seq<u8>
    decreases slots.len(),
    via rle_encode_decreases
{
    if slots.len() == 0 {
        Seq::empty()
    } else if slots[0] == 0 {
        let r = leading_zeros(slots);
        crate::bytes::varint_bytes(0) + crate::bytes::varint_bytes((r - 1) as nat) + rle_encode(
            slots.skip(r as int),
        )
    } else {
        crate::bytes::varint_bytes(slots[0] as nat) + rle_encode(slots.drop_first())
    }
}

#[via_fn]
proof fn rle_encode_decreases(slots: Seq<u64>) {
    lemma_leading_zeros(slots);
}

/// There are never more leading zeros than slots, and the leading slots
/// are indeed zero.
proof fn lemma_leading_zeros(slots: Seq<u64>)
    ensures
        leading_zeros(slots) <= slots.len(),
        forall|k: int| 0 <= k < leading_zeros(slots) ==> slots[k] == 0,
    decreases slots.len(),
{
    if slots.len() == 0 || slots[0] != 0 {
    } else {
        lemma_leading_zeros(slots.drop_first());
        assert forall|k: int| 0 <= k < leading_zeros(slots) implies slots[k] == 0 by {
            if k > 0 {
                assert(slots.drop_first()[k - 1] == slots[k]);
            }
        }
    }
}

/// The first maximal zero run is what the scan finds: `r` zero slots
/// followed by the end or a non-zero slot.
proof fn lemma_leading_zeros_exact(slots: Seq<u64>, r: int)
    requires
        0 <= r <= slots.len(),
        forall|k: int| 0 <= k < r ==> slots[k] == 0,
        r == slots.len() || slots[r] != 0,
    ensures
        leading_zeros(slots) == r,
    decreases r,
{
    if r == 0 {
    } else {
        assert(slots[0] == 0);
        lemma_leading_zeros_exact(slots.drop_first(), r - 1);
    }
}

/// A varint embedded in a longer byte sequence parses to its value and
/// its end.
proof fn lemma_varint_at_embedded(s: Seq<u8>, pos: int, v: u64)
    requires
        0 <= pos,
        pos + crate::bytes::varint_bytes(v as nat).len() <= s.len(),
        s.subrange(pos, pos + crate::bytes::varint_bytes(v as nat).len() as int)
            == crate::bytes::varint_bytes(v as nat),
    ensures
        varint_at(s, pos) == Option::Some(
            (v, pos + crate::bytes::varint_bytes(v as nat).len() as int),
        ),
{
    let vb = crate::bytes::varint_bytes(v as nat);
    crate::bytes::lemma_varint_round_trip(v as nat);
    vstd::arithmetic::power2::lemma2_to64();
    assert forall|i: int| pos <= i < pos + vb.len() - 1 implies s[i] >= 128 by {
        assert(s.subrange(pos, pos + vb.len() as int)[i - pos] == s[i]);
    }
    assert(s[pos + vb.len() - 1] < 128) by {
        assert(s.subrange(pos, pos + vb.len() as int)[vb.len() - 1] == s[pos + vb.len() - 1]);
    }
    crate::bytes::lemma_varint_term_found(s, pos, pos + vb.len() - 1, 9);
    assert(s.subrange(pos, pos + vb.len() as int) =~= vb);
    vstd::arithmetic::div_mod::lemma_small_mod(v as nat, vstd::arithmetic::power2::pow2(64));
}

/// Decoding with `z` zeroes pending first fills `z` zero slots.
proof fn lemma_rle_decode_zeroes(s: Seq<u8>, pos: int, slots: Seq<u64>, z: int, end: int)
    requires
        0 <= z <= slots.len(),
        forall|k: int| 0 <= k < z ==> slots[k] == 0,
        rle_row(s, pos, (slots.len() - z) as nat, 0) == Option::Some(
            RowParse { row: slots.skip(z), end: end, zeroes: 0 },
        ),
    ensures
        rle_row(s, pos, slots.len() as nat, z as nat) == Option::Some(
            RowParse { row: slots, end: end, zeroes: 0 },
        ),
    decreases z,
{
    if z == 0 {
        assert(slots.skip(0) =~= slots);
    } else {
        assert(slots[0] == 0);
        assert(slots.drop_first().skip(z - 1) =~= slots.skip(z as int));
        assert(forall|k: int| 0 <= k < z - 1 ==> slots.drop_first()[k] == 0);
        lemma_rle_decode_zeroes(s, pos, slots.drop_first(), z - 1, end);
        assert(rle_row(s, pos, slots.len() as nat, z as nat) == cons_row(
            0,
            rle_row(s, pos, (slots.len() - 1) as nat, (z - 1) as nat),
        ));
        assert(seq![0u64] + slots.drop_first() =~= slots);
    }
}

/// Decoding the delta-RLE encoding of any slot sequence yields exactly
/// those slots, consumes exactly the encoding, and leaves no zero run
/// pending. The encoding may sit inside a longer byte sequence.
pub proof fn lemma_rle_round_trip(s: Seq<u8>, pos: int, slots: Seq<u64>)
    requires
        0 <= pos,
        slots.len() < 0x1_0000_0000_0000_0000,
        pos + rle_encode(slots).len() <= s.len(),
        s.subrange(pos, pos + rle_encode(slots).len() as int) == rle_encode(slots),
    ensures
        rle_row(s, pos, slots.len() as nat, 0) == Option::Some(
            RowParse { row: slots, end: pos + rle_encode(slots).len() as int, zeroes: 0 },
        ),
    decreases slots.len(),
{
    vstd::arithmetic::power2::lemma2_to64();
    if slots.len() == 0 {
        assert(rle_row(s, pos, 0, 0) == Option::Some(
            RowParse { row: Seq::empty(), end: pos, zeroes: 0 },
        ));
        assert(slots =~= Seq::<u64>::empty());
    } else if slots[0] == 0 {
        let r = leading_zeros(slots) as int;
        lemma_leading_zeros(slots);
        assert(r >= 1);
        let vb0 = crate::bytes::varint_bytes(0);
        let vbr = crate::bytes::varint_bytes((r - 1) as nat);
        let rest = rle_encode(slots.skip(r));
        let enc = rle_encode(slots);
        assert(enc == vb0 + vbr + rest);
        crate::bytes::lemma_varint_round_trip(0);
        crate::bytes::lemma_varint_round_trip((r - 1) as nat);
        assert(r - 1 < 0x1_0000_0000_0000_0000);
        let p1 = pos + vb0.len() as int;
        let p2 = p1 + vbr.len() as int;
        assert(s.subrange(pos, pos + vb0.len() as int) =~= vb0) by {
            assert(s.subrange(pos, pos + vb0.len() as int) =~= s.subrange(
                pos,
                pos + enc.len() as int,
            ).subrange(0, vb0.len() as int));
            assert(enc.subrange(0, vb0.len() as int) =~= vb0);
        }
        lemma_varint_at_embedded(s, pos, 0);
        assert(s.subrange(p1, p1 + vbr.len() as int) =~= vbr) by {
            assert(s.subrange(p1, p1 + vbr.len() as int) =~= s.subrange(
                pos,
                pos + enc.len() as int,
            ).subrange(vb0.len() as int, (vb0.len() + vbr.len()) as int));
            assert(enc.subrange(vb0.len() as int, (vb0.len() + vbr.len()) as int) =~= vbr);
        }
        assert((r - 1) as u64 as nat == (r - 1) as nat);
        lemma_varint_at_embedded(s, p1, (r - 1) as u64);
        assert(s.subrange(p2, p2 + rest.len() as int) =~= rest) by {
            assert(s.subrange(p2, p2 + rest.len() as int) =~= s.subrange(
                pos,
                pos + enc.len() as int,
            ).subrange((vb0.len() + vbr.len()) as int, enc.len() as int));
            assert(enc.subrange((vb0.len() + vbr.len()) as int, enc.len() as int) =~= rest);
        }
        lemma_rle_round_trip(s, p2, slots.skip(r));
        let zend = p2 + rest.len() as int;
        assert(slots.drop_first().skip(r - 1) =~= slots.skip(r));
        assert(forall|k: int| 0 <= k < r - 1 ==> slots.drop_first()[k] == 0);
        lemma_rle_decode_zeroes(s, p2, slots.drop_first(), r - 1, zend);
        assert(rle_row(s, pos, slots.len() as nat, 0) == cons_row(
            0,
            rle_row(s, p2, (slots.len() - 1) as nat, (r - 1) as nat),
        ));
        assert(seq![0u64] + slots.drop_first() =~= slots);
        assert(zend == pos + enc.len() as int);
    } else {
        let v = slots[0];
        let vb = crate::bytes::varint_bytes(v as nat);
        let rest = rle_encode(slots.drop_first());
        let enc = rle_encode(slots);
        assert(enc == vb + rest);
        crate::bytes::lemma_varint_round_trip(v as nat);
        assert(s.subrange(pos, pos + vb.len() as int) =~= vb) by {
            assert(s.subrange(pos, pos + vb.len() as int) =~= s.subrange(
                pos,
                pos + enc.len() as int,
            ).subrange(0, vb.len() as int));
            assert(enc.subrange(0, vb.len() as int) =~= vb);
        }
        lemma_varint_at_embedded(s, pos, v);
        let p1 = pos + vb.len() as int;
        assert(s.subrange(p1, p1 + rest.len() as int) =~= rest) by {
            assert(s.subrange(p1, p1 + rest.len() as int) =~= s.subrange(
                pos,
                pos + enc.len() as int,
            ).subrange(vb.len() as int, enc.len() as int));
            assert(enc.subrange(vb.len() as int, enc.len() as int) =~= rest);
        }
        lemma_rle_round_trip(s, p1, slots.drop_first());
        assert(rle_row(s, pos, slots.len() as nat, 0) == cons_row(
            v,
            rle_row(s, p1, (slots.len() - 1) as nat, 0),
        ));
        assert(seq![v] + slots.drop_first() =~= slots);
    }
}

/// Encodes a slot sequence as delta-RLE bytes, exactly as [`rle_encode`]
/// states; decoding them yields the slots back.
#[verifier::loop_isolation(false)]
pub fn encode_delta_rle(slots: &Vec<u64>) -> (r: Vec<u8>)
    ensures
        r@ == rle_encode(slots@),
{
    let mut out: Vec<u8> = Vec::new();
    let n = slots.len();
    let mut i: usize = 0;
    proof {
        assert(out@ + rle_encode(slots@.skip(0)) =~= rle_encode(slots@)) by {
            assert(slots@.skip(0) =~= slots@);
        }
    }
    while i < n
        invariant
            0 <= i <= n,
            n == slots@.len(),
            rle_encode(slots@) == out@ + rle_encode(slots@.skip(i as int)),
        decreases n - i,
    {
        let ghost out_pre = out@;
        if slots[i] == 0 {
            let mut j: usize = i;
            while j < n && slots[j] == 0
                invariant
                    i <= j <= n,
                    forall|k: int| i <= k < j ==> slots@[k] == 0,
                decreases n - j,
            {
                j = j + 1;
            }
            proof {
                assert(forall|k: int| 0 <= k < j - i ==> slots@.skip(i as int)[k] == 0);
                lemma_leading_zeros_exact(slots@.skip(i as int), j - i);
            }
            crate::bytes::write_var_u64(0, &mut out);
            crate::bytes::write_var_u64((j - i - 1) as u64, &mut out);
            proof {
                assert(slots@.skip(i as int).skip(j - i) =~= slots@.skip(j as int));
                assert(rle_encode(slots@.skip(i as int)) == crate::bytes::varint_bytes(0)
                    + crate::bytes::varint_bytes((j - i - 1) as nat) + rle_encode(
                    slots@.skip(j as int),
                ));
                assert((j - i - 1) as u64 as nat == (j - i - 1) as nat);
                assert(rle_encode(slots@) == out@ + rle_encode(slots@.skip(j as int))) by {
                    assert(out@ =~= out_pre + crate::bytes::varint_bytes(0)
                        + crate::bytes::varint_bytes((j - i - 1) as nat));
                    assert(out_pre + (crate::bytes::varint_bytes(0) + crate::bytes::varint_bytes(
                        (j - i - 1) as nat,
                    ) + rle_encode(slots@.skip(j as int))) =~= out_pre + crate::bytes::varint_bytes(
                        0,
                    ) + crate::bytes::varint_bytes((j - i - 1) as nat) + rle_encode(
                        slots@.skip(j as int),
                    ));
                }
            }
            i = j;
        } else {
            crate::bytes::write_var_u64(slots[i], &mut out);
            proof {
                assert(slots@.skip(i as int).drop_first() =~= slots@.skip(i + 1));
                assert(rle_encode(slots@.skip(i as int)) == crate::bytes::varint_bytes(
                    slots@[i as int] as nat,
                ) + rle_encode(slots@.skip(i + 1)));
                assert(rle_encode(slots@) == out@ + rle_encode(slots@.skip(i + 1))) by {
                    assert(out@ =~= out_pre + crate::bytes::varint_bytes(slots@[i as int] as nat));
                    assert(out_pre + (crate::bytes::varint_bytes(slots@[i as int] as nat)
                        + rle_encode(slots@.skip(i + 1))) =~= out_pre
                        + crate::bytes::varint_bytes(slots@[i as int] as nat) + rle_encode(
                        slots@.skip(i + 1),
                    ));
                }
            }
            i = i + 1;
        }
    }
    proof {
        assert(slots@.skip(n as int) =~= Seq::<u64>::empty());
        assert(out@ + Seq::<u8>::empty() =~= out@);
    }
    out
}


/// A decoded row always has exactly as many slots as were asked for.
proof fn lemma_rle_row_len(s: Seq<u8>, pos: int, count: nat, zeroes: nat)
    ensures
        match rle_row(s, pos, count, zeroes) {
            Option::Some(rp) => rp.row.len() == count,
            Option::None => true,
        },
    decreases count,
{
    if count == 0 {
    } else if zeroes > 0 {
        lemma_rle_row_len(s, pos, (count - 1) as nat, (zeroes - 1) as nat);
    } else {
        match varint_at(s, pos) {
            Option::Some(ve) => {
                if ve.0 == 0 {
                    match varint_at(s, ve.1) {
                        Option::Some(ze) => {
                            lemma_rle_row_len(s, ze.1, (count - 1) as nat, ze.0 as nat);
                        },
                        Option::None => {},
                    }
                } else {
                    lemma_rle_row_len(s, ve.1, (count - 1) as nat, 0);
                }
            },
            Option::None => {},
        }
    }
}

/// Prepending a slot to a glued row outcome moves it into the prefix.
proof fn lemma_cons_glue(h: u64, a: Seq<u64>, x: Option<RowParse>)
    ensures
        cons_row(h, glue_row(a, x)) == glue_row(seq![h] + a, x),
{
    match x {
        Option::Some(rp) => {
            assert(seq![h] + (a + rp.row) =~= (seq![h] + a) + rp.row);
        },
        Option::None => {},
    }
}

/// Decoding a count that is a sum decodes the first part, then the second
/// from where the first ended, with its pending zeroes.
proof fn lemma_rle_row_split(s: Seq<u8>, pos: int, c1: nat, c2: nat, z: nat)
    ensures
        rle_row(s, pos, (c1 + c2) as nat, z) == match rle_row(s, pos, c1, z) {
            Option::Some(rp) => glue_row(rp.row, rle_row(s, rp.end, c2, rp.zeroes)),
            Option::None => Option::None,
        },
    decreases c1,
{
    if c1 == 0 {
        assert(rle_row(s, pos, 0, z) == Option::Some(
            RowParse { row: Seq::empty(), end: pos, zeroes: z },
        ));
        match rle_row(s, pos, c2, z) {
            Option::Some(rp) => {
                assert(Seq::<u64>::empty() + rp.row =~= rp.row);
            },
            Option::None => {},
        }
    } else if z > 0 {
        lemma_rle_row_split(s, pos, (c1 - 1) as nat, c2, (z - 1) as nat);
        match rle_row(s, pos, (c1 - 1) as nat, (z - 1) as nat) {
            Option::Some(rp) => {
                lemma_cons_glue(0, rp.row, rle_row(s, rp.end, c2, rp.zeroes));
            },
            Option::None => {},
        }
    } else {
        match varint_at(s, pos) {
            Option::Some(ve) => {
                if ve.0 == 0 {
                    match varint_at(s, ve.1) {
                        Option::Some(ze) => {
                            lemma_rle_row_split(s, ze.1, (c1 - 1) as nat, c2, ze.0 as nat);
                            match rle_row(s, ze.1, (c1 - 1) as nat, ze.0 as nat) {
                                Option::Some(rp) => {
                                    lemma_cons_glue(0, rp.row, rle_row(s, rp.end, c2, rp.zeroes));
                                },
                                Option::None => {},
                            }
                        },
                        Option::None => {},
                    }
                } else {
                    lemma_rle_row_split(s, ve.1, (c1 - 1) as nat, c2, 0);
                    match rle_row(s, ve.1, (c1 - 1) as nat, 0) {
                        Option::Some(rp) => {
                            lemma_cons_glue(ve.0, rp.row, rle_row(s, rp.end, c2, rp.zeroes));
                        },
                        Option::None => {},
                    }
                }
            },
            Option::None => {},
        }
    }
}

/// The rows of a matrix laid end to end.
pub open spec fn flatten_rows(rows: Seq<Seq<u64>>) -> Seq<u64>
    decreases rows.len(),
{
    if rows.len() == 0 {
        Seq::empty()
    } else {
        rows[0] + flatten_rows(rows.drop_first())
    }
}

/// A uniform matrix flattens to one slot sequence of its total size.
proof fn lemma_flatten_uniform_len(rows: Seq<Seq<u64>>, sc: nat)
    requires
        forall|k: int| 0 <= k < rows.len() ==> (#[trigger] rows[k]).len() == sc,
    ensures
        flatten_rows(rows).len() == rows.len() * sc,
    decreases rows.len(),
{
    if rows.len() == 0 {
    } else {
        assert(forall|k: int|
            0 <= k < rows.drop_first().len() ==> (#[trigger] rows.drop_first()[k]).len() == sc);
        lemma_flatten_uniform_len(rows.drop_first(), sc);
        assert(rows.len() * sc == sc + (rows.len() - 1) * sc) by (nonlinear_arith);
    }
}

/// Two uniform matrices of the same shape with the same flattening are
/// the same matrix.
proof fn lemma_flatten_uniform_inj(a: Seq<Seq<u64>>, b: Seq<Seq<u64>>, sc: nat)
    requires
        a.len() == b.len(),
        forall|k: int| 0 <= k < a.len() ==> (#[trigger] a[k]).len() == sc,
        forall|k: int| 0 <= k < b.len() ==> (#[trigger] b[k]).len() == sc,
        flatten_rows(a) == flatten_rows(b),
    ensures
        a == b,
    decreases a.len(),
{
    if a.len() == 0 {
        assert(a =~= b);
    } else {
        let fa = flatten_rows(a);
        assert(fa == a[0] + flatten_rows(a.drop_first()));
        assert(fa == b[0] + flatten_rows(b.drop_first()));
        assert(a[0] =~= b[0]) by {
            assert(forall|j: int| 0 <= j < sc ==> #[trigger] a[0][j] == fa[j]);
            assert(forall|j: int| 0 <= j < sc ==> #[trigger] b[0][j] == fa[j]);
        }
        assert(flatten_rows(a.drop_first()) =~= flatten_rows(b.drop_first())) by {
            let ra = flatten_rows(a.drop_first());
            let rb = flatten_rows(b.drop_first());
            assert(ra.len() == fa.len() - sc);
            assert(rb.len() == fa.len() - sc);
            assert(forall|j: int| 0 <= j < ra.len() ==> #[trigger] ra[j] == fa[sc + j]);
            assert(forall|j: int| 0 <= j < rb.len() ==> #[trigger] rb[j] == fa[sc + j]);
        }
        assert(forall|k: int|
            0 <= k < a.drop_first().len() ==> (#[trigger] a.drop_first()[k]).len() == sc);
        assert(forall|k: int|
            0 <= k < b.drop_first().len() ==> (#[trigger] b.drop_first()[k]).len() == sc);
        lemma_flatten_uniform_inj(a.drop_first(), b.drop_first(), sc);
        assert(a =~= b) by {
            assert(forall|k: int|
                1 <= k < a.len() ==> #[trigger] a[k] == a.drop_first()[k - 1] && b[k]
                    == b.drop_first()[k - 1]);
        }
    }
}

/// A decoded matrix is the row-chunking of the flat decode of its total
/// slot count, with rows of the sample width.
proof fn lemma_rle_matrix_flat(s: Seq<u8>, pos: int, m: nat, sc: nat, z: nat)
    ensures
        match rle_matrix(s, pos, m, sc, z) {
            Option::Some(mp) => {
                &&& rle_row(s, pos, (m * sc) as nat, z) == Option::Some(
                    RowParse { row: flatten_rows(mp.rows), end: mp.end, zeroes: mp.zeroes },
                )
                &&& mp.rows.len() == m
                &&& forall|k: int| 0 <= k < mp.rows.len() ==> (#[trigger] mp.rows[k]).len() == sc
            },
            Option::None => rle_row(s, pos, (m * sc) as nat, z) is None,
        },
    decreases m,
{
    if m == 0 {
        assert(rle_matrix(s, pos, 0, sc, z) == Option::Some(
            MatParse { rows: Seq::empty(), end: pos, zeroes: z },
        ));
        assert(flatten_rows(Seq::<Seq<u64>>::empty()) =~= Seq::<u64>::empty());
        assert(m * sc == 0) by (nonlinear_arith)
            requires
                m == 0,
        ;
    } else {
        assert((m * sc) as nat == sc + ((m - 1) as nat) * sc) by (nonlinear_arith)
            requires
                m >= 1,
        ;
        lemma_rle_row_split(s, pos, sc, (((m - 1) as nat) * sc) as nat, z);
        match rle_row(s, pos, sc, z) {
            Option::Some(rp) => {
                lemma_rle_row_len(s, pos, sc, z);
                lemma_rle_matrix_flat(s, rp.end, (m - 1) as nat, sc, rp.zeroes);
                match rle_matrix(s, rp.end, (m - 1) as nat, sc, rp.zeroes) {
                    Option::Some(mp) => {
                        assert(rle_matrix(s, pos, m, sc, z) == Option::Some(
                            MatParse {
                                rows: seq![rp.row] + mp.rows,
                                end: mp.end,
                                zeroes: mp.zeroes,
                            },
                        ));
                        assert((seq![rp.row] + mp.rows).drop_first() =~= mp.rows);
                        assert(flatten_rows(seq![rp.row] + mp.rows) == rp.row + flatten_rows(
                            mp.rows,
                        ));
                        assert(forall|k: int|
                            0 <= k < (seq![rp.row] + mp.rows).len() ==> (#[trigger] (seq![rp.row]
                                + mp.rows)[k]).len() == sc) by {
                            assert(forall|k: int|
                                1 <= k < (seq![rp.row] + mp.rows).len() ==> (seq![rp.row]
                                    + mp.rows)[k] == mp.rows[k - 1]);
                        }
                    },
                    Option::None => {},
                }
            },
            Option::None => {},
        }
    }
}

/// Decoding the delta-RLE encoding of a uniform matrix, laid out row
/// major with zero runs crossing row boundaries, yields exactly its rows,
/// consumes exactly the encoding and leaves no zero run pending.
pub proof fn lemma_rle_matrix_round_trip(mrows: Seq<Seq<u64>>, sc: nat)
    requires
        forall|k: int| 0 <= k < mrows.len() ==> (#[trigger] mrows[k]).len() == sc,
        mrows.len() * sc < 0x1_0000_0000_0000_0000,
    ensures
        rle_matrix(
            rle_encode(flatten_rows(mrows)),
            0,
            mrows.len(),
            sc,
            0,
        ) == Option::Some(
            MatParse {
                rows: mrows,
                end: rle_encode(flatten_rows(mrows)).len() as int,
                zeroes: 0,
            },
        ),
{
    let flat = flatten_rows(mrows);
    let enc = rle_encode(flat);
    lemma_flatten_uniform_len(mrows, sc);
    assert(enc.subrange(0, enc.len() as int) =~= enc);
    lemma_rle_round_trip(enc, 0, flat);
    lemma_rle_matrix_flat(enc, 0, mrows.len(), sc, 0);
    match rle_matrix(enc, 0, mrows.len(), sc, 0) {
        Option::Some(mp) => {
            assert(flatten_rows(mp.rows) == flat && mp.end == enc.len() && mp.zeroes == 0);
            lemma_flatten_uniform_inj(mp.rows, mrows, sc);
        },
        Option::None => {
            assert(rle_row(enc, 0, (mrows.len() * sc) as nat, 0) is None);
            assert(false);
        },
    }
}

} // verus!
