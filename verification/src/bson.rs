//! An in-memory model of BSON-style binary documents and a verified parser
//! for them.
//!
//! A document is a length-prefixed list of elements, each a one-byte kind
//! tag, a NUL-terminated key and a value whose layout the tag dictates,
//! closed by a NUL byte. The parser is proved sound against the spec-level
//! serializer [`doc_bytes`]: every document it returns serializes to exactly
//! the bytes it consumed. Keys and text are UTF-8; text that is not valid
//! UTF-8 makes the document malformed.

use vstd::prelude::*;

use crate::bytes::{le_bytes, le_value, read_bytes, read_le_u32, read_le_u64, read_u8, ReadError};
use crate::error::KeyAccessError;
use crate::error::MetricParseError;

verus! {

/// One key/value pair of a document.
#[derive(Debug)]
pub struct Element {
    /// The element's key, without its NUL terminator.
    pub key: String,
    /// The element's value.
    pub value: BsonValue,
}

/// A parsed document: its elements in input order.
#[derive(Debug)]
pub struct Document {
    /// The key/value pairs of the document, in input order.
    pub elements: Vec<Element>,
}

/// A BSON value of one of the kinds the decoder understands.
///
/// Numeric kinds carry their raw wire content: a double is kept as its
/// IEEE-754 bits, a datetime as signed milliseconds since the Unix epoch.
#[derive(Debug)]
pub enum BsonValue {
    /// A 64-bit floating point number, as its raw bits.
    Double(u64),
    /// A UTF-8 string.
    Text(String),
    /// An embedded document.
    Doc(Document),
    /// An array, laid out as a document whose keys are decimal indices.
    Array(Document),
    /// A binary blob with its subtype byte.
    Binary(u8, Vec<u8>),
    /// The deprecated undefined value.
    Undefined,
    /// A twelve-byte object id.
    ObjectId(Vec<u8>),
    /// A boolean.
    Boolean(bool),
    /// A point in time: signed milliseconds since the Unix epoch.
    DateTime(i64),
    /// A null value.
    Null,
    /// A regular expression: pattern and options.
    Regex(String, String),
    /// A signed 32-bit integer.
    Int32(i32),
    /// An internal timestamp: increment and time, each 32 bits unsigned.
    Timestamp(u32, u32),
    /// A signed 64-bit integer.
    Int64(i64),
    /// A 128-bit decimal, as its sixteen raw bytes.
    Decimal128(Vec<u8>),
    /// The smallest key.
    MinKey,
    /// The largest key.
    MaxKey,
}

/// The wire tag of each value kind.
pub open spec fn kind_byte(v: BsonValue) -> u8 {
    match v {
        BsonValue::Double(_) => 0x01,
        BsonValue::Text(_) => 0x02,
        BsonValue::Doc(_) => 0x03,
        BsonValue::Array(_) => 0x04,
        BsonValue::Binary(_, _) => 0x05,
        BsonValue::Undefined => 0x06,
        BsonValue::ObjectId(_) => 0x07,
        BsonValue::Boolean(_) => 0x08,
        BsonValue::DateTime(_) => 0x09,
        BsonValue::Null => 0x0a,
        BsonValue::Regex(_, _) => 0x0b,
        BsonValue::Int32(_) => 0x10,
        BsonValue::Timestamp(_, _) => 0x11,
        BsonValue::Int64(_) => 0x12,
        BsonValue::Decimal128(_) => 0x13,
        BsonValue::MinKey => 0xff,
        BsonValue::MaxKey => 0x7f,
    }
}

/// The UTF-8 bytes of a character sequence.
pub open spec fn str_bytes(s: Seq<char>) -> Seq<u8> {
    vstd::utf8::encode_utf8(s)
}

/// A NUL-terminated key: its UTF-8 bytes, none of them zero, then a zero.
pub open spec fn cstring_bytes(s: Seq<char>) -> Seq<u8> {
    str_bytes(s) + seq![0u8]
}

/// A length-prefixed string: the count of its UTF-8 bytes plus one, the
/// bytes, then a NUL.
pub open spec fn string_bytes(s: Seq<char>) -> Seq<u8> {
    le_bytes((str_bytes(s).len() + 1) as nat, 4) + str_bytes(s) + seq![0u8]
}

/// The wire bytes of a value, by kind.
pub open spec fn val_bytes(v: BsonValue) -> Seq<u8>
    decreases v,
{
    match v {
        BsonValue::Double(bits) => le_bytes(bits as nat, 8),
        BsonValue::Text(s) => string_bytes(s@),
        BsonValue::Doc(d) => doc_bytes(d),
        BsonValue::Array(d) => doc_bytes(d),
        BsonValue::Binary(subtype, b) => le_bytes(b@.len(), 4) + seq![subtype] + b@,
        BsonValue::Undefined => Seq::empty(),
        BsonValue::ObjectId(b) => b@,
        BsonValue::Boolean(x) => seq![if x { 1u8 } else { 0u8 }],
        BsonValue::DateTime(ms) => le_bytes((ms as u64) as nat, 8),
        BsonValue::Null => Seq::empty(),
        BsonValue::Regex(p, o) => cstring_bytes(p@) + cstring_bytes(o@),
        BsonValue::Int32(x) => le_bytes((x as u32) as nat, 4),
        BsonValue::Timestamp(inc, time) => le_bytes(inc as nat, 4) + le_bytes(time as nat, 4),
        BsonValue::Int64(x) => le_bytes((x as u64) as nat, 8),
        BsonValue::Decimal128(b) => b@,
        BsonValue::MinKey => Seq::empty(),
        BsonValue::MaxKey => Seq::empty(),
    }
}

/// The wire bytes of one element: tag, key, value.
pub open spec fn elem_bytes(e: Element) -> Seq<u8>
    decreases e,
{
    seq![kind_byte(e.value)] + cstring_bytes(e.key@) + val_bytes(e.value)
}

/// The concatenated wire bytes of a list of elements.
pub open spec fn elems_bytes(es: Seq<Element>) -> Seq<u8>
    decreases es,
{
    if es.len() == 0 {
        Seq::empty()
    } else {
        elem_bytes(es[0]) + elems_bytes(es.drop_first())
    }
}

/// The wire bytes of a whole document: its total length, its elements and
/// the closing NUL.
pub open spec fn doc_bytes(d: Document) -> Seq<u8>
    decreases d,
{
    le_bytes((elems_bytes(d.elements@).len() + 5) as nat, 4) + elems_bytes(d.elements@)
        + seq![0u8]
}

/// A well-formed key: its UTF-8 bytes are free of NUL, so that its NUL
/// terminator is unambiguous.
pub open spec fn wf_key(s: Seq<char>) -> bool {
    forall|i: int| 0 <= i < str_bytes(s).len() ==> #[trigger] str_bytes(s)[i] != 0
}

/// A well-formed value: fixed-width payloads have their width and lengths
/// fit their 32-bit prefixes.
pub open spec fn wf_val(v: BsonValue) -> bool
    decreases v,
{
    match v {
        BsonValue::Text(s) => str_bytes(s@).len() + 1 < 0x8000_0000,
        BsonValue::Doc(d) => wf_doc(d),
        BsonValue::Array(d) => wf_doc(d),
        BsonValue::Binary(_, b) => b@.len() < 0x8000_0000,
        BsonValue::ObjectId(b) => b@.len() == 12,
        BsonValue::Regex(p, o) => wf_key(p@) && wf_key(o@),
        BsonValue::Decimal128(b) => b@.len() == 16,
        _ => true,
    }
}

/// Element-wise well-formedness of a list of elements.
pub open spec fn wf_elems(es: Seq<Element>) -> bool
    decreases es,
{
    if es.len() == 0 {
        true
    } else {
        wf_elem(es[0]) && wf_elems(es.drop_first())
    }
}

/// A well-formed document: every element well-formed and the total size
/// within what the length prefix can carry.
pub open spec fn wf_doc(d: Document) -> bool
    decreases d,
{
    wf_elems(d.elements@) && elems_bytes(d.elements@).len() + 5 < 0x8000_0000
}

/// A well-formed element: key and value both well-formed.
pub open spec fn wf_elem(e: Element) -> bool
    decreases e,
{
    wf_key(e.key@) && wf_val(e.value)
}

/// A well-formed element appended to a well-formed list leaves it
/// well-formed.
pub proof fn lemma_wf_elems_snoc(es: Seq<Element>, e: Element)
    requires
        wf_elems(es),
        wf_elem(e),
    ensures
        wf_elems(es.push(e)),
    decreases es.len(),
{
    if es.len() == 0 {
        assert(es.push(e)[0] == e);
        assert(es.push(e).drop_first() =~= Seq::<Element>::empty());
        assert(wf_elems(Seq::<Element>::empty()));
        assert(wf_elems(es.push(e)) == (wf_elem(es.push(e)[0]) && wf_elems(
            es.push(e).drop_first(),
        )));
    } else {
        assert(es.push(e)[0] == es[0]);
        assert(es.push(e).drop_first() =~= es.drop_first().push(e));
        lemma_wf_elems_snoc(es.drop_first(), e);
        assert(wf_elems(es.push(e)) == (wf_elem(es.push(e)[0]) && wf_elems(
            es.push(e).drop_first(),
        )));
    }
}

/// Every element of a well-formed list is well-formed.
pub proof fn lemma_wf_elems_index(es: Seq<Element>, i: int)
    requires
        wf_elems(es),
        0 <= i < es.len(),
    ensures
        wf_elem(es[i]),
    decreases i,
{
    if i > 0 {
        lemma_wf_elems_index(es.drop_first(), i - 1);
    }
}

/// The serialized elements of a prefix grow element by element.
proof fn lemma_elems_bytes_take_step(es: Seq<Element>, i: int)
    requires
        0 <= i < es.len(),
    ensures
        elems_bytes(es.subrange(0, i + 1)) =~= elems_bytes(es.subrange(0, i)) + elem_bytes(es[i]),
{
    assert(es.subrange(0, i + 1) =~= es.subrange(0, i).push(es[i]));
    lemma_elems_bytes_snoc(es.subrange(0, i), es[i]);
}

/// Appends the four little-endian bytes of `v`.
fn write_le_u32(out: &mut Vec<u8>, v: u32)
    ensures
        final(out)@ == old(out)@ + le_bytes(v as nat, 4),
{
    let mut cur: u32 = v;
    let mut k: usize = 0;
    let ghost out0 = out@;
    while k < 4
        invariant
            0 <= k <= 4,
            le_bytes(v as nat, 4) =~= out@.subrange(out0.len() as int, out@.len() as int)
                + le_bytes(cur as nat, (4 - k) as nat),
            out@.len() == out0.len() + k,
            out@.subrange(0, out0.len() as int) == out0,
        decreases 4 - k,
    {
        let b = (cur % 256) as u8;
        out.push(b);
        proof {
            assert(le_bytes(cur as nat, (4 - k) as nat) == seq![b] + le_bytes(
                (cur / 256) as nat,
                (4 - k - 1) as nat,
            ));
            assert(out@.subrange(0, out0.len() as int) =~= out0);
            assert(out@.subrange(out0.len() as int, out@.len() as int) =~= out@.subrange(
                out0.len() as int,
                out@.len() - 1,
            ).push(b));
            assert(le_bytes(v as nat, 4) =~= out@.subrange(out0.len() as int, out@.len() as int)
                + le_bytes((cur / 256) as nat, (4 - k - 1) as nat));
        }
        cur = cur / 256;
        k = k + 1;
    }
    proof {
        assert(le_bytes(cur as nat, 0) =~= Seq::<u8>::empty());
        assert(out@ =~= out0 + le_bytes(v as nat, 4));
    }
}

/// Appends the eight little-endian bytes of `v`.
fn write_le_u64(out: &mut Vec<u8>, v: u64)
    ensures
        final(out)@ == old(out)@ + le_bytes(v as nat, 8),
{
    let mut cur: u64 = v;
    let mut k: usize = 0;
    let ghost out0 = out@;
    while k < 8
        invariant
            0 <= k <= 8,
            le_bytes(v as nat, 8) =~= out@.subrange(out0.len() as int, out@.len() as int)
                + le_bytes(cur as nat, (8 - k) as nat),
            out@.len() == out0.len() + k,
            out@.subrange(0, out0.len() as int) == out0,
        decreases 8 - k,
    {
        let b = (cur % 256) as u8;
        out.push(b);
        proof {
            assert(le_bytes(cur as nat, (8 - k) as nat) == seq![b] + le_bytes(
                (cur / 256) as nat,
                (8 - k - 1) as nat,
            ));
            assert(out@.subrange(0, out0.len() as int) =~= out0);
            assert(out@.subrange(out0.len() as int, out@.len() as int) =~= out@.subrange(
                out0.len() as int,
                out@.len() - 1,
            ).push(b));
            assert(le_bytes(v as nat, 8) =~= out@.subrange(out0.len() as int, out@.len() as int)
                + le_bytes((cur / 256) as nat, (8 - k - 1) as nat));
        }
        cur = cur / 256;
        k = k + 1;
    }
    proof {
        assert(le_bytes(cur as nat, 0) =~= Seq::<u8>::empty());
        assert(out@ =~= out0 + le_bytes(v as nat, 8));
    }
}

/// Appends the UTF-8 bytes of `s` and a NUL terminator.
fn write_cstring(out: &mut Vec<u8>, s: &String)
    ensures
        final(out)@ == old(out)@ + cstring_bytes(s@),
{
    out.extend_from_slice(s.as_str().as_bytes());
    out.push(0);
    proof {
        assert(out@ =~= old(out)@ + cstring_bytes(s@));
    }
}

/// Appends the wire bytes of one value.
fn serialize_value(out: &mut Vec<u8>, v: &BsonValue)
    requires
        wf_val(*v),
    ensures
        final(out)@ == old(out)@ + val_bytes(*v),
    decreases *v,
{
    match v {
        BsonValue::Double(bits) => {
            write_le_u64(out, *bits);
        },
        BsonValue::Text(t) => {
            let n = t.as_str().as_bytes().len();
            write_le_u32(out, (n + 1) as u32);
            out.extend_from_slice(t.as_str().as_bytes());
            out.push(0);
            proof {
                assert(out@ =~= old(out)@ + string_bytes(t@));
            }
        },
        BsonValue::Doc(d) => {
            serialize_document_into(out, d);
        },
        BsonValue::Array(d) => {
            serialize_document_into(out, d);
        },
        BsonValue::Binary(subtype, b) => {
            write_le_u32(out, b.len() as u32);
            out.push(*subtype);
            out.extend_from_slice(b.as_slice());
            proof {
                assert(out@ =~= old(out)@ + val_bytes(*v));
            }
        },
        BsonValue::Undefined => {
            proof {
                assert(out@ =~= old(out)@ + Seq::<u8>::empty());
            }
        },
        BsonValue::ObjectId(b) => {
            out.extend_from_slice(b.as_slice());
        },
        BsonValue::Boolean(x) => {
            out.push(
                if *x {
                    1
                } else {
                    0
                },
            );
            proof {
                assert(out@ =~= old(out)@ + val_bytes(*v));
            }
        },
        BsonValue::DateTime(ms) => {
            write_le_u64(out, #[verifier::truncate] (*ms as u64));
        },
        BsonValue::Null => {
            proof {
                assert(out@ =~= old(out)@ + Seq::<u8>::empty());
            }
        },
        BsonValue::Regex(pat, opt) => {
            write_cstring(out, pat);
            write_cstring(out, opt);
            proof {
                assert(out@ =~= old(out)@ + (cstring_bytes(pat@) + cstring_bytes(opt@)));
            }
        },
        BsonValue::Int32(x) => {
            write_le_u32(out, #[verifier::truncate] (*x as u32));
        },
        BsonValue::Timestamp(inc, time) => {
            write_le_u32(out, *inc);
            write_le_u32(out, *time);
            proof {
                assert(out@ =~= old(out)@ + (le_bytes(*inc as nat, 4) + le_bytes(
                    *time as nat,
                    4,
                )));
            }
        },
        BsonValue::Int64(x) => {
            write_le_u64(out, #[verifier::truncate] (*x as u64));
        },
        BsonValue::Decimal128(b) => {
            out.extend_from_slice(b.as_slice());
        },
        BsonValue::MinKey => {
            proof {
                assert(out@ =~= old(out)@ + Seq::<u8>::empty());
            }
        },
        BsonValue::MaxKey => {
            proof {
                assert(out@ =~= old(out)@ + Seq::<u8>::empty());
            }
        },
    }
}

/// The wire tag of a value.
fn kind_tag(v: &BsonValue) -> (r: u8)
    ensures
        r == kind_byte(*v),
{
    match v {
        BsonValue::Double(_) => 0x01,
        BsonValue::Text(_) => 0x02,
        BsonValue::Doc(_) => 0x03,
        BsonValue::Array(_) => 0x04,
        BsonValue::Binary(_, _) => 0x05,
        BsonValue::Undefined => 0x06,
        BsonValue::ObjectId(_) => 0x07,
        BsonValue::Boolean(_) => 0x08,
        BsonValue::DateTime(_) => 0x09,
        BsonValue::Null => 0x0a,
        BsonValue::Regex(_, _) => 0x0b,
        BsonValue::Int32(_) => 0x10,
        BsonValue::Timestamp(_, _) => 0x11,
        BsonValue::Int64(_) => 0x12,
        BsonValue::Decimal128(_) => 0x13,
        BsonValue::MinKey => 0xff,
        BsonValue::MaxKey => 0x7f,
    }
}

/// Appends the wire bytes of a whole document.
#[verifier::loop_isolation(false)]
fn serialize_document_into(out: &mut Vec<u8>, d: &Document)
    requires
        wf_doc(*d),
    ensures
        final(out)@ == old(out)@ + doc_bytes(*d),
    decreases *d,
{
    let mut body: Vec<u8> = Vec::new();
    let n = d.elements.len();
    let mut i: usize = 0;
    proof {
        assert(elems_bytes(d.elements@.subrange(0, 0)) =~= Seq::<u8>::empty()) by {
            assert(d.elements@.subrange(0, 0) =~= Seq::<Element>::empty());
        }
    }
    while i < n
        invariant
            0 <= i <= n,
            n == d.elements@.len(),
            body@ == elems_bytes(d.elements@.subrange(0, i as int)),
        decreases n - i,
    {
        let ghost body_pre = body@;
        let element = &d.elements[i];
        proof {
            lemma_wf_elems_index(d.elements@, i as int);
        }
        body.push(kind_tag(&element.value));
        write_cstring(&mut body, &element.key);
        serialize_value(&mut body, &element.value);
        proof {
            lemma_elems_bytes_take_step(d.elements@, i as int);
            assert(body@ =~= body_pre + elem_bytes(d.elements@[i as int]));
        }
        i = i + 1;
    }
    proof {
        assert(d.elements@.subrange(0, n as int) =~= d.elements@);
    }
    let total = body.len() + 5;
    write_le_u32(out, total as u32);
    out.extend_from_slice(body.as_slice());
    out.push(0);
    proof {
        assert(out@ =~= old(out)@ + doc_bytes(*d));
    }
}

/// Serializes a well-formed document to its wire bytes, exactly as
/// [`doc_bytes`] states them; parsing them back is the parser's round
/// trip.
pub fn serialize_document(d: &Document) -> (r: Vec<u8>)
    requires
        wf_doc(*d),
    ensures
        r@ == doc_bytes(*d),
{
    let mut out: Vec<u8> = Vec::new();
    serialize_document_into(&mut out, d);
    proof {
        assert(out@ =~= doc_bytes(*d));
    }
    out
}

/// The deepest nesting of documents the parser accepts; a defensive bound
/// so that adversarial input cannot exhaust the call stack.
pub const MAX_DEPTH: u32 = 64;

/// Relies on `String::from_utf8`: it succeeds exactly on valid UTF-8
/// input, and a returned string's UTF-8 encoding is the input bytes.
#[verifier::external_body]
fn bytes_to_string(bytes: Vec<u8>) -> (r: Option<String>)
    ensures
        match r {
            Option::Some(s) => vstd::utf8::encode_utf8(s@) == bytes@ && vstd::utf8::valid_utf8(
                bytes@,
            ),
            Option::None => !vstd::utf8::valid_utf8(bytes@),
        },
{
    match String::from_utf8(bytes) {
        Ok(s) => Some(s),
        Err(_) => None,
    }
}

/// Reads `n` bytes as UTF-8 text and advances the cursor; bytes that are
/// not valid UTF-8 make the read fail.
fn read_text(data: &[u8], pos: &mut usize, n: usize) -> (r: Result<String, ReadError>)
    requires
        *old(pos) <= data.len(),
    ensures
        match r {
            Ok(s) => {
                &&& *old(pos) + n <= data.len()
                &&& *final(pos) == *old(pos) + n
                &&& str_bytes(s@) =~= data@.subrange(*old(pos) as int, *old(pos) + n)
            },
            Err(_) => true,
        },
{
    let bytes = match read_bytes(data, pos, n) {
        Ok(v) => v,
        Err(e) => {
            return Err(e);
        },
    };
    match bytes_to_string(bytes) {
        Some(s) => Ok(s),
        None => Err(
            ReadError::InvalidData {
                message: String::from_str("a text value is not valid UTF-8"),
            },
        ),
    }
}

/// Reads a NUL-terminated UTF-8 key and advances the cursor past the
/// terminator.
#[verifier::loop_isolation(false)]
fn read_cstring(data: &[u8], pos: &mut usize) -> (r: Result<String, ReadError>)
    requires
        *old(pos) <= data.len(),
    ensures
        match r {
            Ok(s) => {
                &&& *old(pos) < *final(pos) <= data.len()
                &&& wf_key(s@)
                &&& cstring_bytes(s@) =~= data@.subrange(*old(pos) as int, *final(pos) as int)
            },
            Err(_) => true,
        },
{
    let p0 = *pos;
    let mut raw: Vec<u8> = Vec::new();
    let mut p = p0;
    loop
        invariant
            p0 <= p <= data.len(),
            p - p0 == raw@.len(),
            forall|k: int| 0 <= k < raw@.len() ==> #[trigger] raw@[k] != 0,
            raw@ =~= data@.subrange(p0 as int, p as int),
        decreases data.len() - p,
    {
        if p >= data.len() {
            return Err(ReadError::Eof);
        }
        let b = data[p];
        if b == 0 {
            let ghost raw_v = raw@;
            let out = match bytes_to_string(raw) {
                Some(s) => s,
                None => {
                    return Err(
                        ReadError::InvalidData {
                            message: String::from_str("a key is not valid UTF-8"),
                        },
                    );
                },
            };
            *pos = p + 1;
            proof {
                assert(str_bytes(out@) == raw_v);
                assert(cstring_bytes(out@) =~= data@.subrange(p0 as int, p + 1));
            }
            return Ok(out);
        }
        raw.push(b);
        p = p + 1;
        proof {
            assert(raw@ =~= data@.subrange(p0 as int, p as int));
        }
    }
}

/// Reads a length-prefixed UTF-8 string and advances the cursor.
fn read_string(data: &[u8], pos: &mut usize) -> (r: Result<String, ReadError>)
    requires
        *old(pos) <= data.len(),
    ensures
        match r {
            Ok(s) => {
                &&& *old(pos) < *final(pos) <= data.len()
                &&& str_bytes(s@).len() + 1 < 0x8000_0000
                &&& string_bytes(s@) =~= data@.subrange(*old(pos) as int, *final(pos) as int)
            },
            Err(_) => true,
        },
{
    let p0 = *pos;
    let len = match read_le_u32(data, pos) {
        Ok(v) => v,
        Err(e) => {
            return Err(e);
        },
    };
    if len == 0 || len >= 0x8000_0000 {
        return Err(
            ReadError::InvalidData {
                message: String::from_str("a string length is out of range"),
            },
        );
    }
    let n = (len - 1) as usize;
    let s = match read_text(data, pos, n) {
        Ok(s) => s,
        Err(e) => {
            return Err(e);
        },
    };
    let term = match read_u8(data, pos) {
        Ok(b) => b,
        Err(e) => {
            return Err(e);
        },
    };
    if term != 0 {
        return Err(
            ReadError::InvalidData {
                message: String::from_str("a string is not terminated"),
            },
        );
    }
    proof {
        let whole = data@.subrange(p0 as int, p0 + 4 + n + 1);
        let head = data@.subrange(p0 as int, p0 + 4);
        let mid = data@.subrange(p0 + 4, p0 + 4 + n);
        let tail = data@.subrange(p0 + 4 + n, p0 + 4 + n + 1);
        crate::bytes::lemma_le_bytes_inverse(head);
        assert(tail =~= seq![0u8]);
        assert(whole =~= head + mid + tail);
        assert(string_bytes(s@) =~= whole);
    }
    Ok(s)
}

/// Parses one value of the given kind starting at `pos`.
///
/// On success the value is well-formed, carries the kind the tag named,
/// and serializes to exactly the consumed bytes.
#[verifier::rlimit(100)]
fn parse_value(data: &[u8], pos: usize, tag: u8, depth: u32) -> (r: Result<
    (BsonValue, usize),
    ReadError,
>)
    requires
        pos <= data.len(),
    ensures
        match r {
            Ok((v, end)) => {
                &&& pos <= end <= data.len()
                &&& wf_val(v)
                &&& kind_byte(v) == tag
                &&& val_bytes(v) =~= data@.subrange(pos as int, end as int)
            },
            Err(_) => true,
        },
    decreases data.len() - pos, 1int,
{
    let mut p = pos;
    if tag == 0x01 {
        match read_le_u64(data, &mut p) {
            Ok(bits) => {
                proof {
                    crate::bytes::lemma_le_bytes_inverse(data@.subrange(pos as int, pos + 8));
                    assert(val_bytes(BsonValue::Double(bits)) =~= data@.subrange(
                        pos as int,
                        p as int,
                    ));
                }
                Ok((BsonValue::Double(bits), p))
            },
            Err(e) => Err(e),
        }
    } else if tag == 0x02 {
        match read_string(data, &mut p) {
            Ok(s) => {
                proof {
                    assert(val_bytes(BsonValue::Text(s)) =~= data@.subrange(pos as int, p as int));
                }
                Ok((BsonValue::Text(s), p))
            },
            Err(e) => Err(e),
        }
    } else if tag == 0x03 {
        if depth == 0 {
            return Err(
                ReadError::InvalidData {
                    message: String::from_str("documents nest too deeply"),
                },
            );
        }
        match parse_document(data, pos, depth - 1) {
            Ok((d, end)) => Ok((BsonValue::Doc(d), end)),
            Err(e) => Err(e),
        }
    } else if tag == 0x04 {
        if depth == 0 {
            return Err(
                ReadError::InvalidData {
                    message: String::from_str("documents nest too deeply"),
                },
            );
        }
        match parse_document(data, pos, depth - 1) {
            Ok((d, end)) => Ok((BsonValue::Array(d), end)),
            Err(e) => Err(e),
        }
    } else if tag == 0x05 {
        let len = match read_le_u32(data, &mut p) {
            Ok(v) => v,
            Err(e) => {
                return Err(e);
            },
        };
        if len >= 0x8000_0000 {
            return Err(
                ReadError::InvalidData {
                    message: String::from_str("a binary length is out of range"),
                },
            );
        }
        let subtype = match read_u8(data, &mut p) {
            Ok(b) => b,
            Err(e) => {
                return Err(e);
            },
        };
        let content = match read_bytes(data, &mut p, len as usize) {
            Ok(v) => v,
            Err(e) => {
                return Err(e);
            },
        };
        proof {
            let head = data@.subrange(pos as int, pos + 4);
            crate::bytes::lemma_le_bytes_inverse(head);
            assert(data@.subrange(pos + 4, pos + 5) =~= seq![subtype]);
            assert(data@.subrange(pos as int, p as int) =~= head + seq![subtype]
                + content@);
        }
        proof {
            assert(val_bytes(BsonValue::Binary(subtype, content)) =~= data@.subrange(
                pos as int,
                p as int,
            ));
        }
        Ok((BsonValue::Binary(subtype, content), p))
    } else if tag == 0x06 {
        proof {
            assert(data@.subrange(pos as int, pos as int) =~= Seq::<u8>::empty());
        }
        Ok((BsonValue::Undefined, p))
    } else if tag == 0x07 {
        match read_bytes(data, &mut p, 12) {
            Ok(v) => {
                proof {
                    assert(val_bytes(BsonValue::ObjectId(v)) =~= data@.subrange(
                        pos as int,
                        p as int,
                    ));
                }
                Ok((BsonValue::ObjectId(v), p))
            },
            Err(e) => Err(e),
        }
    } else if tag == 0x08 {
        let b = match read_u8(data, &mut p) {
            Ok(b) => b,
            Err(e) => {
                return Err(e);
            },
        };
        if b == 0 {
            proof {
                assert(data@.subrange(pos as int, pos + 1) =~= seq![0u8]);
            }
            Ok((BsonValue::Boolean(false), p))
        } else if b == 1 {
            proof {
                assert(data@.subrange(pos as int, pos + 1) =~= seq![1u8]);
            }
            Ok((BsonValue::Boolean(true), p))
        } else {
            Err(
                ReadError::InvalidData {
                    message: String::from_str("a boolean holds an invalid byte"),
                },
            )
        }
    } else if tag == 0x09 {
        match read_le_u64(data, &mut p) {
            Ok(bits) => {
                proof {
                    crate::bytes::lemma_le_bytes_inverse(data@.subrange(pos as int, pos + 8));
                    assert(((#[verifier::truncate] (bits as i64)) as u64) == bits)
                        by (bit_vector);
                    assert(val_bytes(
                        BsonValue::DateTime(#[verifier::truncate] (bits as i64)),
                    ) =~= data@.subrange(pos as int, p as int));
                }
                Ok((BsonValue::DateTime(#[verifier::truncate] (bits as i64)), p))
            },
            Err(e) => Err(e),
        }
    } else if tag == 0x0a {
        proof {
            assert(data@.subrange(pos as int, pos as int) =~= Seq::<u8>::empty());
        }
        Ok((BsonValue::Null, p))
    } else if tag == 0x0b {
        let pattern = match read_cstring(data, &mut p) {
            Ok(s) => s,
            Err(e) => {
                return Err(e);
            },
        };
        let ghost mid = p as int;
        let options = match read_cstring(data, &mut p) {
            Ok(s) => s,
            Err(e) => {
                return Err(e);
            },
        };
        proof {
            assert(data@.subrange(pos as int, p as int) =~= data@.subrange(pos as int, mid)
                + data@.subrange(mid, p as int));
        }
        proof {
            assert(val_bytes(BsonValue::Regex(pattern, options)) =~= data@.subrange(
                pos as int,
                p as int,
            ));
        }
        Ok((BsonValue::Regex(pattern, options), p))
    } else if tag == 0x10 {
        match read_le_u32(data, &mut p) {
            Ok(v) => {
                proof {
                    crate::bytes::lemma_le_bytes_inverse(data@.subrange(pos as int, pos + 4));
                    assert(((#[verifier::truncate] (v as i32)) as u32) == v) by (bit_vector);
                    assert(val_bytes(
                        BsonValue::Int32(#[verifier::truncate] (v as i32)),
                    ) =~= data@.subrange(pos as int, p as int));
                }
                Ok((BsonValue::Int32(#[verifier::truncate] (v as i32)), p))
            },
            Err(e) => Err(e),
        }
    } else if tag == 0x11 {
        let inc = match read_le_u32(data, &mut p) {
            Ok(v) => v,
            Err(e) => {
                return Err(e);
            },
        };
        let time = match read_le_u32(data, &mut p) {
            Ok(v) => v,
            Err(e) => {
                return Err(e);
            },
        };
        proof {
            crate::bytes::lemma_le_bytes_inverse(data@.subrange(pos as int, pos + 4));
            crate::bytes::lemma_le_bytes_inverse(data@.subrange(pos + 4, pos + 8));
            assert(data@.subrange(pos as int, pos + 8) =~= data@.subrange(pos as int, pos + 4)
                + data@.subrange(pos + 4, pos + 8));
        }
        proof {
            assert(val_bytes(BsonValue::Timestamp(inc, time)) =~= data@.subrange(
                pos as int,
                p as int,
            ));
        }
        Ok((BsonValue::Timestamp(inc, time), p))
    } else if tag == 0x12 {
        match read_le_u64(data, &mut p) {
            Ok(bits) => {
                proof {
                    crate::bytes::lemma_le_bytes_inverse(data@.subrange(pos as int, pos + 8));
                    assert(((#[verifier::truncate] (bits as i64)) as u64) == bits)
                        by (bit_vector);
                    assert(val_bytes(
                        BsonValue::Int64(#[verifier::truncate] (bits as i64)),
                    ) =~= data@.subrange(pos as int, p as int));
                }
                Ok((BsonValue::Int64(#[verifier::truncate] (bits as i64)), p))
            },
            Err(e) => Err(e),
        }
    } else if tag == 0x13 {
        match read_bytes(data, &mut p, 16) {
            Ok(v) => {
                proof {
                    assert(val_bytes(BsonValue::Decimal128(v)) =~= data@.subrange(
                        pos as int,
                        p as int,
                    ));
                }
                Ok((BsonValue::Decimal128(v), p))
            },
            Err(e) => Err(e),
        }
    } else if tag == 0xff {
        proof {
            assert(data@.subrange(pos as int, pos as int) =~= Seq::<u8>::empty());
        }
        Ok((BsonValue::MinKey, p))
    } else if tag == 0x7f {
        proof {
            assert(data@.subrange(pos as int, pos as int) =~= Seq::<u8>::empty());
        }
        Ok((BsonValue::MaxKey, p))
    } else {
        Err(
            ReadError::InvalidData {
                message: String::from_str("an element has an unknown kind"),
            },
        )
    }
}

/// Parses one document starting at `pos`.
///
/// On success the document is well-formed, its length prefix equals the
/// count of consumed bytes, and it serializes to exactly those bytes.
#[verifier::loop_isolation(false)]
pub fn parse_document(data: &[u8], pos: usize, depth: u32) -> (r: Result<
    (Document, usize),
    ReadError,
>)
    requires
        pos <= data.len(),
    ensures
        match r {
            Ok((d, end)) => {
                &&& pos + 5 <= end <= data.len()
                &&& wf_doc(d)
                &&& doc_bytes(d) =~= data@.subrange(pos as int, end as int)
            },
            Err(_) => true,
        },
    decreases data.len() - pos, 0int,
{
    let mut p = pos;
    let total = match read_le_u32(data, &mut p) {
        Ok(v) => v,
        Err(e) => {
            return Err(e);
        },
    };
    if total < 5 || total >= 0x8000_0000 {
        return Err(
            ReadError::InvalidData {
                message: String::from_str("the document length is out of range"),
            },
        );
    }
    let mut elems: Vec<Element> = Vec::new();
    proof {
        assert(elems_bytes(elems@) =~= data@.subrange(pos + 4, p as int));
    }
    loop
        invariant
            pos + 4 <= p <= data.len(),
            wf_elems(elems@),
            elems_bytes(elems@) =~= data@.subrange(pos + 4, p as int),
            5 <= total < 0x8000_0000,
            total == le_value(data@.subrange(pos as int, pos + 4)),
        decreases data.len() - p,
    {
        let ghost elems_pre = elems@;
        let tag = match read_u8(data, &mut p) {
            Ok(b) => b,
            Err(e) => {
                return Err(e);
            },
        };
        if tag == 0 {
            if p - pos != total as usize {
                return Err(
                    ReadError::InvalidData {
                        message: String::from_str(
                            "the document length does not match its content",
                        ),
                    },
                );
            }
            let ghost es_snap = elems@;
            let d = Document { elements: elems };
            proof {
                assert(d.elements@ == es_snap);
            }
            proof {
                let body = data@.subrange(pos + 4, p - 1);
                assert(elems_bytes(d.elements@).len() == total - 5);
                crate::bytes::lemma_le_bytes_inverse(data@.subrange(pos as int, pos + 4));
                assert(data@.subrange(p - 1, p as int) =~= seq![0u8]);
                assert(data@.subrange(pos as int, p as int) =~= data@.subrange(pos as int, pos + 4)
                    + body + seq![0u8]);
                assert(doc_bytes(d) =~= data@.subrange(pos as int, p as int));
                assert(wf_doc(d));
                assert(pos + 5 <= p <= data.len());
            }
            return Ok((d, p));
        }
        let ghost tag_pos = p - 1;
        let key = match read_cstring(data, &mut p) {
            Ok(s) => s,
            Err(e) => {
                return Err(e);
            },
        };
        let ghost key_end = p as int;
        let (value, vend) = match parse_value(data, p, tag, depth) {
            Ok(x) => x,
            Err(e) => {
                return Err(e);
            },
        };
        let e = Element { key, value };
        proof {
            assert(data@.subrange(tag_pos, tag_pos + 1) =~= seq![tag]);
            assert(elem_bytes(e) =~= data@.subrange(tag_pos, vend as int)) by {
                assert(data@.subrange(tag_pos, vend as int) =~= data@.subrange(tag_pos, tag_pos + 1)
                    + data@.subrange(tag_pos + 1, key_end) + data@.subrange(key_end, vend as int));
            }
            lemma_elems_bytes_snoc(elems_pre, e);
            lemma_wf_elems_snoc(elems_pre, e);
        }
        elems.push(e);
        p = vend;
        proof {
            assert(elems_bytes(elems@) =~= data@.subrange(pos + 4, p as int));
        }
    }
}

/// Appending an element extends the serialized list by that element's bytes.
pub proof fn lemma_elems_bytes_snoc(es: Seq<Element>, e: Element)
    ensures
        elems_bytes(es.push(e)) =~= elems_bytes(es) + elem_bytes(e),
    decreases es.len(),
{
    if es.len() == 0 {
        assert(es.push(e)[0] == e);
        assert(es.push(e).drop_first() =~= Seq::<Element>::empty());
        assert(elems_bytes(es.push(e)) == elem_bytes(e) + elems_bytes(Seq::<Element>::empty()));
        assert(elems_bytes(es.push(e)) =~= elems_bytes(es) + elem_bytes(e));
    } else {
        assert(es.push(e)[0] == es[0]);
        assert(es.push(e).drop_first() =~= es.drop_first().push(e));
        lemma_elems_bytes_snoc(es.drop_first(), e);
        assert(elems_bytes(es.push(e)) == elem_bytes(es[0]) + (elems_bytes(es.drop_first())
            + elem_bytes(e)));
        assert(elems_bytes(es.push(e)) =~= elems_bytes(es) + elem_bytes(e));
    }
}


/// The first value stored under `key` at or after position `i`.
pub open spec fn doc_get_from(es: Seq<Element>, key: Seq<char>, i: int) -> Option<BsonValue>
    decreases es.len() - i,
{
    if i < 0 || i >= es.len() {
        Option::None
    } else if es[i].key@ == key {
        Option::Some(es[i].value)
    } else {
        doc_get_from(es, key, i + 1)
    }
}

/// The first value stored under `key` in the document, if any.
pub open spec fn doc_get(d: Document, key: Seq<char>) -> Option<BsonValue> {
    doc_get_from(d.elements@, key, 0)
}

/// How a spec-level field access fails: the key is absent, or present with
/// a value of the wrong kind.
pub enum KeyErr {
    /// No field with the key.
    NotFound(Seq<char>),
    /// A field with the key but of another kind.
    WrongType(Seq<char>),
}

/// The embedded document under `key`, or how the access fails.
pub open spec fn spec_get_doc(d: Document, key: Seq<char>) -> Result<Document, KeyErr> {
    match doc_get(d, key) {
        Option::Some(BsonValue::Doc(x)) => Ok(x),
        Option::Some(_) => Err(KeyErr::WrongType(key)),
        Option::None => Err(KeyErr::NotFound(key)),
    }
}

/// The text under `key`, or how the access fails.
pub open spec fn spec_get_str(d: Document, key: Seq<char>) -> Result<Seq<char>, KeyErr> {
    match doc_get(d, key) {
        Option::Some(BsonValue::Text(x)) => Ok(x@),
        Option::Some(_) => Err(KeyErr::WrongType(key)),
        Option::None => Err(KeyErr::NotFound(key)),
    }
}

/// The document under `common` when present, the document itself otherwise.
/// Newer archives nest their payload one level deeper under that key.
pub open spec fn spec_common_base(d: Document) -> Document {
    match spec_get_doc(d, "common"@) {
        Ok(c) => c,
        Err(_) => d,
    }
}

/// The host name carried by a metadata document: under
/// `doc.[common.]hostInfo.system.hostname`.
pub open spec fn spec_hostname(d: Document) -> Result<Seq<char>, KeyErr> {
    match spec_get_doc(d, "doc"@) {
        Ok(meta) => {
            let base = spec_common_base(meta);
            match spec_get_doc(base, "hostInfo"@) {
                Ok(hi) => match spec_get_doc(hi, "system"@) {
                    Ok(sys) => spec_get_str(sys, "hostname"@),
                    Err(e) => Err(e),
                },
                Err(e) => Err(e),
            }
        },
        Err(e) => Err(e),
    }
}

impl Document {
    /// A reference to the first value stored under `key`, if any.
    pub fn get<'a>(&'a self, key: &str) -> (r: Option<&'a BsonValue>)
        ensures
            match r {
                Option::Some(v) => doc_get(*self, key@) == Option::Some(*v),
                Option::None => doc_get(*self, key@) is None,
            },
    {
        let k = key.to_owned();
        let n = self.elements.len();
        let mut i: usize = 0;
        while i < n
            invariant
                0 <= i <= n,
                n == self.elements@.len(),
                k@ == key@,
                doc_get_from(self.elements@, key@, 0) == doc_get_from(self.elements@, key@, i as int),
            decreases n - i,
        {
            if self.elements[i].key == k {
                return Some(&self.elements[i].value);
            }
            i = i + 1;
        }
        None
    }

    /// The 32-bit integer under `key`; an error names the key when the
    /// field is absent or of another kind.
    pub fn get_i32(&self, key: &str) -> (r: Result<i32, KeyAccessError>)
        ensures
            match doc_get(*self, key@) {
                Option::Some(BsonValue::Int32(x)) => r == Ok::<i32, KeyAccessError>(x),
                Option::Some(_) => r matches Err(KeyAccessError::UnexpectedKeyType { key: k })
                    && k@ == key@,
                Option::None => r matches Err(KeyAccessError::KeyNotFound { key: k }) && k@
                    == key@,
            },
    {
        match self.get(key) {
            Some(BsonValue::Int32(x)) => Ok(*x),
            Some(_) => Err(KeyAccessError::UnexpectedKeyType { key: key.to_owned() }),
            None => Err(KeyAccessError::KeyNotFound { key: key.to_owned() }),
        }
    }

    /// The datetime under `key`, as milliseconds since the Unix epoch.
    pub fn get_datetime(&self, key: &str) -> (r: Result<i64, KeyAccessError>)
        ensures
            match doc_get(*self, key@) {
                Option::Some(BsonValue::DateTime(x)) => r == Ok::<i64, KeyAccessError>(x),
                Option::Some(_) => r matches Err(KeyAccessError::UnexpectedKeyType { key: k })
                    && k@ == key@,
                Option::None => r matches Err(KeyAccessError::KeyNotFound { key: k }) && k@
                    == key@,
            },
    {
        match self.get(key) {
            Some(BsonValue::DateTime(x)) => Ok(*x),
            Some(_) => Err(KeyAccessError::UnexpectedKeyType { key: key.to_owned() }),
            None => Err(KeyAccessError::KeyNotFound { key: key.to_owned() }),
        }
    }

    /// The embedded document under `key`.
    pub fn get_document<'a>(&'a self, key: &str) -> (r: Result<&'a Document, KeyAccessError>)
        ensures
            match r {
                Ok(d) => spec_get_doc(*self, key@) == Ok::<Document, KeyErr>(*d),
                Err(KeyAccessError::UnexpectedKeyType { key: k }) => k@ == key@ && spec_get_doc(
                    *self,
                    key@,
                ) == Err::<Document, KeyErr>(KeyErr::WrongType(key@)),
                Err(KeyAccessError::KeyNotFound { key: k }) => k@ == key@ && spec_get_doc(
                    *self,
                    key@,
                ) == Err::<Document, KeyErr>(KeyErr::NotFound(key@)),
                Err(_) => false,
            },
    {
        match self.get(key) {
            Some(BsonValue::Doc(d)) => Ok(d),
            Some(_) => Err(KeyAccessError::UnexpectedKeyType { key: key.to_owned() }),
            None => Err(KeyAccessError::KeyNotFound { key: key.to_owned() }),
        }
    }

    /// The text under `key`.
    pub fn get_str<'a>(&'a self, key: &str) -> (r: Result<&'a String, KeyAccessError>)
        ensures
            match r {
                Ok(s) => spec_get_str(*self, key@) == Ok::<Seq<char>, KeyErr>(s@),
                Err(KeyAccessError::UnexpectedKeyType { key: k }) => k@ == key@ && spec_get_str(
                    *self,
                    key@,
                ) == Err::<Seq<char>, KeyErr>(KeyErr::WrongType(key@)),
                Err(KeyAccessError::KeyNotFound { key: k }) => k@ == key@ && spec_get_str(
                    *self,
                    key@,
                ) == Err::<Seq<char>, KeyErr>(KeyErr::NotFound(key@)),
                Err(_) => false,
            },
    {
        match self.get(key) {
            Some(BsonValue::Text(s)) => Ok(s),
            Some(_) => Err(KeyAccessError::UnexpectedKeyType { key: key.to_owned() }),
            None => Err(KeyAccessError::KeyNotFound { key: key.to_owned() }),
        }
    }

    /// The generic binary payload under `key`; a binary of another subtype
    /// counts as the wrong kind.
    pub fn get_binary_generic<'a>(&'a self, key: &str) -> (r: Result<&'a Vec<u8>, KeyAccessError>)
        ensures
            match doc_get(*self, key@) {
                Option::Some(BsonValue::Binary(sub, b)) => {
                    if sub == 0 {
                        r matches Ok(v) && v@ == b@
                    } else {
                        r matches Err(KeyAccessError::UnexpectedKeyType { key: k }) && k@ == key@
                    }
                },
                Option::Some(_) => r matches Err(KeyAccessError::UnexpectedKeyType { key: k })
                    && k@ == key@,
                Option::None => r matches Err(KeyAccessError::KeyNotFound { key: k }) && k@
                    == key@,
            },
    {
        match self.get(key) {
            Some(BsonValue::Binary(sub, b)) => {
                if *sub == 0 {
                    Ok(b)
                } else {
                    Err(KeyAccessError::UnexpectedKeyType { key: key.to_owned() })
                }
            },
            Some(_) => Err(KeyAccessError::UnexpectedKeyType { key: key.to_owned() }),
            None => Err(KeyAccessError::KeyNotFound { key: key.to_owned() }),
        }
    }
}


/// The kind of a diagnostic document, from its top-level `type` field.
#[derive(Debug, Clone, Copy, PartialEq, Eq, Structural)]
pub enum DocumentKind {
    /// A metadata document describing the host.
    Metadata,
    /// A document carrying a compressed chunk of metrics.
    MetricsChunk,
    /// A periodically emitted metadata document.
    PeriodicMetadata,
}

impl DocumentKind {
    /// Maps the wire value of the `type` field to a kind; any value outside
    /// zero, one and two is an unknown document kind.
    pub fn try_from(value: i32) -> (r: Result<DocumentKind, MetricParseError>)
        ensures
            value == 0 ==> r == Ok::<DocumentKind, MetricParseError>(DocumentKind::Metadata),
            value == 1 ==> r == Ok::<DocumentKind, MetricParseError>(DocumentKind::MetricsChunk),
            value == 2 ==> r == Ok::<DocumentKind, MetricParseError>(
                DocumentKind::PeriodicMetadata,
            ),
            !(0 <= value <= 2) ==> r == Err::<DocumentKind, MetricParseError>(
                MetricParseError::UnknownDocumentKind(value),
            ),
    {
        if value == 0 {
            Ok(DocumentKind::Metadata)
        } else if value == 1 {
            Ok(DocumentKind::MetricsChunk)
        } else if value == 2 {
            Ok(DocumentKind::PeriodicMetadata)
        } else {
            Err(MetricParseError::UnknownDocumentKind(value))
        }
    }
}

impl Document {
    /// The kind of this document, from its `type` field; an unknown value
    /// or a failed access is an error.
    pub fn kind(&self) -> (r: Result<DocumentKind, MetricParseError>)
        ensures
            match doc_get(*self, "type"@) {
                Option::Some(BsonValue::Int32(v)) => {
                    if v == 0 {
                        r == Ok::<DocumentKind, MetricParseError>(DocumentKind::Metadata)
                    } else if v == 1 {
                        r == Ok::<DocumentKind, MetricParseError>(DocumentKind::MetricsChunk)
                    } else if v == 2 {
                        r == Ok::<DocumentKind, MetricParseError>(DocumentKind::PeriodicMetadata)
                    } else {
                        r == Err::<DocumentKind, MetricParseError>(
                            MetricParseError::UnknownDocumentKind(v),
                        )
                    }
                },
                Option::Some(_) => r matches Err(
                    MetricParseError::FieldAccess(KeyAccessError::UnexpectedKeyType { key: k }),
                ) && k@ == "type"@,
                Option::None => r matches Err(
                    MetricParseError::FieldAccess(KeyAccessError::KeyNotFound { key: k }),
                ) && k@ == "type"@,
            },
    {
        match self.get_i32("type") {
            Ok(v) => DocumentKind::try_from(v),
            Err(e) => Err(MetricParseError::FieldAccess(e)),
        }
    }

    /// The timestamp of this document, from its `_id` datetime field, as
    /// milliseconds since the Unix epoch.
    pub fn timestamp(&self) -> (r: Result<i64, MetricParseError>)
        ensures
            match doc_get(*self, "_id"@) {
                Option::Some(BsonValue::DateTime(ms)) => r == Ok::<i64, MetricParseError>(ms),
                Option::Some(_) => r matches Err(
                    MetricParseError::FieldAccess(KeyAccessError::UnexpectedKeyType { key: k }),
                ) && k@ == "_id"@,
                Option::None => r matches Err(
                    MetricParseError::FieldAccess(KeyAccessError::KeyNotFound { key: k }),
                ) && k@ == "_id"@,
            },
    {
        match self.get_datetime("_id") {
            Ok(v) => Ok(v),
            Err(e) => Err(MetricParseError::FieldAccess(e)),
        }
    }

    /// The host name of a metadata document, found under
    /// `doc.[common.]hostInfo.system.hostname`.
    pub fn hostname<'a>(&'a self) -> (r: Result<&'a String, MetricParseError>)
        ensures
            match r {
                Ok(h) => spec_hostname(*self) == Ok::<Seq<char>, KeyErr>(h@),
                Err(MetricParseError::FieldAccess(KeyAccessError::KeyNotFound { key: k })) =>
                    spec_hostname(*self) == Err::<Seq<char>, KeyErr>(KeyErr::NotFound(k@)),
                Err(MetricParseError::FieldAccess(KeyAccessError::UnexpectedKeyType { key: k })) =>
                    spec_hostname(*self) == Err::<Seq<char>, KeyErr>(KeyErr::WrongType(k@)),
                Err(_) => false,
            },
    {
        let metadata = match self.get_document("doc") {
            Ok(d) => d,
            Err(e) => {
                return Err(MetricParseError::FieldAccess(e));
            },
        };
        let base = match metadata.get_document("common") {
            Ok(c) => c,
            Err(_) => metadata,
        };
        let host_info = match base.get_document("hostInfo") {
            Ok(d) => d,
            Err(e) => {
                return Err(MetricParseError::FieldAccess(e));
            },
        };
        let system = match host_info.get_document("system") {
            Ok(d) => d,
            Err(e) => {
                return Err(MetricParseError::FieldAccess(e));
            },
        };
        match system.get_str("hostname") {
            Ok(h) => Ok(h),
            Err(e) => Err(MetricParseError::FieldAccess(e)),
        }
    }

    /// The compressed metrics payload of a metrics-chunk document: the
    /// generic binary field `data`.
    pub fn metrics_chunk<'a>(&'a self) -> (r: Result<&'a Vec<u8>, MetricParseError>)
        ensures
            match doc_get(*self, "data"@) {
                Option::Some(BsonValue::Binary(sub, b)) => {
                    if sub == 0 {
                        r matches Ok(v) && v@ == b@
                    } else {
                        r matches Err(
                            MetricParseError::FieldAccess(
                                KeyAccessError::UnexpectedKeyType { key: k },
                            ),
                        ) && k@ == "data"@
                    }
                },
                Option::Some(_) => r matches Err(
                    MetricParseError::FieldAccess(KeyAccessError::UnexpectedKeyType { key: k }),
                ) && k@ == "data"@,
                Option::None => r matches Err(
                    MetricParseError::FieldAccess(KeyAccessError::KeyNotFound { key: k }),
                ) && k@ == "data"@,
            },
    {
        match self.get_binary_generic("data") {
            Ok(v) => Ok(v),
            Err(e) => Err(MetricParseError::FieldAccess(e)),
        }
    }
}

} // verus!
