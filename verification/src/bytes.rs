//! Primitive readers over an in-memory byte buffer: a single octet, a
//! little-endian 32-bit unsigned integer, and a base-128 variable-length
//! 64-bit unsigned integer.
//!
//! Every reader takes the buffer together with a cursor position and advances
//! the position past the bytes it consumed.

use vstd::prelude::*;

use vstd::arithmetic::div_mod::{
    lemma_add_mod_noop, lemma_fundamental_div_mod, lemma_mod_multiples_vanish, lemma_small_mod,
};
use vstd::arithmetic::mul::{lemma_mul_is_associative, lemma_mul_is_commutative};
use vstd::arithmetic::power2::{lemma2_to64, lemma_pow2_adds, pow2};
use vstd::bits::lemma_u64_shl_is_mul;

verus! {

/// How a primitive read can fail.
#[derive(Debug, Clone)]
pub enum ReadError {
    /// The buffer ended before the value was complete.
    Eof,
    /// The bytes are not a valid encoding of the requested value.
    InvalidData {
        /// A description of the failure.
        message: String,
    },
}

/// The value of a little-endian byte sequence, least significant byte first.
pub open spec fn le_value(s: Seq<u8>) -> nat
    decreases s.len(),
{
    if s.len() == 0 {
        0
    } else {
        (s[0] + 256 * le_value(s.drop_first())) as nat
    }
}

/// The `n`-byte little-endian encoding of `v`; a value too wide for `n`
/// bytes loses its high bits.
pub open spec fn le_bytes(v: nat, n: nat) -> Seq<u8>
    decreases n,
{
    if n == 0 {
        Seq::empty()
    } else {
        seq![(v % 256) as u8] + le_bytes(v / 256, (n - 1) as nat)
    }
}

/// Re-encoding the value of a byte sequence gives back the same bytes.
pub proof fn lemma_le_bytes_inverse(s: Seq<u8>)
    ensures
        le_bytes(le_value(s), s.len()) =~= s,
    decreases s.len(),
{
    if s.len() == 0 {
    } else {
        let v = le_value(s);
        assert(v == s[0] + 256 * le_value(s.drop_first()));
        assert(v % 256 == s[0] && v / 256 == le_value(s.drop_first())) by (nonlinear_arith)
            requires
                v == s[0] + 256 * le_value(s.drop_first()),
                s[0] < 256,
                le_value(s.drop_first()) >= 0,
        ;
        lemma_le_bytes_inverse(s.drop_first());
    }
}

/// The value of a concatenation: the right part is scaled past the left.
pub proof fn lemma_le_value_concat(a: Seq<u8>, b: Seq<u8>)
    ensures
        le_value(a + b) == le_value(a) + pow2(8 * a.len()) * le_value(b),
    decreases a.len(),
{
    lemma2_to64();
    if a.len() == 0 {
        assert(a + b =~= b);
        assert(le_value(a) == 0);
        assert(pow2(8 * a.len()) == 1);
        assert(le_value(a + b) == le_value(a) + pow2(8 * a.len()) * le_value(b));
    } else {
        assert((a + b).drop_first() =~= a.drop_first() + b);
        lemma_le_value_concat(a.drop_first(), b);
        let p = pow2(8 * (a.len() - 1) as nat);
        assert((a + b)[0] == a[0]);
        assert((a + b).len() != 0);
        assert(le_value(a + b) == (a + b)[0] + 256 * le_value((a + b).drop_first()));
        assert(le_value(a + b) == a[0] + 256 * (le_value(a.drop_first()) + p * le_value(b)));
        lemma_pow2_adds(8, 8 * (a.len() - 1) as nat);
        assert(le_value(a) == a[0] + 256 * le_value(a.drop_first()));
        assert(le_value(a + b) == le_value(a) + pow2(8 * a.len()) * le_value(b))
            by (nonlinear_arith)
            requires
                le_value(a + b) == a[0] + 256 * (le_value(a.drop_first()) + p * le_value(b)),
                le_value(a) == a[0] + 256 * le_value(a.drop_first()),
                pow2(8 * a.len()) == 256 * p,
        ;
    }
}

/// The value encoded by a varint byte sequence: seven payload bits per byte,
/// least significant group first.
pub open spec fn varint_value(s: Seq<u8>) -> nat
    decreases s.len(),
{
    if s.len() == 0 {
        0
    } else {
        ((s[0] % 128) + 128 * varint_value(s.drop_first())) as nat
    }
}

/// The canonical varint encoding of `n`: the high bit of every byte but the
/// last signals continuation.
pub open spec fn varint_bytes(n: nat) -> Seq<u8>
    decreases n,
{
    if n < 128 {
        seq![n as u8]
    } else {
        seq![(128 + n % 128) as u8] + varint_bytes(n / 128)
    }
}

/// The index of the terminating byte of a varint starting at `pos`, if one
/// occurs within `fuel + 1` bytes and before the end of the buffer.
pub open spec fn varint_term(s: Seq<u8>, pos: int, fuel: nat) -> Option<int>
    decreases fuel,
{
    if pos >= s.len() {
        Option::None
    } else if s[pos] < 128 {
        Option::Some(pos)
    } else if fuel == 0 {
        Option::None
    } else {
        varint_term(s, pos + 1, (fuel - 1) as nat)
    }
}

/// The value and end position of the varint starting at `pos`, if the
/// buffer holds a complete one of at most ten bytes.
pub open spec fn varint_at(s: Seq<u8>, pos: int) -> Option<(u64, int)> {
    match varint_term(s, pos, 9) {
        Option::Some(t) => Option::Some(
            ((varint_value(s.subrange(pos, t + 1)) % pow2(64)) as u64, t + 1),
        ),
        Option::None => Option::None,
    }
}

/// A terminator at `e` preceded only by continuation bytes is what
/// `varint_term` finds.
pub proof fn lemma_varint_term_found(s: Seq<u8>, pos: int, e: int, fuel: nat)
    requires
        0 <= pos <= e < s.len(),
        e - pos <= fuel,
        forall|i: int| pos <= i < e ==> s[i] >= 128,
        s[e] < 128,
    ensures
        varint_term(s, pos, fuel) == Option::Some(e),
    decreases fuel,
{
    if pos < e {
        lemma_varint_term_found(s, pos + 1, e, (fuel - 1) as nat);
    }
}

/// With nothing but continuation bytes in reach, `varint_term` finds no
/// terminator.
proof fn lemma_varint_term_missing(s: Seq<u8>, pos: int, fuel: nat)
    requires
        0 <= pos,
        forall|i: int| pos <= i < s.len() && i - pos <= fuel ==> s[i] >= 128,
    ensures
        varint_term(s, pos, fuel) is None,
    decreases fuel,
{
    if pos < s.len() && fuel > 0 {
        lemma_varint_term_missing(s, pos + 1, (fuel - 1) as nat);
    }
}

/// Relates the outcome of `read_var_u64` to the spec-level parse at the same
/// position: success returns exactly `varint_at`, and the two failures are
/// the positions where `varint_at` finds nothing.
pub proof fn lemma_read_var_u64_matches(s: Seq<u8>, p0: int, p1: int, r: Result<u64, ReadError>)
    requires
        0 <= p0 <= s.len(),
        match r {
            Ok(v) => {
                &&& p0 < p1 <= s.len()
                &&& p1 - p0 <= 10
                &&& forall|i: int| p0 <= i < p1 - 1 ==> s[i] >= 128
                &&& s[p1 - 1] < 128
                &&& v == varint_value(s.subrange(p0, p1)) % pow2(64)
            },
            Err(ReadError::Eof) => {
                &&& s.len() - p0 < 10
                &&& forall|i: int| p0 <= i < s.len() ==> s[i] >= 128
            },
            Err(ReadError::InvalidData { .. }) => {
                &&& p0 + 10 <= s.len()
                &&& forall|i: int| p0 <= i < p0 + 10 ==> s[i] >= 128
            },
        },
    ensures
        match r {
            Ok(v) => varint_at(s, p0) == Option::Some((v, p1)),
            Err(_) => varint_at(s, p0) is None,
        },
{
    match r {
        Ok(v) => {
            lemma_varint_term_found(s, p0, p1 - 1, 9);
        },
        Err(ReadError::Eof) => {
            lemma_varint_term_missing(s, p0, 9);
        },
        Err(ReadError::InvalidData { .. }) => {
            lemma_varint_term_missing(s, p0, 9);
        },
    }
}

/// Appending one more continuation or terminator byte raises the decoded
/// value by that byte's payload, scaled to its position.
proof fn lemma_varint_snoc(s: Seq<u8>, b: u8)
    ensures
        varint_value(s.push(b)) == varint_value(s) + (b % 128) * pow2(7 * s.len()),
    decreases s.len(),
{
    lemma2_to64();
    if s.len() == 0 {
        assert(s.push(b).drop_first() =~= Seq::<u8>::empty());
        assert(varint_value(s.push(b)) == (b % 128) + 128 * varint_value(Seq::<u8>::empty()));
        assert(varint_value(s) == 0);
        assert(pow2(7 * s.len()) == 1);
        assert(varint_value(s.push(b)) == varint_value(s) + (b % 128) * pow2(7 * s.len()));
    } else {
        assert(s.push(b).drop_first() =~= s.drop_first().push(b));
        lemma_varint_snoc(s.drop_first(), b);
        let p = pow2(7 * (s.len() - 1) as nat);
        assert(s.push(b)[0] == s[0]);
        assert(varint_value(s.push(b)) == (s[0] % 128) + 128 * varint_value(s.push(b).drop_first()));
        assert(varint_value(s.push(b)) == (s[0] % 128) + 128 * (varint_value(s.drop_first()) + (b
            % 128) * p));
        lemma_pow2_adds(7, 7 * (s.len() - 1) as nat);
        assert(varint_value(s) == (s[0] % 128) + 128 * varint_value(s.drop_first()));
        assert(varint_value(s.push(b)) == varint_value(s) + (b % 128) * pow2(7 * s.len()))
            by (nonlinear_arith)
            requires
                varint_value(s.push(b)) == (s[0] % 128) + 128 * (varint_value(s.drop_first()) + (b
                    % 128) * p),
                varint_value(s) == (s[0] % 128) + 128 * varint_value(s.drop_first()),
                pow2(7 * s.len()) == 128 * p,
        ;
    }
}

/// Shifting a seven-bit payload into place equals multiplying by its scale,
/// reduced modulo two to the sixty-fourth.
proof fn lemma_shl_term(b: u64, k: nat)
    requires
        b < 128,
        k <= 9,
    ensures
        (b << ((7 * k) as u64)) == ((b * pow2(7 * k)) as nat) % pow2(64),
{
    lemma2_to64();
    vstd::arithmetic::power2::lemma2_to64_rest();
    if k <= 8 {
        assert(pow2(7 * k) <= pow2(56)) by {
            if 7 * k < 56 {
                vstd::arithmetic::power2::lemma_pow2_strictly_increases(7 * k, 56);
            }
        }
        assert(b * pow2(7 * k) <= 127 * pow2(56)) by (nonlinear_arith)
            requires
                b < 128,
                pow2(7 * k) <= pow2(56),
        ;
        lemma_u64_shl_is_mul(b, (7 * k) as u64);
        lemma_small_mod((b * pow2(7 * k)) as nat, pow2(64));
    } else {
        assert(b << 63u64 == (b % 2) * 0x8000000000000000) by (bit_vector)
            requires
                b < 128,
        ;
        lemma_fundamental_div_mod(b as int, 2);
        assert(b * pow2(63) == pow2(64) * (b / 2) + (b % 2) * pow2(63)) by (nonlinear_arith)
            requires
                b == 2 * (b / 2) + b % 2,
                pow2(64) == 2 * pow2(63),
        ;
        lemma_mod_multiples_vanish((b / 2) as int, ((b % 2) * pow2(63)) as int, pow2(64) as int);
        lemma_small_mod(((b % 2) * pow2(63)) as nat, pow2(64));
    }
}

/// Decoding the canonical encoding of `n` gives back `n`, for every natural
/// number; up to `2^63` the encoding fits in nine bytes, and any value a
/// 64-bit slot can hold fits in ten. The shape facts make the encoding
/// exactly what `read_var_u64` accepts.
pub proof fn lemma_varint_round_trip(n: nat)
    ensures
        varint_value(varint_bytes(n)) == n,
        1 <= varint_bytes(n).len(),
        forall|i: int| 0 <= i < varint_bytes(n).len() - 1 ==> varint_bytes(n)[i] >= 128,
        varint_bytes(n).last() < 128,
        n < pow2(63) ==> varint_bytes(n).len() <= 9,
        n < pow2(64) ==> varint_bytes(n).len() <= 10,
    decreases n,
{
    lemma2_to64();
    vstd::arithmetic::power2::lemma2_to64_rest();
    if n < 128 {
        assert(varint_bytes(n) =~= seq![n as u8]);
        assert(seq![n as u8].drop_first() =~= Seq::<u8>::empty());
        assert(varint_value(seq![n as u8]) == ((n as u8) % 128) + 128 * varint_value(
            seq![n as u8].drop_first(),
        ));
        assert(varint_value(seq![n as u8]) == n);
    } else {
        let rest = varint_bytes(n / 128);
        let b0 = (128 + n % 128) as u8;
        lemma_varint_round_trip(n / 128);
        assert(varint_bytes(n) =~= seq![b0] + rest);
        assert((seq![b0] + rest).drop_first() =~= rest);
        assert(varint_value(varint_bytes(n)) == (b0 % 128) + 128 * varint_value(rest));
        lemma_fundamental_div_mod(n as int, 128);
        assert(forall|i: int|
            0 <= i < varint_bytes(n).len() - 1 ==> varint_bytes(n)[i] >= 128) by {
            assert(forall|i: int| 0 <= i < rest.len() - 1 ==> rest[i] >= 128);
        }
        if n < pow2(63) {
            assert(n / 128 < pow2(56)) by (nonlinear_arith)
                requires
                    n < pow2(63),
                    pow2(63) == 128 * pow2(56),
                    n == 128 * (n / 128) + n % 128,
                    0 <= n % 128 < 128,
            ;
            lemma_varint_len_bound(n / 128, 8);
        }
        if n < pow2(64) {
            assert(n / 128 < pow2(57)) by (nonlinear_arith)
                requires
                    n < pow2(64),
                    pow2(64) == 128 * pow2(57),
                    n == 128 * (n / 128) + n % 128,
                    0 <= n % 128 < 128,
            ;
            lemma_varint_len_bound(n / 128, 9);
        }
    }
}

/// A value below `2^(7k)` encodes in at most `k` bytes.
proof fn lemma_varint_len_bound(n: nat, k: nat)
    requires
        k >= 1,
        n < pow2(7 * k),
    ensures
        varint_bytes(n).len() <= k,
    decreases k,
{
    if n < 128 {
    } else {
        lemma2_to64();
        assert(k >= 2) by {
            if k == 1 {
                assert(pow2(7) == 128);
            }
        }
        lemma_pow2_adds(7, (7 * (k - 1)) as nat);
        lemma_fundamental_div_mod(n as int, 128);
        assert(n / 128 < pow2((7 * (k - 1)) as nat)) by (nonlinear_arith)
            requires
                n < pow2((7 * k) as nat),
                pow2((7 * k) as nat) == 128 * pow2((7 * (k - 1)) as nat),
                n == 128 * (n / 128) + n % 128,
                0 <= n % 128 < 128,
        ;
        lemma_varint_len_bound(n / 128, (k - 1) as nat);
    }
}

/// Appends the canonical varint encoding of `n` to `out`.
#[verifier::loop_isolation(false)]
pub fn write_var_u64(n: u64, out: &mut Vec<u8>)
    ensures
        final(out)@ == old(out)@ + varint_bytes(n as nat),
{
    let mut cur: u64 = n;
    let ghost len0 = out@.len();
    loop
        invariant
            out@.len() >= len0,
            out@.subrange(0, len0 as int) == old(out)@,
            varint_bytes(n as nat) == out@.subrange(len0 as int, out@.len() as int)
                + varint_bytes(cur as nat),
        decreases cur,
    {
        if cur < 128 {
            out.push(cur as u8);
            proof {
                assert(varint_bytes(cur as nat) =~= seq![cur as u8]);
                assert(out@.subrange(0, len0 as int) =~= old(out)@);
                assert(out@ =~= old(out)@ + varint_bytes(n as nat));
            }
            return ;
        }
        let b = (128 + (cur % 128)) as u8;
        out.push(b);
        proof {
            assert(varint_bytes(cur as nat) == seq![b] + varint_bytes((cur / 128) as nat));
            assert(out@.subrange(0, len0 as int) =~= old(out)@);
            assert(out@.subrange(len0 as int, out@.len() as int) =~= out@.subrange(
                len0 as int,
                out@.len() - 1,
            ).push(b));
            assert(varint_bytes(n as nat) =~= out@.subrange(len0 as int, out@.len() as int)
                + varint_bytes((cur / 128) as nat));
        }
        cur = cur / 128;
    }
}

/// Reads one byte and advances the cursor.
pub fn read_u8(data: &[u8], pos: &mut usize) -> (r: Result<u8, ReadError>)
    requires
        *old(pos) <= data.len(),
    ensures
        match r {
            Ok(v) => {
                &&& *old(pos) < data.len()
                &&& v == data@[*old(pos) as int]
                &&& *final(pos) == *old(pos) + 1
            },
            Err(e) => {
                &&& e == ReadError::Eof
                &&& *old(pos) == data.len()
                &&& *final(pos) == *old(pos)
            },
        },
{
    if *pos < data.len() {
        let b = data[*pos];
        *pos = *pos + 1;
        Ok(b)
    } else {
        Err(ReadError::Eof)
    }
}

/// Reads a little-endian 32-bit unsigned integer and advances the cursor.
pub fn read_le_u32(data: &[u8], pos: &mut usize) -> (r: Result<u32, ReadError>)
    requires
        *old(pos) <= data.len(),
    ensures
        match r {
            Ok(v) => {
                &&& *old(pos) + 4 <= data.len()
                &&& *final(pos) == *old(pos) + 4
                &&& v == le_value(data@.subrange(*old(pos) as int, *old(pos) + 4))
            },
            Err(e) => {
                &&& e == ReadError::Eof
                &&& data.len() < *old(pos) + 4
                &&& *final(pos) == *old(pos)
            },
        },
{
    if data.len() - *pos < 4 {
        return Err(ReadError::Eof);
    }
    let p = *pos;
    let b0 = data[p] as u32;
    let b1 = data[p + 1] as u32;
    let b2 = data[p + 2] as u32;
    let b3 = data[p + 3] as u32;
    *pos = p + 4;
    let v = b0 | (b1 << 8u32) | (b2 << 16u32) | (b3 << 24u32);
    proof {
        let s = data@.subrange(p as int, p + 4);
        let s1 = s.drop_first();
        let s2 = s1.drop_first();
        let s3 = s2.drop_first();
        assert(s3.drop_first() =~= Seq::<u8>::empty());
        assert(s1[0] == data@[p + 1] && s2[0] == data@[p + 2] && s3[0] == data@[p + 3]);
        assert(le_value(s3.drop_first()) == 0);
        assert(le_value(s3) == s3[0] + 256 * le_value(s3.drop_first()));
        assert(le_value(s2) == s2[0] + 256 * le_value(s3));
        assert(le_value(s1) == s1[0] + 256 * le_value(s2));
        assert(le_value(s) == s[0] + 256 * le_value(s1));
        assert(v == b0 + 256 * (b1 + 256 * (b2 + 256 * b3))) by (bit_vector)
            requires
                b0 < 256 && b1 < 256 && b2 < 256 && b3 < 256,
                v == b0 | (b1 << 8u32) | (b2 << 16u32) | (b3 << 24u32),
        ;
    }
    Ok(v)
}

/// Reads a little-endian 64-bit unsigned integer and advances the cursor.
pub fn read_le_u64(data: &[u8], pos: &mut usize) -> (r: Result<u64, ReadError>)
    requires
        *old(pos) <= data.len(),
    ensures
        match r {
            Ok(v) => {
                &&& *old(pos) + 8 <= data.len()
                &&& *final(pos) == *old(pos) + 8
                &&& v == le_value(data@.subrange(*old(pos) as int, *old(pos) + 8))
            },
            Err(e) => {
                &&& e == ReadError::Eof
                &&& data.len() < *old(pos) + 8
                &&& *final(pos) == *old(pos)
            },
        },
{
    let p = *pos;
    if data.len() - p < 8 {
        return Err(ReadError::Eof);
    }
    let lo = match read_le_u32(data, pos) {
        Ok(v) => v,
        Err(e) => {
            return Err(e);
        },
    };
    let hi = match read_le_u32(data, pos) {
        Ok(v) => v,
        Err(e) => {
            return Err(e);
        },
    };
    let lo64 = lo as u64;
    let hi64 = hi as u64;
    let v = lo64 | (hi64 << 32u64);
    proof {
        lemma2_to64();
        let a = data@.subrange(p as int, p + 4);
        let b = data@.subrange(p + 4, p + 8);
        assert(data@.subrange(p as int, p + 8) =~= a + b);
        lemma_le_value_concat(a, b);
        assert(v == lo64 + 0x100000000 * hi64) by (bit_vector)
            requires
                lo64 < 0x100000000u64 && hi64 < 0x100000000u64,
                v == lo64 | (hi64 << 32u64),
        ;
    }
    Ok(v)
}

/// Copies `n` bytes into a fresh vector and advances the cursor.
#[verifier::loop_isolation(false)]
pub fn read_bytes(data: &[u8], pos: &mut usize, n: usize) -> (r: Result<Vec<u8>, ReadError>)
    requires
        *old(pos) <= data.len(),
    ensures
        match r {
            Ok(v) => {
                &&& *old(pos) + n <= data.len()
                &&& *final(pos) == *old(pos) + n
                &&& v@ =~= data@.subrange(*old(pos) as int, *old(pos) + n)
            },
            Err(e) => {
                &&& e == ReadError::Eof
                &&& data.len() < *old(pos) + n
                &&& *final(pos) == *old(pos)
            },
        },
{
    let p = *pos;
    if data.len() - p < n {
        return Err(ReadError::Eof);
    }
    let mut out: Vec<u8> = Vec::new();
    let mut i: usize = 0;
    while i < n
        invariant
            0 <= i <= n,
            out@ =~= data@.subrange(p as int, p + i),
        decreases n - i,
    {
        out.push(data[p + i]);
        i = i + 1;
    }
    *pos = p + n;
    Ok(out)
}

/// Reads a base-128 varint of at most ten bytes and advances the cursor.
///
/// Fails with `InvalidData` when ten continuation bytes appear without a
/// terminating byte, and with `Eof` when the buffer ends first. A payload
/// wider than 64 bits loses its high bits, as the shifted accumulation of
/// the encoding discards them.
#[verifier::loop_isolation(false)]
pub fn read_var_u64(data: &[u8], pos: &mut usize) -> (r: Result<u64, ReadError>)
    requires
        *old(pos) <= data.len(),
    ensures
        match r {
            Ok(v) => {
                &&& *old(pos) < *final(pos) <= data.len()
                &&& *final(pos) - *old(pos) <= 10
                &&& forall|i: int| *old(pos) <= i < *final(pos) - 1 ==> data@[i] >= 128
                &&& data@[*final(pos) - 1] < 128
                &&& v == varint_value(data@.subrange(*old(pos) as int, *final(pos) as int))
                    % pow2(64)
            },
            Err(ReadError::Eof) => {
                &&& data.len() - *old(pos) < 10
                &&& forall|i: int| *old(pos) <= i < data.len() ==> data@[i] >= 128
                &&& *final(pos) == data.len()
            },
            Err(ReadError::InvalidData { message }) => {
                &&& *old(pos) + 10 <= data.len()
                &&& forall|i: int| *old(pos) <= i < *old(pos) + 10 ==> data@[i] >= 128
                &&& *final(pos) == *old(pos) + 10
                &&& message@ == "Maximum bytes size for a variable u64 has been reached."@
            },
        },
{
    let ghost p0 = *pos;
    let mut cumulative: u64 = 0;
    let mut bytes_read: usize = 0;
    let mut shift: u32 = 0;

    proof {
        lemma2_to64();
        assert(data@.subrange(p0 as int, p0 as int) =~= Seq::<u8>::empty());
    }

    loop
        invariant
            p0 == *old(pos),
            p0 <= *pos <= data.len(),
            *pos - p0 == bytes_read,
            bytes_read <= 10,
            shift == 7 * bytes_read,
            forall|i: int| p0 <= i < *pos ==> data@[i] >= 128,
            cumulative == varint_value(data@.subrange(p0 as int, *pos as int)) % pow2(64),
        decreases data.len() + 1 - *pos,
    {
        if bytes_read == 10 {
            return Err(
                ReadError::InvalidData {
                    message: String::from_str(
                        "Maximum bytes size for a variable u64 has been reached.",
                    ),
                },
            );
        }

        let byte = match read_u8(data, pos) {
            Ok(b) => b,
            Err(_) => {
                return Err(ReadError::Eof);
            },
        };

        let ghost pre = data@.subrange(p0 as int, *pos - 1);
        let ghost post = data@.subrange(p0 as int, *pos as int);
        proof {
            assert(post =~= pre.push(byte));
            lemma_varint_snoc(pre, byte);
        }

        if byte < 128 {
            let term = (byte as u64) << (shift as u64);
            let v = cumulative.wrapping_add(term);
            proof {
                lemma_shl_term(byte as u64, bytes_read as nat);
                lemma_add_mod_noop(
                    varint_value(pre) as int,
                    ((byte % 128) * pow2((7 * bytes_read) as nat)) as int,
                    pow2(64) as int,
                );
            }
            return Ok(v);
        }

        let payload = (byte & 127) as u64;
        proof {
            assert(payload == byte % 128) by (bit_vector)
                requires
                    payload == (byte & 127) as u64,
            ;
        }
        let term = payload << (shift as u64);
        proof {
            lemma_shl_term(payload, bytes_read as nat);
            lemma_add_mod_noop(
                varint_value(pre) as int,
                ((byte % 128) * pow2((7 * bytes_read) as nat)) as int,
                pow2(64) as int,
            );
        }
        cumulative = cumulative.wrapping_add(term);
        shift = shift + 7;
        bytes_read = bytes_read + 1;
    }
}

} // verus!
