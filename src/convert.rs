use vstd::prelude::*;

use crate::types::{
    DecodeError, PX_FIELD_TYPE_CURRENCY, PX_FIELD_TYPE_DATE, PX_FIELD_TYPE_INCREMENTAL,
    PX_FIELD_TYPE_LOGICAL, PX_FIELD_TYPE_LONG_INT, PX_FIELD_TYPE_NUMBER, PX_FIELD_TYPE_SHORT_INT,
    PX_FIELD_TYPE_TIME, PX_FIELD_TYPE_TIMESTAMP,
};

verus! {

/// `256` raised to `n`.
pub open spec fn pow256(n: nat) -> nat
    decreases n,
{
    if n == 0 {
        1
    } else {
        256 * pow256((n - 1) as nat)
    }
}

/// The bytes of `s`, most significant first, read as one unsigned integer.
pub open spec fn be_nat(s: Seq<u8>) -> nat
    decreases s.len(),
{
    if s.len() == 0 {
        0
    } else {
        be_nat(s.drop_last()) * 256 + s.last() as nat
    }
}

/// The value that a sign-biased field holds: the big-endian integer with its
/// top bit flipped, read as two's complement. Both branches of the format's
/// rule (clear the top bit of a set one; set a clear one and read as
/// negative) come to this one subtraction.
pub open spec fn sign_biased(s: Seq<u8>) -> int {
    be_nat(s) - pow256(s.len()) / 2
}

/// The first `w` bytes of `raw`, the stored form of a field of width `w`.
pub open spec fn field_bytes(raw: Seq<u8>, w: nat) -> Seq<u8> {
    raw.subrange(0, w as int)
}

/// A field is NULL when all of its bytes are zero.
pub open spec fn is_null_field(raw: Seq<u8>, w: nat) -> bool {
    be_nat(field_bytes(raw, w)) == 0
}

/// The width in bytes of the integer-valued field types.
pub open spec fn long_width(field_type: u8) -> nat {
    if field_type == PX_FIELD_TYPE_LOGICAL {
        1
    } else if field_type == PX_FIELD_TYPE_SHORT_INT {
        2
    } else if field_type == PX_FIELD_TYPE_LONG_INT || field_type == PX_FIELD_TYPE_INCREMENTAL {
        4
    } else {
        0
    }
}

/// The outcome of decoding a sign-biased integer field of width `w`.
pub open spec fn biased_outcome(raw: Seq<u8>, w: nat) -> Result<Option<int>, DecodeError> {
    if raw.len() < w {
        Err(DecodeError::Truncated)
    } else if is_null_field(raw, w) {
        Ok(None)
    } else {
        Ok(Some(sign_biased(field_bytes(raw, w))))
    }
}

proof fn lemma_pow256_mono(i: nat, j: nat)
    requires
        i <= j,
    ensures
        pow256(i) <= pow256(j),
    decreases j,
{
    if i < j {
        lemma_pow256_mono(i, (j - 1) as nat);
    }
}

proof fn lemma_be_nat_bound(s: Seq<u8>)
    ensures
        be_nat(s) < pow256(s.len()),
    decreases s.len(),
{
    if s.len() > 0 {
        lemma_be_nat_bound(s.drop_last());
        let a = be_nat(s.drop_last());
        let p = pow256(s.drop_last().len());
        let b = s.last() as nat;
        assert(a * 256 + b < p * 256) by (nonlinear_arith)
            requires
                a < p,
                b < 256,
        ;
    }
}

/// The `w` bytes of `n`, most significant first.
pub open spec fn be_bytes(n: nat, w: nat) -> Seq<u8>
    decreases w,
{
    if w == 0 {
        Seq::empty()
    } else {
        be_bytes(n / 256, (w - 1) as nat).push((n % 256) as u8)
    }
}

/// The stored form of `v` in a sign-biased field of width `w`.
pub open spec fn encode_biased(v: int, w: nat) -> Seq<u8> {
    be_bytes((v + pow256(w) / 2) as nat, w)
}

proof fn lemma_be_bytes_value(n: nat, w: nat)
    requires
        n < pow256(w),
    ensures
        be_bytes(n, w).len() == w,
        be_nat(be_bytes(n, w)) == n,
    decreases w,
{
    if w > 0 {
        let q = n / 256;
        assert(q < pow256((w - 1) as nat)) by (nonlinear_arith)
            requires
                n < 256 * pow256((w - 1) as nat),
                q == n / 256,
        ;
        lemma_be_bytes_value(q, (w - 1) as nat);
        let s = be_bytes(n, w);
        assert(s.drop_last() =~= be_bytes(q, (w - 1) as nat));
        assert(q * 256 + n % 256 == n) by (nonlinear_arith)
            requires
                q == n / 256,
        ;
    }
}

proof fn lemma_be_nat_zeros(w: nat)
    ensures
        be_nat(Seq::new(w, |i: int| 0u8)) == 0,
    decreases w,
{
    if w > 0 {
        lemma_be_nat_zeros((w - 1) as nat);
        assert(Seq::new(w, |i: int| 0u8).drop_last() =~= Seq::new((w - 1) as nat, |i: int| 0u8));
    }
}

/// Encoding a value into the sign-biased form of width `w` and decoding it
/// gives the value back, for every value of the width's range but its
/// lowest, whose stored form is all zero bytes, the form of NULL.
pub proof fn lemma_biased_round_trip(v: int, w: nat)
    requires
        w >= 1,
        -(pow256(w) / 2) < v < pow256(w) / 2,
    ensures
        biased_outcome(encode_biased(v, w), w) == Ok::<Option<int>, DecodeError>(Some(v)),
{
    assert(pow256(w) == 256 * pow256((w - 1) as nat));
    let n = (v + pow256(w) / 2) as nat;
    lemma_be_bytes_value(n, w);
    let s = encode_biased(v, w);
    assert(field_bytes(s, w) =~= s);
}

/// A field whose bytes are all zero decodes to NULL, never to a value.
pub proof fn lemma_zero_field_is_null(w: nat)
    ensures
        biased_outcome(Seq::new(w, |i: int| 0u8), w) == Ok::<Option<int>, DecodeError>(None),
{
    lemma_be_nat_zeros(w);
    assert(field_bytes(Seq::new(w, |i: int| 0u8), w) =~= Seq::new(w, |i: int| 0u8));
}

/// Clears the top bit of `dst[len - 1]`, the most significant byte of a
/// little-endian field of `len` bytes.
pub fn fix_sign(dst: &mut Vec<u8>, len: usize)
    requires
        1 <= len <= old(dst)@.len(),
    ensures
        final(dst)@ == old(dst)@.update(len - 1, old(dst)@[len - 1] & 0x7f),
{
    let b = dst[len - 1] & 0x7f;
    dst.set(len - 1, b);
}

/// Sets the top bit of `dst[len - 1]`, the most significant byte of a
/// little-endian field of `len` bytes.
pub fn set_sign(dst: &mut Vec<u8>, len: usize)
    requires
        1 <= len <= old(dst)@.len(),
    ensures
        final(dst)@ == old(dst)@.update(len - 1, old(dst)@[len - 1] | 0x80),
{
    let b = dst[len - 1] | 0x80;
    dst.set(len - 1, b);
}

/// The first `w` bytes of `raw` as a big-endian unsigned integer.
fn be_value(raw: &[u8], w: usize) -> (r: u64)
    requires
        1 <= w <= 8,
        w <= raw@.len(),
    ensures
        r == be_nat(field_bytes(raw@, w as nat)),
        r < pow256(w as nat),
{
    let mut acc: u64 = 0;
    let mut i: usize = 0;
    proof {
        reveal_with_fuel(pow256, 9);
        assert(field_bytes(raw@, 0) =~= Seq::<u8>::empty());
    }
    while i < w
        invariant
            i <= w <= 8,
            w <= raw@.len(),
            acc == be_nat(field_bytes(raw@, i as nat)),
            acc < pow256(i as nat),
            pow256(8) == 0x1_0000_0000_0000_0000,
        decreases w - i,
    {
        proof {
            lemma_pow256_mono((i + 1) as nat, 8);
            let s = field_bytes(raw@, (i + 1) as nat);
            assert(s.drop_last() =~= field_bytes(raw@, i as nat));
            lemma_be_nat_bound(s);
        }
        acc = acc * 256 + raw[i] as u64;
        i = i + 1;
    }
    acc
}

/// Subtracts the sign bias `pow256(w) / 2` from a stored field value.
fn unbias(acc: u64, w: usize) -> (r: i64)
    requires
        w == 1 || w == 2 || w == 4 || w == 8,
        0 < acc < pow256(w as nat),
    ensures
        r == acc - pow256(w as nat) / 2,
{
    proof {
        reveal_with_fuel(pow256, 9);
    }
    let half: u64 = if w == 1 {
        0x80
    } else if w == 2 {
        0x8000
    } else if w == 4 {
        0x8000_0000
    } else {
        0x8000_0000_0000_0000
    };
    assert(half == pow256(w as nat) / 2);
    if acc >= half {
        (acc - half) as i64
    } else {
        0 - ((half - acc) as i64)
    }
}

/// Decodes a sign-biased field of width `w`: NULL when all its bytes are
/// zero, else its value.
pub fn decode_biased(raw: &[u8], w: usize) -> (r: Result<Option<i64>, DecodeError>)
    requires
        w == 1 || w == 2 || w == 4 || w == 8,
    ensures
        match (r, biased_outcome(raw@, w as nat)) {
            (Ok(Some(v)), Ok(Some(x))) => v == x,
            (Ok(None), Ok(None)) => true,
            (Err(e), Err(x)) => e == x,
            _ => false,
        },
{
    if raw.len() < w {
        return Err(DecodeError::Truncated);
    }
    let acc = be_value(raw, w);
    if acc == 0 {
        Ok(None)
    } else {
        proof {
            assert(field_bytes(raw@, w as nat).len() == w);
        }
        Ok(Some(unbias(acc, w)))
    }
}

/// Decodes a Logical, ShortInt, LongInt or Incremental field from its stored
/// bytes (`raw` starts at the field). Other field types are `Unsupported`.
pub fn px_to_long(raw: &[u8], field_type: u8) -> (r: Result<Option<i64>, DecodeError>)
    ensures
        long_width(field_type) == 0 ==> r == Err::<Option<i64>, DecodeError>(
            DecodeError::Unsupported,
        ),
        long_width(field_type) != 0 ==> match (r, biased_outcome(raw@, long_width(field_type))) {
            (Ok(Some(v)), Ok(Some(x))) => v == x,
            (Ok(None), Ok(None)) => true,
            (Err(e), Err(x)) => e == x,
            _ => false,
        },
{
    let w: usize = if field_type == PX_FIELD_TYPE_LOGICAL {
        1
    } else if field_type == PX_FIELD_TYPE_SHORT_INT {
        2
    } else if field_type == PX_FIELD_TYPE_LONG_INT || field_type == PX_FIELD_TYPE_INCREMENTAL {
        4
    } else {
        return Err(DecodeError::Unsupported);
    };
    decode_biased(raw, w)
}

/// Offset from a stored day count to a Julian day: a stored date `d` stands
/// for the Julian day `d + JULIAN_OFFSET - 1`.
pub const JULIAN_OFFSET: i64 = 719528;

/// Timestamp ticks per second.
pub const TICKS_PER_SECOND: i64 = 500;

/// Seconds between the timestamp epoch and the Unix epoch.
pub const TIMESTAMP_EPOCH_SHIFT: i64 = 37603860709183;

/// Days in a 400-year Gregorian cycle.
const CYCLE_DAYS: u64 = 146097;

/// Number of whole cycles added to a day count so that the arithmetic of
/// `gdate` runs on positive numbers.
const SHIFT_CYCLES: u64 = 15000;

/// Proleptic Gregorian `(year, month, day)` of the Julian day `jd`, by the
/// integer civil-from-days algorithm (day 1721120 is 0000-03-01).
pub open spec fn civil_from_jd(jd: int) -> (int, int, int) {
    let n = jd - 1721119;
    let j = (4 * n - 1) / 146097;
    let r = (4 * n - 1) % 146097;
    let t = r / 4;
    let yy = (4 * t + 3) / 1461;
    let t2 = (4 * t + 3) % 1461;
    let t3 = (t2 + 4) / 4;
    let m = (5 * t3 - 3) / 153;
    let t4 = (5 * t3 - 3) % 153;
    let d = (t4 + 5) / 5;
    let y = 100 * j + yy;
    if m < 10 {
        (y, m + 3, d)
    } else {
        (y + 1, m - 9, d)
    }
}

/// `(hours, minutes, seconds)` of a count of milliseconds since midnight,
/// sub-second remainder dropped.
pub open spec fn time_of_day(ms: int) -> (int, int, int) {
    let secs = ms / 1000;
    (secs / 3600, (secs / 60) % 60, secs % 60)
}

/// Seconds since the Unix epoch of a stored timestamp: the low byte holds
/// sub-tick precision, and ticks count 1/500 s from the format's own epoch.
pub open spec fn timestamp_seconds(v: int) -> int {
    v / 256 / 500 - 37603860709183
}

/// Bit pattern of the binary64 value of a stored floating field: a set top
/// bit is cleared, a clear one means every bit was inverted.
pub open spec fn double_bits(n: nat) -> int {
    if n >= 0x8000_0000_0000_0000 {
        n - 0x8000_0000_0000_0000
    } else {
        0xffff_ffff_ffff_ffff - n
    }
}

proof fn lemma_shift_div_mod(x: int, k: int, m: int)
    requires
        m > 0,
    ensures
        (x + m * k) / m == x / m + k,
        (x + m * k) % m == x % m,
{
    vstd::arithmetic::div_mod::lemma_fundamental_div_mod(x, m);
    vstd::arithmetic::div_mod::lemma_mod_bound(x, m);
    assert(x + m * k == m * (x / m + k) + x % m) by (nonlinear_arith)
        requires
            x == m * (x / m) + x % m,
    ;
    vstd::arithmetic::div_mod::lemma_div_multiples_vanish_fancy(x / m + k, x % m, m);
    vstd::arithmetic::div_mod::lemma_mod_multiples_vanish(x / m + k, x % m, m);
    vstd::arithmetic::div_mod::lemma_small_mod((x % m) as nat, m as nat);
}

proof fn lemma_sign_biased_bound(s: Seq<u8>)
    requires
        s.len() > 0,
    ensures
        -(pow256(s.len()) / 2) <= sign_biased(s) < pow256(s.len()) / 2,
{
    lemma_be_nat_bound(s);
    assert(pow256(s.len()) == 256 * pow256((s.len() - 1) as nat));
}

/// Gregorian `(year, month, day)` of the Julian day `jd`.
pub fn gdate(jd: i64) -> (r: (i32, i32, i32))
    requires
        -2_147_483_648 <= jd <= 2_148_203_175,
    ensures
        (r.0 as int, r.1 as int, r.2 as int) == civil_from_jd(jd as int),
{
    let np: u64 = (jd + (CYCLE_DAYS * SHIFT_CYCLES) as i64 - 1721119) as u64;
    let a: u64 = 4 * np - 1;
    let j = a / CYCLE_DAYS;
    let r = a % CYCLE_DAYS;
    let t = r / 4;
    let yy = (4 * t + 3) / 1461;
    let t2 = (4 * t + 3) % 1461;
    let t3 = (t2 + 4) / 4;
    let m = (5 * t3 - 3) / 153;
    let t4 = (5 * t3 - 3) % 153;
    let d = (t4 + 5) / 5;
    proof {
        let n = jd - 1721119;
        assert(a == (4 * n - 1) + 146097 * 60000);
        lemma_shift_div_mod(4 * n - 1, 60000, 146097);
        assert(j < 200000) by (nonlinear_arith)
            requires
                j == a / 146097,
                a < 20_000_000_000,
        ;
        assert(j >= 1000) by (nonlinear_arith)
            requires
                j == a / 146097,
                a >= 146_097_000,
        ;
    }
    let y: i64 = 100 * j as i64 + yy as i64 - 6_000_000;
    if m < 10 {
        (y as i32, m as i32 + 3, d as i32)
    } else {
        (y as i32 + 1, m as i32 - 9, d as i32)
    }
}

/// Decodes a Date field: the stored day count `d` is the Julian day
/// `d + 719528 - 1`, given as a Gregorian `(year, month, day)`.
pub fn px_to_date(raw: &[u8], field_type: u8) -> (r: Result<Option<(i32, i32, i32)>, DecodeError>)
    ensures
        field_type != PX_FIELD_TYPE_DATE ==> r == Err::<Option<(i32, i32, i32)>, DecodeError>(
            DecodeError::Unsupported,
        ),
        field_type == PX_FIELD_TYPE_DATE ==> match (r, biased_outcome(raw@, 4)) {
            (Ok(Some(d)), Ok(Some(v))) => (d.0 as int, d.1 as int, d.2 as int) == civil_from_jd(
                v + 719528 - 1,
            ),
            (Ok(None), Ok(None)) => true,
            (Err(e), Err(x)) => e == x,
            _ => false,
        },
{
    if field_type != PX_FIELD_TYPE_DATE {
        return Err(DecodeError::Unsupported);
    }
    match decode_biased(raw, 4) {
        Ok(Some(v)) => {
            proof {
                reveal_with_fuel(pow256, 5);
                lemma_sign_biased_bound(field_bytes(raw@, 4));
            }
            Ok(Some(gdate(v + JULIAN_OFFSET - 1)))
        },
        Ok(None) => Ok(None),
        Err(e) => Err(e),
    }
}

/// Decodes a Time field, milliseconds since midnight, to
/// `(hours, minutes, seconds)`. A value below zero is `Negative`.
pub fn px_to_time(raw: &[u8], field_type: u8) -> (r: Result<Option<(u32, u32, u32)>, DecodeError>)
    ensures
        field_type != PX_FIELD_TYPE_TIME ==> r == Err::<Option<(u32, u32, u32)>, DecodeError>(
            DecodeError::Unsupported,
        ),
        field_type == PX_FIELD_TYPE_TIME ==> match (r, biased_outcome(raw@, 4)) {
            (Ok(Some(t)), Ok(Some(v))) => v >= 0 && (t.0 as int, t.1 as int, t.2 as int)
                == time_of_day(v),
            (Err(e), Ok(Some(v))) => v < 0 && e == DecodeError::Negative,
            (Ok(None), Ok(None)) => true,
            (Err(e), Err(x)) => e == x,
            _ => false,
        },
{
    if field_type != PX_FIELD_TYPE_TIME {
        return Err(DecodeError::Unsupported);
    }
    match decode_biased(raw, 4) {
        Ok(Some(v)) => {
            proof {
                reveal_with_fuel(pow256, 5);
                lemma_sign_biased_bound(field_bytes(raw@, 4));
            }
            if v < 0 {
                return Err(DecodeError::Negative);
            }
            let secs = v / 1000;
            let s = (secs % 60) as u32;
            let mins = secs / 60;
            let m = (mins % 60) as u32;
            let h = (mins / 60) as u32;
            proof {
                assert(secs / 60 / 60 == secs / 3600) by {
                    vstd::arithmetic::div_mod::lemma_div_denominator(secs as int, 60, 60);
                }
            }
            Ok(Some((h, m, s)))
        },
        Ok(None) => Ok(None),
        Err(e) => Err(e),
    }
}

/// Decodes a Timestamp field to seconds since the Unix epoch. A value below
/// zero is `Negative`.
pub fn px_to_timestamp(raw: &[u8], field_type: u8) -> (r: Result<Option<i64>, DecodeError>)
    ensures
        field_type != PX_FIELD_TYPE_TIMESTAMP ==> r == Err::<Option<i64>, DecodeError>(
            DecodeError::Unsupported,
        ),
        field_type == PX_FIELD_TYPE_TIMESTAMP ==> match (r, biased_outcome(raw@, 8)) {
            (Ok(Some(t)), Ok(Some(v))) => v >= 0 && t == timestamp_seconds(v),
            (Err(e), Ok(Some(v))) => v < 0 && e == DecodeError::Negative,
            (Ok(None), Ok(None)) => true,
            (Err(e), Err(x)) => e == x,
            _ => false,
        },
{
    if field_type != PX_FIELD_TYPE_TIMESTAMP {
        return Err(DecodeError::Unsupported);
    }
    match decode_biased(raw, 8) {
        Ok(Some(v)) => {
            if v < 0 {
                return Err(DecodeError::Negative);
            }
            Ok(Some(v / 256 / TICKS_PER_SECOND - TIMESTAMP_EPOCH_SHIFT))
        },
        Ok(None) => Ok(None),
        Err(e) => Err(e),
    }
}

/// Decodes a Currency or Number field to the bit pattern of its binary64
/// value (`f64::from_bits` gives the number).
pub fn px_to_double_bits(raw: &[u8], field_type: u8) -> (r: Result<Option<u64>, DecodeError>)
    ensures
        field_type != PX_FIELD_TYPE_CURRENCY && field_type != PX_FIELD_TYPE_NUMBER ==> r
            == Err::<Option<u64>, DecodeError>(DecodeError::Unsupported),
        field_type == PX_FIELD_TYPE_CURRENCY || field_type == PX_FIELD_TYPE_NUMBER ==> {
            &&& raw@.len() < 8 ==> r == Err::<Option<u64>, DecodeError>(DecodeError::Truncated)
            &&& raw@.len() >= 8 && is_null_field(raw@, 8) ==> r == Ok::<Option<u64>, DecodeError>(
                None,
            )
            &&& raw@.len() >= 8 && !is_null_field(raw@, 8) ==> (r matches Ok(Some(b)) && b
                == double_bits(be_nat(field_bytes(raw@, 8))))
        },
{
    if field_type != PX_FIELD_TYPE_CURRENCY && field_type != PX_FIELD_TYPE_NUMBER {
        return Err(DecodeError::Unsupported);
    }
    if raw.len() < 8 {
        return Err(DecodeError::Truncated);
    }
    let acc = be_value(raw, 8);
    if acc == 0 {
        Ok(None)
    } else if acc >= 0x8000_0000_0000_0000 {
        Ok(Some(acc - 0x8000_0000_0000_0000))
    } else {
        let inverted = !acc;
        assert(inverted == 0xffff_ffff_ffff_ffffu64 - acc) by (bit_vector)
            requires
                inverted == !acc,
        ;
        Ok(Some(inverted))
    }
}

/// Decodes a Logical field: its sign-biased value, nonzero meaning true.
pub fn px_to_logical(raw: &[u8], field_type: u8) -> (r: Result<Option<bool>, DecodeError>)
    ensures
        field_type != PX_FIELD_TYPE_LOGICAL ==> r == Err::<Option<bool>, DecodeError>(
            DecodeError::Unsupported,
        ),
        field_type == PX_FIELD_TYPE_LOGICAL ==> match (r, biased_outcome(raw@, 1)) {
            (Ok(Some(b)), Ok(Some(v))) => b == (v != 0),
            (Ok(None), Ok(None)) => true,
            (Err(e), Err(x)) => e == x,
            _ => false,
        },
{
    if field_type != PX_FIELD_TYPE_LOGICAL {
        return Err(DecodeError::Unsupported);
    }
    match decode_biased(raw, 1) {
        Ok(Some(v)) => Ok(Some(v != 0)),
        Ok(None) => Ok(None),
        Err(e) => Err(e),
    }
}

} // verus!
