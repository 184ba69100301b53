//! The fixed-size header of a container: a magic value and three offsets, each
//! written as `0x` followed by eight lowercase hex digits.

use vstd::prelude::*;
use vstd::arithmetic::div_mod::{lemma_basic_div, lemma_div_denominator, lemma_fundamental_div_mod};
use crate::error::UnpackError;

verus! {

/// Size of the header in bytes, which is also the first offset it records.
pub const HEADER_SIZE: usize = 0x25;

/// Length of the magic value at the start of the header.
pub const MAGIC_LEN: usize = 7;

/// Length of one offset field: `0x` and eight hex digits.
pub const FIELD_LEN: usize = 10;

/// Where the hex digits of the archive offset begin.
pub const ARCHIVE_DIGITS_START: usize = 29;

/// The largest offset that eight hex digits can hold.
pub const MAX_OFFSET: u64 = 0xffff_ffff;

/// The magic value, `COREPKG` in ASCII.
pub open spec fn magic() -> Seq<u8> {
    seq![67u8, 79u8, 82u8, 69u8, 80u8, 75u8, 71u8]
}

pub open spec fn pow16(n: nat) -> nat
    decreases n,
{
    if n == 0 { 1 } else { 16 * pow16((n - 1) as nat) }
}

/// The lowercase hex digit of `d < 16`.
pub open spec fn hex_char(d: nat) -> u8 {
    if d < 10 { (48 + d) as u8 } else { (87 + d) as u8 }
}

/// The `k`-th of the eight hex digits of `v`, most significant first.
pub open spec fn digit_at(v: nat, k: nat) -> nat {
    (v / pow16((7 - k) as nat)) % 16
}

/// An offset as it stands in the header: `0x` and eight lowercase hex digits.
pub open spec fn offset_field(v: nat) -> Seq<u8> {
    seq![48u8, 120u8] + Seq::new(8, |k: int| hex_char(digit_at(v, k as nat)))
}

/// The header that records offsets `a`, `b` and `c`.
pub open spec fn header_bytes(a: nat, b: nat, c: nat) -> Seq<u8> {
    magic() + offset_field(a) + offset_field(b) + offset_field(c)
}

pub open spec fn is_lower_hex(b: u8) -> bool {
    (48 <= b <= 57) || (97 <= b <= 102)
}

/// Ten ASCII characters of the form `0x[0-9a-f]{8}`.
pub open spec fn is_offset_field(s: Seq<u8>) -> bool {
    &&& s.len() == 10
    &&& s[0] == 48u8
    &&& s[1] == 120u8
    &&& forall|i: int| 2 <= i < 10 ==> is_lower_hex(#[trigger] s[i])
}

/// A hex digit in either case.
pub open spec fn is_hex(b: u8) -> bool {
    (48 <= b <= 57) || (97 <= b <= 102) || (65 <= b <= 70)
}

pub open spec fn hex_value(b: u8) -> nat {
    if 48 <= b <= 57 {
        (b - 48) as nat
    } else if 97 <= b <= 102 {
        (b - 87) as nat
    } else {
        (b - 55) as nat
    }
}

pub open spec fn all_hex(s: Seq<u8>) -> bool {
    forall|i: int| 0 <= i < s.len() ==> is_hex(#[trigger] s[i])
}

/// The number that the hex digits `s` spell, most significant first.
pub open spec fn digits_value(s: Seq<u8>) -> nat
    decreases s.len(),
{
    if s.len() == 0 {
        0
    } else {
        digits_value(s.drop_last()) * 16 + hex_value(s.last())
    }
}

/// Base-16 text as an unsigned integer: one or more hex digits in either
/// case, optionally after a single `+`.
pub open spec fn parse_hex(s: Seq<u8>) -> Option<nat> {
    if s.len() > 0 && all_hex(s) {
        Some(digits_value(s))
    } else if s.len() > 1 && s[0] == 43u8 && all_hex(s.skip(1)) {
        Some(digits_value(s.skip(1)))
    } else {
        None
    }
}

/// What decoding a header yields: the archive offset, read from the last
/// eight bytes, once the magic value has been checked.
pub open spec fn header_decode(h: Seq<u8>) -> Result<u64, UnpackError> {
    if h.take(MAGIC_LEN as int) != magic() {
        Err(UnpackError::MissingMagicNumber)
    } else {
        match parse_hex(h.subrange(ARCHIVE_DIGITS_START as int, HEADER_SIZE as int)) {
            Some(v) => Ok(v as u64),
            None => Err(UnpackError::IvalidOffsets),
        }
    }
}

/// The lowercase hex digit for `d`.
fn hex_char_exec(d: u32) -> (r: u8)
    requires
        d < 16,
    ensures
        r == hex_char(d as nat),
        is_lower_hex(r),
{
    if d < 10 { (48 + d) as u8 } else { (87 + d) as u8 }
}

/// Appends `v` as `0x` and eight lowercase hex digits.
fn push_offset_field(out: &mut Vec<u8>, v: u32)
    ensures
        final(out)@ == old(out)@ + offset_field(v as nat),
{
    let ghost start = out@;
    out.push(48u8);
    out.push(120u8);
    let mut divisor: u32 = 0x1000_0000;
    let mut k: usize = 0;
    proof {
        reveal_with_fuel(pow16, 8);
    }
    while k < 8
        invariant
            0 <= k <= 8,
            k < 8 ==> divisor as nat == pow16((7 - k) as nat),
            out@.len() == start.len() + 2 + k,
            out@.take(start.len() + 2 as int) == start + seq![48u8, 120u8],
            forall|j: int| 0 <= j < k ==> #[trigger] out@[start.len() + 2 + j] == hex_char(digit_at(v as nat, j as nat)),
        decreases 8 - k,
    {
        proof {
            reveal_with_fuel(pow16, 8);
        }
        let d: u32 = (v / divisor) % 16;
        let c = hex_char_exec(d);
        out.push(c);
        if k < 7 {
            assert(pow16((7 - k) as nat) == 16 * pow16((7 - (k + 1)) as nat));
            divisor = divisor / 16;
        }
        k = k + 1;
    }
    assert(out@ =~= start + offset_field(v as nat)) by {
        assert(out@.take(start.len() + 2 as int) == start + seq![48u8, 120u8]);
        assert forall|i: int| 0 <= i < out@.len() implies out@[i] == (start + offset_field(v as nat))[i] by {
            let f = offset_field(v as nat);
            if i < start.len() + 2 {
                assert(out@[i] == out@.take(start.len() + 2 as int)[i]);
            } else {
                let j = i - start.len() - 2;
                assert(out@[start.len() + 2 + j] == hex_char(digit_at(v as nat, j as nat)));
                assert(f[i - start.len()] == hex_char(digit_at(v as nat, j as nat)));
            }
        }
    }
}

/// Encodes the header that records offsets `a`, `b` and `c`.
pub fn encode_header(a: u32, b: u32, c: u32) -> (r: Vec<u8>)
    ensures
        r@ == header_bytes(a as nat, b as nat, c as nat),
        r@.len() == HEADER_SIZE,
{
    let mut r: Vec<u8> = Vec::new();
    r.push(67u8);
    r.push(79u8);
    r.push(82u8);
    r.push(69u8);
    r.push(80u8);
    r.push(75u8);
    r.push(71u8);
    assert(r@ =~= magic());
    push_offset_field(&mut r, a);
    push_offset_field(&mut r, b);
    push_offset_field(&mut r, c);
    r
}

proof fn lemma_hex_char_value(d: nat)
    requires
        d < 16,
    ensures
        is_lower_hex(hex_char(d)),
        is_hex(hex_char(d)),
        hex_value(hex_char(d)) == d,
{
}

/// Every offset field is ten characters `0x[0-9a-f]{8}`.
pub proof fn lemma_offset_field_shape(v: nat)
    ensures
        is_offset_field(offset_field(v)),
{
    let f = offset_field(v);
    assert forall|i: int| 2 <= i < 10 implies is_lower_hex(#[trigger] f[i]) by {
        lemma_hex_char_value(digit_at(v, (i - 2) as nat));
    }
}

/// The first `j` digits of `v`'s field spell `v / 16^(8 - j)`.
proof fn lemma_digits_prefix(v: nat, j: nat)
    requires
        j <= 8,
        v <= MAX_OFFSET,
    ensures
        digits_value(offset_field(v).subrange(2, 2 + j as int)) == v / pow16((8 - j) as nat),
    decreases j,
{
    let f = offset_field(v);
    reveal_with_fuel(pow16, 9);
    if j == 0 {
        assert(f.subrange(2, 2) =~= Seq::<u8>::empty());
        lemma_basic_div(v as int, pow16(8) as int);
    } else {
        lemma_digits_prefix(v, (j - 1) as nat);
        let s = f.subrange(2, 2 + j as int);
        assert(s.drop_last() =~= f.subrange(2, 2 + j - 1 as int));
        lemma_hex_char_value(digit_at(v, (j - 1) as nat));
        let p = pow16((8 - j) as nat);
        assert(pow16((8 - (j - 1)) as nat) == p * 16);
        lemma_div_denominator(v as int, p as int, 16);
        lemma_fundamental_div_mod((v / p) as int, 16);
    }
}

/// The hex digits `h[from..to]` as a number, or `None` if one is not a digit.
fn parse_digits(h: &[u8], from: usize, to: usize) -> (r: Option<u64>)
    requires
        from <= to <= h@.len(),
        to - from <= 8,
    ensures
        all_hex(h@.subrange(from as int, to as int)) ==> r == Some(digits_value(h@.subrange(from as int, to as int)) as u64),
        !all_hex(h@.subrange(from as int, to as int)) ==> r is None,
        r is Some ==> r->0 <= MAX_OFFSET,
{
    let mut acc: u64 = 0;
    let mut i: usize = from;
    while i < to
        invariant
            from <= i <= to <= h@.len(),
            to - from <= 8,
            all_hex(h@.subrange(from as int, i as int)),
            acc == digits_value(h@.subrange(from as int, i as int)),
            acc < pow16((i - from) as nat),
        decreases to - i,
    {
        let b = h[i];
        let d: u64;
        if 48 <= b && b <= 57 {
            d = (b - 48) as u64;
        } else if 97 <= b && b <= 102 {
            d = (b - 87) as u64;
        } else if 65 <= b && b <= 70 {
            d = (b - 55) as u64;
        } else {
            assert(h@.subrange(from as int, to as int)[i - from] == b);
            return None;
        }
        proof {
            reveal_with_fuel(pow16, 9);
            let p = pow16((i - from) as nat);
            assert(p <= 0x1000_0000) by {
                lemma_pow16_le((i - from) as nat, 7);
            }
            assert(acc * 16 + d < p * 16) by (nonlinear_arith)
                requires acc < p, d < 16;
            let next = h@.subrange(from as int, i + 1);
            assert(next.drop_last() =~= h@.subrange(from as int, i as int));
            assert(next.last() == b);
        }
        acc = acc * 16 + d;
        i = i + 1;
    }
    proof {
        lemma_pow16_le((to - from) as nat, 8);
        reveal_with_fuel(pow16, 9);
    }
    Some(acc)
}

proof fn lemma_pow16_le(n: nat, m: nat)
    requires
        n <= m,
    ensures
        pow16(n) <= pow16(m),
    decreases m,
{
    if n < m {
        lemma_pow16_le(n, (m - 1) as nat);
    }
}

/// Checks the magic value of a header and reads the archive offset from its
/// last eight bytes, as base-16 text.
pub fn decode_header(h: &[u8]) -> (r: Result<u64, UnpackError>)
    requires
        h@.len() == HEADER_SIZE,
    ensures
        r == header_decode(h@),
{
    let magic_bytes: [u8; 7] = [67u8, 79u8, 82u8, 69u8, 80u8, 75u8, 71u8];
    let mut i: usize = 0;
    while i < MAGIC_LEN
        invariant
            i <= MAGIC_LEN,
            h@.len() == HEADER_SIZE,
            magic_bytes@ == magic(),
            forall|j: int| 0 <= j < i ==> h@[j] == magic()[j],
        decreases MAGIC_LEN - i,
    {
        if h[i] != magic_bytes[i] {
            assert(h@.take(MAGIC_LEN as int)[i as int] != magic()[i as int]);
            return Err(UnpackError::MissingMagicNumber);
        }
        i = i + 1;
    }
    assert(h@.take(MAGIC_LEN as int) =~= magic());
    let s = Ghost(h@.subrange(ARCHIVE_DIGITS_START as int, HEADER_SIZE as int));
    if h[ARCHIVE_DIGITS_START] == 43u8 {
        assert(!is_hex(s@[0]));
        assert(s@.skip(1) =~= h@.subrange(ARCHIVE_DIGITS_START + 1, HEADER_SIZE as int));
        match parse_digits(h, ARCHIVE_DIGITS_START + 1, HEADER_SIZE) {
            Some(v) => Ok(v),
            None => Err(UnpackError::IvalidOffsets),
        }
    } else {
        match parse_digits(h, ARCHIVE_DIGITS_START, HEADER_SIZE) {
            Some(v) => Ok(v),
            None => Err(UnpackError::IvalidOffsets),
        }
    }
}

/// Reading back an offset field gives the offset that was written.
pub proof fn lemma_offset_field_parses(v: nat)
    requires
        v <= MAX_OFFSET,
    ensures
        parse_hex(offset_field(v).subrange(2, 10)) == Some(v),
{
    let f = offset_field(v);
    lemma_digits_prefix(v, 8);
    assert(pow16(0) == 1);
    assert(v / 1 == v);
    assert(f.subrange(2, 2 + 8 as int) == f.subrange(2, 10));
    assert(all_hex(f.subrange(2, 10))) by {
        assert forall|i: int| 0 <= i < 8 implies is_hex(#[trigger] f.subrange(2, 10)[i]) by {
            lemma_hex_char_value(digit_at(v, i as nat));
        }
    }
}

/// Decoding the header that records `a`, `b` and `c` gives `c`.
pub proof fn lemma_header_round_trip(a: nat, b: nat, c: nat)
    requires
        a <= MAX_OFFSET,
        b <= MAX_OFFSET,
        c <= MAX_OFFSET,
    ensures
        header_decode(header_bytes(a, b, c)) == Ok::<u64, UnpackError>(c as u64),
        header_bytes(a, b, c).len() == HEADER_SIZE,
{
    let h = header_bytes(a, b, c);
    assert(h.take(MAGIC_LEN as int) =~= magic());
    assert(h.subrange(ARCHIVE_DIGITS_START as int, HEADER_SIZE as int) =~= offset_field(c).subrange(2, 10));
    lemma_offset_field_parses(c);
}

} // verus!
