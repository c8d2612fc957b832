//! Packed binary-coded decimal: one byte holds two decimal digits, the tens
//! digit in the high nibble and the units digit in the low nibble.
use vstd::prelude::*;

verus! {

/// The number that byte `b` stands for when read as two BCD digits:
/// ten times the high nibble plus the low nibble.
#[verifier::opaque]
pub open spec fn bcd_value(b: int) -> int {
    (b / 16) * 10 + b % 16
}

/// The byte that encodes `v` as two BCD digits: the tens of `v` in the high
/// nibble (with whatever does not fit in the byte dropped) and the units in the
/// low nibble.
#[verifier::opaque]
pub open spec fn bcd_byte(v: int) -> int {
    ((v / 10) * 16) % 256 + v % 10
}

/// True when both nibbles of `b` are decimal digits.
pub open spec fn is_bcd(b: int) -> bool {
    b / 16 <= 9 && b % 16 <= 9
}

/// Reads a byte as two BCD digits.
pub fn from_bcd(value: u8) -> (r: u8)
    ensures
        r == bcd_value(value as int),
{
    reveal(bcd_value);
    assert((value >> 4u8) == value / 16 && (value & 0x0Fu8) == value % 16) by (bit_vector);
    (value >> 4) * 10 + (value & 0x0F)
}

/// Writes a number as two BCD digits.
pub fn to_bcd(value: u8) -> (r: u8)
    ensures
        r == bcd_byte(value as int),
{
    reveal(bcd_byte);
    let tens: u8 = value / 10;
    let units: u8 = value % 10;
    assert(((tens << 4u8) | units) == ((tens as int * 16) % 256 + units as int) as u8) by (bit_vector)
        requires
            units < 10,
    ;
    (tens << 4) | units
}

/// Encoding a number below 160 and reading it back gives the number.
pub proof fn lemma_bcd_byte_then_value(v: int)
    requires
        0 <= v < 160,
    ensures
        bcd_byte(v) == (v / 10) * 16 + v % 10,
        0 <= bcd_byte(v) < 256,
        bcd_value(bcd_byte(v)) == v,
{
    reveal(bcd_value);
    reveal(bcd_byte);
    let t = v / 10;
    let u = v % 10;
    assert(bcd_byte(v) == t * 16 + u);
    assert((t * 16 + u) / 16 == t);
    assert((t * 16 + u) % 16 == u);
}

/// The byte written for a number below 256 holds, in its high nibble, the
/// number's tens (modulo 16, as only four bits are kept) and, in its low
/// nibble, the number's units.
pub proof fn lemma_bcd_byte_digits(v: int)
    requires
        0 <= v < 256,
    ensures
        0 <= bcd_byte(v) < 256,
        bcd_byte(v) / 16 == (v / 10) % 16,
        bcd_byte(v) % 16 == v % 10,
{
    reveal(bcd_byte);
    let q = v / 10;
    let u = v % 10;
    assert(0 <= q < 26 && 0 <= u < 10);
    assert((q * 16) % 256 == (q % 16) * 16) by (nonlinear_arith)
        requires
            0 <= q < 26,
    ;
    assert(bcd_byte(v) == (q % 16) * 16 + u);
}

/// Reading a byte as BCD weighs its high nibble by ten and its low nibble by
/// one.
pub proof fn lemma_bcd_value_digits(b: int)
    ensures
        bcd_value(b) == 10 * (b / 16) + b % 16,
{
    reveal(bcd_value);
}

/// Reading a byte whose two nibbles are decimal digits and encoding the
/// number again gives the byte back.
pub proof fn lemma_bcd_value_then_byte(b: int)
    requires
        0 <= b < 256,
        is_bcd(b),
    ensures
        0 <= bcd_value(b) < 100,
        bcd_byte(bcd_value(b)) == b,
{
    reveal(bcd_value);
    reveal(bcd_byte);
    let h = b / 16;
    let l = b % 16;
    assert(bcd_value(b) == h * 10 + l);
    assert((h * 10 + l) / 10 == h);
    assert((h * 10 + l) % 10 == l);
}

} // verus!
