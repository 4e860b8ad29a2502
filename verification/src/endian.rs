//! Big-endian integers as byte sequences.
//!
//! The spec functions of this module say which bytes stand for a signed
//! integer and which integer a run of bytes stands for. The executable
//! conversions are those of the `byteorder` crate.

use byteorder::{BigEndian, ByteOrder};
use vstd::arithmetic::div_mod::lemma_div_denominator;
use vstd::prelude::*;

verus! {

/// The value of `u`, a number below `modulus`, read as two's complement.
pub open spec fn to_signed(u: int, modulus: int) -> int {
    if 2 * u >= modulus {
        u - modulus
    } else {
        u
    }
}

/// The number below `modulus` that two's complement writes for `v`.
pub open spec fn to_unsigned(v: int, modulus: int) -> int {
    if v < 0 {
        v + modulus
    } else {
        v
    }
}

/// The unsigned number that the first two bytes of `s` spell, most
/// significant byte first.
pub open spec fn u16_from_be(s: Seq<u8>) -> int {
    s[0] * 0x100 + s[1]
}

/// The unsigned number that the first four bytes of `s` spell.
pub open spec fn u32_from_be(s: Seq<u8>) -> int {
    s[0] * 0x100_0000 + s[1] * 0x1_0000 + s[2] * 0x100 + s[3]
}

/// The unsigned number that the first eight bytes of `s` spell.
pub open spec fn u64_from_be(s: Seq<u8>) -> int {
    s[0] * 0x100_0000_0000_0000 + s[1] * 0x1_0000_0000_0000 + s[2] * 0x100_0000_0000 + s[3]
        * 0x1_0000_0000 + s[4] * 0x100_0000 + s[5] * 0x1_0000 + s[6] * 0x100 + s[7]
}

/// The signed 16-bit number that the first two bytes of `s` spell.
pub open spec fn i16_from_be(s: Seq<u8>) -> i16 {
    to_signed(u16_from_be(s), 0x1_0000) as i16
}

/// The signed 32-bit number that the first four bytes of `s` spell.
pub open spec fn i32_from_be(s: Seq<u8>) -> i32 {
    to_signed(u32_from_be(s), 0x1_0000_0000) as i32
}

/// The signed 64-bit number that the first eight bytes of `s` spell.
pub open spec fn i64_from_be(s: Seq<u8>) -> i64 {
    to_signed(u64_from_be(s), 0x1_0000_0000_0000_0000) as i64
}

/// The two bytes that spell `v`, most significant byte first.
pub open spec fn i16_to_be(v: i16) -> Seq<u8> {
    let u: int = to_unsigned(v as int, 0x1_0000);
    seq![(u / 0x100) as u8, (u % 0x100) as u8]
}

/// The four bytes that spell `v`, most significant byte first.
pub open spec fn i32_to_be(v: i32) -> Seq<u8> {
    let u: int = to_unsigned(v as int, 0x1_0000_0000);
    seq![
        (u / 0x100_0000) as u8,
        (u / 0x1_0000 % 0x100) as u8,
        (u / 0x100 % 0x100) as u8,
        (u % 0x100) as u8,
    ]
}

/// The eight bytes that spell `v`, most significant byte first.
pub open spec fn i64_to_be(v: i64) -> Seq<u8> {
    let u: int = to_unsigned(v as int, 0x1_0000_0000_0000_0000);
    seq![
        (u / 0x100_0000_0000_0000) as u8,
        (u / 0x1_0000_0000_0000 % 0x100) as u8,
        (u / 0x100_0000_0000 % 0x100) as u8,
        (u / 0x1_0000_0000 % 0x100) as u8,
        (u / 0x100_0000 % 0x100) as u8,
        (u / 0x1_0000 % 0x100) as u8,
        (u / 0x100 % 0x100) as u8,
        (u % 0x100) as u8,
    ]
}

/// Dividing by 256 takes the last base-256 digit off a number.
proof fn lemma_last_digit(q: int, d: int)
    requires
        0 <= d < 0x100,
    ensures
        (q * 0x100 + d) / 0x100 == q,
        (q * 0x100 + d) % 0x100 == d,
{
}

/// The quotients of `u` by the powers of 256, each got from the one before.
proof fn lemma_quotients(u: int)
    requires
        0 <= u,
    ensures
        u / 0x1_0000 == u / 0x100 / 0x100,
        u / 0x100_0000 == u / 0x1_0000 / 0x100,
        u / 0x1_0000_0000 == u / 0x100_0000 / 0x100,
        u / 0x100_0000_0000 == u / 0x1_0000_0000 / 0x100,
        u / 0x1_0000_0000_0000 == u / 0x100_0000_0000 / 0x100,
        u / 0x100_0000_0000_0000 == u / 0x1_0000_0000_0000 / 0x100,
{
    lemma_div_denominator(u, 0x100, 0x100);
    lemma_div_denominator(u, 0x1_0000, 0x100);
    lemma_div_denominator(u, 0x100_0000, 0x100);
    lemma_div_denominator(u, 0x1_0000_0000, 0x100);
    lemma_div_denominator(u, 0x100_0000_0000, 0x100);
    lemma_div_denominator(u, 0x1_0000_0000_0000, 0x100);
}

/// A number below 2^32 is the sum of its four base-256 digits.
proof fn lemma_digits_u32(u: int)
    requires
        0 <= u < 0x1_0000_0000,
    ensures
        u / 0x100_0000 < 0x100,
        u == (u / 0x100_0000) * 0x100_0000 + (u / 0x1_0000 % 0x100) * 0x1_0000 + (u / 0x100
            % 0x100) * 0x100 + u % 0x100,
{
    lemma_quotients(u);
    let q1: int = u / 0x100;
    let q2: int = u / 0x1_0000;
    let q3: int = u / 0x100_0000;
    assert(u == q1 * 0x100 + u % 0x100);
    assert(q1 == q2 * 0x100 + q1 % 0x100);
    assert(q2 == q3 * 0x100 + q2 % 0x100);
}

/// A number below 2^64 is the sum of its eight base-256 digits.
proof fn lemma_digits_u64(u: int)
    requires
        0 <= u < 0x1_0000_0000_0000_0000,
    ensures
        u / 0x100_0000_0000_0000 < 0x100,
        u == (u / 0x100_0000_0000_0000) * 0x100_0000_0000_0000 + (u / 0x1_0000_0000_0000 % 0x100)
            * 0x1_0000_0000_0000 + (u / 0x100_0000_0000 % 0x100) * 0x100_0000_0000 + (u
            / 0x1_0000_0000 % 0x100) * 0x1_0000_0000 + (u / 0x100_0000 % 0x100) * 0x100_0000 + (u
            / 0x1_0000 % 0x100) * 0x1_0000 + (u / 0x100 % 0x100) * 0x100 + u % 0x100,
{
    lemma_quotients(u);
    let q1: int = u / 0x100;
    let q2: int = u / 0x1_0000;
    let q3: int = u / 0x100_0000;
    let q4: int = u / 0x1_0000_0000;
    let q5: int = u / 0x100_0000_0000;
    let q6: int = u / 0x1_0000_0000_0000;
    let q7: int = u / 0x100_0000_0000_0000;
    assert(u == q1 * 0x100 + u % 0x100);
    assert(q1 == q2 * 0x100 + q1 % 0x100);
    assert(q2 == q3 * 0x100 + q2 % 0x100);
    assert(q3 == q4 * 0x100 + q3 % 0x100);
    assert(q4 == q5 * 0x100 + q4 % 0x100);
    assert(q5 == q6 * 0x100 + q5 % 0x100);
    assert(q6 == q7 * 0x100 + q6 % 0x100);
}

/// The digits of the number that eight bytes spell are those bytes.
proof fn lemma_u64_from_be_digits(s: Seq<u8>)
    requires
        s.len() >= 8,
    ensures
        0 <= u64_from_be(s) < 0x1_0000_0000_0000_0000,
        s[7] == u64_from_be(s) % 0x100,
        s[6] == u64_from_be(s) / 0x100 % 0x100,
        s[5] == u64_from_be(s) / 0x1_0000 % 0x100,
        s[4] == u64_from_be(s) / 0x100_0000 % 0x100,
        s[3] == u64_from_be(s) / 0x1_0000_0000 % 0x100,
        s[2] == u64_from_be(s) / 0x100_0000_0000 % 0x100,
        s[1] == u64_from_be(s) / 0x1_0000_0000_0000 % 0x100,
        s[0] == u64_from_be(s) / 0x100_0000_0000_0000,
{
    let x: int = u64_from_be(s);
    lemma_quotients(x);
    let h1: int = s[0] as int;
    let h2: int = h1 * 0x100 + s[1];
    let h3: int = h2 * 0x100 + s[2];
    let h4: int = h3 * 0x100 + s[3];
    let h5: int = h4 * 0x100 + s[4];
    let h6: int = h5 * 0x100 + s[5];
    let h7: int = h6 * 0x100 + s[6];
    assert(x == h7 * 0x100 + s[7]);
    lemma_last_digit(h7, s[7] as int);
    lemma_last_digit(h6, s[6] as int);
    lemma_last_digit(h5, s[5] as int);
    lemma_last_digit(h4, s[4] as int);
    lemma_last_digit(h3, s[3] as int);
    lemma_last_digit(h2, s[2] as int);
    lemma_last_digit(h1, s[1] as int);
}

/// Reading back the bytes written for a 16-bit number gives the number.
pub proof fn lemma_i16_round_trip(v: i16)
    ensures
        i16_to_be(v).len() == 2,
        i16_from_be(i16_to_be(v)) == v,
{
}

/// Reading back the bytes written for a 32-bit number gives the number.
pub proof fn lemma_i32_round_trip(v: i32)
    ensures
        i32_to_be(v).len() == 4,
        i32_from_be(i32_to_be(v)) == v,
{
    let u: int = to_unsigned(v as int, 0x1_0000_0000);
    lemma_digits_u32(u);
    let s = i32_to_be(v);
    assert(s[0] == u / 0x100_0000);
    assert(s[1] == u / 0x1_0000 % 0x100);
    assert(s[2] == u / 0x100 % 0x100);
    assert(s[3] == u % 0x100);
    assert(u32_from_be(s) == u);
}

/// Reading back the bytes written for a 64-bit number gives the number.
pub proof fn lemma_i64_round_trip(v: i64)
    ensures
        i64_to_be(v).len() == 8,
        i64_from_be(i64_to_be(v)) == v,
{
    let u: int = to_unsigned(v as int, 0x1_0000_0000_0000_0000);
    lemma_digits_u64(u);
    let s = i64_to_be(v);
    assert(s[0] == u / 0x100_0000_0000_0000);
    assert(s[1] == u / 0x1_0000_0000_0000 % 0x100);
    assert(s[2] == u / 0x100_0000_0000 % 0x100);
    assert(s[3] == u / 0x1_0000_0000 % 0x100);
    assert(s[4] == u / 0x100_0000 % 0x100);
    assert(s[5] == u / 0x1_0000 % 0x100);
    assert(s[6] == u / 0x100 % 0x100);
    assert(s[7] == u % 0x100);
    assert(u64_from_be(s) == u);
}

/// Two runs of eight bytes that spell the same number are the same bytes.
pub proof fn lemma_i64_from_be_injective(a: Seq<u8>, b: Seq<u8>)
    requires
        a.len() >= 8,
        b.len() >= 8,
        i64_from_be(a) == i64_from_be(b),
    ensures
        a.subrange(0, 8) == b.subrange(0, 8),
{
    lemma_u64_from_be_digits(a);
    lemma_u64_from_be_digits(b);
    assert(u64_from_be(a) == u64_from_be(b));
    assert(a.subrange(0, 8) =~= b.subrange(0, 8));
}

/// Calls `byteorder::BigEndian::read_i16`, which panics on fewer than two
/// bytes and else returns the first two bytes of `buf` read as a big-endian
/// two's complement number.
#[verifier::external_body]
pub(crate) fn read_i16_be(buf: &[u8]) -> (v: i16)
    requires
        buf@.len() >= 2,
    ensures
        v == i16_from_be(buf@),
{
    BigEndian::read_i16(buf)
}

/// Calls `byteorder::BigEndian::read_i32`, which panics on fewer than four
/// bytes and else returns the first four bytes of `buf` read as a big-endian
/// two's complement number.
#[verifier::external_body]
pub(crate) fn read_i32_be(buf: &[u8]) -> (v: i32)
    requires
        buf@.len() >= 4,
    ensures
        v == i32_from_be(buf@),
{
    BigEndian::read_i32(buf)
}

/// Calls `byteorder::BigEndian::read_i64`, which panics on fewer than eight
/// bytes and else returns the first eight bytes of `buf` read as a
/// big-endian two's complement number.
#[verifier::external_body]
pub(crate) fn read_i64_be(buf: &[u8]) -> (v: i64)
    requires
        buf@.len() >= 8,
    ensures
        v == i64_from_be(buf@),
{
    BigEndian::read_i64(buf)
}

/// Calls `byteorder::BigEndian::write_i16` on a buffer of two bytes, which
/// it fills with the two's complement of `v`, most significant byte first.
#[verifier::external_body]
pub(crate) fn i16_be_bytes(v: i16) -> (b: [u8; 2])
    ensures
        b@ == i16_to_be(v),
{
    let mut b = [0u8; 2];
    BigEndian::write_i16(&mut b, v);
    b
}

/// Calls `byteorder::BigEndian::write_i32` on a buffer of four bytes, which
/// it fills with the two's complement of `v`, most significant byte first.
#[verifier::external_body]
pub(crate) fn i32_be_bytes(v: i32) -> (b: [u8; 4])
    ensures
        b@ == i32_to_be(v),
{
    let mut b = [0u8; 4];
    BigEndian::write_i32(&mut b, v);
    b
}

/// Calls `byteorder::BigEndian::write_i64` on a buffer of eight bytes, which
/// it fills with the two's complement of `v`, most significant byte first.
#[verifier::external_body]
pub(crate) fn i64_be_bytes(v: i64) -> (b: [u8; 8])
    ensures
        b@ == i64_to_be(v),
{
    let mut b = [0u8; 8];
    BigEndian::write_i64(&mut b, v);
    b
}

} // verus!
