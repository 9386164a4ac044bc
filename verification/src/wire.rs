//! Fixed-width integers as bytes: the little-endian forms that message
//! payloads use and the big-endian form of a frame's length prefix.

use vstd::prelude::*;

verus! {

/// The four bytes of `n`, least significant first.
pub open spec fn u32_le(n: u32) -> Seq<u8> {
    seq![
        (n % 0x100) as u8,
        (n / 0x100 % 0x100) as u8,
        (n / 0x1_0000 % 0x100) as u8,
        (n / 0x100_0000 % 0x100) as u8,
    ]
}

/// The four bytes of `n`, most significant first.
pub open spec fn u32_be(n: u32) -> Seq<u8> {
    seq![
        (n / 0x100_0000 % 0x100) as u8,
        (n / 0x1_0000 % 0x100) as u8,
        (n / 0x100 % 0x100) as u8,
        (n % 0x100) as u8,
    ]
}

/// The eight bytes of `n`, least significant first.
pub open spec fn u64_le(n: u64) -> Seq<u8> {
    seq![
        (n % 0x100) as u8,
        (n / 0x100 % 0x100) as u8,
        (n / 0x1_0000 % 0x100) as u8,
        (n / 0x100_0000 % 0x100) as u8,
        (n / 0x1_0000_0000 % 0x100) as u8,
        (n / 0x100_0000_0000 % 0x100) as u8,
        (n / 0x1_0000_0000_0000 % 0x100) as u8,
        (n / 0x100_0000_0000_0000 % 0x100) as u8,
    ]
}

/// The number that the first four bytes of `bytes` stand for, least
/// significant byte first.
pub open spec fn u32_from_le(bytes: Seq<u8>) -> int
    recommends
        bytes.len() >= 4,
{
    bytes[0] + bytes[1] * 0x100 + bytes[2] * 0x1_0000 + bytes[3] * 0x100_0000
}

/// The number that the first four bytes of `bytes` stand for, most
/// significant byte first.
pub open spec fn u32_from_be(bytes: Seq<u8>) -> int
    recommends
        bytes.len() >= 4,
{
    bytes[0] * 0x100_0000 + bytes[1] * 0x1_0000 + bytes[2] * 0x100 + bytes[3]
}

/// The number that the first eight bytes of `bytes` stand for, least
/// significant byte first.
pub open spec fn u64_from_le(bytes: Seq<u8>) -> int
    recommends
        bytes.len() >= 8,
{
    bytes[0] + bytes[1] * 0x100 + bytes[2] * 0x1_0000 + bytes[3] * 0x100_0000 + bytes[4]
        * 0x1_0000_0000 + bytes[5] * 0x100_0000_0000 + bytes[6] * 0x1_0000_0000_0000 + bytes[7]
        * 0x100_0000_0000_0000
}

/// Reading back the little-endian bytes of a `u32` gives the number.
pub proof fn lemma_u32_le_round_trip(n: u32)
    ensures
        u32_le(n).len() == 4,
        u32_from_le(u32_le(n)) == n,
{
}

/// Reading back the big-endian bytes of a `u32` gives the number.
pub proof fn lemma_u32_be_round_trip(n: u32)
    ensures
        u32_be(n).len() == 4,
        u32_from_be(u32_be(n)) == n,
{
}

/// Reading back the little-endian bytes of a `u64` gives the number.
pub proof fn lemma_u64_le_round_trip(n: u64)
    ensures
        u64_le(n).len() == 8,
        u64_from_le(u64_le(n)) == n,
{
    let q1 = n / 0x100;
    let q2 = q1 / 0x100;
    let q3 = q2 / 0x100;
    let q4 = q3 / 0x100;
    let q5 = q4 / 0x100;
    let q6 = q5 / 0x100;
    let q7 = q6 / 0x100;
    assert(q2 == n / 0x1_0000);
    assert(q3 == n / 0x100_0000);
    assert(q4 == n / 0x1_0000_0000);
    assert(q5 == n / 0x100_0000_0000);
    assert(q6 == n / 0x1_0000_0000_0000);
    assert(q7 == n / 0x100_0000_0000_0000);
    assert(q7 < 0x100);
    assert(q6 == q6 % 0x100 + q7 * 0x100);
    assert(q5 == q5 % 0x100 + q6 * 0x100);
    assert(q4 == q4 % 0x100 + q5 * 0x100);
    assert(q3 == q3 % 0x100 + q4 * 0x100);
    assert(q2 == q2 % 0x100 + q3 * 0x100);
    assert(q1 == q1 % 0x100 + q2 * 0x100);
    assert(n == n % 0x100 + q1 * 0x100);
}

} // verus!
