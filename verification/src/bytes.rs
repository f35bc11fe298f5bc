//! Fixed-width integers as bytes.

use vstd::prelude::*;

verus! {

/// The two bytes of `v`, most significant first.
pub open spec fn u16_be(v: u16) -> Seq<u8> {
    seq![(v / 256) as u8, (v % 256) as u8]
}

/// The eight bytes of the two's complement of `v`, most significant first.
pub open spec fn i64_be(v: i64) -> Seq<u8> {
    let w = if v >= 0 {
        v as u64
    } else {
        (v + 0x1_0000_0000_0000_0000) as u64
    };
    seq![
        (w / 0x100_0000_0000_0000) as u8,
        (w / 0x1_0000_0000_0000 % 256) as u8,
        (w / 0x100_0000_0000 % 256) as u8,
        (w / 0x1_0000_0000 % 256) as u8,
        (w / 0x100_0000 % 256) as u8,
        (w / 0x1_0000 % 256) as u8,
        (w / 0x100 % 256) as u8,
        (w % 256) as u8,
    ]
}

/// The three low bytes of `v`, least significant first.
pub open spec fn low_three_le(v: u32) -> Seq<u8> {
    seq![(v % 256) as u8, (v / 256 % 256) as u8, (v / 65536 % 256) as u8]
}

/// The number in the two bytes at `i`, most significant first.
pub open spec fn be16_at(s: Seq<u8>, i: int) -> nat {
    (s[i] * 256 + s[i + 1]) as nat
}

/// The number in the four bytes at `i`, most significant first.
pub open spec fn be32_at(s: Seq<u8>, i: int) -> nat {
    (s[i] * 0x100_0000 + s[i + 1] * 0x1_0000 + s[i + 2] * 0x100 + s[i + 3]) as nat
}

/// The number in the three bytes at `i`, least significant first.
pub open spec fn le24_at(s: Seq<u8>, i: int) -> nat {
    (s[i] + s[i + 1] * 0x100 + s[i + 2] * 0x1_0000) as nat
}

/// Appends a slice.
pub fn push_bytes(out: &mut Vec<u8>, bytes: &[u8])
    ensures
        final(out)@ == old(out)@ + bytes@,
{
    out.extend_from_slice(bytes);
    assert(out@ =~= old(out)@ + bytes@);
}

/// Appends the two bytes of `v`, most significant first.
pub fn push_u16_be(out: &mut Vec<u8>, v: u16)
    ensures
        final(out)@ == old(out)@ + u16_be(v),
{
    out.push((v / 256) as u8);
    out.push((v % 256) as u8);
    assert(out@ =~= old(out)@ + u16_be(v));
}

/// Appends the eight bytes of `v`, most significant first.
pub fn push_i64_be(out: &mut Vec<u8>, v: i64)
    ensures
        final(out)@ == old(out)@ + i64_be(v),
{
    let w: u64 = if v >= 0 {
        v as u64
    } else {
        (v as i128 + 0x1_0000_0000_0000_0000) as u64
    };
    out.push((w / 0x100_0000_0000_0000) as u8);
    out.push((w / 0x1_0000_0000_0000 % 256) as u8);
    out.push((w / 0x100_0000_0000 % 256) as u8);
    out.push((w / 0x1_0000_0000 % 256) as u8);
    out.push((w / 0x100_0000 % 256) as u8);
    out.push((w / 0x1_0000 % 256) as u8);
    out.push((w / 0x100 % 256) as u8);
    out.push((w % 256) as u8);
    assert(out@ =~= old(out)@ + i64_be(v));
}

/// Appends the three low bytes of `v`, least significant first.
pub fn push_low_three_le(out: &mut Vec<u8>, v: u32)
    ensures
        final(out)@ == old(out)@ + low_three_le(v),
{
    out.push((v % 256) as u8);
    out.push((v / 256 % 256) as u8);
    out.push((v / 65536 % 256) as u8);
    assert(out@ =~= old(out)@ + low_three_le(v));
}

/// Reads the two bytes at `i`, most significant first.
pub fn read_u16_be(data: &[u8], i: usize) -> (v: u16)
    requires
        i + 2 <= data@.len(),
    ensures
        v == be16_at(data@, i as int),
{
    data[i] as u16 * 256 + data[i + 1] as u16
}

/// Reads the four bytes at `i`, most significant first.
pub fn read_u32_be(data: &[u8], i: usize) -> (v: u32)
    requires
        i + 4 <= data@.len(),
    ensures
        v == be32_at(data@, i as int),
{
    data[i] as u32 * 0x100_0000 + data[i + 1] as u32 * 0x1_0000 + data[i + 2] as u32 * 0x100
        + data[i + 3] as u32
}

/// Reads the three bytes at `i`, least significant first.
pub fn read_u24_le(data: &[u8], i: usize) -> (v: u32)
    requires
        i + 3 <= data@.len(),
    ensures
        v == le24_at(data@, i as int),
{
    data[i] as u32 + data[i + 1] as u32 * 0x100 + data[i + 2] as u32 * 0x1_0000
}

/// The two bytes of a number read back as the number.
pub proof fn u16_be_reads_back(v: u16)
    ensures
        u16_be(v).len() == 2,
        be16_at(u16_be(v), 0) == v,
{
}

/// The three low bytes of a number below 2^24 read back as the number.
pub proof fn low_three_le_reads_back(v: u32)
    requires
        v < 0x100_0000,
    ensures
        low_three_le(v).len() == 3,
        le24_at(low_three_le(v), 0) == v,
{
}

/// The signed number in the eight bytes at `i`: two's complement, most
/// significant byte first.
pub open spec fn signed_be64_at(s: Seq<u8>, i: int) -> int {
    let n = s[i] * 0x100_0000_0000_0000 + s[i + 1] * 0x1_0000_0000_0000 + s[i + 2]
        * 0x100_0000_0000 + s[i + 3] * 0x1_0000_0000 + s[i + 4] * 0x100_0000 + s[i + 5] * 0x1_0000
        + s[i + 6] * 0x100 + s[i + 7];
    if n < 0x8000_0000_0000_0000 {
        n
    } else {
        n - 0x1_0000_0000_0000_0000
    }
}

/// A signed number that is written as eight bytes is read back.
#[verifier::rlimit(40)]
pub proof fn i64_be_reads_back(v: i64)
    ensures
        i64_be(v).len() == 8,
        signed_be64_at(i64_be(v), 0) == v,
{
    let w = if v >= 0 {
        v as u64
    } else {
        (v + 0x1_0000_0000_0000_0000) as u64
    };
    let q1 = w / 256;
    let q2 = q1 / 256;
    let q3 = q2 / 256;
    let q4 = q3 / 256;
    let q5 = q4 / 256;
    let q6 = q5 / 256;
    let q7 = q6 / 256;
    assert(w / 0x100 == q1);
    assert(w / 0x1_0000 == q2);
    assert(w / 0x100_0000 == q3);
    assert(w / 0x1_0000_0000 == q4);
    assert(w / 0x100_0000_0000 == q5);
    assert(w / 0x1_0000_0000_0000 == q6);
    assert(w / 0x100_0000_0000_0000 == q7);
    assert(q7 < 256);
    let s = i64_be(v);
    assert(s[0] == q7 && s[1] == q6 % 256 && s[2] == q5 % 256 && s[3] == q4 % 256 && s[4] == q3
        % 256 && s[5] == q2 % 256 && s[6] == q1 % 256 && s[7] == w % 256);
    assert(q6 == 256 * q7 + q6 % 256);
    assert(q5 == 256 * q6 + q5 % 256);
    assert(q4 == 256 * q5 + q4 % 256);
    assert(q3 == 256 * q4 + q3 % 256);
    assert(q2 == 256 * q3 + q2 % 256);
    assert(q1 == 256 * q2 + q1 % 256);
    assert(w == 256 * q1 + w % 256);
}

} // verus!
