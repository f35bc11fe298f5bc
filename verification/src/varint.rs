//! Variable-length integers: seven bits to a byte, least significant group
//! first, with the top bit of every byte but the last one set.

use vstd::prelude::*;

verus! {

/// A 32-bit value takes at most this many bytes.
pub const MAX_VARINT_BYTES: u32 = 5;

/// The encoding of `v`.
pub open spec fn encoded(v: nat) -> Seq<u8>
    decreases v,
{
    if v < 128 {
        seq![v as u8]
    } else {
        seq![(128 + v % 128) as u8] + encoded(v / 128)
    }
}

/// The value and the length of the integer of at most `max` bytes that `s`
/// starts with, if it starts with one.
pub open spec fn decoded_within(s: Seq<u8>, max: nat) -> Option<(nat, nat)>
    decreases max,
{
    if max == 0 || s.len() == 0 {
        None
    } else if s[0] < 128 {
        Some((s[0] as nat, 1))
    } else {
        match decoded_within(s.skip(1), (max - 1) as nat) {
            Some((v, n)) => Some(((s[0] - 128) as nat + 128 * v, n + 1)),
            None => None,
        }
    }
}

/// The 32-bit value and the length of the integer that `s` starts with, if it
/// starts with one. Bits beyond the low 32 are dropped.
pub open spec fn decoded(s: Seq<u8>) -> Option<(u32, nat)> {
    match decoded_within(s, MAX_VARINT_BYTES as nat) {
        Some((v, n)) => Some(((v % 0x1_0000_0000) as u32, n)),
        None => None,
    }
}

/// Whether `s` starts with five bytes that all ask for another one.
pub open spec fn too_long(s: Seq<u8>) -> bool {
    s.len() >= MAX_VARINT_BYTES && forall|i: int|
        0 <= i < MAX_VARINT_BYTES ==> #[trigger] s[i] >= 128
}

/// One more than the largest value that `max` bytes hold.
pub open spec fn capacity(max: nat) -> nat
    decreases max,
{
    if max == 0 {
        1
    } else {
        128 * capacity((max - 1) as nat)
    }
}

/// The signed number with the bits of `v`.
pub open spec fn as_signed(v: u32) -> int {
    if v < 0x8000_0000 {
        v as int
    } else {
        v - 0x1_0000_0000
    }
}

/// The unsigned number with the bits of `i`.
pub open spec fn as_unsigned(i: i32) -> nat {
    if i >= 0 {
        i as nat
    } else {
        (i + 0x1_0000_0000) as nat
    }
}

pub fn to_signed(v: u32) -> (i: i32)
    ensures
        i == as_signed(v),
{
    if v < 0x8000_0000 {
        v as i32
    } else {
        (v as i64 - 0x1_0000_0000) as i32
    }
}

pub fn to_unsigned(i: i32) -> (v: u32)
    ensures
        v == as_unsigned(i),
{
    if i >= 0 {
        i as u32
    } else {
        (i as i64 + 0x1_0000_0000) as u32
    }
}

/// Appends the encoding of `v`.
pub fn push_varint(out: &mut Vec<u8>, v: u32)
    ensures
        final(out)@ == old(out)@ + encoded(v as nat),
{
    let mut rest: u32 = v;
    while rest >= 128
        invariant
            out@ + encoded(rest as nat) == old(out)@ + encoded(v as nat),
        decreases rest,
    {
        let ghost before = out@;
        out.push((128 + rest % 128) as u8);
        assert(out@ + encoded((rest / 128) as nat) =~= before + encoded(rest as nat));
        rest = rest / 128;
    }
    out.push(rest as u8);
    assert(out@ =~= old(out)@ + encoded(v as nat));
}

/// Reads an integer of at most `max` bytes from `data` at `start`.
fn decode_within(data: &[u8], start: usize, max: u32) -> (found: Option<(u64, usize)>)
    requires
        start <= data@.len(),
        max <= MAX_VARINT_BYTES,
    ensures
        match found {
            Some((v, n)) => {
                &&& decoded_within(data@.skip(start as int), max as nat) == Some(
                    (v as nat, n as nat),
                )
                &&& v < capacity(max as nat)
                &&& 1 <= n <= max
                &&& start + n <= data@.len()
            },
            None => decoded_within(data@.skip(start as int), max as nat) is None,
        },
    decreases max,
{
    reveal_with_fuel(capacity, 6);
    if max == 0 || start >= data.len() {
        return None;
    }
    let byte = data[start];
    if byte < 128 {
        return Some((byte as u64, 1));
    }
    assert(data@.skip(start as int).skip(1) =~= data@.skip(start + 1));
    match decode_within(data, start + 1, max - 1) {
        Some((v, n)) => Some((byte as u64 - 128 + 128 * v, n + 1)),
        None => None,
    }
}

/// Reads the integer that stands in `data` at `start`, and its length.
pub fn decode_at(data: &[u8], start: usize) -> (found: Option<(u32, usize)>)
    requires
        start <= data@.len(),
    ensures
        match found {
            Some((v, n)) => {
                &&& decoded(data@.skip(start as int)) == Some((v, n as nat))
                &&& 1 <= n <= MAX_VARINT_BYTES
                &&& start + n <= data@.len()
            },
            None => decoded(data@.skip(start as int)) is None,
        },
{
    match decode_within(data, start, MAX_VARINT_BYTES) {
        Some((v, n)) => Some(((v % 0x1_0000_0000) as u32, n)),
        None => None,
    }
}

proof fn lemma_roundtrip_within(v: nat, rest: Seq<u8>, max: nat)
    requires
        v < capacity(max),
        max > 0,
    ensures
        decoded_within(encoded(v) + rest, max) == Some((v, encoded(v).len())),
        1 <= encoded(v).len() <= max,
    decreases max,
{
    if v >= 128 {
        if max == 1 {
            reveal_with_fuel(capacity, 2);
        }
        lemma_roundtrip_within(v / 128, rest, (max - 1) as nat);
        assert((encoded(v) + rest).skip(1) =~= encoded(v / 128) + rest);
    }
}

/// The encoding of a 32-bit value takes one to five bytes.
pub proof fn encoded_len_bounds(v: u32)
    ensures
        1 <= encoded(v as nat).len() <= MAX_VARINT_BYTES,
{
    reveal_with_fuel(capacity, 6);
    lemma_roundtrip_within(v as nat, Seq::empty(), 5);
}

/// What is written is read back, whatever follows it.
pub proof fn encoded_decodes_back(v: u32, rest: Seq<u8>)
    ensures
        decoded(encoded(v as nat) + rest) == Some((v, encoded(v as nat).len())),
{
    reveal_with_fuel(capacity, 6);
    lemma_roundtrip_within(v as nat, rest, 5);
}

/// The signed and the unsigned reading of the same bits undo each other.
pub proof fn signed_unsigned_roundtrip(i: i32, v: u32)
    ensures
        as_signed(as_unsigned(i) as u32) == i,
        as_unsigned(as_signed(v) as i32) == v,
{
}

proof fn lemma_none_within(s: Seq<u8>, max: nat)
    ensures
        decoded_within(s, max) is None <==> forall|i: int|
            0 <= i < max && i < s.len() ==> #[trigger] s[i] >= 128,
        decoded_within(s, max) matches Some((v, n)) ==> 1 <= n <= max && n <= s.len(),
    decreases max,
{
    if max > 0 && s.len() > 0 && s[0] >= 128 {
        let rest = s.skip(1);
        lemma_none_within(rest, (max - 1) as nat);
        if decoded_within(rest, (max - 1) as nat) is None {
            assert forall|i: int| 0 <= i < max && i < s.len() implies #[trigger] s[i] >= 128 by {
                if i > 0 {
                    assert(rest[i - 1] == s[i]);
                }
            }
        } else {
            let k = choose|k: int|
                0 <= k < max - 1 && k < rest.len() && !(#[trigger] rest[k] >= 128);
            assert(s[k + 1] == rest[k]);
        }
    }
}

/// Nothing is read exactly where all of the first five bytes, or all there
/// are, ask for another one.
pub proof fn decoded_none_iff(s: Seq<u8>)
    ensures
        decoded(s) is None <==> forall|i: int|
            0 <= i < MAX_VARINT_BYTES && i < s.len() ==> #[trigger] s[i] >= 128,
        decoded(s) matches Some((v, n)) ==> 1 <= n <= MAX_VARINT_BYTES && n <= s.len(),
        too_long(s) ==> decoded(s) is None,
{
    lemma_none_within(s, MAX_VARINT_BYTES as nat);
}

/// Where only the last byte ends an integer, the integer takes all bytes.
pub proof fn decoded_ends_at_small_byte(s: Seq<u8>)
    requires
        0 < s.len() <= MAX_VARINT_BYTES,
        forall|i: int| 0 <= i < s.len() - 1 ==> #[trigger] s[i] >= 128,
    ensures
        s.last() < 128 ==> (decoded(s) matches Some((v, n)) && n == s.len()),
{
    lemma_ends_within(s, MAX_VARINT_BYTES as nat);
}

proof fn lemma_ends_within(s: Seq<u8>, max: nat)
    requires
        0 < s.len() <= max,
        forall|i: int| 0 <= i < s.len() - 1 ==> #[trigger] s[i] >= 128,
    ensures
        s.last() < 128 ==> (decoded_within(s, max) matches Some((v, n)) && n == s.len()),
    decreases s.len(),
{
    if s.len() > 1 {
        assert(s[0] >= 128);
        let rest = s.skip(1);
        assert forall|i: int| 0 <= i < rest.len() - 1 implies #[trigger] rest[i] >= 128 by {
            assert(rest[i] == s[i + 1]);
        }
        lemma_ends_within(rest, (max - 1) as nat);
    }
}

/// Every byte of an encoding but the last one asks for another one, so that
/// nothing is read before all of them are there.
pub proof fn proper_prefix_is_unfinished(v: u32, k: int)
    requires
        0 <= k < encoded(v as nat).len(),
    ensures
        decoded(encoded(v as nat).take(k)) is None,
        forall|i: int| 0 <= i < k ==> #[trigger] encoded(v as nat)[i] >= 128,
{
    encoded_len_bounds(v);
    lemma_leading_bytes(v as nat, k);
    let part = encoded(v as nat).take(k);
    assert forall|i: int| 0 <= i < MAX_VARINT_BYTES && i < part.len() implies #[trigger] part[i]
        >= 128 by {
        assert(part[i] == encoded(v as nat)[i]);
    }
    decoded_none_iff(part);
}

proof fn lemma_leading_bytes(v: nat, k: int)
    requires
        0 <= k < encoded(v).len(),
    ensures
        forall|i: int| 0 <= i < k ==> #[trigger] encoded(v)[i] >= 128,
    decreases v,
{
    if v >= 128 && k > 0 {
        lemma_leading_bytes(v / 128, k - 1);
        assert forall|i: int| 0 <= i < k implies #[trigger] encoded(v)[i] >= 128 by {
            if i > 0 {
                assert(encoded(v)[i] == encoded(v / 128)[i - 1]);
            }
        }
    }
}

/// The number that groups of seven bits stand for, the lowest group first.
pub open spec fn groups_value(s: Seq<u8>) -> nat
    decreases s.len(),
{
    if s.len() == 0 {
        0
    } else {
        s[0] as nat % 128 + 128 * groups_value(s.skip(1))
    }
}

/// An encoding is the groups of seven bits of its value, the lowest one first,
/// with the high bit set in all but the last; and there is no group too many.
pub proof fn encoding_is_groups_of_seven_bits(v: nat)
    ensures
        groups_value(encoded(v)) == v,
        encoded(v).len() >= 1,
        encoded(v).last() < 128,
        forall|i: int| 0 <= i < encoded(v).len() - 1 ==> #[trigger] encoded(v)[i] >= 128,
        encoded(v).len() > 1 ==> encoded(v).last() != 0,
    decreases v,
{
    if v >= 128 {
        encoding_is_groups_of_seven_bits(v / 128);
        assert(encoded(v).skip(1) =~= encoded(v / 128));
        assert(encoded(v).last() == encoded(v / 128).last());
        assert forall|i: int| 0 <= i < encoded(v).len() - 1 implies #[trigger] encoded(v)[i]
            >= 128 by {
            if i > 0 {
                assert(encoded(v)[i] == encoded(v / 128)[i - 1]);
            }
        }
    } else {
        assert(encoded(v).skip(1) =~= Seq::empty());
        assert(groups_value(Seq::empty()) == 0);
    }
}

proof fn lemma_decoded_groups(s: Seq<u8>, max: nat)
    ensures
        decoded_within(s, max) matches Some((v, n)) ==> {
            &&& 1 <= n <= max
            &&& n <= s.len()
            &&& v == groups_value(s.take(n as int))
            &&& s[n - 1] < 128
            &&& forall|i: int| 0 <= i < n - 1 ==> #[trigger] s[i] >= 128
        },
    decreases max,
{
    if max > 0 && s.len() > 0 {
        if s[0] < 128 {
            assert(s.take(1).skip(1) =~= Seq::empty());
            assert(groups_value(Seq::empty()) == 0);
        } else {
            lemma_decoded_groups(s.skip(1), (max - 1) as nat);
            if let Some((v, n)) = decoded_within(s.skip(1), (max - 1) as nat) {
                assert(s.take(n as int + 1).skip(1) =~= s.skip(1).take(n as int));
                assert forall|i: int| 0 <= i < n implies #[trigger] s[i] >= 128 by {
                    if i > 0 {
                        assert(s[i] == s.skip(1)[i - 1]);
                    }
                }
            }
        }
    }
}

/// What is read is the value of the groups up to the first byte without the
/// high bit, at most five of them; of a larger value the low 32 bits.
pub proof fn decoding_takes_the_leading_groups(s: Seq<u8>)
    ensures
        decoded(s) matches Some((v, n)) ==> {
            &&& 1 <= n <= 5
            &&& n <= s.len()
            &&& v == groups_value(s.take(n as int)) % 0x1_0000_0000
            &&& s[n - 1] < 128
            &&& forall|i: int| 0 <= i < n - 1 ==> #[trigger] s[i] >= 128
        },
        (exists|k: int| 0 <= k < 5 && k < s.len() && #[trigger] s[k] < 128) ==> decoded(s) is Some,
{
    lemma_decoded_groups(s, MAX_VARINT_BYTES as nat);
    decoded_none_iff(s);
}

} // verus!
