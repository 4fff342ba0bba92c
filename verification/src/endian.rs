use byteorder::{BigEndian, ByteOrder};
use vstd::arithmetic::power::pow;
use vstd::prelude::*;

verus! {

/// The number that `bytes` spell when the first byte is the most significant.
pub open spec fn be_value(bytes: Seq<u8>) -> nat
    decreases bytes.len(),
{
    if bytes.len() == 0 {
        0
    } else {
        be_value(bytes.drop_last()) * 256 + bytes.last() as nat
    }
}

/// The `n` bytes that spell `v` with the most significant byte first.
pub open spec fn be_bytes(v: nat, n: nat) -> Seq<u8>
    decreases n,
{
    if n == 0 {
        Seq::empty()
    } else {
        be_bytes(v / 256, (n - 1) as nat).push((v % 256) as u8)
    }
}

/// A number that `n` bytes can hold is read back from its `n` bytes.
pub proof fn lemma_be_round_trip(v: nat, n: nat)
    requires
        v < pow(256, n),
    ensures
        be_bytes(v, n).len() == n,
        be_value(be_bytes(v, n)) == v,
    decreases n,
{
    reveal(pow);
    if n > 0 {
        let rest = (n - 1) as nat;
        assert(v / 256 < pow(256, rest)) by {
            assert(pow(256, n) == 256 * pow(256, rest));
        }
        lemma_be_round_trip(v / 256, rest);
        assert(be_bytes(v, n).drop_last() =~= be_bytes(v / 256, rest));
    }
}

/// Three bytes hold the numbers below 2^24, four those below 2^32, eight
/// those below 2^64.
pub proof fn lemma_widths()
    ensures
        pow(256, 3) == 0x100_0000,
        pow(256, 4) == 0x1_0000_0000,
        pow(256, 8) == 0x1_0000_0000_0000_0000,
{
    reveal_with_fuel(pow, 9);
}

/// `byteorder::BigEndian::read_u24`: the first three bytes of `buf` as a
/// big-endian number. The outside function panics on a shorter buffer.
#[verifier::external_body]
pub(crate) fn be_u24(buf: &[u8]) -> (v: u32)
    requires
        buf@.len() >= 3,
    ensures
        v == be_value(buf@.subrange(0, 3)),
{
    BigEndian::read_u24(buf)
}

/// `byteorder::BigEndian::read_u32`: the first four bytes of `buf` as a
/// big-endian number. The outside function panics on a shorter buffer.
#[verifier::external_body]
pub(crate) fn be_u32(buf: &[u8]) -> (v: u32)
    requires
        buf@.len() >= 4,
    ensures
        v == be_value(buf@.subrange(0, 4)),
{
    BigEndian::read_u32(buf)
}

/// `byteorder::BigEndian::read_u64`: the first eight bytes of `buf` as a
/// big-endian number. The outside function panics on a shorter buffer.
#[verifier::external_body]
pub(crate) fn be_u64(buf: &[u8]) -> (v: u64)
    requires
        buf@.len() >= 8,
    ensures
        v == be_value(buf@.subrange(0, 8)),
{
    BigEndian::read_u64(buf)
}

} // verus!
