//! Big-endian integers on the wire.
use vstd::prelude::*;

verus! {

/// The two-byte big-endian value at `at`.
pub open spec fn be16_at(s: Seq<u8>, at: int) -> int {
    s[at] * 256 + s[at + 1]
}

/// The four-byte big-endian value at `at`.
pub open spec fn be32_at(s: Seq<u8>, at: int) -> int {
    be16_at(s, at) * 65536 + be16_at(s, at + 2)
}

pub fn be16(s: &[u8], at: usize) -> (v: u16)
    requires
        at + 2 <= s.len(),
    ensures
        v == be16_at(s@, at as int),
{
    s[at] as u16 * 256 + s[at + 1] as u16
}

pub fn be32(s: &[u8], at: usize) -> (v: u32)
    requires
        at + 4 <= s.len(),
    ensures
        v == be32_at(s@, at as int),
{
    be16(s, at) as u32 * 65536 + be16(s, at + 2) as u32
}

/// The four-byte big-endian encoding of a value below 2^32.
pub open spec fn be32_bytes(v: int) -> Seq<u8> {
    seq![
        (v / 0x100_0000 % 256) as u8,
        (v / 0x1_0000 % 256) as u8,
        (v / 0x100 % 256) as u8,
        (v % 256) as u8,
    ]
}

/// Reading a four-byte value back gives what was written.
pub proof fn lemma_be32_round_trip(v: int, tail: Seq<u8>)
    requires
        0 <= v < 0x1_0000_0000,
    ensures
        be32_at(be32_bytes(v) + tail, 0) == v,
{
}

/// Two and four bytes are a number, most significant byte first.
pub proof fn lemma_what_bytes_weigh(s: &[u8], at: usize, v: u16, w: u32)
    ensures
        call_ensures(be16, (s, at), v) && at + 2 <= s@.len() ==> v == 256 * s@[at as int] + s@[at
            + 1],
        call_ensures(be32, (s, at), w) && at + 4 <= s@.len() ==> w == 0x100_0000 * s@[at as int]
            + 0x1_0000 * s@[at + 1] + 256 * s@[at + 2] + s@[at + 3],
{
}

} // verus!
