//! Numbers as bytes in network byte order: most significant byte first.

use vstd::prelude::*;

verus! {

/// The eight bytes of `n`, most significant first.
pub open spec fn be64(n: u64) -> Seq<u8> {
    seq![
        (n >> 56) as u8,
        ((n >> 48) & 0xff) as u8,
        ((n >> 40) & 0xff) as u8,
        ((n >> 32) & 0xff) as u8,
        ((n >> 24) & 0xff) as u8,
        ((n >> 16) & 0xff) as u8,
        ((n >> 8) & 0xff) as u8,
        (n & 0xff) as u8,
    ]
}

/// The number whose bytes, most significant first, are the first eight of
/// `bytes`.
pub open spec fn from_be64(bytes: Seq<u8>) -> u64 {
    (bytes[0] as u64) << 56 | (bytes[1] as u64) << 48 | (bytes[2] as u64) << 40 | (bytes[3] as u64)
        << 32 | (bytes[4] as u64) << 24 | (bytes[5] as u64) << 16 | (bytes[6] as u64) << 8 | (
    bytes[7] as u64)
}

/// Every 64-bit size survives being written and read back: no bit is lost.
pub proof fn lemma_be64_round_trip(n: u64)
    ensures
        be64(n).len() == 8,
        from_be64(be64(n)) == n,
{
    let b = be64(n);
    assert(from_be64(b) == n) by {
        assert(n == ((n >> 56) as u8 as u64) << 56 | (((n >> 48) & 0xff) as u8 as u64) << 48 | (((n
            >> 40) & 0xff) as u8 as u64) << 40 | (((n >> 32) & 0xff) as u8 as u64) << 32 | (((n
            >> 24) & 0xff) as u8 as u64) << 24 | (((n >> 16) & 0xff) as u8 as u64) << 16 | (((n
            >> 8) & 0xff) as u8 as u64) << 8 | ((n & 0xff) as u8 as u64)) by (bit_vector);
    }
}

/// Eight bytes are the encoding of the number they decode to.
pub proof fn lemma_from_be64_round_trip(bytes: Seq<u8>)
    requires
        bytes.len() == 8,
    ensures
        be64(from_be64(bytes)) == bytes,
{
    let b0 = bytes[0];
    let b1 = bytes[1];
    let b2 = bytes[2];
    let b3 = bytes[3];
    let b4 = bytes[4];
    let b5 = bytes[5];
    let b6 = bytes[6];
    let b7 = bytes[7];
    let n = from_be64(bytes);
    assert(n == (b0 as u64) << 56 | (b1 as u64) << 48 | (b2 as u64) << 40 | (b3 as u64) << 32 | (
    b4 as u64) << 24 | (b5 as u64) << 16 | (b6 as u64) << 8 | (b7 as u64));
    assert({
        &&& (n >> 56) as u8 == b0
        &&& ((n >> 48) & 0xff) as u8 == b1
        &&& ((n >> 40) & 0xff) as u8 == b2
        &&& ((n >> 32) & 0xff) as u8 == b3
        &&& ((n >> 24) & 0xff) as u8 == b4
        &&& ((n >> 16) & 0xff) as u8 == b5
        &&& ((n >> 8) & 0xff) as u8 == b6
        &&& (n & 0xff) as u8 == b7
    }) by (bit_vector)
        requires
            n == (b0 as u64) << 56 | (b1 as u64) << 48 | (b2 as u64) << 40 | (b3 as u64) << 32 | (
            b4 as u64) << 24 | (b5 as u64) << 16 | (b6 as u64) << 8 | (b7 as u64),
    ;
    assert(be64(n) =~= bytes);
}

/// The eight bytes of `n`, most significant first.
pub fn u64_to_be_bytes(n: u64) -> (bytes: [u8; 8])
    ensures
        bytes@ == be64(n),
{
    let bytes: [u8; 8] = [
        (n >> 56) as u8,
        ((n >> 48) & 0xff) as u8,
        ((n >> 40) & 0xff) as u8,
        ((n >> 32) & 0xff) as u8,
        ((n >> 24) & 0xff) as u8,
        ((n >> 16) & 0xff) as u8,
        ((n >> 8) & 0xff) as u8,
        (n & 0xff) as u8,
    ];
    assert(bytes@ =~= be64(n));
    bytes
}

/// The number that eight bytes, most significant first, stand for.
pub fn u64_from_be_bytes(bytes: &[u8; 8]) -> (n: u64)
    ensures
        n == from_be64(bytes@),
{
    (bytes[0] as u64) << 56 | (bytes[1] as u64) << 48 | (bytes[2] as u64) << 40 | (bytes[3] as u64)
        << 32 | (bytes[4] as u64) << 24 | (bytes[5] as u64) << 16 | (bytes[6] as u64) << 8 | (
    bytes[7] as u64)
}

} // verus!
