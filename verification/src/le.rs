//! Integers as little-endian bytes.

use vstd::prelude::*;

verus! {

/// The four bytes of `x`, least significant first.
#[verifier::opaque]
pub open spec fn le32(x: u32) -> Seq<u8> {
    seq![
        (x % 256) as u8,
        (x / 256 % 256) as u8,
        (x / 0x1_0000 % 256) as u8,
        (x / 0x100_0000 % 256) as u8,
    ]
}

/// The number whose four bytes, least significant first, are `bytes`.
#[verifier::opaque]
pub open spec fn from_le32(bytes: Seq<u8>) -> u32 {
    (bytes[0] + 256 * bytes[1] + 0x1_0000 * bytes[2] + 0x100_0000 * bytes[3]) as u32
}

/// The eight bytes of `x`, least significant first.
pub open spec fn le64(x: u64) -> Seq<u8> {
    le32((x % 0x1_0000_0000) as u32) + le32((x / 0x1_0000_0000) as u32)
}

/// The bytes of a number read back as that number.
pub proof fn law_le32_reads_back(x: u32)
    ensures
        le32(x).len() == 4,
        from_le32(le32(x)) == x,
{
    reveal(le32);
    reveal(from_le32);
}

/// Four bytes are the bytes of the number that they read as.
pub proof fn law_le32_writes_back(bytes: Seq<u8>)
    requires
        bytes.len() == 4,
    ensures
        le32(from_le32(bytes)) == bytes,
{
    reveal(le32);
    reveal(from_le32);
    let x = from_le32(bytes) as int;
    let above = bytes[1] + 256 * bytes[2] + 0x1_0000 * bytes[3];
    assert(x == bytes[0] + 256 * above);
    assert(x % 256 == bytes[0] && x / 256 == above);
    assert(x / 0x1_0000 == bytes[2] + 256 * bytes[3]);
    assert(le32(from_le32(bytes)) =~= bytes);
}

/// The bytes of `x`, least significant first.
pub fn write_u32(x: u32) -> (bytes: Vec<u8>)
    ensures
        bytes@ == le32(x),
{
    let mut bytes: Vec<u8> = Vec::new();
    bytes.push((x % 256) as u8);
    bytes.push((x / 256 % 256) as u8);
    bytes.push((x / 0x1_0000 % 256) as u8);
    bytes.push((x / 0x100_0000 % 256) as u8);
    proof {
        reveal(le32);
    }
    assert(bytes@ =~= le32(x));
    bytes
}

/// The bytes of `x`, least significant first.
pub fn write_u64(x: u64) -> (bytes: Vec<u8>)
    ensures
        bytes@ == le64(x),
{
    let mut bytes = write_u32((x % 0x1_0000_0000) as u32);
    let mut high = write_u32((x / 0x1_0000_0000) as u32);
    bytes.append(&mut high);
    bytes
}

/// The number whose bytes stand at `at`, least significant first.
pub fn read_u32(bytes: &[u8], at: usize) -> (x: u32)
    requires
        at + 4 <= bytes@.len(),
    ensures
        x == from_le32(bytes@.subrange(at as int, at + 4)),
{
    let a: u32 = bytes[at] as u32;
    let b: u32 = bytes[at + 1] as u32;
    let c: u32 = bytes[at + 2] as u32;
    let d: u32 = bytes[at + 3] as u32;
    proof {
        reveal(from_le32);
        assert(bytes@.subrange(at as int, at + 4)[0] == bytes@[at as int]);
    }
    a + 256 * b + 0x1_0000 * c + 0x100_0000 * d
}

/// The bytes of a number stand in it with the weights of their places.
pub proof fn law_bytes_have_their_weights(x: u32, y: u64)
    ensures
        ({
            let b = le32(x);
            &&& b.len() == 4
            &&& x == b[0] + 0x100 * b[1] + 0x1_0000 * b[2] + 0x100_0000 * b[3]
        }),
        ({
            let b = le64(y);
            &&& b.len() == 8
            &&& y == b[0] + 0x100 * b[1] + 0x1_0000 * b[2] + 0x100_0000 * b[3] + 0x1_0000_0000 * (
            b[4] + 0x100 * b[5] + 0x1_0000 * b[6] + 0x100_0000 * b[7])
        }),
{
    let low = (y % 0x1_0000_0000) as u32;
    let high = (y / 0x1_0000_0000) as u32;
    lemma_weights(x);
    lemma_weights(low);
    lemma_weights(high);
    let b = le64(y);
    assert(b.subrange(0, 4) =~= le32(low));
    assert(b.subrange(4, 8) =~= le32(high));
}

proof fn lemma_weights(x: u32)
    ensures
        ({
            let b = le32(x);
            &&& b.len() == 4
            &&& x == b[0] + 0x100 * b[1] + 0x1_0000 * b[2] + 0x100_0000 * b[3]
        }),
{
    law_le32_reads_back(x);
    reveal(from_le32);
}

/// What is written is read where it was written, whatever stands around it, and
/// its first byte is the least significant one.
pub proof fn law_written_words_are_read(
    x: u32,
    written: Vec<u8>,
    y: u64,
    long: Vec<u8>,
    front: Seq<u8>,
    rest: Seq<u8>,
    bytes: &[u8],
    at: usize,
    read: u32,
)
    requires
        call_ensures(write_u32, (x,), written),
        call_ensures(write_u64, (y,), long),
        bytes@ == front + written@ + rest,
        at == front.len(),
        call_ensures(read_u32, (bytes, at), read),
    ensures
        written@.len() == 4,
        written@[0] == x % 256,
        read == x,
        long@.len() == 8,
        long@[0] == y % 256,
        from_le32(long@.subrange(0, 4)) + 0x1_0000_0000 * from_le32(long@.subrange(4, 8)) == y,
{
    law_bytes_have_their_weights(x, y);
    law_le32_reads_back(x);
    assert(bytes@.subrange(at as int, at + 4) =~= written@);
    let low = (y % 0x1_0000_0000) as u32;
    let high = (y / 0x1_0000_0000) as u32;
    law_le32_reads_back(low);
    law_le32_reads_back(high);
    assert(long@.subrange(0, 4) =~= le32(low));
    assert(long@.subrange(4, 8) =~= le32(high));
}

} // verus!
