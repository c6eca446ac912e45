use vstd::prelude::*;

use crate::bytes::{push_be32, u32_be};
use crate::checksum::{crc32_chain, crc32_with_seed};

verus! {

/// Size of one uncompressed chunk window.
pub const WINDOW_SIZE: usize = 0x10000;

/// Serialized size of the first fixed magic block.
pub const PART1_LEN: usize = 72;

/// Serialized size of the second fixed magic block.
pub const PART2_LEN: usize = 60;

/// Serialized size of the configuration header.
pub const CFG_HEADER_LEN: usize = 60;

/// Serialized size of one chunk header.
pub const CHUNK_HEADER_LEN: usize = 12;

/// Bytes of the container before the device-model bytes and the chunk data:
/// both magic blocks, the size field, the length prefix, and the cfg header.
pub const FIXED_OVERHEAD: usize = 200;

/// The container's size field holds the total size minus this constant.
pub const SIZE_BIAS: u32 = 128;

/// Smallest possible complete deflate stream for one byte at maximum level.
pub const MIN_DEFLATE_LEN: usize = 9;

/// Big-endian serialization of a sequence of 32-bit words.
pub open spec fn words_be(ws: Seq<u32>) -> Seq<u8>
    decreases ws.len(),
{
    if ws.len() == 0 {
        Seq::empty()
    } else {
        words_be(ws.drop_last()) + u32_be(ws.last())
    }
}

pub proof fn lemma_words_be_len(ws: Seq<u32>)
    ensures
        words_be(ws).len() == 4 * ws.len(),
    decreases ws.len(),
{
    if ws.len() > 0 {
        lemma_words_be_len(ws.drop_last());
    }
}

/// The constant words of the first fixed magic block.
pub open spec fn part1_words() -> Seq<u32> {
    seq![
        0x99999999u32,
        0x44444444u32,
        0x55555555u32,
        0xAAAAAAAAu32,
        0u32,
        0u32,
        0x04000000u32,
        0u32,
        0u32,
        0u32,
        0u32,
        0u32,
        0u32,
        0u32,
        0u32,
        0x40000000u32,
        0x02000000u32,
        0x80000000u32,
    ]
}

/// The 72 constant bytes of the first fixed magic block.
pub open spec fn part1_bytes() -> Seq<u8> {
    words_be(part1_words())
}

/// The constant words of the second fixed magic block.
pub open spec fn part2_words() -> Seq<u32> {
    seq![
        0u32,
        0u32,
        0u32,
        0u32,
        0u32,
        0u32,
        0u32,
        0u32,
        0u32,
        0u32,
        0u32,
        0u32,
        0u32,
        0x04030201u32,
        0u32,
    ]
}

/// The 60 constant bytes of the second fixed magic block.
pub open spec fn part2_bytes() -> Seq<u8> {
    words_be(part2_words())
}

/// A sequence of `n` zero bytes.
pub open spec fn zero_bytes(n: nat) -> Seq<u8> {
    Seq::new(n, |i: int| 0u8)
}

/// The first 24 bytes of the configuration header: the two marker words, the
/// uncompressed size, the size of the data region plus this header, the chunk
/// window size, and the chained CRC32 of the compressed chunk data.
pub open spec fn cfg_head24(unc: u32, body_size: u32, crc: u32) -> Seq<u8> {
    u32_be(0x01020304u32) + u32_be(0u32) + u32_be(unc) + u32_be(body_size) + u32_be(0x10000u32)
        + u32_be(crc)
}

/// The full 60-byte configuration header: the first 24 bytes, their CRC32
/// seeded with zero, and 32 bytes of required-zero padding.
pub open spec fn cfg_header_bytes(unc: u32, body_size: u32, crc: u32) -> Seq<u8> {
    cfg_head24(unc, body_size, crc) + u32_be(crc32_chain(0u32, cfg_head24(unc, body_size, crc)))
        + zero_bytes(32)
}

/// Appends the big-endian bytes of every word of `ws` to `v`.
pub fn push_words_be(v: &mut Vec<u8>, ws: &Vec<u32>)
    ensures
        final(v)@ == old(v)@ + words_be(ws@),
{
    proof {
        assert(ws@.take(0) =~= Seq::<u32>::empty());
        assert(v@ =~= v@ + words_be(ws@.take(0)));
    }
    let n = ws.len();
    let mut i: usize = 0;
    while i < n
        invariant
            i <= n,
            n == ws@.len(),
            v@ == old(v)@ + words_be(ws@.take(i as int)),
        decreases n - i,
    {
        push_be32(v, ws[i]);
        proof {
            assert(ws@.take(i as int + 1).drop_last() =~= ws@.take(i as int));
            assert(ws@.take(i as int + 1).last() == ws@[i as int]);
            assert(words_be(ws@.take(i as int + 1)) == words_be(ws@.take(i as int)) + u32_be(
                ws@[i as int],
            ));
            assert(v@ =~= old(v)@ + words_be(ws@.take(i as int + 1)));
        }
        i = i + 1;
    }
    proof {
        assert(ws@.take(n as int) =~= ws@);
    }
}

/// Builds the first fixed magic block.
pub fn part1_vec() -> (r: Vec<u8>)
    ensures
        r@ == part1_bytes(),
        r@.len() == 72,
{
    let mut ws: Vec<u32> = Vec::new();
    ws.push(0x99999999);
    ws.push(0x44444444);
    ws.push(0x55555555);
    ws.push(0xAAAAAAAA);
    ws.push(0);
    ws.push(0);
    ws.push(0x04000000);
    ws.push(0);
    ws.push(0);
    ws.push(0);
    ws.push(0);
    ws.push(0);
    ws.push(0);
    ws.push(0);
    ws.push(0);
    ws.push(0x40000000);
    ws.push(0x02000000);
    ws.push(0x80000000);
    proof {
        assert(ws@ =~= part1_words());
        lemma_words_be_len(part1_words());
    }
    let mut v: Vec<u8> = Vec::new();
    push_words_be(&mut v, &ws);
    v
}

/// Builds the second fixed magic block.
pub fn part2_vec() -> (r: Vec<u8>)
    ensures
        r@ == part2_bytes(),
        r@.len() == 60,
{
    let mut ws: Vec<u32> = Vec::new();
    let mut i: usize = 0;
    while i < 13
        invariant
            i <= 13,
            ws@.len() == i,
            forall|j: int| 0 <= j < i ==> ws@[j] == 0u32,
        decreases 13 - i,
    {
        ws.push(0);
        i = i + 1;
    }
    ws.push(0x04030201);
    ws.push(0);
    proof {
        assert(ws@ =~= part2_words());
        lemma_words_be_len(part2_words());
    }
    let mut v: Vec<u8> = Vec::new();
    push_words_be(&mut v, &ws);
    v
}

/// Appends `n` zero bytes to `v`.
pub fn push_zero_bytes(v: &mut Vec<u8>, n: usize)
    ensures
        final(v)@ == old(v)@ + zero_bytes(n as nat),
{
    let mut i: usize = 0;
    proof {
        assert(v@ =~= v@ + zero_bytes(0));
    }
    while i < n
        invariant
            i <= n,
            v@ == old(v)@ + zero_bytes(i as nat),
        decreases n - i,
    {
        v.push(0);
        proof {
            assert(v@ =~= old(v)@ + zero_bytes((i + 1) as nat));
        }
        i = i + 1;
    }
}

/// Builds the 60-byte configuration header for the given field values,
/// computing the header's own CRC32 over its first 24 bytes.
pub fn build_cfg_header(unc: u32, body_size: u32, crc: u32) -> (r: Vec<u8>)
    ensures
        r@ == cfg_header_bytes(unc, body_size, crc),
        r@.len() == 60,
{
    let mut h: Vec<u8> = Vec::new();
    push_be32(&mut h, 0x01020304);
    push_be32(&mut h, 0);
    push_be32(&mut h, unc);
    push_be32(&mut h, body_size);
    push_be32(&mut h, 0x10000);
    push_be32(&mut h, crc);
    assert(h@ =~= cfg_head24(unc, body_size, crc));
    let self_crc = crc32_with_seed(0, &h);
    push_be32(&mut h, self_crc);
    push_zero_bytes(&mut h, 32);
    assert(h@ =~= cfg_header_bytes(unc, body_size, crc));
    h
}

} // verus!
