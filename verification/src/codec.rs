use vstd::prelude::*;

use vstd::arithmetic::div_mod::{lemma_fundamental_div_mod, lemma_mod_bound};
use vstd::arithmetic::mul::lemma_mul_inequality;

use crate::bytes::{
    be32, copy_range, le32, lemma_be32_of_u32_be, lemma_le32_of_u32_le, push_be32, push_le32,
    read_be32, read_le32, region_matches, u32_be, u32_le,
};
use crate::checksum::{crc32_chain, crc32_with_seed};
use crate::compressor::{deflate_of, deflate_window, inflate_payload, inflate_win};
use crate::errors::CfgError;
use crate::header::{
    build_cfg_header, cfg_head24, cfg_header_bytes, part1_bytes, part1_vec, part2_bytes, part2_vec,
    push_zero_bytes, zero_bytes,
};

verus! {

/// How many chunk windows the input splits into. Every input, even an empty
/// one, yields at least one window, so the final chunk always exists to carry
/// the terminal zero-offset sentinel.
pub open spec fn num_windows(n: nat) -> int {
    if n == 0 {
        1
    } else {
        (n - 1) / 0x10000 + 1
    }
}

/// The `i`-th uncompressed window of `s`: a full 65536-byte slice, or the
/// shorter remainder for the final window.
pub open spec fn win(s: Seq<u8>, i: int) -> Seq<u8>
    recommends
        0 <= i < num_windows(s.len()),
{
    if i * 0x10000 + 0x10000 <= s.len() {
        s.subrange(i * 0x10000, i * 0x10000 + 0x10000)
    } else {
        s.subrange(i * 0x10000, s.len() as int)
    }
}

/// Combined serialized size of the chunk records of windows `0 .. i`.
pub open spec fn body_len_upto(s: Seq<u8>, i: int) -> int
    decreases i,
{
    if i <= 0 {
        0
    } else {
        body_len_upto(s, i - 1) + 12 + deflate_of(win(s, i - 1)).len()
    }
}

/// The chained CRC32 over the compressed payloads of windows `0 .. i`,
/// each chunk's digest seeded with the previous chunk's value, the first
/// seeded with zero.
pub open spec fn crc_upto(s: Seq<u8>, i: int) -> u32
    decreases i,
{
    if i <= 0 {
        0u32
    } else {
        crc32_chain(crc_upto(s, i - 1), deflate_of(win(s, i - 1)))
    }
}

/// The chunk-end offset stored in window `i`'s chunk header: the absolute
/// end of its compressed payload measured from the start of the cfg header,
/// or the zero sentinel marking the final chunk.
pub open spec fn end_off(s: Seq<u8>, i: int) -> u32 {
    if i == num_windows(s.len()) - 1 {
        0u32
    } else {
        (60 + body_len_upto(s, i + 1)) as u32
    }
}

/// The serialized chunk record of window `i`: the sizes before and after
/// compression, the end offset or sentinel, then the compressed payload.
pub open spec fn chunk_record(s: Seq<u8>, i: int) -> Seq<u8> {
    u32_be(win(s, i).len() as u32) + u32_be(deflate_of(win(s, i)).len() as u32) + u32_be(
        end_off(s, i),
    ) + deflate_of(win(s, i))
}

/// The serialized chunk records of windows `i ..`, concatenated.
pub open spec fn body_from(s: Seq<u8>, i: int) -> Seq<u8>
    decreases num_windows(s.len()) - i when i >= 0
{
    if i < 0 || i >= num_windows(s.len()) {
        Seq::empty()
    } else {
        chunk_record(s, i) + body_from(s, i + 1)
    }
}

/// The whole container for `input` with device label `label`: the first
/// fixed magic block, the little-endian size field, the second fixed magic
/// block, the length-prefixed label, the cfg header, then the chunk records.
pub open spec fn container_bytes(input: Seq<u8>, label: Seq<u8>) -> Seq<u8> {
    let body = body_from(input, 0);
    let total = 200 + label.len() + body.len();
    part1_bytes() + u32_le((total - 128) as u32) + part2_bytes() + u32_be(label.len() as u32)
        + label + cfg_header_bytes(
        input.len() as u32,
        (body.len() + 60) as u32,
        crc_upto(input, num_windows(input.len())),
    ) + body
}

/// One pass of the chunk loop over the remaining container bytes `rest`,
/// with `last_off` the absolute end of the previous chunk and `crc` the
/// chained CRC32 so far: yields the concatenation of the decompressed
/// chunks and the final chained CRC32 over the compressed payloads.
pub open spec fn parse_chunks(rest: Seq<u8>, last_off: u32, crc: u32) -> Result<
    (Seq<u8>, u32),
    CfgError,
>
    decreases rest.len(),
{
    if rest.len() < 12 {
        Err(CfgError::Truncated)
    } else {
        let off = be32(rest.subrange(8, 12));
        if off == 0 {
            let payload = rest.skip(12);
            match inflate_win(payload) {
                Option::Some(w) => Ok((w, crc32_chain(crc, payload))),
                Option::None => Err(CfgError::Decompress),
            }
        } else if off < last_off + 12 {
            Err(CfgError::Truncated)
        } else {
            let plen = off - last_off - 12;
            if 12 + plen > rest.len() {
                Err(CfgError::Truncated)
            } else {
                let payload = rest.subrange(12, 12 + plen);
                match inflate_win(payload) {
                    Option::Some(w) => match parse_chunks(
                        rest.skip(12 + plen),
                        off,
                        crc32_chain(crc, payload),
                    ) {
                        Ok(p) => Ok((w + p.0, p.1)),
                        Err(e) => Err(e),
                    },
                    Option::None => Err(CfgError::Decompress),
                }
            }
        }
    }
}

/// The result decoding assigns to a container byte sequence: the original
/// uncompressed bytes when every validation check passes, otherwise the
/// error of the first check that fails, in the order the checks run.
pub open spec fn decode_spec(c: Seq<u8>) -> Result<Seq<u8>, CfgError> {
    if c.len() < 72 {
        Err(CfgError::Truncated)
    } else if c.subrange(0, 72) != part1_bytes() {
        Err(CfgError::BadMagic1)
    } else if c.len() < 76 {
        Err(CfgError::Truncated)
    } else if c.len() != le32(c.subrange(72, 76)) + 128 {
        Err(CfgError::SizeMismatch)
    } else if c.len() < 136 {
        Err(CfgError::Truncated)
    } else if c.subrange(76, 136) != part2_bytes() {
        Err(CfgError::BadMagic2)
    } else if c.len() < 140 {
        Err(CfgError::Truncated)
    } else {
        let lab = be32(c.subrange(136, 140));
        if c.len() < 209 + lab {
            Err(CfgError::DataMissing)
        } else {
            let hs = 140 + lab;
            if be32(c.subrange(hs, hs + 4)) != 0x01020304 || be32(c.subrange(hs + 4, hs + 8))
                != 0 || c.subrange(hs + 28, hs + 60) != zero_bytes(32) {
                Err(CfgError::BadCfgMagic)
            } else if be32(c.subrange(hs + 24, hs + 28)) != crc32_chain(
                0u32,
                c.subrange(hs, hs + 24),
            ) {
                Err(CfgError::BadHeaderCrc)
            } else {
                match parse_chunks(c.skip(hs + 60), 60u32, 0u32) {
                    Ok(p) => if p.1 != be32(c.subrange(hs + 20, hs + 24)) {
                        Err(CfgError::BadDataCrc)
                    } else {
                        Ok(p.0)
                    },
                    Err(e) => Err(e),
                }
            }
        }
    }
}

/// `r` with `pre` prepended to its decompressed output.
spec fn with_prefix(pre: Seq<u8>, r: Result<(Seq<u8>, u32), CfgError>) -> Result<
    (Seq<u8>, u32),
    CfgError,
> {
    match r {
        Ok(p) => Ok((pre + p.0, p.1)),
        Err(e) => Err(e),
    }
}

/// The decode result determined by the chunk loop's outcome `r` and the
/// chained CRC32 value `stored` taken from the cfg header.
spec fn finish_decode(r: Result<(Seq<u8>, u32), CfgError>, stored: u32) -> Result<
    Seq<u8>,
    CfgError,
> {
    match r {
        Ok(p) => if p.1 != stored {
            Err(CfgError::BadDataCrc)
        } else {
            Ok(p.0)
        },
        Err(e) => Err(e),
    }
}

/// Window `i` starts no later than the end of `s`, and every window before
/// the last one is a full window.
proof fn lemma_window_bounds(s: Seq<u8>, i: int)
    requires
        0 <= i < num_windows(s.len()),
    ensures
        i * 0x10000 <= s.len(),
        i < num_windows(s.len()) - 1 ==> (i + 1) * 0x10000 < s.len(),
{
    let n = s.len() as int;
    if n == 0 {
        assert(i == 0);
    } else {
        let q = (n - 1) / 0x10000;
        lemma_fundamental_div_mod(n - 1, 0x10000);
        lemma_mod_bound(n - 1, 0x10000);
        assert(q * 0x10000 <= n - 1);
        lemma_mul_inequality(i, q, 0x10000);
        if i < num_windows(s.len()) - 1 {
            lemma_mul_inequality(i + 1, q, 0x10000);
        }
    }
}

/// Chunk-record sizes only grow as windows are added.
proof fn lemma_body_len_mono(s: Seq<u8>, i: int, j: int)
    requires
        0 <= i <= j,
    ensures
        body_len_upto(s, i) <= body_len_upto(s, j),
    decreases j - i,
{
    if i < j {
        lemma_body_len_mono(s, i, j - 1);
    }
}

/// The serialized chunk records of windows `i ..` take exactly the bytes
/// that `body_len_upto` counts for them.
proof fn lemma_body_from_len(s: Seq<u8>, i: int)
    requires
        0 <= i <= num_windows(s.len()),
    ensures
        body_from(s, i).len() == body_len_upto(s, num_windows(s.len())) - body_len_upto(s, i),
    decreases num_windows(s.len()) - i,
{
    if i < num_windows(s.len()) {
        lemma_body_from_len(s, i + 1);
    }
}

/// Parsing the serialized chunk records of windows `i ..` of `s` yields
/// exactly the bytes of `s` from window `i` on, together with the chained
/// CRC32 of all compressed payloads, provided every offset fits a u32 and
/// inflating each compressed window gives the window back.
proof fn lemma_parse_built(s: Seq<u8>, i: int)
    requires
        0 <= i < num_windows(s.len()),
        forall|j: int| 0 <= j <= num_windows(s.len()) ==> 60 + #[trigger] body_len_upto(s, j)
            <= 0xFFFF_FFFF,
        forall|j: int| i <= j < num_windows(s.len()) ==> #[trigger] inflate_win(
            deflate_of(win(s, j)),
        ) == Option::Some(win(s, j)),
    ensures
        parse_chunks(body_from(s, i), (60 + body_len_upto(s, i)) as u32, crc_upto(s, i))
            == Ok::<(Seq<u8>, u32), CfgError>(
            (s.skip(i * 0x10000), crc_upto(s, num_windows(s.len()))),
        ),
    decreases num_windows(s.len()) - i,
{
    let nw = num_windows(s.len());
    let rest = body_from(s, i);
    let d = deflate_of(win(s, i));
    let last_off = (60 + body_len_upto(s, i)) as u32;
    assert(rest == chunk_record(s, i) + body_from(s, i + 1));
    assert(rest.len() >= 12 + d.len());
    assert(rest.subrange(8, 12) =~= u32_be(end_off(s, i)));
    lemma_be32_of_u32_be(end_off(s, i));
    assert(be32(rest.subrange(8, 12)) == end_off(s, i));
    lemma_window_bounds(s, i);
    lemma_body_len_mono(s, 0, i);
    assert(body_len_upto(s, 0) == 0);
    assert(last_off == 60 + body_len_upto(s, i));
    if i == nw - 1 {
        assert(end_off(s, i) == 0u32);
        assert(body_from(s, i + 1) =~= Seq::<u8>::empty());
        assert(rest.skip(12) =~= d);
        assert(inflate_win(d) == Option::Some(win(s, i)));
        assert(crc32_chain(crc_upto(s, i), d) == crc_upto(s, i + 1));
        assert(win(s, i) =~= s.skip(i * 0x10000));
    } else {
        let off = end_off(s, i);
        assert(60 + body_len_upto(s, i + 1) <= 0xFFFF_FFFF);
        assert(body_len_upto(s, i) <= body_len_upto(s, i + 1)) by {
            lemma_body_len_mono(s, i, i + 1);
        }
        assert(off == 60 + body_len_upto(s, i + 1));
        assert(body_len_upto(s, i + 1) == body_len_upto(s, i) + 12 + d.len());
        assert(off != 0u32);
        assert(off == last_off + 12 + d.len());
        let plen = off - last_off - 12;
        assert(plen == d.len());
        assert(12 + plen <= rest.len());
        assert(rest.subrange(12, 12 + plen) =~= d);
        assert(rest.skip(12 + plen) =~= body_from(s, i + 1));
        assert(inflate_win(d) == Option::Some(win(s, i)));
        assert(crc32_chain(crc_upto(s, i), d) == crc_upto(s, i + 1));
        lemma_parse_built(s, i + 1);
        assert(parse_chunks(body_from(s, i + 1), off, crc_upto(s, i + 1)) == Ok::<
            (Seq<u8>, u32),
            CfgError,
        >((s.skip((i + 1) * 0x10000), crc_upto(s, nw))));
        assert((i + 1) * 0x10000 == i * 0x10000 + 0x10000);
        assert(win(s, i) + s.skip((i + 1) * 0x10000) =~= s.skip(i * 0x10000));
    }
}

/// A container built for `s` and `label` passes every validation check of
/// the format and decodes back to exactly `s`: the round trip of the codec.
#[verifier::rlimit(100)]
proof fn lemma_container_roundtrip(s: Seq<u8>, label: Seq<u8>)
    requires
        s.len() <= 0xFFFF_FFFF,
        label.len() <= 0xFFFF_FFFF,
        200 + label.len() + body_len_upto(s, num_windows(s.len())) <= 0xFFFF_FFFF,
        forall|j: int| 0 <= j <= num_windows(s.len()) ==> 60 + #[trigger] body_len_upto(s, j)
            <= 0xFFFF_FFFF,
        forall|j: int| 0 <= j < num_windows(s.len()) ==> #[trigger] inflate_win(
            deflate_of(win(s, j)),
        ) == Option::Some(win(s, j)),
    ensures
        decode_spec(container_bytes(s, label)) == Ok::<Seq<u8>, CfgError>(s),
{
    let nw = num_windows(s.len());
    let bodyv = body_from(s, 0);
    lemma_body_from_len(s, 0);
    assert(body_len_upto(s, 0) == 0);
    assert(bodyv.len() == body_len_upto(s, nw));
    let total = 200 + label.len() + bodyv.len();
    let special = (total - 128) as u32;
    let crc = crc_upto(s, nw);
    let unc = s.len() as u32;
    let body_size = (bodyv.len() + 60) as u32;
    let cv = container_bytes(s, label);
    assert(cv == part1_bytes() + u32_le(special) + part2_bytes() + u32_be(label.len() as u32)
        + label + cfg_header_bytes(unc, body_size, crc) + bodyv);
    crate::header::lemma_words_be_len(crate::header::part1_words());
    crate::header::lemma_words_be_len(crate::header::part2_words());
    assert(part1_bytes().len() == 72);
    assert(part2_bytes().len() == 60);
    assert(cfg_header_bytes(unc, body_size, crc).len() == 60);
    assert(cv.len() == total);
    assert(cv.subrange(0, 72) =~= part1_bytes());
    assert(cv.subrange(72, 76) =~= u32_le(special));
    lemma_le32_of_u32_le(special);
    assert(cv.len() == le32(cv.subrange(72, 76)) + 128);
    assert(cv.subrange(76, 136) =~= part2_bytes());
    assert(cv.subrange(136, 140) =~= u32_be(label.len() as u32));
    lemma_be32_of_u32_be(label.len() as u32);
    assert(be32(cv.subrange(136, 140)) == label.len());
    assert(body_len_upto(s, 1) >= 12);
    lemma_body_len_mono(s, 1, nw);
    assert(bodyv.len() >= 12);
    assert(cv.len() >= 209 + label.len());
    let hs = 140 + label.len() as int;
    assert(cv.subrange(hs, hs + 4) =~= u32_be(0x01020304u32));
    lemma_be32_of_u32_be(0x01020304u32);
    assert(cv.subrange(hs + 4, hs + 8) =~= u32_be(0u32));
    lemma_be32_of_u32_be(0u32);
    assert(cv.subrange(hs + 28, hs + 60) =~= zero_bytes(32));
    assert(cv.subrange(hs, hs + 24) =~= cfg_head24(unc, body_size, crc));
    assert(cv.subrange(hs + 24, hs + 28) =~= u32_be(
        crc32_chain(0u32, cfg_head24(unc, body_size, crc)),
    ));
    lemma_be32_of_u32_be(crc32_chain(0u32, cfg_head24(unc, body_size, crc)));
    assert(cv.subrange(hs + 20, hs + 24) =~= u32_be(crc));
    lemma_be32_of_u32_be(crc);
    assert(cv.skip(hs + 60) =~= bodyv);
    lemma_parse_built(s, 0);
    assert(crc_upto(s, 0) == 0u32);
    assert((60 + body_len_upto(s, 0)) as u32 == 60u32);
    assert(s.skip(0) =~= s);
    assert(parse_chunks(cv.skip(hs + 60), 60u32, 0u32) == Ok::<(Seq<u8>, u32), CfgError>((s, crc)));
    assert(decode_spec(cv) == Ok::<Seq<u8>, CfgError>(s));
}

/// Parses and validates a container, returning the original uncompressed
/// bytes. Each validation check of the format fails with its own distinct
/// error, exactly as `decode_spec` assigns it; on success the output is
/// exactly what `decode_spec` yields.
pub fn decode(c: &Vec<u8>) -> (r: Result<Vec<u8>, CfgError>)
    ensures
        r matches Ok(out) ==> decode_spec(c@) == Ok::<Seq<u8>, CfgError>(out@),
        r matches Err(e) ==> decode_spec(c@) == Err::<Seq<u8>, CfgError>(e),
{
    let n = c.len();
    if n < 72 {
        return Err(CfgError::Truncated);
    }
    let p1 = part1_vec();
    if !region_matches(c, 0, &p1) {
        return Err(CfgError::BadMagic1);
    }
    if n < 76 {
        return Err(CfgError::Truncated);
    }
    let special = read_le32(c, 72);
    if (n as u64) != (special as u64) + 128 {
        return Err(CfgError::SizeMismatch);
    }
    if n < 136 {
        return Err(CfgError::Truncated);
    }
    let p2 = part2_vec();
    if !region_matches(c, 76, &p2) {
        return Err(CfgError::BadMagic2);
    }
    if n < 140 {
        return Err(CfgError::Truncated);
    }
    let lab = read_be32(c, 136);
    if (n as u64) < 209u64 + (lab as u64) {
        return Err(CfgError::DataMissing);
    }
    let hs: usize = 140 + (lab as usize);
    proof {
        assert(hs + 60 + 9 <= n);
    }
    let w0 = read_be32(c, hs);
    let w1 = read_be32(c, hs + 4);
    let mut zv: Vec<u8> = Vec::new();
    push_zero_bytes(&mut zv, 32);
    proof {
        assert(zv@ =~= zero_bytes(32));
    }
    let blanks_ok = region_matches(c, hs + 28, &zv);
    if w0 != 0x01020304 || w1 != 0 || !blanks_ok {
        return Err(CfgError::BadCfgMagic);
    }
    let head24 = copy_range(c, hs, hs + 24);
    let self_crc = crc32_with_seed(0, &head24);
    let stored_self = read_be32(c, hs + 24);
    if stored_self != self_crc {
        return Err(CfgError::BadHeaderCrc);
    }
    let stored_crc = read_be32(c, hs + 20);
    let body_start: usize = hs + 60;
    let ghost rtot = parse_chunks(c@.skip(body_start as int), 60u32, 0u32);
    proof {
        assert(c@.subrange(0, 72) == part1_bytes());
        assert(c@.subrange(hs as int + 28, hs as int + 60) == zero_bytes(32));
        assert(head24@ == c@.subrange(hs as int, hs as int + 24));
        assert(decode_spec(c@) == finish_decode(rtot, stored_crc));
    }
    let mut pos: usize = body_start;
    let mut last_off: u32 = 60;
    let mut crc: u32 = 0;
    let mut out: Vec<u8> = Vec::new();
    proof {
        if let Ok(p) = rtot {
            assert(Seq::<u8>::empty() + p.0 =~= p.0);
        }
        assert(rtot == with_prefix(out@, parse_chunks(c@.skip(pos as int), last_off, crc)));
    }
    loop
        invariant_except_break
            body_start <= pos <= n,
            rtot == with_prefix(out@, parse_chunks(c@.skip(pos as int), last_off, crc)),
        invariant
            n == c@.len(),
            body_start <= n,
            decode_spec(c@) == finish_decode(rtot, stored_crc),
        ensures
            rtot == Ok::<(Seq<u8>, u32), CfgError>((out@, crc)),
        decreases n - pos,
    {
        let ghost rest = c@.skip(pos as int);
        if n - pos < 12 {
            return Err(CfgError::Truncated);
        }
        let off = read_be32(c, pos + 8);
        proof {
            assert(rest.subrange(8, 12) =~= c@.subrange(pos as int + 8, pos as int + 12));
        }
        if off == 0 {
            let payload = copy_range(c, pos + 12, n);
            proof {
                assert(rest.skip(12) =~= c@.subrange(pos as int + 12, n as int));
            }
            let crc2 = crc32_with_seed(crc, &payload);
            match inflate_payload(&payload) {
                Ok(w) => {
                    let ghost out0 = out@;
                    let ghost gw = w@;
                    let mut wm = w;
                    out.append(&mut wm);
                    proof {
                        assert(parse_chunks(rest, last_off, crc) == Ok::<(Seq<u8>, u32), CfgError>(
                            (gw, crc2),
                        ));
                        assert(rtot == Ok::<(Seq<u8>, u32), CfgError>((out0 + gw, crc2)));
                    }
                    crc = crc2;
                    break;
                },
                Err(_) => {
                    return Err(CfgError::Decompress);
                },
            }
        } else {
            if (off as u64) < (last_off as u64) + 12 {
                return Err(CfgError::Truncated);
            }
            let plen64: u64 = (off as u64) - (last_off as u64) - 12;
            if plen64 > (n as u64) - (pos as u64) - 12 {
                return Err(CfgError::Truncated);
            }
            let plen: usize = plen64 as usize;
            let payload = copy_range(c, pos + 12, pos + 12 + plen);
            proof {
                assert(rest.subrange(12, 12 + plen as int) =~= c@.subrange(
                    pos as int + 12,
                    pos as int + 12 + plen as int,
                ));
                assert(rest.skip(12 + plen as int) =~= c@.skip(pos as int + 12 + plen as int));
            }
            match inflate_payload(&payload) {
                Ok(w) => {
                    let crc2 = crc32_with_seed(crc, &payload);
                    let ghost out0 = out@;
                    let ghost gw = w@;
                    let mut wm = w;
                    out.append(&mut wm);
                    proof {
                        let r2 = parse_chunks(c@.skip(pos as int + 12 + plen as int), off, crc2);
                        if let Ok(p) = r2 {
                            assert(out0 + (gw + p.0) =~= (out0 + gw) + p.0);
                        }
                        assert(with_prefix(out0, parse_chunks(rest, last_off, crc)) == with_prefix(
                            out0 + gw,
                            r2,
                        ));
                    }
                    crc = crc2;
                    last_off = off;
                    pos = pos + 12 + plen;
                },
                Err(_) => {
                    return Err(CfgError::Decompress);
                },
            }
        }
    }
    if crc != stored_crc {
        return Err(CfgError::BadDataCrc);
    }
    Ok(out)
}

/// Encodes `input` into a complete container that carries `label` as the
/// device-model field. On success the produced bytes are exactly the
/// container layout for `input`, and decoding them yields `input` back,
/// whatever the label: the round trip is part of this contract. The only
/// failures are a window whose compressed stream overruns the compression
/// buffer and a value that does not fit one of the format's 32-bit size
/// fields, and each error variant is owed only on such an input.
#[verifier::rlimit(100)]
pub fn encode(input: &Vec<u8>, label: &Vec<u8>) -> (r: Result<Vec<u8>, CfgError>)
    ensures
        r matches Ok(v) ==> v@ == container_bytes(input@, label@),
        r matches Ok(v) ==> decode_spec(v@) == Ok::<Seq<u8>, CfgError>(input@),
        r matches Err(e) ==> e == CfgError::Compress || (e == CfgError::TooLarge && (
        input@.len() > 0xFFFF_FFFF || label@.len() > 0xFFFF_FFFF || 200 + label@.len()
            + body_len_upto(input@, num_windows(input@.len())) > 0xFFFF_FFFF)),
        r matches Err(e) ==> (e == CfgError::Compress ==> exists|j: int|
            0 <= j < num_windows(input@.len()) && (#[trigger] deflate_of(win(input@, j))).len()
                > 0x10000 + 1064),
{
    let ghost s = input@;
    let n = input.len();
    if (n as u64) > 0xFFFF_FFFFu64 {
        return Err(CfgError::TooLarge);
    }
    if (label.len() as u64) > 0xFFFF_FFFFu64 {
        return Err(CfgError::TooLarge);
    }
    let nw: usize = if n == 0 {
        1
    } else {
        (n - 1) / 0x10000 + 1
    };
    assert(nw == num_windows(s.len()));
    let mut body: Vec<u8> = Vec::new();
    let mut crc: u32 = 0;
    let mut i: usize = 0;
    proof {
        assert(body@ + body_from(s, 0) =~= body_from(s, 0));
    }
    while i < nw
        invariant
            s == input@,
            n == input.len(),
            n <= 0xFFFF_FFFF,
            nw == num_windows(s.len()),
            0 <= i <= nw,
            body@.len() == body_len_upto(s, i as int),
            crc == crc_upto(s, i as int),
            body@ + body_from(s, i as int) == body_from(s, 0),
            forall|j: int| 0 <= j <= i ==> 60 + #[trigger] body_len_upto(s, j) <= 0xFFFF_FFFF,
            forall|j: int| 0 <= j < i ==> #[trigger] inflate_win(deflate_of(win(s, j)))
                == Option::Some(win(s, j)),
        decreases nw - i,
    {
        proof {
            lemma_window_bounds(s, i as int);
        }
        let start: usize = i * 0x10000;
        let end: usize = if n - start > 0x10000 {
            start + 0x10000
        } else {
            n
        };
        let w = copy_range(input, start, end);
        proof {
            assert(w@ == win(s, i as int));
        }
        let cw = match deflate_window(&w) {
            Ok(cw) => cw,
            Err(_) => {
                proof {
                    assert((i as int) < num_windows(input@.len()));
                    assert(deflate_of(win(input@, i as int)).len() > 0x10000 + 1064);
                }
                return Err(CfgError::Compress);
            },
        };
        let clen = cw.len();
        if (clen as u64) > 0xFFFF_FFFFu64 {
            proof {
                lemma_body_len_mono(s, i as int + 1, nw as int);
            }
            return Err(CfgError::TooLarge);
        }
        proof {
            assert(60 + body_len_upto(s, i as int) <= 0xFFFF_FFFF);
        }
        let cur: u64 = 60 + (body.len() as u64) + 12 + (clen as u64);
        if cur > 0xFFFF_FFFFu64 {
            proof {
                lemma_body_len_mono(s, i as int + 1, nw as int);
            }
            return Err(CfgError::TooLarge);
        }
        let off_field: u32 = if i == nw - 1 {
            0
        } else {
            cur as u32
        };
        let ghost body0 = body@;
        push_be32(&mut body, (end - start) as u32);
        push_be32(&mut body, clen as u32);
        push_be32(&mut body, off_field);
        let crc2 = crc32_with_seed(crc, &cw);
        let mut cwm = cw;
        body.append(&mut cwm);
        proof {
            assert(body_len_upto(s, i as int + 1) == body_len_upto(s, i as int) + 12
                + deflate_of(win(s, i as int)).len());
            assert(off_field == end_off(s, i as int));
            assert(body@ =~= body0 + chunk_record(s, i as int));
            assert(body_from(s, i as int) == chunk_record(s, i as int) + body_from(
                s,
                i as int + 1,
            ));
            assert(body@ + body_from(s, i as int + 1) =~= body_from(s, 0));
            assert(crc2 == crc_upto(s, i as int + 1));
        }
        crc = crc2;
        i = i + 1;
    }
    proof {
        assert(body_from(s, nw as int) =~= Seq::<u8>::empty());
        assert(body@ =~= body_from(s, 0));
    }
    let lab_len = label.len();
    let total: u64 = 200 + (lab_len as u64) + (body.len() as u64);
    if total > 0xFFFF_FFFFu64 {
        return Err(CfgError::TooLarge);
    }
    let special: u32 = (total as u32) - 128;
    let body_size: u32 = (body.len() as u32) + 60;
    let mut v = part1_vec();
    push_le32(&mut v, special);
    let mut p2 = part2_vec();
    v.append(&mut p2);
    push_be32(&mut v, lab_len as u32);
    let mut lc = copy_range(label, 0, lab_len);
    proof {
        assert(lc@ =~= label@);
    }
    v.append(&mut lc);
    let mut ch = build_cfg_header(n as u32, body_size, crc);
    v.append(&mut ch);
    let mut bm = body;
    v.append(&mut bm);
    proof {
        assert(special == (200 + label@.len() + body_from(s, 0).len() - 128) as u32);
        assert(body_size == (body_from(s, 0).len() + 60) as u32);
        assert(v@ =~= container_bytes(s, label@));
        lemma_container_roundtrip(s, label@);
    }
    Ok(v)
}

} // verus!
