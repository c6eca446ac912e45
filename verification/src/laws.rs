use vstd::prelude::*;

use crate::bytes::{be32, le32, lemma_be32_of_u32_be, u32_be};
use crate::codec::{container_bytes, decode_spec};
use crate::errors::CfgError;
use crate::header::{lemma_words_be_len, part1_bytes, part1_words, part2_bytes, part2_words};

verus! {

/// Magic rejection: changing any single byte inside either fixed magic block
/// of a container that decodes successfully makes decoding fail on the
/// corresponding magic check — never a silent success. A flipped bit is a
/// changed byte, so this covers every bit flip in those regions.
pub proof fn lemma_magic_rejection(c: Seq<u8>, d: Seq<u8>, k: int)
    requires
        decode_spec(c) is Ok,
        d.len() == c.len(),
        (0 <= k < 72) || (76 <= k < 136),
        d[k] != c[k],
        forall|j: int| 0 <= j < c.len() && j != k ==> d[j] == c[j],
    ensures
        decode_spec(d) == Err::<Seq<u8>, CfgError>(CfgError::BadMagic1) || decode_spec(d)
            == Err::<Seq<u8>, CfgError>(CfgError::BadMagic2),
        decode_spec(d) is Err,
{
    assert(c.len() >= 209);
    assert(c.subrange(0, 72) == part1_bytes());
    assert(c.len() == le32(c.subrange(72, 76)) + 128);
    assert(c.subrange(76, 136) == part2_bytes());
    if 0 <= k < 72 {
        assert(d.subrange(0, 72)[k] == d[k]);
        assert(part1_bytes()[k] == c[k]);
        assert(d.subrange(0, 72) != part1_bytes());
        assert(decode_spec(d) == Err::<Seq<u8>, CfgError>(CfgError::BadMagic1));
    } else {
        assert(d.subrange(0, 72) =~= c.subrange(0, 72));
        assert(d.subrange(72, 76) =~= c.subrange(72, 76));
        assert(d.len() == le32(d.subrange(72, 76)) + 128);
        assert(d.subrange(76, 136)[k - 76] == d[k]);
        assert(part2_bytes()[k - 76] == c[k]);
        assert(d.subrange(76, 136) != part2_bytes());
        assert(decode_spec(d) == Err::<Seq<u8>, CfgError>(CfgError::BadMagic2));
    }
}

/// Size consistency: truncating or padding a container that decodes
/// successfully — any change of total length that leaves the leading headers,
/// and so the stored size field, in place — makes decoding fail on the
/// size-consistency check.
pub proof fn lemma_size_rejection(c: Seq<u8>, d: Seq<u8>)
    requires
        decode_spec(c) is Ok,
        d.len() != c.len(),
        d.len() >= 76,
        d.subrange(0, 76) == c.subrange(0, 76),
    ensures
        decode_spec(d) == Err::<Seq<u8>, CfgError>(CfgError::SizeMismatch),
{
    assert(c.len() >= 209);
    assert(c.subrange(0, 72) == part1_bytes());
    assert(c.len() == le32(c.subrange(72, 76)) + 128);
    assert forall|j: int| 0 <= j < 76 implies d[j] == c[j] by {
        assert(d.subrange(0, 76)[j] == d[j]);
        assert(c.subrange(0, 76)[j] == c[j]);
    }
    assert(d.subrange(0, 72) =~= c.subrange(0, 72));
    assert(d.subrange(72, 76) =~= c.subrange(72, 76));
    assert(d.len() != le32(d.subrange(72, 76)) + 128);
    assert(decode_spec(d) == Err::<Seq<u8>, CfgError>(CfgError::SizeMismatch));
}

/// Device label round trip: the label handed to the encoder stands in the
/// container as a big-endian length prefix at byte 136 followed by the label
/// bytes themselves, so a byte inspection recovers it exactly. (That decoding
/// succeeds whatever the label content is part of `encode`'s contract.)
pub proof fn lemma_label_embedded(input: Seq<u8>, label: Seq<u8>)
    requires
        label.len() <= 0xFFFF_FFFF,
    ensures
        container_bytes(input, label).subrange(136, 140) == u32_be(label.len() as u32),
        be32(container_bytes(input, label).subrange(136, 140)) == label.len(),
        container_bytes(input, label).subrange(140, 140 + label.len() as int) == label,
{
    lemma_words_be_len(part1_words());
    lemma_words_be_len(part2_words());
    let cv = container_bytes(input, label);
    assert(cv.subrange(136, 140) =~= u32_be(label.len() as u32));
    lemma_be32_of_u32_be(label.len() as u32);
    assert(cv.subrange(140, 140 + label.len() as int) =~= label);
}

} // verus!
