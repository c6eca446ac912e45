use vstd::prelude::*;

verus! {

/// The u32 read big-endian from four bytes.
pub open spec fn be32(b: Seq<u8>) -> u32
    recommends
        b.len() == 4,
{
    (b[0] as u32) << 24 | (b[1] as u32) << 16 | (b[2] as u32) << 8 | (b[3] as u32)
}

/// The u32 read little-endian from four bytes.
pub open spec fn le32(b: Seq<u8>) -> u32
    recommends
        b.len() == 4,
{
    (b[3] as u32) << 24 | (b[2] as u32) << 16 | (b[1] as u32) << 8 | (b[0] as u32)
}

/// The four big-endian bytes of a u32.
pub open spec fn u32_be(x: u32) -> Seq<u8> {
    seq![
        ((x >> 24) & 0xff) as u8,
        ((x >> 16) & 0xff) as u8,
        ((x >> 8) & 0xff) as u8,
        (x & 0xff) as u8,
    ]
}

/// The four little-endian bytes of a u32.
pub open spec fn u32_le(x: u32) -> Seq<u8> {
    seq![
        (x & 0xff) as u8,
        ((x >> 8) & 0xff) as u8,
        ((x >> 16) & 0xff) as u8,
        ((x >> 24) & 0xff) as u8,
    ]
}

/// Reading back the four big-endian bytes of a u32 yields the same u32.
pub proof fn lemma_be32_of_u32_be(x: u32)
    ensures
        be32(u32_be(x)) == x,
{
    assert((((x >> 24) & 0xff) as u8 as u32) << 24 | (((x >> 16) & 0xff) as u8 as u32) << 16 | (((
    x >> 8) & 0xff) as u8 as u32) << 8 | ((x & 0xff) as u8 as u32) == x) by (bit_vector);
}

/// Reading back the four little-endian bytes of a u32 yields the same u32.
pub proof fn lemma_le32_of_u32_le(x: u32)
    ensures
        le32(u32_le(x)) == x,
{
    assert((((x >> 24) & 0xff) as u8 as u32) << 24 | (((x >> 16) & 0xff) as u8 as u32) << 16 | (((
    x >> 8) & 0xff) as u8 as u32) << 8 | ((x & 0xff) as u8 as u32) == x) by (bit_vector);
}

/// Appends the big-endian bytes of `x` to `v`.
pub fn push_be32(v: &mut Vec<u8>, x: u32)
    ensures
        final(v)@ == old(v)@ + u32_be(x),
{
    v.push(((x >> 24) & 0xff) as u8);
    v.push(((x >> 16) & 0xff) as u8);
    v.push(((x >> 8) & 0xff) as u8);
    v.push((x & 0xff) as u8);
    assert(v@ =~= old(v)@ + u32_be(x));
}

/// Appends the little-endian bytes of `x` to `v`.
pub fn push_le32(v: &mut Vec<u8>, x: u32)
    ensures
        final(v)@ == old(v)@ + u32_le(x),
{
    v.push((x & 0xff) as u8);
    v.push(((x >> 8) & 0xff) as u8);
    v.push(((x >> 16) & 0xff) as u8);
    v.push(((x >> 24) & 0xff) as u8);
    assert(v@ =~= old(v)@ + u32_le(x));
}

/// Reads the big-endian u32 stored at `pos`.
pub fn read_be32(v: &Vec<u8>, pos: usize) -> (r: u32)
    requires
        pos + 4 <= v@.len(),
    ensures
        r == be32(v@.subrange(pos as int, pos as int + 4)),
{
    let n = v.len();
    let b0 = v[pos];
    let b1 = v[pos + 1];
    let b2 = v[pos + 2];
    let b3 = v[pos + 3];
    proof {
        let s = v@.subrange(pos as int, pos as int + 4);
        assert(s[0] == b0 && s[1] == b1 && s[2] == b2 && s[3] == b3);
    }
    (b0 as u32) << 24 | (b1 as u32) << 16 | (b2 as u32) << 8 | (b3 as u32)
}

/// Reads the little-endian u32 stored at `pos`.
pub fn read_le32(v: &Vec<u8>, pos: usize) -> (r: u32)
    requires
        pos + 4 <= v@.len(),
    ensures
        r == le32(v@.subrange(pos as int, pos as int + 4)),
{
    let n = v.len();
    let b0 = v[pos];
    let b1 = v[pos + 1];
    let b2 = v[pos + 2];
    let b3 = v[pos + 3];
    proof {
        let s = v@.subrange(pos as int, pos as int + 4);
        assert(s[0] == b0 && s[1] == b1 && s[2] == b2 && s[3] == b3);
    }
    (b3 as u32) << 24 | (b2 as u32) << 16 | (b1 as u32) << 8 | (b0 as u32)
}

/// Copies `v[start..end]` into a fresh vector.
pub fn copy_range(v: &Vec<u8>, start: usize, end: usize) -> (r: Vec<u8>)
    requires
        start <= end <= v@.len(),
    ensures
        r@ == v@.subrange(start as int, end as int),
{
    let mut r: Vec<u8> = Vec::new();
    let mut i: usize = start;
    while i < end
        invariant
            start <= i <= end <= v@.len(),
            r@ == v@.subrange(start as int, i as int),
        decreases end - i,
    {
        r.push(v[i]);
        assert(r@ =~= v@.subrange(start as int, i as int + 1));
        i = i + 1;
    }
    r
}

/// Whether the bytes of `v` starting at `pos` equal `pat`.
pub fn region_matches(v: &Vec<u8>, pos: usize, pat: &Vec<u8>) -> (r: bool)
    requires
        pos + pat@.len() <= v@.len(),
    ensures
        r == (v@.subrange(pos as int, pos as int + pat@.len() as int) == pat@),
{
    let vn = v.len();
    let n = pat.len();
    let mut i: usize = 0;
    while i < n
        invariant
            0 <= i <= n,
            n == pat@.len(),
            vn == v@.len(),
            pos + n <= vn,
            forall|j: int| 0 <= j < i ==> v@[pos + j] == pat@[j],
        decreases n - i,
    {
        if v[pos + i] != pat[i] {
            assert(v@.subrange(pos as int, pos as int + pat@.len() as int)[i as int]
                != pat@[i as int]);
            return false;
        }
        i = i + 1;
    }
    assert(v@.subrange(pos as int, pos as int + pat@.len() as int) =~= pat@);
    true
}

} // verus!
