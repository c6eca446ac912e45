use vstd::prelude::*;

verus! {

/// The value the crc crate's IEEE CRC32 digest reaches when it is seeded
/// with `seed` and then fed `data`. The digest is a pure function of the
/// seed and the bytes, so the value is named rather than spelled out.
pub uninterp spec fn crc32_chain(seed: u32, data: Seq<u8>) -> u32;

/// Relies on crc::crc32::Digest with the IEEE polynomial:
/// `new_with_initial(IEEE, seed)` starts a digest at `seed`, `write` folds
/// the bytes in, and `sum32` reads the value; the result depends on the
/// seed and the bytes alone.
#[verifier::external_body]
pub fn crc32_with_seed(seed: u32, data: &Vec<u8>) -> (r: u32)
    ensures
        r == crc32_chain(seed, data@),
{
    let mut digest = crc::crc32::Digest::new_with_initial(crc::crc32::IEEE, seed);
    crc::Hasher32::write(&mut digest, data.as_slice());
    crc::Hasher32::sum32(&digest)
}

} // verus!
