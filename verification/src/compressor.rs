use vstd::prelude::*;

use crate::errors::CfgError;

verus! {

/// The bytes flate2 produces when one window is compressed at maximum level
/// into a complete, self-finished zlib stream. Deflate output is a pure
/// function of the window bytes, so it is named rather than spelled out.
pub uninterp spec fn deflate_of(w: Seq<u8>) -> Seq<u8>;

/// What flate2 yields when the bytes begin with one complete zlib stream
/// whose decompressed form fits in one chunk window: `Some` of that
/// decompressed form, or `None` when the bytes are not such a stream.
pub uninterp spec fn inflate_win(c: Seq<u8>) -> Option<Seq<u8>>;

/// Relies on flate2::Compress::compress_vec (zlib wrapper, Compression::best,
/// FlushCompress::Finish): one finished stream is written for the window, and
/// flate2 documents the codec as lossless, so inflating that stream gives the
/// window bytes back. compress_vec writes into the reserved spare capacity
/// and reports StreamEnd exactly when the finished stream fits it, so the
/// call succeeds whenever the stream fits the reserved 0x10000 + 1064 bytes.
#[verifier::external_body]
pub fn deflate_window(data: &Vec<u8>) -> (r: Result<Vec<u8>, CfgError>)
    requires
        data@.len() <= 0x10000,
    ensures
        r matches Ok(c) ==> c@ == deflate_of(data@),
        r matches Ok(c) ==> inflate_win(deflate_of(data@)) == Some(data@),
        r matches Err(e) ==> e == CfgError::Compress,
        deflate_of(data@).len() <= 0x10000 + 1064 ==> r is Ok,
{
    let mut out: Vec<u8> = Vec::with_capacity(0x10000 + 1064);
    let mut comp = flate2::Compress::new(flate2::Compression::best(), true);
    match comp.compress_vec(data.as_slice(), &mut out, flate2::FlushCompress::Finish) {
        Ok(flate2::Status::StreamEnd) => Ok(out),
        _ => Err(CfgError::Compress),
    }
}

/// Relies on flate2::Decompress::decompress_vec (zlib wrapper,
/// FlushDecompress::Finish) with room for one full window plus slack: the
/// stream either finishes within one window, which yields its decompressed
/// form, or the bytes are not one complete window-sized stream.
#[verifier::external_body]
pub fn inflate_payload(data: &Vec<u8>) -> (r: Result<Vec<u8>, CfgError>)
    ensures
        r matches Ok(w) ==> inflate_win(data@) == Some(w@) && w@.len() <= 0x10000,
        r matches Err(e) ==> e == CfgError::Decompress && inflate_win(data@) is None,
{
    let mut out: Vec<u8> = Vec::with_capacity(0x10000 + 64);
    let mut decomp = flate2::Decompress::new(true);
    match decomp.decompress_vec(data.as_slice(), &mut out, flate2::FlushDecompress::Finish) {
        Ok(flate2::Status::StreamEnd) if out.len() <= 0x10000 => Ok(out),
        _ => Err(CfgError::Decompress),
    }
}

} // verus!
