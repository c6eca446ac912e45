//! Codec for the CTCE8 binary configuration container used by certain
//! router firmware images: fixed magic headers, a chunked deflate body,
//! and a chained CRC32 that authenticates the compressed chunk data.

pub mod bytes;
pub mod checksum;
pub mod codec;
pub mod compressor;
pub mod errors;
pub mod header;
pub mod laws;
