use vstd::prelude::*;

verus! {

/// Why encoding or decoding a container failed. Each validation check of the
/// format has its own variant, so a caller can tell exactly which check the
/// input did not pass.
#[derive(Debug, Clone, Copy, PartialEq, Eq, Structural)]
pub enum CfgError {
    /// The input ended before a field or payload could be read in full.
    Truncated,
    /// The first fixed magic block does not match the expected constant.
    BadMagic1,
    /// The second fixed magic block does not match the expected constant.
    BadMagic2,
    /// The little-endian size field does not agree with the actual length.
    SizeMismatch,
    /// Too little data remains after the headers to hold one compressed chunk.
    DataMissing,
    /// The configuration header's marker words or zero padding are wrong.
    BadCfgMagic,
    /// The configuration header's own CRC32 does not match its first 24 bytes.
    BadHeaderCrc,
    /// A chunk payload is not a complete deflate stream of one window.
    Decompress,
    /// The chained CRC32 over all chunk payloads does not match the header.
    BadDataCrc,
    /// Compressing a window failed.
    Compress,
    /// A size field of the format cannot hold the required value.
    TooLarge,
}

/// The reason string each error carries, one fixed message per check.
pub open spec fn reason_spec(e: CfgError) -> Seq<char> {
    match e {
        CfgError::Truncated => "unexpected end of input"@,
        CfgError::BadMagic1 => "bad file format (first fixed header)"@,
        CfgError::BadMagic2 => "bad file format (second fixed header)"@,
        CfgError::SizeMismatch => "declared file size does not match the actual size"@,
        CfgError::DataMissing => "compressed data is missing"@,
        CfgError::BadCfgMagic => "bad cfg header magic or padding"@,
        CfgError::BadHeaderCrc => "cfg header crc32 check failed"@,
        CfgError::Decompress => "chunk payload could not be decompressed"@,
        CfgError::BadDataCrc => "compressed data crc32 check failed"@,
        CfgError::Compress => "window could not be compressed"@,
        CfgError::TooLarge => "value does not fit a size field of the format"@,
    }
}

/// No two checks share a reason: the eleven messages of `reason_spec` are
/// pairwise distinct, so the first failing check is identifiable from the
/// reported string alone.
pub proof fn lemma_reasons_distinct(a: CfgError, b: CfgError)
    requires
        a != b,
    ensures
        reason_spec(a) != reason_spec(b),
{
    reveal_strlit("unexpected end of input");
    reveal_strlit("bad file format (first fixed header)");
    reveal_strlit("bad file format (second fixed header)");
    reveal_strlit("declared file size does not match the actual size");
    reveal_strlit("compressed data is missing");
    reveal_strlit("bad cfg header magic or padding");
    reveal_strlit("cfg header crc32 check failed");
    reveal_strlit("chunk payload could not be decompressed");
    reveal_strlit("compressed data crc32 check failed");
    reveal_strlit("window could not be compressed");
    reveal_strlit("value does not fit a size field of the format");
    match a {
        CfgError::Truncated => {
            assert(reason_spec(a).len() == 23);
        },
        CfgError::BadMagic1 => {
            assert(reason_spec(a).len() == 36);
        },
        CfgError::BadMagic2 => {
            assert(reason_spec(a).len() == 37);
        },
        CfgError::SizeMismatch => {
            assert(reason_spec(a).len() == 49);
        },
        CfgError::DataMissing => {
            assert(reason_spec(a).len() == 26);
        },
        CfgError::BadCfgMagic => {
            assert(reason_spec(a).len() == 31);
        },
        CfgError::BadHeaderCrc => {
            assert(reason_spec(a).len() == 29);
        },
        CfgError::Decompress => {
            assert(reason_spec(a).len() == 39);
        },
        CfgError::BadDataCrc => {
            assert(reason_spec(a).len() == 34);
        },
        CfgError::Compress => {
            assert(reason_spec(a).len() == 30);
        },
        CfgError::TooLarge => {
            assert(reason_spec(a).len() == 45);
        },
    }
    match b {
        CfgError::Truncated => {
            assert(reason_spec(b).len() == 23);
        },
        CfgError::BadMagic1 => {
            assert(reason_spec(b).len() == 36);
        },
        CfgError::BadMagic2 => {
            assert(reason_spec(b).len() == 37);
        },
        CfgError::SizeMismatch => {
            assert(reason_spec(b).len() == 49);
        },
        CfgError::DataMissing => {
            assert(reason_spec(b).len() == 26);
        },
        CfgError::BadCfgMagic => {
            assert(reason_spec(b).len() == 31);
        },
        CfgError::BadHeaderCrc => {
            assert(reason_spec(b).len() == 29);
        },
        CfgError::Decompress => {
            assert(reason_spec(b).len() == 39);
        },
        CfgError::BadDataCrc => {
            assert(reason_spec(b).len() == 34);
        },
        CfgError::Compress => {
            assert(reason_spec(b).len() == 30);
        },
        CfgError::TooLarge => {
            assert(reason_spec(b).len() == 45);
        },
    }
    assert(reason_spec(a).len() != reason_spec(b).len());
}

impl CfgError {
    /// A human-readable reason string: exactly the message `reason_spec`
    /// assigns to each check.
    pub fn reason(&self) -> (r: &'static str)
        ensures
            r@ == reason_spec(*self),
    {
        match self {
            CfgError::Truncated => "unexpected end of input",
            CfgError::BadMagic1 => "bad file format (first fixed header)",
            CfgError::BadMagic2 => "bad file format (second fixed header)",
            CfgError::SizeMismatch => "declared file size does not match the actual size",
            CfgError::DataMissing => "compressed data is missing",
            CfgError::BadCfgMagic => "bad cfg header magic or padding",
            CfgError::BadHeaderCrc => "cfg header crc32 check failed",
            CfgError::Decompress => "chunk payload could not be decompressed",
            CfgError::BadDataCrc => "compressed data crc32 check failed",
            CfgError::Compress => "window could not be compressed",
            CfgError::TooLarge => "value does not fit a size field of the format",
        }
    }
}

} // verus!
