use ctce8_cfg::codec::{decode, encode};
use ctce8_cfg::errors::CfgError;
use ctce8_cfg::header::{part1_vec, part2_vec};

fn sample_container() -> (Vec<u8>, Vec<u8>) {
    let mut input: Vec<u8> = Vec::new();
    for i in 0..1000usize {
        input.push((i % 251) as u8);
    }
    let label: Vec<u8> = b"ZXHN F450".to_vec();
    let container = encode(&input, &label).expect("encode should succeed");
    (container, input)
}

#[test]
fn truncated_input_rejected() {
    let c: Vec<u8> = vec![0x99; 10];
    assert_eq!(decode(&c), Err(CfgError::Truncated));
}

#[test]
fn magic1_bit_flip_rejected() {
    let (container, _) = sample_container();
    // flip one bit in every byte position of the first magic block in turn
    for k in 0..72 {
        let mut d = container.clone();
        d[k] ^= 0x01;
        assert_eq!(decode(&d), Err(CfgError::BadMagic1));
    }
}

#[test]
fn magic2_bit_flip_rejected() {
    let (container, _) = sample_container();
    // the second magic block spans bytes 76..136
    for k in 76..136 {
        let mut d = container.clone();
        d[k] ^= 0x80;
        assert_eq!(decode(&d), Err(CfgError::BadMagic2));
    }
}

#[test]
fn truncation_fails_size_check() {
    let (container, _) = sample_container();
    let mut d = container.clone();
    d.pop();
    assert_eq!(decode(&d), Err(CfgError::SizeMismatch));
}

#[test]
fn padding_fails_size_check() {
    let (container, _) = sample_container();
    let mut d = container.clone();
    d.push(0);
    assert_eq!(decode(&d), Err(CfgError::SizeMismatch));
}

#[test]
fn size_field_corruption_rejected() {
    let (container, _) = sample_container();
    let mut d = container.clone();
    d[72] ^= 0xff;
    assert_eq!(decode(&d), Err(CfgError::SizeMismatch));
}

#[test]
fn too_short_body_rejected() {
    // Correct magic blocks and a consistent size field, but no room for even
    // the smallest compressed chunk behind the headers.
    let mut d: Vec<u8> = Vec::new();
    d.extend_from_slice(&part1_vec());
    d.extend_from_slice(&[0, 0, 0, 0]);
    d.extend_from_slice(&part2_vec());
    d.extend_from_slice(&0u32.to_be_bytes());
    d.extend_from_slice(&[0u8; 5]);
    let total = d.len() as u32;
    let size_field = (total - 128).to_le_bytes();
    d[72..76].copy_from_slice(&size_field);
    assert_eq!(decode(&d), Err(CfgError::DataMissing));
}

#[test]
fn cfg_header_padding_corruption_rejected() {
    let (container, _) = sample_container();
    let hs = 140 + 9;  // label "ZXHN F450" has 9 bytes
    let mut d = container.clone();
    d[hs + 30] = 1;  // inside the required-zero padding, not covered by the self-CRC
    assert_eq!(decode(&d), Err(CfgError::BadCfgMagic));
}

#[test]
fn cfg_header_self_crc_detects_corruption() {
    // Corrupting any of the first 24 bytes of the cfg header without
    // updating its embedded CRC fails before the chunk loop begins: either
    // the marker check or the self-CRC check reports it.
    let (container, _) = sample_container();
    let hs = 140 + 9;
    for k in 0..24 {
        let mut d = container.clone();
        d[hs + k] ^= 0x40;
        let r = decode(&d);
        assert!(
            r == Err(CfgError::BadCfgMagic) || r == Err(CfgError::BadHeaderCrc),
            "offset {} gave {:?}",
            k,
            r
        );
        if k >= 8 {
            // outside the marker words the self-CRC is what catches it
            assert_eq!(r, Err(CfgError::BadHeaderCrc));
        }
    }
}

#[test]
fn payload_corruption_rejected() {
    // A corrupted compressed byte anywhere in the payload is caught: as a
    // broken deflate stream or, if it still inflates, by the chained CRC.
    let (container, _) = sample_container();
    let hs = 140 + 9;
    let payload_start = hs + 60 + 12;
    for k in payload_start..container.len() {
        let mut d = container.clone();
        d[k] ^= 0xff;
        let r = decode(&d);
        assert!(
            r == Err(CfgError::Decompress) || r == Err(CfgError::BadDataCrc),
            "offset {} gave {:?}",
            k,
            r
        );
    }
}

#[test]
fn chained_crc_detects_payload_change() {
    // Extend the final chunk's payload with a trailing byte and patch the
    // size field so every header check, including the cfg header self-CRC,
    // still passes: only the chained CRC over the payload bytes reports it.
    let (container, input) = sample_container();
    let mut d = container.clone();
    d.push(0x00);
    let total = d.len() as u32;
    let size_field = (total - 128).to_le_bytes();
    d[72..76].copy_from_slice(&size_field);
    assert_eq!(decode(&d), Err(CfgError::BadDataCrc));
    // the unmodified container still carries the original content
    assert_eq!(decode(&container), Ok(input));
}

#[test]
fn reason_strings_are_distinct() {
    let all = [
        CfgError::Truncated,
        CfgError::BadMagic1,
        CfgError::BadMagic2,
        CfgError::SizeMismatch,
        CfgError::DataMissing,
        CfgError::BadCfgMagic,
        CfgError::BadHeaderCrc,
        CfgError::Decompress,
        CfgError::BadDataCrc,
        CfgError::Compress,
        CfgError::TooLarge,
    ];
    for i in 0..all.len() {
        for j in 0..all.len() {
            if i != j {
                assert_ne!(all[i].reason(), all[j].reason());
            }
        }
    }
}

#[test]
fn garbage_payload_fails_decompression() {
    // Overwrite the whole compressed payload in place: the length and all
    // header checks still hold, but the bytes are no deflate stream.
    let (container, _) = sample_container();
    let hs = 140 + 9;
    let payload_start = hs + 60 + 12;
    let mut d = container.clone();
    for b in d[payload_start..].iter_mut() {
        *b = 0xff;
    }
    assert_eq!(decode(&d), Err(CfgError::Decompress));
}

#[test]
fn stored_crcs_match_independent_ieee_crc32() {
    // Cross-check both CRC fields against the crc crate called directly:
    // the self-CRC covers the cfg header's first 24 bytes, the chained CRC
    // covers the compressed payload (one chunk here, seeded with zero).
    let (container, _) = sample_container();
    let hs = 140 + 9;
    let self_crc = crc::crc32::checksum_ieee(&container[hs..hs + 24]);
    assert_eq!(&container[hs + 24..hs + 28], &self_crc.to_be_bytes());
    let payload_start = hs + 60 + 12;
    let chained = crc::crc32::checksum_ieee(&container[payload_start..]);
    assert_eq!(&container[hs + 20..hs + 24], &chained.to_be_bytes());
}
