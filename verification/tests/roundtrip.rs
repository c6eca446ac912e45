use ctce8_cfg::codec::{decode, encode};

fn pattern_bytes(n: usize) -> Vec<u8> {
    let mut v: Vec<u8> = Vec::with_capacity(n);
    let mut x: u32 = 0x12345678;
    for i in 0..n {
        x = x.wrapping_mul(1103515245).wrapping_add(12345);
        v.push((x >> 16) as u8 ^ (i as u8));
    }
    v
}

fn roundtrip(n: usize) {
    let input = pattern_bytes(n);
    let label: Vec<u8> = b"ZXHN F450".to_vec();
    let container = encode(&input, &label).expect("encode should succeed");
    let output = decode(&container).expect("decode should succeed");
    assert_eq!(output, input);
}

#[test]
fn roundtrip_empty() {
    roundtrip(0);
}

#[test]
fn roundtrip_one_byte() {
    roundtrip(1);
}

#[test]
fn roundtrip_just_below_window() {
    roundtrip(65535);
}

#[test]
fn roundtrip_exact_window() {
    roundtrip(65536);
}

#[test]
fn roundtrip_just_above_window() {
    roundtrip(65537);
}

#[test]
fn roundtrip_two_windows() {
    roundtrip(131072);
}

#[test]
fn roundtrip_three_windows_partial() {
    roundtrip(200000);
}

#[test]
fn compression_really_happens() {
    // A run of equal bytes must compress: if the deflate wrapper handed its
    // input back unchanged, the container could not be smaller than the input.
    let input = vec![0x41u8; 200000];
    let label: Vec<u8> = b"M".to_vec();
    let container = encode(&input, &label).expect("encode should succeed");
    assert!(container.len() < input.len());
    let output = decode(&container).expect("decode should succeed");
    assert_eq!(output, input);
}

#[test]
fn label_bytes_are_embedded() {
    // The device label stands as a big-endian length prefix at byte 136
    // followed by the raw label bytes.
    let input = pattern_bytes(100);
    let label: Vec<u8> = b"ZXHN F450".to_vec();
    let container = encode(&input, &label).expect("encode should succeed");
    assert_eq!(&container[136..140], &(label.len() as u32).to_be_bytes());
    assert_eq!(&container[140..140 + label.len()], label.as_slice());
}

#[test]
fn decode_accepts_any_label_content() {
    // The label is not validated beyond its length prefix: arbitrary bytes,
    // even unprintable ones, round-trip fine.
    let input = pattern_bytes(300);
    let label: Vec<u8> = vec![0xff, 0x00, 0x80, b' ', b'x'];
    let container = encode(&input, &label).expect("encode should succeed");
    assert_eq!(&container[140..145], label.as_slice());
    let output = decode(&container).expect("decode should succeed");
    assert_eq!(output, input);
}

#[test]
fn empty_label_roundtrip() {
    let input = pattern_bytes(10);
    let label: Vec<u8> = Vec::new();
    let container = encode(&input, &label).expect("encode should succeed");
    assert_eq!(&container[136..140], &0u32.to_be_bytes());
    let output = decode(&container).expect("decode should succeed");
    assert_eq!(output, input);
}

#[test]
fn container_layout_fixed_fields() {
    // The fixed pieces stand at their documented offsets: both magic blocks,
    // the little-endian size field, and the cfg header's marker words.
    let input = pattern_bytes(5);
    let label: Vec<u8> = b"AB".to_vec();
    let container = encode(&input, &label).expect("encode should succeed");
    assert_eq!(&container[0..4], &[0x99, 0x99, 0x99, 0x99]);
    assert_eq!(&container[4..8], &[0x44, 0x44, 0x44, 0x44]);
    assert_eq!(&container[8..12], &[0x55, 0x55, 0x55, 0x55]);
    assert_eq!(&container[12..16], &[0xAA, 0xAA, 0xAA, 0xAA]);
    let total = container.len() as u32;
    assert_eq!(&container[72..76], &(total - 128).to_le_bytes());
    let hs = 140 + label.len();
    assert_eq!(&container[hs..hs + 4], &[0x01, 0x02, 0x03, 0x04]);
    assert_eq!(&container[hs + 4..hs + 8], &[0, 0, 0, 0]);
    // uncompressed size field
    assert_eq!(&container[hs + 8..hs + 12], &(input.len() as u32).to_be_bytes());
    // chunk window size field
    assert_eq!(&container[hs + 16..hs + 20], &0x10000u32.to_be_bytes());
}
