use packed_font::rle::{compress, unpack_all, Unpacker, AA_BITS, AA_MAX};

fn quantize(data: &[u8]) -> Vec<u8> {
    data.iter().map(|b| b >> (8 - AA_BITS)).collect()
}

#[test]
fn compress_mixed_pixels() {
    let out = compress(vec![0, 255, 128], AA_BITS);
    assert_eq!(out, vec![15, 23, 7]);
    assert_eq!(unpack_all(&out), vec![0, 15, 8]);
}

#[test]
fn compress_splits_long_runs() {
    let data = vec![0u8; 20];
    let out = compress(data.clone(), AA_BITS);
    assert_eq!(out, vec![255, 0, 45]);
    assert_eq!(unpack_all(&out), quantize(&data));
}

#[test]
fn compress_empty_bitmap() {
    assert_eq!(compress(Vec::new(), AA_BITS), Vec::<u8>::new());
    assert_eq!(unpack_all(&[]), Vec::<u8>::new());
}

#[test]
fn compress_fully_covered_bitmap() {
    let data = vec![0xffu8; 4];
    let out = compress(data.clone(), AA_BITS);
    assert_eq!(out, vec![0, 60]);
    assert_eq!(unpack_all(&out), vec![15, 15, 15, 15]);
}

#[test]
fn compress_with_eight_bits() {
    let out = compress(vec![10, 255, 0], 8);
    // 245 uncovered, then 10 covered, closing on the partial first pixel.
    assert_eq!(out.iter().map(|b| *b as u32).sum::<u32>(), 3 * 255);
    assert_eq!(out[0], 245);
}

#[test]
fn run_sums_equal_units() {
    let data: Vec<u8> = (0..200u32).map(|i| ((i * 37) % 256) as u8).collect();
    let out = compress(data.clone(), AA_BITS);
    let sum: u32 = out.iter().map(|b| *b as u32).sum();
    assert_eq!(sum, data.len() as u32 * AA_MAX as u32);
}

#[test]
fn roundtrip_various_bitmaps() {
    let patterns: Vec<Vec<u8>> = vec![
        vec![0x80; 50],
        (0..=255u8).collect(),
        (0..300u32).map(|i| if (i / 7) % 2 == 0 { 0xff } else { 0x00 }).collect(),
        (0..300u32).map(|i| ((i * 91 + 13) % 256) as u8).collect(),
        vec![0xff; 40],
        vec![0x0f, 0xf0, 0x11, 0xee, 0x77],
    ];
    for data in patterns {
        let out = compress(data.clone(), AA_BITS);
        assert_eq!(unpack_all(&out), quantize(&data));
    }
}

#[test]
fn unpacker_yields_one_by_one() {
    let packed = [15u8, 23, 7];
    let mut u = Unpacker::new(&packed);
    assert_eq!(u.next(), Some(0));
    assert_eq!(u.next(), Some(15));
    assert_eq!(u.next(), Some(8));
    assert_eq!(u.next(), None);
    assert_eq!(u.next(), None);
}

#[test]
fn unpacker_partial_pixels() {
    // 3 uncovered units, then 20 covered units: the second run completes the
    // first pixel (12 units) and leaves 8 covered units for the second.
    let packed = [3u8, 20];
    assert_eq!(unpack_all(&packed), vec![12, 8]);
}
