use rusty_enet::compressor::{Compressor, RangeCoder};

fn round_trip(buffers: Vec<&[u8]>) -> (usize, Vec<u8>) {
    let plain: Vec<u8> = buffers.iter().flat_map(|b| b.iter().copied()).collect();
    let mut coder = RangeCoder::new();
    let mut compressed = vec![0u8; plain.len() * 2 + 64];
    let n = coder.compress(buffers, plain.len(), &mut compressed);
    assert!(n > 0);
    let mut decoder = RangeCoder::new();
    let mut out = vec![0u8; plain.len()];
    let m = decoder.decompress(&compressed[..n], &mut out);
    assert_eq!(m, plain.len());
    assert_eq!(out, plain);
    (n, plain)
}

#[test]
fn text_round_trips_and_shrinks() {
    let text = "the quick brown fox jumps over the lazy dog; the quick brown fox jumps again".repeat(20);
    let (n, plain) = round_trip(vec![text.as_bytes()]);
    assert!(n < plain.len() / 2);
}

#[test]
fn split_buffers_round_trip_as_one() {
    let a: Vec<u8> = (0..300u32).map(|i| (i * 7 % 13) as u8).collect();
    let b: Vec<u8> = (0..500u32).map(|i| (i % 3) as u8).collect();
    let (_, plain) = round_trip(vec![&a[..], &[][..], &b[..]]);
    assert_eq!(plain.len(), 800);
}

#[test]
fn long_input_resets_the_model_and_round_trips() {
    let data: Vec<u8> = (0..20_000u32).map(|i| ((i * 2654435761u32) >> 24) as u8).collect();
    round_trip(vec![&data[..]]);
}

#[test]
fn every_byte_value_round_trips() {
    let data: Vec<u8> = (0..=255u8).chain((0..=255u8).rev()).collect();
    round_trip(vec![&data[..]]);
}

#[test]
fn nothing_to_compress_gives_zero() {
    let mut coder = RangeCoder::new();
    let mut out = vec![0u8; 16];
    assert_eq!(coder.compress(vec![], 10, &mut out), 0);
    assert_eq!(coder.compress(vec!["abc".as_bytes()], 0, &mut out), 0);
    assert_eq!(coder.decompress(&[], &mut out), 0);
    assert_eq!(out, vec![0u8; 16]);
}

#[test]
fn output_that_does_not_fit_gives_zero() {
    let data: Vec<u8> = (0..1000u32).map(|i| ((i * 2654435761u32) >> 24) as u8).collect();
    let mut coder = RangeCoder::new();
    let mut out = vec![0u8; 10];
    assert_eq!(coder.compress(vec![&data[..]], data.len(), &mut out), 0);
    let mut coder = RangeCoder::new();
    let mut big = vec![0u8; 2000];
    let n = coder.compress(vec![&data[..]], data.len(), &mut big);
    assert!(n > 0);
    let mut small = vec![0u8; 100];
    assert_eq!(RangeCoder::new().decompress(&big[..n], &mut small), 0);
}

#[test]
fn one_byte_compresses_to_its_literal_code() {
    let mut coder = RangeCoder::new();
    let mut out = vec![0u8; 16];
    let n = coder.compress(vec![&[0x41u8][..]], 1, &mut out);
    assert_eq!(n, 4);
    assert_eq!(&out[..4], &[0x41, 0xBE, 0x41, 0xBE]);
}

#[test]
fn code_that_does_not_fit_gives_zero_not_a_partial_length() {
    let mut coder = RangeCoder::new();
    let mut out = vec![0u8; 3];
    assert_eq!(coder.compress(vec![&[0x41u8][..]], 1, &mut out), 0);
}

#[test]
fn literal_code_decompresses_to_one_byte() {
    let mut coder = RangeCoder::new();
    let mut out = vec![0u8; 16];
    let n = coder.decompress(&[0x41, 0xBE, 0x41, 0xBE], &mut out);
    assert_eq!(n, 1);
    assert_eq!(out[0], 0x41);
}
