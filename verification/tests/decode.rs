//! Tests for the pure image decoder.

use material_pipeline::{decode, AssetPath, DecodeError};

fn path(s: &str) -> AssetPath {
    AssetPath::new(s.as_bytes().to_vec())
}

fn raw(w: u32, h: u32, c: u8, payload: &[u8]) -> Vec<u8> {
    let mut v = Vec::new();
    v.extend_from_slice(&w.to_le_bytes());
    v.extend_from_slice(&h.to_le_bytes());
    v.push(c);
    v.extend_from_slice(payload);
    v
}

#[test]
fn empty_input_is_truncated() {
    let p = path("tex/a.png");
    assert_eq!(decode(&p, &Vec::new()), Err(DecodeError::Truncated));
}

#[test]
fn short_header_is_truncated() {
    let p = path("tex/a.png");
    assert_eq!(decode(&p, &vec![1, 2, 3, 4, 5]), Err(DecodeError::Truncated));
}

#[test]
fn zero_channels_is_unsupported() {
    let p = path("tex/a.png");
    assert_eq!(decode(&p, &raw(1, 1, 0, &[7])), Err(DecodeError::Unsupported));
}

#[test]
fn five_channels_is_unsupported() {
    let p = path("tex/a.png");
    assert_eq!(decode(&p, &raw(1, 1, 5, &[1, 2, 3, 4, 5])), Err(DecodeError::Unsupported));
}

#[test]
fn missing_payload_is_truncated() {
    let p = path("tex/a.png");
    assert_eq!(decode(&p, &raw(2, 2, 3, &[9, 9, 9])), Err(DecodeError::Truncated));
}

#[test]
fn trailing_bytes_are_corrupt() {
    let p = path("tex/a.png");
    assert_eq!(decode(&p, &raw(1, 1, 1, &[9, 9])), Err(DecodeError::Corrupt));
}

#[test]
fn one_channel_expands_to_opaque_grey() {
    let p = path("tex/a.png");
    let img = decode(&p, &raw(2, 1, 1, &[10, 200])).unwrap();
    assert_eq!(img.width, 2);
    assert_eq!(img.height, 1);
    assert_eq!(img.data, vec![10, 10, 10, 255, 200, 200, 200, 255]);
    assert_eq!(img.path.bytes().as_slice(), b"tex/a.png");
}

#[test]
fn two_channels_expand_to_grey_plus_alpha() {
    let p = path("tex/a.png");
    let img = decode(&p, &raw(1, 2, 2, &[10, 20, 30, 40])).unwrap();
    assert_eq!(img.data, vec![10, 10, 10, 20, 30, 30, 30, 40]);
}

#[test]
fn three_channels_gain_opaque_alpha() {
    let p = path("tex/a.png");
    let img = decode(&p, &raw(1, 1, 3, &[1, 2, 3])).unwrap();
    assert_eq!(img.data, vec![1, 2, 3, 255]);
}

#[test]
fn four_channels_pass_through() {
    let p = path("tex/a.png");
    let img = decode(&p, &raw(2, 1, 4, &[1, 2, 3, 4, 5, 6, 7, 8])).unwrap();
    assert_eq!(img.data, vec![1, 2, 3, 4, 5, 6, 7, 8]);
}

#[test]
fn largest_dimensions_are_rejected_as_truncated() {
    let p = path("tex/a.png");
    assert_eq!(decode(&p, &raw(u32::MAX, u32::MAX, 4, &[])), Err(DecodeError::Truncated));
}

#[test]
fn zero_sized_image_decodes_empty() {
    let p = path("tex/a.png");
    let img = decode(&p, &raw(0, 7, 4, &[])).unwrap();
    assert_eq!(img.width, 0);
    assert_eq!(img.height, 7);
    assert_eq!(img.data.len(), 0);
}
