use pngcrypt::bytes::{bytes_to_u32, u32_to_bytes};
use pngcrypt::{create_chunk, next_chunk, read_chunk, validate_png, PngError};

const SIGNATURE: [u8; 8] = [0x89, 0x50, 0x4e, 0x47, 0x0d, 0x0a, 0x1a, 0x0a];

#[test]
fn big_endian_integers() {
    assert_eq!(bytes_to_u32([0x12, 0x34, 0x56, 0x78]), 0x1234_5678);
    assert_eq!(u32_to_bytes(0x1234_5678), [0x12, 0x34, 0x56, 0x78]);
    assert_eq!(u32_to_bytes(0), [0, 0, 0, 0]);
    assert_eq!(bytes_to_u32([0xff, 0xff, 0xff, 0xff]), u32::MAX);
}

#[test]
fn create_chunk_sets_length_and_crc() {
    let c = create_chunk(b"hello", "tEXt");
    assert_eq!(c.length(), 5);
    assert_eq!(c.c_type, "tEXt");
    assert_eq!(c.data, b"hello".to_vec());
    assert_eq!(c.crc(), 0x5a80f362);
}

#[test]
fn raw_layout_of_iend() {
    let c = create_chunk(&[], "IEND");
    assert_eq!(
        c.raw(),
        vec![0, 0, 0, 0, b'I', b'E', b'N', b'D', 0xae, 0x42, 0x60, 0x82]
    );
}

#[test]
fn chunk_round_trip() {
    let data: Vec<u8> = (0..=255u8).collect();
    let c = create_chunk(&data, "abCD");
    let raw = c.raw();
    let d = read_chunk(&raw, 0).unwrap();
    assert_eq!(d.c_type, "abCD");
    assert_eq!(d.data, data);
    assert_eq!(d.length(), 256);
    assert_eq!(d.crc(), c.crc());
    assert_eq!(d.raw(), raw);
}

#[test]
fn read_chunk_at_offset() {
    let mut buf = vec![1, 2, 3];
    buf.extend(create_chunk(b"xyz", "tEXt").raw());
    let d = read_chunk(&buf, 3).unwrap();
    assert_eq!(d.c_type, "tEXt");
    assert_eq!(d.data, b"xyz".to_vec());
}

#[test]
fn read_chunk_truncated() {
    let raw = create_chunk(b"hello", "tEXt").raw();
    assert_eq!(read_chunk(&raw[..3], 0).err(), Some(PngError::Truncated));
    assert_eq!(read_chunk(&raw[..6], 0).err(), Some(PngError::Truncated));
    assert_eq!(read_chunk(&raw[..10], 0).err(), Some(PngError::Truncated));
    assert_eq!(read_chunk(&raw[..raw.len() - 1], 0).err(), Some(PngError::Truncated));
    assert_eq!(read_chunk(&raw, raw.len()).err(), Some(PngError::Truncated));
}

#[test]
fn read_chunk_bad_type() {
    let raw = vec![0, 0, 0, 0, 0xff, 0xfe, b'a', b'b', 0, 0, 0, 0];
    assert_eq!(read_chunk(&raw, 0).err(), Some(PngError::Decode));
}

#[test]
fn signature_accepted() {
    let mut f = SIGNATURE.to_vec();
    f.extend_from_slice(&[1, 2, 3]);
    assert_eq!(validate_png(&f), Ok(SIGNATURE.to_vec()));
    assert_eq!(validate_png(&SIGNATURE), Ok(SIGNATURE.to_vec()));
}

#[test]
fn signature_rejected_for_any_other_prefix() {
    for i in 0..8 {
        let mut f = SIGNATURE.to_vec();
        f[i] ^= 0x01;
        assert_eq!(validate_png(&f), Err(PngError::InvalidFormat));
    }
}

#[test]
fn not_a_png_is_invalid_format() {
    assert_eq!(validate_png(b"not a png"), Err(PngError::InvalidFormat));
}

#[test]
fn short_signature_is_truncated() {
    assert_eq!(validate_png(&SIGNATURE[..7]), Err(PngError::Truncated));
    assert_eq!(validate_png(&[]), Err(PngError::Truncated));
}

#[test]
fn next_chunk_ends_cleanly_on_short_tail() {
    let mut buf = create_chunk(b"ab", "tEXt").raw();
    let first = next_chunk(&buf, 0).unwrap().unwrap();
    assert_eq!(first.data, b"ab".to_vec());
    assert!(next_chunk(&buf, buf.len()).unwrap().is_none());
    buf.extend_from_slice(&[0, 0, 0]);
    assert!(next_chunk(&buf, 14).unwrap().is_none());
    buf.push(0);
    assert_eq!(next_chunk(&buf, 14).err(), Some(PngError::Truncated));
}
