use pngcrypt::{
    create_chunk, decrypt_png, encrypt_png, encrypt_png_with_iv, extract_secret_chunk,
    insert_secret_chunk, read_chunk, PngError, CHUNK_NAME,
};

const SIGNATURE: [u8; 8] = [0x89, 0x50, 0x4e, 0x47, 0x0d, 0x0a, 0x1a, 0x0a];

fn png_of(chunks: &[(&str, &[u8])]) -> Vec<u8> {
    let mut f = SIGNATURE.to_vec();
    for (t, d) in chunks {
        f.extend(create_chunk(d, t).raw());
    }
    f
}

fn minimal_png() -> Vec<u8> {
    let ihdr = [0, 0, 0, 1, 0, 0, 0, 1, 8, 0, 0, 0, 0];
    let idat = [0x78, 0x9c, 0x63, 0x60, 0x00, 0x00, 0x00, 0x02, 0x00, 0x01];
    png_of(&[("IHDR", &ihdr), ("IDAT", &idat), ("IEND", &[])])
}

fn chunk_types(f: &[u8]) -> Vec<String> {
    let mut pos = 8;
    let mut types = Vec::new();
    while f.len() - pos >= 4 {
        let c = read_chunk(f, pos).unwrap();
        pos += 12 + c.length() as usize;
        types.push(c.c_type);
    }
    types
}

fn strip_secret(f: &[u8]) -> Vec<u8> {
    let mut out = f[..8].to_vec();
    let mut pos = 8;
    while f.len() - pos >= 4 {
        let c = read_chunk(f, pos).unwrap();
        let end = pos + 12 + c.length() as usize;
        if c.c_type != CHUNK_NAME {
            out.extend_from_slice(&f[pos..end]);
        }
        pos = end;
    }
    out
}

#[test]
fn hello_round_trip_through_minimal_png() {
    let png = minimal_png();
    let out = encrypt_png(&png, "pw", b"hello").unwrap();
    assert_eq!(chunk_types(&out), vec!["IHDR", "crPt", "IDAT", "IEND"]);
    assert_eq!(decrypt_png(&out, "pw"), Ok(b"hello".to_vec()));
}

#[test]
fn round_trip_non_ascii_and_empty() {
    let png = minimal_png();
    for secret in [&b""[..], &[0xffu8, 0x00, 0xfe, 0x80][..], "ключ".as_bytes()] {
        let out = encrypt_png(&png, "pässwörd", secret).unwrap();
        assert_eq!(decrypt_png(&out, "pässwörd"), Ok(secret.to_vec()));
    }
}

#[test]
fn wrong_password_does_not_recover() {
    let out = encrypt_png(&minimal_png(), "right", b"the secret").unwrap();
    match decrypt_png(&out, "wrong") {
        Ok(v) => assert_ne!(v, b"the secret".to_vec()),
        Err(e) => assert!(e == PngError::Decode || e == PngError::MalformedCiphertext),
    }
}

#[test]
fn copy_through_is_lossless() {
    let png = png_of(&[
        ("IHDR", &[1, 2, 3]),
        ("tEXt", b"comment"),
        ("IDAT", &[9, 9]),
        ("IDAT", &[8]),
        ("IEND", &[]),
    ]);
    let out = encrypt_png(&png, "pw", b"payload").unwrap();
    assert_eq!(
        chunk_types(&out),
        vec!["IHDR", "tEXt", "crPt", "IDAT", "IDAT", "IEND"]
    );
    assert_eq!(strip_secret(&out), png);
}

#[test]
fn insert_places_chunk_before_first_idat() {
    let png = minimal_png();
    let out = insert_secret_chunk(&png, b"abc").unwrap();
    let ihdr_end = 8 + 12 + 13;
    let mut expected = png[..ihdr_end].to_vec();
    expected.extend(create_chunk(b"abc", CHUNK_NAME).raw());
    expected.extend_from_slice(&png[ihdr_end..]);
    assert_eq!(out, expected);
    assert_eq!(extract_secret_chunk(&out), Ok(b"abc".to_vec()));
}

#[test]
fn trailing_bytes_after_last_chunk_are_dropped() {
    let mut png = minimal_png();
    let len = png.len();
    png.extend_from_slice(&[1, 2, 3]);
    let out = insert_secret_chunk(&png, b"").unwrap();
    assert_eq!(strip_secret(&out), png[..len].to_vec());
}

#[test]
fn encrypt_with_given_iv_is_deterministic() {
    let png = minimal_png();
    let iv = [5u8; 16];
    let a = encrypt_png_with_iv(&png, "pw", &iv, b"x").unwrap();
    let b = encrypt_png_with_iv(&png, "pw", &iv, b"x").unwrap();
    assert_eq!(a, b);
    assert_eq!(decrypt_png(&a, "pw"), Ok(b"x".to_vec()));
}

#[test]
fn no_secret_chunk_is_not_found() {
    assert_eq!(decrypt_png(&minimal_png(), "pw"), Err(PngError::ChunkNotFound));
}

#[test]
fn no_image_data_is_truncated() {
    let png = png_of(&[("IHDR", &[1]), ("IEND", &[])]);
    assert_eq!(encrypt_png(&png, "pw", b"s"), Err(PngError::Truncated));
    assert_eq!(insert_secret_chunk(&SIGNATURE, b"s"), Err(PngError::Truncated));
}

#[test]
fn password_trailing_whitespace_is_ignored() {
    let out = encrypt_png(&minimal_png(), "pw\n", b"hello").unwrap();
    assert_eq!(decrypt_png(&out, "pw"), Ok(b"hello".to_vec()));
    assert_eq!(decrypt_png(&out, "pw \r\n"), Ok(b"hello".to_vec()));
}

#[test]
fn bad_signature_fails_both_ways() {
    assert_eq!(encrypt_png(b"not a png at all", "pw", b"s"), Err(PngError::InvalidFormat));
    assert_eq!(decrypt_png(b"not a png at all", "pw"), Err(PngError::InvalidFormat));
}

#[test]
fn truncated_chunk_is_an_error() {
    let mut png = minimal_png();
    png.truncate(png.len() - 2);
    assert_eq!(encrypt_png(&png, "pw", b"s"), Err(PngError::Truncated));
    assert_eq!(decrypt_png(&png, "pw"), Err(PngError::Truncated));
}

#[test]
fn first_secret_chunk_wins() {
    let png = png_of(&[
        ("IHDR", &[1]),
        ("crPt", b"first"),
        ("crPt", b"second"),
        ("IDAT", &[2]),
    ]);
    assert_eq!(extract_secret_chunk(&png), Ok(b"first".to_vec()));
}

#[test]
fn error_messages() {
    assert_eq!(PngError::InvalidFormat.message(), "Invalid file format");
    assert_eq!(PngError::ChunkNotFound.message(), "No secret chunk found");
}
