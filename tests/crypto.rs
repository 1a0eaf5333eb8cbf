use aes::Aes256;
use cfb_mode::cipher::{AsyncStreamCipher, KeyIvInit};
use pngcrypt::{decrypt, decrypt_data, derive_key, encrypt, encrypt_data, encrypt_with_iv, PngError};

fn reference_seal(key: &[u8], iv: &[u8], plaintext: &[u8]) -> Vec<u8> {
    let mut buf = base64::encode(plaintext).into_bytes();
    cfb_mode::Encryptor::<Aes256>::new_from_slices(key, iv)
        .unwrap()
        .encrypt(&mut buf);
    let mut out = iv.to_vec();
    out.extend(buf);
    out
}

#[test]
fn key_is_sha512_256_of_password() {
    let key = derive_key("pw");
    let expected: Vec<u8> = (0..32)
        .map(|i| {
            u8::from_str_radix(
                &"85172861298246ed5e43d119dc55cb6d7f85e622369e099bd8299ff710fd5eff"[2 * i..2 * i + 2],
                16,
            )
            .unwrap()
        })
        .collect();
    assert_eq!(key, expected);
}

#[test]
fn encrypt_with_iv_layout() {
    let key = [7u8; 32];
    let iv = [9u8; 16];
    let c = encrypt_with_iv(&key, &iv, b"secret message").unwrap();
    assert_eq!(c, reference_seal(&key, &iv, b"secret message"));
    assert_eq!(&c[..16], &iv);
    assert_ne!(&c[16..], base64::encode(b"secret message").as_bytes());
    assert_eq!(c.len(), 16 + base64::encode(b"secret message").len());
}

#[test]
fn encrypt_decrypt_round_trip() {
    let key = derive_key("password");
    for pt in [&b""[..], b"hello", &[0u8, 0xff, 0xc3, 0x28, 0x80], "héllo wörld".as_bytes()] {
        let c = encrypt(&key, pt).unwrap();
        assert_eq!(decrypt(&key, &c), Ok(pt.to_vec()));
    }
}

#[test]
fn fresh_iv_each_time() {
    let key = [1u8; 32];
    let a = encrypt(&key, b"same").unwrap();
    let b = encrypt(&key, b"same").unwrap();
    assert_ne!(a[..16], b[..16]);
}

#[test]
fn data_round_trip_with_password() {
    let c = encrypt_data("pw", b"hello").unwrap();
    assert_eq!(decrypt_data("pw", &c), Ok(b"hello".to_vec()));
}

#[test]
fn wrong_password_never_gives_plaintext() {
    let c = encrypt_data("pw1", b"attack at dawn").unwrap();
    match decrypt_data("pw2", &c) {
        Ok(v) => assert_ne!(v, b"attack at dawn".to_vec()),
        Err(e) => assert!(e == PngError::Decode || e == PngError::MalformedCiphertext),
    }
}

#[test]
fn short_ciphertext_is_malformed() {
    let key = [0u8; 32];
    assert_eq!(decrypt(&key, &[0u8; 10]), Err(PngError::MalformedCiphertext));
    assert_eq!(decrypt(&[0u8; 5], &[0u8; 10]), Err(PngError::MalformedCiphertext));
}

#[test]
fn bad_key_length() {
    assert_eq!(encrypt(&[0u8; 5], b"x"), Err(PngError::InvalidKeyLength));
    assert_eq!(decrypt(&[0u8; 5], &[0u8; 20]), Err(PngError::InvalidKeyLength));
}

#[test]
fn garbage_is_not_base64() {
    let key = [3u8; 32];
    let iv = [4u8; 16];
    let mut blob = iv.to_vec();
    let mut bad = b"!!!!".to_vec();
    cfb_mode::Encryptor::<Aes256>::new_from_slices(&key, &iv)
        .unwrap()
        .encrypt(&mut bad);
    blob.extend(bad);
    assert_eq!(decrypt(&key, &blob), Err(PngError::Decode));
}

#[test]
fn trailing_whitespace_is_trimmed_from_password() {
    assert_eq!(derive_key("pw\n"), derive_key("pw"));
    assert_eq!(derive_key("pw \t"), derive_key("pw"));
    assert_ne!(derive_key(" pw"), derive_key("pw"));
}

#[test]
fn ciphertext_length_is_iv_plus_base64() {
    let key = [2u8; 32];
    assert_eq!(encrypt(&key, b"").unwrap().len(), 16);
    assert_eq!(encrypt(&key, b"a").unwrap().len(), 20);
    assert_eq!(encrypt(&key, b"hello").unwrap().len(), 24);
    assert_eq!(encrypt(&key, b"abcdef").unwrap().len(), 24);
}

#[test]
fn unicode_trailing_whitespace_is_trimmed_from_password() {
    assert_eq!(derive_key("pw\u{a0}"), derive_key("pw"));
    assert_eq!(derive_key("pw\u{3000}\u{85}\n"), derive_key("pw"));
    assert_eq!(derive_key("pw\u{2028} \u{205f}"), derive_key("pw"));
    assert_ne!(derive_key("pw\u{200b}"), derive_key("pw"));
    assert_ne!(derive_key("\u{a0}pw"), derive_key("pw"));
}

#[test]
fn empty_ciphertext_decrypts_to_nothing() {
    let key = [6u8; 32];
    assert_eq!(decrypt(&key, &[0u8; 16]), Ok(Vec::new()));
}
