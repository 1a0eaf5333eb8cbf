//! The symmetric cipher pipeline: a key hashed from the password, the
//! plaintext armoured as base64, and AES-256 in CFB mode under a random
//! IV that travels in front of the ciphertext.

use vstd::prelude::*;
use vstd::string::StringSliceAdditionalSpecFns;
use vstd::utf8::encode_utf8;
use aes::Aes256;
use cfb_mode::cipher::{AsyncStreamCipher, KeyIvInit};
use rand::Rng;
use sha2::Digest;
use crate::chunk::{copy_range, push_all};
use crate::error::PngError;

verus! {

/// The error of `base64::decode`, carried through unopened.
#[verifier::external_type_specification]
#[verifier::external_body]
pub struct ExDecodeError(base64::DecodeError);

/// The SHA-512/256 digest of a byte sequence.
pub uninterp spec fn sha512_256_of(bytes: Seq<u8>) -> Seq<u8>;

/// The character of the standard base64 alphabet for a six-bit value.
pub open spec fn base64_digit(v: int) -> u8 {
    if v < 26 {
        (0x41 + v) as u8
    } else if v < 52 {
        (0x61 + v - 26) as u8
    } else if v < 62 {
        (0x30 + v - 52) as u8
    } else if v == 62 {
        0x2b
    } else {
        0x2f
    }
}

/// The standard, padded base64 text of a byte sequence: four characters for
/// each group of three bytes, the last group padded with `=`.
pub open spec fn base64_of(b: Seq<u8>) -> Seq<u8>
    decreases b.len(),
{
    if b.len() == 0 {
        seq![]
    } else {
        let x = b[0] as int;
        let y = if b.len() > 1 { b[1] as int } else { 0 };
        let z = if b.len() > 2 { b[2] as int } else { 0 };
        let c0 = base64_digit(x / 4);
        let c1 = base64_digit((x % 4) * 16 + y / 16);
        let c2 = base64_digit((y % 16) * 4 + z / 64);
        let c3 = base64_digit(z % 64);
        if b.len() == 1 {
            seq![c0, c1, 0x3du8, 0x3du8]
        } else if b.len() == 2 {
            seq![c0, c1, c2, 0x3du8]
        } else {
            seq![c0, c1, c2, c3] + base64_of(b.subrange(3, b.len() as int))
        }
    }
}

/// The base64 text of `n` bytes is `base64_len(n)` characters long.
pub proof fn lemma_base64_len(b: Seq<u8>)
    ensures
        base64_of(b).len() == base64_len(b.len()),
    decreases b.len(),
{
    if b.len() >= 3 {
        lemma_base64_len(b.subrange(3, b.len() as int));
        let n = b.len() as int;
        assert(4 * ((n + 2) / 3) == 4 + 4 * ((n - 3 + 2) / 3));
    }
}

/// The bytes that standard base64 text decodes to, if it is valid.
pub uninterp spec fn base64_decoded(text: Seq<u8>) -> Option<Seq<u8>>;

/// AES-256 in CFB mode, encrypting `data` under `key` and `iv`.
pub uninterp spec fn aes256_cfb_encrypt(key: Seq<u8>, iv: Seq<u8>, data: Seq<u8>) -> Seq<u8>;

/// AES-256 in CFB mode, decrypting `data` under `key` and `iv`.
pub uninterp spec fn aes256_cfb_decrypt(key: Seq<u8>, iv: Seq<u8>, data: Seq<u8>) -> Seq<u8>;

/// Relies on `sha2::Sha512_256::digest`: a 32-byte digest that depends on the
/// bytes alone.
#[verifier::external_body]
fn sha512_256(bytes: &[u8]) -> (r: Vec<u8>)
    ensures
        r@ == sha512_256_of(bytes@),
        r@.len() == 32,
{
    sha2::Sha512_256::digest(bytes).to_vec()
}

/// Relies on `str::trim_end`: it drops the trailing characters for which
/// `char::is_whitespace` holds, which are those of the Unicode White_Space
/// property.
#[verifier::external_body]
fn trim_end(s: &str) -> (r: &str)
    ensures
        r@ == trim_end_spec(s@),
{
    s.trim_end()
}

/// Relies on `base64::encode`: standard alphabet, padded. It panics when the
/// length of the text (`encoded_size`) overflows a `usize`.
#[verifier::external_body]
fn base64_encode(bytes: &[u8]) -> (r: Vec<u8>)
    requires
        base64_len(bytes@.len()) <= usize::MAX,
    ensures
        r@ == base64_of(bytes@),
{
    base64::encode(bytes).into_bytes()
}

/// Relies on `base64::decode` (standard alphabet, padded): it fails on text
/// that is not base64, and it gives back the bytes that `base64::encode`
/// turned into the text; empty text decodes to no bytes.
#[verifier::external_body]
fn base64_decode(text: &[u8]) -> (r: Result<Vec<u8>, base64::DecodeError>)
    ensures
        match r {
            Ok(v) => base64_decoded(text@) == Some(v@) && (text@.len() == 0 ==> v@.len() == 0)
                && forall|b: Seq<u8>| #[trigger] base64_of(b) == text@ ==> v@ == b,
            Err(_) => base64_decoded(text@) is None && text@.len() != 0 && forall|b: Seq<u8>|
                #[trigger] base64_of(b) != text@,
        },
{
    base64::decode(text)
}

/// Relies on `cfb_mode::Encryptor::<aes::Aes256>`: `new_from_slices` accepts
/// exactly a 32-byte key and a 16-byte IV, and `encrypt` then transforms a
/// copy of the data in place.
#[verifier::external_body]
fn cfb_encrypt(key: &[u8], iv: &[u8], data: &[u8]) -> (r: Option<Vec<u8>>)
    ensures
        match r {
            Some(c) => key@.len() == 32 && iv@.len() == 16 && c@ == aes256_cfb_encrypt(key@, iv@, data@)
                && c@.len() == data@.len(),
            None => key@.len() != 32 || iv@.len() != 16,
        },
{
    let cipher = cfb_mode::Encryptor::<Aes256>::new_from_slices(key, iv).ok()?;
    let mut buf = data.to_vec();
    cipher.encrypt(buf.as_mut_slice());
    Some(buf)
}

/// Relies on `cfb_mode::Decryptor::<aes::Aes256>`: `new_from_slices` accepts
/// exactly a 32-byte key and a 16-byte IV, and `decrypt` then undoes, on a
/// copy of the data, what the encryptor did under the same key and IV.
#[verifier::external_body]
fn cfb_decrypt(key: &[u8], iv: &[u8], data: &[u8]) -> (r: Option<Vec<u8>>)
    ensures
        match r {
            Some(p) => key@.len() == 32 && iv@.len() == 16 && p@ == aes256_cfb_decrypt(key@, iv@, data@)
                && p@.len() == data@.len()
                && forall|q: Seq<u8>| #[trigger] aes256_cfb_encrypt(key@, iv@, q) == data@ ==> p@ == q,
            None => key@.len() != 32 || iv@.len() != 16,
        },
{
    let cipher = cfb_mode::Decryptor::<Aes256>::new_from_slices(key, iv).ok()?;
    let mut buf = data.to_vec();
    cipher.decrypt(buf.as_mut_slice());
    Some(buf)
}

/// Relies on `rand::thread_rng().gen::<[u8; 16]>()`: sixteen random bytes.
#[verifier::external_body]
pub(crate) fn random_iv() -> (r: Vec<u8>)
    ensures
        r@.len() == 16,
{
    rand::thread_rng().gen::<[u8; 16]>().to_vec()
}

/// The length of the padded base64 text of `n` bytes.
pub open spec fn base64_len(n: nat) -> nat {
    4 * ((n + 2) / 3)
}

/// Whether `c` has the Unicode White_Space property, as `char::is_whitespace`
/// decides it: tab to carriage return, space, U+0085, U+00A0, U+1680,
/// U+2000 to U+200A, U+2028, U+2029, U+202F, U+205F and U+3000.
pub open spec fn is_white_space(c: char) -> bool {
    let u = c as u32;
    ||| 0x09 <= u <= 0x0d
    ||| u == 0x20
    ||| u == 0x85
    ||| u == 0xa0
    ||| u == 0x1680
    ||| 0x2000 <= u <= 0x200a
    ||| u == 0x2028
    ||| u == 0x2029
    ||| u == 0x202f
    ||| u == 0x205f
    ||| u == 0x3000
}

/// The characters with trailing whitespace removed.
pub open spec fn trim_end_spec(s: Seq<char>) -> Seq<char>
    decreases s.len(),
{
    if s.len() > 0 && is_white_space(s.last()) {
        trim_end_spec(s.drop_last())
    } else {
        s
    }
}

/// The cipher key derived from a password: its trailing whitespace is
/// dropped and the UTF-8 of the rest hashed once.
pub open spec fn key_of(password: Seq<char>) -> Seq<u8> {
    sha512_256_of(encode_utf8(trim_end_spec(password)))
}

/// The ciphertext of `plaintext` under `key` and `iv`: the IV, then the
/// base64 text of the plaintext encrypted in CFB mode.
pub open spec fn sealed(key: Seq<u8>, iv: Seq<u8>, plaintext: Seq<u8>) -> Seq<u8> {
    iv + aes256_cfb_encrypt(key, iv, base64_of(plaintext))
}

/// What decrypting `data` under `key` gives.
pub open spec fn opened(key: Seq<u8>, data: Seq<u8>) -> Result<Seq<u8>, PngError> {
    if data.len() < 16 {
        Err(PngError::MalformedCiphertext)
    } else if key.len() != 32 {
        Err(PngError::InvalidKeyLength)
    } else {
        match base64_decoded(
            aes256_cfb_decrypt(key, data.subrange(0, 16), data.subrange(16, data.len() as int)),
        ) {
            Some(v) => Ok(v),
            None => Err(PngError::Decode),
        }
    }
}

/// The view of a byte result.
pub open spec fn bytes_result(r: Result<Vec<u8>, PngError>) -> Result<Seq<u8>, PngError> {
    match r {
        Ok(v) => Ok(v@),
        Err(e) => Err(e),
    }
}

/// Derives the 32-byte cipher key from a password: trailing whitespace is
/// dropped, then a single SHA-512/256 pass.
pub fn derive_key(password: &str) -> (r: Vec<u8>)
    ensures
        r@ == key_of(password@),
        r@.len() == 32,
{
    sha512_256(trim_end(password).as_bytes())
}

/// Encrypts `data` under `key` with the given 16-byte IV.
pub fn encrypt_with_iv(key: &[u8], iv: &[u8], data: &[u8]) -> (r: Result<Vec<u8>, PngError>)
    requires
        iv@.len() == 16,
        16 + base64_len(data@.len()) <= usize::MAX,
    ensures
        match r {
            Ok(c) => key@.len() == 32 && c@ == sealed(key@, iv@, data@) && c@.len() == 16
                + base64_len(data@.len()),
            Err(e) => key@.len() != 32 && e == PngError::InvalidKeyLength,
        },
{
    let text = base64_encode(data);
    proof {
        lemma_base64_len(data@);
    }
    let buffer = match cfb_encrypt(key, iv, text.as_slice()) {
        Some(b) => b,
        None => return Err(PngError::InvalidKeyLength),
    };
    let mut cipher_text: Vec<u8> = Vec::new();
    push_all(&mut cipher_text, iv);
    push_all(&mut cipher_text, buffer.as_slice());
    Ok(cipher_text)
}

/// Encrypts `data` under `key` with a fresh random IV, which leads the result.
pub fn encrypt(key: &[u8], data: &[u8]) -> (r: Result<Vec<u8>, PngError>)
    requires
        16 + base64_len(data@.len()) <= usize::MAX,
    ensures
        match r {
            Ok(c) => key@.len() == 32 && c@.len() == 16 + base64_len(data@.len()) && c@ == sealed(
                key@,
                c@.subrange(0, 16),
                data@,
            ),
            Err(e) => key@.len() != 32 && e == PngError::InvalidKeyLength,
        },
{
    let iv = random_iv();
    let r = encrypt_with_iv(key, iv.as_slice(), data);
    if let Ok(c) = &r {
        assert(c@.subrange(0, 16) =~= iv@);
    }
    r
}

/// Decrypts `data`, an IV followed by a ciphertext, under `key`. Whatever
/// `encrypt` made under the same key comes back as its plaintext.
pub fn decrypt(key: &[u8], data: &[u8]) -> (r: Result<Vec<u8>, PngError>)
    ensures
        bytes_result(r) == opened(key@, data@),
        key@.len() == 32 && data@.len() == 16 ==> (r matches Ok(v) && v@.len() == 0),
        forall|iv: Seq<u8>, plaintext: Seq<u8>|
            iv.len() == 16 && key@.len() == 32 && data@ == #[trigger] sealed(key@, iv, plaintext)
                ==> bytes_result(r) == Ok::<Seq<u8>, PngError>(plaintext),
{
    if data.len() < 16 {
        proof {
            assert forall|iv: Seq<u8>, plaintext: Seq<u8>|
                iv.len() == 16 && data@ == #[trigger] sealed(key@, iv, plaintext) implies false by {
                assert(sealed(key@, iv, plaintext).len() >= 16);
            }
        }
        return Err(PngError::MalformedCiphertext);
    }
    let iv = copy_range(data, 0, 16);
    let enc = copy_range(data, 16, data.len());
    let buffer = match cfb_decrypt(key, iv.as_slice(), enc.as_slice()) {
        Some(b) => b,
        None => return Err(PngError::InvalidKeyLength),
    };
    let r = match base64_decode(buffer.as_slice()) {
        Ok(v) => Ok(v),
        Err(_) => Err(PngError::Decode),
    };
    proof {
        assert forall|iv2: Seq<u8>, plaintext: Seq<u8>|
            iv2.len() == 16 && key@.len() == 32 && data@ == #[trigger] sealed(key@, iv2, plaintext)
            implies bytes_result(r) == Ok::<Seq<u8>, PngError>(plaintext) by {
            let text = base64_of(plaintext);
            assert(iv@ =~= iv2);
            assert(enc@ =~= aes256_cfb_encrypt(key@, iv2, text));
            assert(buffer@ == text);
        }
    }
    r
}

/// Encrypts `data` under the key derived from `password`.
pub fn encrypt_data(password: &str, data: &[u8]) -> (r: Result<Vec<u8>, PngError>)
    requires
        16 + base64_len(data@.len()) <= usize::MAX,
    ensures
        match r {
            Ok(c) => c@.len() == 16 + base64_len(data@.len()) && c@ == sealed(
                key_of(password@),
                c@.subrange(0, 16),
                data@,
            ),
            Err(_) => false,
        },
{
    let hashed_password = derive_key(password);
    encrypt(hashed_password.as_slice(), data)
}

/// Decrypts `data` under the key derived from `password`.
pub fn decrypt_data(password: &str, data: &[u8]) -> (r: Result<Vec<u8>, PngError>)
    ensures
        bytes_result(r) == opened(key_of(password@), data@),
        forall|iv: Seq<u8>, plaintext: Seq<u8>|
            iv.len() == 16 && data@ == #[trigger] sealed(key_of(password@), iv, plaintext)
                ==> bytes_result(r) == Ok::<Seq<u8>, PngError>(plaintext),
{
    let hashed_password = derive_key(password);
    decrypt(hashed_password.as_slice(), data)
}

} // verus!
