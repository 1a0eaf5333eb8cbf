//! The two directions of the embedding pipeline: hide an encrypted secret in
//! a PNG file, and recover it.

use vstd::prelude::*;
use vstd::string::StringSliceAdditionalSpecFns;
use crate::cipher::{base64_len, bytes_result, derive_key, encrypt_with_iv, decrypt_data, key_of, opened, sealed, random_iv};
use crate::container::{
    extract_secret_chunk, extract_spec, image_data_tag, insert_secret_chunk, insert_spec,
    lemma_extract_after_insert, secret_tag, tag_before,
};
use crate::error::PngError;

verus! {

/// The file that hiding `secret` in `png` under `key` and `iv` gives: the
/// sealed secret spliced in as a chunk before the first image-data chunk.
pub open spec fn embed_spec(png: Seq<u8>, key: Seq<u8>, iv: Seq<u8>, secret: Seq<u8>) -> Result<
    Seq<u8>,
    PngError,
> {
    if 16 + base64_len(secret.len()) > u32::MAX {
        Err(PngError::TooLarge)
    } else {
        insert_spec(png, sealed(key, iv, secret))
    }
}

/// What recovering a secret from `png` under `key` gives.
pub open spec fn recover_spec(png: Seq<u8>, key: Seq<u8>) -> Result<Seq<u8>, PngError> {
    match extract_spec(png) {
        Ok(d) => opened(key, d),
        Err(e) => Err(e),
    }
}

/// Hides `secret` in the PNG file `png`, encrypted under the key derived
/// from `password` with the given 16-byte IV.
pub fn encrypt_png_with_iv(png: &[u8], password: &str, iv: &[u8], secret: &[u8]) -> (r: Result<
    Vec<u8>,
    PngError,
>)
    requires
        iv@.len() == 16,
    ensures
        bytes_result(r) == embed_spec(png@, key_of(password@), iv@, secret@),
        16 + base64_len(secret@.len()) <= u32::MAX ==> sealed(key_of(password@), iv@, secret@).len()
            == 16 + base64_len(secret@.len()),
{
    let n = secret.len();
    let groups = n / 3 + if n % 3 > 0 {
        1
    } else {
        0
    };
    assert(groups == (n + 2) / 3);
    if groups > (0xffff_ffff - 16) / 4 {
        return Err(PngError::TooLarge);
    }
    let key = derive_key(password);
    let payload = match encrypt_with_iv(key.as_slice(), iv, secret) {
        Ok(c) => c,
        Err(e) => return Err(e),
    };
    insert_secret_chunk(png, payload.as_slice())
}

/// Hides `secret` in the PNG file `png`, encrypted under the key derived
/// from `password` with a fresh random IV.
pub fn encrypt_png(png: &[u8], password: &str, secret: &[u8]) -> (r: Result<Vec<u8>, PngError>)
    ensures
        exists|iv: Seq<u8>|
            iv.len() == 16 && bytes_result(r) == #[trigger] embed_spec(
                png@,
                key_of(password@),
                iv,
                secret@,
            ) && (16 + base64_len(secret@.len()) <= u32::MAX ==> sealed(
                key_of(password@),
                iv,
                secret@,
            ).len() == 16 + base64_len(secret@.len())),
{
    let iv = random_iv();
    encrypt_png_with_iv(png, password, iv.as_slice(), secret)
}

/// Recovers the secret hidden in the PNG file `png` under the key derived
/// from `password`. A file made by `encrypt_png` with the same password from
/// a file with no secret chunk before its first image-data chunk gives back
/// the secret.
pub fn decrypt_png(png: &[u8], password: &str) -> (r: Result<Vec<u8>, PngError>)
    ensures
        bytes_result(r) == recover_spec(png@, key_of(password@)),
        forall|source: Seq<u8>, iv: Seq<u8>, secret: Seq<u8>|
            iv.len() == 16 && !tag_before(source, 8, secret_tag(), image_data_tag())
                && #[trigger] embed_spec(source, key_of(password@), iv, secret)
                == Ok::<Seq<u8>, PngError>(png@) ==> bytes_result(r) == Ok::<Seq<u8>, PngError>(
                secret,
            ),
{
    let data = match extract_secret_chunk(png) {
        Ok(d) => d,
        Err(e) => {
            proof {
                assert forall|source: Seq<u8>, iv: Seq<u8>, secret: Seq<u8>|
                    iv.len() == 16 && !tag_before(source, 8, secret_tag(), image_data_tag())
                        && #[trigger] embed_spec(source, key_of(password@), iv, secret)
                        == Ok::<Seq<u8>, PngError>(png@) implies false by {
                    lemma_extract_after_insert(
                        source,
                        sealed(key_of(password@), iv, secret),
                    );
                }
            }
            return Err(e);
        },
    };
    let r = decrypt_data(password, data.as_slice());
    proof {
        assert forall|source: Seq<u8>, iv: Seq<u8>, secret: Seq<u8>|
            iv.len() == 16 && !tag_before(source, 8, secret_tag(), image_data_tag())
                && #[trigger] embed_spec(source, key_of(password@), iv, secret)
                == Ok::<Seq<u8>, PngError>(png@) implies bytes_result(r) == Ok::<
            Seq<u8>,
            PngError,
        >(secret) by {
            let payload = sealed(key_of(password@), iv, secret);
            lemma_extract_after_insert(source, payload);
            assert(data@ == payload);
        }
    }
    r
}

} // verus!
