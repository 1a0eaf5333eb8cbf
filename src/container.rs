//! The PNG container: the signature, and walking the chunk stream to copy
//! it, to splice a chunk into it, or to find a chunk in it.

use vstd::prelude::*;
use vstd::utf8::{encode_utf8, is_ascii_chars_encode_utf8, valid_utf8};
use vstd::string::StringSliceAdditionalSpecFns;
use crate::chunk::{
    create_chunk, data_at, end_at, lemma_ascii_valid_utf8, len_at, framed, push_all, read_chunk, read_status, type_at, Chunk,
};
use crate::bytes::{lemma_be_u32_of_u32_be, u32_be};
use crate::error::PngError;

verus! {

/// The type of the chunk that carries the secret.
pub const CHUNK_NAME: &'static str = "crPt";

/// The eight bytes every PNG file starts with.
pub open spec fn png_signature() -> Seq<u8> {
    seq![0x89u8, 0x50u8, 0x4eu8, 0x47u8, 0x0du8, 0x0au8, 0x1au8, 0x0au8]
}

/// The bytes of `CHUNK_NAME`.
pub open spec fn secret_tag() -> Seq<u8> {
    seq![0x63u8, 0x72u8, 0x50u8, 0x74u8]
}

/// The type of image-data chunks, `IDAT`.
pub open spec fn image_data_tag() -> Seq<u8> {
    seq![0x49u8, 0x44u8, 0x41u8, 0x54u8]
}

/// What signature validation gives for a file.
pub open spec fn signature_status(s: Seq<u8>) -> Result<Seq<u8>, PngError> {
    if s.len() < 8 {
        Err(PngError::Truncated)
    } else if s.subrange(0, 8) != png_signature() {
        Err(PngError::InvalidFormat)
    } else {
        Ok(s.subrange(0, 8))
    }
}

/// Scans the chunks from `pos` for the first whose type is `tag`: its offset,
/// `None` when fewer than four bytes remain first, or the error of the first
/// chunk that cannot be read.
pub open spec fn find_chunk(s: Seq<u8>, pos: int, tag: Seq<u8>) -> Result<Option<int>, PngError>
    decreases s.len() - pos,
{
    if s.len() - pos < 4 {
        Ok(None)
    } else {
        match read_status(s, pos) {
            Err(e) => Err(e),
            Ok(_) => if type_at(s, pos) == tag {
                Ok(Some(pos))
            } else {
                find_chunk(s, end_at(s, pos), tag)
            },
        }
    }
}

/// Walks the chunks from `pos` to the end of the stream (fewer than four
/// bytes left): the offset where it ends, or the error of the first chunk
/// that cannot be read.
pub open spec fn stream_end(s: Seq<u8>, pos: int) -> Result<int, PngError>
    decreases s.len() - pos,
{
    if s.len() - pos < 4 {
        Ok(pos)
    } else {
        match read_status(s, pos) {
            Err(e) => Err(e),
            Ok(_) => stream_end(s, end_at(s, pos)),
        }
    }
}

/// The file with a secret chunk holding `payload` spliced in before the
/// first image-data chunk; every other chunk is copied through in order.
/// Running out of chunks before an image-data chunk is a truncated file.
pub open spec fn insert_spec(s: Seq<u8>, payload: Seq<u8>) -> Result<Seq<u8>, PngError> {
    if payload.len() > u32::MAX {
        Err(PngError::TooLarge)
    } else {
        match signature_status(s) {
        Err(e) => Err(e),
        Ok(_) => match find_chunk(s, 8, image_data_tag()) {
            Err(e) => Err(e),
            Ok(None) => Err(PngError::Truncated),
            Ok(Some(p)) => match stream_end(s, p) {
                Err(e) => Err(e),
                Ok(e) => Ok(
                    s.subrange(0, p) + framed(secret_tag(), payload) + s.subrange(p, e),
                ),
            },
        },
        }
    }
}

/// The data of the first secret chunk of the file.
pub open spec fn extract_spec(s: Seq<u8>) -> Result<Seq<u8>, PngError> {
    match signature_status(s) {
        Err(e) => Err(e),
        Ok(_) => match find_chunk(s, 8, secret_tag()) {
            Err(e) => Err(e),
            Ok(None) => Err(PngError::ChunkNotFound),
            Ok(Some(p)) => Ok(data_at(s, p)),
        },
    }
}

/// Checks the PNG signature at the start of `input` and returns it.
pub fn validate_png(input: &[u8]) -> (r: Result<Vec<u8>, PngError>)
    ensures
        match r {
            Ok(h) => signature_status(input@) == Ok::<Seq<u8>, PngError>(h@),
            Err(e) => signature_status(input@) == Err::<Seq<u8>, PngError>(e),
        },
{
    if input.len() < 8 {
        return Err(PngError::Truncated);
    }
    let expected: [u8; 8] = [0x89, 0x50, 0x4e, 0x47, 0x0d, 0x0a, 0x1a, 0x0a];
    assert(expected@ =~= png_signature());
    let mut header: Vec<u8> = Vec::new();
    let mut i: usize = 0;
    while i < 8
        invariant
            8 <= input@.len(),
            i <= 8,
            expected@ == png_signature(),
            header@ == input@.subrange(0, i as int),
            header@ == png_signature().subrange(0, i as int),
        decreases 8 - i,
    {
        if input[i] != expected[i] {
            assert(input@.subrange(0, 8)[i as int] != png_signature()[i as int]);
            return Err(PngError::InvalidFormat);
        }
        header.push(input[i]);
        i = i + 1;
        assert(header@ =~= input@.subrange(0, i as int));
        assert(header@ =~= png_signature().subrange(0, i as int));
    }
    assert(png_signature().subrange(0, 8) =~= png_signature());
    Ok(header)
}

/// The chunk at offset `pos` of `input`, or `None` at the end of the stream:
/// fewer than four bytes left, not even a whole length field.
pub fn next_chunk(input: &[u8], pos: usize) -> (r: Result<Option<Chunk>, PngError>)
    requires
        pos <= input@.len(),
    ensures
        match r {
            Ok(None) => input@.len() - pos < 4,
            Ok(Some(c)) => {
                &&& input@.len() - pos >= 4
                &&& read_status(input@, pos as int) is Ok
                &&& end_at(input@, pos as int) <= input@.len()
                &&& c.length_spec() == len_at(input@, pos as int)
                &&& c.type_bytes() == type_at(input@, pos as int)
                &&& c.data_spec() == data_at(input@, pos as int)
                &&& c.wire() == input@.subrange(pos as int, end_at(input@, pos as int))
            },
            Err(e) => input@.len() - pos >= 4 && read_status(input@, pos as int) == Err::<
                (),
                PngError,
            >(e),
        },
{
    if input.len() - pos < 4 {
        return Ok(None);
    }
    match read_chunk(input, pos) {
        Ok(c) => Ok(Some(c)),
        Err(e) => Err(e),
    }
}

/// The bytes of `CHUNK_NAME` are the secret tag.
proof fn lemma_chunk_name_bytes()
    ensures
        CHUNK_NAME.spec_bytes() == secret_tag(),
{
    reveal_strlit("crPt");
    is_ascii_chars_encode_utf8(CHUNK_NAME@);
    assert(encode_utf8(CHUNK_NAME@) =~= secret_tag());
}

/// Splices a secret chunk holding `payload` into the PNG file `png`, just
/// before its first image-data chunk, copying every other chunk through.
pub fn insert_secret_chunk(png: &[u8], payload: &[u8]) -> (r: Result<Vec<u8>, PngError>)
    ensures
        match r {
            Ok(out) => insert_spec(png@, payload@) == Ok::<Seq<u8>, PngError>(out@),
            Err(e) => insert_spec(png@, payload@) == Err::<Seq<u8>, PngError>(e),
        },
{
    let s = Ghost(png@);
    if payload.len() > 0xffff_ffff {
        return Err(PngError::TooLarge);
    }
    // Reading the length tells the loops below that it fits in a usize.
    let _ = png.len();
    let mut out = match validate_png(png) {
        Ok(h) => h,
        Err(e) => return Err(e),
    };
    let idat: [u8; 4] = [0x49, 0x44, 0x41, 0x54];
    assert(idat@ =~= image_data_tag());
    let mut pos: usize = 8;
    loop
        invariant
            s@ == png@,
            png@.len() <= usize::MAX,
            signature_status(s@) is Ok,
            8 <= pos <= png@.len(),
            out@ == s@.subrange(0, pos as int),
            idat@ == image_data_tag(),
            find_chunk(s@, 8, image_data_tag()) == find_chunk(s@, pos as int, image_data_tag()),
            payload@.len() <= u32::MAX,
        ensures
            payload@.len() <= u32::MAX,
            8 <= pos <= png@.len(),
            out@ == s@.subrange(0, pos as int),
            find_chunk(s@, 8, image_data_tag()) == Ok::<Option<int>, PngError>(Some(pos as int)),
        decreases png@.len() - pos,
    {
        let c = match next_chunk(png, pos) {
            Ok(Some(c)) => c,
            Ok(None) => return Err(PngError::Truncated),
            Err(e) => return Err(e),
        };
        if c.has_type(idat) {
            break;
        }
        let raw = c.raw();
        push_all(&mut out, raw.as_slice());
        let next = pos + 12 + c.length() as usize;
        assert(out@ =~= s@.subrange(0, next as int));
        pos = next;
    }
    let p = Ghost(pos as int);
    proof {
        lemma_chunk_name_bytes();
    }
    let secret = create_chunk(payload, CHUNK_NAME);
    let raw = secret.raw();
    push_all(&mut out, raw.as_slice());
    loop
        invariant
            s@ == png@,
            png@.len() <= usize::MAX,
            8 <= p@ <= pos <= png@.len(),
            signature_status(s@) is Ok,
            find_chunk(s@, 8, image_data_tag()) == Ok::<Option<int>, PngError>(Some(p@)),
            out@ == s@.subrange(0, p@) + framed(secret_tag(), payload@) + s@.subrange(p@, pos as int),
            stream_end(s@, p@) == stream_end(s@, pos as int),
            payload@.len() <= u32::MAX,
        ensures
            payload@.len() <= u32::MAX,
            signature_status(s@) is Ok,
            find_chunk(s@, 8, image_data_tag()) == Ok::<Option<int>, PngError>(Some(p@)),
            out@ == s@.subrange(0, p@) + framed(secret_tag(), payload@) + s@.subrange(p@, pos as int),
            stream_end(s@, p@) == Ok::<int, PngError>(pos as int),
        decreases png@.len() - pos,
    {
        let c = match next_chunk(png, pos) {
            Ok(Some(c)) => c,
            Ok(None) => break,
            Err(e) => return Err(e),
        };
        let raw = c.raw();
        push_all(&mut out, raw.as_slice());
        let next = pos + 12 + c.length() as usize;
        assert(s@.subrange(p@, next as int) =~= s@.subrange(p@, pos as int) + s@.subrange(
            pos as int,
            next as int,
        ));
        assert(out@ =~= s@.subrange(0, p@) + framed(secret_tag(), payload@) + s@.subrange(
            p@,
            next as int,
        ));
        pos = next;
    }
    Ok(out)
}

/// Returns the data of the first secret chunk of the PNG file `png`.
pub fn extract_secret_chunk(png: &[u8]) -> (r: Result<Vec<u8>, PngError>)
    ensures
        match r {
            Ok(d) => extract_spec(png@) == Ok::<Seq<u8>, PngError>(d@),
            Err(e) => extract_spec(png@) == Err::<Seq<u8>, PngError>(e),
        },
{
    let s = Ghost(png@);
    // Reading the length tells the loops below that it fits in a usize.
    let _ = png.len();
    if let Err(e) = validate_png(png) {
        return Err(e);
    }
    let tag: [u8; 4] = [0x63, 0x72, 0x50, 0x74];
    assert(tag@ =~= secret_tag());
    let mut pos: usize = 8;
    loop
        invariant
            s@ == png@,
            png@.len() <= usize::MAX,
            signature_status(s@) is Ok,
            8 <= pos <= png@.len(),
            tag@ == secret_tag(),
            find_chunk(s@, 8, secret_tag()) == find_chunk(s@, pos as int, secret_tag()),
        decreases png@.len() - pos,
    {
        let c = match next_chunk(png, pos) {
            Ok(Some(c)) => c,
            Ok(None) => return Err(PngError::ChunkNotFound),
            Err(e) => return Err(e),
        };
        if c.has_type(tag) {
            return Ok(c.into_data());
        }
        pos = pos + 12 + c.length() as usize;
    }
}

/// Whether, scanning from `pos`, a chunk of type `tag` comes before the
/// first chunk of type `stop`.
pub open spec fn tag_before(s: Seq<u8>, pos: int, tag: Seq<u8>, stop: Seq<u8>) -> bool
    decreases s.len() - pos,
{
    if s.len() - pos < 4 {
        false
    } else {
        match read_status(s, pos) {
            Err(_) => false,
            Ok(_) => if type_at(s, pos) == stop {
                false
            } else if type_at(s, pos) == tag {
                true
            } else {
                tag_before(s, end_at(s, pos), tag, stop)
            },
        }
    }
}

/// A chunk found by a scan lies at or after where the scan began, and reads
/// whole.
proof fn lemma_found_chunk(s: Seq<u8>, q: int, tag: Seq<u8>, p: int)
    requires
        find_chunk(s, q, tag) == Ok::<Option<int>, PngError>(Some(p)),
    ensures
        q <= p,
        s.len() - p >= 4,
        read_status(s, p) is Ok,
        type_at(s, p) == tag,
        stream_end(s, q) == stream_end(s, p),
    decreases s.len() - q,
{
    if type_at(s, q) != tag {
        lemma_found_chunk(s, end_at(s, q), tag, p);
    }
}

/// A chunk stream ends at or after where the walk began, and within the file.
proof fn lemma_stream_end_bounds(s: Seq<u8>, q: int)
    requires
        0 <= q <= s.len(),
        stream_end(s, q) is Ok,
    ensures
        q <= stream_end(s, q)->Ok_0 <= s.len(),
    decreases s.len() - q,
{
    if s.len() - q >= 4 {
        assert(len_at(s, q) >= 0);
        lemma_stream_end_bounds(s, end_at(s, q));
    }
}

/// Scanning a file whose first `p` bytes are those of `s`, where `s` holds
/// no chunk of type `tag` from `q` up to its first `stop` chunk at `p`, and
/// whose chunk at `p` has type `tag`, finds that chunk at `p`.
proof fn lemma_find_spliced(s: Seq<u8>, out: Seq<u8>, q: int, p: int, tag: Seq<u8>, stop: Seq<u8>)
    requires
        0 <= q <= p,
        find_chunk(s, q, stop) == Ok::<Option<int>, PngError>(Some(p)),
        !tag_before(s, q, tag, stop),
        tag != stop,
        p <= out.len(),
        p <= s.len(),
        out.subrange(0, p) == s.subrange(0, p),
        out.len() - p >= 4,
        read_status(out, p) is Ok,
        type_at(out, p) == tag,
    ensures
        find_chunk(out, q, tag) == Ok::<Option<int>, PngError>(Some(p)),
    decreases s.len() - q,
{
    lemma_found_chunk(s, q, stop, p);
    if type_at(s, q) != stop {
        let e = end_at(s, q);
        lemma_found_chunk(s, e, stop, p);
        assert(len_at(s, q) >= 0);
        assert(q + 12 <= e <= p);
        assert(out.subrange(q, q + 4) =~= s.subrange(q, q + 4)) by {
            assert forall|i: int| q <= i < q + 4 implies out[i] == s[i] by {
                assert(0 <= i < p);
                assert(out.subrange(0, p)[i] == out[i]);
                assert(s.subrange(0, p)[i] == s[i]);
            }
        }
        assert(type_at(out, q) =~= type_at(s, q)) by {
            assert forall|i: int| q + 4 <= i < q + 8 implies out[i] == s[i] by {
                assert(0 <= i < p);
                assert(out.subrange(0, p)[i] == out[i]);
                assert(s.subrange(0, p)[i] == s[i]);
            }
        }
        lemma_find_spliced(s, out, e, p, tag, stop);
    }
}

/// Splicing a secret chunk into a file that has none before its first
/// image-data chunk, then looking for the secret chunk, gives back exactly
/// the data that was spliced in.
#[verifier::spinoff_prover]
pub proof fn lemma_extract_after_insert(s: Seq<u8>, payload: Seq<u8>)
    requires
        !tag_before(s, 8, secret_tag(), image_data_tag()),
        insert_spec(s, payload) is Ok,
    ensures
        extract_spec(insert_spec(s, payload)->Ok_0) == Ok::<Seq<u8>, PngError>(payload),
        find_chunk(insert_spec(s, payload)->Ok_0, 8, secret_tag()) == find_chunk(
            s,
            8,
            image_data_tag(),
        ),
{
    let out = insert_spec(s, payload)->Ok_0;
    let p = find_chunk(s, 8, image_data_tag())->Ok_0->Some_0;
    let e = stream_end(s, p)->Ok_0;
    let f = framed(secret_tag(), payload);
    let len = payload.len() as u32;
    lemma_found_chunk(s, 8, image_data_tag(), p);
    assert(out == s.subrange(0, p) + f + s.subrange(p, e));
    assert(out.subrange(0, p) =~= s.subrange(0, p));
    assert(out.subrange(0, 8) =~= s.subrange(0, 8));
    assert(f.len() == 12 + payload.len());
    assert(out.subrange(p, p + 4) =~= u32_be(len));
    lemma_be_u32_of_u32_be(len);
    assert(type_at(out, p) =~= secret_tag());
    assert(valid_utf8(secret_tag())) by {
        lemma_ascii_valid_utf8(secret_tag());
    }
    assert(data_at(out, p) =~= payload);
    lemma_find_spliced(s, out, 8, p, secret_tag(), image_data_tag());
}

/// The file with its first secret chunk taken out.
pub open spec fn strip_spec(out: Seq<u8>) -> Seq<u8> {
    match find_chunk(out, 8, secret_tag()) {
        Ok(Some(p)) => out.subrange(0, p) + out.subrange(end_at(out, p), out.len() as int),
        _ => out,
    }
}

/// Taking the spliced chunk back out of `s[0..p] ++ chunk ++ s[p..e]`
/// leaves `s[0..e]`.
proof fn lemma_unsplice(s: Seq<u8>, payload: Seq<u8>, p: int, e: int)
    requires
        payload.len() <= u32::MAX,
        0 <= p <= e <= s.len(),
    ensures
        ({
            let out = s.subrange(0, p) + framed(secret_tag(), payload) + s.subrange(p, e);
            &&& end_at(out, p) == p + 12 + payload.len()
            &&& type_at(out, p) == secret_tag()
            &&& data_at(out, p) == payload
            &&& out.subrange(0, p) + out.subrange(end_at(out, p), out.len() as int) == s.subrange(0, e)
        }),
{
    let f = framed(secret_tag(), payload);
    let out = s.subrange(0, p) + f + s.subrange(p, e);
    let len = payload.len() as u32;
    assert(out.subrange(p, p + 4) =~= u32_be(len));
    lemma_be_u32_of_u32_be(len);
    assert(type_at(out, p) =~= secret_tag());
    assert(data_at(out, p) =~= payload);
    assert(out.subrange(0, p) + out.subrange(end_at(out, p), out.len() as int) =~= s.subrange(0, e));
}

/// Splicing a secret chunk into a file puts it at the offset where the first
/// image-data chunk stood; taking the chunk at that offset back out gives the
/// file's signature and its whole chunk stream, byte for byte, whatever
/// chunks the file already held.
pub proof fn lemma_remove_inserted(s: Seq<u8>, payload: Seq<u8>)
    requires
        insert_spec(s, payload) is Ok,
    ensures
        stream_end(s, 8) is Ok,
        find_chunk(s, 8, image_data_tag()) is Ok,
        find_chunk(s, 8, image_data_tag())->Ok_0 is Some,
        ({
            let out = insert_spec(s, payload)->Ok_0;
            let p = find_chunk(s, 8, image_data_tag())->Ok_0->Some_0;
            &&& type_at(out, p) == secret_tag()
            &&& data_at(out, p) == payload
            &&& out.subrange(0, p) + out.subrange(end_at(out, p), out.len() as int) == s.subrange(
                0,
                stream_end(s, 8)->Ok_0,
            )
        }),
{
    let p = find_chunk(s, 8, image_data_tag())->Ok_0->Some_0;
    let e = stream_end(s, p)->Ok_0;
    lemma_found_chunk(s, 8, image_data_tag(), p);
    lemma_stream_end_bounds(s, p);
    lemma_unsplice(s, payload, p, e);
}

/// Splicing a secret chunk into a file that has none before its first
/// image-data chunk, then taking the first secret chunk out again, gives
/// back the file's signature and its whole chunk stream, byte for byte.
pub proof fn lemma_strip_after_insert(s: Seq<u8>, payload: Seq<u8>)
    requires
        !tag_before(s, 8, secret_tag(), image_data_tag()),
        insert_spec(s, payload) is Ok,
    ensures
        stream_end(s, 8) is Ok,
        strip_spec(insert_spec(s, payload)->Ok_0) == s.subrange(0, stream_end(s, 8)->Ok_0),
{
    let out = insert_spec(s, payload)->Ok_0;
    let p = find_chunk(s, 8, image_data_tag())->Ok_0->Some_0;
    let e = stream_end(s, p)->Ok_0;
    lemma_extract_after_insert(s, payload);
    lemma_found_chunk(s, 8, image_data_tag(), p);
    lemma_stream_end_bounds(s, p);
    lemma_unsplice(s, payload, p, e);
}

} // verus!
