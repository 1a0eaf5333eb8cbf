//! PNG chunks: their in-memory form, their wire layout
//! (`length | type | data | crc`), and decoding them from a byte buffer.

use vstd::prelude::*;
use vstd::utf8::{decode_utf8, encode_utf8, pop_first_scalar, valid_utf8};
use vstd::string::StringSliceAdditionalSpecFns;
use crate::bytes::{be_u32, bytes_to_u32, lemma_be_u32_of_u32_be, lemma_u32_be_of_be_u32, u32_be, u32_to_bytes};
use crate::error::PngError;

verus! {

broadcast use vstd::utf8::group_utf8_lib;

/// The CRC-32 (IEEE polynomial) of a byte sequence, as computed by the `crc` crate.
pub uninterp spec fn crc32_ieee(bytes: Seq<u8>) -> u32;

/// Relies on `crc::Crc::<u32>::checksum` with the `CRC_32_ISO_HDLC` parameters,
/// the CRC-32 that PNG uses: the result depends on the bytes alone.
#[verifier::external_body]
fn crc32(bytes: &[u8]) -> (r: u32)
    ensures
        r == crc32_ieee(bytes@),
{
    crc::Crc::<u32>::new(&crc::CRC_32_ISO_HDLC).checksum(bytes)
}

/// Relies on `String::from_utf8`: it succeeds exactly on valid UTF-8, and the
/// string then holds the characters those bytes encode.
#[verifier::external_body]
fn string_from_utf8(bytes: Vec<u8>) -> (r: Option<String>)
    ensures
        r is Some <==> valid_utf8(bytes@),
        r matches Some(s) ==> s@ == decode_utf8(bytes@),
{
    String::from_utf8(bytes).ok()
}

/// Appends `src` to `out`.
pub(crate) fn push_all(out: &mut Vec<u8>, src: &[u8])
    ensures
        final(out)@ == old(out)@ + src@,
{
    let mut i: usize = 0;
    while i < src.len()
        invariant
            i <= src@.len(),
            out@ == old(out)@ + src@.subrange(0, i as int),
        decreases src@.len() - i,
    {
        out.push(src[i]);
        i = i + 1;
        assert(out@ =~= old(out)@ + src@.subrange(0, i as int));
    }
    assert(src@.subrange(0, i as int) =~= src@);
}

/// The bytes `s[from..to]`, copied.
pub(crate) fn copy_range(s: &[u8], from: usize, to: usize) -> (r: Vec<u8>)
    requires
        from <= to <= s@.len(),
    ensures
        r@ == s@.subrange(from as int, to as int),
{
    let mut r: Vec<u8> = Vec::new();
    let mut i: usize = from;
    while i < to
        invariant
            from <= i <= to <= s@.len(),
            r@ == s@.subrange(from as int, i as int),
        decreases to - i,
    {
        r.push(s[i]);
        i = i + 1;
        assert(r@ =~= s@.subrange(from as int, i as int));
    }
    r
}

/// The wire layout of a chunk with the given fields.
pub open spec fn chunk_wire(length: u32, ctype: Seq<u8>, data: Seq<u8>, crc: u32) -> Seq<u8> {
    u32_be(length) + ctype + data + u32_be(crc)
}

/// The wire layout of a well-formed chunk of type `ctype` holding `data`.
pub open spec fn framed(ctype: Seq<u8>, data: Seq<u8>) -> Seq<u8> {
    chunk_wire(data.len() as u32, ctype, data, crc32_ieee(ctype + data))
}

/// One PNG chunk.
pub struct Chunk {
    length: u32,
    pub c_type: String,
    pub data: Vec<u8>,
    crc: u32,
}

impl Chunk {
    /// The length field.
    pub closed spec fn length_spec(&self) -> u32 {
        self.length
    }

    /// The checksum field.
    pub closed spec fn crc_spec(&self) -> u32 {
        self.crc
    }

    /// The characters of the chunk type.
    pub closed spec fn type_spec(&self) -> Seq<char> {
        self.c_type@
    }

    /// The chunk data.
    pub closed spec fn data_spec(&self) -> Seq<u8> {
        self.data@
    }

    /// The bytes of the chunk type.
    pub open spec fn type_bytes(&self) -> Seq<u8> {
        encode_utf8(self.type_spec())
    }

    /// The bytes this chunk serializes to.
    pub open spec fn wire(&self) -> Seq<u8> {
        chunk_wire(self.length_spec(), self.type_bytes(), self.data_spec(), self.crc_spec())
    }

    /// The length field counts the data and the checksum covers type and data.
    pub open spec fn wf(&self) -> bool {
        &&& self.length_spec() == self.data_spec().len()
        &&& self.crc_spec() == crc32_ieee(self.type_bytes() + self.data_spec())
    }

    /// The length field.
    pub fn length(&self) -> (r: u32)
        ensures
            r == self.length_spec(),
    {
        self.length
    }

    /// The checksum field.
    pub fn crc(&self) -> (r: u32)
        ensures
            r == self.crc_spec(),
    {
        self.crc
    }

    /// The chunk data, taken out of the chunk.
    pub fn into_data(self) -> (r: Vec<u8>)
        ensures
            r@ == self.data_spec(),
    {
        self.data
    }

    /// Whether the chunk type is the four bytes of `tag`.
    pub fn has_type(&self, tag: [u8; 4]) -> (r: bool)
        ensures
            r == (self.type_bytes() == tag@),
    {
        let t = self.c_type.as_str().as_bytes();
        if t.len() != 4 {
            return false;
        }
        let mut i: usize = 0;
        while i < 4
            invariant
                t@ == self.type_bytes(),
                t@.len() == 4,
                i <= 4,
                forall|j: int| 0 <= j < i ==> t@[j] == tag@[j],
            decreases 4 - i,
        {
            if t[i] != tag[i] {
                return false;
            }
            i = i + 1;
        }
        assert(t@ =~= tag@);
        true
    }

    /// Serializes the chunk: length, type, data and checksum, the two
    /// integers big-endian.
    pub fn raw(&self) -> (r: Vec<u8>)
        ensures
            r@ == self.wire(),
    {
        let raw_length = u32_to_bytes(self.length);
        let raw_crc = u32_to_bytes(self.crc);
        let mut data: Vec<u8> = Vec::new();
        push_all(&mut data, raw_length.as_slice());
        push_all(&mut data, self.c_type.as_str().as_bytes());
        push_all(&mut data, self.data.as_slice());
        push_all(&mut data, raw_crc.as_slice());
        data
    }
}

/// Builds a well-formed chunk of type `c_type` holding `data`.
pub fn create_chunk(data: &[u8], c_type: &str) -> (r: Chunk)
    requires
        data@.len() <= u32::MAX,
    ensures
        r.type_spec() == c_type@,
        r.data_spec() == data@,
        r.type_bytes() == c_type.spec_bytes(),
        r.wf(),
        r.wire() == framed(c_type.spec_bytes(), data@),
{
    let length = data.len() as u32;
    let raw_c_type = c_type.as_bytes();
    let mut data_and_c_type: Vec<u8> = Vec::new();
    push_all(&mut data_and_c_type, raw_c_type);
    push_all(&mut data_and_c_type, data);
    let crc = crc32(data_and_c_type.as_slice());
    let mut owned: Vec<u8> = Vec::new();
    push_all(&mut owned, data);
    assert(owned@ =~= data@);
    Chunk { length, c_type: c_type.to_owned(), data: owned, crc }
}

/// The length field of the chunk that starts at `pos`.
pub open spec fn len_at(s: Seq<u8>, pos: int) -> int {
    be_u32(s.subrange(pos, pos + 4)) as int
}

/// The offset just past the chunk that starts at `pos`.
pub open spec fn end_at(s: Seq<u8>, pos: int) -> int {
    pos + 12 + len_at(s, pos)
}

/// The type bytes of the chunk that starts at `pos`.
pub open spec fn type_at(s: Seq<u8>, pos: int) -> Seq<u8> {
    s.subrange(pos + 4, pos + 8)
}

/// The data of the chunk that starts at `pos`.
pub open spec fn data_at(s: Seq<u8>, pos: int) -> Seq<u8> {
    s.subrange(pos + 8, pos + 8 + len_at(s, pos))
}

/// The checksum field of the chunk that starts at `pos`.
pub open spec fn crc_at(s: Seq<u8>, pos: int) -> u32 {
    be_u32(s.subrange(end_at(s, pos) - 4, end_at(s, pos)))
}

/// Whether a whole chunk can be decoded at `pos`, and if not, why: the
/// length and type fields are read first, the type must be valid text, and
/// then the data and the checksum must be there.
pub open spec fn read_status(s: Seq<u8>, pos: int) -> Result<(), PngError> {
    if s.len() < pos + 8 {
        Err(PngError::Truncated)
    } else if !valid_utf8(type_at(s, pos)) {
        Err(PngError::Decode)
    } else if s.len() < end_at(s, pos) {
        Err(PngError::Truncated)
    } else {
        Ok(())
    }
}

/// Decodes the chunk that starts at offset `pos` of `input`.
pub fn read_chunk(input: &[u8], pos: usize) -> (r: Result<Chunk, PngError>)
    requires
        pos <= input@.len(),
    ensures
        match r {
            Ok(c) => {
                &&& read_status(input@, pos as int) is Ok
                &&& c.length_spec() == len_at(input@, pos as int)
                &&& c.type_bytes() == type_at(input@, pos as int)
                &&& c.data_spec() == data_at(input@, pos as int)
                &&& c.crc_spec() == crc_at(input@, pos as int)
                &&& c.wire() == input@.subrange(pos as int, end_at(input@, pos as int))
            },
            Err(e) => read_status(input@, pos as int) == Err::<(), PngError>(e),
        },
{
    let s = Ghost(input@);
    let p = Ghost(pos as int);
    if input.len() - pos < 8 {
        return Err(PngError::Truncated);
    }
    let length = bytes_to_u32([input[pos], input[pos + 1], input[pos + 2], input[pos + 3]]);
    assert(seq![input[pos as int], input[pos + 1], input[pos + 2], input[pos + 3]] =~= s@.subrange(
        p@,
        p@ + 4,
    ));
    let type_raw = copy_range(input, pos + 4, pos + 8);
    let c_type = match string_from_utf8(type_raw) {
        Some(t) => t,
        None => return Err(PngError::Decode),
    };
    let rest = input.len() - (pos + 8);
    if rest < 4 || rest - 4 < length as usize {
        return Err(PngError::Truncated);
    }
    let data_end = pos + 8 + length as usize;
    let data = copy_range(input, pos + 8, data_end);
    let crc = bytes_to_u32(
        [input[data_end], input[data_end + 1], input[data_end + 2], input[data_end + 3]],
    );
    assert(seq![input[data_end as int], input[data_end + 1], input[data_end + 2], input[data_end + 3]]
        =~= s@.subrange(data_end as int, data_end + 4));
    let c = Chunk { length, c_type, data, crc };
    proof {
        let e = end_at(s@, p@);
        lemma_be_u32_of_u32_be(length);
        assert(u32_be(length) == s@.subrange(p@, p@ + 4)) by {
            lemma_u32_be_of_be_u32(s@.subrange(p@, p@ + 4));
        }
        lemma_u32_be_of_be_u32(s@.subrange(e - 4, e));
        assert(c.wire() =~= s@.subrange(p@, e));
    }
    Ok(c)
}

/// Bytes below 128 are valid UTF-8.
pub proof fn lemma_ascii_valid_utf8(b: Seq<u8>)
    requires
        forall|i: int| 0 <= i < b.len() ==> b[i] < 128,
    ensures
        valid_utf8(b),
    decreases b.len(),
{
    if b.len() > 0 {
        let b0 = b[0];
        assert(b0 & 0x7f == b0) by (bit_vector)
            requires
                b0 < 128,
        ;
        let rest = b.subrange(1, b.len() as int);
        lemma_ascii_valid_utf8(rest);
        assert(pop_first_scalar(b) == rest);
    }
}

/// Encoding a chunk whose type is four ASCII bytes and decoding it again
/// gives the same type and data, and the checksum of type and data.
pub proof fn lemma_chunk_round_trip(ctype: Seq<u8>, data: Seq<u8>)
    requires
        ctype.len() == 4,
        forall|i: int| 0 <= i < 4 ==> ctype[i] < 128,
        data.len() <= u32::MAX,
    ensures
        read_status(framed(ctype, data), 0) == Ok::<(), PngError>(()),
        end_at(framed(ctype, data), 0) == framed(ctype, data).len(),
        len_at(framed(ctype, data), 0) == data.len(),
        type_at(framed(ctype, data), 0) == ctype,
        data_at(framed(ctype, data), 0) == data,
        crc_at(framed(ctype, data), 0) == crc32_ieee(ctype + data),
{
    let s = framed(ctype, data);
    let len = data.len() as u32;
    let crc = crc32_ieee(ctype + data);
    lemma_be_u32_of_u32_be(len);
    lemma_be_u32_of_u32_be(crc);
    assert(s.subrange(0, 4) =~= u32_be(len));
    assert(type_at(s, 0) =~= ctype);
    lemma_ascii_valid_utf8(ctype);
    assert(data_at(s, 0) =~= data);
    assert(s.subrange(s.len() - 4, s.len() as int) =~= u32_be(crc));
}

} // verus!
