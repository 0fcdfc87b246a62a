//! A chunk: a length, a type, that many bytes of data, and a checksum over
//! type and data.

use crate::checksum::{checksum, crc32_iso_hdlc};
use crate::chunk_type::{is_tag, ChunkType};
use crate::endian::{
    be_bytes, be_u32, lemma_be_bytes_of_be_u32, lemma_be_u32_of_be_bytes, read_be_u32,
    write_be_u32,
};
use crate::error::PngError;
use vstd::prelude::*;
use vstd::slice::{slice_subrange, slice_to_vec};
use vstd::std_specs::cmp::PartialEqSpecImpl;
use vstd::std_specs::convert::TryFromSpecImpl;
use vstd::utf8::{decode_utf8, valid_utf8};

verus! {

/// What a chunk holds: its four type bytes and its data. Length and
/// checksum follow from these two.
pub struct ChunkView {
    pub tag: Seq<u8>,
    pub data: Seq<u8>,
}

impl ChunkView {
    /// True where the type is four letters and the length of the data fits
    /// the 32-bit length field.
    pub open spec fn wf(self) -> bool {
        is_tag(self.tag) && self.data.len() <= u32::MAX
    }

    /// The checksum of the chunk: the CRC-32 of type and data together.
    pub open spec fn crc(self) -> u32 {
        crc32_iso_hdlc(self.tag + self.data)
    }

    /// The number of bytes that the chunk takes in a file.
    pub open spec fn frame_len(self) -> nat {
        12 + self.data.len()
    }

    /// The chunk as it stands in a file: length, type, data, checksum; the
    /// two integers big-endian.
    pub open spec fn to_bytes(self) -> Seq<u8> {
        be_bytes(self.data.len() as u32) + self.tag + self.data + be_bytes(self.crc())
    }
}

/// What decoding a chunk from the front of `bytes` gives. Bytes that follow
/// the chunk's frame are not looked at.
pub open spec fn parse_chunk(bytes: Seq<u8>) -> Result<ChunkView, PngError> {
    if bytes.len() < 12 {
        Err(PngError::TooShort)
    } else {
        let len = be_u32(bytes.subrange(0, 4)) as int;
        let tag = bytes.subrange(4, 8);
        if !is_tag(tag) {
            Err(PngError::InvalidTag)
        } else if bytes.len() < 12 + len {
            Err(PngError::TooShort)
        } else {
            let data = bytes.subrange(8, 8 + len);
            if be_u32(bytes.subrange(8 + len, 12 + len)) != crc32_iso_hdlc(tag + data) {
                Err(PngError::ChecksumMismatch)
            } else {
                Ok(ChunkView { tag, data })
            }
        }
    }
}

/// A chunk of a PNG file. Its length field is the length of its data, and
/// its checksum is the CRC-32 of its type and data.
#[derive(Debug, Eq)]
pub struct Chunk {
    length: u32,
    ctype: ChunkType,
    data: Vec<u8>,
    crc: u32,
}

impl View for Chunk {
    type V = ChunkView;

    closed spec fn view(&self) -> ChunkView {
        ChunkView { tag: self.ctype@, data: self.data@ }
    }
}

impl PartialEq for Chunk {
    /// Two chunks are equal where they hold the same type and data; length
    /// and checksum are then the same too.
    fn eq(&self, other: &Chunk) -> (r: bool) {
        if self.ctype != other.ctype || self.data.len() != other.data.len() {
            return false;
        }
        let mut i: usize = 0;
        while i < self.data.len()
            invariant
                i <= self.data@.len() == other.data@.len(),
                forall|j: int| 0 <= j < i ==> self.data@[j] == other.data@[j],
            decreases self.data@.len() - i,
        {
            if self.data[i] != other.data[i] {
                return false;
            }
            i += 1;
        }
        assert(self.data@ =~= other.data@);
        true
    }
}

impl PartialEqSpecImpl for Chunk {
    open spec fn obeys_eq_spec() -> bool {
        true
    }

    open spec fn eq_spec(&self, other: &Chunk) -> bool {
        self@ == other@
    }
}

impl Clone for Chunk {
    fn clone(&self) -> (c: Chunk)
        ensures
            c@ == self@,
    {
        proof {
            use_type_invariant(self);
        }
        Chunk {
            length: self.length,
            ctype: self.ctype,
            data: slice_to_vec(self.data.as_slice()),
            crc: self.crc,
        }
    }
}

/// The standard conversion from bytes: it decodes as [`Chunk::try_from`]
/// does, and says so in its own contract. A chunk owns a `Vec`, which no
/// spec function can build, so `try_from_spec` has no value to name; the
/// contract is stated over the view instead.
impl<'a> TryFrom<&'a [u8]> for Chunk {
    type Error = PngError;

    fn try_from(value: &'a [u8]) -> (r: Result<Chunk, PngError>)
        ensures
            match r {
                Ok(c) => parse_chunk(value@) == Ok::<ChunkView, PngError>(c@),
                Err(e) => parse_chunk(value@) == Err::<ChunkView, PngError>(e),
            },
    {
        Chunk::try_from(value)
    }
}

impl<'a> TryFromSpecImpl<&'a [u8]> for Chunk {
    open spec fn obeys_try_from_spec() -> bool {
        false
    }

    open spec fn try_from_spec(v: &'a [u8]) -> Result<Chunk, PngError> {
        arbitrary()
    }
}

/// The CRC-32 of the type bytes followed by the data.
fn checksum_of(tag: [u8; 4], data: &[u8]) -> (sum: u32)
    ensures
        sum == crc32_iso_hdlc(tag@ + data@),
{
    let mut covered: Vec<u8> = Vec::new();
    covered.push(tag[0]);
    covered.push(tag[1]);
    covered.push(tag[2]);
    covered.push(tag[3]);
    covered.extend_from_slice(data);
    assert(covered@ =~= tag@ + data@);
    checksum(covered.as_slice())
}

impl Chunk {
    #[verifier::type_invariant]
    spec fn consistent(&self) -> bool {
        &&& is_tag(self.ctype@)
        &&& self.length == self.data@.len()
        &&& self.crc == crc32_iso_hdlc(self.ctype@ + self.data@)
    }

    /// Makes a chunk of a type and data, and computes its checksum.
    pub fn new(chunk_type: ChunkType, data: Vec<u8>) -> (c: Chunk)
        requires
            data@.len() <= u32::MAX,
        ensures
            c@ == (ChunkView { tag: chunk_type@, data: data@ }),
            c@.wf(),
    {
        let tag = chunk_type.bytes();
        let crc = checksum_of(tag, data.as_slice());
        Chunk { length: data.len() as u32, ctype: chunk_type, data, crc }
    }

    /// Decodes the chunk at the front of `value`: fails where fewer than
    /// twelve bytes are there, where the type is not four letters, where
    /// the buffer ends before the frame that the length field announces,
    /// and where the stored checksum is not that of type and data.
    pub fn try_from(value: &[u8]) -> (r: Result<Chunk, PngError>)
        ensures
            match r {
                Ok(c) => parse_chunk(value@) == Ok::<ChunkView, PngError>(c@),
                Err(e) => parse_chunk(value@) == Err::<ChunkView, PngError>(e),
            },
    {
        let l = value.len();
        if l < 12 {
            return Err(PngError::TooShort);
        }
        let length = read_be_u32(value, 0);
        let ctype = match ChunkType::try_from([value[4], value[5], value[6], value[7]]) {
            Ok(t) => t,
            Err(e) => {
                proof {
                    assert([value[4], value[5], value[6], value[7]]@ =~= value@.subrange(4, 8));
                }
                return Err(e);
            },
        };
        proof {
            assert(ctype@ =~= value@.subrange(4, 8));
        }
        if length as usize > l - 12 {
            return Err(PngError::TooShort);
        }
        let n = length as usize;
        let data = slice_to_vec(slice_subrange(value, 8, 8 + n));
        let crc = read_be_u32(value, 8 + n);
        let real_crc = checksum_of(ctype.bytes(), data.as_slice());
        if real_crc == crc {
            Ok(Chunk { length, ctype, data, crc })
        } else {
            Err(PngError::ChecksumMismatch)
        }
    }

    /// The length of the data, as the length field holds it.
    pub fn length(&self) -> (r: u32)
        ensures
            r == self@.data.len(),
    {
        proof {
            use_type_invariant(self);
        }
        self.length
    }

    /// The type of the chunk.
    pub fn chunk_type(&self) -> (r: &ChunkType)
        ensures
            r@ == self@.tag,
            is_tag(self@.tag),
    {
        proof {
            use_type_invariant(self);
        }
        &self.ctype
    }

    /// The data of the chunk.
    pub fn data(&self) -> (r: &[u8])
        ensures
            r@ == self@.data,
    {
        self.data.as_slice()
    }

    /// The checksum of the chunk.
    pub fn crc(&self) -> (r: u32)
        ensures
            r == self@.crc(),
    {
        proof {
            use_type_invariant(self);
        }
        self.crc
    }

    /// The data as text: fails with `Utf8Error` where the data is not
    /// well-formed UTF-8.
    pub fn data_as_string(&self) -> (r: Result<String, PngError>)
        ensures
            match r {
                Ok(s) => valid_utf8(self@.data) && s@ == decode_utf8(self@.data),
                Err(e) => !valid_utf8(self@.data) && e == PngError::Utf8Error,
            },
    {
        match String::from_utf8(slice_to_vec(self.data.as_slice())) {
            Ok(s) => Ok(s),
            Err(_) => Err(PngError::Utf8Error),
        }
    }

    /// The chunk as it stands in a file. Decoding these bytes gives the
    /// chunk back.
    pub fn as_bytes(&self) -> (r: Vec<u8>)
        ensures
            r@ == self@.to_bytes(),
            self@.wf(),
            parse_chunk(r@) == Ok::<ChunkView, PngError>(self@),
    {
        proof {
            use_type_invariant(self);
            lemma_parse_of_to_bytes(self@, Seq::empty());
            assert(self@.to_bytes() + Seq::<u8>::empty() =~= self@.to_bytes());
        }
        let tag = self.ctype.bytes();
        let mut out: Vec<u8> = Vec::new();
        write_be_u32(&mut out, self.length);
        out.push(tag[0]);
        out.push(tag[1]);
        out.push(tag[2]);
        out.push(tag[3]);
        out.extend_from_slice(self.data.as_slice());
        assert(out@ =~= be_bytes(self.length) + self.ctype@ + self.data@);
        write_be_u32(&mut out, self.crc);
        out
    }
}

/// The encoding of a chunk is as long as its frame.
pub proof fn lemma_to_bytes_len(c: ChunkView)
    requires
        c.wf(),
    ensures
        c.to_bytes().len() == c.frame_len(),
{
    lemma_be_u32_of_be_bytes(c.data.len() as u32);
    lemma_be_u32_of_be_bytes(c.crc());
}

/// Decoding the bytes of a chunk gives that chunk back, whatever follows
/// its frame.
pub proof fn lemma_parse_of_to_bytes(c: ChunkView, rest: Seq<u8>)
    requires
        c.wf(),
    ensures
        parse_chunk(c.to_bytes() + rest) == Ok::<ChunkView, PngError>(c),
{
    let n = c.data.len() as int;
    let b = c.to_bytes() + rest;
    lemma_be_u32_of_be_bytes(n as u32);
    lemma_be_u32_of_be_bytes(c.crc());
    assert(b.subrange(0, 4) =~= be_bytes(n as u32));
    assert(b.subrange(4, 8) =~= c.tag);
    assert(b.subrange(8, 8 + n) =~= c.data);
    assert(b.subrange(8 + n, 12 + n) =~= be_bytes(c.crc()));
}

/// Encoding a decoded chunk gives back the bytes of its frame: the front of
/// the buffer that it was decoded from.
pub proof fn lemma_to_bytes_of_parse(bytes: Seq<u8>)
    requires
        parse_chunk(bytes) is Ok,
    ensures
        ({
            let c = parse_chunk(bytes)->Ok_0;
            &&& c.wf()
            &&& c.frame_len() <= bytes.len()
            &&& c.to_bytes() == bytes.subrange(0, c.frame_len() as int)
        }),
{
    let c = parse_chunk(bytes)->Ok_0;
    let n = c.data.len() as int;
    lemma_be_bytes_of_be_u32(bytes.subrange(0, 4));
    lemma_be_bytes_of_be_u32(bytes.subrange(8 + n, 12 + n));
    assert(c.to_bytes() =~= bytes.subrange(0, 12 + n));
}

/// `bytes` with bit number `bit` of the byte at `at` inverted.
pub open spec fn flip_bit(bytes: Seq<u8>, at: int, bit: u8) -> Seq<u8> {
    bytes.update(at, bytes[at] ^ (1u8 << bit))
}

/// The chunk `c` with one bit inverted in what its checksum covers: bit
/// `bit` of byte `at`, counted through the type and on through the data.
pub open spec fn with_flipped_bit(c: ChunkView, at: int, bit: u8) -> ChunkView {
    let covered = flip_bit(c.tag + c.data, at, bit);
    ChunkView { tag: covered.subrange(0, 4), data: covered.subrange(4, covered.len() as int) }
}

/// Where one bit of the type or the data of an encoded chunk is inverted
/// and the type is still four letters, decoding fails with
/// `ChecksumMismatch` exactly if the change alters the CRC-32 of type and
/// data; if it does not, the changed chunk is decoded.
pub proof fn lemma_parse_after_bit_flip(c: ChunkView, at: int, bit: u8)
    requires
        c.wf(),
        0 <= at < 4 + c.data.len(),
        bit < 8,
        is_tag(with_flipped_bit(c, at, bit).tag),
    ensures
        with_flipped_bit(c, at, bit) != c,
        parse_chunk(flip_bit(c.to_bytes(), 4 + at, bit)) == if with_flipped_bit(c, at, bit).crc()
            == c.crc() {
            Ok::<ChunkView, PngError>(with_flipped_bit(c, at, bit))
        } else {
            Err::<ChunkView, PngError>(PngError::ChecksumMismatch)
        },
{
    let n = c.data.len() as int;
    let b = c.to_bytes();
    let changed = with_flipped_bit(c, at, bit);
    let flipped = flip_bit(b, 4 + at, bit);
    lemma_be_u32_of_be_bytes(n as u32);
    lemma_be_u32_of_be_bytes(c.crc());
    assert(b[4 + at] == (c.tag + c.data)[at]);
    assert(flipped.subrange(0, 4) =~= be_bytes(n as u32));
    assert(flipped.subrange(4, 8) =~= changed.tag);
    assert(flipped.subrange(8, 8 + n) =~= changed.data);
    assert(flipped.subrange(8 + n, 12 + n) =~= be_bytes(c.crc()));
    let old_byte = (c.tag + c.data)[at];
    assert(old_byte ^ (1u8 << bit) != old_byte) by (bit_vector)
        requires
            bit < 8,
    ;
    if at < 4 {
        assert(changed.tag[at] != c.tag[at]);
    } else {
        assert(changed.data[at - 4] != c.data[at - 4]);
    }
}

} // verus!
