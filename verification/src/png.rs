//! A PNG file as a chunk stream: the eight signature bytes, then chunks in
//! the order in which they stand in the file.

use crate::chunk::{
    lemma_parse_of_to_bytes, lemma_to_bytes_len, lemma_to_bytes_of_parse, parse_chunk, Chunk,
    ChunkView,
};
use crate::error::PngError;
use vstd::prelude::*;
use vstd::slice::slice_subrange;
use vstd::std_specs::convert::TryFromSpecImpl;
use vstd::string::StringSliceAdditionalSpecFns;

verus! {

/// The eight bytes that every PNG file begins with.
pub const STANDARD_HEADER: [u8; 8] = [137, 80, 78, 71, 13, 10, 26, 10];

/// The signature as a sequence.
pub open spec fn signature() -> Seq<u8> {
    STANDARD_HEADER@
}

/// The bytes of some chunks, one frame after the other.
pub open spec fn chunks_bytes(cs: Seq<ChunkView>) -> Seq<u8>
    decreases cs.len(),
{
    if cs.len() == 0 {
        Seq::<u8>::empty()
    } else {
        cs[0].to_bytes() + chunks_bytes(cs.drop_first())
    }
}

/// A chunk stream as it stands in a file: the signature, then the chunks.
pub open spec fn stream_bytes(cs: Seq<ChunkView>) -> Seq<u8> {
    signature() + chunks_bytes(cs)
}

/// `r` with the chunks `done` put in front of those it holds.
pub open spec fn after(done: Seq<ChunkView>, r: Result<Seq<ChunkView>, PngError>) -> Result<
    Seq<ChunkView>,
    PngError,
> {
    match r {
        Ok(cs) => Ok(done + cs),
        Err(e) => Err(e),
    }
}

/// What decoding chunk after chunk gives, until `bytes` is used up: the
/// chunks in order, or the failure of the first chunk that does not decode.
pub open spec fn parse_chunks(bytes: Seq<u8>) -> Result<Seq<ChunkView>, PngError>
    decreases bytes.len(),
{
    if bytes.len() == 0 {
        Ok(Seq::<ChunkView>::empty())
    } else {
        match parse_chunk(bytes) {
            Err(e) => Err(e),
            Ok(c) => after(seq![c], parse_chunks(bytes.skip(c.frame_len() as int))),
        }
    }
}

/// What decoding a whole file gives: `BadSignature` unless it begins with
/// the signature, else what decoding the chunks after it gives.
pub open spec fn parse_png(bytes: Seq<u8>) -> Result<Seq<ChunkView>, PngError> {
    if bytes.len() < 8 || bytes.subrange(0, 8) != signature() {
        Err(PngError::BadSignature)
    } else {
        parse_chunks(bytes.skip(8))
    }
}

/// One step of decoding a file: where the chunks `done` have been decoded
/// up to `pos` and bytes remain, the chunk at `pos` either fails the whole or
/// joins `done`, and decoding goes on behind its frame.
proof fn lemma_parse_chunks_step(bytes: Seq<u8>, pos: int, done: Seq<ChunkView>)
    requires
        0 <= pos < bytes.len(),
    ensures
        match parse_chunk(bytes.skip(pos)) {
            Err(e) => after(done, parse_chunks(bytes.skip(pos))) == Err::<
                Seq<ChunkView>,
                PngError,
            >(e),
            Ok(c) => {
                &&& pos + c.frame_len() <= bytes.len()
                &&& after(done, parse_chunks(bytes.skip(pos))) == after(
                    done.push(c),
                    parse_chunks(bytes.skip(pos + c.frame_len())),
                )
            },
        },
{
    let rest = bytes.skip(pos);
    match parse_chunk(rest) {
        Err(e) => {},
        Ok(c) => {
            lemma_to_bytes_of_parse(rest);
            assert(rest.skip(c.frame_len() as int) =~= bytes.skip(pos + c.frame_len()));
            let next = parse_chunks(bytes.skip(pos + c.frame_len()));
            assert(parse_chunks(rest) == after(seq![c], next));
            match next {
                Err(e) => {},
                Ok(cs) => {
                    assert(done + (seq![c] + cs) =~= done.push(c) + cs);
                },
            }
        },
    }
}

/// True where `i` is the place of the first chunk of type `tag`.
pub open spec fn is_first_with_tag(cs: Seq<ChunkView>, tag: Seq<u8>, i: int) -> bool {
    &&& 0 <= i < cs.len()
    &&& cs[i].tag == tag
    &&& forall|j: int| 0 <= j < i ==> (#[trigger] cs[j]).tag != tag
}

/// The place of the first chunk of type `tag`, if there is one.
pub open spec fn position_of(cs: Seq<ChunkView>, tag: Seq<u8>) -> Option<int> {
    if exists|i: int| is_first_with_tag(cs, tag, i) {
        Some(choose|i: int| is_first_with_tag(cs, tag, i))
    } else {
        None
    }
}

/// What each of some chunks holds.
pub open spec fn chunk_views(cs: Seq<Chunk>) -> Seq<ChunkView> {
    Seq::new(cs.len(), |i: int| cs[i]@)
}

/// A PNG file: chunks in order. The signature is implied.
#[derive(Debug)]
pub struct Png {
    chunks: Vec<Chunk>,
}

impl View for Png {
    type V = Seq<ChunkView>;

    closed spec fn view(&self) -> Seq<ChunkView> {
        chunk_views(self.chunks@)
    }
}

/// The standard conversion from bytes: it decodes as [`Png::try_from`]
/// does, and says so in its own contract. A file owns a `Vec`, which no
/// spec function can build, so `try_from_spec` has no value to name; the
/// contract is stated over the view instead.
impl<'a> TryFrom<&'a [u8]> for Png {
    type Error = PngError;

    fn try_from(bytes: &'a [u8]) -> (r: Result<Png, PngError>)
        ensures
            match r {
                Ok(p) => parse_png(bytes@) == Ok::<Seq<ChunkView>, PngError>(p@) && stream_bytes(
                    p@,
                ) == bytes@,
                Err(e) => parse_png(bytes@) == Err::<Seq<ChunkView>, PngError>(e),
            },
    {
        Png::try_from(bytes)
    }
}

impl<'a> TryFromSpecImpl<&'a [u8]> for Png {
    open spec fn obeys_try_from_spec() -> bool {
        false
    }

    open spec fn try_from_spec(v: &'a [u8]) -> Result<Png, PngError> {
        arbitrary()
    }
}

/// Whether the chunk is of the type whose bytes are `tag`.
fn has_type(c: &Chunk, tag: &[u8]) -> (r: bool)
    ensures
        r == (c@.tag == tag@),
{
    let t = c.chunk_type().bytes();
    let r = tag.len() == 4 && t[0] == tag[0] && t[1] == tag[1] && t[2] == tag[2] && t[3] == tag[3];
    proof {
        if r {
            assert(c@.tag =~= tag@);
        }
    }
    r
}

impl Png {
    /// Makes a file of the given chunks, in their order.
    pub fn from_chunks(chunks: Vec<Chunk>) -> (p: Png)
        ensures
            p@ == chunk_views(chunks@),
    {
        Png { chunks }
    }

    /// Decodes a whole file. Fails with `BadSignature` unless the buffer
    /// begins with the signature; after it, chunk follows chunk until the
    /// buffer is used up, and the first chunk that does not decode fails
    /// the whole with its own error. Encoding what was decoded gives the
    /// buffer back.
    pub fn try_from(bytes: &[u8]) -> (r: Result<Png, PngError>)
        ensures
            match r {
                Ok(p) => parse_png(bytes@) == Ok::<Seq<ChunkView>, PngError>(p@) && stream_bytes(
                    p@,
                ) == bytes@,
                Err(e) => parse_png(bytes@) == Err::<Seq<ChunkView>, PngError>(e),
            },
    {
        proof {
            if parse_png(bytes@) is Ok {
                lemma_stream_bytes_of_parse(bytes@);
            }
        }
        let n = bytes.len();
        if n < 8 {
            return Err(PngError::BadSignature);
        }
        let mut k: usize = 0;
        while k < 8
            invariant
                k <= 8 <= n,
                n == bytes@.len(),
                forall|j: int| 0 <= j < k ==> bytes@[j] == signature()[j],
            decreases 8 - k,
        {
            if bytes[k] != STANDARD_HEADER[k] {
                return Err(PngError::BadSignature);
            }
            k += 1;
        }
        assert(bytes@.subrange(0, 8) =~= signature());
        let mut chunks: Vec<Chunk> = Vec::new();
        let mut pos: usize = 8;
        assert(after(chunk_views(chunks@), parse_chunks(bytes@.skip(8))) =~= parse_chunks(
            bytes@.skip(8),
        ));
        while pos < n
            invariant
                8 <= pos <= n,
                n == bytes@.len(),
                bytes@.subrange(0, 8) == signature(),
                parse_chunks(bytes@.skip(8)) == after(
                    chunk_views(chunks@),
                    parse_chunks(bytes@.skip(pos as int)),
                ),
            decreases n - pos,
        {
            let rest = slice_subrange(bytes, pos, n);
            assert(rest@ =~= bytes@.skip(pos as int));
            match Chunk::try_from(rest) {
                Err(e) => {
                    proof {
                        lemma_parse_chunks_step(bytes@, pos as int, chunk_views(chunks@));
                    }
                    return Err(e);
                },
                Ok(c) => {
                    proof {
                        lemma_parse_chunks_step(bytes@, pos as int, chunk_views(chunks@));
                        assert(chunk_views(chunks@).push(c@) =~= chunk_views(chunks@.push(c)));
                    }
                    pos = pos + 12 + c.length() as usize;
                    chunks.push(c);
                },
            }
        }
        proof {
            assert(chunk_views(chunks@) + Seq::<ChunkView>::empty() =~= chunk_views(chunks@));
        }
        Ok(Png { chunks })
    }

    /// Puts a chunk behind the others. Chunks of the same type that are
    /// already there stay.
    pub fn append_chunk(&mut self, chunk: Chunk)
        ensures
            final(self)@ == old(self)@.push(chunk@),
    {
        self.chunks.push(chunk);
        assert(self@ =~= old(self)@.push(chunk@));
    }

    /// The place of the first chunk whose type bytes are `tag`.
    fn find(&self, tag: &[u8]) -> (r: Option<usize>)
        ensures
            match r {
                Some(i) => position_of(self@, tag@) == Some(i as int) && i < self.chunks@.len(),
                None => position_of(self@, tag@) is None,
            },
    {
        let mut i: usize = 0;
        while i < self.chunks.len()
            invariant
                i <= self.chunks@.len(),
                forall|j: int| 0 <= j < i ==> (#[trigger] self@[j]).tag != tag@,
            decreases self.chunks@.len() - i,
        {
            if has_type(&self.chunks[i], tag) {
                proof {
                    lemma_position_of_first(self@, tag@, i as int);
                }
                return Some(i);
            }
            i += 1;
        }
        proof {
            lemma_position_of_none(self@, tag@);
        }
        None
    }

    /// The first chunk of the given type, if there is one.
    pub fn chunk_by_type(&self, chunk_type: &str) -> (r: Option<&Chunk>)
        ensures
            match position_of(self@, chunk_type.spec_bytes()) {
                Some(i) => r matches Some(c) && c@ == self@[i],
                None => r is None,
            },
    {
        match self.find(chunk_type.as_bytes()) {
            Some(i) => {
                let c = &self.chunks[i];
                assert(c@ == self@[i as int]);
                Some(c)
            },
            None => None,
        }
    }

    /// Takes out the first chunk of the given type and returns it; the
    /// others keep their order. Fails with `NotFound`, and changes
    /// nothing, where there is no such chunk.
    pub fn remove_chunk(&mut self, chunk_type: &str) -> (r: Result<Chunk, PngError>)
        ensures
            match position_of(old(self)@, chunk_type.spec_bytes()) {
                Some(i) => r matches Ok(c) && c@ == old(self)@[i] && final(self)@ == old(
                    self,
                )@.remove(i),
                None => r matches Err(e) && e == PngError::NotFound && final(self)@ == old(
                    self,
                )@,
            },
    {
        match self.find(chunk_type.as_bytes()) {
            Some(i) => {
                let c = self.chunks.remove(i);
                assert(self@ =~= old(self)@.remove(i as int));
                Ok(c)
            },
            None => Err(PngError::NotFound),
        }
    }

    /// The chunks, in order.
    pub fn chunks(&self) -> (r: &[Chunk])
        ensures
            chunk_views(r@) == self@,
    {
        self.chunks.as_slice()
    }

    /// The file as bytes: the signature, then each chunk in order.
    /// Decoding these bytes gives the file back.
    pub fn as_bytes(&self) -> (r: Vec<u8>)
        ensures
            r@ == stream_bytes(self@),
            forall|i: int| 0 <= i < self@.len() ==> (#[trigger] self@[i]).wf(),
            parse_png(r@) == Ok::<Seq<ChunkView>, PngError>(self@),
    {
        let mut out: Vec<u8> = Vec::new();
        out.extend_from_slice(STANDARD_HEADER.as_slice());
        assert(out@ =~= signature());
        let mut i: usize = 0;
        assert(self@.take(0) =~= Seq::<ChunkView>::empty());
        while i < self.chunks.len()
            invariant
                i <= self.chunks@.len(),
                out@ == signature() + chunks_bytes(self@.take(i as int)),
                forall|j: int| 0 <= j < i ==> (#[trigger] self@[j]).wf(),
            decreases self.chunks@.len() - i,
        {
            let frame = self.chunks[i].as_bytes();
            proof {
                lemma_chunks_bytes_push(self@.take(i as int), self@[i as int]);
                assert(self@.take(i as int).push(self@[i as int]) =~= self@.take(i + 1));
            }
            out.extend_from_slice(frame.as_slice());
            assert(out@ =~= signature() + (chunks_bytes(self@.take(i as int)) + frame@));
            i += 1;
        }
        proof {
            assert(self@.take(i as int) =~= self@);
            lemma_parse_of_stream_bytes(self@);
        }
        out
    }
}

/// The bytes of some chunks and one more are the bytes of the chunks, then
/// those of the one.
pub proof fn lemma_chunks_bytes_push(cs: Seq<ChunkView>, c: ChunkView)
    ensures
        chunks_bytes(cs.push(c)) == chunks_bytes(cs) + c.to_bytes(),
    decreases cs.len(),
{
    if cs.len() == 0 {
        assert(cs.push(c).drop_first() =~= cs);
        assert(chunks_bytes(cs.push(c)) =~= chunks_bytes(cs) + c.to_bytes());
    } else {
        lemma_chunks_bytes_push(cs.drop_first(), c);
        assert(cs.push(c).drop_first() =~= cs.drop_first().push(c));
        assert(chunks_bytes(cs.push(c)) =~= chunks_bytes(cs) + c.to_bytes());
    }
}

/// Where `i` is the place of the first chunk of type `tag`, `position_of`
/// gives `i`.
pub proof fn lemma_position_of_first(cs: Seq<ChunkView>, tag: Seq<u8>, i: int)
    requires
        is_first_with_tag(cs, tag, i),
    ensures
        position_of(cs, tag) == Some(i),
{
    let k = choose|k: int| is_first_with_tag(cs, tag, k);
    assert(cs[i].tag == tag && cs[k].tag == tag);
}

/// Where no chunk is of type `tag`, `position_of` gives nothing.
pub proof fn lemma_position_of_none(cs: Seq<ChunkView>, tag: Seq<u8>)
    requires
        forall|j: int| 0 <= j < cs.len() ==> (#[trigger] cs[j]).tag != tag,
    ensures
        position_of(cs, tag) is None,
{
}

/// What `position_of` gives is the place of the first chunk of the type,
/// and it gives nothing only where no chunk is of the type.
pub proof fn lemma_position_of(cs: Seq<ChunkView>, tag: Seq<u8>)
    ensures
        match position_of(cs, tag) {
            Some(i) => is_first_with_tag(cs, tag, i),
            None => forall|j: int| 0 <= j < cs.len() ==> (#[trigger] cs[j]).tag != tag,
        },
{
    if position_of(cs, tag) is None {
        assert forall|j: int| 0 <= j < cs.len() implies (#[trigger] cs[j]).tag != tag by {
            if cs[j].tag == tag {
                lemma_some_first(cs, tag, j);
            }
        }
    }
}

/// Where some chunk up to place `j` is of type `tag`, a first one exists.
proof fn lemma_some_first(cs: Seq<ChunkView>, tag: Seq<u8>, j: int)
    requires
        0 <= j < cs.len(),
        cs[j].tag == tag,
    ensures
        exists|i: int| is_first_with_tag(cs, tag, i),
    decreases j,
{
    if exists|k: int| 0 <= k < j && (#[trigger] cs[k]).tag == tag {
        let k = choose|k: int| 0 <= k < j && (#[trigger] cs[k]).tag == tag;
        lemma_some_first(cs, tag, k);
    } else {
        assert(is_first_with_tag(cs, tag, j));
    }
}

/// Every chunk that decoding gives is well formed, and encoding the chunks
/// gives back the bytes that they were decoded from.
pub proof fn lemma_chunks_bytes_of_parse(bytes: Seq<u8>)
    requires
        parse_chunks(bytes) is Ok,
    ensures
        chunks_bytes(parse_chunks(bytes)->Ok_0) == bytes,
        forall|i: int|
            0 <= i < parse_chunks(bytes)->Ok_0.len() ==> (#[trigger] parse_chunks(
                bytes,
            )->Ok_0[i]).wf(),
    decreases bytes.len(),
{
    let cs = parse_chunks(bytes)->Ok_0;
    if bytes.len() == 0 {
        assert(chunks_bytes(cs) =~= bytes);
    } else {
        let c = parse_chunk(bytes)->Ok_0;
        lemma_to_bytes_of_parse(bytes);
        let rest = bytes.skip(c.frame_len() as int);
        lemma_chunks_bytes_of_parse(rest);
        let tail = parse_chunks(rest)->Ok_0;
        assert(cs == seq![c] + tail);
        assert(cs.drop_first() =~= tail);
        assert(chunks_bytes(cs) == c.to_bytes() + chunks_bytes(tail));
        assert(bytes.subrange(0, c.frame_len() as int) + rest =~= bytes);
        assert forall|i: int| 0 <= i < cs.len() implies (#[trigger] cs[i]).wf() by {
            if i > 0 {
                assert(cs[i] == tail[i - 1]);
            }
        }
    }
}

/// Decoding the frames of well-formed chunks gives the chunks back.
pub proof fn lemma_parse_of_chunks_bytes(cs: Seq<ChunkView>)
    requires
        forall|i: int| 0 <= i < cs.len() ==> (#[trigger] cs[i]).wf(),
    ensures
        parse_chunks(chunks_bytes(cs)) == Ok::<Seq<ChunkView>, PngError>(cs),
    decreases cs.len(),
{
    if cs.len() == 0 {
        assert(cs =~= Seq::<ChunkView>::empty());
    } else {
        let c = cs[0];
        let tail = cs.drop_first();
        let rest = chunks_bytes(tail);
        lemma_parse_of_to_bytes(c, rest);
        lemma_parse_of_chunks_bytes(tail);
        lemma_to_bytes_len(c);
        assert((c.to_bytes() + rest).skip(c.frame_len() as int) =~= rest);
        assert(seq![c] + tail =~= cs);
    }
}

/// Encoding a decoded file gives back the bytes that it was decoded from.
pub proof fn lemma_stream_bytes_of_parse(bytes: Seq<u8>)
    requires
        parse_png(bytes) is Ok,
    ensures
        stream_bytes(parse_png(bytes)->Ok_0) == bytes,
{
    lemma_chunks_bytes_of_parse(bytes.skip(8));
    assert(bytes.subrange(0, 8) + bytes.skip(8) =~= bytes);
}

/// Decoding the encoding of well-formed chunks gives the chunks back.
pub proof fn lemma_parse_of_stream_bytes(cs: Seq<ChunkView>)
    requires
        forall|i: int| 0 <= i < cs.len() ==> (#[trigger] cs[i]).wf(),
    ensures
        parse_png(stream_bytes(cs)) == Ok::<Seq<ChunkView>, PngError>(cs),
{
    lemma_parse_of_chunks_bytes(cs);
    assert(stream_bytes(cs).subrange(0, 8) =~= signature());
    assert(stream_bytes(cs).skip(8) =~= chunks_bytes(cs));
}

} // verus!
