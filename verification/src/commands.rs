//! The three edits of a file that hide, read and take out a message: each
//! takes the bytes of a PNG file and gives back bytes or text. Reading and
//! writing the file is the caller's part.

use crate::chunk::{Chunk, ChunkView};
use crate::chunk_type::{is_tag, ChunkType};
use crate::error::PngError;
use crate::png::{lemma_chunks_bytes_push, parse_png, position_of, stream_bytes, Png};
use vstd::prelude::*;
use vstd::slice::slice_to_vec;
use vstd::string::StringSliceAdditionalSpecFns;
use vstd::utf8::{decode_utf8, valid_utf8};

verus! {

/// The file `file` with one more chunk at its end, of type `mytype` and
/// holding `message`. Fails as decoding `file` fails; then with
/// `InvalidTag` where `mytype` is not four letters.
pub fn encode(file: &[u8], mytype: &str, message: &str) -> (r: Result<Vec<u8>, PngError>)
    requires
        message.spec_bytes().len() <= u32::MAX,
    ensures
        match r {
            Ok(out) => {
                &&& parse_png(file@) is Ok
                &&& is_tag(mytype.spec_bytes())
                &&& out@ == file@ + (ChunkView {
                    tag: mytype.spec_bytes(),
                    data: message.spec_bytes(),
                }).to_bytes()
            },
            Err(e) => match parse_png(file@) {
                Err(parse_error) => e == parse_error,
                Ok(_) => !is_tag(mytype.spec_bytes()) && e == PngError::InvalidTag,
            },
        },
{
    let mut p = match Png::try_from(file) {
        Ok(p) => p,
        Err(e) => {
            return Err(e);
        },
    };
    let chunk_type = match ChunkType::from_str(mytype) {
        Ok(t) => t,
        Err(e) => {
            return Err(e);
        },
    };
    let chunk = Chunk::new(chunk_type, slice_to_vec(message.as_bytes()));
    proof {
        lemma_chunks_bytes_push(p@, chunk@);
        assert(stream_bytes(p@.push(chunk@)) =~= stream_bytes(p@) + chunk@.to_bytes());
    }
    p.append_chunk(chunk);
    Ok(p.as_bytes())
}

/// The text that the first chunk of type `mytype` in `file` holds. Fails as
/// decoding `file` fails; then with `NotFound` where no chunk is of that
/// type; then with `Utf8Error` where the chunk's data is not text.
pub fn decode(file: &[u8], mytype: &str) -> (r: Result<String, PngError>)
    ensures
        match parse_png(file@) {
            Err(parse_error) => r matches Err(e) && e == parse_error,
            Ok(cs) => match position_of(cs, mytype.spec_bytes()) {
                None => r matches Err(e) && e == PngError::NotFound,
                Some(i) => if valid_utf8(cs[i].data) {
                    r matches Ok(s) && s@ == decode_utf8(cs[i].data)
                } else {
                    r matches Err(e) && e == PngError::Utf8Error
                },
            },
        },
{
    let p = match Png::try_from(file) {
        Ok(p) => p,
        Err(e) => {
            return Err(e);
        },
    };
    match p.chunk_by_type(mytype) {
        Some(chunk) => chunk.data_as_string(),
        None => Err(PngError::NotFound),
    }
}

/// The file `file` without its first chunk of type `mytype`, and that
/// chunk. Fails as decoding `file` fails; then with `NotFound` where no
/// chunk is of that type.
pub fn remove(file: &[u8], mytype: &str) -> (r: Result<(Vec<u8>, Chunk), PngError>)
    ensures
        match parse_png(file@) {
            Err(parse_error) => r matches Err(e) && e == parse_error,
            Ok(cs) => match position_of(cs, mytype.spec_bytes()) {
                None => r matches Err(e) && e == PngError::NotFound,
                Some(i) => r matches Ok(pair) && pair.1@ == cs[i] && pair.0@ == stream_bytes(
                    cs.remove(i),
                ),
            },
        },
{
    let mut p = match Png::try_from(file) {
        Ok(p) => p,
        Err(e) => {
            return Err(e);
        },
    };
    match p.remove_chunk(mytype) {
        Ok(chunk) => Ok((p.as_bytes(), chunk)),
        Err(e) => Err(e),
    }
}

} // verus!
