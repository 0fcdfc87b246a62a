use mypng::chunk::Chunk;
use mypng::chunk_type::ChunkType;
use mypng::commands::{decode, encode, remove};
use mypng::png::Png;
use mypng::PngError;

fn file() -> Vec<u8> {
    Png::from_chunks(vec![
        Chunk::new(ChunkType::from_str("IHDR").unwrap(), vec![0, 0, 0, 1, 0, 0, 0, 1, 8, 0, 0, 0, 0]),
        Chunk::new(ChunkType::from_str("IEND").unwrap(), Vec::new()),
    ])
    .as_bytes()
}

#[test]
fn encode_appends_one_chunk_to_the_file() {
    let out = encode(&file(), "ruSt", "hello").unwrap();
    let mut expected = file();
    expected.extend_from_slice(&[0, 0, 0, 5]);
    expected.extend_from_slice(b"ruSt");
    expected.extend_from_slice(b"hello");
    let crc = Chunk::new(ChunkType::from_str("ruSt").unwrap(), b"hello".to_vec()).crc();
    expected.extend_from_slice(&crc.to_be_bytes());
    assert_eq!(out, expected);
}

#[test]
fn encode_then_decode_gives_the_message() {
    let out = encode(&file(), "ruSt", "a secret: 秘密").unwrap();
    assert_eq!(decode(&out, "ruSt"), Ok(String::from("a secret: 秘密")));
    let empty = encode(&file(), "ruSt", "").unwrap();
    assert_eq!(decode(&empty, "ruSt"), Ok(String::new()));
}

#[test]
fn encode_reports_the_file_before_the_type() {
    let mut broken = file();
    broken[3] = 0;
    assert_eq!(encode(&broken, "r1St", "hello"), Err(PngError::BadSignature));
    assert_eq!(encode(&file(), "r1St", "hello"), Err(PngError::InvalidTag));
    assert_eq!(encode(&file(), "ruStx", "hello"), Err(PngError::InvalidTag));
    let n = file().len();
    assert_eq!(encode(&file()[..n - 2], "ruSt", "hello"), Err(PngError::TooShort));
}

#[test]
fn decode_reads_the_first_chunk_of_the_type() {
    let once = encode(&file(), "ruSt", "first").unwrap();
    let twice = encode(&once, "ruSt", "second").unwrap();
    assert_eq!(decode(&twice, "ruSt"), Ok(String::from("first")));
}

#[test]
fn decode_without_such_a_chunk_is_not_found() {
    assert_eq!(decode(&file(), "ruSt"), Err(PngError::NotFound));
    assert_eq!(decode(&file(), "no"), Err(PngError::NotFound));
}

#[test]
fn decode_of_data_that_is_not_text_is_a_utf8_error() {
    assert_eq!(decode(&file(), "IHDR"), Ok(String::from("\0\0\0\u{1}\0\0\0\u{1}\u{8}\0\0\0\0")));
    let mut p = Png::try_from(file().as_slice()).unwrap();
    p.append_chunk(Chunk::new(ChunkType::from_str("biNa").unwrap(), vec![0xc3, 0x28]));
    assert_eq!(decode(&p.as_bytes(), "biNa"), Err(PngError::Utf8Error));
}

#[test]
fn decode_of_a_broken_file_reports_how_it_is_broken() {
    let mut bytes = encode(&file(), "ruSt", "hello").unwrap();
    let n = bytes.len();
    bytes[n - 6] ^= 0x40;
    assert_eq!(decode(&bytes, "ruSt"), Err(PngError::ChecksumMismatch));
    assert_eq!(decode(&bytes[1..], "ruSt"), Err(PngError::BadSignature));
}

#[test]
fn remove_undoes_encode() {
    let with_message = encode(&file(), "ruSt", "hello").unwrap();
    let (without, chunk) = remove(&with_message, "ruSt").unwrap();
    assert_eq!(without, file());
    assert_eq!(chunk.data_as_string(), Ok(String::from("hello")));
    assert_eq!(chunk.chunk_type().to_string(), "ruSt");
    assert_eq!(decode(&without, "ruSt"), Err(PngError::NotFound));
}

#[test]
fn remove_takes_the_first_chunk_of_the_type_only() {
    let once = encode(&file(), "ruSt", "first").unwrap();
    let twice = encode(&once, "ruSt", "second").unwrap();
    let (rest, chunk) = remove(&twice, "ruSt").unwrap();
    assert_eq!(chunk.data(), b"first");
    assert_eq!(rest, encode(&file(), "ruSt", "second").unwrap());
}

#[test]
fn remove_without_such_a_chunk_is_not_found() {
    assert_eq!(remove(&file(), "ruSt").unwrap_err(), PngError::NotFound);
    assert_eq!(remove(&file()[..8], "IEND").unwrap_err(), PngError::NotFound);
    assert_eq!(remove(&file()[..9], "IEND").unwrap_err(), PngError::TooShort);
    assert_eq!(remove(&file()[..7], "IEND").unwrap_err(), PngError::BadSignature);
}
