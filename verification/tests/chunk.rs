use mypng::chunk::Chunk;
use mypng::chunk_type::ChunkType;
use mypng::PngError;
use std::str::FromStr;

fn testing_chunk() -> Chunk {
    let data_length: u32 = 42;
    let chunk_type = "RuSt".as_bytes();
    let message_bytes = "This is where your secret message will be!".as_bytes();
    let crc: u32 = 2882656334;

    let chunk_data: Vec<u8> = data_length
        .to_be_bytes()
        .iter()
        .chain(chunk_type.iter())
        .chain(message_bytes.iter())
        .chain(crc.to_be_bytes().iter())
        .copied()
        .collect();

    Chunk::try_from(chunk_data.as_ref()).unwrap()
}

#[test]
fn test_new_chunk() {
    let chunk_type = ChunkType::from_str("RuSt").unwrap();
    let data = "This is where your secret message will be!".as_bytes().to_vec();
    let chunk = Chunk::new(chunk_type, data);
    assert_eq!(chunk.length(), 42);
    assert_eq!(chunk.crc(), 2882656334);
}

#[test]
fn test_chunk_length() {
    let chunk = testing_chunk();
    assert_eq!(chunk.length(), 42);
}

#[test]
fn test_chunk_type() {
    let chunk = testing_chunk();
    assert_eq!(chunk.chunk_type().to_string(), String::from("RuSt"));
}

#[test]
fn test_chunk_string() {
    let chunk = testing_chunk();
    let chunk_string = chunk.data_as_string().unwrap();
    let expected_chunk_string = String::from("This is where your secret message will be!");
    assert_eq!(chunk_string, expected_chunk_string);
}

#[test]
fn test_chunk_crc() {
    let chunk = testing_chunk();
    assert_eq!(chunk.crc(), 2882656334);
}

#[test]
fn test_valid_chunk_from_bytes() {
    let data_length: u32 = 42;
    let chunk_type = "RuSt".as_bytes();
    let message_bytes = "This is where your secret message will be!".as_bytes();
    let crc: u32 = 2882656334;

    let chunk_data: Vec<u8> = data_length
        .to_be_bytes()
        .iter()
        .chain(chunk_type.iter())
        .chain(message_bytes.iter())
        .chain(crc.to_be_bytes().iter())
        .copied()
        .collect();

    let chunk = Chunk::try_from(chunk_data.as_ref()).unwrap();

    let chunk_string = chunk.data_as_string().unwrap();
    let expected_chunk_string = String::from("This is where your secret message will be!");

    assert_eq!(chunk.length(), 42);
    assert_eq!(chunk.chunk_type().to_string(), String::from("RuSt"));
    assert_eq!(chunk_string, expected_chunk_string);
    assert_eq!(chunk.crc(), 2882656334);
}

#[test]
fn test_invalid_chunk_from_bytes() {
    let data_length: u32 = 42;
    let chunk_type = "RuSt".as_bytes();
    let message_bytes = "This is where your secret message will be!".as_bytes();
    let crc: u32 = 2882656333;

    let chunk_data: Vec<u8> = data_length
        .to_be_bytes()
        .iter()
        .chain(chunk_type.iter())
        .chain(message_bytes.iter())
        .chain(crc.to_be_bytes().iter())
        .copied()
        .collect();

    let chunk = Chunk::try_from(chunk_data.as_ref());

    assert!(chunk.is_err());
}

#[test]
pub fn test_chunk_trait_impls() {
    let data_length: u32 = 42;
    let chunk_type = "RuSt".as_bytes();
    let message_bytes = "This is where your secret message will be!".as_bytes();
    let crc: u32 = 2882656334;

    let chunk_data: Vec<u8> = data_length
        .to_be_bytes()
        .iter()
        .chain(chunk_type.iter())
        .chain(message_bytes.iter())
        .chain(crc.to_be_bytes().iter())
        .copied()
        .collect();

    let chunk: Chunk = TryFrom::try_from(chunk_data.as_ref()).unwrap();

    let _chunk_string = chunk.data_as_string().unwrap();
}

fn frame(length: u32, tag: &[u8], data: &[u8], crc: u32) -> Vec<u8> {
    let mut out = Vec::new();
    out.extend_from_slice(&length.to_be_bytes());
    out.extend_from_slice(tag);
    out.extend_from_slice(data);
    out.extend_from_slice(&crc.to_be_bytes());
    out
}

const MESSAGE: &str = "This is where your secret message will be!";

#[test]
fn a_stored_checksum_that_is_off_by_one_is_a_checksum_mismatch() {
    let bytes = frame(42, b"RuSt", MESSAGE.as_bytes(), 2882656333);
    assert_eq!(Chunk::try_from(bytes.as_slice()), Err(PngError::ChecksumMismatch));
}

#[test]
fn the_checksum_is_the_crc_32_of_type_and_data() {
    // The bitwise CRC below is held to the check value of CRC-32/ISO-HDLC:
    // that of the digits 1 to 9.
    assert_eq!(crc32(b"123456789"), 0xcbf4_3926);
    let c = Chunk::new(ChunkType::from_str("abcd").unwrap(), Vec::new());
    assert_eq!(c.crc(), crc32(b"abcd"));
    let tag = ChunkType::try_from(*b"RuSt").unwrap();
    assert_eq!(Chunk::new(tag, MESSAGE.as_bytes().to_vec()).crc(), 0xabd1_d84e);
    let iend = Chunk::new(ChunkType::try_from(*b"IEND").unwrap(), Vec::new());
    assert_eq!(iend.crc(), 0xae42_6082);
    let long = Chunk::new(ChunkType::try_from(*b"teXt").unwrap(), vec![0x5a; 1000]);
    let mut covered = b"teXt".to_vec();
    covered.extend_from_slice(&[0x5a; 1000]);
    assert_eq!(long.crc(), crc32(&covered));
}

fn crc32(bytes: &[u8]) -> u32 {
    let mut crc: u32 = 0xffff_ffff;
    for b in bytes {
        crc ^= *b as u32;
        for _ in 0..8 {
            crc = if crc & 1 == 1 { (crc >> 1) ^ 0xedb8_8320 } else { crc >> 1 };
        }
    }
    !crc
}

#[test]
fn as_bytes_is_length_type_data_checksum() {
    let c = Chunk::new(ChunkType::from_str("RuSt").unwrap(), MESSAGE.as_bytes().to_vec());
    assert_eq!(c.as_bytes(), frame(42, b"RuSt", MESSAGE.as_bytes(), 2882656334));
    let iend = Chunk::new(ChunkType::from_str("IEND").unwrap(), Vec::new());
    assert_eq!(
        iend.as_bytes(),
        vec![0, 0, 0, 0, 0x49, 0x45, 0x4e, 0x44, 0xae, 0x42, 0x60, 0x82]
    );
}

#[test]
fn the_length_field_is_big_endian() {
    let data = vec![7u8; 0x0102];
    let c = Chunk::new(ChunkType::from_str("teXt").unwrap(), data.clone());
    let bytes = c.as_bytes();
    assert_eq!(&bytes[0..4], &[0, 0, 1, 2]);
    assert_eq!(c.length(), 258);
    assert_eq!(bytes.len(), 12 + 258);
    let back = Chunk::try_from(bytes.as_slice()).unwrap();
    assert_eq!(back.length(), 258);
    assert_eq!(back.data(), data.as_slice());
}

#[test]
fn decoding_an_encoded_chunk_gives_the_chunk_back() {
    for (tag, data) in [
        ("RuSt", MESSAGE.as_bytes().to_vec()),
        ("IEND", Vec::new()),
        ("ruSt", vec![0, 255, 128, 1]),
        ("Rust", b"hello".to_vec()),
    ] {
        let c = Chunk::new(ChunkType::from_str(tag).unwrap(), data.clone());
        let back = Chunk::try_from(c.as_bytes().as_slice()).unwrap();
        assert_eq!(back, c);
        assert_eq!(back.chunk_type().bytes(), c.chunk_type().bytes());
        assert_eq!(back.data(), data.as_slice());
        assert_eq!(back.crc(), c.crc());
        assert_eq!(back.length() as usize, data.len());
    }
}

#[test]
fn encoding_a_decoded_chunk_gives_the_bytes_back() {
    let bytes = frame(42, b"RuSt", MESSAGE.as_bytes(), 2882656334);
    let c = Chunk::try_from(bytes.as_slice()).unwrap();
    assert_eq!(c.as_bytes(), bytes);
}

#[test]
fn eleven_bytes_are_too_short() {
    let bytes = vec![0, 0, 0, 0, 0x49, 0x45, 0x4e, 0x44, 0xae, 0x42, 0x60];
    assert_eq!(bytes.len(), 11);
    assert_eq!(Chunk::try_from(bytes.as_slice()), Err(PngError::TooShort));
    assert_eq!(Chunk::try_from(&bytes[0..0]), Err(PngError::TooShort));
}

#[test]
fn twelve_bytes_hold_a_chunk_without_data() {
    let bytes = vec![0, 0, 0, 0, 0x49, 0x45, 0x4e, 0x44, 0xae, 0x42, 0x60, 0x82];
    let c = Chunk::try_from(bytes.as_slice()).unwrap();
    assert_eq!(c.length(), 0);
    assert_eq!(c.data(), &[] as &[u8]);
    assert_eq!(c.chunk_type().to_string(), "IEND");
    assert_eq!(c.crc(), crc32(b"IEND"));
    assert_eq!(c.crc(), 0xae42_6082);
}

#[test]
fn a_type_that_is_not_four_letters_is_an_invalid_tag() {
    let bytes = frame(0, b"IE1D", &[], crc32(b"IE1D"));
    assert_eq!(Chunk::try_from(bytes.as_slice()), Err(PngError::InvalidTag));
}

#[test]
fn a_buffer_that_ends_before_the_frame_is_too_short() {
    let whole = frame(42, b"RuSt", MESSAGE.as_bytes(), 2882656334);
    assert_eq!(Chunk::try_from(&whole[..whole.len() - 1]), Err(PngError::TooShort));
    assert_eq!(Chunk::try_from(&whole[..12]), Err(PngError::TooShort));
    let huge = frame(u32::MAX, b"RuSt", b"", 0);
    assert_eq!(Chunk::try_from(huge.as_slice()), Err(PngError::TooShort));
}

#[test]
fn the_data_is_cut_by_the_length_field_not_by_the_end_of_the_buffer() {
    let mut bytes = frame(42, b"RuSt", MESSAGE.as_bytes(), 2882656334);
    let frame_len = bytes.len();
    bytes.extend_from_slice(&[1, 2, 3, 4, 5]);
    let c = Chunk::try_from(bytes.as_slice()).unwrap();
    assert_eq!(c.length(), 42);
    assert_eq!(c.data(), MESSAGE.as_bytes());
    assert_eq!(c.crc(), 2882656334);
    assert_eq!(c.as_bytes(), &bytes[..frame_len]);
}

#[test]
fn a_length_field_smaller_than_the_data_is_a_checksum_mismatch() {
    // The checksum is read where the length field says that the data ends.
    let bytes = frame(41, b"RuSt", MESSAGE.as_bytes(), 2882656334);
    assert_eq!(Chunk::try_from(bytes.as_slice()), Err(PngError::ChecksumMismatch));
}

#[test]
fn the_type_is_judged_before_the_length_and_the_checksum() {
    let bytes = frame(1000, b"Ru1t", b"abc", 0);
    assert_eq!(Chunk::try_from(bytes.as_slice()), Err(PngError::InvalidTag));
}

#[test]
fn data_that_is_not_utf8_gives_a_utf8_error() {
    let c = Chunk::new(ChunkType::from_str("RuSt").unwrap(), vec![0xff, 0xfe, 0x00]);
    assert_eq!(c.data_as_string(), Err(PngError::Utf8Error));
    let cut = Chunk::new(ChunkType::from_str("RuSt").unwrap(), vec![0xe4, 0xbd]);
    assert_eq!(cut.data_as_string(), Err(PngError::Utf8Error));
}

#[test]
fn data_as_string_decodes_utf8() {
    let c = Chunk::new(ChunkType::from_str("RuSt").unwrap(), "héllo, 世界".as_bytes().to_vec());
    assert_eq!(c.data_as_string(), Ok(String::from("héllo, 世界")));
    let empty = Chunk::new(ChunkType::from_str("RuSt").unwrap(), Vec::new());
    assert_eq!(empty.data_as_string(), Ok(String::new()));
}

#[test]
fn a_clone_holds_what_the_chunk_holds() {
    let c = testing_chunk();
    let d = c.clone();
    assert_eq!(c, d);
    assert_eq!(d.as_bytes(), c.as_bytes());
}

#[test]
fn every_flipped_bit_of_type_or_data_is_caught() {
    let bytes = frame(42, b"RuSt", MESSAGE.as_bytes(), 2882656334);
    for at in 4..bytes.len() - 4 {
        for bit in 0..8 {
            let mut changed = bytes.clone();
            changed[at] ^= 1 << bit;
            let still_letters = changed[4..8].iter().all(|b| b.is_ascii_alphabetic());
            let expected = if still_letters {
                PngError::ChecksumMismatch
            } else {
                PngError::InvalidTag
            };
            assert_eq!(Chunk::try_from(changed.as_slice()), Err(expected));
        }
    }
}

#[test]
fn a_flipped_bit_in_the_data_is_a_checksum_mismatch() {
    let mut bytes = frame(42, b"RuSt", MESSAGE.as_bytes(), 2882656334);
    bytes[20] ^= 0x10;
    assert_eq!(Chunk::try_from(bytes.as_slice()), Err(PngError::ChecksumMismatch));
    let mut tag_changed = frame(42, b"RuSt", MESSAGE.as_bytes(), 2882656334);
    tag_changed[4] ^= 0x20;
    assert_eq!(&tag_changed[4..8], b"ruSt");
    assert_eq!(Chunk::try_from(tag_changed.as_slice()), Err(PngError::ChecksumMismatch));
}
