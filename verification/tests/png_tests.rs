use pngme::chunk::Chunk;
use pngme::chunk_type::ChunkType;
use pngme::png::{Png, PngError};

const SIGNATURE: [u8; 8] = [0x89, 0x50, 0x4e, 0x47, 0x0d, 0x0a, 0x1a, 0x0a];

fn message_chunk(type_text: &str, message: &str) -> Chunk {
    let chunk_type = ChunkType::from_str(type_text).unwrap();
    Chunk::new(chunk_type, message.as_bytes().to_vec())
}

fn testing_png() -> Png {
    let mut png = Png::new();
    png.append_chunk(message_chunk("FrSt", "I am the first chunk"));
    png.append_chunk(message_chunk("miDl", "I am another chunk"));
    png.append_chunk(message_chunk("LASt", "I am the last chunk"));
    png
}

#[test]
fn test_empty_png_serializes_to_signature() {
    let png = Png::new();
    assert_eq!(png.as_bytes(), SIGNATURE.to_vec());
    assert_eq!(png.chunks().len(), 0);
}

#[test]
fn test_append_to_empty() {
    let mut png = Png::new();
    let chunk = message_chunk("ruSt", "hello");
    let expected_crc = chunk.crc();
    png.append_chunk(chunk);
    assert_eq!(png.chunks().len(), 1);
    assert_eq!(png.chunks()[0].chunk_type().to_text(), "ruSt");
    assert_eq!(png.chunks()[0].crc(), expected_crc);
    assert_eq!(png.chunks()[0].data_as_string().unwrap(), "hello");
}

#[test]
fn test_container_round_trip() {
    let png = testing_png();
    let bytes = png.as_bytes();
    let parsed = Png::parse(bytes.as_ref()).unwrap();
    assert_eq!(parsed.chunks().len(), 3);
    for (a, b) in png.chunks().iter().zip(parsed.chunks().iter()) {
        assert_eq!(a.length(), b.length());
        assert_eq!(a.chunk_type().bytes(), b.chunk_type().bytes());
        assert_eq!(a.data(), b.data());
        assert_eq!(a.crc(), b.crc());
    }
}

#[test]
fn test_parse_bad_signature() {
    let bytes = vec![0x13, 0x50, 0x4e, 0x47, 0x0d, 0x0a, 0x1a, 0x0a];
    assert_eq!(Png::parse(bytes.as_ref()).unwrap_err(), PngError::BadSignature);

    let short = vec![0x89, 0x50];
    assert_eq!(Png::parse(short.as_ref()).unwrap_err(), PngError::BadSignature);
}

#[test]
fn test_parse_truncated_chunk() {
    let mut bytes = SIGNATURE.to_vec();
    bytes.extend_from_slice(&5u32.to_be_bytes());
    bytes.extend_from_slice("ruSt".as_bytes());
    bytes.extend_from_slice(&[1, 2]);
    match Png::parse(bytes.as_ref()) {
        Err(PngError::InvalidChunk(_)) => {}
        other => panic!("expected a chunk decoding failure, got {:?}", other),
    }
}

#[test]
fn test_parse_rejects_corrupted_chunk() {
    let png = testing_png();
    let mut bytes = png.as_bytes();
    // Corrupt one data byte of the first chunk (signature 8 + header 8).
    bytes[16] ^= 0x01;
    match Png::parse(bytes.as_ref()) {
        Err(PngError::InvalidChunk(_)) => {}
        other => panic!("expected a chunk decoding failure, got {:?}", other),
    }
}

#[test]
fn test_chunk_by_type_finds_first() {
    let mut png = testing_png();
    png.append_chunk(message_chunk("miDl", "second of its type"));
    let found = png.chunk_by_type("miDl").unwrap();
    assert_eq!(found.data_as_string().unwrap(), "I am another chunk");
}

#[test]
fn test_chunk_by_type_not_found() {
    let png = testing_png();
    assert_eq!(png.chunk_by_type("noPe").unwrap_err(), PngError::ChunkNotFound);
}

#[test]
fn test_remove_chunk_keeps_second_match() {
    let mut png = Png::new();
    png.append_chunk(message_chunk("ruSt", "first"));
    png.append_chunk(message_chunk("ruSt", "second"));
    png.remove_chunk("ruSt").unwrap();
    assert_eq!(png.chunks().len(), 1);
    assert_eq!(png.chunks()[0].data_as_string().unwrap(), "second");
    // The remaining record still matches the type and can be found again.
    assert_eq!(
        png.chunk_by_type("ruSt").unwrap().data_as_string().unwrap(),
        "second"
    );
}

#[test]
fn test_remove_chunk_not_found() {
    let mut png = testing_png();
    assert_eq!(png.remove_chunk("noPe").unwrap_err(), PngError::ChunkNotFound);
    assert_eq!(png.chunks().len(), 3);
}

#[test]
fn test_remove_then_not_found() {
    let mut png = testing_png();
    png.remove_chunk("miDl").unwrap();
    assert_eq!(png.chunks().len(), 2);
    assert_eq!(png.remove_chunk("miDl").unwrap_err(), PngError::ChunkNotFound);
}

#[test]
fn test_parse_stream_with_zero_length_chunk() {
    let mut png = Png::new();
    png.append_chunk(Chunk::new(ChunkType::from_str("emTy").unwrap(), Vec::new()));
    let bytes = png.as_bytes();
    assert_eq!(bytes.len(), 8 + 12);
    let parsed = Png::parse(bytes.as_ref()).unwrap();
    assert_eq!(parsed.chunks().len(), 1);
    assert_eq!(parsed.chunks()[0].length(), 0);
}
