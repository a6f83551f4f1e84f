use pngme::chunk::Chunk;
use pngme::chunk_type::ChunkType;
use pngme::png::Png;
use pngme::PngError;

fn iend_bytes() -> Vec<u8> {
    vec![0, 0, 0, 0, 73, 69, 78, 68, 0xAE, 0x42, 0x60, 0x82]
}

fn minimal_png_bytes() -> Vec<u8> {
    let mut v: Vec<u8> = vec![137, 80, 78, 71, 13, 10, 26, 10];
    v.extend(iend_bytes());
    v
}

fn secret_chunk() -> Chunk {
    let chunk_type = ChunkType::from_str("RuSt").unwrap();
    Chunk::new(chunk_type, "hidden words".as_bytes().to_vec())
}

#[test]
fn test_png_parse_serialize_round_trip() {
    let bytes = minimal_png_bytes();
    let png = Png::parse(bytes.as_ref()).unwrap();
    assert_eq!(png.as_bytes(), bytes);
}

#[test]
fn test_png_parse_serialize_round_trip_two_chunks() {
    let mut bytes: Vec<u8> = vec![137, 80, 78, 71, 13, 10, 26, 10];
    bytes.extend(secret_chunk().as_bytes());
    bytes.extend(iend_bytes());
    let png = Png::parse(bytes.as_ref()).unwrap();
    assert_eq!(png.as_bytes(), bytes);
}

#[test]
fn test_png_serialize_after_append_reparses() {
    let bytes = minimal_png_bytes();
    let mut png = Png::parse(bytes.as_ref()).unwrap();
    png.append_chunk(secret_chunk());
    let out = png.as_bytes();
    let reparsed = Png::parse(out.as_ref()).unwrap();
    assert_eq!(reparsed.as_bytes(), out);
}

#[test]
fn test_append_then_chunk_by_type() {
    let bytes = minimal_png_bytes();
    let mut png = Png::parse(bytes.as_ref()).unwrap();
    png.append_chunk(secret_chunk());
    let found = png.chunk_by_type("RuSt").unwrap();
    assert_eq!(found.data_as_string().unwrap(), "hidden words".to_string());
}

#[test]
fn test_append_places_chunk_before_terminal_marker() {
    let bytes = minimal_png_bytes();
    let mut png = Png::parse(bytes.as_ref()).unwrap();
    png.append_chunk(secret_chunk());
    let mut expected: Vec<u8> = vec![137, 80, 78, 71, 13, 10, 26, 10];
    expected.extend(secret_chunk().as_bytes());
    expected.extend(iend_bytes());
    assert_eq!(png.as_bytes(), expected);
}

#[test]
fn test_remove_chunk_present() {
    let bytes = minimal_png_bytes();
    let mut png = Png::parse(bytes.as_ref()).unwrap();
    png.append_chunk(secret_chunk());
    let removed = png.remove_chunk("RuSt").unwrap();
    assert_eq!(removed.data_as_string().unwrap(), "hidden words".to_string());
    assert_eq!(png.as_bytes(), bytes);
}

#[test]
fn test_remove_chunk_absent_fails_and_leaves_sequence_unchanged() {
    let bytes = minimal_png_bytes();
    let mut png = Png::parse(bytes.as_ref()).unwrap();
    let before = png.as_bytes();
    let result = png.remove_chunk("RuSt");
    assert_eq!(result.unwrap_err(), PngError::ChunkNotFound);
    assert_eq!(png.as_bytes(), before);
}

#[test]
fn test_bad_signature_all_zero() {
    let bytes: Vec<u8> = vec![0, 0, 0, 0, 0, 0, 0, 0];
    let result = Png::parse(bytes.as_ref());
    assert!(matches!(result, Err(PngError::BadSignature)));
}

#[test]
fn test_bad_signature_short_buffer() {
    let bytes: Vec<u8> = vec![137, 80, 78];
    let result = Png::parse(bytes.as_ref());
    assert!(matches!(result, Err(PngError::BadSignature)));
}

#[test]
fn test_truncated_chunk_record() {
    let mut bytes: Vec<u8> = vec![137, 80, 78, 71, 13, 10, 26, 10];
    bytes.extend(vec![0, 0, 0, 5]);
    let result = Png::parse(bytes.as_ref());
    assert!(matches!(result, Err(PngError::TruncatedBuffer)));
}

#[test]
fn test_truncated_chunk_data() {
    let mut bytes: Vec<u8> = vec![137, 80, 78, 71, 13, 10, 26, 10];
    // a record that claims 10 data bytes but offers none
    bytes.extend(vec![0, 0, 0, 10, 73, 69, 78, 68, 0xAE, 0x42, 0x60, 0x82]);
    let result = Png::parse(bytes.as_ref());
    assert!(matches!(result, Err(PngError::TruncatedBuffer)));
}

#[test]
fn test_flipped_crc_byte_gives_checksum_mismatch() {
    let mut chunk_bytes = iend_bytes();
    let last = chunk_bytes.len() - 1;
    chunk_bytes[last] ^= 0x01;
    match Chunk::parse(chunk_bytes.as_ref()) {
        Err(PngError::ChecksumMismatch { expected, actual }) => {
            assert_eq!(expected, 0xAE426082);
            assert_eq!(actual, 0xAE426083);
        }
        _ => panic!("expected a checksum mismatch"),
    }
}

#[test]
fn test_container_rejects_chunk_with_flipped_crc() {
    let mut bytes = minimal_png_bytes();
    let last = bytes.len() - 1;
    bytes[last] ^= 0x01;
    let result = Png::parse(bytes.as_ref());
    assert!(matches!(result, Err(PngError::ChecksumMismatch { .. })));
}

#[test]
fn test_data_as_string_widens_non_ascii_bytes() {
    let chunk_type = ChunkType::from_str("RuSt").unwrap();
    let chunk = Chunk::new(chunk_type, vec![200, 65]);
    assert_eq!(chunk.data_as_string().unwrap(), String::from("\u{c8}A"));
}

#[test]
fn test_chunk_serialize_then_parse_round_trip() {
    let chunk = secret_chunk();
    let bytes = chunk.as_bytes();
    let reparsed = Chunk::parse(bytes.as_ref()).unwrap();
    assert_eq!(reparsed.length(), chunk.length());
    assert_eq!(reparsed.chunk_type().bytes(), chunk.chunk_type().bytes());
    assert_eq!(reparsed.data(), chunk.data());
    assert_eq!(reparsed.crc(), chunk.crc());
}

#[test]
fn test_chunk_parse_trusts_buffer_bounds_over_length_field() {
    // the data span comes from the buffer bounds, so a wrong length field
    // is carried through as long as the checksum holds
    let crc = pngme::crc::checksum_ieee("RuStAB".as_bytes());
    let mut bytes: Vec<u8> = vec![0, 0, 0, 0];
    bytes.extend("RuSt".as_bytes());
    bytes.extend("AB".as_bytes());
    bytes.extend(crc.to_be_bytes());
    let chunk = Chunk::parse(bytes.as_ref()).unwrap();
    assert_eq!(chunk.length(), 0);
    assert_eq!(chunk.data(), "AB".as_bytes());
}

#[test]
fn test_empty_data_chunk_round_trip() {
    let chunk_type = ChunkType::from_str("teXt").unwrap();
    let chunk = Chunk::new(chunk_type, Vec::new());
    assert_eq!(chunk.length(), 0);
    let bytes = chunk.as_bytes();
    let reparsed = Chunk::parse(bytes.as_ref()).unwrap();
    assert_eq!(reparsed.data_as_string().unwrap(), String::new());
}
