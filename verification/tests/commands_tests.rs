use pngme::args::{Decode, Encode, Remove};
use pngme::commands::{decode, encode, remove};
use pngme::crc::checksum_ieee;
use pngme::PngError;

fn minimal_png_bytes() -> Vec<u8> {
    vec![
        137, 80, 78, 71, 13, 10, 26, 10, 0, 0, 0, 0, 73, 69, 78, 68, 0xAE, 0x42, 0x60, 0x82,
    ]
}

fn encode_args(chunktype: &str, message: &str) -> Encode {
    Encode {
        path: String::from("image.png"),
        chunktype: String::from(chunktype),
        message: String::from(message),
        output: None,
    }
}

#[test]
fn test_encode_then_decode() {
    let input = minimal_png_bytes();
    let encoded = encode(input.as_ref(), &encode_args("RuSt", "a quiet word")).unwrap();
    let args = Decode {
        path: String::from("image.png"),
        chunktype: String::from("RuSt"),
    };
    let found = decode(encoded.as_ref(), &args).unwrap();
    assert_eq!(found, Some(String::from("a quiet word")));
}

#[test]
fn test_decode_missing_type() {
    let input = minimal_png_bytes();
    let args = Decode {
        path: String::from("image.png"),
        chunktype: String::from("RuSt"),
    };
    let found = decode(input.as_ref(), &args).unwrap();
    assert_eq!(found, None);
}

#[test]
fn test_encode_rejects_bad_type_character() {
    let input = minimal_png_bytes();
    let result = encode(input.as_ref(), &encode_args("Ru1t", "msg"));
    assert_eq!(result.unwrap_err(), PngError::InvalidCharacter);
}

#[test]
fn test_encode_rejects_bad_type_length() {
    let input = minimal_png_bytes();
    let result = encode(input.as_ref(), &encode_args("Rusty", "msg"));
    assert_eq!(result.unwrap_err(), PngError::InvalidFormat);
}

#[test]
fn test_encode_rejects_bad_signature() {
    let input: Vec<u8> = vec![0, 0, 0, 0, 0, 0, 0, 0];
    let result = encode(input.as_ref(), &encode_args("RuSt", "msg"));
    assert_eq!(result.unwrap_err(), PngError::BadSignature);
}

#[test]
fn test_remove_round_trip() {
    let input = minimal_png_bytes();
    let encoded = encode(input.as_ref(), &encode_args("RuSt", "a quiet word")).unwrap();
    let args = Remove {
        path: String::from("image.png"),
        chunktype: String::from("RuSt"),
    };
    let (stripped, text) = remove(encoded.as_ref(), &args).unwrap();
    assert_eq!(text, String::from("a quiet word"));
    assert_eq!(stripped, input);
}

#[test]
fn test_remove_missing_type() {
    let input = minimal_png_bytes();
    let args = Remove {
        path: String::from("image.png"),
        chunktype: String::from("RuSt"),
    };
    let result = remove(input.as_ref(), &args);
    assert_eq!(result.unwrap_err(), PngError::ChunkNotFound);
}

#[test]
fn test_crc_check_values() {
    assert_eq!(checksum_ieee("123456789".as_bytes()), 0xCBF43926);
    assert_eq!(checksum_ieee("".as_bytes()), 0);
    assert_eq!(checksum_ieee("IEND".as_bytes()), 0xAE426082);
}
