use bytes::Bytes;
use shiva::base64::{decode, encode, DecodeError};
use shiva::model::{ImageData, ImageDimension};

fn dimension(width: Option<&str>, height: Option<&str>) -> ImageDimension {
    ImageDimension {
        width: width.map(|w| w.to_string()),
        height: height.map(|h| h.to_string()),
    }
}

#[test]
fn encode_standard_vectors() {
    assert_eq!(encode(b""), "");
    assert_eq!(encode(b"f"), "Zg==");
    assert_eq!(encode(b"fo"), "Zm8=");
    assert_eq!(encode(b"foo"), "Zm9v");
    assert_eq!(encode(b"foob"), "Zm9vYg==");
    assert_eq!(encode(b"fooba"), "Zm9vYmE=");
    assert_eq!(encode(b"foobar"), "Zm9vYmFy");
}

#[test]
fn encode_uses_the_whole_alphabet() {
    assert_eq!(encode(&[0x00, 0x10, 0x83, 0x10, 0x51, 0x87]), "ABCDEFGH");
    assert_eq!(encode(&[0xfb, 0xff, 0xbf]), "+/+/");
    assert_eq!(encode(&[0xff, 0xff, 0xff]), "////");
    assert_eq!(encode(&[0x69, 0xb7, 0x1d, 0x79, 0xf8, 0x21]), "abcdefgh");
    assert_eq!(encode(&[0xd3, 0x5d, 0xb7, 0xe3, 0x9e, 0xbb, 0xf3, 0xdf, 0xbf]), "0123456789+/");
    assert_eq!(encode(&[0xd3, 0x5d, 0xb7, 0xe3, 0x9e, 0xbb, 0xf3, 0xdf]), "01234567898=");
}

#[test]
fn encode_has_no_line_breaks() {
    let data = vec![0x5au8; 1000];
    let text = encode(&data);
    assert_eq!(text.len(), 1336);
    assert!(text.chars().all(|c| c != '\n' && c != '\r'));
}

#[test]
fn decode_standard_vectors() {
    assert_eq!(decode(""), Ok(vec![]));
    assert_eq!(decode("Zg=="), Ok(b"f".to_vec()));
    assert_eq!(decode("Zm8="), Ok(b"fo".to_vec()));
    assert_eq!(decode("Zm9v"), Ok(b"foo".to_vec()));
    assert_eq!(decode("Zm9vYg=="), Ok(b"foob".to_vec()));
    assert_eq!(decode("Zm9vYmE="), Ok(b"fooba".to_vec()));
    assert_eq!(decode("Zm9vYmFy"), Ok(b"foobar".to_vec()));
    assert_eq!(decode("+/+/"), Ok(vec![0xfb, 0xff, 0xbf]));
}

#[test]
fn decode_refuses_a_length_that_is_no_multiple_of_four() {
    assert_eq!(decode("Z"), Err(DecodeError));
    assert_eq!(decode("Zg"), Err(DecodeError));
    assert_eq!(decode("Zg="), Err(DecodeError));
    assert_eq!(decode("Zm9vY"), Err(DecodeError));
}

#[test]
fn decode_refuses_foreign_characters() {
    assert_eq!(decode("Zm9*"), Err(DecodeError));
    assert_eq!(decode("Zm 9"), Err(DecodeError));
    assert_eq!(decode("Zm9v\n"), Err(DecodeError));
    assert_eq!(decode("Zm9\u{e9}"), Err(DecodeError));
    assert_eq!(decode("Zm-_"), Err(DecodeError));
}

#[test]
fn decode_refuses_padding_out_of_place() {
    assert_eq!(decode("=m9v"), Err(DecodeError));
    assert_eq!(decode("Z=9v"), Err(DecodeError));
    assert_eq!(decode("Zg=v"), Err(DecodeError));
    assert_eq!(decode("Zg==Zm9v"), Err(DecodeError));
    assert_eq!(decode("===="), Err(DecodeError));
    assert_eq!(decode("Z==="), Err(DecodeError));
}

#[test]
fn decode_refuses_fill_bits_that_are_not_zero() {
    assert_eq!(decode("Zh=="), Err(DecodeError));
    assert_eq!(decode("Zm9="), Err(DecodeError));
}

#[test]
fn round_trip_of_every_short_length() {
    let mut data: Vec<u8> = Vec::new();
    for n in 0..100u32 {
        assert_eq!(decode(&encode(&data)), Ok(data.clone()));
        data.push((n * 37 % 256) as u8);
    }
}

#[test]
fn round_trip_of_every_byte_value() {
    let data: Vec<u8> = (0..=255u8).collect();
    let text = encode(&data);
    assert_eq!(text.len(), 344);
    assert_eq!(decode(&text), Ok(data));
}

#[test]
fn image_from_base64_and_back() {
    let text = "iVBORw0KGgoAAAANSUhEUgAAAAEAAAABCAYAAAAfFcSJAAAADUlEQVR42mP8/5+hHgAHggJ/PchI7wAAAABJRU5ErkJggg==";
    let image = ImageData::from_base64(
        text,
        "Sample Image".to_string(),
        "A 1x1 transparent PNG".to_string(),
        "png".to_string(),
        "center".to_string(),
        dimension(Some("100px"), Some("100px")),
    )
    .unwrap();
    assert_eq!(image.title(), "Sample Image");
    assert_eq!(image.alt(), "A 1x1 transparent PNG");
    assert_eq!(image.image_type(), "png");
    assert_eq!(image.align(), "center");
    assert_eq!(image.size(), &dimension(Some("100px"), Some("100px")));
    assert_eq!(image.bytes().len(), 70);
    assert_eq!(&image.bytes()[..8], &[0x89, b'P', b'N', b'G', 0x0d, 0x0a, 0x1a, 0x0a]);
    assert_eq!(image.to_base64(), text);
}

#[test]
fn image_round_trip_keeps_the_bytes() {
    let data: Vec<u8> = (0..=255u8).rev().collect();
    let image = ImageData::new(
        Bytes::from(data.clone()),
        "Big Image 1".to_string(),
        "A large PNG image for testing".to_string(),
        "png".to_string(),
        "center".to_string(),
        dimension(Some("800px"), Some("600px")),
    );
    let text = image.to_base64();
    let restored = ImageData::from_base64(
        &text,
        "Restored Image".to_string(),
        "Image restored from Base64".to_string(),
        "png".to_string(),
        "center".to_string(),
        ImageDimension::default(),
    )
    .unwrap();
    assert_eq!(restored.bytes(), image.bytes());
    assert_eq!(restored.bytes().as_ref(), data.as_slice());
    assert_eq!(restored.title(), "Restored Image");
    assert_eq!(restored.size(), &dimension(None, None));
}

#[test]
fn image_from_base64_refuses_invalid_text() {
    let r = ImageData::from_base64(
        "not base64!",
        "t".to_string(),
        "a".to_string(),
        "png".to_string(),
        "center".to_string(),
        ImageDimension::default(),
    );
    assert_eq!(r, Err(DecodeError));
}

#[test]
fn image_clone_shares_the_bytes() {
    let image = ImageData::new(
        Bytes::from(vec![1u8, 2, 3]),
        "t".to_string(),
        "a".to_string(),
        "jpg".to_string(),
        "left".to_string(),
        dimension(Some("1"), None),
    );
    let copy = image.clone();
    assert_eq!(copy, image);
    assert_eq!(copy.bytes().as_ptr(), image.bytes().as_ptr());
    assert_eq!(copy.size().width.as_deref(), Some("1"));
    assert_eq!(copy.size().height, None);
}
