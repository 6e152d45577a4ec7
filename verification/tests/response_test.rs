//! Tests of the response codecs: base64, data URLs, response formats
//! and image-format detection.

use generative_img_serving::{
    create_data_url, decode, detect_image_format, encode, get_format_from_data_url, is_valid,
    AppError, FileHandler, ResponseFormat, ResponseHandler,
};

#[test]
fn test_encode_decode() {
    let original = b"Hello, World!";
    let encoded = encode(original);
    let decoded = decode(&encoded).unwrap();
    assert_eq!(original.as_slice(), decoded.as_slice());
}

#[test]
fn test_data_url_decode() {
    let data_url = "data:image/png;base64,SGVsbG8sIFdvcmxkIQ==";
    let decoded = decode(data_url).unwrap();
    assert_eq!(b"Hello, World!", decoded.as_slice());
}

#[test]
fn test_get_format() {
    assert_eq!(get_format_from_data_url("data:image/png;base64,abc"), Some("png"));
    assert_eq!(get_format_from_data_url("data:image/jpeg;base64,abc"), Some("jpeg"));
    assert_eq!(get_format_from_data_url("not a data url"), None);
}

#[test]
fn test_base64_encode_decode() {
    let original = b"Hello, World!";
    let encoded = encode(original);
    let decoded = decode(&encoded).unwrap();
    assert_eq!(original.as_slice(), decoded.as_slice());
}

#[test]
fn test_base64_decode_data_url() {
    let data_url = "data:image/png;base64,SGVsbG8sIFdvcmxkIQ==";
    let decoded = decode(data_url).unwrap();
    assert_eq!(b"Hello, World!", decoded.as_slice());
}

#[test]
fn test_base64_is_valid() {
    assert!(is_valid("SGVsbG8sIFdvcmxkIQ=="));
    assert!(is_valid("data:image/png;base64,SGVsbG8sIFdvcmxkIQ=="));
    assert!(!is_valid("not valid base64!!!"));
}

#[test]
fn test_get_format_from_data_url() {
    assert_eq!(get_format_from_data_url("data:image/png;base64,abc"), Some("png"));
    assert_eq!(get_format_from_data_url("data:image/jpeg;base64,abc"), Some("jpeg"));
    assert_eq!(get_format_from_data_url("data:image/webp;base64,abc"), Some("webp"));
    assert_eq!(get_format_from_data_url("not a data url"), None);
}

#[test]
fn test_create_data_url() {
    let data = b"test data";
    let data_url = create_data_url(data, "png");
    assert!(data_url.starts_with("data:image/png;base64,"));
    let decoded = decode(&data_url).unwrap();
    assert_eq!(data.as_slice(), decoded.as_slice());
}

#[test]
fn test_response_format_from_str() {
    assert_eq!(ResponseFormat::from_str("b64_json"), ResponseFormat::Base64Json);
    assert_eq!(ResponseFormat::from_str("base64"), ResponseFormat::Base64Json);
    assert_eq!(ResponseFormat::from_str("url"), ResponseFormat::Url);
    assert_eq!(ResponseFormat::from_str("file"), ResponseFormat::File);
    assert_eq!(ResponseFormat::from_str("unknown"), ResponseFormat::Url);
}

#[test]
fn test_response_format_case_insensitive() {
    assert_eq!(ResponseFormat::from_str("B64_JSON"), ResponseFormat::Base64Json);
    assert_eq!(ResponseFormat::from_str("URL"), ResponseFormat::Url);
    assert_eq!(ResponseFormat::from_str("File"), ResponseFormat::File);
}

#[test]
fn test_detect_png() {
    let png_header = [0x89, 0x50, 0x4E, 0x47, 0x0D, 0x0A, 0x1A, 0x0A];
    assert_eq!(detect_image_format(&png_header), Some("png"));
}

#[test]
fn test_detect_jpeg() {
    let jpeg_header = [0xFF, 0xD8, 0xFF, 0xE0, 0x00, 0x10, 0x4A, 0x46];
    assert_eq!(detect_image_format(&jpeg_header), Some("jpg"));
}

#[test]
fn test_detect_other_formats() {
    let gif = b"GIF89a\x00\x00";
    assert_eq!(detect_image_format(gif), Some("gif"));
    let webp = b"RIFF\x00\x00\x00\x00WEBP";
    assert_eq!(detect_image_format(webp), Some("webp"));
    let bmp = b"BM\x00\x00\x00\x00\x00\x00";
    assert_eq!(detect_image_format(bmp), Some("bmp"));
    let short = b"BM";
    assert_eq!(detect_image_format(short), None);
    let unknown = b"12345678";
    assert_eq!(detect_image_format(unknown), None);
}

#[test]
fn test_encode_padding_cases() {
    assert_eq!(encode(b""), "");
    assert_eq!(encode(b"f"), "Zg==");
    assert_eq!(encode(b"fo"), "Zm8=");
    assert_eq!(encode(b"foo"), "Zm9v");
    assert_eq!(encode(b"foob"), "Zm9vYg==");
    assert_eq!(encode(b"fooba"), "Zm9vYmE=");
    assert_eq!(encode(b"foobar"), "Zm9vYmFy");
}

#[test]
fn test_decode_rejects_bad_padding() {
    assert!(matches!(decode("Zg="), Err(AppError::InvalidRequest(_))));
    assert!(matches!(decode("Zh=="), Err(AppError::InvalidRequest(_))));
    assert!(decode("  Zg==  ").is_ok());
    assert_eq!(decode("").unwrap(), Vec::<u8>::new());
}

#[test]
fn test_file_handler_paths() {
    let fh = FileHandler::new("./store".to_string());
    assert_eq!(fh.get_path("a.png"), "./store/a.png");
    let fh2 = FileHandler::new("./store/".to_string());
    assert_eq!(fh2.get_path("a.png"), "./store/a.png");
}

#[test]
fn test_response_handler_urls() {
    let rh = ResponseHandler::new("./store".to_string(), "http://host/images".to_string());
    assert_eq!(rh.generate_url("./store/x.png"), "http://host/images/x.png");
    assert_eq!(rh.generate_url("bare.png"), "http://host/images/bare.png");
}
