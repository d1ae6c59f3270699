use hide_rs::api::error_codes;
use hide_rs::api::handlers::{error_code, extract_image_metadata, is_valid_image_id, ServerConfig};
use hide_rs::api::models::{default_jpeg_quality, default_output_format, EncodeOptions};
use hide_rs::{create_rgb_image, HideError};

#[test]
fn default_values() {
    assert_eq!(default_output_format(), "png");
    assert_eq!(default_jpeg_quality(), 90);
    let options = EncodeOptions::default();
    assert_eq!(options.output_format, "png");
    assert_eq!(options.jpeg_quality, 90);
}

#[test]
fn server_config_defaults() {
    let config = ServerConfig::default();
    assert_eq!(config.host, "127.0.0.1");
    assert_eq!(config.port, 8080);
    assert_eq!(config.upload_dir, "./tmp");
}

#[test]
fn metadata_of_an_image() {
    let image = create_rgb_image(10, 10);
    let metadata = extract_image_metadata(&image);
    assert_eq!(metadata.width, 10);
    assert_eq!(metadata.height, 10);
    assert_eq!(metadata.format, "png");
    assert_eq!(metadata.size_bytes, 0);
    assert_eq!(metadata.max_message_bytes, 29);
    assert_eq!(metadata.embedded_message_bytes, None);
}

#[test]
fn error_codes_of_codec_errors() {
    assert_eq!(error_code(&HideError::MessageTooLarge), error_codes::MESSAGE_TOO_LARGE);
    assert_eq!(error_code(&HideError::NoMessageFound), error_codes::NO_MESSAGE_FOUND);
    assert_eq!(
        error_code(&HideError::InvalidParameters("x".to_string())),
        error_codes::VALIDATION_ERROR
    );
    assert_eq!(error_code(&HideError::MatrixError("x".to_string())), error_codes::INTERNAL_ERROR);
    let io = std::io::Error::new(std::io::ErrorKind::Other, "disk");
    assert_eq!(error_code(&HideError::Io(io)), error_codes::INTERNAL_ERROR);
}

#[test]
fn image_ids() {
    assert!(is_valid_image_id("650e8400-e29b-41d4-a716-446655440001"));
    assert!(is_valid_image_id("ABCxyz09"));
    assert!(is_valid_image_id(""));
    assert!(!is_valid_image_id("../etc/passwd"));
    assert!(!is_valid_image_id("a b"));
    assert!(!is_valid_image_id("caf\u{e9}"));
}
