//! Server configuration, shared state and image metadata of the REST service.
use vstd::prelude::*;
use vstd::string::StringSliceAdditionalSpecFns;
use crate::api::error_codes;
use crate::api::models::ImageMetadata;
use crate::error::HideError;
use crate::encoder::{create_encoder, max_message_size_spec};
use crate::img::StegoImage;

verus! {

/// The library's version.
pub const VERSION: &'static str = "0.1.0";

/// State shared by the service's request handlers.
#[derive(Debug, Clone)]
pub struct AppState {
    /// Server configuration.
    pub config: ServerConfig,
}

/// Server configuration.
#[derive(Debug, Clone)]
pub struct ServerConfig {
    /// Host address to bind to.
    pub host: String,
    /// Port to listen on.
    pub port: u16,
    /// Directory for uploaded and produced files.
    pub upload_dir: String,
}

impl Default for ServerConfig {
    fn default() -> (r: Self)
        ensures
            r.host@ == "127.0.0.1"@,
            r.port == 8080,
            r.upload_dir@ == "./tmp"@,
    {
        ServerConfig {
            host: "127.0.0.1".to_string(),
            port: 8080,
            upload_dir: "./tmp".to_string(),
        }
    }
}

/// The answer to a health check.
#[derive(Debug, Clone)]
pub struct HealthResponse {
    /// "ok" while the service runs.
    pub status: String,
    /// The library's version.
    pub version: String,
}

/// The metadata of an image as the service first reports it: its size, the PNG format it is
/// saved in, and the largest message it can carry; the file size and embedded message size are
/// filled in later.
pub fn extract_image_metadata(image: &StegoImage) -> (r: ImageMetadata)
    requires
        image.wf(),
    ensures
        r.width == image.spec_width(),
        r.height == image.spec_height(),
        r.format@ == "png"@,
        r.size_bytes == 0,
        r.max_message_bytes == max_message_size_spec(image.spec_width(), image.spec_height()),
        r.embedded_message_bytes is None,
{
    let encoder = create_encoder();
    let max_message_bytes = encoder.max_message_size(image);
    ImageMetadata {
        width: image.width(),
        height: image.height(),
        format: "png".to_string(),
        size_bytes: 0,
        max_message_bytes,
        embedded_message_bytes: None,
    }
}

/// The error code that the service reports for a codec error: `MessageTooLarge`,
/// `NoMessageFound`, `Image` and `InvalidParameters` have codes of their own, the rest are
/// internal errors.
pub fn error_code(err: &HideError) -> (r: &'static str)
    ensures
        r == (match err {
            HideError::MessageTooLarge => error_codes::MESSAGE_TOO_LARGE,
            HideError::NoMessageFound => error_codes::NO_MESSAGE_FOUND,
            HideError::Image(_) => error_codes::INVALID_IMAGE,
            HideError::InvalidParameters(_) => error_codes::VALIDATION_ERROR,
            _ => error_codes::INTERNAL_ERROR,
        }),
{
    match err {
        HideError::MessageTooLarge => error_codes::MESSAGE_TOO_LARGE,
        HideError::NoMessageFound => error_codes::NO_MESSAGE_FOUND,
        HideError::Image(_) => error_codes::INVALID_IMAGE,
        HideError::InvalidParameters(_) => error_codes::VALIDATION_ERROR,
        _ => error_codes::INTERNAL_ERROR,
    }
}

/// Whether `b` may stand in an image id: an ASCII letter, an ASCII digit, or `-`.
pub open spec fn is_id_byte(b: u8) -> bool {
    (0x30 <= b <= 0x39) || (0x41 <= b <= 0x5A) || (0x61 <= b <= 0x7A) || b == 0x2D
}

/// Whether `id` is a well-formed image id: made only of ASCII letters, ASCII digits and `-`.
pub fn is_valid_image_id(id: &str) -> (r: bool)
    ensures
        r == (forall|i: int| 0 <= i < id.spec_bytes().len() ==> is_id_byte(id.spec_bytes()[i])),
{
    let bytes = id.as_bytes();
    let mut i: usize = 0;
    while i < bytes.len()
        invariant
            i <= bytes@.len(),
            bytes@ == id.spec_bytes(),
            forall|k: int| 0 <= k < i ==> is_id_byte(bytes@[k]),
        decreases bytes@.len() - i,
    {
        let b = bytes[i];
        let ok = (0x30 <= b && b <= 0x39) || (0x41 <= b && b <= 0x5A) || (0x61 <= b && b <= 0x7A)
            || b == 0x2D;
        if !ok {
            return false;
        }
        i += 1;
    }
    true
}

} // verus!
