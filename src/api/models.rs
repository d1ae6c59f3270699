//! Request options and image metadata of the REST service.
use vstd::prelude::*;

verus! {

/// The largest message, in bytes, that the service accepts.
pub const MAX_MESSAGE_LENGTH: usize = 1024 * 1024;

/// The largest uploaded image, in bytes, that the service accepts.
pub const MAX_IMAGE_SIZE: usize = 10 * 1024 * 1024;

/// The output format used where a request names none.
pub fn default_output_format() -> (r: String)
    ensures
        r@ == "png"@,
{
    "png".to_string()
}

/// The JPEG quality used where a request names none.
pub fn default_jpeg_quality() -> (r: u8)
    ensures
        r == 90,
{
    90
}

/// Options of an encoding request.
#[derive(Debug, Clone)]
pub struct EncodeOptions {
    /// Output image format (png, jpeg, ...).
    pub output_format: String,
    /// JPEG quality (0 to 100) where the output format is JPEG.
    pub jpeg_quality: u8,
}

impl Default for EncodeOptions {
    fn default() -> (r: Self)
        ensures
            r.output_format@ == "png"@,
            r.jpeg_quality == 90,
    {
        EncodeOptions { output_format: default_output_format(), jpeg_quality: default_jpeg_quality() }
    }
}

/// What the service reports about an image.
#[derive(Debug, Clone)]
pub struct ImageMetadata {
    /// Width in pixels.
    pub width: u32,
    /// Height in pixels.
    pub height: u32,
    /// File format (PNG, JPEG, ...).
    pub format: String,
    /// File size in bytes.
    pub size_bytes: usize,
    /// The largest message that the image can carry.
    pub max_message_bytes: usize,
    /// The size of the message that was embedded, where one was.
    pub embedded_message_bytes: Option<usize>,
}

} // verus!
