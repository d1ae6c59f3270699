//! Errors of the library.
use vstd::prelude::*;

verus! {

#[verifier::external_type_specification]
#[verifier::external_body]
pub struct ExIoError(std::io::Error);

#[verifier::external_type_specification]
#[verifier::external_body]
pub struct ExImageError(image::ImageError);

/// What can go wrong when hiding or recovering a message.
#[derive(Debug)]
pub enum HideError {
    /// An input or output error of the storage around the codec.
    Io(std::io::Error),
    /// An error of the image container (decoding or encoding a file format).
    Image(image::ImageError),
    /// The message and its header do not fit in the image.
    MessageTooLarge,
    /// The image is too small for a header, or its header asks for more bits than it holds.
    NoMessageFound,
    /// An argument out of range, or a header of an unsupported format version.
    InvalidParameters(String),
    /// An error of the matrix code.
    MatrixError(String),
}

impl HideError {
    /// Whether this is `MessageTooLarge`.
    pub open spec fn is_message_too_large(&self) -> bool {
        self is MessageTooLarge
    }

    /// Whether this is `NoMessageFound`.
    pub open spec fn is_no_message_found(&self) -> bool {
        self is NoMessageFound
    }

    /// Whether this is `InvalidParameters`.
    pub open spec fn is_invalid_parameters(&self) -> bool {
        self is InvalidParameters
    }
}

} // verus!
