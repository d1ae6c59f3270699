//! Error codes of the REST service's error responses.
use vstd::prelude::*;

verus! {

/// An input was missing or malformed.
pub const VALIDATION_ERROR: &'static str = "validation_error";

/// An uploaded image was larger than allowed.
pub const IMAGE_TOO_LARGE: &'static str = "image_too_large";

/// A message did not fit, or was larger than allowed.
pub const MESSAGE_TOO_LARGE: &'static str = "message_too_large";

/// An uploaded file was not a readable image.
pub const INVALID_IMAGE: &'static str = "invalid_image";

/// No hidden message was found.
pub const NO_MESSAGE_FOUND: &'static str = "no_message_found";

/// Something failed on the server's side.
pub const INTERNAL_ERROR: &'static str = "internal_error";

/// The requested resource does not exist.
pub const NOT_FOUND: &'static str = "not_found";

} // verus!
