//! Hides byte messages in the least-significant bits of RGB images with a
//! 3x3 binary lower-triangular matrix code, and recovers them.
use vstd::prelude::*;

pub mod bitvector;
pub mod error;
pub mod utils;
pub mod bltm;
pub mod img;
pub mod encoder;
pub mod decoder;
pub mod raw_decoder;
pub mod laws;
pub mod api;

pub use bitvector::BitVector;
pub use error::HideError;
pub use img::{create_rgb_image, Rgb, StegoImage};
pub use api::handlers::VERSION;

verus! {

/// The result type of the library.
pub type Result<T> = std::result::Result<T, HideError>;

} // verus!
