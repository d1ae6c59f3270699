//! Raw extraction: every bit that an image carries, packed into bytes, with no header check.
use vstd::prelude::*;
use crate::bitvector::{BitVector, max_bits};
use crate::decoder::{Decoder, extracted_bits, image_bits};
use crate::img::StegoImage;
use crate::utils::{self, packed_bytes};
use crate::Result;

verus! {

/// All the bits that `stego_image` carries, 3 per pixel in row-major order, packed into bytes
/// most significant bit first, without reading a header.
pub fn extract_raw_data(stego_image: &StegoImage) -> (r: Result<Vec<u8>>)
    requires
        stego_image.wf(),
        3 * stego_image.spec_width() * stego_image.spec_height() <= max_bits(),
    ensures
        r matches Ok(bytes) && bytes@ == packed_bytes(image_bits(stego_image.pixels())),
{
    let decoder = Decoder::new();
    let n: usize = stego_image.pixel_count();
    proof {
        stego_image.lemma_pixels();
        assert(3 * stego_image.spec_width() * stego_image.spec_height() == 3 * (
        stego_image.spec_width() * stego_image.spec_height())) by (nonlinear_arith);
    }
    let mut all_bits = BitVector::new();
    assert(all_bits@ =~= extracted_bits(stego_image.pixels(), 0));
    match decoder.append_pixel_bits(stego_image, &mut all_bits, 0, n) {
        Ok(()) => {},
        Err(e) => return Err(e),
    }
    Ok(utils::bits_to_bytes(&all_bits))
}

} // verus!
