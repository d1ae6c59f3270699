//! Recovering a message: per-pixel extraction, the header checks, and the message bytes.
use vstd::prelude::*;
use vstd::arithmetic::div_mod::lemma_fundamental_div_mod;
use crate::bitvector::{BitVector, max_bits};
use crate::bltm::{BLTM3x3, mat_mul};
use crate::encoder::{cover_vector, HEADER_SIZE, MESSAGE_FORMAT_VERSION};
use crate::error::HideError;
use crate::img::{Pixel, StegoImage, pixel_index, rgb_pixel};
use crate::utils::{self, packed_bytes};
use crate::Result;

verus! {

/// The 3 message bits that pixel `p` carries: A times its cover vector.
pub open spec fn pixel_bits(p: Pixel) -> Seq<bool> {
    mat_mul(cover_vector(p))
}

/// The bits that the first `k` pixels carry, 3 per pixel, in row-major order.
pub open spec fn extracted_bits(pixels: Seq<Pixel>, k: nat) -> Seq<bool>
    decreases k,
{
    if k == 0 {
        Seq::empty()
    } else {
        extracted_bits(pixels, (k - 1) as nat) + pixel_bits(pixels[k - 1])
    }
}

/// The bits that all the pixels carry, 3 per pixel, in row-major order.
pub open spec fn image_bits(pixels: Seq<Pixel>) -> Seq<bool> {
    extracted_bits(pixels, pixels.len())
}

/// The 8 header bytes that the first 64 of `bits` spell.
pub open spec fn header_of(bits: Seq<bool>) -> Seq<u8> {
    packed_bytes(bits.subrange(0, 64))
}

/// The format version that the header in `bits` states.
pub open spec fn header_version(bits: Seq<bool>) -> u8 {
    header_of(bits)[0]
}

/// The message length that header bytes state: bytes 1 to 4, big-endian.
pub open spec fn header_length(h: Seq<u8>) -> nat {
    h[1] as nat * 0x100_0000 + h[2] as nat * 0x1_0000 + h[3] as nat * 0x100 + h[4] as nat
}

/// The message length that the header in `bits` states.
pub open spec fn declared_length(bits: Seq<bool>) -> nat {
    header_length(header_of(bits))
}

/// The message bytes that `bits` carry after the header, as many as the header states.
pub open spec fn message_of(bits: Seq<bool>) -> Seq<u8> {
    packed_bytes(bits.subrange(64, 64 + 8 * declared_length(bits) as int))
}

/// The bits of `pixels` can be read back into a message: enough for a header, a supported
/// format version, and enough for the length that it states.
pub open spec fn holds_message(bits: Seq<bool>) -> bool {
    &&& bits.len() >= 64
    &&& header_version(bits) == MESSAGE_FORMAT_VERSION
    &&& 64 + 8 * declared_length(bits) <= bits.len()
}

/// The bits of the first `k` pixels: 3 per pixel, and a prefix of those of any more pixels.
pub proof fn lemma_extracted_bits(pixels: Seq<Pixel>, k: nat, k2: nat)
    requires
        k <= k2,
    ensures
        extracted_bits(pixels, k).len() == 3 * k,
        extracted_bits(pixels, k2).len() == 3 * k2,
        extracted_bits(pixels, k2).take(3 * k as int) == extracted_bits(pixels, k),
    decreases k2,
{
    if k2 > 0 {
        lemma_extracted_bits(pixels, if k < k2 { k } else { (k2 - 1) as nat }, (k2 - 1) as nat);
        if k < k2 {
            assert(extracted_bits(pixels, k2).take(3 * k as int) =~= extracted_bits(
                pixels,
                (k2 - 1) as nat,
            ).take(3 * k as int));
        } else {
            assert(extracted_bits(pixels, k2).take(3 * k as int) =~= extracted_bits(pixels, k2));
        }
    }
}

/// The format version and the stated message length of the frame header at the start of
/// `data`; None where `data` is shorter than a header.
pub fn read_header(data: &[u8]) -> (r: Option<(u8, u32)>)
    ensures
        r is Some <==> data@.len() >= 8,
        r matches Some(h) ==> h.0 == data@[0] && h.1 == header_length(data@),
{
    if data.len() < HEADER_SIZE {
        return None;
    }
    let b1 = data[1];
    let b2 = data[2];
    let b3 = data[3];
    let b4 = data[4];
    let message_length: u32 = ((b1 as u32) << 24) | ((b2 as u32) << 16) | ((b3 as u32) << 8) | (
    b4 as u32);
    assert(((b1 as u32) << 24u32) | ((b2 as u32) << 16u32) | ((b3 as u32) << 8u32) | (b4 as u32)
        == (b1 as u32) * 0x100_0000u32 + (b2 as u32) * 0x1_0000u32 + (b3 as u32) * 0x100u32 + (
    b4 as u32)) by (bit_vector);
    Some((data[0], message_length))
}

/// Recovers messages from images.
pub struct Decoder {
    bltm: BLTM3x3,
}

impl Default for Decoder {
    fn default() -> (r: Self) {
        Decoder::new()
    }
}

/// Creates a decoder.
pub fn create_decoder() -> (r: Decoder) {
    Decoder::new()
}

impl Decoder {
    /// Creates a decoder.
    pub fn new() -> (r: Decoder) {
        Decoder { bltm: BLTM3x3::new() }
    }

    /// The matrix of the code.
    pub fn bltm(&self) -> (r: &BLTM3x3) {
        &self.bltm
    }

    /// The matrix times the 3-bit vector `v`, over GF(2).
    pub fn matrix_multiply(&self, v: &BitVector) -> (r: BitVector)
        requires
            v@.len() == 3,
        ensures
            r@ == mat_mul(v@),
    {
        self.bltm.multiply(v)
    }

    /// The 3 message bits that the colour (r, g, b) carries: A times the vector of its least
    /// significant bits.
    pub fn decode_pixel(&self, r: u8, g: u8, b: u8) -> (res: BitVector)
        ensures
            res@ == pixel_bits((r, g, b)),
    {
        let mut stego_vector = BitVector::new();
        stego_vector.push(utils::get_lsb(r));
        stego_vector.push(utils::get_lsb(g));
        stego_vector.push(utils::get_lsb(b));
        assert(stego_vector@ =~= cover_vector((r, g, b)));
        self.matrix_multiply(&stego_vector)
    }

    /// Reads the frame header from the first 64 of `bits`: its format version, which must be
    /// the supported one, and the message length it states.
    pub fn extract_header(&self, bits: &BitVector) -> (r: Result<(u8, u32)>)
        ensures
            bits@.len() < 64 ==> (r matches Err(e) && e.is_no_message_found()),
            bits@.len() >= 64 && header_version(bits@) != MESSAGE_FORMAT_VERSION ==> (r matches Err(e)
                && e.is_invalid_parameters()),
            bits@.len() >= 64 && header_version(bits@) == MESSAGE_FORMAT_VERSION ==> (r matches Ok(h)
                && h == (MESSAGE_FORMAT_VERSION, declared_length(bits@) as u32)),
    {
        if bits.len() < HEADER_SIZE * 8 {
            return Err(HideError::NoMessageFound);
        }
        let header_bytes = utils::pack_bits(bits, 0, HEADER_SIZE * 8);
        let format_version = header_bytes[0];
        if format_version != MESSAGE_FORMAT_VERSION {
            return Err(HideError::InvalidParameters("unsupported message format version".to_string()));
        }
        let message_length = match read_header(header_bytes.as_slice()) {
            Some((_, l)) => l,
            None => return Err(HideError::NoMessageFound),
        };
        Ok((format_version, message_length))
    }

    /// Appends to `bits` the bits that pixels `from..to` carry, in row-major order.
    pub(crate) fn append_pixel_bits(
        &self,
        image: &StegoImage,
        bits: &mut BitVector,
        from: usize,
        to: usize,
    ) -> (r: Result<()>)
        requires
            image.wf(),
            from <= to <= image.pixels().len(),
            3 * image.pixels().len() <= max_bits(),
            old(bits)@ == extracted_bits(image.pixels(), from as nat),
        ensures
            r is Ok,
            final(bits)@ == extracted_bits(image.pixels(), to as nat),
    {
        let ghost pixels = image.pixels();
        let w: usize = image.width() as usize;
        proof {
            image.lemma_pixels();
        }
        let mut p: usize = from;
        while p < to
            invariant
                image.wf(),
                pixels == image.pixels(),
                pixels.len() == image.spec_width() * image.spec_height(),
                image.spec_width() <= u32::MAX,
                image.spec_height() <= u32::MAX,
                w == image.spec_width(),
                from <= p <= to <= pixels.len(),
                3 * pixels.len() <= max_bits(),
                bits@ == extracted_bits(pixels, p as nat),
            decreases to - p,
        {
            proof {
                lemma_extracted_bits(pixels, p as nat, p as nat);
                assert(w > 0) by (nonlinear_arith)
                    requires
                        p < pixels.len(),
                        pixels.len() == w * image.spec_height(),
                ;
                lemma_fundamental_div_mod(p as int, w as int);
            }
            let x: usize = p % w;
            let y: usize = p / w;
            proof {
                assert(y < image.spec_height()) by (nonlinear_arith)
                    requires
                        p == w * y + x,
                        x >= 0,
                        p < w * image.spec_height(),
                ;
                assert(pixel_index(w as nat, x as nat, y as nat) == p) by (nonlinear_arith)
                    requires
                        p == w * y + x,
                ;
            }
            assert(x < w);
            assert(w <= u32::MAX);
            assert(y < image.spec_height() <= u32::MAX);
            let pixel = match image.get_pixel_rgb(x as u32, y as u32) {
                Ok(c) => c,
                Err(e) => return Err(e),
            };
            let pixel_bits = self.decode_pixel(pixel.0[0], pixel.0[1], pixel.0[2]);
            assert(rgb_pixel(pixel) == (pixel.0[0], pixel.0[1], pixel.0[2]));
            bits.extend_from(&pixel_bits);
            p += 1;
            assert(pixels[p - 1] == rgb_pixel(pixel));
        }
        Ok(())
    }

    /// Recovers the message hidden in `stego_image`: reads 3 bits per pixel in row-major order,
    /// checks the header in the first 64 bits, and returns the bytes that follow it, as many as
    /// it states. Fails with `NoMessageFound` where the image holds fewer than 64 bits or fewer
    /// than the header asks for, and with `InvalidParameters` where the format version is not 1.
    pub fn decode(&self, stego_image: &StegoImage) -> (r: Result<Vec<u8>>)
        requires
            stego_image.wf(),
            3 * stego_image.spec_width() * stego_image.spec_height() <= max_bits(),
        ensures
            ({
                let bits = image_bits(stego_image.pixels());
                &&& bits.len() < 64 ==> (r matches Err(e) && e.is_no_message_found())
                &&& bits.len() >= 64 && header_version(bits) != MESSAGE_FORMAT_VERSION ==> (r matches Err(e)
                    && e.is_invalid_parameters())
                &&& bits.len() >= 64 && header_version(bits) == MESSAGE_FORMAT_VERSION && 64 + 8
                    * declared_length(bits) > bits.len() ==> (r matches Err(e)
                    && e.is_no_message_found())
                &&& holds_message(bits) ==> (r matches Ok(m) && m@ == message_of(bits))
            }),
    {
        let ghost pixels = stego_image.pixels();
        let n: usize = stego_image.pixel_count();
        proof {
            stego_image.lemma_pixels();
            assert(3 * stego_image.spec_width() * stego_image.spec_height() == 3 * (
            stego_image.spec_width() * stego_image.spec_height())) by (nonlinear_arith);
            lemma_extracted_bits(pixels, n as nat, n as nat);
        }
        let total_bits: usize = n * 3;
        if total_bits < HEADER_SIZE * 8 {
            return Err(HideError::NoMessageFound);
        }
        // The header's pixels first, so that a bad header fails before the rest is read; the
        // same checks run again on all the bits.
        let required_pixels: usize = (HEADER_SIZE * 8 + 2) / 3;
        let mut all_bits = BitVector::new();
        match self.append_pixel_bits(stego_image, &mut all_bits, 0, required_pixels) {
            Ok(()) => {},
            Err(e) => return Err(e),
        }
        proof {
            lemma_extracted_bits(pixels, required_pixels as nat, n as nat);
            assert(all_bits@.subrange(0, 64) =~= image_bits(pixels).subrange(0, 64));
        }
        let (_, message_length) = match self.extract_header(&all_bits) {
            Ok(h) => h,
            Err(e) => return Err(e),
        };
        let total_bits_needed: u64 = 64 + message_length as u64 * 8;
        let total_pixels_needed: u64 = (total_bits_needed + 2) / 3;
        if total_pixels_needed > n as u64 {
            return Err(HideError::NoMessageFound);
        }
        match self.append_pixel_bits(stego_image, &mut all_bits, required_pixels, n) {
            Ok(()) => {},
            Err(e) => return Err(e),
        }
        let (_, message_length) = match self.extract_header(&all_bits) {
            Ok(h) => h,
            Err(e) => return Err(e),
        };
        let message_bits: u64 = message_length as u64 * 8;
        let total_bits_needed: u64 = 64 + message_bits;
        if (all_bits.len() as u64) < total_bits_needed {
            return Err(HideError::NoMessageFound);
        }
        let message_start: usize = HEADER_SIZE * 8;
        let message_end: usize = message_start + message_bits as usize;
        Ok(utils::pack_bits(&all_bits, message_start, message_end))
    }
}

} // verus!
