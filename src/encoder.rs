//! Hiding a message: the frame header, the per-pixel embedding, and the scan over the image.
use vstd::prelude::*;
use crate::bitvector::{BitVector, max_bits};
use crate::bltm::{BLTM3x3, correction, mat_mul, xor3};
use crate::error::HideError;
use crate::img::{Pixel, Rgb, StegoImage, pixel_index, rgb_pixel};
use crate::utils::{self, bytes_bits, chunk_count, lsb, padded_window, with_lsb};
use crate::Result;

verus! {

/// The format version that a frame header carries.
pub const MESSAGE_FORMAT_VERSION: u8 = 1;

/// The size of a frame header in bytes.
pub const HEADER_SIZE: usize = 8;

/// The frame header for a message of `len` bytes: the format version, `len` as 4 big-endian
/// bytes, and 3 reserved zero bytes.
pub open spec fn header_bytes(len: u32) -> Seq<u8> {
    seq![
        MESSAGE_FORMAT_VERSION,
        (len / 0x100_0000) as u8,
        (len / 0x1_0000 % 0x100) as u8,
        (len / 0x100 % 0x100) as u8,
        (len % 0x100) as u8,
        0u8,
        0u8,
        0u8,
    ]
}

/// The frame that carries `message`: its header followed by the message.
pub open spec fn frame_bytes(message: Seq<u8>) -> Seq<u8> {
    header_bytes(message.len() as u32) + message
}

/// The bits of the frame that carries `message`, in embedding order.
pub open spec fn frame_bits(message: Seq<u8>) -> Seq<bool> {
    bytes_bits(frame_bytes(message))
}

/// The cover vector of a pixel: the least significant bits of red, green and blue.
pub open spec fn cover_vector(p: Pixel) -> Seq<bool> {
    seq![lsb(p.0), lsb(p.1), lsb(p.2)]
}

/// `p` with the least significant bits of red, green and blue set to the bits of `v`.
pub open spec fn with_lsbs(p: Pixel, v: Seq<bool>) -> Pixel {
    (with_lsb(p.0, v[0]), with_lsb(p.1, v[1]), with_lsb(p.2, v[2]))
}

/// The stego vector that carries the 3 bits `m` on the cover vector `vc`:
/// vc XOR correction(A vc XOR m).
pub open spec fn stego_vector(vc: Seq<bool>, m: Seq<bool>) -> Seq<bool> {
    xor3(vc, correction(xor3(mat_mul(vc), m)))
}

/// The pixel `p` after it has taken the 3 message bits `m`.
pub open spec fn embed_pixel(p: Pixel, m: Seq<bool>) -> Pixel {
    with_lsbs(p, stego_vector(cover_vector(p), m))
}

/// The pixels after `bits` have been embedded 3 per pixel, from the first pixel on in row-major
/// order; the last group is padded with zero bits and the pixels past it are left alone.
pub open spec fn embed_bits(cover: Seq<Pixel>, bits: Seq<bool>) -> Seq<Pixel> {
    Seq::new(
        cover.len(),
        |p: int|
            if p < chunk_count(bits.len(), 3) {
                embed_pixel(cover[p], padded_window(bits, 3 * p, 3))
            } else {
                cover[p]
            },
    )
}

/// The largest message, in bytes, that an image of `width` x `height` pixels can carry beside
/// the header: floor(3 * width * height / 8) - 8, and 0 where that is negative.
pub open spec fn max_message_size_spec(width: nat, height: nat) -> nat {
    if (3 * width * height) / 8 <= 8 {
        0
    } else {
        ((3 * width * height) / 8 - 8) as nat
    }
}

/// Whether a frame of `len` message bytes fits in an image of `width` x `height` pixels.
pub open spec fn frame_fits(width: nat, height: nat, len: nat) -> bool {
    8 * (len + 8) <= 3 * width * height
}

/// Hides messages in images.
pub struct Encoder {
    bltm: BLTM3x3,
}

impl Default for Encoder {
    fn default() -> (r: Self) {
        Encoder::new()
    }
}

/// Creates an encoder.
pub fn create_encoder() -> (r: Encoder) {
    Encoder::new()
}

impl Encoder {
    /// Creates an encoder.
    pub fn new() -> (r: Encoder) {
        Encoder { bltm: BLTM3x3::new() }
    }

    /// The matrix of the code.
    pub fn bltm(&self) -> (r: &BLTM3x3) {
        &self.bltm
    }

    /// The matrix times the 3-bit vector `v`, over GF(2).
    pub fn matrix_multiply(&self, v: &BitVector) -> (r: BitVector)
        requires
            v@.len() == 3,
        ensures
            r@ == mat_mul(v@),
    {
        self.bltm.multiply(v)
    }

    /// Embeds the 3 bits `message_bits` in the colour (r, g, b): with the cover vector vc of the
    /// least significant bits, each least significant bit is replaced by the matching bit of
    /// vc XOR correction(A vc XOR m); the higher bits stay as they are.
    pub fn encode_pixel(&self, r: u8, g: u8, b: u8, message_bits: &BitVector) -> (res: (
        u8,
        u8,
        u8,
    ))
        requires
            message_bits@.len() == 3,
        ensures
            res == embed_pixel((r, g, b), message_bits@),
    {
        let ghost p: Pixel = (r, g, b);
        let mut cover_vector = BitVector::new();
        cover_vector.push(utils::get_lsb(r));
        cover_vector.push(utils::get_lsb(g));
        cover_vector.push(utils::get_lsb(b));
        assert(cover_vector@ =~= crate::encoder::cover_vector(p));
        let z = self.matrix_multiply(&cover_vector);
        let mut delta = BitVector::new();
        let mut i: usize = 0;
        while i < 3
            invariant
                i <= 3,
                z@.len() == 3,
                message_bits@.len() == 3,
                delta@ == xor3(z@, message_bits@).take(i as int),
            decreases 3 - i,
        {
            delta.push(z.get(i) ^ message_bits.get(i));
            i += 1;
            assert(delta@ =~= xor3(z@, message_bits@).take(i as int));
        }
        assert(delta@ =~= xor3(z@, message_bits@));
        let vn = self.bltm.lookup_vn(&delta);
        proof {
            crate::bltm::lemma_bits3_value(delta@);
        }
        let mut stego_vector = BitVector::new();
        let mut i: usize = 0;
        while i < 3
            invariant
                i <= 3,
                cover_vector@.len() == 3,
                vn@.len() == 3,
                stego_vector@ == xor3(cover_vector@, vn@).take(i as int),
            decreases 3 - i,
        {
            stego_vector.push(cover_vector.get(i) ^ vn.get(i));
            i += 1;
            assert(stego_vector@ =~= xor3(cover_vector@, vn@).take(i as int));
        }
        assert(stego_vector@ =~= crate::encoder::stego_vector(crate::encoder::cover_vector(p), message_bits@));
        let mut new_r = r;
        let mut new_g = g;
        let mut new_b = b;
        utils::set_lsb(&mut new_r, stego_vector.get(0));
        utils::set_lsb(&mut new_g, stego_vector.get(1));
        utils::set_lsb(&mut new_b, stego_vector.get(2));
        (new_r, new_g, new_b)
    }

    /// The frame header for a message of `message_length` bytes: the format version, the length
    /// as 4 big-endian bytes, and 3 reserved zero bytes.
    pub fn create_header(&self, message_length: u32) -> (r: Result<[u8; 8]>)
        ensures
            r matches Ok(h) && h@ == header_bytes(message_length),
    {
        let mut header = [0u8; 8];
        header[0] = MESSAGE_FORMAT_VERSION;
        header[1] = (message_length >> 24) as u8;
        header[2] = (message_length >> 16) as u8;
        header[3] = (message_length >> 8) as u8;
        header[4] = message_length as u8;
        proof {
            let l = message_length;
            assert(((l >> 24u32) as u8) as u32 == l / 0x100_0000u32) by (bit_vector);
            assert(((l >> 16u32) as u8) as u32 == l / 0x1_0000u32 % 0x100u32) by (bit_vector);
            assert(((l >> 8u32) as u8) as u32 == l / 0x100u32 % 0x100u32) by (bit_vector);
            assert((l as u8) as u32 == l % 0x100u32) by (bit_vector);
        }
        assert(header@ =~= header_bytes(message_length));
        Ok(header)
    }

    /// The largest message, in bytes, that `image` can carry beside the header:
    /// floor(3 * width * height / 8) - 8, or 0 where the image cannot hold a header.
    pub fn max_message_size(&self, image: &StegoImage) -> (r: usize)
        requires
            image.wf(),
        ensures
            r == max_message_size_spec(image.spec_width(), image.spec_height()),
    {
        let total_bytes = image.max_message_size();
        if total_bytes <= HEADER_SIZE {
            0
        } else {
            total_bytes - HEADER_SIZE
        }
    }

    /// Embeds the bits of `message` as they stand (no header) in `image`, 3 bits per pixel in
    /// row-major order from (0, 0); refused where they need more than 3 bits per pixel.
    pub fn encode_message(&self, mut image: StegoImage, message: &[u8]) -> (r: Result<StegoImage>)
        requires
            image.wf(),
            3 * image.spec_width() * image.spec_height() <= max_bits(),
        ensures
            r is Ok <==> 8 * message@.len() <= 3 * image.spec_width() * image.spec_height(),
            r matches Err(e) ==> e.is_message_too_large(),
            r matches Ok(img) ==> {
                &&& img.wf()
                &&& img.spec_width() == image.spec_width()
                &&& img.spec_height() == image.spec_height()
                &&& img.pixels() == embed_bits(image.pixels(), bytes_bits(message@))
            },
    {
        let ghost input = image;
        let n: usize = image.pixel_count();
        let max_bits: usize = n * 3;
        proof {
            image.lemma_pixels();
            assert(3 * image.spec_width() * image.spec_height() == 3 * (image.spec_width()
                * image.spec_height())) by (nonlinear_arith);
        }
        // 8 bits per byte: the bits fit exactly when the bytes fit in floor(3 * n / 8).
        if message.len() > max_bits / 8 {
            return Err(HideError::MessageTooLarge);
        }
        let message_bits = utils::bytes_to_bits(message);
        let chunks = match utils::split_bits(&message_bits, 3) {
            Ok(c) => c,
            Err(e) => return Err(e),
        };
        let ghost cover = image.pixels();
        let ghost bits = message_bits@;
        let ghost count = chunk_count(bits.len(), 3);
        let w = image.width();
        let h = image.height();
        let mut chunk_idx: usize = 0;
        let mut x: u32 = 0;
        let mut y: u32 = 0;
        assert(n > 0 ==> w > 0 && h > 0) by (nonlinear_arith)
            requires
                n == w * h,
        ;
        while chunk_idx < n && chunk_idx < chunks.len()
            invariant
                image.wf(),
                input.spec_width() == w,
                input.spec_height() == h,
                input.pixels() == cover,
                8 * message@.len() <= 3 * n,
                3 * (w as nat) * (h as nat) == 3 * n,
                image.spec_width() == w,
                image.spec_height() == h,
                n == w * h,
                cover.len() == n,
                bits == bytes_bits(message@),
                count == chunks@.len(),
                count == chunk_count(bits.len(), 3),
                forall|c: int|
                    0 <= c < chunks@.len() ==> #[trigger] chunks@[c]@ == padded_window(
                        bits,
                        c * 3,
                        3,
                    ),
                chunk_idx <= n,
                chunk_idx <= count,
                chunk_idx == pixel_index(w as nat, x as nat, y as nat),
                chunk_idx < n ==> x < w && y < h,
                image.pixels() == Seq::new(
                    n as nat,
                    |p: int|
                        if p < chunk_idx {
                            embed_pixel(cover[p], padded_window(bits, 3 * p, 3))
                        } else {
                            cover[p]
                        },
                ),
            decreases n - chunk_idx,
        {
            let pixel = match image.get_pixel_rgb(x, y) {
                Ok(c) => c,
                Err(e) => return Err(e),
            };
            let (new_r, new_g, new_b) = self.encode_pixel(
                pixel.0[0],
                pixel.0[1],
                pixel.0[2],
                &chunks[chunk_idx],
            );
            let ghost before = image.pixels();
            match image.set_pixel_rgb(x, y, Rgb([new_r, new_g, new_b])) {
                Ok(()) => {},
                Err(e) => return Err(e),
            }
            assert(rgb_pixel(Rgb([new_r, new_g, new_b])) == (new_r, new_g, new_b));
            chunk_idx += 1;
            if x + 1 == w {
                assert((y + 1) * w == y * w + w) by (nonlinear_arith);
                x = 0;
                y += 1;
            } else {
                x += 1;
            }
            proof {
                if chunk_idx < n {
                    assert(y < h) by (nonlinear_arith)
                        requires
                            chunk_idx == y * w + x,
                            chunk_idx < n,
                            n == w * h,
                    ;
                }
            }
            assert(image.pixels() =~= Seq::new(
                n as nat,
                |p: int|
                    if p < chunk_idx {
                        embed_pixel(cover[p], padded_window(bits, 3 * p, 3))
                    } else {
                        cover[p]
                    },
            ));
        }
        assert(image.pixels() =~= embed_bits(cover, bits));
        Ok(image)
    }

    /// Hides `message` in `cover_image`: the 8-byte header (version 1, the length big-endian,
    /// 3 zero bytes) and the message are embedded 3 bits per pixel in row-major order from
    /// (0, 0). Refused with `MessageTooLarge` where header and message need more than 3 bits
    /// per pixel, before any pixel is written.
    pub fn encode(&self, cover_image: StegoImage, message: &[u8]) -> (r: Result<StegoImage>)
        requires
            cover_image.wf(),
            message@.len() <= u32::MAX,
            3 * cover_image.spec_width() * cover_image.spec_height() <= max_bits(),
        ensures
            r is Ok <==> frame_fits(
                cover_image.spec_width(),
                cover_image.spec_height(),
                message@.len(),
            ),
            r matches Err(e) ==> e.is_message_too_large(),
            r matches Ok(img) ==> {
                &&& img.wf()
                &&& img.spec_width() == cover_image.spec_width()
                &&& img.spec_height() == cover_image.spec_height()
                &&& img.pixels() == embed_bits(cover_image.pixels(), frame_bits(message@))
            },
    {
        let max_message_size = self.max_message_size(&cover_image);
        if message.len() > max_message_size {
            return Err(HideError::MessageTooLarge);
        }
        let header = match self.create_header(message.len() as u32) {
            Ok(h) => h,
            Err(e) => return Err(e),
        };
        let mut full_message: Vec<u8> = Vec::new();
        full_message.extend_from_slice(&header);
        full_message.extend_from_slice(message);
        assert(full_message@ =~= frame_bytes(message@));
        self.encode_message(cover_image, &full_message)
    }
}

} // verus!
