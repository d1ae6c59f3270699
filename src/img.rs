//! RGB images with 8 bits per channel, as the codec reads and writes them.
use vstd::prelude::*;
use crate::error::HideError;
use crate::utils::{lsb, with_lsb};
use crate::Result;
use vstd::arithmetic::mul::lemma_mul_upper_bound;

verus! {

/// An RGB colour, 8 bits per channel: red, green, blue.
#[derive(Debug, Clone, Copy, PartialEq, Eq)]
pub struct Rgb(pub [u8; 3]);

/// A pixel as the proofs see it: red, green, blue.
pub type Pixel = (u8, u8, u8);

/// The pixel that an `Rgb` holds.
pub open spec fn rgb_pixel(c: Rgb) -> Pixel {
    (c.0[0], c.0[1], c.0[2])
}

/// Channel `c` (0 red, 1 green, 2 blue) of a pixel.
pub open spec fn channel_of(p: Pixel, c: int) -> u8 {
    if c == 0 {
        p.0
    } else if c == 1 {
        p.1
    } else {
        p.2
    }
}

/// `p` with the least significant bit of channel `c` set to `bit`.
pub open spec fn with_channel_lsb(p: Pixel, c: int, bit: bool) -> Pixel {
    if c == 0 {
        (with_lsb(p.0, bit), p.1, p.2)
    } else if c == 1 {
        (p.0, with_lsb(p.1, bit), p.2)
    } else {
        (p.0, p.1, with_lsb(p.2, bit))
    }
}

/// The row-major position of pixel (x, y) in an image `width` pixels wide.
pub open spec fn pixel_index(width: nat, x: nat, y: nat) -> nat {
    y * width + x
}

/// An RGB image held as rows of pixels, top row first, 3 bytes per pixel.
#[derive(Debug)]
pub struct StegoImage {
    width: u32,
    height: u32,
    data: Vec<u8>,
    modified: bool,
}

/// Creates an image of the given size with every pixel black.
pub fn create_rgb_image(width: u32, height: u32) -> (r: StegoImage)
    requires
        3 * width * height <= usize::MAX,
    ensures
        r.wf(),
        r.spec_width() == width,
        r.spec_height() == height,
        r.pixels() == Seq::new((width * height) as nat, |p: int| (0u8, 0u8, 0u8)),
        !r.spec_modified(),
{
    StegoImage::new_rgb(width, height)
}

impl StegoImage {
    /// The image's invariant: 3 bytes for each of its pixels.
    pub closed spec fn wf(&self) -> bool {
        self.data@.len() == 3 * (self.width * self.height)
    }

    /// The width in pixels.
    pub closed spec fn spec_width(&self) -> nat {
        self.width as nat
    }

    /// The height in pixels.
    pub closed spec fn spec_height(&self) -> nat {
        self.height as nat
    }

    /// Whether a pixel has been written since the image was made.
    pub closed spec fn spec_modified(&self) -> bool {
        self.modified
    }

    /// The pixels, row by row, top row first and left to right within a row.
    pub closed spec fn pixels(&self) -> Seq<Pixel> {
        Seq::new(
            (self.width * self.height) as nat,
            |p: int| (self.data@[3 * p], self.data@[3 * p + 1], self.data@[3 * p + 2]),
        )
    }

    /// The raw bytes, 3 per pixel in the order of `pixels`.
    pub closed spec fn spec_data(&self) -> Seq<u8> {
        self.data@
    }

    /// What an image's pixels and bytes have to do with each other.
    pub proof fn lemma_pixels(&self)
        requires
            self.wf(),
        ensures
            self.spec_width() <= u32::MAX,
            self.spec_height() <= u32::MAX,
            self.pixels().len() == self.spec_width() * self.spec_height(),
            self.spec_data().len() == 3 * self.pixels().len(),
            forall|p: int|
                0 <= p < self.pixels().len() ==> #[trigger] self.pixels()[p] == (
                    self.spec_data()[3 * p],
                    self.spec_data()[3 * p + 1],
                    self.spec_data()[3 * p + 2],
                ),
    {
    }

    /// Creates an image of the given size with every pixel black.
    pub fn new_rgb(width: u32, height: u32) -> (r: StegoImage)
        requires
            3 * width * height <= usize::MAX,
        ensures
            r.wf(),
            r.spec_width() == width,
            r.spec_height() == height,
            r.pixels() == Seq::new((width * height) as nat, |p: int| (0u8, 0u8, 0u8)),
            !r.spec_modified(),
    {
        assert(3 * width * height == 3 * (width * height)) by (nonlinear_arith);
        let wh: usize = width as usize * height as usize;
        let n: usize = 3 * wh;
        let data: Vec<u8> = vec![0u8; n];
        let r = StegoImage { width, height, data, modified: false };
        assert(r.pixels() =~= Seq::new((width * height) as nat, |p: int| (0u8, 0u8, 0u8)));
        r
    }

    /// An image of the given size from its raw bytes: rows top to bottom, pixels left to
    /// right, 3 bytes (red, green, blue) per pixel. None where the length does not match.
    pub fn from_rgb_data(width: u32, height: u32, data: Vec<u8>) -> (r: Option<StegoImage>)
        ensures
            r is Some <==> data@.len() == 3 * (width * height),
            r matches Some(img) ==> {
                &&& img.wf()
                &&& img.spec_width() == width
                &&& img.spec_height() == height
                &&& img.spec_data() == data@
                &&& !img.spec_modified()
            },
    {
        proof {
            lemma_mul_upper_bound(width as int, 0xFFFF_FFFF, height as int, 0xFFFF_FFFF);
        }
        let pixels: u64 = width as u64 * height as u64;
        if data.len() % 3 != 0 || (data.len() / 3) as u64 != pixels {
            return None;
        }
        Some(StegoImage { width, height, data, modified: false })
    }

    /// The raw bytes: rows top to bottom, pixels left to right, 3 bytes per pixel.
    pub fn as_rgb_data(&self) -> (r: &[u8])
        ensures
            r@ == self.spec_data(),
    {
        self.data.as_slice()
    }

    /// The width in pixels.
    pub fn width(&self) -> (r: u32)
        ensures
            r == self.spec_width(),
    {
        self.width
    }

    /// The height in pixels.
    pub fn height(&self) -> (r: u32)
        ensures
            r == self.spec_height(),
    {
        self.height
    }

    /// The size in pixels: (width, height).
    pub fn dimensions(&self) -> (r: (u32, u32))
        ensures
            r == (self.spec_width() as u32, self.spec_height() as u32),
    {
        (self.width, self.height)
    }

    /// The number of pixels.
    pub fn pixel_count(&self) -> (r: usize)
        requires
            self.wf(),
        ensures
            r == self.pixels().len(),
            3 * r <= usize::MAX,
    {
        self.data.len() / 3
    }

    proof fn lemma_index_in_bounds(&self, x: u32, y: u32)
        requires
            self.wf(),
            x < self.width,
            y < self.height,
        ensures
            pixel_index(self.width as nat, x as nat, y as nat) < self.width * self.height,
            3 * pixel_index(self.width as nat, x as nat, y as nat) + 2 < self.data@.len(),
            (y as int) * (self.width as int) + (x as int) == pixel_index(
                self.width as nat,
                x as nat,
                y as nat,
            ),
            3 * ((y as int) * (self.width as int) + (x as int)) + 2 < self.data@.len(),
    {
        assert(y * self.width + x < self.width * self.height) by (nonlinear_arith)
            requires
                x < self.width,
                y < self.height,
        ;
    }

    /// The colour of pixel (x, y); coordinates outside the image are refused.
    pub fn get_pixel_rgb(&self, x: u32, y: u32) -> (r: Result<Rgb>)
        requires
            self.wf(),
        ensures
            r is Ok <==> (x < self.spec_width() && y < self.spec_height()),
            r matches Ok(c) ==> rgb_pixel(c) == self.pixels()[pixel_index(
                self.spec_width(),
                x as nat,
                y as nat,
            ) as int],
            r matches Err(e) ==> e.is_invalid_parameters(),
    {
        if x >= self.width || y >= self.height {
            return Err(HideError::InvalidParameters("coordinates out of image bounds".to_string()));
        }
        proof {
            self.lemma_index_in_bounds(x, y);
        }
        let len: usize = self.data.len();
        assert(3 * ((y as int) * (self.width as int) + (x as int)) + 2 < len);
        let i: usize = 3 * (y as usize * self.width as usize + x as usize);
        Ok(Rgb([self.data[i], self.data[i + 1], self.data[i + 2]]))
    }

    /// Sets the colour of pixel (x, y); coordinates outside the image are refused and leave it
    /// unchanged.
    pub fn set_pixel_rgb(&mut self, x: u32, y: u32, pixel: Rgb) -> (r: Result<()>)
        requires
            old(self).wf(),
        ensures
            final(self).wf(),
            final(self).spec_width() == old(self).spec_width(),
            final(self).spec_height() == old(self).spec_height(),
            r is Ok <==> (x < old(self).spec_width() && y < old(self).spec_height()),
            r is Ok ==> final(self).pixels() == old(self).pixels().update(
                pixel_index(old(self).spec_width(), x as nat, y as nat) as int,
                rgb_pixel(pixel),
            ),
            r is Ok ==> final(self).spec_modified(),
            r is Err ==> *final(self) == *old(self),
            r matches Err(e) ==> e.is_invalid_parameters(),
    {
        if x >= self.width || y >= self.height {
            return Err(HideError::InvalidParameters("coordinates out of image bounds".to_string()));
        }
        proof {
            self.lemma_index_in_bounds(x, y);
        }
        let ghost before = self.pixels();
        let ghost p = pixel_index(self.width as nat, x as nat, y as nat) as int;
        let len: usize = self.data.len();
        assert(3 * ((y as int) * (self.width as int) + (x as int)) + 2 < len);
        let i: usize = 3 * (y as usize * self.width as usize + x as usize);
        self.data.set(i, pixel.0[0]);
        self.data.set(i + 1, pixel.0[1]);
        self.data.set(i + 2, pixel.0[2]);
        self.modified = true;
        assert(self.pixels() =~= before.update(p, rgb_pixel(pixel)));
        Ok(())
    }

    /// Sets the least significant bit of channel `channel` (0 red, 1 green, 2 blue) of pixel
    /// (x, y) to `bit`; a channel past 2 or coordinates outside the image are refused.
    pub fn set_lsb(&mut self, x: u32, y: u32, channel: usize, bit: bool) -> (r: Result<()>)
        requires
            old(self).wf(),
        ensures
            final(self).wf(),
            final(self).spec_width() == old(self).spec_width(),
            final(self).spec_height() == old(self).spec_height(),
            r is Ok <==> (channel <= 2 && x < old(self).spec_width() && y < old(self).spec_height()),
            r is Ok ==> final(self).pixels() == old(self).pixels().update(
                pixel_index(old(self).spec_width(), x as nat, y as nat) as int,
                with_channel_lsb(
                    old(self).pixels()[pixel_index(old(self).spec_width(), x as nat, y as nat) as int],
                    channel as int,
                    bit,
                ),
            ),
            r is Err ==> *final(self) == *old(self),
            r matches Err(e) ==> e.is_invalid_parameters(),
    {
        if channel > 2 {
            return Err(HideError::InvalidParameters("color channel must be 0, 1 or 2".to_string()));
        }
        let mut pixel = match self.get_pixel_rgb(x, y) {
            Ok(c) => c,
            Err(e) => return Err(e),
        };
        let mut value = pixel.0[channel];
        crate::utils::set_lsb(&mut value, bit);
        pixel.0[channel] = value;
        self.set_pixel_rgb(x, y, pixel)
    }

    /// The least significant bit of channel `channel` (0 red, 1 green, 2 blue) of pixel (x, y);
    /// a channel past 2 or coordinates outside the image are refused.
    pub fn get_lsb(&self, x: u32, y: u32, channel: usize) -> (r: Result<bool>)
        requires
            self.wf(),
        ensures
            r is Ok <==> (channel <= 2 && x < self.spec_width() && y < self.spec_height()),
            r matches Ok(b) ==> b == lsb(
                channel_of(
                    self.pixels()[pixel_index(self.spec_width(), x as nat, y as nat) as int],
                    channel as int,
                ),
            ),
            r matches Err(e) ==> e.is_invalid_parameters(),
    {
        if channel > 2 {
            return Err(HideError::InvalidParameters("color channel must be 0, 1 or 2".to_string()));
        }
        let pixel = match self.get_pixel_rgb(x, y) {
            Ok(c) => c,
            Err(e) => return Err(e),
        };
        Ok(crate::utils::get_lsb(pixel.0[channel]))
    }

    /// Whether a pixel has been written since the image was made.
    pub fn is_modified(&self) -> (r: bool)
        ensures
            r == self.spec_modified(),
    {
        self.modified
    }

    /// How many whole bytes the image can carry at 3 bits per pixel: floor(3 * w * h / 8).
    pub fn max_message_size(&self) -> (r: usize)
        requires
            self.wf(),
        ensures
            r == (3 * self.spec_width() * self.spec_height()) / 8,
    {
        assert(3 * self.width * self.height == 3 * (self.width * self.height)) by (nonlinear_arith);
        self.data.len() / 8
    }
}

impl Clone for StegoImage {
    fn clone(&self) -> (r: Self)
        ensures
            r.wf() == self.wf(),
            r.spec_width() == self.spec_width(),
            r.spec_height() == self.spec_height(),
            r.spec_data() == self.spec_data(),
            r.pixels() == self.pixels(),
            r.spec_modified() == self.spec_modified(),
    {
        let r = StegoImage {
            width: self.width,
            height: self.height,
            data: self.data.clone(),
            modified: self.modified,
        };
        assert(r.data@ =~= self.data@);
        r
    }
}

} // verus!
