//! Laws of the codec, stated over the models that the contracts of `Encoder::encode`,
//! `Encoder::max_message_size` and `Decoder::decode` use.
use vstd::prelude::*;
use vstd::arithmetic::div_mod::lemma_fundamental_div_mod;
use crate::bltm::lemma_matrix_inverse;
use crate::decoder::{
    declared_length, extracted_bits, header_length, header_of, header_version, holds_message,
    image_bits, lemma_extracted_bits, message_of, pixel_bits,
};
use crate::encoder::{
    cover_vector, embed_bits, embed_pixel, frame_bits, frame_bytes,
    frame_fits, header_bytes, max_message_size_spec, stego_vector, with_lsbs,
};
use crate::img::{Pixel, channel_of};
use crate::utils::{
    bytes_bits, chunk_count, lemma_bytes_bits_index, lemma_bytes_bits_len, lemma_pack_bytes_bits, lsb,
    packed_bytes, padded_window, with_lsb,
};

verus! {

proof fn lemma_with_lsb(b: u8, x: bool)
    ensures
        lsb(with_lsb(b, x)) == x,
        with_lsb(b, x) / 2 == b / 2,
{
}

/// A pixel that took 3 message bits gives them back.
proof fn lemma_embed_pixel_bits(p: Pixel, m: Seq<bool>)
    requires
        m.len() == 3,
    ensures
        pixel_bits(embed_pixel(p, m)) == m,
{
    let vc = cover_vector(p);
    let sv = stego_vector(vc, m);
    lemma_matrix_inverse(vc, m);
    lemma_with_lsb(p.0, sv[0]);
    lemma_with_lsb(p.1, sv[1]);
    lemma_with_lsb(p.2, sv[2]);
    assert(cover_vector(with_lsbs(p, sv)) =~= sv);
}

/// Bit `3 * p + j` of the bits of `pixels` is bit `j` of pixel `p`.
proof fn lemma_extracted_index(pixels: Seq<Pixel>, k: nat, p: int, j: int)
    requires
        0 <= p < k,
        0 <= j < 3,
    ensures
        extracted_bits(pixels, k).len() == 3 * k,
        extracted_bits(pixels, k)[3 * p + j] == pixel_bits(pixels[p])[j],
    decreases k,
{
    lemma_extracted_bits(pixels, k, k);
    lemma_extracted_bits(pixels, (k - 1) as nat, (k - 1) as nat);
    if p < k - 1 {
        lemma_extracted_index(pixels, (k - 1) as nat, p, j);
    }
}

/// The embedded bits come back: the bits of the pixels after embedding start with `bits`.
proof fn lemma_embedded_bits(cover: Seq<Pixel>, bits: Seq<bool>)
    requires
        bits.len() <= 3 * cover.len(),
    ensures
        image_bits(embed_bits(cover, bits)).len() == 3 * cover.len(),
        image_bits(embed_bits(cover, bits)).take(bits.len() as int) == bits,
{
    let stego = embed_bits(cover, bits);
    let all = image_bits(stego);
    lemma_extracted_bits(stego, stego.len(), stego.len());
    assert forall|k: int| 0 <= k < bits.len() implies all[k] == bits[k] by {
        lemma_fundamental_div_mod(k, 3);
        let p = k / 3;
        let j = k % 3;
        lemma_extracted_index(stego, stego.len(), p, j);
        assert(p < chunk_count(bits.len(), 3));
        lemma_embed_pixel_bits(cover[p], padded_window(bits, 3 * p, 3));
    }
    assert(all.take(bits.len() as int) =~= bits);
}

/// Bytes `a..b` of `bytes` are the packing of bits `8 * a..8 * b` of their bits.
proof fn lemma_pack_bytes_range(bytes: Seq<u8>, a: int, b: int)
    requires
        0 <= a <= b <= bytes.len(),
    ensures
        packed_bytes(bytes_bits(bytes).subrange(8 * a, 8 * b)) == bytes.subrange(a, b),
{
    let sub = bytes.subrange(a, b);
    lemma_bytes_bits_len(bytes);
    lemma_bytes_bits_len(sub);
    assert forall|k: int| 0 <= k < 8 * (b - a) implies bytes_bits(bytes).subrange(8 * a, 8 * b)[k]
        == bytes_bits(sub)[k] by {
        lemma_fundamental_div_mod(k, 8);
        let q = k / 8;
        let j = k % 8;
        lemma_bytes_bits_index(bytes, a + q, j);
        lemma_bytes_bits_index(sub, q, j);
        assert(8 * a + k == 8 * (a + q) + j);
    }
    assert(bytes_bits(bytes).subrange(8 * a, 8 * b) =~= bytes_bits(sub));
    lemma_pack_bytes_bits(sub);
}

proof fn lemma_header_length(len: u32)
    ensures
        header_length(header_bytes(len)) == len,
{
    assert((len / 0x100_0000u32) * 0x100_0000u32 + (len / 0x1_0000u32 % 0x100u32) * 0x1_0000u32 + (len
        / 0x100u32 % 0x100u32) * 0x100u32 + len % 0x100u32 == len) by (bit_vector);
}

/// Round trip: for every image of `width` x `height` pixels that can hold the header, and every
/// message no longer than `max_message_size_spec(width, height)`, the pixels that
/// `Encoder::encode` produces carry a message that `Decoder::decode` accepts, and it is the
/// original message.
pub proof fn lemma_round_trip(width: nat, height: nat, cover: Seq<Pixel>, message: Seq<u8>)
    requires
        cover.len() == width * height,
        (3 * width * height) / 8 >= 8,
        message.len() <= max_message_size_spec(width, height),
        message.len() <= u32::MAX,
    ensures
        frame_fits(width, height, message.len()),
        holds_message(image_bits(embed_bits(cover, frame_bits(message)))),
        declared_length(image_bits(embed_bits(cover, frame_bits(message)))) == message.len(),
        message_of(image_bits(embed_bits(cover, frame_bits(message)))) == message,
{
    assert(3 * width * height == 3 * (width * height)) by (nonlinear_arith);
    let frame = frame_bytes(message);
    let bits = frame_bits(message);
    lemma_bytes_bits_len(frame);
    assert(bits.len() == 8 * frame.len());
    let all = image_bits(embed_bits(cover, bits));
    lemma_embedded_bits(cover, bits);
    assert(all.subrange(0, 64) =~= bits.subrange(0, 64));
    lemma_pack_bytes_range(frame, 0, 8);
    assert(frame.subrange(0, 8) =~= header_bytes(message.len() as u32));
    assert(header_of(all) == header_bytes(message.len() as u32));
    lemma_header_length(message.len() as u32);
    let l = message.len() as int;
    assert(all.subrange(64, 64 + 8 * l) =~= bits.subrange(64, 64 + 8 * l));
    lemma_pack_bytes_range(frame, 8, 8 + l);
    assert(frame.subrange(8, 8 + l) =~= message);
}

/// Only least significant bits change: after embedding any bits, every channel of every pixel
/// keeps its bits above the lowest, and the pixels past the ones that took a group of 3 bits
/// are left as they were.
pub proof fn lemma_only_lsbs_change(cover: Seq<Pixel>, bits: Seq<bool>)
    ensures
        embed_bits(cover, bits).len() == cover.len(),
        forall|p: int, c: int|
            0 <= p < cover.len() && 0 <= c < 3 ==> #[trigger] channel_of(embed_bits(cover, bits)[p], c)
                / 2 == channel_of(cover[p], c) / 2,
        forall|p: int|
            chunk_count(bits.len(), 3) <= p < cover.len() ==> #[trigger] embed_bits(cover, bits)[p]
                == cover[p],
{
    assert forall|p: int, c: int| 0 <= p < cover.len() && 0 <= c < 3 implies #[trigger] channel_of(
        embed_bits(cover, bits)[p],
        c,
    ) / 2 == channel_of(cover[p], c) / 2 by {
        if p < chunk_count(bits.len(), 3) {
            let sv = stego_vector(cover_vector(cover[p]), padded_window(bits, 3 * p, 3));
            lemma_with_lsb(cover[p].0, sv[0]);
            lemma_with_lsb(cover[p].1, sv[1]);
            lemma_with_lsb(cover[p].2, sv[2]);
        }
    }
}

/// Capacity boundary: a message of `max_message_size_spec(width, height)` bytes fits with its
/// header wherever the image can hold the header at all, and one byte more never fits.
pub proof fn lemma_capacity_boundary(width: nat, height: nat)
    ensures
        (3 * width * height) / 8 >= 8 ==> frame_fits(
            width,
            height,
            max_message_size_spec(width, height),
        ),
        !frame_fits(width, height, max_message_size_spec(width, height) + 1),
{
}

/// The header lies in the first 22 pixels: the format version and length that an image states
/// depend on those pixels alone.
pub proof fn lemma_header_in_first_pixels(pixels: Seq<Pixel>)
    requires
        pixels.len() >= 22,
    ensures
        image_bits(pixels).len() >= 64,
        header_of(image_bits(pixels)) == packed_bytes(extracted_bits(pixels, 22).subrange(0, 64)),
        header_version(image_bits(pixels)) == packed_bytes(extracted_bits(pixels, 22).subrange(0, 64))[0],
{
    lemma_extracted_bits(pixels, 22, pixels.len());
    assert(image_bits(pixels).subrange(0, 64) =~= extracted_bits(pixels, 22).subrange(0, 64));
}

/// The empty message: on every image that can hold the header, the empty message fits, its
/// frame states length 0, and decoding gives the empty message back.
pub proof fn lemma_empty_message(width: nat, height: nat, cover: Seq<Pixel>)
    requires
        cover.len() == width * height,
        (3 * width * height) / 8 >= 8,
    ensures
        frame_fits(width, height, 0),
        holds_message(image_bits(embed_bits(cover, frame_bits(Seq::empty())))),
        declared_length(image_bits(embed_bits(cover, frame_bits(Seq::empty())))) == 0,
        message_of(image_bits(embed_bits(cover, frame_bits(Seq::empty())))) == Seq::<u8>::empty(),
{
    lemma_round_trip(width, height, cover, Seq::empty());
}

} // verus!
