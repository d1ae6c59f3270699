use hide_rs::decoder::Decoder;
use hide_rs::encoder::Encoder;
use hide_rs::{create_rgb_image, BitVector, HideError, Rgb, StegoImage};

fn noisy_image(width: u32, height: u32, seed: u32) -> StegoImage {
    let mut image = create_rgb_image(width, height);
    let mut state = seed;
    for y in 0..height {
        for x in 0..width {
            state = state.wrapping_mul(1_103_515_245).wrapping_add(12_345);
            let v = state.to_be_bytes();
            image.set_pixel_rgb(x, y, Rgb([v[0], v[1], v[2]])).unwrap();
        }
    }
    image
}

#[test]
fn round_trip_for_many_lengths() {
    let encoder = Encoder::new();
    let decoder = Decoder::new();
    let cover = noisy_image(13, 11, 7);
    let max = encoder.max_message_size(&cover);
    for len in 0..=max {
        let message: Vec<u8> = (0..len).map(|i| (i * 37 + 11) as u8).collect();
        let stego = encoder.encode(cover.clone(), &message).unwrap();
        assert_eq!(decoder.decode(&stego).unwrap(), message, "length {}", len);
    }
}

#[test]
fn encoding_changes_only_lsbs_of_the_used_prefix() {
    let encoder = Encoder::new();
    let cover = noisy_image(9, 9, 3);
    let message = b"abc";
    let stego = encoder.encode(cover.clone(), message).unwrap();
    let used = ((8 + message.len()) * 8 + 2) / 3;
    let mut p = 0;
    for y in 0..9 {
        for x in 0..9 {
            let a = cover.get_pixel_rgb(x, y).unwrap().0;
            let b = stego.get_pixel_rgb(x, y).unwrap().0;
            for c in 0..3 {
                assert_eq!(a[c] >> 1, b[c] >> 1);
            }
            if p >= used {
                assert_eq!(a, b);
            }
            p += 1;
        }
    }
}

#[test]
fn capacity_boundary() {
    let encoder = Encoder::new();
    let cover = create_rgb_image(10, 10);
    let max = encoder.max_message_size(&cover);
    assert_eq!(max, 29);
    assert!(encoder.encode(cover.clone(), &vec![7u8; max]).is_ok());
    assert!(matches!(
        encoder.encode(cover, &vec![7u8; max + 1]),
        Err(HideError::MessageTooLarge)
    ));
}

#[test]
fn a_wrong_format_version_is_rejected() {
    let encoder = Encoder::new();
    let decoder = Decoder::new();
    let mut frame = encoder.create_header(0).unwrap().to_vec();
    frame[0] = 2;
    let stego = encoder.encode_message(create_rgb_image(10, 10), &frame).unwrap();
    assert!(matches!(decoder.decode(&stego), Err(HideError::InvalidParameters(_))));
}

#[test]
fn every_three_bit_message_survives_every_cover() {
    let encoder = Encoder::new();
    let decoder = Decoder::new();
    for cover in 0u8..8 {
        for m in 0u8..8 {
            let r = 100 | (cover >> 2 & 1);
            let g = 50 | (cover >> 1 & 1);
            let b = 200 | (cover & 1);
            let message = BitVector::from_bools(&[m & 4 != 0, m & 2 != 0, m & 1 != 0]);
            let (r2, g2, b2) = encoder.encode_pixel(r, g, b, &message);
            assert_eq!(decoder.decode_pixel(r2, g2, b2), message);
        }
    }
}

#[test]
fn encode_pixel_scenario() {
    let encoder = Encoder::new();
    let message = BitVector::from_bools(&[true, true, false]);
    assert_eq!(encoder.encode_pixel(123, 127, 135, &message), (123, 126, 135));
}

#[test]
fn a_two_by_two_image_refuses_any_message() {
    let encoder = Encoder::new();
    let cover = create_rgb_image(2, 2);
    assert_eq!(encoder.max_message_size(&cover), 0);
    assert!(matches!(encoder.encode(cover, &[0]), Err(HideError::MessageTooLarge)));
}

#[test]
fn the_empty_message_round_trips() {
    let encoder = Encoder::new();
    let decoder = Decoder::new();
    let stego = encoder.encode(noisy_image(5, 5, 1), &[]).unwrap();
    let header = hide_rs::raw_decoder::extract_raw_data(&stego).unwrap();
    assert_eq!(&header[..8], &[1, 0, 0, 0, 0, 0, 0, 0]);
    assert_eq!(decoder.decode(&stego).unwrap(), Vec::<u8>::new());
}

#[test]
fn the_header_needs_capacity_for_the_empty_message_too() {
    let encoder = Encoder::new();
    assert!(matches!(
        encoder.encode(create_rgb_image(2, 2), &[]),
        Err(HideError::MessageTooLarge)
    ));
}
