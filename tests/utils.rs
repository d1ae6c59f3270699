use hide_rs::utils::{
    bits_to_bytes, bytes_to_bits, get_bit, get_lsb, get_lsbs, join_bits, set_bit, set_lsb,
    set_lsbs, split_bits,
};
use hide_rs::{BitVector, HideError};

#[test]
fn test_get_lsbs() {
    assert_eq!(get_lsbs(0b10101101, 1).unwrap(), 0b00000001);
    assert_eq!(get_lsbs(0b10101101, 3).unwrap(), 0b00000101);
    assert_eq!(get_lsbs(0b10101101, 8).unwrap(), 0b10101101);

    assert_eq!(get_lsbs(0b00000000, 4).unwrap(), 0b00000000);
    assert_eq!(get_lsbs(0b11111111, 4).unwrap(), 0b00001111);
    assert_eq!(get_lsbs(0b10000001, 2).unwrap(), 0b00000001);

    assert!(get_lsbs(0b10101101, 0).is_err());
    assert!(get_lsbs(0b10101101, 9).is_err());
}

#[test]
fn test_set_lsbs() {
    assert_eq!(set_lsbs(0b10101100, 0b00000001, 1).unwrap(), 0b10101101);
    assert_eq!(set_lsbs(0b10101100, 0b00000101, 3).unwrap(), 0b10101101);
    assert_eq!(set_lsbs(0b00000000, 0b11111111, 8).unwrap(), 0b11111111);

    assert_eq!(set_lsbs(0b11111111, 0b00000000, 4).unwrap(), 0b11110000);
    assert_eq!(set_lsbs(0b00000000, 0b11111111, 4).unwrap(), 0b00001111);

    assert_eq!(set_lsbs(0b10101100, 0b11111111, 3).unwrap(), 0b10101111);

    assert!(set_lsbs(0b10101100, 0b00000001, 0).is_err());
    assert!(set_lsbs(0b10101100, 0b00000001, 9).is_err());
}

#[test]
fn test_bytes_to_bits_and_back() {
    let test_cases = vec![
        vec![0xAA, 0x55, 0xF0],
        vec![0x00, 0xFF, 0x0F],
        vec![0x12, 0x34, 0x56, 0x78],
        vec![0xFF],
        vec![0x00],
    ];

    for bytes in test_cases {
        let bits = bytes_to_bits(&bytes);
        let result = bits_to_bytes(&bits);
        assert_eq!(bytes, result);
    }
}

#[test]
fn test_bytes_to_bits_partial() {
    let bytes = vec![0xAA, 0x55];
    let mut bits = bytes_to_bits(&bytes);

    bits.truncate(13);

    let result = bits_to_bytes(&bits);

    assert_eq!(result.len(), 2);
    assert_eq!(result[0], 0xAA);
    assert_eq!(result[1], 0x50);
}

#[test]
fn test_split_and_join_bits() {
    let data = vec![0xA5, 0xF0, 0x3C];
    let bits = bytes_to_bits(&data);

    let chunks = split_bits(&bits, 4).unwrap();

    assert_eq!(chunks.len(), 6);

    let joined = join_bits(&chunks, Some(bits.len()));

    assert_eq!(joined, bits);

    assert!(chunks[0].get(0));
    assert!(!chunks[0].get(1));
    assert!(chunks[0].get(2));
    assert!(!chunks[0].get(3));

    assert!(!chunks[1].get(0));
    assert!(chunks[1].get(1));
    assert!(!chunks[1].get(2));
    assert!(chunks[1].get(3));
}

#[test]
fn test_split_bits_with_padding() {
    let data = vec![0xA5];
    let bits = bytes_to_bits(&data);

    let chunks = split_bits(&bits, 3).unwrap();

    assert_eq!(chunks.len(), 3);
    assert_eq!(chunks[0].len(), 3);
    assert_eq!(chunks[1].len(), 3);
    assert_eq!(chunks[2].len(), 3);

    assert!(chunks[0].get(0));
    assert!(!chunks[0].get(1));
    assert!(chunks[0].get(2));

    assert!(!chunks[1].get(0));
    assert!(!chunks[1].get(1));
    assert!(chunks[1].get(2));

    assert!(!chunks[2].get(0));
    assert!(chunks[2].get(1));
    assert!(!chunks[2].get(2));
}

#[test]
fn test_get_set_bit() {
    let byte = 0b10101010;

    assert!(get_bit(byte, 0).unwrap());
    assert!(!get_bit(byte, 1).unwrap());
    assert!(!get_bit(byte, 7).unwrap());

    assert_eq!(set_bit(byte, 1, true).unwrap(), 0b11101010);
    assert_eq!(set_bit(byte, 0, false).unwrap(), 0b00101010);
    assert_eq!(set_bit(byte, 7, true).unwrap(), 0b10101011);

    assert!(get_bit(byte, 8).is_err());
    assert!(set_bit(byte, 8, true).is_err());
}

#[test]
fn utils_test_lsb_operations() {
    assert!(!get_lsb(0b10101010));
    assert!(get_lsb(0b10101011));

    let mut byte = 0b10101010;
    set_lsb(&mut byte, true);
    assert_eq!(byte, 0b10101011);

    set_lsb(&mut byte, false);
    assert_eq!(byte, 0b10101010);
}

#[test]
fn bit_helpers_refuse_with_invalid_parameters() {
    assert!(matches!(get_lsbs(1, 0), Err(HideError::InvalidParameters(_))));
    assert!(matches!(set_lsbs(1, 1, 9), Err(HideError::InvalidParameters(_))));
    assert!(matches!(get_bit(1, 8), Err(HideError::InvalidParameters(_))));
    assert!(matches!(set_bit(1, 8, false), Err(HideError::InvalidParameters(_))));
    let bits = bytes_to_bits(&[0x0F]);
    assert!(matches!(split_bits(&bits, 0), Err(HideError::InvalidParameters(_))));
}

#[test]
fn set_bit_keeps_a_bit_already_set() {
    assert_eq!(set_bit(0b1000_0000, 0, true).unwrap(), 0b1000_0000);
    assert_eq!(set_bit(0b0000_0000, 7, false).unwrap(), 0b0000_0000);
}

#[test]
fn bytes_to_bits_is_msb_first() {
    let bits = bytes_to_bits(&[0b1000_0001, 0b0100_0000]);
    assert_eq!(bits.len(), 16);
    let expected = [
        true, false, false, false, false, false, false, true, false, true, false, false, false,
        false, false, false,
    ];
    assert_eq!(bits.to_bools(), expected.to_vec());
    assert!(bytes_to_bits(&[]).is_empty());
}

#[test]
fn bits_to_bytes_pads_the_last_byte_with_zeros() {
    let bits = BitVector::from_bools(&[true, true, false, true]);
    assert_eq!(bits_to_bytes(&bits), vec![0b1101_0000]);
    assert_eq!(bits_to_bytes(&BitVector::new()), Vec::<u8>::new());
}

#[test]
fn split_bits_of_nothing_gives_no_chunk() {
    let chunks = split_bits(&BitVector::new(), 3).unwrap();
    assert!(chunks.is_empty());
}

#[test]
fn join_bits_truncates_only_when_longer() {
    let a = BitVector::from_bools(&[true, false]);
    let b = BitVector::from_bools(&[true, true, false]);
    let chunks = vec![a, b];
    assert_eq!(join_bits(&chunks, None).to_bools(), vec![true, false, true, true, false]);
    assert_eq!(join_bits(&chunks, Some(3)).to_bools(), vec![true, false, true]);
    assert_eq!(join_bits(&chunks, Some(9)).to_bools(), vec![true, false, true, true, false]);
}

#[test]
fn bit_vector_operations() {
    let mut v = BitVector::new();
    assert!(v.is_empty());
    v.push(true);
    v.push(false);
    assert_eq!(v.len(), 2);
    assert!(v.get(0));
    assert!(!v.get(1));
    let other = BitVector::from_bools(&[true, true]);
    v.extend_from(&other);
    assert_eq!(v.to_bools(), vec![true, false, true, true]);
    v.resize(6, true);
    assert_eq!(v.to_bools(), vec![true, false, true, true, true, true]);
    v.resize(1, false);
    assert_eq!(v.to_bools(), vec![true]);
    v.truncate(5);
    assert_eq!(v.len(), 1);
    v.truncate(0);
    assert!(v.is_empty());
}
