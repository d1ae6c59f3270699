use hide_rs::bltm::BLTM3x3;
use hide_rs::BitVector;

#[test]
fn test_bltm_columns() {
    let bltm = BLTM3x3::new();
    let columns = bltm.columns();

    let mut expected_c1 = BitVector::new();
    expected_c1.push(false);
    expected_c1.push(false);
    expected_c1.push(true);
    assert_eq!(columns[0], expected_c1);

    let mut expected_c2 = BitVector::new();
    expected_c2.push(false);
    expected_c2.push(true);
    expected_c2.push(true);
    assert_eq!(columns[1], expected_c2);

    let mut expected_c3 = BitVector::new();
    expected_c3.push(true);
    expected_c3.push(true);
    expected_c3.push(true);
    assert_eq!(columns[2], expected_c3);
}

#[test]
fn test_lookup_function_bitvec() {
    let bltm = BLTM3x3::new();

    let test_cases = [
        (0, vec![false, false, false]),
        (1, vec![false, false, true]),
        (2, vec![false, true, true]),
        (3, vec![false, true, false]),
        (4, vec![true, true, false]),
        (5, vec![true, true, true]),
        (6, vec![true, false, true]),
        (7, vec![true, false, false]),
    ];

    for (val, expected) in test_cases.iter() {
        let mut delta = BitVector::new();
        delta.push((*val & 4) != 0);
        delta.push((*val & 2) != 0);
        delta.push((*val & 1) != 0);

        let vn = bltm.lookup_vn(&delta);

        let mut expected_bits = BitVector::new();
        for &bit in expected {
            expected_bits.push(bit);
        }

        assert_eq!(
            vn, expected_bits,
            "For delta {:?} (value {}), expected Vn {:?}, got {:?}",
            delta, val, expected_bits, vn
        );
    }
}

#[test]
fn test_lookup_function_vec() {
    let bltm = BLTM3x3::new();

    let test_cases = [
        (vec![false, false, false], vec![false, false, false]),
        (vec![false, false, true], vec![false, false, true]),
        (vec![false, true, false], vec![false, true, true]),
        (vec![false, true, true], vec![false, true, false]),
        (vec![true, false, false], vec![true, true, false]),
        (vec![true, false, true], vec![true, true, true]),
        (vec![true, true, false], vec![true, false, true]),
        (vec![true, true, true], vec![true, false, false]),
    ];

    for (delta, expected_vn) in test_cases.iter() {
        let vn = bltm.lookup_vn_vec(delta);
        assert_eq!(
            vn, *expected_vn,
            "For delta {:?}, expected Vn {:?}, got {:?}",
            delta, expected_vn, vn
        );
    }
}

#[test]
fn test_binary_conversion() {
    for val in 0..8 {
        let bits = BLTM3x3::u8_to_bits(val);
        assert_eq!(BLTM3x3::bits_to_u8(&bits), val);
    }

    let vec_tests = [
        (0, vec![false, false, false]),
        (1, vec![false, false, true]),
        (2, vec![false, true, false]),
        (3, vec![false, true, true]),
        (4, vec![true, false, false]),
        (5, vec![true, false, true]),
        (6, vec![true, true, false]),
        (7, vec![true, true, true]),
    ];

    for (num, bin) in vec_tests.iter() {
        assert_eq!(BLTM3x3::u8_to_bin(*num), *bin);
        assert_eq!(BLTM3x3::bin_to_u8(bin), *num);
    }
}

#[test]
fn lookup_is_a_bijection_of_the_three_bit_vectors() {
    let bltm = BLTM3x3::new();
    let mut seen = [false; 8];
    for val in 0u8..8 {
        let vn = bltm.lookup_vn(&BLTM3x3::u8_to_bits(val));
        assert_eq!(vn.len(), 3);
        let out = BLTM3x3::bits_to_u8(&vn) as usize;
        assert!(out < 8);
        assert!(!seen[out], "two differences share the correction {}", out);
        seen[out] = true;
    }
    assert!(seen.iter().all(|s| *s));
}

#[test]
fn lookup_vn_vec_reads_only_the_first_three_bits() {
    let bltm = BLTM3x3::new();
    assert_eq!(bltm.lookup_vn_vec(&[true, false, false, true, true]), vec![true, true, false]);
    assert_eq!(bltm.lookup_vn_vec(&[true, false]), vec![false, true, true]);
}

#[test]
fn bits_to_u8_keeps_the_low_eight_bits() {
    let bits = BitVector::from_bools(&[true, false, false, false, false, false, false, false, true]);
    assert_eq!(BLTM3x3::bits_to_u8(&bits), 1);
    assert_eq!(BLTM3x3::bin_to_u8(&[true, true, true, true, true, true, true, true, true]), 255);
    assert_eq!(BLTM3x3::u8_to_bin(13), vec![true, false, true]);
}

#[test]
fn multiply_matches_the_matrix() {
    let bltm = BLTM3x3::new();
    let v = BitVector::from_bools(&[true, true, false]);
    assert_eq!(bltm.multiply(&v).to_bools(), vec![true, false, false]);
    let v = BitVector::from_bools(&[false, false, true]);
    assert_eq!(bltm.multiply(&v).to_bools(), vec![false, false, true]);
}
