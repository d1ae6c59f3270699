//! The binary lower-triangular 3x3 matrix of the code, and its correction table.
use vstd::prelude::*;
use vstd::arithmetic::div_mod::{lemma_add_mod_noop, lemma_mul_mod_noop_right};
use crate::bitvector::BitVector;
use crate::utils::bits_value;

verus! {

/// Column `k` of the matrix, top entry first: C1 = 001, C2 = 011, C3 = 111 for k = 0, 1, 2.
pub open spec fn column_spec(k: int) -> Seq<bool> {
    if k == 0 {
        seq![false, false, true]
    } else if k == 1 {
        seq![false, true, true]
    } else {
        seq![true, true, true]
    }
}

/// Entry (i, j) of the matrix: read from column 2 - j, and zero above the diagonal.
pub open spec fn matrix_entry(i: int, j: int) -> bool {
    i >= j && column_spec(2 - j)[i]
}

/// Row `i` of the matrix times `v`, over GF(2): the XOR of the ANDs.
pub open spec fn row_product(i: int, v: Seq<bool>) -> bool {
    ((matrix_entry(i, 0) && v[0]) != (matrix_entry(i, 1) && v[1])) != (matrix_entry(i, 2) && v[2])
}

/// The matrix times the 3-bit vector `v`, over GF(2).
pub open spec fn mat_mul(v: Seq<bool>) -> Seq<bool> {
    seq![row_product(0, v), row_product(1, v), row_product(2, v)]
}

/// The bitwise XOR of two 3-bit vectors.
pub open spec fn xor3(a: Seq<bool>, b: Seq<bool>) -> Seq<bool> {
    seq![a[0] != b[0], a[1] != b[1], a[2] != b[2]]
}

/// The low 3 bits of `v`, most significant first.
pub open spec fn bits3(v: nat) -> Seq<bool> {
    seq![(v / 4) % 2 == 1, (v / 2) % 2 == 1, v % 2 == 1]
}

/// The correction table on 3-bit values:
/// 0→0, 1→1, 2→3, 3→2, 4→6, 5→7, 6→5, 7→4.
pub open spec fn correction_value(d: nat) -> nat {
    if d == 0 {
        0
    } else if d == 1 {
        1
    } else if d == 2 {
        3
    } else if d == 3 {
        2
    } else if d == 4 {
        6
    } else if d == 5 {
        7
    } else if d == 6 {
        5
    } else {
        4
    }
}

/// The correction vector for the 3-bit difference `delta`.
pub open spec fn correction(delta: Seq<bool>) -> Seq<bool> {
    bits3(correction_value(bits_value(delta)))
}

/// The fixed 3x3 binary lower-triangular matrix.
#[derive(Debug, Clone, Copy)]
pub struct BLTM3x3;

proof fn lemma_bits_value_small(bits: Seq<bool>)
    requires
        bits.len() <= 3,
    ensures
        bits_value(bits) < 8,
        bits.len() <= 2 ==> bits_value(bits) < 4,
        bits.len() <= 1 ==> bits_value(bits) < 2,
    decreases bits.len(),
{
    if bits.len() > 0 {
        lemma_bits_value_small(bits.drop_last());
    }
}

/// A 3-bit vector and its value determine each other.
pub proof fn lemma_bits3_value(bits: Seq<bool>)
    requires
        bits.len() == 3,
    ensures
        bits_value(bits) < 8,
        bits3(bits_value(bits)) == bits,
        bits_value(bits) == (if bits[0] { 4nat } else { 0 }) + (if bits[1] { 2nat } else { 0 }) + (
        if bits[2] { 1nat } else { 0 }),
{
    let b2 = bits.drop_last();
    let b1 = b2.drop_last();
    let b0 = b1.drop_last();
    assert(b0.len() == 0);
    assert(bits_value(b0) == 0);
    assert(bits_value(b1) == (if bits[0] { 1nat } else { 0 }));
    assert(bits_value(b2) == 2 * bits_value(b1) + (if bits[1] { 1nat } else { 0 }));
    assert(bits3(bits_value(bits)) =~= bits);
}

/// The value of the bits of a value below 8 is that value.
pub proof fn lemma_value_bits3(v: nat)
    requires
        v < 8,
    ensures
        bits3(v).len() == 3,
        bits_value(bits3(v)) == v,
{
    lemma_bits3_value(bits3(v));
}

impl BLTM3x3 {
    /// The matrix.
    pub fn new() -> (r: Self) {
        BLTM3x3
    }

    /// The columns C1, C2, C3 (right to left), each top entry first.
    pub fn columns(&self) -> (r: [BitVector; 3])
        ensures
            forall|k: int| 0 <= k < 3 ==> (#[trigger] r@[k])@ == column_spec(k),
    {
        let c1 = BitVector::from_bools(&[false, false, true]);
        let c2 = BitVector::from_bools(&[false, true, true]);
        let c3 = BitVector::from_bools(&[true, true, true]);
        assert(c1@ =~= column_spec(0));
        assert(c2@ =~= column_spec(1));
        assert(c3@ =~= column_spec(2));
        [c1, c2, c3]
    }

    /// The number that `bits` spell, most significant first, modulo 256.
    pub fn bits_to_u8(bits: &BitVector) -> (r: u8)
        ensures
            r == bits_value(bits@) % 256,
    {
        let n = bits.len();
        let mut result: u8 = 0;
        let mut i: usize = 0;
        while i < n
            invariant
                i <= n,
                n == bits@.len(),
                result as nat == bits_value(bits@.take(i as int)) % 256,
            decreases n - i,
        {
            let bit = bits.get(i);
            proof {
                lemma_shift_in(result, bit, bits_value(bits@.take(i as int)));
            }
            result = (result << 1) | (bit as u8);
            i += 1;
            assert(bits@.take(i as int).drop_last() =~= bits@.take(i - 1));
        }
        assert(bits@.take(n as int) =~= bits@);
        result
    }

    /// The low 3 bits of `value`, most significant first.
    pub fn u8_to_bits(value: u8) -> (r: BitVector)
        ensures
            r@ == bits3(value as nat),
    {
        proof {
            lemma_low_three(value);
        }
        let mut bv = BitVector::new();
        bv.push((value & 4) != 0);
        bv.push((value & 2) != 0);
        bv.push((value & 1) != 0);
        assert(bv@ =~= bits3(value as nat));
        bv
    }

    /// The correction vector for the difference `delta` of at most 3 bits, by the fixed table
    /// 000→000, 001→001, 010→011, 011→010, 100→110, 101→111, 110→101, 111→100.
    pub fn lookup_vn(&self, delta: &BitVector) -> (r: BitVector)
        requires
            delta@.len() <= 3,
        ensures
            r@ == correction(delta@),
    {
        let delta_val = Self::bits_to_u8(delta);
        proof {
            lemma_bits_value_small(delta@);
        }
        let vn: u8 = match delta_val {
            0 => 0b000,
            1 => 0b001,
            2 => 0b011,
            3 => 0b010,
            4 => 0b110,
            5 => 0b111,
            6 => 0b101,
            _ => 0b100,
        };
        Self::u8_to_bits(vn)
    }

    /// The correction vector for the difference given by the first 3 of `delta`.
    pub fn lookup_vn_vec(&self, delta: &[bool]) -> (r: Vec<bool>)
        ensures
            r@ == correction(delta@.take(if delta@.len() < 3 { delta@.len() as int } else { 3 })),
    {
        let n: usize = if delta.len() < 3 { delta.len() } else { 3 };
        let mut first: Vec<bool> = Vec::new();
        let mut i: usize = 0;
        while i < n
            invariant
                i <= n <= 3,
                n <= delta@.len(),
                first@ == delta@.take(i as int),
            decreases n - i,
        {
            first.push(delta[i]);
            i += 1;
            assert(first@ =~= delta@.take(i as int));
        }
        let delta_bits = BitVector::from_bools(first.as_slice());
        let result_bits = self.lookup_vn(&delta_bits);
        result_bits.to_bools()
    }

    /// The number that `bits` spell, most significant first, modulo 256.
    pub fn bin_to_u8(bits: &[bool]) -> (r: u8)
        ensures
            r == bits_value(bits@) % 256,
    {
        let mut result: u8 = 0;
        let mut i: usize = 0;
        while i < bits.len()
            invariant
                i <= bits@.len(),
                result as nat == bits_value(bits@.take(i as int)) % 256,
            decreases bits@.len() - i,
        {
            let bit = bits[i];
            proof {
                lemma_shift_in(result, bit, bits_value(bits@.take(i as int)));
            }
            result = (result << 1) | (bit as u8);
            i += 1;
            assert(bits@.take(i as int).drop_last() =~= bits@.take(i - 1));
        }
        assert(bits@.take(bits@.len() as int) =~= bits@);
        result
    }

    /// The low 3 bits of `value`, most significant first.
    pub fn u8_to_bin(value: u8) -> (r: Vec<bool>)
        ensures
            r@ == bits3(value as nat),
    {
        proof {
            lemma_low_three(value);
        }
        let r = vec![(value & 4) != 0, (value & 2) != 0, (value & 1) != 0];
        assert(r@ =~= bits3(value as nat));
        r
    }

    /// The matrix times the 3-bit vector `v` over GF(2): output bit `i` is the XOR over `j` of
    /// entry (i, j) AND `v[j]`.
    pub fn multiply(&self, v: &BitVector) -> (r: BitVector)
        requires
            v@.len() == 3,
        ensures
            r@ == mat_mul(v@),
    {
        let columns = self.columns();
        let mut result = BitVector::new();
        let mut i: usize = 0;
        while i < 3
            invariant
                i <= 3,
                v@.len() == 3,
                forall|k: int| 0 <= k < 3 ==> (#[trigger] columns@[k])@ == column_spec(k),
                result@ == mat_mul(v@).take(i as int),
            decreases 3 - i,
        {
            let mut bit = false;
            let mut j: usize = 0;
            while j < 3
                invariant
                    i < 3,
                    j <= 3,
                    v@.len() == 3,
                    forall|k: int| 0 <= k < 3 ==> (#[trigger] columns@[k])@ == column_spec(k),
                    bit == (((j > 0 && matrix_entry(i as int, 0) && v@[0]) != (j > 1
                        && matrix_entry(i as int, 1) && v@[1])) != (j > 2 && matrix_entry(
                        i as int,
                        2,
                    ) && v@[2])),
                decreases 3 - j,
            {
                if i >= j {
                    let matrix_bit = columns[2 - j].get(i);
                    bit = bit ^ (matrix_bit && v.get(j));
                }
                j += 1;
            }
            result.push(bit);
            i += 1;
            assert(result@ =~= mat_mul(v@).take(i as int));
        }
        assert(mat_mul(v@).take(3) =~= mat_mul(v@));
        result
    }
}

proof fn lemma_shift_in(result: u8, bit: bool, v: nat)
    requires
        result as nat == v % 256,
    ensures
        ((result << 1u8) | (bit as u8)) as nat == (2 * v + (if bit { 1nat } else { 0 })) % 256,
{
    let b: u8 = bit as u8;
    assert(b <= 1);
    assert(((result << 1u8) | b) == ((2 * result + b) % 256) as u8) by (bit_vector)
        requires
            b <= 1,
    ;
    lemma_mul_mod_noop_right(2, v as int, 256);
    lemma_add_mod_noop((2 * (v % 256)) as int, b as int, 256);
    lemma_add_mod_noop((2 * v) as int, b as int, 256);
}

proof fn lemma_low_three(value: u8)
    ensures
        ((value & 4u8) != 0) == ((value as nat / 4) % 2 == 1),
        ((value & 2u8) != 0) == ((value as nat / 2) % 2 == 1),
        ((value & 1u8) != 0) == (value as nat % 2 == 1),
{
    assert(((value & 4u8) != 0) == ((value / 4) % 2 == 1)) by (bit_vector);
    assert(((value & 2u8) != 0) == ((value / 2) % 2 == 1)) by (bit_vector);
    assert(((value & 1u8) != 0) == (value % 2 == 1)) by (bit_vector);
}

/// The correction table is a bijection of the 3-bit vectors: each difference gets a 3-bit
/// correction, no two differences get the same one, and every 3-bit vector is a correction.
pub proof fn lemma_correction_bijective()
    ensures
        forall|d: Seq<bool>| d.len() == 3 ==> (#[trigger] correction(d)).len() == 3,
        forall|d1: Seq<bool>, d2: Seq<bool>|
            d1.len() == 3 && d2.len() == 3 && #[trigger] correction(d1) == #[trigger] correction(d2)
                ==> d1 == d2,
        forall|o: Seq<bool>|
            o.len() == 3 ==> exists|d: Seq<bool>| d.len() == 3 && #[trigger] correction(d) == o,
{
    assert forall|d: Seq<bool>| d.len() == 3 implies (#[trigger] correction(d)).len() == 3 by {}
    assert forall|d1: Seq<bool>, d2: Seq<bool>|
        d1.len() == 3 && d2.len() == 3 && #[trigger] correction(d1) == #[trigger] correction(
            d2,
        ) implies d1 == d2 by {
        lemma_correction_injective(d1, d2);
    }
    assert forall|o: Seq<bool>| o.len() == 3 implies exists|d: Seq<bool>|
        d.len() == 3 && #[trigger] correction(d) == o by {
        let d = lemma_correction_onto(o);
    }
}

proof fn lemma_table_injective(v1: nat, v2: nat)
    requires
        v1 < 8,
        v2 < 8,
        correction_value(v1) == correction_value(v2),
    ensures
        v1 == v2,
{
}

proof fn lemma_correction_injective(d1: Seq<bool>, d2: Seq<bool>)
    requires
        d1.len() == 3,
        d2.len() == 3,
        correction(d1) == correction(d2),
    ensures
        d1 == d2,
{
    lemma_bits3_value(d1);
    lemma_bits3_value(d2);
    let c1 = correction_value(bits_value(d1));
    let c2 = correction_value(bits_value(d2));
    lemma_value_bits3(c1);
    lemma_value_bits3(c2);
    lemma_table_injective(bits_value(d1), bits_value(d2));
}

proof fn lemma_correction_onto(o: Seq<bool>) -> (d: Seq<bool>)
    requires
        o.len() == 3,
    ensures
        d.len() == 3,
        correction(d) == o,
{
    lemma_bits3_value(o);
    let vo = bits_value(o);
    let v: nat = if vo == 0 {
        0
    } else if vo == 1 {
        1
    } else if vo == 3 {
        2
    } else if vo == 2 {
        3
    } else if vo == 6 {
        4
    } else if vo == 7 {
        5
    } else if vo == 5 {
        6
    } else {
        7
    };
    lemma_value_bits3(v);
    assert(correction_value(v) == vo);
    bits3(v)
}

/// Embedding then extracting gives the message back: for every 3-bit cover vector `vc` and
/// 3-bit message `m`, A (vc XOR correction(A vc XOR m)) == m.
pub proof fn lemma_matrix_inverse(vc: Seq<bool>, m: Seq<bool>)
    requires
        vc.len() == 3,
        m.len() == 3,
    ensures
        mat_mul(xor3(vc, correction(xor3(mat_mul(vc), m)))) == m,
{
    let delta = xor3(mat_mul(vc), m);
    lemma_bits3_value(delta);
    assert(mat_mul(xor3(vc, correction(delta))) =~= m);
}

} // verus!
