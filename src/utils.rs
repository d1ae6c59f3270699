//! Bit-level helpers: LSB access on bytes, bytes to bits and back, chunking.
//!
//! Bits are always taken most significant first: bit 0 of a byte is its high bit.
use vstd::prelude::*;
use vstd::arithmetic::power2::{
    pow2, lemma2_to64, lemma_pow2_pos, lemma_pow2_strictly_increases, lemma_pow2_unfold,
};
use vstd::arithmetic::div_mod::{
    lemma_div_denominator, lemma_fundamental_div_mod, lemma_fundamental_div_mod_converse,
};
use vstd::bits::{
    low_bits_mask, lemma_low_bits_mask_values, lemma_u8_low_bits_mask_is_mod,
    lemma_u8_pow2_no_overflow, lemma_u8_shl_is_mul, lemma_u8_shr_is_div,
};
use crate::bitvector::{BitVector, max_bits};
use crate::error::HideError;
use crate::Result;

verus! {

/// The number that the low `k` bits of `byte` make.
pub open spec fn low_bits(byte: u8, k: nat) -> nat {
    byte as nat % pow2(k)
}

/// `byte` with its low `k` bits replaced by the low `k` bits of `bits`.
pub open spec fn replace_low_bits(byte: u8, bits: u8, k: nat) -> nat {
    (byte as nat - low_bits(byte, k) + low_bits(bits, k)) as nat
}

/// Bit `i` of `byte`, where bit 0 is the most significant and bit 7 the least.
pub open spec fn msb_bit(byte: u8, i: int) -> bool {
    (byte as nat / pow2((7 - i) as nat)) % 2 == 1
}

/// `byte` with bit `i` (most significant first) set to `value`.
pub open spec fn with_bit(byte: u8, i: int, value: bool) -> nat {
    if msb_bit(byte, i) == value {
        byte as nat
    } else if value {
        byte as nat + pow2((7 - i) as nat)
    } else {
        (byte as nat - pow2((7 - i) as nat)) as nat
    }
}

/// The least significant bit of `byte`.
pub open spec fn lsb(byte: u8) -> bool {
    byte % 2 == 1
}

/// `byte` with its least significant bit set to `bit`.
pub open spec fn with_lsb(byte: u8, bit: bool) -> u8 {
    (byte - byte % 2 + if bit { 1int } else { 0int }) as u8
}

/// The 8 bits of `byte`, most significant first.
pub open spec fn byte_bits(byte: u8) -> Seq<bool> {
    Seq::new(8, |i: int| msb_bit(byte, i))
}

/// The bits of `bytes`, 8 per byte, in order.
pub open spec fn bytes_bits(bytes: Seq<u8>) -> Seq<bool>
    decreases bytes.len(),
{
    if bytes.len() == 0 {
        Seq::empty()
    } else {
        bytes_bits(bytes.drop_last()) + byte_bits(bytes.last())
    }
}

/// The number that `bits` spell in binary, most significant first.
pub open spec fn bits_value(bits: Seq<bool>) -> nat
    decreases bits.len(),
{
    if bits.len() == 0 {
        0
    } else {
        2 * bits_value(bits.drop_last()) + (if bits.last() { 1nat } else { 0nat })
    }
}

/// The `size` bits of `bits` from position `start` on, with `false` past its end.
pub open spec fn padded_window(bits: Seq<bool>, start: int, size: nat) -> Seq<bool> {
    Seq::new(size, |j: int| if start + j < bits.len() { bits[start + j] } else { false })
}

/// How many chunks of `size` bits it takes to hold `n` bits.
pub open spec fn chunk_count(n: nat, size: nat) -> nat
    recommends
        size > 0,
{
    ((n + size - 1) / size as int) as nat
}

/// Byte `m` of the packing of `bits`: 8 bits from position `8 * m`, zero-filled at the end.
pub open spec fn packed_byte(bits: Seq<bool>, m: int) -> nat {
    bits_value(padded_window(bits, 8 * m, 8))
}

/// The packing of `bits` into bytes: `ceil(len / 8)` bytes.
pub open spec fn packed_bytes(bits: Seq<bool>) -> Seq<u8> {
    Seq::new(((bits.len() + 7) / 8) as nat, |m: int| packed_byte(bits, m) as u8)
}

/// The concatenation of the chunks, in order.
pub open spec fn joined(chunks: Seq<BitVector>) -> Seq<bool>
    decreases chunks.len(),
{
    if chunks.len() == 0 {
        Seq::empty()
    } else {
        joined(chunks.drop_last()) + chunks.last()@
    }
}

proof fn lemma_mask(k: u8)
    requires
        1 <= k <= 8,
    ensures
        (if k == 8 { 0xFFu8 } else { ((1u8 << k) - 1) as u8 }) == low_bits_mask(k as nat),
        pow2(k as nat) <= 256,
        k < 8 ==> (1u8 << k) as nat == pow2(k as nat) && pow2(k as nat) >= 1,
{
    lemma_low_bits_mask_values();
    lemma2_to64();
    if k < 8 {
        lemma_u8_pow2_no_overflow(k as nat);
        lemma_u8_shl_is_mul(1, k);
    }
}

proof fn lemma_and_mask_is_mod(byte: u8, k: u8)
    requires
        1 <= k <= 8,
    ensures
        byte & (low_bits_mask(k as nat) as u8) == low_bits(byte, k as nat),
{
    lemma_mask(k);
    lemma_pow2_pos(k as nat);
    if k < 8 {
        lemma_u8_low_bits_mask_is_mod(byte, k as nat);
        lemma_u8_pow2_no_overflow(k as nat);
    } else {
        lemma_low_bits_mask_values();
        lemma2_to64();
        assert(byte & 0xFFu8 == byte) by (bit_vector);
    }
}

/// The low `k` bits of `byte`, as a number; `k` must lie in `1..=8`.
pub fn get_lsbs(byte: u8, k: u8) -> (r: Result<u8>)
    ensures
        r is Ok <==> 1 <= k <= 8,
        r matches Ok(v) ==> v == low_bits(byte, k as nat),
        r matches Err(e) ==> e.is_invalid_parameters(),
{
    if k == 0 || k > 8 {
        return Err(HideError::InvalidParameters("number of bits must be between 1 and 8".to_string()));
    }
    proof {
        lemma_mask(k);
        lemma_pow2_pos(k as nat);
    }
    let mask: u8 = if k == 8 { 0xFF } else { (1u8 << k) - 1 };
    proof {
        lemma_mask(k);
        lemma_and_mask_is_mod(byte, k);
    }
    Ok(byte & mask)
}

/// `byte` with its low `k` bits replaced by the low `k` bits of `bits`; `k` must lie in `1..=8`.
pub fn set_lsbs(byte: u8, bits: u8, k: u8) -> (r: Result<u8>)
    ensures
        r is Ok <==> 1 <= k <= 8,
        r matches Ok(v) ==> v == replace_low_bits(byte, bits, k as nat),
        r matches Err(e) ==> e.is_invalid_parameters(),
{
    if k == 0 || k > 8 {
        return Err(HideError::InvalidParameters("number of bits must be between 1 and 8".to_string()));
    }
    proof {
        lemma_mask(k);
        lemma_pow2_pos(k as nat);
    }
    let mask: u8 = if k == 8 { 0xFF } else { (1u8 << k) - 1 };
    let cleared = byte & !mask;
    let new_bits = bits & mask;
    proof {
        lemma_mask(k);
        lemma_and_mask_is_mod(byte, k);
        lemma_and_mask_is_mod(bits, k);
        assert(cleared | new_bits == cleared + new_bits) by (bit_vector)
            requires
                cleared == byte & !mask,
                new_bits == bits & mask,
        ;
        assert(cleared == byte - (byte & mask)) by (bit_vector)
            requires
                cleared == byte & !mask,
        ;
    }
    Ok(cleared | new_bits)
}

proof fn lemma_shr_bit(byte: u8, i: u8)
    requires
        i <= 7,
    ensures
        (((byte >> ((7 - i) as u8)) & 1u8) == 1u8) == msb_bit(byte, i as int),
{
    let s: u8 = (7 - i) as u8;
    lemma_u8_shr_is_div(byte, s);
    let y: u8 = byte >> s;
    assert(((y & 1u8) == 1u8) == (y % 2 == 1)) by (bit_vector);
}

/// Bit `bit_position` of `byte`, where 0 is the most significant; the position must lie in `0..=7`.
pub fn get_bit(byte: u8, bit_position: u8) -> (r: Result<bool>)
    ensures
        r is Ok <==> bit_position <= 7,
        r matches Ok(v) ==> v == msb_bit(byte, bit_position as int),
        r matches Err(e) ==> e.is_invalid_parameters(),
{
    if bit_position > 7 {
        return Err(HideError::InvalidParameters("bit position must be between 0 and 7".to_string()));
    }
    proof {
        lemma_shr_bit(byte, bit_position);
    }
    Ok(((byte >> (7 - bit_position)) & 1) == 1)
}

/// `byte` with bit `bit_position` (0 is the most significant) set to `value`; the position must
/// lie in `0..=7`.
pub fn set_bit(byte: u8, bit_position: u8, value: bool) -> (r: Result<u8>)
    ensures
        r is Ok <==> bit_position <= 7,
        r matches Ok(v) ==> v == with_bit(byte, bit_position as int, value),
        r matches Err(e) ==> e.is_invalid_parameters(),
{
    if bit_position > 7 {
        return Err(HideError::InvalidParameters("bit position must be between 0 and 7".to_string()));
    }
    let pos: u8 = 7 - bit_position;
    proof {
        lemma_shr_bit(byte, bit_position);
        lemma_u8_pow2_no_overflow(pos as nat);
        lemma_u8_shl_is_mul(1, pos);
        assert(((byte >> pos) & 1u8) == 1u8 ==> (byte | (1u8 << pos)) == byte) by (bit_vector)
            requires
                pos < 8,
        ;
        assert(((byte >> pos) & 1u8) != 1u8 ==> (byte | (1u8 << pos)) == byte + (1u8 << pos))
            by (bit_vector)
            requires
                pos < 8,
        ;
        assert(((byte >> pos) & 1u8) == 1u8 ==> (byte & !(1u8 << pos)) == byte - (1u8 << pos))
            by (bit_vector)
            requires
                pos < 8,
        ;
        assert(((byte >> pos) & 1u8) != 1u8 ==> (byte & !(1u8 << pos)) == byte) by (bit_vector)
            requires
                pos < 8,
        ;
    }
    if value {
        Ok(byte | (1 << pos))
    } else {
        Ok(byte & !(1 << pos))
    }
}

/// The least significant bit of `byte`.
pub fn get_lsb(byte: u8) -> (r: bool)
    ensures
        r == lsb(byte),
{
    assert(((byte & 1u8) == 1u8) == (byte % 2 == 1)) by (bit_vector);
    (byte & 1) == 1
}

/// Sets the least significant bit of `byte` to `bit`, leaving the other bits alone.
pub fn set_lsb(byte: &mut u8, bit: bool)
    ensures
        *final(byte) == with_lsb(*old(byte), bit),
{
    let b: u8 = *byte;
    assert(b | 1u8 == b - b % 2 + 1) by (bit_vector);
    assert(b & !1u8 == b - b % 2) by (bit_vector);
    if bit {
        *byte |= 1;
    } else {
        *byte &= !1;
    }
}

/// Each byte gives 8 bits.
pub proof fn lemma_bytes_bits_len(bytes: Seq<u8>)
    ensures
        bytes_bits(bytes).len() == 8 * bytes.len(),
    decreases bytes.len(),
{
    if bytes.len() > 0 {
        lemma_bytes_bits_len(bytes.drop_last());
    }
}

/// The bits of `bytes`, 8 per byte, most significant first.
pub fn bytes_to_bits(bytes: &[u8]) -> (r: BitVector)
    requires
        8 * bytes@.len() <= max_bits(),
    ensures
        r@ == bytes_bits(bytes@),
        r@.len() == 8 * bytes@.len(),
{
    let mut bits = BitVector::new();
    let mut k: usize = 0;
    while k < bytes.len()
        invariant
            k <= bytes@.len(),
            8 * bytes@.len() <= max_bits(),
            bits@ == bytes_bits(bytes@.take(k as int)),
        decreases bytes@.len() - k,
    {
        let byte = bytes[k];
        proof {
            lemma_bytes_bits_len(bytes@.take(k as int));
        }
        let ghost before = bits@;
        let mut i: u8 = 0;
        while i < 8
            invariant
                i <= 8,
                k < bytes@.len(),
                8 * bytes@.len() <= max_bits(),
                before.len() == 8 * k,
                bits@ == before + byte_bits(byte).take(i as int),
            decreases 8 - i,
        {
            proof {
                lemma_shr_bit(byte, i);
            }
            bits.push(((byte >> (7 - i)) & 1) == 1);
            i += 1;
            assert(byte_bits(byte).take(i as int) == byte_bits(byte).take(i - 1).push(
                byte_bits(byte)[i - 1],
            ));
        }
        k += 1;
        assert(bytes@.take(k as int).drop_last() == bytes@.take(k - 1));
        assert(byte_bits(byte).take(8) == byte_bits(byte));
    }
    assert(bytes@.take(bytes@.len() as int) == bytes@);
    proof {
        lemma_bytes_bits_len(bytes@);
    }
    bits
}

proof fn lemma_byte_bits_prefix_value(x: u8, j: nat)
    requires
        j <= 8,
    ensures
        bits_value(byte_bits(x).take(j as int)) == x as nat / pow2((8 - j) as nat),
    decreases j,
{
    lemma2_to64();
    if j == 0 {
        assert(byte_bits(x).take(0) =~= Seq::<bool>::empty());
        assert(bits_value(byte_bits(x).take(0)) == 0);
        assert(x as nat / pow2(8) == 0);
    } else {
        let i = (j - 1) as nat;
        lemma_byte_bits_prefix_value(x, i);
        assert(byte_bits(x).take(j as int).drop_last() =~= byte_bits(x).take(i as int));
        let d = pow2((7 - i) as nat);
        lemma_pow2_pos((7 - i) as nat);
        lemma_pow2_unfold((8 - i) as nat);
        lemma_div_denominator(x as int, d as int, 2);
        let y = x as nat / d;
        lemma_fundamental_div_mod(y as int, 2);
        assert(pow2((8 - i) as nat) == d * 2);
        let s = byte_bits(x).take(j as int);
        assert(s.last() == msb_bit(x, i as int));
        assert(bits_value(s) == 2 * bits_value(s.drop_last()) + (if s.last() { 1nat } else { 0nat }));
        assert(bits_value(s.drop_last()) == x as nat / pow2((8 - i) as nat));
        assert(x as nat / pow2((8 - i) as nat) == y / 2);
        assert((if s.last() { 1nat } else { 0nat }) == y % 2);
        assert(bits_value(s) == y);
        assert((8 - j) as nat == (7 - i) as nat);
    }
}

/// The bits of a byte spell the byte back.
pub proof fn lemma_byte_bits_value(x: u8)
    ensures
        bits_value(byte_bits(x)) == x,
{
    lemma_byte_bits_prefix_value(x, 8);
    lemma2_to64();
    assert(byte_bits(x).take(8) =~= byte_bits(x));
}

/// Bit `j` of byte `q` of `bytes` is bit `8 * q + j` of their bits.
pub proof fn lemma_bytes_bits_index(bytes: Seq<u8>, q: int, j: int)
    requires
        0 <= q < bytes.len(),
        0 <= j < 8,
    ensures
        bytes_bits(bytes).len() == 8 * bytes.len(),
        bytes_bits(bytes)[8 * q + j] == byte_bits(bytes[q])[j],
    decreases bytes.len(),
{
    lemma_bytes_bits_len(bytes);
    let init = bytes.drop_last();
    lemma_bytes_bits_len(init);
    if q < bytes.len() - 1 {
        lemma_bytes_bits_index(init, q, j);
    }
}

/// Packing the bits of `bytes` gives `bytes` back.
pub proof fn lemma_pack_bytes_bits(bytes: Seq<u8>)
    ensures
        packed_bytes(bytes_bits(bytes)) == bytes,
{
    let bits = bytes_bits(bytes);
    lemma_bytes_bits_len(bytes);
    assert forall|q: int| 0 <= q < bytes.len() implies packed_byte(bits, q) as u8 == bytes[q] by {
        assert forall|j: int| 0 <= j < 8 implies padded_window(bits, 8 * q, 8)[j] == byte_bits(
            bytes[q],
        )[j] by {
            lemma_bytes_bits_index(bytes, q, j);
        }
        assert(padded_window(bits, 8 * q, 8) =~= byte_bits(bytes[q]));
        lemma_byte_bits_value(bytes[q]);
    }
    assert(packed_bytes(bits) =~= bytes);
}

/// Packs the bits `start..end` of `bits` into bytes, 8 bits per byte, most significant first;
/// the unused low bits of a last, partial byte are zero.
pub fn pack_bits(bits: &BitVector, start: usize, end: usize) -> (r: Vec<u8>)
    requires
        start <= end <= bits@.len(),
    ensures
        r@ == packed_bytes(bits@.subrange(start as int, end as int)),
{
    let ghost s = bits@.subrange(start as int, end as int);
    let total: usize = bits.len();
    let n: usize = end - start;
    let count: usize = n / 8 + if n % 8 == 0 { 0 } else { 1 };
    assert(count == (n + 7) / 8);
    let mut bytes: Vec<u8> = Vec::new();
    let mut m: usize = 0;
    let mut base: usize = start;
    while m < count
        invariant
            start <= end <= bits@.len(),
            bits@.len() <= max_bits(),
            s == bits@.subrange(start as int, end as int),
            n == end - start,
            count == (n + 7) / 8,
            m <= count,
            base == start + 8 * m,
            bytes@.len() == m,
            forall|q: int| 0 <= q < m ==> bytes@[q] == packed_byte(s, q) as u8,
        decreases count - m,
    {
        let ghost w = padded_window(s, 8 * m, 8);
        proof {
            lemma2_to64();
        }
        let mut byte: u8 = 0;
        let mut j: usize = 0;
        while j < 8
            invariant
                start <= end <= bits@.len(),
                bits@.len() <= max_bits(),
                s == bits@.subrange(start as int, end as int),
                n == end - start,
                m < count,
                count == (n + 7) / 8,
                base == start + 8 * m,
                w == padded_window(s, 8 * m, 8),
                j <= 8,
                byte as nat == bits_value(w.take(j as int)),
                byte as nat <= pow2(j as nat) - 1,
            decreases 8 - j,
        {
            let pos: usize = base + j;
            let bit: bool = pos < end && bits.get(pos);
            assert(bit == w[j as int]);
            proof {
                lemma2_to64();
                if j < 7 {
                    lemma_pow2_strictly_increases(j as nat, 7);
                }
                lemma_pow2_unfold((j + 1) as nat);
            }
            byte = byte * 2 + if bit { 1 } else { 0 };
            j += 1;
            assert(w.take(j as int).drop_last() =~= w.take(j - 1));
        }
        proof {
            lemma2_to64();
        }
        assert(w.take(8) =~= w);
        bytes.push(byte);
        m += 1;
        base += 8;
    }
    assert(bytes@ =~= packed_bytes(s));
    bytes
}

/// Packs `bits` into bytes, 8 bits per byte, most significant first; where the length is not
/// a multiple of 8, the unused low bits of the last byte are zero.
pub fn bits_to_bytes(bits: &BitVector) -> (r: Vec<u8>)
    ensures
        r@ == packed_bytes(bits@),
{
    let n = bits.len();
    assert(bits@.subrange(0, n as int) =~= bits@);
    pack_bits(bits, 0, n)
}

/// Splits `bits` into chunks of `chunk_size` bits, in order; the last chunk is padded with
/// zero bits. A chunk size of zero is refused.
pub fn split_bits(bits: &BitVector, chunk_size: usize) -> (r: Result<Vec<BitVector>>)
    requires
        bits@.len() > 0 ==> chunk_size <= max_bits(),
    ensures
        r is Ok <==> chunk_size > 0,
        r matches Err(e) ==> e.is_invalid_parameters(),
        r matches Ok(chunks) ==> {
            &&& chunks@.len() == chunk_count(bits@.len(), chunk_size as nat)
            &&& forall|c: int|
                0 <= c < chunks@.len() ==> #[trigger] chunks@[c]@ == padded_window(
                    bits@,
                    c * chunk_size,
                    chunk_size as nat,
                )
        },
{
    if chunk_size == 0 {
        return Err(HideError::InvalidParameters("chunk size cannot be zero".to_string()));
    }
    let n = bits.len();
    let mut chunks: Vec<BitVector> = Vec::new();
    let mut i: usize = 0;
    assert(chunks@.len() * chunk_size == 0) by (nonlinear_arith)
        requires
            chunks@.len() == 0,
    ;
    while i < n
        invariant
            n == bits@.len(),
            n <= max_bits(),
            chunk_size > 0,
            n > 0 ==> chunk_size <= max_bits(),
            i == chunks@.len() * chunk_size,
            i < n + chunk_size,
            chunks@.len() > 0 ==> chunk_size <= i,
            forall|c: int|
                0 <= c < chunks@.len() ==> #[trigger] chunks@[c]@ == padded_window(
                    bits@,
                    c * chunk_size,
                    chunk_size as nat,
                ),
        decreases n + chunk_size - i,
    {
        let end: usize = if i + chunk_size < n { i + chunk_size } else { n };
        let mut chunk = BitVector::new();
        let mut j: usize = i;
        while j < end
            invariant
                i <= j <= end <= n,
                n == bits@.len(),
                n <= max_bits(),
                chunk@ == bits@.subrange(i as int, j as int),
            decreases end - j,
        {
            chunk.push(bits.get(j));
            j += 1;
            assert(chunk@ =~= bits@.subrange(i as int, j as int));
        }
        if chunk.len() < chunk_size {
            chunk.resize(chunk_size, false);
        }
        assert(chunk@ =~= padded_window(bits@, i as int, chunk_size as nat));
        let ghost c = chunks@.len();
        chunks.push(chunk);
        proof {
            assert((c + 1) * chunk_size == c * chunk_size + chunk_size) by (nonlinear_arith);
        }
        i += chunk_size;
    }
    let ghost c = chunks@.len() as int;
    proof {
        let x = n + chunk_size - 1;
        lemma_fundamental_div_mod_converse(x as int, chunk_size as int, c, x - c * chunk_size);
    }
    Ok(chunks)
}

/// Concatenates `chunks` in order; where `total_bits` is given and the concatenation is longer,
/// keeps only its first `total_bits` bits.
pub fn join_bits(chunks: &[BitVector], total_bits: Option<usize>) -> (r: BitVector)
    requires
        joined(chunks@).len() <= max_bits(),
    ensures
        r@ == (match total_bits {
            Some(t) if t < joined(chunks@).len() => joined(chunks@).take(t as int),
            _ => joined(chunks@),
        }),
{
    let mut result = BitVector::new();
    let mut k: usize = 0;
    while k < chunks.len()
        invariant
            k <= chunks@.len(),
            joined(chunks@).len() <= max_bits(),
            result@ == joined(chunks@.take(k as int)),
        decreases chunks@.len() - k,
    {
        proof {
            lemma_joined_prefix_len(chunks@, k as int + 1);
        }
        assert(chunks@.take(k + 1).drop_last() =~= chunks@.take(k as int));
        result.extend_from(&chunks[k]);
        k += 1;
    }
    assert(chunks@.take(chunks@.len() as int) =~= chunks@);
    if let Some(len) = total_bits {
        if result.len() > len {
            result.truncate(len);
        }
    }
    result
}

proof fn lemma_joined_prefix_len(chunks: Seq<BitVector>, k: int)
    requires
        0 <= k <= chunks.len(),
    ensures
        joined(chunks.take(k)).len() <= joined(chunks).len(),
    decreases chunks.len(),
{
    if k < chunks.len() {
        let init = chunks.drop_last();
        assert(chunks.take(k) =~= init.take(k));
        lemma_joined_prefix_len(init, k);
    } else {
        assert(chunks.take(k) =~= chunks);
    }
}

} // verus!
