//! Big-endian conversions between bytes and words, and the bit counter.
use vstd::prelude::*;
use crate::spec::{be_word, be_words, hex_digit, hex_string, word_be_bytes};
use vstd::string::{StrSliceExecFns, StringExecFns};

verus! {

/// Write `input` in big-endian format into the four bytes of `dst` that start at `offset`.
pub fn write_u32_be(dst: &mut [u8], offset: usize, input: u32)
    requires
        offset + 4 <= old(dst)@.len(),
    ensures
        final(dst)@ == old(dst)@.take(offset as int) + word_be_bytes(input) + old(dst)@.skip(
            offset + 4,
        ),
{
    let b0: u8 = (input >> 24) as u8;
    let b1: u8 = (input >> 16) as u8;
    let b2: u8 = (input >> 8) as u8;
    let b3: u8 = input as u8;
    assert(b0 == input / 0x100_0000 && b1 == (input / 0x1_0000) % 0x100 && b2 == (input / 0x100)
        % 0x100 && b3 == input % 0x100) by (bit_vector)
        requires
            b0 == (input >> 24) as u8,
            b1 == (input >> 16) as u8,
            b2 == (input >> 8) as u8,
            b3 == input as u8,
    ;
    dst[offset] = b0;
    dst[offset + 1] = b1;
    dst[offset + 2] = b2;
    dst[offset + 3] = b3;
    assert(dst@ =~= old(dst)@.take(offset as int) + word_be_bytes(input) + old(dst)@.skip(
        offset + 4,
    ));
}

/// Read the first four bytes of `input` as a u32 value in big-endian format.
pub fn read_u32_be(input: &[u8]) -> (r: u32)
    requires
        input@.len() >= 4,
    ensures
        r == be_word(input@, 0),
{
    let b0: u8 = input[0];
    let b1: u8 = input[1];
    let b2: u8 = input[2];
    let b3: u8 = input[3];
    let word: u32 = (b0 as u32) << 24 | (b1 as u32) << 16 | (b2 as u32) << 8 | (b3 as u32);
    assert(word == b0 as u32 * 0x100_0000 + b1 as u32 * 0x1_0000 + b2 as u32 * 0x100 + b3 as u32)
        by (bit_vector)
        requires
            word == (b0 as u32) << 24 | (b1 as u32) << 16 | (b2 as u32) << 8 | (b3 as u32),
    ;
    word
}

/// Read a vector of bytes into a vector of u32s. The values are read in big-endian format:
/// the `i`-th group of four bytes gives `dst[i]`; the rest of `dst` is left as it was.
pub fn read_u32v_be(dst: &mut [u32], input: &[u8])
    requires
        input@.len() % 4 == 0,
        input@.len() / 4 <= old(dst)@.len(),
    ensures
        final(dst)@ == be_words(input@) + old(dst)@.skip((input@.len() / 4) as int),
{
    let mut pos: usize = 0;
    let mut start: usize = 0;
    while start < input.len()
        invariant
            input@.len() % 4 == 0,
            input@.len() / 4 <= old(dst)@.len(),
            start == 4 * pos,
            start <= input@.len(),
            dst@.len() == old(dst)@.len(),
            forall|i: int| 0 <= i < pos ==> dst@[i] == #[trigger] be_word(input@, 4 * i),
            forall|i: int| pos <= i < dst@.len() ==> dst@[i] == old(dst)@[i],
        decreases input@.len() - start,
    {
        let chunk = vstd::slice::slice_subrange(input, start, start + 4);
        let word: u32 = read_u32_be(chunk);
        assert(be_word(chunk@, 0) == be_word(input@, 4 * pos));
        dst[pos] = word;
        pos += 1;
        start += 4;
    }
    assert(dst@ =~= be_words(input@) + old(dst)@.skip((input@.len() / 4) as int));
}

/// The conversion of a count of bytes into a count of bits.
pub trait ToBits: Sized {
    /// Convert the value in bytes to the number of bits, a tuple where the 1st item is the
    /// high-order value and the 2nd item is the low order value.
    fn to_bits(self) -> (Self, Self);
}

impl ToBits for u64 {
    /// The bit count of `self` bytes, split into its high and low 64-bit halves.
    fn to_bits(self) -> (r: (u64, u64))
        ensures
            r.0 < 8,
            r.0 as int * 0x1_0000_0000_0000_0000 + r.1 as int == 8 * self,
    {
        let high: u64 = self >> 61;
        let low: u64 = self << 3;
        assert(high < 8 && high as int * 0x1_0000_0000_0000_0000 + low as int == 8 * self)
            by (bit_vector)
            requires
                high == self >> 61,
                low == self << 3,
        ;
        (high, low)
    }
}

/// Adds the specified number of bytes to the bit count. The sum must not overflow a `u64`.
pub fn add_bytes_to_bits(bits: u64, bytes: u64) -> (r: u64)
    requires
        bits + 8 * bytes <= u64::MAX,
    ensures
        r == bits + 8 * bytes,
{
    let (_new_high_bits, new_low_bits) = bytes.to_bits();
    bits + new_low_bits
}

/// An array of 64 zero words.
pub(crate) fn zero_words() -> (r: [u32; 64])
    ensures
        r@ == Seq::new(64, |i: int| 0u32),
{
    let words: [u32; 64] = [0; 64];
    proof {
        vstd::array::axiom_spec_array_fill_for_copy_type::<u32, 64>(0u32);
    }
    assert(words@ =~= Seq::new(64, |i: int| 0u32));
    words
}

/// The bytes in lower-case hexadecimal, two digits per byte.
pub fn to_hex(bytes: &[u8]) -> (r: String)
    ensures
        r@ == hex_string(bytes@),
{
    let digits: &str = "0123456789abcdef";
    proof {
        reveal_strlit("0123456789abcdef");
    }
    assert(digits.is_ascii());
    assert(forall|k: u8| k < 16 ==> #[trigger] hex_digit(k) == digits@[k as int]);
    let mut hex = String::new();
    let mut i: usize = 0;
    while i < bytes.len()
        invariant
            i <= bytes@.len(),
            digits.is_ascii(),
            digits@.len() == 16,
            forall|k: u8| k < 16 ==> #[trigger] hex_digit(k) == digits@[k as int],
            hex@ == hex_string(bytes@.take(i as int)),
        decreases bytes@.len() - i,
    {
        let b: u8 = bytes[i];
        let high: usize = (b / 16) as usize;
        let low: usize = (b % 16) as usize;
        hex.append(digits.substring_ascii(high, high + 1));
        hex.append(digits.substring_ascii(low, low + 1));
        assert(hex_digit(b / 16) == digits@[high as int]);
        assert(hex_digit(b % 16) == digits@[low as int]);
        assert(hex@ =~= hex_string(bytes@.take(i + 1)));
        i += 1;
    }
    assert(bytes@.take(bytes@.len() as int) =~= bytes@);
    hex
}

} // verus!


