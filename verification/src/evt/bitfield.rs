//! Fixed-position bit fields of an encoded word.
//!
//! Every field of an event word is described by its least significant bit and
//! its width; a field is read by shifting the word right and masking. A
//! description is accepted only when the field lies inside a word of one of
//! the supported widths.

use vstd::prelude::*;

use crate::text::bytes_equal;

verus! {

/// A field of `width` bits starting at bit `lsb` lies inside a word of
/// `word_bits` bits (the layout rule every event word description obeys).
pub open spec fn field_fits(lsb: u32, width: u32, word_bits: u32) -> bool {
    &&& 0 < width
    &&& lsb < word_bits
    &&& width <= word_bits
    &&& lsb + width <= word_bits
}

/// The mask of the `width` low bits.
pub open spec fn field_mask(width: u32) -> u64 {
    if width == 64 {
        0xFFFF_FFFF_FFFF_FFFFu64
    } else {
        !(0xFFFF_FFFF_FFFF_FFFFu64 << width)
    }
}

/// The value of the field of `width` bits at `lsb` in `word`.
pub open spec fn spec_field(word: u64, lsb: u32, width: u32) -> u64 {
    (word >> lsb) & field_mask(width)
}

/// A field never exceeds the mask of its width.
pub proof fn lemma_field_bound(word: u64, lsb: u32, width: u32)
    ensures
        spec_field(word, lsb, width) <= field_mask(width),
{
    let m = field_mask(width);
    let s = word >> lsb;
    assert(s & m <= m) by (bit_vector);
}

/// The masks of the widths that event words use.
pub proof fn lemma_field_masks()
    ensures
        field_mask(1) == 0x1,
        field_mask(4) == 0xF,
        field_mask(5) == 0x1F,
        field_mask(6) == 0x3F,
        field_mask(11) == 0x7FF,
        field_mask(16) == 0xFFFF,
        field_mask(28) == 0x0FFF_FFFF,
{
    assert(!(0xFFFF_FFFF_FFFF_FFFFu64 << 1u32) == 0x1u64) by (bit_vector);
    assert(!(0xFFFF_FFFF_FFFF_FFFFu64 << 4u32) == 0xFu64) by (bit_vector);
    assert(!(0xFFFF_FFFF_FFFF_FFFFu64 << 5u32) == 0x1Fu64) by (bit_vector);
    assert(!(0xFFFF_FFFF_FFFF_FFFFu64 << 6u32) == 0x3Fu64) by (bit_vector);
    assert(!(0xFFFF_FFFF_FFFF_FFFFu64 << 11u32) == 0x7FFu64) by (bit_vector);
    assert(!(0xFFFF_FFFF_FFFF_FFFFu64 << 16u32) == 0xFFFFu64) by (bit_vector);
    assert(!(0xFFFF_FFFF_FFFF_FFFFu64 << 28u32) == 0x0FFF_FFFFu64) by (bit_vector);
}

/// Reads the field of `width` bits at `lsb` from `word`.
pub fn extract_field(word: u64, lsb: u32, width: u32) -> (r: u64)
    requires
        field_fits(lsb, width, 64),
    ensures
        r == spec_field(word, lsb, width),
        r <= field_mask(width),
{
    let mask: u64 = if width == 64 {
        u64::MAX
    } else {
        assert(1u64 << width >= 1 && (1u64 << width) - 1 == !(0xFFFF_FFFF_FFFF_FFFFu64 << width))
            by (bit_vector)
            requires
                width < 64,
        ;
        (1u64 << width) - 1
    };
    let r = (word >> lsb) & mask;
    proof {
        lemma_field_bound(word, lsb, width);
    }
    r
}

/// The width in bits of the word type named `name`: `u16`, `u32` or `u64`.
pub open spec fn spec_word_type_bits(name: Seq<u8>) -> Option<u32> {
    if name == seq![0x75u8, 0x31, 0x36] {
        Some(16)
    } else if name == seq![0x75u8, 0x33, 0x32] {
        Some(32)
    } else if name == seq![0x75u8, 0x36, 0x34] {
        Some(64)
    } else {
        None
    }
}

/// The width in bits of the word type named `name`, if it is a supported one.
pub fn word_type_bits(name: &[u8]) -> (r: Option<u32>)
    ensures
        r == spec_word_type_bits(name@),
{
    let u16_name: [u8; 3] = [0x75, 0x31, 0x36]; // "u16"
    assert(u16_name@ =~= seq![0x75u8, 0x31, 0x36]);
    let u32_name: [u8; 3] = [0x75, 0x33, 0x32]; // "u32"
    assert(u32_name@ =~= seq![0x75u8, 0x33, 0x32]);
    let u64_name: [u8; 3] = [0x75, 0x36, 0x34]; // "u64"
    assert(u64_name@ =~= seq![0x75u8, 0x36, 0x34]);
    if bytes_equal(name, &u16_name) {
        Some(16)
    } else if bytes_equal(name, &u32_name) {
        Some(32)
    } else if bytes_equal(name, &u64_name) {
        Some(64)
    } else {
        None
    }
}

/// Why a field description was refused.
#[derive(Debug, Clone, Copy, PartialEq, Eq, Structural)]
pub enum LayoutError {
    /// The description gives no least significant bit.
    MissingLsb,
    /// The description gives no width.
    MissingWidth,
    /// The field does not lie inside the word.
    OutOfRange,
}

/// The verdict on a field description for a word of `word_bits` bits: the
/// least significant bit is looked at first, then the width, then whether
/// the field lies inside the word.
pub open spec fn spec_check_layout(lsb: Option<u32>, width: Option<u32>, word_bits: u32) -> Result<
    (u32, u32),
    LayoutError,
> {
    match (lsb, width) {
        (None, _) => Err(LayoutError::MissingLsb),
        (Some(_), None) => Err(LayoutError::MissingWidth),
        (Some(l), Some(w)) => if field_fits(l, w, word_bits) {
            Ok((l, w))
        } else {
            Err(LayoutError::OutOfRange)
        },
    }
}

/// Checks a field description against a word of `word_bits` bits: both
/// parts must be given, and the field must lie inside the word.
pub fn check_layout(lsb: Option<u32>, width: Option<u32>, word_bits: u32) -> (r: Result<
    (u32, u32),
    LayoutError,
>)
    ensures
        r == spec_check_layout(lsb, width, word_bits),
{
    let lsb = match lsb {
        Some(l) => l,
        None => return Err(LayoutError::MissingLsb),
    };
    let width = match width {
        Some(w) => w,
        None => return Err(LayoutError::MissingWidth),
    };
    if width == 0 || lsb >= word_bits || width > word_bits || width > word_bits - lsb {
        return Err(LayoutError::OutOfRange);
    }
    Ok((lsb, width))
}

} // verus!
