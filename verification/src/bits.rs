//! Setting and reading runs of bits in a word.

use vstd::prelude::*;
use bit_field::BitField;
use x86_64::PrivilegeLevel;
use x86_64::registers::segmentation::SegmentSelector;
use x86_64::structures::tss::TaskStateSegment;

verus! {

/// The bits `start..end` of a 64-bit word.
pub open spec fn spec_mask_u64(start: usize, end: usize) -> u64 {
    ((0xffff_ffff_ffff_ffffu64 >> ((64 - end) as u64)) >> (start as u64)) << (start as u64)
}

/// The bits `start..end` of a 16-bit word.
pub open spec fn spec_mask_u16(start: usize, end: usize) -> u16 {
    ((0xffffu16 >> ((16 - end) as u16)) >> (start as u16)) << (start as u16)
}

/// Whether `value` has no bit set beyond its `len` lowest.
pub open spec fn fits_u64(value: u64, len: usize) -> bool {
    (value << ((64 - len) as u64)) >> ((64 - len) as u64) == value
}

pub open spec fn fits_u16(value: u16, len: usize) -> bool {
    (value << ((16 - len) as u16)) >> ((16 - len) as u16) == value
}

/// `bit_field::BitField::set_bits` on a `u64`: the bits `start..end` of
/// `bits` are replaced by the lowest bits of `value`, the others stay. The
/// crate panics where the range does not lie in the word or `value` does not
/// fit in it.
#[verifier::external_body]
pub(crate) fn set_bits_u64(bits: u64, start: usize, end: usize, value: u64) -> (r: u64)
    requires
        start < 64,
        end <= 64,
        start <= end,
        start == end ==> value == 0,
        start < end ==> fits_u64(value, (end - start) as usize),
    ensures
        start == end ==> r == bits,
        start < end ==> r == (bits & !spec_mask_u64(start, end)) | (value << (start as u64)),
{
    let mut b = bits;
    b.set_bits(start..end, value);
    b
}

/// `bit_field::BitField::set_bit` on a `u64`: bit `bit` of `bits` is set or
/// cleared, the others stay. The crate panics where `bit` is not below 64.
#[verifier::external_body]
pub(crate) fn set_bit_u64(bits: u64, bit: usize, value: bool) -> (r: u64)
    requires
        bit < 64,
    ensures
        value ==> r == bits | (1u64 << (bit as u64)),
        !value ==> r == bits & !(1u64 << (bit as u64)),
{
    let mut b = bits;
    b.set_bit(bit, value);
    b
}

/// `bit_field::BitField::get_bits` on a `u64`: the bits `start..end` of
/// `bits`, moved down to bit 0. The crate panics where the range does not
/// lie in the word.
#[verifier::external_body]
pub(crate) fn get_bits_u64(bits: u64, start: usize, end: usize) -> (r: u64)
    requires
        start < 64,
        end <= 64,
        start <= end,
    ensures
        start == end ==> r == 0,
        start < end ==> r == ((bits << ((64 - end) as u64)) >> ((64 - end) as u64)) >> (start as u64),
{
    bits.get_bits(start..end)
}

/// `bit_field::BitField::set_bits` on a `u16`.
#[verifier::external_body]
pub(crate) fn set_bits_u16(bits: u16, start: usize, end: usize, value: u16) -> (r: u16)
    requires
        start < 16,
        end <= 16,
        start <= end,
        start == end ==> value == 0,
        start < end ==> fits_u16(value, (end - start) as usize),
    ensures
        start == end ==> r == bits,
        start < end ==> r == (bits & !spec_mask_u16(start, end)) | (value << (start as u16)),
{
    let mut b = bits;
    b.set_bits(start..end, value);
    b
}

/// `bit_field::BitField::set_bit` on a `u16`.
#[verifier::external_body]
pub(crate) fn set_bit_u16(bits: u16, bit: usize, value: bool) -> (r: u16)
    requires
        bit < 16,
    ensures
        value ==> r == bits | (1u16 << (bit as u16)),
        !value ==> r == bits & !(1u16 << (bit as u16)),
{
    let mut b = bits;
    b.set_bit(bit, value);
    b
}

/// `x86_64::registers::segmentation::SegmentSelector::new` with
/// `PrivilegeLevel::Ring0`: the index moved up by three bits, the three low
/// bits 0.
#[verifier::external_body]
pub(crate) fn ring0_selector(index: u16) -> (r: u16)
    ensures
        r == index << 3u16,
{
    SegmentSelector::new(index, PrivilegeLevel::Ring0).0
}

/// `core::mem::size_of` of `x86_64::structures::tss::TaskStateSegment`: the
/// 104 bytes of the task state segment in 64-bit mode.
#[verifier::external_body]
pub(crate) fn tss_size() -> (r: u64)
    ensures
        r == 104,
{
    core::mem::size_of::<TaskStateSegment>() as u64
}

} // verus!
