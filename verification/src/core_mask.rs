//! The parts of a timeslice in which a core is used.

use vstd::prelude::*;

verus! {

/// A count of the bits of a [`CoreMask`].
pub type CoreMaskBitCount = u32;

/// The numbers below this one are those of eighty bits.
pub const MASK_LIMIT: u128 = 0x1_0000_0000_0000_0000_0000;

/// The numbers below this one are those of sixty-four bits.
pub const LOW_LIMIT: u128 = 0x1_0000_0000_0000_0000;

/// Eighty bits, one for each part of a timeslice.
#[derive(Clone, Copy, Debug, PartialEq, Eq)]
pub struct CoreMask {
    /// The sixteen most significant bits.
    pub high: u16,
    /// The other sixty-four bits.
    pub low: u64,
}

impl CoreMask {
    /// The mask as a number of eighty bits.
    pub open spec fn value(self) -> int {
        self.high * LOW_LIMIT + self.low
    }

    /// The mask with every bit set.
    pub open spec fn all() -> CoreMask {
        CoreMask { high: u16::MAX, low: u64::MAX }
    }

    /// The mask with every bit set.
    pub fn complete() -> (r: CoreMask)
        ensures
            r == CoreMask::all(),
            r.value() == MASK_LIMIT - 1,
    {
        CoreMask { high: u16::MAX, low: u64::MAX }
    }
}

/// Masks that stand for the same number are the same.
pub proof fn law_mask_is_its_value(a: CoreMask, b: CoreMask)
    requires
        a.value() == b.value(),
    ensures
        a == b,
{
}

/// The mask made of the low eighty bits of a number.
pub open spec fn low_bits(x: u128) -> CoreMask {
    CoreMask { high: (x / LOW_LIMIT % 0x1_0000) as u16, low: (x % LOW_LIMIT) as u64 }
}

/// The mask made of the low eighty bits stands for the remainder by the limit of eighty bits.
pub proof fn law_low_bits(x: u128)
    ensures
        low_bits(x).value() == x % MASK_LIMIT,
{
}

impl From<u128> for CoreMask {
    /// The low eighty bits of `x`.
    fn from(x: u128) -> (r: CoreMask) {
        CoreMask { high: (x / LOW_LIMIT % 0x1_0000) as u16, low: (x % LOW_LIMIT) as u64 }
    }
}

impl vstd::std_specs::convert::FromSpecImpl<u128> for CoreMask {
    open spec fn obeys_from_spec() -> bool {
        true
    }

    open spec fn from_spec(x: u128) -> CoreMask {
        low_bits(x)
    }
}

impl From<CoreMask> for u128 {
    /// The mask as a number.
    fn from(x: CoreMask) -> (r: u128) {
        x.high as u128 * LOW_LIMIT + x.low as u128
    }
}

impl vstd::std_specs::convert::FromSpecImpl<CoreMask> for u128 {
    open spec fn obeys_from_spec() -> bool {
        true
    }

    open spec fn from_spec(x: CoreMask) -> u128 {
        x.value() as u128
    }
}

/// The sixteen high bits of a mask count 2^64 times as much as the low ones, and
/// the mask with every bit set stands for the largest number of eighty bits.
pub proof fn law_masks_are_numbers_of_eighty_bits(mask: CoreMask, x: u128)
    ensures
        mask.value() == mask.high * 0x1_0000_0000_0000_0000 + mask.low,
        CoreMask::all().value() == 0xffff_ffff_ffff_ffff_ffff,
        low_bits(x).high * 0x1_0000_0000_0000_0000 + low_bits(x).low == x
            % 0x1_0000_0000_0000_0000_0000,
{
}

} // verus!
