//! The identities and records that markets and their users share.

use crate::core_mask::{CoreMask, CoreMaskBitCount, LOW_LIMIT, MASK_LIMIT};
use vstd::arithmetic::div_mod;
use vstd::prelude::*;

verus! {

/// Index of a core.
pub type CoreIndex = u16;

/// A task that a core can work for.
pub type TaskId = u32;

/// A number of relay-chain blocks divided by the length of a timeslice.
pub type Timeslice = u32;

/// A fraction, as its numerator over 57,600.
pub type PartsOf57600 = u16;

/// An element to which a core can be assigned.
#[derive(Clone, Copy, Debug, PartialEq, Eq, PartialOrd, Ord)]
pub enum CoreAssignment {
    /// The core need not be used for anything.
    Idle,
    /// The core should be used for the instantaneous coretime pool.
    Pool,
    /// The core should be used to process the given task.
    Task(TaskId),
}

/// Self-describing identity of a region of bulk coretime.
#[derive(Clone, Copy, Debug, PartialEq, Eq)]
pub struct RegionId {
    /// The timeslice at which the region begins.
    pub begin: Timeslice,
    /// The core on which the region is scheduled.
    pub core: CoreIndex,
    /// The parts of each timeslice in which the region is scheduled.
    pub mask: CoreMask,
}

/// The numbers below this one are those of ninety-six bits.
pub const REGION_LIMIT: u128 = 0x1_0000_0000_0000_0000_0000_0000;

/// The region that a number stands for: its top 32 bits are the begin, the
/// next 16 the core and the other 80 the mask.
pub open spec fn region_of(x: u128) -> RegionId {
    RegionId {
        begin: (x / REGION_LIMIT) as u32,
        core: (x / MASK_LIMIT % 0x1_0000) as u16,
        mask: crate::core_mask::low_bits(x),
    }
}

/// The number that stands for a region.
pub open spec fn number_of(region: RegionId) -> u128 {
    (region.begin * REGION_LIMIT + region.core * MASK_LIMIT + region.mask.value()) as u128
}

impl From<u128> for RegionId {
    fn from(x: u128) -> (r: RegionId) {
        RegionId {
            begin: (x / REGION_LIMIT) as u32,
            core: (x / MASK_LIMIT % 0x1_0000) as u16,
            mask: CoreMask::from(x),
        }
    }
}

impl vstd::std_specs::convert::FromSpecImpl<u128> for RegionId {
    open spec fn obeys_from_spec() -> bool {
        true
    }

    open spec fn from_spec(x: u128) -> RegionId {
        region_of(x)
    }
}

impl From<RegionId> for u128 {
    fn from(x: RegionId) -> (r: u128) {
        x.begin as u128 * REGION_LIMIT + x.core as u128 * MASK_LIMIT + u128::from(x.mask)
    }
}

impl vstd::std_specs::convert::FromSpecImpl<RegionId> for u128 {
    open spec fn obeys_from_spec() -> bool {
        true
    }

    open spec fn from_spec(x: RegionId) -> u128 {
        number_of(x)
    }
}

/// A region is found again from the number that stands for it.
pub proof fn law_region_round_trip(region: RegionId)
    ensures
        region_of(number_of(region)) == region,
{
    let n = number_of(region) as int;
    let above_mask = region.begin * 0x1_0000 + region.core;
    let above_low = above_mask * 0x1_0000 + region.mask.high;
    div_mod::lemma_fundamental_div_mod_converse(
        n,
        REGION_LIMIT as int,
        region.begin as int,
        region.core * MASK_LIMIT + region.mask.value(),
    );
    div_mod::lemma_fundamental_div_mod_converse(n, MASK_LIMIT as int, above_mask, region.mask.value());
    div_mod::lemma_fundamental_div_mod_converse(n, LOW_LIMIT as int, above_low, region.mask.low as int);
}

/// A number is found again from the region that it stands for.
pub proof fn law_number_round_trip(x: u128)
    ensures
        number_of(region_of(x)) == x,
{
    crate::core_mask::law_low_bits(x);
}

/// The identity of a core workload that may be renewed.
#[derive(Clone, Copy, Debug, PartialEq, Eq)]
pub struct PotentialRenewalId {
    /// The core whose workload at the sale ending with `when` may be renewed to begin at `when`.
    pub core: CoreIndex,
    /// The time at which the workload on `core` ends and a fresh renewal may begin.
    pub when: Timeslice,
}

/// General status of the system.
#[derive(Clone, Copy, Debug, PartialEq, Eq)]
pub struct StatusRecord {
    /// The number of cores which can be assigned.
    pub core_count: CoreIndex,
    /// The size of the instantaneous coretime pool, in bits of a core mask.
    pub private_pool_size: CoreMaskBitCount,
    /// The part of the instantaneous coretime pool that the system itself provides.
    pub system_pool_size: CoreMaskBitCount,
    /// The last timeslice which was committed to the relay-chain.
    pub last_committed_timeslice: Timeslice,
    /// The timeslice of the last tick.
    pub last_timeslice: Timeslice,
}

/// The number of a region has its begin in the top 32 bits, its core in the next
/// 16 and its mask in the other 80.
pub proof fn law_region_numbers_are_packed(region: RegionId)
    ensures
        number_of(region) == region.begin * 0x1_0000_0000_0000_0000_0000_0000 + region.core
            * 0x1_0000_0000_0000_0000_0000 + region.mask.high * 0x1_0000_0000_0000_0000
            + region.mask.low,
{
}

} // verus!
