//! How much of a block an operation takes.

use vstd::prelude::*;

verus! {

/// The time and the proof size that an operation takes.
#[derive(Clone, Copy, Debug, PartialEq, Eq)]
pub struct Weight {
    /// The computation time, on reference hardware.
    pub ref_time: u64,
    /// The size of the storage proof.
    pub proof_size: u64,
}

impl Weight {
    /// No time and no proof.
    pub fn zero() -> (r: Weight)
        ensures
            r == (Weight { ref_time: 0, proof_size: 0 }),
    {
        Weight { ref_time: 0, proof_size: 0 }
    }
}

/// What has been used of a limit.
#[derive(Clone, Copy, Debug, PartialEq, Eq)]
pub struct WeightMeter {
    /// What has been used.
    pub consumed: Weight,
    /// What may be used.
    pub limit: Weight,
}

impl WeightMeter {
    /// A meter that nothing practical exhausts.
    pub fn new() -> (r: WeightMeter)
        ensures
            r.consumed == (Weight { ref_time: 0, proof_size: 0 }),
            r.limit == (Weight { ref_time: u64::MAX, proof_size: u64::MAX }),
    {
        WeightMeter::with_limit(Weight { ref_time: u64::MAX, proof_size: u64::MAX })
    }

    /// A meter of which nothing has been used.
    pub fn with_limit(limit: Weight) -> (r: WeightMeter)
        ensures
            r.consumed == (Weight { ref_time: 0, proof_size: 0 }),
            r.limit == limit,
    {
        WeightMeter { consumed: Weight::zero(), limit }
    }

    /// Whether `w` is still left, in time and in proof size.
    pub open spec fn has(self, w: Weight) -> bool {
        &&& self.consumed.ref_time + w.ref_time <= self.limit.ref_time
        &&& self.consumed.proof_size + w.proof_size <= self.limit.proof_size
    }

    /// The meter once `w` has been used too.
    pub open spec fn after(self, w: Weight) -> WeightMeter {
        WeightMeter {
            consumed: Weight {
                ref_time: (self.consumed.ref_time + w.ref_time) as u64,
                proof_size: (self.consumed.proof_size + w.proof_size) as u64,
            },
            limit: self.limit,
        }
    }

    /// Whether `w` is still left, in time and in proof size.
    pub fn can_consume(&self, w: Weight) -> (r: bool)
        ensures
            r == self.has(w),
    {
        w.ref_time <= self.limit.ref_time && w.proof_size <= self.limit.proof_size
            && self.consumed.ref_time <= self.limit.ref_time - w.ref_time
            && self.consumed.proof_size <= self.limit.proof_size - w.proof_size
    }

    /// Uses `w`, which must be left.
    pub fn consume(&mut self, w: Weight)
        requires
            old(self).has(w),
        ensures
            *final(self) == old(self).after(w),
    {
        self.consumed = Weight {
            ref_time: self.consumed.ref_time + w.ref_time,
            proof_size: self.consumed.proof_size + w.proof_size,
        };
    }
}

/// A meter has room for a weight if and only if neither its time nor its proof
/// size would exceed the limit, and what is used is added to what was used.
pub proof fn law_meters_keep_to_their_limit(meter: WeightMeter, w: Weight)
    ensures
        meter.has(w) <==> {
            &&& meter.consumed.ref_time + w.ref_time <= meter.limit.ref_time
            &&& meter.consumed.proof_size + w.proof_size <= meter.limit.proof_size
        },
        meter.has(w) ==> {
            let after = meter.after(w);
            &&& after.limit == meter.limit
            &&& after.consumed.ref_time == meter.consumed.ref_time + w.ref_time
            &&& after.consumed.proof_size == meter.consumed.proof_size + w.proof_size
        },
{
}

} // verus!
