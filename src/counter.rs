use vstd::prelude::*;

verus! {

/// The largest value the accumulator can hold.
pub const COUNTER_MAX: u64 = 0xffff_ffff_ffff_ffff;

/// Adding a delta to the accumulator: the sum, held at `COUNTER_MAX` if it
/// would not fit.
pub open spec fn add_delta(total: nat, delta: nat) -> nat {
    if total + delta > COUNTER_MAX as nat {
        COUNTER_MAX as nat
    } else {
        total + delta
    }
}

/// The grow-only counter of one replica.
pub struct GCounter {
    pub value: u64,
}

impl GCounter {
    pub fn new() -> (r: GCounter)
        ensures
            r.value == 0,
    {
        GCounter { value: 0 }
    }

    /// Applies one delta, local or replicated.
    pub fn add(&mut self, delta: u64)
        ensures
            final(self).value as nat == add_delta(old(self).value as nat, delta as nat),
    {
        self.value = self.value.saturating_add(delta);
    }
}

} // verus!
