//! Memory in use.

use crate::metrics::{bytes_to_gib, gib_hundredths, lemma_gib_order, sat_sub};
use vstd::prelude::*;

verus! {

/// Memory of the machine in bytes.
#[derive(Clone, Copy)]
pub struct MemUsage {
    pub total: u64,
    pub used: u64,
    pub free: u64,
}

/// Derives memory in use from the total and from what could be handed out
/// without swapping.
pub fn collect(total: u64, available: u64) -> (r: MemUsage)
    ensures
        r.total == total,
        r.used == sat_sub(total as nat, available as nat),
        r.free == available,
        available <= total ==> r.used + r.free == r.total,
{
    MemUsage { total, used: total.saturating_sub(available), free: available }
}

/// Memory as it is shown, in hundredths of a GiB.
#[derive(Clone, Copy)]
pub struct MemShown {
    pub total: u64,
    pub used: u64,
    pub free: u64,
}

impl MemUsage {
    /// Whether used and free memory make up the total.
    pub open spec fn adds_up(self) -> bool {
        self.used + self.free == self.total
    }

    /// Memory as it is shown. Total and used memory are rounded; free memory is
    /// what remains, so that the figures add up as the bytes do.
    pub fn shown(&self) -> (r: MemShown)
        ensures
            r.total == gib_hundredths(self.total as nat),
            r.used == gib_hundredths(self.used as nat),
            self.adds_up() ==> r.used + r.free == r.total,
            !self.adds_up() ==> r.free == gib_hundredths(self.free as nat),
    {
        let total: u64 = bytes_to_gib(self.total);
        let used: u64 = bytes_to_gib(self.used);
        let free: u64 = if self.used <= self.total && self.total - self.used == self.free {
            proof {
                lemma_gib_order(self.used as nat, self.total as nat);
            }
            total - used
        } else {
            bytes_to_gib(self.free)
        };
        MemShown { total, used, free }
    }
}

/// The free memory shown is off by at most a hundredth of a GiB from its own
/// rounding.
pub proof fn law_shown_memory_is_close(m: MemUsage)
    requires
        m.adds_up(),
    ensures
        -1 <= gib_hundredths(m.total as nat) - gib_hundredths(m.used as nat) - gib_hundredths(
            m.free as nat,
        ) <= 1,
{
}

} // verus!
