//! Versionstamp oracles: sources of the current versionstamp.
//!
//! Each strategy trades monotonicity against cost.  The system-time
//! counter is not monotonic if the system clock regresses, or if the
//! process restarts within the same second, because the in-memory counter
//! resets while the physical time is unchanged; both weaknesses are stated
//! here rather than silently patched.  The epoch counter is monotonic
//! within one epoch by construction; across restarts it depends on the
//! caller bumping the epoch.

use vstd::prelude::*;
use crate::vs::{be_num, u16_u64_to_versionstamp, u64_u16_to_versionstamp, Versionstamp};

verus! {

/// A hybrid clock: whole seconds of physical time paired with an
/// in-memory logical counter that resets when the second advances.
pub struct SysTimeCounter {
    /// The physical seconds and logical counter of the last value.
    pub state: (u64, u16),
    /// The last successfully produced pair, served when no fresh one can
    /// be made.
    pub stale: (u64, u16),
}

/// A vector clock: an externally persisted epoch paired with an in-memory
/// counter that starts at zero each process start.
pub struct EpochCounter {
    /// The epoch, to be bumped once per process start.
    pub epoch: u16,
    /// The in-memory counter, bumped once per call.
    pub counter: u64,
}

/// A source of versionstamps.
pub enum Oracle {
    /// The system-time strategy.
    SysTimeCounter(SysTimeCounter),
    /// The epoch-counter strategy.
    EpochCounter(EpochCounter),
}

/// Relies on `std::time::SystemTime::now` and `duration_since`: the whole
/// seconds since the Unix epoch, zero when the clock reads before it.
/// Nothing can be promised of the clock's value.
#[verifier::external_body]
fn secs_since_unix_epoch() -> u64 {
    match std::time::SystemTime::now().duration_since(std::time::UNIX_EPOCH) {
        Ok(d) => d.as_secs(),
        Err(_) => 0,
    }
}

impl SysTimeCounter {
    /// Builds the oracle state from its last physical/logical pair.
    pub fn new(physical: u64, logical: u16) -> (r: SysTimeCounter)
        ensures
            r.state == (physical, logical),
            r.stale == (physical, logical),
    {
        SysTimeCounter { state: (physical, logical), stale: (physical, logical) }
    }

    /// One step of the clock at a given physical time: within one second
    /// the logical counter grows, a new second resets it.  The counter
    /// saturates rather than wrap, at the price of a possibly repeated
    /// value under extreme contention.
    pub fn advance(&mut self, physical: u64) -> (r: Versionstamp)
        ensures
            ({
                let logical: u16 = if physical == old(self).state.0 {
                    old(self).state.1
                } else {
                    0
                };
                &&& be_num(r@) == physical * 0x10000 + logical
                &&& final(self).state.0 == physical
                &&& final(self).state.1 == (if logical < u16::MAX {
                    (logical + 1) as u16
                } else {
                    u16::MAX
                })
                &&& final(self).stale == (physical, logical)
            }),
    {
        let logical: u16 = if physical == self.state.0 {
            self.state.1
        } else {
            0
        };
        let next: u16 = if logical < u16::MAX {
            logical + 1
        } else {
            u16::MAX
        };
        self.state = (physical, next);
        self.stale = (physical, logical);
        u64_u16_to_versionstamp(physical, logical)
    }

    /// Produces the next versionstamp from the system clock.  Values do
    /// not decrease as long as the clock itself does not go backwards.
    pub fn now(&mut self) -> (r: Versionstamp)
        ensures
            ({
                let physical = final(self).stale.0;
                let logical: u16 = if physical == old(self).state.0 {
                    old(self).state.1
                } else {
                    0
                };
                &&& be_num(r@) == physical * 0x10000 + logical
                &&& final(self).state.0 == physical
                &&& final(self).state.1 == (if logical < u16::MAX {
                    (logical + 1) as u16
                } else {
                    u16::MAX
                })
                &&& final(self).stale == (physical, logical)
            }),
    {
        let physical = secs_since_unix_epoch();
        self.advance(physical)
    }
}

impl EpochCounter {
    /// Builds the oracle from a persisted epoch; the counter starts at
    /// zero.
    pub fn new(epoch: u16) -> (r: EpochCounter)
        ensures
            r.epoch == epoch,
            r.counter == 0,
    {
        EpochCounter { epoch, counter: 0 }
    }

    /// Produces the next versionstamp: the epoch over the counter, which
    /// grows by one per call and saturates rather than wrap.
    pub fn now(&mut self) -> (r: Versionstamp)
        ensures
            be_num(r@) == old(self).epoch * 0x10000000000000000 + old(self).counter,
            final(self).epoch == old(self).epoch,
            final(self).counter == (if old(self).counter < u64::MAX {
                (old(self).counter + 1) as u64
            } else {
                u64::MAX
            }),
    {
        let c = self.counter;
        if self.counter < u64::MAX {
            self.counter = self.counter + 1;
        }
        u16_u64_to_versionstamp(self.epoch, c)
    }
}

impl Oracle {
    /// Produces the next versionstamp of whichever strategy this oracle
    /// holds.
    pub fn now(&mut self) -> (r: Versionstamp)
        ensures
            *old(self) is SysTimeCounter ==> ({
                let prev = old(self)->SysTimeCounter_0;
                let cur = final(self)->SysTimeCounter_0;
                let physical = cur.stale.0;
                let logical: u16 = if physical == prev.state.0 {
                    prev.state.1
                } else {
                    0
                };
                &&& *final(self) is SysTimeCounter
                &&& be_num(r@) == physical * 0x10000 + logical
                &&& cur.state.0 == physical
                &&& cur.state.1 == (if logical < u16::MAX {
                    (logical + 1) as u16
                } else {
                    u16::MAX
                })
                &&& cur.stale == (physical, logical)
            }),
            *old(self) is EpochCounter ==> ({
                &&& *final(self) is EpochCounter
                &&& be_num(r@) == old(self)->EpochCounter_0.epoch * 0x10000000000000000 + old(
                    self,
                )->EpochCounter_0.counter
                &&& final(self)->EpochCounter_0.epoch == old(self)->EpochCounter_0.epoch
                &&& final(self)->EpochCounter_0.counter == (if old(
                    self,
                )->EpochCounter_0.counter < u64::MAX {
                    (old(self)->EpochCounter_0.counter + 1) as u64
                } else {
                    u64::MAX
                })
            }),
    {
        match self {
            Oracle::SysTimeCounter(sys) => sys.now(),
            Oracle::EpochCounter(epoch) => epoch.now(),
        }
    }
}

/// The system-time oracle never goes backwards while the clock does not:
/// of two successive values, the later is at least the earlier whenever
/// its physical reading is not older.
pub proof fn lemma_systime_monotonic(p1: u64, l1: u16, s1: u16, p2: u64, l2: u16)
    requires
        s1 == (if l1 < u16::MAX {
            (l1 + 1) as u16
        } else {
            u16::MAX
        }),
        p2 >= p1,
        l2 == (if p2 == p1 {
            s1
        } else {
            0
        }),
    ensures
        p2 * 0x10000 + l2 >= p1 * 0x10000 + l1,
{
    if p2 == p1 {
    } else {
        assert(p2 * 0x10000 >= (p1 + 1) * 0x10000) by (nonlinear_arith)
            requires
                p2 >= p1 + 1,
        ;
    }
}

/// The epoch-counter oracle strictly increases while its counter has room:
/// of two successive values, the later is strictly greater.
pub proof fn lemma_epoch_strictly_increases(epoch: u16, c1: u64, c2: u64)
    requires
        c1 < u64::MAX,
        c2 == c1 + 1,
    ensures
        epoch * 0x10000000000000000 + c2 > epoch * 0x10000000000000000 + c1,
{
}

/// Versionstamps of a later epoch lie above every versionstamp of an
/// earlier epoch.
pub proof fn lemma_epoch_ordering(e1: u16, c1: u64, e2: u16, c2: u64)
    requires
        e1 < e2,
    ensures
        e1 * 0x10000000000000000 + c1 < e2 * 0x10000000000000000 + c2,
{
    assert(e2 * 0x10000000000000000 >= (e1 + 1) * 0x10000000000000000) by (nonlinear_arith)
        requires
            e2 >= e1 + 1,
    ;
}

} // verus!
