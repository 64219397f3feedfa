//! Devices that come and go.

use vstd::prelude::*;

verus! {

/// How long a failed device open waits before trying again. Long enough not to
/// spin, short enough that plugging the headset back in feels immediate.
pub const REOPEN_DELAY_MS: u64 = 1_000;

/// Keeps a device that stays away from filling the log: one warning per outage.
#[derive(Clone, Copy, PartialEq, Eq, Debug, Structural)]
pub struct Outage {
    announced: bool,
}

impl Outage {
    /// The outage that goes on has been announced.
    pub closed spec fn is_announced(self) -> bool {
        self.announced
    }

    /// No outage so far.
    pub fn new() -> (o: Self)
        ensures
            !o.is_announced(),
    {
        Outage { announced: false }
    }

    /// The device did not open. True if this is worth a warning.
    pub fn failed(&mut self) -> (warn: bool)
        ensures
            warn == !old(self).is_announced(),
            final(self).is_announced(),
    {
        let warn: bool = !self.announced;
        self.announced = true;
        warn
    }

    /// The device works: the next failure is a new outage.
    pub fn worked(&mut self)
        ensures
            !final(self).is_announced(),
    {
        self.announced = false;
    }
}

} // verus!
