//! The control timing that every motor on a bus carries.
use vstd::prelude::*;

verus! {

/// A control rate a motor accepts: a positive multiple of 100 Hz up to
/// 1000 Hz; any other request falls back to 1000 Hz.
pub open spec fn accepted_frequency(new_freq: u16) -> u16 {
    if new_freq > 0 && new_freq % 100 == 0 && new_freq <= 1000 {
        new_freq
    } else {
        1000
    }
}

/// Every rate of `100 * k` Hz for `k` from 1 to 10 is kept as requested,
/// and a request that is zero, above 1000 Hz or not a whole number of
/// hundreds gives 1000 Hz.
pub proof fn lemma_accepted_frequencies(k: u16, f: u16)
    ensures
        1 <= k <= 10 ==> accepted_frequency((100 * k) as u16) == 100 * k,
        f == 0 || f > 1000 || f % 100 != 0 ==> accepted_frequency(f) == 1000,
        accepted_frequency(f) % 100 == 0 && 100 <= accepted_frequency(f) <= 1000,
{
    if 1 <= k <= 10 {
        assert((100 * k) % 100 == 0) by (nonlinear_arith)
            requires
                1 <= k <= 10,
        ;
    }
}

/// The control rate of a motor and the ticks counted since its last update.
#[derive(Clone, Copy, Debug, PartialEq, Eq, Structural)]
pub struct ControlTiming {
    pub control_frequency: u16,
    pub control_cnt: u16,
}

impl ControlTiming {
    /// A motor controlled at 1000 Hz, counter at zero.
    pub fn new() -> (t: Self)
        ensures
            t.control_frequency == 1000,
            t.control_cnt == 0,
    {
        ControlTiming { control_frequency: 1000, control_cnt: 0 }
    }

    /// Restarts the tick counter.
    pub fn reset_control_cnt(&mut self)
        ensures
            final(self).control_cnt == 0,
            final(self).control_frequency == old(self).control_frequency,
    {
        self.control_cnt = 0;
    }

    /// Sets the control rate, falling back to 1000 Hz for a rate that is not
    /// a positive multiple of 100 Hz up to 1000 Hz.
    pub fn reset_control_frequency(&mut self, new_freq: u16)
        ensures
            final(self).control_frequency == accepted_frequency(new_freq),
            final(self).control_cnt == old(self).control_cnt,
            final(self).control_frequency % 100 == 0,
            100 <= final(self).control_frequency <= 1000,
    {
        if new_freq > 0 && new_freq % 100 == 0 && new_freq <= 1000 {
            self.control_frequency = new_freq;
        } else {
            self.control_frequency = 1000;
        }
    }

    /// The control rate.
    pub fn control_frequency(&self) -> (f: u16)
        ensures
            f == self.control_frequency,
    {
        self.control_frequency
    }

    /// Counts one tick.
    pub fn inc_control_cnt(&mut self)
        requires
            old(self).control_cnt < u16::MAX,
        ensures
            final(self).control_cnt == old(self).control_cnt + 1,
            final(self).control_frequency == old(self).control_frequency,
    {
        self.control_cnt = self.control_cnt + 1;
    }
}

} // verus!
