//! Conversion of wall-clock elapsed time at a configured frequency into a
//! whole number of simulation ticks, carrying the fractional remainder
//! across frames so that ticks are neither dropped nor accumulated with
//! drift. Time is measured in whole microseconds, so the carried fraction
//! of a tick is exact: a remainder of `r` microsecond-weights stands for
//! `r / 1_000_000` of one tick.

use vstd::prelude::*;

verus! {

/// The clock's fixed-point denominator: microseconds in one second.
pub const MICROS_PER_SECOND: u64 = 1_000_000;

/// How many whole ticks are due once `elapsed` microseconds have passed at
/// `freq` Hz with `rem` carried from earlier frames.
pub open spec fn ticks_due(elapsed: int, freq: int, rem: int) -> int {
    (elapsed * freq + rem) / (MICROS_PER_SECOND as int)
}

/// The fraction of a tick (in microsecond-weights) carried forward after
/// those whole ticks are taken.
pub open spec fn rem_after(elapsed: int, freq: int, rem: int) -> int {
    (elapsed * freq + rem) % (MICROS_PER_SECOND as int)
}

/// The tick clock: the configured frequency and the carried fractional
/// remainder of a tick, always below one whole tick.
pub struct TickClock {
    freq_hz: u64,
    remainder: u64,
}

impl TickClock {
    /// The configured frequency in Hz.
    pub closed spec fn spec_freq(self) -> int {
        self.freq_hz as int
    }

    /// The carried remainder, in microsecond-weights of one tick.
    pub closed spec fn spec_remainder(self) -> int {
        self.remainder as int
    }

    /// The carried remainder is always a proper fraction of one tick.
    pub open spec fn wf(self) -> bool {
        0 <= self.spec_remainder() < MICROS_PER_SECOND as int
    }

    /// A clock at the given frequency with no time carried yet.
    pub fn new(freq_hz: u64) -> (c: TickClock)
        ensures
            c.spec_freq() == freq_hz,
            c.spec_remainder() == 0,
            c.wf(),
    {
        TickClock { freq_hz, remainder: 0 }
    }

    /// The configured frequency in Hz.
    pub fn frequency(&self) -> (f: u64)
        ensures
            f == self.spec_freq(),
    {
        self.freq_hz
    }

    /// The carried remainder in microsecond-weights of one tick.
    pub fn remainder_micros(&self) -> (r: u64)
        ensures
            r == self.spec_remainder(),
    {
        self.remainder
    }

    /// Change the frequency; the carried remainder is kept.
    pub fn set_frequency(&mut self, freq_hz: u64)
        ensures
            final(self).spec_freq() == freq_hz,
            final(self).spec_remainder() == old(self).spec_remainder(),
            old(self).wf() ==> final(self).wf(),
    {
        self.freq_hz = freq_hz;
    }

    /// Account `elapsed_micros` of wall-clock time: return the whole number
    /// of ticks now due and carry the exact fractional part forward. Nothing
    /// is lost: the ticks taken plus the new remainder add up to precisely
    /// the time accounted, so repeated frames can never drift.
    pub fn advance(&mut self, elapsed_micros: u64) -> (ticks: u64)
        requires
            old(self).wf(),
            elapsed_micros * old(self).spec_freq() + old(self).spec_remainder() <= u64::MAX,
        ensures
            ticks == ticks_due(elapsed_micros as int, old(self).spec_freq(), old(self).spec_remainder()),
            final(self).spec_remainder() == rem_after(
                elapsed_micros as int,
                old(self).spec_freq(),
                old(self).spec_remainder(),
            ),
            final(self).spec_freq() == old(self).spec_freq(),
            final(self).wf(),
            (MICROS_PER_SECOND as int) * ticks + final(self).spec_remainder() == elapsed_micros
                * old(self).spec_freq() + old(self).spec_remainder(),
    {
        let total: u64 = elapsed_micros * self.freq_hz + self.remainder;
        let ticks: u64 = total / MICROS_PER_SECOND;
        self.remainder = total % MICROS_PER_SECOND;
        ticks
    }
}

} // verus!
