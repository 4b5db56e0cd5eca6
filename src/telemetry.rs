//! Progress sampling: a fixed-cadence observer of the shared count of
//! accepted resources.
use vstd::prelude::*;

verus! {

/// Milliseconds between two samples.
pub const TICK_MILLIS: u64 = 100;

/// The four glyphs of the rotating spinner, in order.
pub open spec fn spinner_glyph(i: nat) -> char {
    seq!['|', '/', '-', '\\'][(i % 4) as int]
}

/// What one tick observed.
pub struct Sample {
    /// The count read at this tick.
    pub count: u64,
    /// Resources accepted since the previous tick.
    pub delta: u64,
    /// Spinner glyph to show.
    pub spinner: char,
}

/// The observer's memory between ticks.
pub struct Telemetry {
    last_count: u64,
    ticks: u64,
}

impl Telemetry {
    pub closed spec fn last_count(&self) -> u64 {
        self.last_count
    }

    /// Position of the spinner, always below four.
    pub closed spec fn spinner_pos(&self) -> u64 {
        self.ticks
    }

    pub closed spec fn wf(&self) -> bool {
        self.ticks < 4
    }

    pub fn new() -> (t: Telemetry)
        ensures
            t.wf(),
            t.last_count() == 0,
            t.spinner_pos() == 0,
    {
        Telemetry { last_count: 0, ticks: 0 }
    }

    /// Takes the count read at this tick. The count never decreases; were it
    /// read lower than before, no growth is reported.
    pub fn tick(&mut self, current: u64) -> (s: Sample)
        requires
            old(self).wf(),
        ensures
            final(self).wf(),
            s.count == current,
            s.delta == (if current >= old(self).last_count() {
                current - old(self).last_count()
            } else {
                0
            }),
            s.spinner == spinner_glyph(old(self).spinner_pos() as nat),
            final(self).last_count() == current,
            final(self).spinner_pos() == (old(self).spinner_pos() + 1) % 4,
    {
        let delta = if current >= self.last_count {
            current - self.last_count
        } else {
            0
        };
        let spinner = match self.ticks {
            0 => '|',
            1 => '/',
            2 => '-',
            _ => '\\',
        };
        self.last_count = current;
        self.ticks = (self.ticks + 1) % 4;
        Sample { count: current, delta, spinner }
    }
}

/// A rate in hundredths of items per second, rounded to nearest (halves up):
/// `items` over `millis` milliseconds.
pub fn rate_hundredths(items: u64, millis: u64) -> (r: u128)
    requires
        millis > 0,
    ensures
        r == ((items as nat) * 200000 + (millis as nat)) / (2 * (millis as nat)),
{
    ((items as u128) * 200000 + (millis as u128)) / (2 * (millis as u128))
}

} // verus!
