use vstd::prelude::*;

verus! {

// Adaptive render quality: the frame rate, averaged over a few seconds and
// judged once a second, switches quality down after two slow readings in a
// row and back up after two smooth ones.

/// The render quality in use.
#[derive(Debug, Clone, Copy, PartialEq, Eq, Structural)]
pub enum QualityLevel {
    High,
    Low,
}

/// One reading on the average frame rate: below 25 frames a second is
/// slow, above 45 smooth, in between neither.
#[derive(Debug, Clone, Copy, PartialEq, Eq, Structural)]
pub enum FpsBand {
    Slow,
    Steady,
    Smooth,
}

/// How many readings in a row switch the quality.
pub const CONSECUTIVE_REQUIRED: u32 = 2;

/// The quality and the current runs of slow and smooth readings.
#[derive(Debug, Clone, Copy, PartialEq, Eq, Structural)]
pub struct QualitySettings {
    pub level: QualityLevel,
    pub consecutive_low: u32,
    pub consecutive_high: u32,
}

impl Default for QualitySettings {
    fn default() -> (r: QualitySettings)
        ensures
            r == (QualitySettings { level: QualityLevel::High, consecutive_low: 0, consecutive_high: 0 }),
    {
        QualitySettings { level: QualityLevel::High, consecutive_low: 0, consecutive_high: 0 }
    }
}

/// The runs after a reading: a slow reading extends the slow run and ends
/// the smooth one, a smooth reading the reverse, a steady one ends both.
pub open spec fn runs_after(s: QualitySettings, v: FpsBand) -> (u32, u32) {
    match v {
        FpsBand::Slow => ((s.consecutive_low + 1) as u32, 0),
        FpsBand::Smooth => (0, (s.consecutive_high + 1) as u32),
        FpsBand::Steady => (0, 0),
    }
}

/// The settings after a reading: two slow readings in a row take high
/// quality down, two smooth ones take low quality up; a switch starts the
/// run that caused it over.
pub open spec fn after_reading(s: QualitySettings, v: FpsBand) -> QualitySettings {
    let (low, high) = runs_after(s, v);
    if low >= CONSECUTIVE_REQUIRED && s.level == QualityLevel::High {
        QualitySettings { level: QualityLevel::Low, consecutive_low: 0, consecutive_high: high }
    } else if high >= CONSECUTIVE_REQUIRED && s.level == QualityLevel::Low {
        QualitySettings { level: QualityLevel::High, consecutive_low: low, consecutive_high: 0 }
    } else {
        QualitySettings { level: s.level, consecutive_low: low, consecutive_high: high }
    }
}

impl QualitySettings {
    /// Takes one reading; gives back whether the quality switched.
    pub fn record(&mut self, reading: FpsBand) -> (switched: bool)
        requires
            reading == FpsBand::Slow ==> old(self).consecutive_low < u32::MAX,
            reading == FpsBand::Smooth ==> old(self).consecutive_high < u32::MAX,
        ensures
            *final(self) == after_reading(*old(self), reading),
            switched == (final(self).level != old(self).level),
    {
        match reading {
            FpsBand::Slow => {
                self.consecutive_low = self.consecutive_low + 1;
                self.consecutive_high = 0;
            },
            FpsBand::Smooth => {
                self.consecutive_high = self.consecutive_high + 1;
                self.consecutive_low = 0;
            },
            FpsBand::Steady => {
                self.consecutive_low = 0;
                self.consecutive_high = 0;
            },
        }
        if self.consecutive_low >= CONSECUTIVE_REQUIRED && self.level == QualityLevel::High {
            self.level = QualityLevel::Low;
            self.consecutive_low = 0;
            true
        } else if self.consecutive_high >= CONSECUTIVE_REQUIRED && self.level == QualityLevel::Low {
            self.level = QualityLevel::High;
            self.consecutive_high = 0;
            true
        } else {
            false
        }
    }
}

/// A switch needs two readings in a row: a single slow reading after a
/// steady one never lowers the quality, nor a single smooth one raises it.
pub proof fn lemma_one_reading_never_switches(s: QualitySettings, v: FpsBand)
    requires
        s.consecutive_low == 0,
        s.consecutive_high == 0,
    ensures
        after_reading(s, v).level == s.level,
{
}

/// A steady reading ends both runs and never switches the quality.
pub proof fn lemma_steady_reading_resets(s: QualitySettings)
    ensures
        after_reading(s, FpsBand::Steady).consecutive_low == 0,
        after_reading(s, FpsBand::Steady).consecutive_high == 0,
        after_reading(s, FpsBand::Steady).level == s.level,
{
}

/// The quality switches only on the second of two equal readings in a
/// row: whenever a reading switches it, the reading before was of the same
/// band, slow for a switch down and smooth for a switch up.
pub proof fn lemma_switch_needs_two_in_a_row(s: QualitySettings, first: FpsBand, second: FpsBand)
    requires
        s.consecutive_low < u32::MAX - 1,
        s.consecutive_high < u32::MAX - 1,
    ensures
        ({
            let t = after_reading(s, first);
            let u = after_reading(t, second);
            &&& u.level != t.level ==> first == second
            &&& u.level == QualityLevel::Low && t.level == QualityLevel::High ==> first
                == FpsBand::Slow
            &&& u.level == QualityLevel::High && t.level == QualityLevel::Low ==> first
                == FpsBand::Smooth
        }),
{
}

} // verus!
