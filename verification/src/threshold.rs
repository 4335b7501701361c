//! Classification of a measured percentage against a profiled threshold:
//! two disjoint acceptance ranges, one around the low-perturbation
//! behaviour and one around the high-perturbation behaviour. Percentages
//! are in hundredths of a percent (0 ..= 10000).

use vstd::prelude::*;

verus! {

/// Verdict of a classification: the probe behaved like a small
/// perturbation or like a large one.
#[derive(Debug)]
pub enum ModCase {
    TooLowMod,
    TooHighMod,
}

/// Why a search step could not conclude.
#[derive(Debug)]
pub enum SearchError {
    /// An impossible internal state was reached.
    Internal,
    /// The whole coordinate search became unreliable; restart it.
    RetryIndex,
    /// This sample was ambiguous; measure the same modification again.
    RetryMod,
}

/// Two disjoint acceptance ranges with their midpoint. A percentage below
/// `goodlowrange` classifies as a too-low modification; one at or above
/// `goodhighrange` as too high; in between (the midpoint included) the
/// sample is ambiguous.
pub struct Threshold {
    /// Exclusive upper end of the low acceptance range.
    pub goodlowrange: u64,
    /// Inclusive lower end of the high acceptance range.
    pub goodhighrange: u64,
    pub midpoint: u64,
}

/// The percentage lies in the low acceptance range.
pub open spec fn in_goodlow(t: Threshold, percentage: u64) -> bool {
    percentage < t.goodlowrange
}

/// The percentage lies in the high acceptance range.
pub open spec fn in_goodhigh(t: Threshold, percentage: u64) -> bool {
    percentage >= t.goodhighrange
}

impl Threshold {
    /// The two ranges are disjoint and the midpoint falls in neither.
    pub open spec fn wf(self) -> bool {
        &&& self.goodlowrange <= self.midpoint
        &&& self.midpoint < self.goodhighrange
    }

    /// Build a threshold from the profiled percentages of a low and a high
    /// perturbation: the midpoint halves the gap, and each acceptance
    /// range spans a quarter of the gap from its own side.
    pub fn new(lowpct: u64, highpct: u64) -> (t: Threshold)
        requires
            lowpct + 2 <= highpct,
            highpct <= 10000,
        ensures
            t.wf(),
            t.goodlowrange == lowpct + (highpct - lowpct) / 2 / 2,
            t.goodhighrange == highpct - (highpct - lowpct) / 2 / 2,
            t.midpoint == lowpct + (highpct - lowpct) / 2,
    {
        let diff = highpct - lowpct;
        let halfdiff = diff / 2;
        let quarter = halfdiff / 2;
        Threshold {
            midpoint: lowpct + halfdiff,
            goodlowrange: lowpct + quarter,
            goodhighrange: highpct - quarter,
        }
    }

    /// Classify a percentage. Exactly one verdict per region; a sample in
    /// neither range asks for a retry of the same modification.
    pub fn distinguish(&self, percentage: u64) -> (r: Result<ModCase, SearchError>)
        requires
            self.wf(),
        ensures
            r == if in_goodlow(*self, percentage) {
                Result::<ModCase, SearchError>::Ok(ModCase::TooLowMod)
            } else if in_goodhigh(*self, percentage) {
                Result::<ModCase, SearchError>::Ok(ModCase::TooHighMod)
            } else {
                Result::<ModCase, SearchError>::Err(SearchError::RetryMod)
            },
    {
        let inlow = percentage < self.goodlowrange;
        let inhigh = percentage >= self.goodhighrange;
        match (inlow, inhigh) {
            (false, false) => Err(SearchError::RetryMod),
            (true, false) => Ok(ModCase::TooLowMod),
            (false, true) => Ok(ModCase::TooHighMod),
            (true, true) => Err(SearchError::Internal),
        }
    }
}

/// The acceptance ranges of a well-formed threshold never overlap, and
/// the midpoint itself classifies as ambiguous.
pub proof fn lemma_threshold_partition(t: Threshold)
    requires
        t.wf(),
    ensures
        forall|p: u64| !(in_goodlow(t, p) && in_goodhigh(t, p)),
        !in_goodlow(t, t.midpoint),
        !in_goodhigh(t, t.midpoint),
{
}

} // verus!
