//! The adaptive search state machine: a skewed binary search over
//! perturbation amounts, with stale-bound re-probes, a confirmation pass
//! for both final bounds, and the profiling steps that derive the
//! classification threshold. Percentages are in hundredths of a percent.

use vstd::prelude::*;
use crate::recorder::{Recorder, SaveAllRecorder, count_lte};
use crate::threshold::{ModCase, SearchError, Threshold, in_goodhigh, in_goodlow};

verus! {

/// Percentage margin (in hundredths of a percent) by which the
/// high-perturbation profile must exceed the low-perturbation profile for
/// the threshold to be considered reliable.
pub const LOW_PERCENTAGE_LIMIT: u64 = 250;

/// After this many consecutive moves of one bound, the stale bound itself
/// is re-probed as a sanity check.
pub const CONSECUTIVE_LIMIT_CHANGE: u8 = 3;

/// State of one coordinate's search.
pub struct SearchState {
    /// Upper end of the perturbation bracket (twice the error-correction
    /// limit).
    pub maxmod: u16,
    /// Coordinate under search, and the largest coordinate index.
    pub index_ij: usize,
    pub maxindex: usize,
    pub highlim: u16,
    pub lowlim: u16,
    pub confirming_bounds: bool,
    pub highlim_confirmed: bool,
    pub lowlim_confirmed: bool,
    pub consecutive_high_changes: u8,
    pub consecutive_low_changes: u8,
    /// Percentage profiled for the small perturbation, once measured.
    pub lowmodpercentage: Option<u64>,
    pub threshold: Option<Threshold>,
    /// Samples per probe: the binary-search count, the current count, and
    /// the profiling count.
    pub iterations_binsearch: u64,
    pub iterations: u64,
    pub iterations_profiling: u64,
    pub low_moved: bool,
    pub high_moved: bool,
    /// Latency below which samples count towards the percentage.
    pub valuelimit: u64,
    /// Exclusive upper bound of the sanity range for later probes'
    /// one-percent latency rank.
    pub value_range_1p: Option<u64>,
}

impl SearchState {
    /// Bracket and counter sanity: the bracket is non-empty and small
    /// enough that midpoint arithmetic stays well inside `u16`.
    pub open spec fn wf(self) -> bool {
        &&& self.lowlim < self.highlim
        &&& self.highlim <= self.maxmod + 2
        &&& 4 <= self.maxmod <= 16384
        &&& match self.lowmodpercentage {
            Some(l) => l <= 10000,
            None => true,
        }
    }

    /// Fresh state for one coordinate: the tiny initial bracket makes the
    /// first probe use amount 1, the small-perturbation profiling step.
    pub fn new(
        maxmod: u16,
        index_ij: usize,
        maxindex: usize,
        iterations: u64,
        profileiters: u64,
    ) -> (s: SearchState)
        requires
            4 <= maxmod <= 16384,
        ensures
            s.wf(),
            s == (SearchState {
                maxmod,
                index_ij,
                maxindex,
                highlim: 2u16,
                lowlim: 0u16,
                confirming_bounds: false,
                highlim_confirmed: false,
                lowlim_confirmed: false,
                consecutive_high_changes: 0u8,
                consecutive_low_changes: 0u8,
                lowmodpercentage: Option::<u64>::None,
                threshold: Option::<Threshold>::None,
                iterations_binsearch: iterations,
                iterations: profileiters,
                iterations_profiling: profileiters,
                low_moved: false,
                high_moved: false,
                valuelimit: 0u64,
                value_range_1p: Option::<u64>::None,
            }),
    {
        SearchState {
            maxmod,
            index_ij,
            maxindex,
            highlim: 2,
            lowlim: 0,
            confirming_bounds: false,
            highlim_confirmed: false,
            lowlim_confirmed: false,
            consecutive_high_changes: 0,
            consecutive_low_changes: 0,
            lowmodpercentage: None,
            threshold: None,
            iterations_binsearch: iterations,
            iterations: profileiters,
            iterations_profiling: profileiters,
            low_moved: false,
            high_moved: false,
            valuelimit: 0,
            value_range_1p: None,
        }
    }

    /// The probe amount the next step tests, and the state after choosing
    /// it (the stale-bound check resets the consecutive counters).
    pub open spec fn spec_calc_midpoint(s: SearchState) -> (SearchState, u16) {
        let d = (s.highlim - s.lowlim) as u16;
        if s.low_moved && !s.high_moved {
            let skewed = (s.lowlim + d / 8) as u16;
            let probe = if s.lowlim + 1 > skewed {
                (s.lowlim + 1) as u16
            } else {
                skewed
            };
            (s, probe)
        } else if !s.low_moved && s.high_moved {
            let skewed = (s.highlim - d / 8) as u16;
            let probe = if s.highlim - 1 < skewed {
                (s.highlim - 1) as u16
            } else {
                skewed
            };
            (s, probe)
        } else {
            if s.consecutive_low_changes >= CONSECUTIVE_LIMIT_CHANGE {
                (
                    SearchState { consecutive_low_changes: 0u8, consecutive_high_changes: 0u8, ..s },
                    s.highlim,
                )
            } else if s.consecutive_high_changes >= CONSECUTIVE_LIMIT_CHANGE {
                (
                    SearchState { consecutive_low_changes: 0u8, consecutive_high_changes: 0u8, ..s },
                    s.lowlim,
                )
            } else if s.confirming_bounds {
                if !s.highlim_confirmed {
                    (s, s.highlim)
                } else {
                    (s, s.lowlim)
                }
            } else {
                (s, ((s.highlim + s.lowlim) / 2) as u16)
            }
        }
    }

    /// Choose the next probe amount. Skewed towards whichever bound is
    /// still moving; re-probes a stale bound after too many one-sided
    /// moves; during the confirmation pass probes the two final bounds.
    pub fn calc_midpoint(&mut self) -> (r: u16)
        requires
            old(self).wf(),
        ensures
            final(self).wf(),
            (*final(self), r) == Self::spec_calc_midpoint(*old(self)),
            old(self).lowlim <= r <= old(self).highlim,
    {
        if self.low_moved && !self.high_moved {
            let d = self.highlim - self.lowlim;
            let skewed = self.lowlim + d / 8;
            if self.lowlim + 1 > skewed {
                self.lowlim + 1
            } else {
                skewed
            }
        } else if !self.low_moved && self.high_moved {
            let d = self.highlim - self.lowlim;
            let skewed = self.highlim - d / 8;
            if self.highlim - 1 < skewed {
                self.highlim - 1
            } else {
                skewed
            }
        } else {
            if self.consecutive_low_changes >= CONSECUTIVE_LIMIT_CHANGE {
                self.consecutive_low_changes = 0;
                self.consecutive_high_changes = 0;
                self.highlim
            } else if self.consecutive_high_changes >= CONSECUTIVE_LIMIT_CHANGE {
                self.consecutive_low_changes = 0;
                self.consecutive_high_changes = 0;
                self.lowlim
            } else if self.confirming_bounds {
                if !self.highlim_confirmed {
                    self.highlim
                } else {
                    self.lowlim
                }
            } else {
                (self.highlim + self.lowlim) / 2
            }
        }
    }

    /// One bound update from a classification verdict, followed by the
    /// convergence check.
    pub open spec fn spec_update_case(s: SearchState, case: ModCase, currentmod: u16) -> (
        SearchState,
        Result<Option<u16>, SearchError>,
    ) {
        let stepped = match case {
            ModCase::TooLowMod => {
                let s1 = SearchState {
                    consecutive_low_changes: sat_inc(s.consecutive_low_changes),
                    consecutive_high_changes: 0u8,
                    ..s
                };
                if currentmod == s.lowlim {
                    Result::<SearchState, SearchError>::Ok(
                        SearchState { lowlim_confirmed: true, ..s1 },
                    )
                } else if currentmod == s.highlim {
                    Result::<SearchState, SearchError>::Err(SearchError::RetryIndex)
                } else {
                    Result::<SearchState, SearchError>::Ok(
                        SearchState { lowlim: currentmod, low_moved: true, ..s1 },
                    )
                }
            },
            ModCase::TooHighMod => {
                let s1 = SearchState {
                    consecutive_low_changes: 0u8,
                    consecutive_high_changes: sat_inc(s.consecutive_high_changes),
                    ..s
                };
                if currentmod == s.highlim {
                    Result::<SearchState, SearchError>::Ok(
                        SearchState { highlim_confirmed: true, ..s1 },
                    )
                } else if currentmod == s.lowlim {
                    Result::<SearchState, SearchError>::Err(SearchError::RetryIndex)
                } else {
                    Result::<SearchState, SearchError>::Ok(
                        SearchState { highlim: currentmod, high_moved: true, ..s1 },
                    )
                }
            },
        };
        match stepped {
            Result::Err(e) => (s, Result::Err(e)),
            Result::Ok(s2) => Self::spec_check_convergence(s2),
        }
    }

    /// The convergence tail: when the bracket has narrowed to one, demand
    /// that both bounds moved off their initial values and were each
    /// confirmed; otherwise clear the confirmation flags.
    pub open spec fn spec_check_convergence(s: SearchState) -> (
        SearchState,
        Result<Option<u16>, SearchError>,
    ) {
        if s.highlim - s.lowlim == 1 {
            if s.highlim == s.maxmod {
                (s, Result::Err(SearchError::RetryIndex))
            } else if s.lowlim == 0 {
                (s, Result::Err(SearchError::RetryIndex))
            } else if s.lowlim_confirmed && s.highlim_confirmed {
                (s, Result::Ok(Some(s.highlim)))
            } else {
                (SearchState { confirming_bounds: true, ..s }, Result::Ok(None))
            }
        } else {
            (
                SearchState { highlim_confirmed: false, lowlim_confirmed: false, ..s },
                Result::Ok(None),
            )
        }
    }

    /// Apply a classification verdict for the probe `currentmod`: confirm
    /// or move the matching bound, detect contradictory bounds, and check
    /// for convergence.
    pub fn update_with_case(&mut self, case: ModCase, currentmod: u16) -> (r: Result<
        Option<u16>,
        SearchError,
    >)
        requires
            old(self).wf(),
            old(self).lowlim <= currentmod <= old(self).highlim,
        ensures
            final(self).wf(),
            (*final(self), r) == Self::spec_update_case(*old(self), case, currentmod),
    {
        match case {
            ModCase::TooLowMod => {
                if currentmod != self.lowlim && currentmod == self.highlim {
                    return Err(SearchError::RetryIndex);
                }
                self.consecutive_low_changes = if self.consecutive_low_changes < 255 {
                    self.consecutive_low_changes + 1
                } else {
                    255
                };
                self.consecutive_high_changes = 0;
                if currentmod == self.lowlim {
                    self.lowlim_confirmed = true;
                } else {
                    self.lowlim = currentmod;
                    self.low_moved = true;
                }
            },
            ModCase::TooHighMod => {
                if currentmod != self.highlim && currentmod == self.lowlim {
                    return Err(SearchError::RetryIndex);
                }
                self.consecutive_low_changes = 0;
                self.consecutive_high_changes = if self.consecutive_high_changes < 255 {
                    self.consecutive_high_changes + 1
                } else {
                    255
                };
                if currentmod == self.highlim {
                    self.highlim_confirmed = true;
                } else {
                    self.highlim = currentmod;
                    self.high_moved = true;
                }
            },
        }
        self.check_convergence()
    }

    /// Exec form of the convergence tail.
    fn check_convergence(&mut self) -> (r: Result<Option<u16>, SearchError>)
        requires
            old(self).wf(),
        ensures
            final(self).wf(),
            (*final(self), r) == Self::spec_check_convergence(*old(self)),
    {
        if self.highlim - self.lowlim == 1 {
            if self.highlim == self.maxmod {
                return Err(SearchError::RetryIndex);
            }
            if self.lowlim == 0 {
                return Err(SearchError::RetryIndex);
            }
            if self.lowlim_confirmed && self.highlim_confirmed {
                return Ok(Some(self.highlim));
            }
            self.confirming_bounds = true;
            Ok(None)
        } else {
            self.highlim_confirmed = false;
            self.lowlim_confirmed = false;
            Ok(None)
        }
    }

    /// A full percentage-driven step: classify against the threshold once
    /// profiling is done, otherwise consume the sample as one of the two
    /// profiling measurements (deriving the threshold from the second).
    pub fn update_state(&mut self, percentage: u64, currentmod: u16) -> (r: Result<
        Option<u16>,
        SearchError,
    >)
        requires
            old(self).wf(),
            old(self).lowlim <= currentmod <= old(self).highlim,
            percentage <= 10000,
            old(self).threshold is Some ==> old(self).threshold->0.wf(),
        ensures
            final(self).wf(),
            match old(self).threshold {
                Some(t) => if in_goodlow(t, percentage) {
                    (*final(self), r) == Self::spec_update_case(
                        *old(self),
                        ModCase::TooLowMod,
                        currentmod,
                    )
                } else if in_goodhigh(t, percentage) {
                    (*final(self), r) == Self::spec_update_case(
                        *old(self),
                        ModCase::TooHighMod,
                        currentmod,
                    )
                } else {
                    r == Result::<Option<u16>, SearchError>::Err(SearchError::RetryMod) && *final(self) == *old(self)
                },
                None => match old(self).lowmodpercentage {
                    Some(lowp) => if percentage < lowp + LOW_PERCENTAGE_LIMIT {
                        r == Result::<Option<u16>, SearchError>::Err(SearchError::RetryIndex)
                            && *final(self) == *old(self)
                    } else {
                        r == Result::<Option<u16>, SearchError>::Ok(Option::<u16>::None) && *final(self) == (SearchState {
                            threshold: Some(
                                Threshold {
                                    midpoint: (lowp + (percentage - lowp) / 2) as u64,
                                    goodlowrange: (lowp + (percentage - lowp) / 2 / 2) as u64,
                                    goodhighrange: (percentage - (percentage - lowp) / 2
                                        / 2) as u64,
                                },
                            ),
                            highlim: old(self).maxmod,
                            lowlim: 0u16,
                            iterations: old(self).iterations_binsearch,
                            highlim_confirmed: false,
                            lowlim_confirmed: false,
                            ..*old(self)
                        })
                    },
                    None => r == Result::<Option<u16>, SearchError>::Ok(Option::<u16>::None)
                        && *final(self) == (SearchState {
                        lowmodpercentage: Some(percentage),
                        highlim: (old(self).maxmod + 2) as u16,
                        lowlim: (old(self).maxmod - 3) as u16,
                        highlim_confirmed: false,
                        lowlim_confirmed: false,
                        ..*old(self)
                    }),
                },
            },
            final(self).threshold is Some ==> final(self).threshold->0.wf(),
            old(self).threshold is Some ==> final(self).threshold == old(self).threshold,
    {
        let ghost s0 = *self;
        if let Some(t) = &self.threshold {
            let case = match t.distinguish(percentage) {
                Ok(c) => c,
                Err(e) => {
                    return Err(e);
                },
            };
            let r = self.update_with_case(case, currentmod);
            proof {
                assert(final(self).threshold == s0.threshold);
            }
            r
        } else if let Some(lowp) = self.lowmodpercentage {
            if percentage < lowp + LOW_PERCENTAGE_LIMIT {
                return Err(SearchError::RetryIndex);
            }
            let t = Threshold::new(lowp, percentage);
            self.threshold = Some(t);
            self.highlim = self.maxmod;
            self.lowlim = 0;
            self.iterations = self.iterations_binsearch;
            self.check_convergence()
        } else {
            self.lowmodpercentage = Some(percentage);
            // this bracket makes the next midpoint probe the
            // high-perturbation extreme (one below twice the
            // error-correction limit)
            self.highlim = self.maxmod + 2;
            self.lowlim = self.maxmod - 3;
            self.check_convergence()
        }
    }

    /// The one-percent latency rank of a probe's series: the sample at
    /// rank `len / 100`, counting from one.
    pub open spec fn spec_rank_1p(recorder: Recorder<SaveAllRecorder>) -> u64 {
        recorder.retained()[recorder.retained().len() as int / 100 - 1]
    }

    /// The sanity range derived during profiling: the latency limit plus
    /// its distance from the second probe's one-percent rank (saturating,
    /// and never below the limit itself).
    pub open spec fn spec_range_high(valuelimit: u64, rank: u64) -> u64 {
        let diff: u64 = if rank <= valuelimit {
            (valuelimit - rank) as u64
        } else {
            0u64
        };
        if valuelimit <= u64::MAX - diff {
            (valuelimit + diff) as u64
        } else {
            u64::MAX
        }
    }

    /// Derive the representative percentage of one probe's recorder, with
    /// the profiling bookkeeping: the first probe fixes the latency limit
    /// below which samples are counted; the second fixes a sanity range
    /// for every later probe's one-percent latency rank; once the range
    /// stands, a probe whose rank escapes it is rejected for a retry.
    pub fn get_percentage(&mut self, recorder: &Recorder<SaveAllRecorder>) -> (r: Result<
        u64,
        SearchError,
    >)
        requires
            old(self).wf(),
            recorder.wf(),
        ensures
            final(self).wf(),
            *final(self) == (SearchState {
                valuelimit: final(self).valuelimit,
                value_range_1p: final(self).value_range_1p,
                ..*old(self)
            }),
            recorder.retained().len() < 100 ==> r == Result::<u64, SearchError>::Err(
                SearchError::RetryMod,
            ) && *final(self) == *old(self),
            r is Ok ==> recorder.retained().len() >= 100 && r->Ok_0 == count_lte(
                recorder.retained(),
                final(self).valuelimit,
            ) * 10000 / recorder.retained().len() as int && r->Ok_0 <= 10000,
            recorder.retained().len() >= 100 ==> {
                let rank = Self::spec_rank_1p(*recorder);
                if old(self).threshold is None && old(self).lowmodpercentage is None {
                    // first profiling probe: the counting limit is fixed
                    r is Ok && final(self).valuelimit == rank && final(self).value_range_1p == old(self).value_range_1p
                } else {
                    match old(self).value_range_1p {
                        Some(high) => if rank >= high {
                            // sanity check: the rank escaped the profiled range
                            r == Result::<u64, SearchError>::Err(SearchError::RetryMod) && *final(self) == *old(self)
                        } else {
                            r is Ok && *final(self) == *old(self)
                        },
                        None => {
                            // second profiling probe: the sanity range is fixed
                            r is Ok && final(self).valuelimit == old(self).valuelimit && final(self).value_range_1p == Some(
                                Self::spec_range_high(old(self).valuelimit, rank),
                            )
                        },
                    }
                }
            },
    {
        let n = recorder.len();
        let limit_1p = match recorder.sample_at_rank(n / 100) {
            Some(v) => v,
            None => {
                return Err(SearchError::RetryMod);
            },
        };
        if self.threshold.is_none() && self.lowmodpercentage.is_none() {
            // first profiling probe: fix the counting limit
            self.valuelimit = limit_1p;
        } else if let Some(high) = self.value_range_1p {
            // later probes: the one-percent rank must stay in the sanity range
            if limit_1p >= high {
                return Err(SearchError::RetryMod);
            }
        } else {
            // second profiling probe: fix the sanity range
            let diff = if limit_1p <= self.valuelimit {
                self.valuelimit - limit_1p
            } else {
                0
            };
            let high = if self.valuelimit <= u64::MAX - diff {
                self.valuelimit + diff
            } else {
                u64::MAX
            };
            self.value_range_1p = Some(high);
        }
        Ok(self.percentage_of(recorder))
    }

    /// The percentage of retained samples at or below the latency limit.
    fn percentage_of(&self, recorder: &Recorder<SaveAllRecorder>) -> (r: u64)
        requires
            recorder.wf(),
            recorder.retained().len() > 0,
        ensures
            r == count_lte(recorder.retained(), self.valuelimit) * 10000
                / recorder.retained().len() as int,
            r <= 10000,
    {
        recorder.percentage_lte(self.valuelimit)
    }
}

/// Saturating increment of a consecutive-change counter.
pub open spec fn sat_inc(c: u8) -> u8 {
    if c < 255 {
        (c + 1) as u8
    } else {
        255u8
    }
}

} // verus!
