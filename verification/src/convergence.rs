//! Convergence of the adaptive search: driven by a noiseless classifier
//! that answers "too low" strictly below a hidden flip point and "too
//! high" at or above it, the state machine terminates and reports exactly
//! the flip point, confirmation pass included.

use vstd::prelude::*;
use crate::search::SearchState;
use crate::threshold::{ModCase, SearchError};

verus! {

/// The verdict an ideal noiseless oracle gives for a probe amount when the
/// decoder flips at `x`: amounts below `x` still decode (a too-low
/// modification), amounts at or above `x` do not.
pub open spec fn ideal_case(probe: u16, x: u16) -> ModCase {
    if probe < x {
        ModCase::TooLowMod
    } else {
        ModCase::TooHighMod
    }
}

/// Number of still-unconfirmed bounds.
pub open spec fn unconfirmed(s: SearchState) -> int {
    (if s.lowlim_confirmed {
        0int
    } else {
        1int
    }) + (if s.highlim_confirmed {
        0int
    } else {
        1int
    })
}

/// Search convergence: against the ideal classifier with flip point `x`
/// anywhere strictly inside the bracket (the two degenerate boundary
/// values excluded), the search terminates and returns exactly `x`,
/// after confirming both final bounds. The second component counts the
/// probes spent.
pub fn run_ideal_search(x: u16, maxmod: u16, iterations: u64, profileiters: u64) -> (r: (u16, u64))
    requires
        4 <= maxmod <= 16384,
        2 <= x < maxmod,
    ensures
        r.0 == x,
{
    let mut st = SearchState::new(maxmod, 0, 0, iterations, profileiters);
    st.highlim = maxmod;
    st.lowlim = 0;
    let mut probes: u64 = 0;
    loop
        invariant
            st.wf(),
            st.maxmod == maxmod,
            4 <= maxmod <= 16384,
            2 <= x < maxmod,
            st.lowlim < x <= st.highlim,
            st.highlim <= maxmod,
            !st.low_moved ==> st.lowlim == 0,
            !st.high_moved ==> st.highlim == maxmod,
            st.highlim - st.lowlim >= 2 ==> !st.lowlim_confirmed && !st.highlim_confirmed
                && !st.confirming_bounds,
            st.highlim - st.lowlim == 1 ==> st.confirming_bounds,
            !(st.lowlim_confirmed && st.highlim_confirmed),
        decreases
                st.highlim - st.lowlim,
                unconfirmed(st),
                st.consecutive_low_changes + st.consecutive_high_changes,
    {
        let ghost pre = st;
        let m = st.calc_midpoint();
        let case = if m < x {
            ModCase::TooLowMod
        } else {
            ModCase::TooHighMod
        };
        let res = st.update_with_case(case, m);
        match res {
            Ok(Some(v)) => {
                return (v, probes);
            },
            Ok(None) => {},
            Err(_) => {
                proof {
                    assert(false);
                }
                return (x, probes);
            },
        }
        if probes < u64::MAX {
            probes = probes + 1;
        }
    }
}

} // verus!
