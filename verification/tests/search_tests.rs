use oqs_afw::convergence::run_ideal_search;
use oqs_afw::search::SearchState;
use oqs_afw::threshold::{ModCase, SearchError, Threshold};

#[test]
fn ideal_search_converges_exactly() {
    // an ideal noiseless classifier: the search must land exactly on the
    // hidden flip point, across the bracket
    let maxmod = 8192u16;
    for x in [2u16, 3, 7, 37, 100, 1000, 4096, 5000, 8000, 8190, 8191] {
        let (found, probes) = run_ideal_search(x, maxmod, 100, 100);
        assert_eq!(found, x);
        // logarithmically many probes, with generous slack for the skew
        // and the confirmation overhead
        assert!(probes <= 300, "{} probes for x={}", probes, x);
    }
}

#[test]
fn ideal_search_small_bracket() {
    for x in 2u16..16 {
        let (found, _probes) = run_ideal_search(x, 16, 10, 10);
        assert_eq!(found, x);
    }
}

#[test]
fn threshold_partition_concrete() {
    // low profile at 7.14%, high at 100%: the ranges must not overlap and
    // the midpoint must classify as ambiguous
    let t = Threshold::new(714, 10000);
    assert!(t.goodlowrange <= t.goodhighrange);
    assert!(matches!(t.distinguish(0), Ok(ModCase::TooLowMod)));
    assert!(matches!(t.distinguish(t.goodlowrange - 1), Ok(ModCase::TooLowMod)));
    assert!(matches!(t.distinguish(t.goodlowrange), Err(SearchError::RetryMod)));
    assert!(matches!(t.distinguish(t.midpoint), Err(SearchError::RetryMod)));
    assert!(matches!(t.distinguish(t.goodhighrange - 1), Err(SearchError::RetryMod)));
    assert!(matches!(t.distinguish(t.goodhighrange), Ok(ModCase::TooHighMod)));
    assert!(matches!(t.distinguish(10000), Ok(ModCase::TooHighMod)));
}

#[test]
fn threshold_ranges_span_quarters() {
    let t = Threshold::new(1000, 9000);
    // diff 8000: quarter 2000
    assert_eq!(t.midpoint, 5000);
    assert_eq!(t.goodlowrange, 3000);
    assert_eq!(t.goodhighrange, 7000);
}

#[test]
fn update_state_profiles_then_searches() {
    // drive the state machine by hand through its two profiling steps
    let mut st = SearchState::new(8192, 0, 63, 500, 100);
    // first probe: amount 1
    assert_eq!(st.calc_midpoint(), 1);
    assert!(matches!(st.update_state(714, 1), Ok(None)));
    // second probe: the high-perturbation extreme
    assert_eq!(st.calc_midpoint(), 8191);
    assert!(matches!(st.update_state(10000, 8191), Ok(None)));
    // profiling done: full bracket, binary search iterations
    assert_eq!(st.lowlim, 0);
    assert_eq!(st.highlim, 8192);
    assert_eq!(st.iterations, 500);
    assert!(st.threshold.is_some());
    // first binary-search probe is the true midpoint
    assert_eq!(st.calc_midpoint(), 4096);
}

#[test]
fn update_state_rejects_weak_profile() {
    // the high-perturbation percentage must exceed the low one by the
    // configured margin
    let mut st = SearchState::new(8192, 0, 63, 500, 100);
    let m = st.calc_midpoint();
    assert!(matches!(st.update_state(5000, m), Ok(None)));
    let m2 = st.calc_midpoint();
    assert!(matches!(st.update_state(5100, m2), Err(SearchError::RetryIndex)));
}

#[test]
fn update_state_detects_contradiction() {
    let mut st = SearchState::new(8192, 0, 63, 500, 100);
    let m = st.calc_midpoint();
    st.update_state(714, m).unwrap();
    let m2 = st.calc_midpoint();
    st.update_state(10000, m2).unwrap();
    // a probe at the high bound classifying as a too-low modification is
    // a contradiction: the coordinate must be retried from scratch
    st.lowlim = 100;
    st.highlim = 200;
    assert!(matches!(
        st.update_with_case(ModCase::TooLowMod, 200),
        Err(SearchError::RetryIndex)
    ));
}
