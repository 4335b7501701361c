//! Campaign drivers: profiling, baselines and the full secret-recovery
//! loop, all generic over the KEM capability interface.

use vstd::prelude::*;
use crate::engine::{EngineError, MAX_BINARYSEARCH_ATTEMPTS, SeriesSink, indexed_name,
    mod_measure, mod_measure_interleaved, search_modification, trial_name, warmup_name};
use crate::kembuf::{Ciphertext, KemBuf, PublicKey, SecretKey, SharedSecret};
use crate::measure::MeasureSource;
use crate::oracle::FrodoKem;
use crate::params::{error_correction_limit, spec_error_correction_limit};
use crate::recorder::{Recorder, SaveAllRecorder, seq_sum};
use crate::threshold::SearchError;

verus! {

/// Mean of a recorder's retained samples, as the contracts state it.
pub open spec fn mean_of(r: Recorder<SaveAllRecorder>) -> int {
    seq_sum(r.retained()) / r.retained().len() as int
}

/// An outlier cutoff derived from a warmup series: the mean plus the
/// mean's distance from the minimum (saturating at the numeric limits).
pub open spec fn cutoff_of(mean: u64, minv: u64) -> u64 {
    let spread: u64 = if mean >= minv {
        (mean - minv) as u64
    } else {
        0u64
    };
    if mean <= u64::MAX - spread {
        (mean + spread) as u64
    } else {
        u64::MAX
    }
}

/// Exec form of `cutoff_of`.
fn derive_cutoff(mean: u64, minv: u64) -> (r: u64)
    ensures
        r == cutoff_of(mean, minv),
{
    let spread = if mean >= minv {
        mean - minv
    } else {
        0
    };
    if mean <= u64::MAX - spread {
        mean + spread
    } else {
        u64::MAX
    }
}

/// A profiling result: the latency threshold between the two perturbation
/// behaviours, the outlier cutoff, and the three series that produced
/// them (warmup, low perturbation, high perturbation).
pub struct Profile {
    pub threshold: u64,
    pub cutoff: u64,
    pub recorders: Vec<Recorder<SaveAllRecorder>>,
}

/// Profile the two perturbation extremes of one coordinate: a warmup
/// series fixes the outlier cutoff, then the mean latency of a minimal
/// and of a maximal perturbation bound the threshold between them.
pub fn profile<K: FrodoKem>(
    oracle: &mut K,
    warmup: u64,
    iterations: u64,
    source: &MeasureSource,
    sk: &mut SecretKey,
    ct: &mut Ciphertext,
) -> (r: Result<Profile, EngineError>)
    requires
        old(ct).data@.len() == old(oracle).spec_lengths().ciphertext,
        old(sk).data@.len() == old(oracle).spec_lengths().secret_key,
    ensures
        final(oracle).spec_lengths() == old(oracle).spec_lengths(),
        final(ct).data@.len() == old(ct).data@.len(),
        final(sk).data@.len() == old(sk).data@.len(),
        r is Ok ==> {
            let p = r->Ok_0;
            &&& p.recorders@.len() == 3
            &&& p.recorders@[0].wf()
            &&& p.recorders@[1].wf()
            &&& p.recorders@[2].wf()
            &&& p.recorders@[0].retained().len() > 0
            &&& p.recorders@[1].retained().len() > 0
            &&& p.recorders@[2].retained().len() > 0
            &&& p.cutoff == cutoff_of(
                mean_of(p.recorders@[0]) as u64,
                crate::recorder::seq_min(p.recorders@[0].observed()),
            )
            &&& mean_of(p.recorders@[1]) > mean_of(p.recorders@[2])
            &&& p.threshold == mean_of(p.recorders@[2]) + (mean_of(p.recorders@[1]) - mean_of(
                p.recorders@[2],
            )) / 2
        },
{
    let params = oracle.params();
    let lens = oracle.lengths();
    proof {
        assert(params.spec_c_len() >= 1) by (nonlinear_arith)
            requires
                params.PARAM_NBAR >= 1,
                params.spec_c_len() == params.PARAM_NBAR * params.PARAM_NBAR,
        ;
    }
    let mut ss = SharedSecret::new(lens.shared_secret);
    let mut recorders: Vec<Recorder<SaveAllRecorder>> = Vec::new();

    // warmup: no modification; its spread fixes the outlier cutoff
    let warm = Recorder::saveall(warmup_name(0, 0), None);
    let (warm, _gate) = match mod_measure(
        oracle,
        source,
        0,
        0,
        warmup,
        &params,
        ct,
        &mut ss,
        sk,
        warm,
    ) {
        Ok(p) => p,
        Err(e) => {
            return Err(e);
        },
    };
    let mean = match warm.aggregated_value() {
        Ok(m) => m,
        Err(()) => {
            return Err(EngineError::EmptySeries);
        },
    };
    let minimum_value = match warm.min() {
        Ok(m) => m,
        Err(()) => {
            return Err(EngineError::EmptySeries);
        },
    };
    let cutoff = derive_cutoff(mean, minimum_value);

    let last_index = params.c_len() - 1;
    let maxmod = 2 * error_correction_limit(&params);

    // small perturbation: decoding still succeeds, the comparison runs long
    let lowrec = Recorder::saveall(trial_name(0, "LOWMOD"), Some(cutoff));
    let (lowrec, _g1) = match mod_measure(
        oracle,
        source,
        1,
        last_index,
        iterations,
        &params,
        ct,
        &mut ss,
        sk,
        lowrec,
    ) {
        Ok(p) => p,
        Err(e) => {
            return Err(e);
        },
    };
    let threshold_high = match lowrec.aggregated_value() {
        Ok(m) => m,
        Err(()) => {
            return Err(EngineError::EmptySeries);
        },
    };

    // large perturbation: decoding flips, the comparison exits early
    let highrec = Recorder::saveall(trial_name(0, "HIGHMOD"), Some(cutoff));
    let (highrec, _g2) = match mod_measure(
        oracle,
        source,
        maxmod,
        last_index,
        iterations,
        &params,
        ct,
        &mut ss,
        sk,
        highrec,
    ) {
        Ok(p) => p,
        Err(e) => {
            return Err(e);
        },
    };
    let threshold_low = match highrec.aggregated_value() {
        Ok(m) => m,
        Err(()) => {
            return Err(EngineError::EmptySeries);
        },
    };

    if threshold_high <= threshold_low {
        return Err(EngineError::BadProfile);
    }
    let diff = threshold_high - threshold_low;
    let threshold = threshold_low + diff / 2;
    recorders.push(warm);
    recorders.push(lowrec);
    recorders.push(highrec);
    Ok(Profile { threshold, cutoff, recorders })
}

/// The verdict of one coordinate's search.
pub struct CoordinateOutcome {
    /// The coordinate that was searched.
    pub index: usize,
    /// The ground-truth error value of that coordinate.
    pub truth: u16,
    /// The recovered threshold amount; absent when every retry failed.
    pub recovered_x0: Option<u16>,
    /// Whether the recovered error value matches the ground truth.
    pub matched: bool,
}

/// The recovered error value matches the ground truth: the decoder flips
/// at threshold `x0`, so the hidden error it names is `limit - x0`.
pub open spec fn spec_recovery_matches(limit: u16, x0: u16, truth: u16) -> bool {
    limit - x0 == truth
}

/// Compare a recovered threshold against the ground truth (in a signed
/// domain: a threshold beyond the limit names a negative error, which can
/// never match).
pub fn recovery_matches(limit: u16, x0: u16, truth: u16) -> (r: bool)
    ensures
        r == spec_recovery_matches(limit, x0, truth),
{
    (limit as i32 - x0 as i32) == truth as i32
}

/// How many outcomes matched the ground truth.
pub open spec fn matched_count(outcomes: Seq<CoordinateOutcome>) -> int
    decreases outcomes.len(),
{
    if outcomes.len() == 0 {
        0
    } else {
        matched_count(outcomes.drop_last()) + if outcomes.last().matched {
            1int
        } else {
            0int
        }
    }
}

/// How many coordinates were abandoned unrecovered.
pub open spec fn skipped_count(outcomes: Seq<CoordinateOutcome>) -> int
    decreases outcomes.len(),
{
    if outcomes.len() == 0 {
        0
    } else {
        skipped_count(outcomes.drop_last()) + if outcomes.last().recovered_x0 is None {
            1int
        } else {
            0int
        }
    }
}

/// One more outcome steps both counters by its own verdict.
proof fn lemma_outcome_counts_push(s: Seq<CoordinateOutcome>, o: CoordinateOutcome)
    ensures
        matched_count(s.push(o)) == matched_count(s) + if o.matched {
            1int
        } else {
            0int
        },
        skipped_count(s.push(o)) == skipped_count(s) + if o.recovered_x0 is None {
            1int
        } else {
            0int
        },
{
    assert(s.push(o).drop_last() =~= s);
}

/// Running totals of a secret-recovery campaign.
pub struct CrackStats {
    /// Coordinates attempted.
    pub indexes: u64,
    /// Coordinates whose recovered value matched the ground truth.
    pub successes: u64,
    /// Coordinates abandoned after every retry failed.
    pub skipped: u64,
    /// The per-coordinate verdicts, in the order the campaign visited
    /// them.
    pub outcomes: Vec<CoordinateOutcome>,
}

/// The full secret-recovery campaign: for each of `nbr_encaps` fresh
/// ciphertexts, search every coordinate of the last matrix row, compare
/// the recovered value against ground truth, and accumulate the success
/// statistic. Per-coordinate failures are retried a bounded number of
/// times, then skipped; they never abort the campaign. Every probe series
/// lands in the caller's `recorders` and goes through the sink as it is
/// taken, so partial campaigns are never lost.
#[verifier::rlimit(60)]
pub fn crack_s<K: FrodoKem, S: SeriesSink>(
    oracle: &mut K,
    warmup: u64,
    iterations: u64,
    profileiters: u64,
    source: &MeasureSource,
    nbr_encaps: u64,
    recorders: &mut Vec<Recorder<SaveAllRecorder>>,
    sink: &mut S,
) -> (r: Result<CrackStats, EngineError>)
    requires
        nbr_encaps <= 0x10000,
        forall|i: int| 0 <= i < old(recorders)@.len() ==> (#[trigger] old(recorders)@[i]).wf(),
    ensures
        r is Ok ==> {
            let stats = r->Ok_0;
            let limit = spec_error_correction_limit(old(oracle).spec_params());
            &&& stats.outcomes@.len() == nbr_encaps * old(oracle).spec_params().PARAM_NBAR
            &&& stats.indexes == stats.outcomes@.len()
            &&& stats.successes == matched_count(stats.outcomes@)
            &&& stats.skipped == skipped_count(stats.outcomes@)
            &&& stats.successes + stats.skipped <= stats.indexes
            &&& forall|k: int|
                0 <= k < stats.outcomes@.len() ==> (#[trigger] stats.outcomes@[k]).matched
                    == match stats.outcomes@[k].recovered_x0 {
                    Some(x0) => spec_recovery_matches(limit, x0, stats.outcomes@[k].truth),
                    None => false,
                }
        },
        forall|i: int| 0 <= i < final(recorders)@.len() ==> (#[trigger] final(recorders)@[i]).wf(),
{
    let params = oracle.params();
    let lens = oracle.lengths();
    proof {
        assert(lens == old(oracle).spec_lengths());
    }
    let mut public_key = PublicKey::new(lens.public_key);
    let mut secret_key = SecretKey::new(lens.secret_key);
    let mut ciphertext = Ciphertext::new(lens.ciphertext);
    let mut shared_secret_e = SharedSecret::new(lens.shared_secret);
    let mut shared_secret_d = SharedSecret::new(lens.shared_secret);

    match oracle.keypair(&mut public_key, &mut secret_key) {
        Ok(()) => (),
        Err(e) => {
            return Err(EngineError::Oracle(e));
        },
    }

    let nbar: usize = (params.PARAM_NBAR) as usize;
    let err_corr_limit = error_correction_limit(&params);
    let c_len = params.c_len();
    proof {
        assert(params.spec_c_len() >= 1 && (params.PARAM_NBAR - 1) * params.PARAM_NBAR
            + params.PARAM_NBAR <= params.PARAM_NBAR * params.PARAM_NBAR) by (nonlinear_arith)
            requires
                params.PARAM_NBAR >= 1,
                params.spec_c_len() == params.PARAM_NBAR * params.PARAM_NBAR,
        ;
        assert((nbar - 1) * nbar + nbar <= c_len) by (nonlinear_arith)
            requires
                nbar == params.PARAM_NBAR,
                c_len == params.PARAM_NBAR * params.PARAM_NBAR,
                nbar >= 1,
        ;
    }
    let i_row = nbar - 1;

    let mut outcomes: Vec<CoordinateOutcome> = Vec::new();
    let mut indexes: u64 = 0;
    let mut successes: u64 = 0;
    let mut skipped: u64 = 0;

    let mut t: u64 = 0;
    while t < nbr_encaps
        invariant
            params == old(oracle).spec_params(),
            params.wf(),
            4 <= 2 * spec_error_correction_limit(params) <= 16384,
            err_corr_limit == spec_error_correction_limit(params),
            oracle.spec_lengths() == old(oracle).spec_lengths(),
            ciphertext.data@.len() == oracle.spec_lengths().ciphertext,
            ciphertext.data@.len() >= params.spec_bp_bytes() + params.spec_c_bytes(),
            shared_secret_e.data@.len() == oracle.spec_lengths().shared_secret,
            shared_secret_d.data@.len() == oracle.spec_lengths().shared_secret,
            public_key.data@.len() == oracle.spec_lengths().public_key,
            secret_key.data@.len() == oracle.spec_lengths().secret_key,
            nbar == params.PARAM_NBAR,
            c_len == params.spec_c_len(),
            i_row == nbar - 1,
            (i_row * nbar) + nbar <= c_len,
            outcomes@.len() == t * nbar,
            indexes == outcomes@.len(),
            successes == matched_count(outcomes@),
            skipped == skipped_count(outcomes@),
            successes + skipped <= indexes,
            forall|k: int|
                0 <= k < outcomes@.len() ==> (#[trigger] outcomes@[k]).matched == match outcomes@[
                k].recovered_x0 {
                    Some(x0) => spec_recovery_matches(spec_error_correction_limit(params), x0,
                        outcomes@[k].truth),
                    None => false,
                },
            t <= nbr_encaps <= 0x10000,
            forall|k: int| 0 <= k < recorders@.len() ==> (#[trigger] recorders@[k]).wf(),
        decreases nbr_encaps - t,
    {
        match oracle.encaps(&mut ciphertext, &mut shared_secret_e, &public_key) {
            Ok(()) => (),
            Err(e) => {
                return Err(EngineError::Oracle(e));
            },
        }
        let eref = match oracle.calculate_eref(&ciphertext, &mut secret_key) {
            Ok(v) => v,
            Err(e) => {
                return Err(EngineError::Oracle(e));
            },
        };
        // the ground truth must have one entry per coordinate, each below
        // the error-correction limit; the trait promises this against the
        // oracle's parameters at call time, but nothing ties those to the
        // parameters read at entry, so the shape is checked rather than
        // assumed
        if eref.len() != c_len {
            return Err(EngineError::Internal);
        }
        let mut g: usize = 0;
        while g < c_len
            invariant
                c_len == eref@.len(),
                g <= c_len,
                err_corr_limit == spec_error_correction_limit(params),
                forall|k: int| 0 <= k < g ==> #[trigger] eref@[k] < err_corr_limit,
                forall|k: int| 0 <= k < recorders@.len() ==> (#[trigger] recorders@[k]).wf(),
            decreases c_len - g,
        {
            if eref[g] >= err_corr_limit {
                return Err(EngineError::Internal);
            }
            g = g + 1;
        }
        let mut j: usize = 0;
        while j < nbar
            invariant
                params == old(oracle).spec_params(),
                params.wf(),
                4 <= 2 * spec_error_correction_limit(params) <= 16384,
                err_corr_limit == spec_error_correction_limit(params),
                oracle.spec_lengths() == old(oracle).spec_lengths(),
                ciphertext.data@.len() == oracle.spec_lengths().ciphertext,
                ciphertext.data@.len() >= params.spec_bp_bytes() + params.spec_c_bytes(),
                shared_secret_e.data@.len() == oracle.spec_lengths().shared_secret,
                shared_secret_d.data@.len() == oracle.spec_lengths().shared_secret,
                public_key.data@.len() == oracle.spec_lengths().public_key,
                secret_key.data@.len() == oracle.spec_lengths().secret_key,
                nbar == params.PARAM_NBAR,
                c_len == params.spec_c_len(),
                i_row == nbar - 1,
                (i_row * nbar) + nbar <= c_len,
                eref@.len() == c_len,
                err_corr_limit == spec_error_correction_limit(params),
                forall|k: int|
                    0 <= k < eref@.len() ==> #[trigger] eref@[k] < err_corr_limit,
                j <= nbar,
                outcomes@.len() == t * nbar + j,
                indexes == outcomes@.len(),
                successes == matched_count(outcomes@),
                skipped == skipped_count(outcomes@),
                successes + skipped <= indexes,
                forall|k: int|
                    0 <= k < outcomes@.len() ==> (#[trigger] outcomes@[k]).matched
                        == match outcomes@[k].recovered_x0 {
                        Some(x0) => spec_recovery_matches(spec_error_correction_limit(params), x0,
                            outcomes@[k].truth),
                        None => false,
                    },
                t < nbr_encaps <= 0x10000,
                nbar <= 16,
                forall|k: int| 0 <= k < recorders@.len() ==> (#[trigger] recorders@[k]).wf(),
            decreases nbar - j,
        {
            let index = i_row * nbar + j;
            let expected_x0 = err_corr_limit - eref[index];
            let mut attempt: u8 = 0;
            let mut found: Option<u16> = None;
            let mut aborted = false;
            while attempt < MAX_BINARYSEARCH_ATTEMPTS && found.is_none() && !aborted
                invariant
                    params == old(oracle).spec_params(),
                    params.wf(),
                    4 <= 2 * spec_error_correction_limit(params) <= 16384,
                    oracle.spec_lengths() == old(oracle).spec_lengths(),
                    ciphertext.data@.len() == oracle.spec_lengths().ciphertext,
                    ciphertext.data@.len() >= params.spec_bp_bytes() + params.spec_c_bytes(),
                    shared_secret_d.data@.len() == oracle.spec_lengths().shared_secret,
                    secret_key.data@.len() == oracle.spec_lengths().secret_key,
                    c_len == params.spec_c_len(),
                    0 <= index < c_len,
                    forall|k: int| 0 <= k < recorders@.len() ==> (#[trigger] recorders@[k]).wf(),
                decreases MAX_BINARYSEARCH_ATTEMPTS - attempt,
            {
                attempt = attempt + 1;
                // a fresh warmup fixes the cutoff for this attempt
                let warm = Recorder::saveall(warmup_name(t, index), None);
                let measured = mod_measure(
                    oracle,
                    source,
                    0,
                    index,
                    warmup,
                    &params,
                    &mut ciphertext,
                    &mut shared_secret_d,
                    &mut secret_key,
                    warm,
                );
                let warm = match measured {
                    Ok((w, _g)) => w,
                    Err(_) => {
                        aborted = true;
                        break ;
                    },
                };
                let mean = match warm.aggregated_value() {
                    Ok(m) => m,
                    Err(()) => {
                        aborted = true;
                        break ;
                    },
                };
                let minimum_value = match warm.min() {
                    Ok(m) => m,
                    Err(()) => {
                        aborted = true;
                        break ;
                    },
                };
                let cutoff = derive_cutoff(mean, minimum_value);
                let res = search_modification(
                    oracle,
                    source,
                    t,
                    index,
                    iterations,
                    profileiters,
                    cutoff,
                    &mut ciphertext,
                    &mut shared_secret_d,
                    &mut secret_key,
                    expected_x0,
                    recorders,
                    sink,
                );
                match res {
                    Ok(outcome) => {
                        found = Some(outcome.value);
                    },
                    Err(SearchError::Internal) => {
                        aborted = true;
                    },
                    Err(_) => {
                        // RetryIndex / RetryMod: restart with a fresh profile
                    },
                }
            }
            if aborted {
                return Err(EngineError::Internal);
            }
            proof {
                assert(t * nbar + j < 0x100000) by (nonlinear_arith)
                    requires
                        t < nbr_encaps,
                        nbr_encaps <= 0x10000,
                        nbar <= 16,
                        0 <= j < nbar,
                        0 <= t,
                ;
            }
            indexes = indexes + 1;
            let truth = eref[index];
            let matched = match found {
                Some(x0) => {
                    let m = recovery_matches(err_corr_limit, x0, truth);
                    if m {
                        successes = successes + 1;
                    }
                    m
                },
                None => {
                    skipped = skipped + 1;
                    false
                },
            };
            let outcome = CoordinateOutcome { index, truth, recovered_x0: found, matched };
            proof {
                lemma_outcome_counts_push(outcomes@, outcome);
            }
            outcomes.push(outcome);
            j = j + 1;
        }
        proof {
            assert(t * nbar + nbar == (t + 1) * nbar) by (nonlinear_arith);
        }
        t = t + 1;
    }
    proof {
        assert(outcomes@.len() == nbr_encaps * nbar);
        assert(nbr_encaps * nbar == nbr_encaps * params.PARAM_NBAR) by (nonlinear_arith)
            requires
                nbar == params.PARAM_NBAR,
        ;
    }
    Ok(CrackStats { indexes, successes, skipped, outcomes })
}


/// One trial of the baseline routine: an unmodified series, a minimally
/// perturbed series and a maximally perturbed series of the last
/// coordinate, three recorders per trial.
#[verifier::rlimit(30)]
pub fn baseline_memcmp_frodo<K: FrodoKem>(
    oracle: &mut K,
    samples: u64,
    warmup: u64,
    source: &MeasureSource,
    trials: u64,
) -> (r: Result<Vec<Recorder<SaveAllRecorder>>, EngineError>)
    requires
        trials <= 0x10000,
    ensures
        final(oracle).spec_lengths() == old(oracle).spec_lengths(),
        r is Ok ==> r->Ok_0@.len() == 3 * trials,
        r is Ok ==> forall|i: int|
            0 <= i < r->Ok_0@.len() ==> (#[trigger] r->Ok_0@[i]).wf() && r->Ok_0@[
            i].spec_cutoff() is None && r->Ok_0@[i].retained().len() <= samples,
        r is Ok ==> forall|t2: int|
            0 <= t2 < trials ==> (#[trigger] r->Ok_0@[3 * t2]).retained().len() > 0,
{
    let params = oracle.params();
    let lens = oracle.lengths();
    proof {
        assert(params.spec_c_len() >= 1) by (nonlinear_arith)
            requires
                params.PARAM_NBAR >= 1,
                params.spec_c_len() == params.PARAM_NBAR * params.PARAM_NBAR,
        ;
    }
    let mut public_key = PublicKey::new(lens.public_key);
    let mut secret_key = SecretKey::new(lens.secret_key);
    let mut ciphertext = Ciphertext::new(lens.ciphertext);
    let mut shared_secret_e = SharedSecret::new(lens.shared_secret);
    let mut shared_secret_d = SharedSecret::new(lens.shared_secret);
    match oracle.keypair(&mut public_key, &mut secret_key) {
        Ok(()) => (),
        Err(e) => {
            return Err(EngineError::Oracle(e));
        },
    }
    match oracle.encaps(&mut ciphertext, &mut shared_secret_e, &public_key) {
        Ok(()) => (),
        Err(e) => {
            return Err(EngineError::Oracle(e));
        },
    }
    let maxmod = 2 * error_correction_limit(&params);
    let last_index = params.c_len() - 1;

    // warmup, discarded
    let warm = Recorder::saveall(warmup_name(0, 0), None);
    match mod_measure(
        oracle,
        source,
        maxmod,
        0,
        warmup,
        &params,
        &mut ciphertext,
        &mut shared_secret_d,
        &mut secret_key,
        warm,
    ) {
        Ok(_) => (),
        Err(e) => {
            return Err(e);
        },
    }

    let mut recorders: Vec<Recorder<SaveAllRecorder>> = Vec::new();
    let mut t: u64 = 0;
    while t < trials
        invariant
            params == old(oracle).spec_params(),
            params.wf(),
            maxmod == 2 * spec_error_correction_limit(params),
            4 <= maxmod <= 16384,
            maxmod + 2 <= params.PARAM_QMAX,
            oracle.spec_lengths() == old(oracle).spec_lengths(),
            ciphertext.data@.len() == oracle.spec_lengths().ciphertext,
            ciphertext.data@.len() >= params.spec_bp_bytes() + params.spec_c_bytes(),
            shared_secret_e.data@.len() == oracle.spec_lengths().shared_secret,
            shared_secret_d.data@.len() == oracle.spec_lengths().shared_secret,
            public_key.data@.len() == oracle.spec_lengths().public_key,
            secret_key.data@.len() == oracle.spec_lengths().secret_key,
            0 <= last_index < params.spec_c_len(),
            t <= trials <= 0x10000,
            recorders@.len() == 3 * t,
            forall|i: int|
                0 <= i < recorders@.len() ==> (#[trigger] recorders@[i]).wf() && recorders@[
                i].spec_cutoff() is None && recorders@[i].retained().len() <= samples,
            forall|t2: int|
                0 <= t2 < t ==> (#[trigger] recorders@[3 * t2]).retained().len() > 0,
        decreases trials - t,
    {
        match oracle.encaps(&mut ciphertext, &mut shared_secret_e, &public_key) {
            Ok(()) => (),
            Err(e) => {
                return Err(EngineError::Oracle(e));
            },
        }
        let rec = Recorder::saveall(trial_name(t, "NOMOD"), None);
        let rec_unmodified = match mod_measure(
            oracle,
            source,
            0,
            0,
            samples,
            &params,
            &mut ciphertext,
            &mut shared_secret_d,
            &mut secret_key,
            rec,
        ) {
            Ok((rec, _g)) => rec,
            Err(e) => {
                return Err(e);
            },
        };
        if rec_unmodified.len() == 0 {
            return Err(EngineError::EmptySeries);
        }
        let rec = Recorder::saveall(indexed_name(t, "MINOR", last_index), None);
        let rec_modified_minor = match mod_measure(
            oracle,
            source,
            1,
            last_index,
            samples,
            &params,
            &mut ciphertext,
            &mut shared_secret_d,
            &mut secret_key,
            rec,
        ) {
            Ok((rec, _g)) => rec,
            Err(e) => {
                return Err(e);
            },
        };
        let rec = Recorder::saveall(indexed_name(t, "MAJOR", last_index), None);
        let rec_modified_major = match mod_measure(
            oracle,
            source,
            maxmod,
            last_index,
            samples,
            &params,
            &mut ciphertext,
            &mut shared_secret_d,
            &mut secret_key,
            rec,
        ) {
            Ok((rec, _g)) => rec,
            Err(e) => {
                return Err(e);
            },
        };
        recorders.push(rec_unmodified);
        recorders.push(rec_modified_minor);
        recorders.push(rec_modified_major);
        t = t + 1;
    }
    Ok(recorders)
}

/// The baseline routine against the re-encryption comparison of the
/// Fujisaki–Okamoto transform: one trial of the three baseline series.
pub fn fujisaki_okamoto_baseline<K: FrodoKem>(
    oracle: &mut K,
    samples: u64,
    warmup: u64,
    source: &MeasureSource,
) -> (r: Result<Vec<Recorder<SaveAllRecorder>>, EngineError>)
    ensures
        final(oracle).spec_lengths() == old(oracle).spec_lengths(),
        r is Ok ==> r->Ok_0@.len() == 3,
        r is Ok ==> forall|i: int|
            0 <= i < r->Ok_0@.len() ==> (#[trigger] r->Ok_0@[i]).wf() && r->Ok_0@[
            i].spec_cutoff() is None && r->Ok_0@[i].retained().len() <= samples,
        r is Ok ==> r->Ok_0@[0].retained().len() > 0,
{
    match source.prep_thread() {
        Ok(()) => (),
        Err(()) => {
            return Err(EngineError::Internal);
        },
    }
    let r = baseline_memcmp_frodo(oracle, samples, warmup, source, 1);
    proof {
        if r is Ok {
            assert(r->Ok_0@[3 * 0int].retained().len() > 0);
        }
    }
    r
}


/// The cache-focused baseline: for every key and every encapsulation,
/// sample a minimal and a maximal perturbation of the last coordinate
/// interleaved (round robin, with cache-settling decapsulations between
/// samples), two series per encapsulation.
#[verifier::rlimit(30)]
pub fn fujisaki_okamoto_baseline_cache<K: FrodoKem>(
    oracle: &mut K,
    samples: u64,
    nencaps: u64,
    nkeys: u64,
    warmup: u64,
    source: &MeasureSource,
) -> (r: Result<Vec<Recorder<SaveAllRecorder>>, EngineError>)
    requires
        nkeys <= 0x10000,
        nencaps <= 0x10000,
    ensures
        final(oracle).spec_lengths() == old(oracle).spec_lengths(),
        r is Ok ==> r->Ok_0@.len() == 2 * (nkeys * nencaps),
        r is Ok ==> forall|i: int|
            0 <= i < r->Ok_0@.len() ==> (#[trigger] r->Ok_0@[i]).wf() && r->Ok_0@[
            i].spec_cutoff() is None && 0 < r->Ok_0@[i].retained().len() <= samples,
{
    match source.prep_thread() {
        Ok(()) => (),
        Err(()) => {
            return Err(EngineError::Internal);
        },
    }
    let params = oracle.params();
    let lens = oracle.lengths();
    proof {
        assert(params.spec_c_len() >= 1) by (nonlinear_arith)
            requires
                params.PARAM_NBAR >= 1,
                params.spec_c_len() == params.PARAM_NBAR * params.PARAM_NBAR,
        ;
    }
    let maxmod = 2 * error_correction_limit(&params);
    let last_index = params.c_len() - 1;
    let mut recorders: Vec<Recorder<SaveAllRecorder>> = Vec::new();
    let mut key: u64 = 0;
    while key < nkeys
        invariant
            params == old(oracle).spec_params(),
            params.wf(),
            maxmod == 2 * spec_error_correction_limit(params),
            4 <= maxmod <= 16384,
            maxmod + 2 <= params.PARAM_QMAX,
            oracle.spec_lengths() == old(oracle).spec_lengths(),
            lens == old(oracle).spec_lengths(),
            lens.ciphertext >= params.spec_bp_bytes() + params.spec_c_bytes(),
            0 <= last_index < params.spec_c_len(),
            key <= nkeys <= 0x10000,
            nencaps <= 0x10000,
            recorders@.len() == 2 * (key * nencaps),
            forall|i: int|
                0 <= i < recorders@.len() ==> (#[trigger] recorders@[i]).wf() && recorders@[
                i].spec_cutoff() is None && 0 < recorders@[i].retained().len() <= samples,
        decreases nkeys - key,
    {
        let mut public_key = PublicKey::new(lens.public_key);
        let mut secret_key = SecretKey::new(lens.secret_key);
        let mut ciphertext = Ciphertext::new(lens.ciphertext);
        let mut shared_secret_e = SharedSecret::new(lens.shared_secret);
        let mut shared_secret_d = SharedSecret::new(lens.shared_secret);
        match oracle.keypair(&mut public_key, &mut secret_key) {
            Ok(()) => (),
            Err(e) => {
                return Err(EngineError::Oracle(e));
            },
        }
        match oracle.encaps(&mut ciphertext, &mut shared_secret_e, &public_key) {
            Ok(()) => (),
            Err(e) => {
                return Err(EngineError::Oracle(e));
            },
        }
        // warmup, discarded
        let warm = Recorder::saveall(warmup_name(key, 0), None);
        match mod_measure(
            oracle,
            source,
            maxmod,
            0,
            warmup,
            &params,
            &mut ciphertext,
            &mut shared_secret_d,
            &mut secret_key,
            warm,
        ) {
            Ok(_) => (),
            Err(e) => {
                return Err(e);
            },
        }
        let mut t: u64 = 0;
        while t < nencaps
            invariant
                params == old(oracle).spec_params(),
                params.wf(),
                maxmod == 2 * spec_error_correction_limit(params),
                4 <= maxmod <= 16384,
                maxmod + 2 <= params.PARAM_QMAX,
                oracle.spec_lengths() == old(oracle).spec_lengths(),
                ciphertext.data@.len() == oracle.spec_lengths().ciphertext,
                ciphertext.data@.len() >= params.spec_bp_bytes() + params.spec_c_bytes(),
                shared_secret_e.data@.len() == oracle.spec_lengths().shared_secret,
                shared_secret_d.data@.len() == oracle.spec_lengths().shared_secret,
                public_key.data@.len() == oracle.spec_lengths().public_key,
                secret_key.data@.len() == oracle.spec_lengths().secret_key,
                0 <= last_index < params.spec_c_len(),
                key < nkeys <= 0x10000,
                t <= nencaps <= 0x10000,
                recorders@.len() == 2 * (key * nencaps) + 2 * t,
                forall|i: int|
                    0 <= i < recorders@.len() ==> (#[trigger] recorders@[i]).wf() && recorders@[
                    i].spec_cutoff() is None && 0 < recorders@[i].retained().len() <= samples,
            decreases nencaps - t,
        {
            match oracle.encaps(&mut ciphertext, &mut shared_secret_e, &public_key) {
                Ok(()) => (),
                Err(e) => {
                    return Err(EngineError::Oracle(e));
                },
            }
            let mut amounts: Vec<u16> = Vec::new();
            amounts.push(1);
            amounts.push(maxmod);
            let newrecs = match mod_measure_interleaved(
                oracle,
                source,
                &amounts,
                last_index,
                samples,
                &params,
                &mut ciphertext,
                &mut shared_secret_d,
                &mut secret_key,
            ) {
                Ok(rs) => rs,
                Err(e) => {
                    return Err(e);
                },
            };
            let mut rest = newrecs;
            let major = match rest.pop() {
                Some(r) => r,
                None => {
                    return Err(EngineError::Internal);
                },
            };
            let minor = match rest.pop() {
                Some(r) => r,
                None => {
                    return Err(EngineError::Internal);
                },
            };
            if minor.len() == 0 || major.len() == 0 {
                return Err(EngineError::EmptySeries);
            }
            recorders.push(minor);
            recorders.push(major);
            t = t + 1;
        }
        proof {
            assert(2 * (key * nencaps) + 2 * nencaps == 2 * ((key + 1) * nencaps))
                by (nonlinear_arith);
        }
        key = key + 1;
    }
    Ok(recorders)
}

/// The multipoint profiling baseline: the same interleaved minimal and
/// maximal perturbation series, taken through the internally instrumented
/// decapsulation for every key and encapsulation. (The original design
/// also split each sample into per-checkpoint sub-series; those rest on
/// instrumentation this oracle interface does not expose, so the total
/// latency series is what remains.)
pub fn fujisaki_okamoto_baseline_multipoint_profiling<K: FrodoKem>(
    oracle: &mut K,
    samples: u64,
    nencaps: u64,
    nkeys: u64,
    warmup: u64,
) -> (r: Result<Vec<Recorder<SaveAllRecorder>>, EngineError>)
    requires
        nkeys <= 0x10000,
        nencaps <= 0x10000,
    ensures
        final(oracle).spec_lengths() == old(oracle).spec_lengths(),
        r is Ok ==> r->Ok_0@.len() == 2 * (nkeys * nencaps),
        r is Ok ==> forall|i: int|
            0 <= i < r->Ok_0@.len() ==> (#[trigger] r->Ok_0@[i]).wf() && r->Ok_0@[
            i].spec_cutoff() is None && 0 < r->Ok_0@[i].retained().len() <= samples,
{
    let source = MeasureSource::Internal;
    fujisaki_okamoto_baseline_cache(oracle, samples, nencaps, nkeys, warmup, &source)
}

/// Find, for every coordinate, the largest modification that leaves the
/// decapsulation on its slow path: a plain two-thirds-biased binary
/// search against a fixed latency threshold, without the confirmation
/// machinery (subsumed by the full search as its degenerate form).
#[verifier::rlimit(30)]
pub fn find_e<K: FrodoKem>(
    oracle: &mut K,
    warmup: u64,
    iterations: u64,
    source: &MeasureSource,
) -> (r: Result<Vec<u16>, EngineError>)
    ensures
        final(oracle).spec_lengths() == old(oracle).spec_lengths(),
        r is Ok ==> r->Ok_0@.len() == old(oracle).spec_params().spec_c_len(),
        r is Ok ==> forall|k: int|
            0 <= k < r->Ok_0@.len() ==> #[trigger] r->Ok_0@[k] < 2 * spec_error_correction_limit(
                old(oracle).spec_params(),
            ),
{
    let params = oracle.params();
    let lens = oracle.lengths();
    proof {
        assert(params.spec_c_len() >= 1) by (nonlinear_arith)
            requires
                params.PARAM_NBAR >= 1,
                params.spec_c_len() == params.PARAM_NBAR * params.PARAM_NBAR,
        ;
    }
    let mut public_key = PublicKey::new(lens.public_key);
    let mut secret_key = SecretKey::new(lens.secret_key);
    let mut ciphertext = Ciphertext::new(lens.ciphertext);
    let mut shared_secret_e = SharedSecret::new(lens.shared_secret);
    let mut shared_secret_d = SharedSecret::new(lens.shared_secret);
    match oracle.keypair(&mut public_key, &mut secret_key) {
        Ok(()) => (),
        Err(e) => {
            return Err(EngineError::Oracle(e));
        },
    }
    match oracle.encaps(&mut ciphertext, &mut shared_secret_e, &public_key) {
        Ok(()) => (),
        Err(e) => {
            return Err(EngineError::Oracle(e));
        },
    }
    let maxmod = 2 * error_correction_limit(&params);
    let last_index = params.c_len() - 1;
    let c_len = params.c_len();

    // warmup
    let warm = Recorder::saveall(warmup_name(0, 0), None);
    match mod_measure(
        oracle,
        source,
        0,
        0,
        warmup,
        &params,
        &mut ciphertext,
        &mut shared_secret_d,
        &mut secret_key,
        warm,
    ) {
        Ok(_) => (),
        Err(e) => {
            return Err(e);
        },
    }

    // profile the two extremes to fix the latency threshold
    let rec = Recorder::saveall(indexed_name(0, "PROFILE", last_index), None);
    let rec = match mod_measure(
        oracle,
        source,
        1,
        last_index,
        iterations,
        &params,
        &mut ciphertext,
        &mut shared_secret_d,
        &mut secret_key,
        rec,
    ) {
        Ok((rec, _g)) => rec,
        Err(e) => {
            return Err(e);
        },
    };
    let threshold_high = match rec.median() {
        Ok(m) => m,
        Err(()) => {
            return Err(EngineError::EmptySeries);
        },
    };
    let rec = Recorder::saveall(indexed_name(1, "PROFILE", last_index), None);
    let rec = match mod_measure(
        oracle,
        source,
        maxmod,
        last_index,
        iterations,
        &params,
        &mut ciphertext,
        &mut shared_secret_d,
        &mut secret_key,
        rec,
    ) {
        Ok((rec, _g)) => rec,
        Err(e) => {
            return Err(e);
        },
    };
    let threshold_low = match rec.median() {
        Ok(m) => m,
        Err(()) => {
            return Err(EngineError::EmptySeries);
        },
    };
    let threshold = ((threshold_high as u128 + threshold_low as u128) / 2) as u64;

    let mut mods: Vec<u16> = Vec::new();
    let mut index_ij: usize = 0;
    while index_ij < c_len
        invariant
            params == old(oracle).spec_params(),
            params.wf(),
            maxmod == 2 * spec_error_correction_limit(params),
            4 <= maxmod <= 16384,
            maxmod + 2 <= params.PARAM_QMAX,
            oracle.spec_lengths() == old(oracle).spec_lengths(),
            ciphertext.data@.len() == oracle.spec_lengths().ciphertext,
            ciphertext.data@.len() >= params.spec_bp_bytes() + params.spec_c_bytes(),
            shared_secret_d.data@.len() == oracle.spec_lengths().shared_secret,
            secret_key.data@.len() == oracle.spec_lengths().secret_key,
            c_len == params.spec_c_len(),
            index_ij <= c_len,
            mods@.len() == index_ij,
            forall|k: int| 0 <= k < mods@.len() ==> #[trigger] mods@[k] < maxmod,
        decreases c_len - index_ij,
    {
        let mut high: u16 = maxmod;
        let mut low: u16 = 0;
        let mut found: u16 = 0;
        let mut probe_err: Option<EngineError> = None;
        while high - low >= 2 && probe_err.is_none()
            invariant
                params == old(oracle).spec_params(),
                params.wf(),
                maxmod == 2 * spec_error_correction_limit(params),
                4 <= maxmod <= 16384,
                maxmod + 2 <= params.PARAM_QMAX,
                oracle.spec_lengths() == old(oracle).spec_lengths(),
                ciphertext.data@.len() == oracle.spec_lengths().ciphertext,
                ciphertext.data@.len() >= params.spec_bp_bytes() + params.spec_c_bytes(),
                shared_secret_d.data@.len() == oracle.spec_lengths().shared_secret,
                secret_key.data@.len() == oracle.spec_lengths().secret_key,
                c_len == params.spec_c_len(),
                index_ij < c_len,
                low < high <= maxmod,
            decreases high - low,
        {
            let currentmod: u16 = ((high as u32 + high as u32 + low as u32) / 3) as u16;
            proof {
                assert(low + 1 <= (high + high + low) as int / 3 <= high - 1) by (nonlinear_arith)
                    requires
                        low + 2 <= high,
                ;
            }
            let rec = Recorder::saveall(indexed_name(2, "MEDIAN", index_ij), None);
            let rec = match mod_measure(
                oracle,
                source,
                currentmod,
                index_ij,
                iterations,
                &params,
                &mut ciphertext,
                &mut shared_secret_d,
                &mut secret_key,
                rec,
            ) {
                Ok((rec, _g)) => rec,
                Err(e) => {
                    probe_err = Some(e);
                    break ;
                },
            };
            let time = match rec.median() {
                Ok(m) => m,
                Err(()) => {
                    probe_err = Some(EngineError::EmptySeries);
                    break ;
                },
            };
            if time >= threshold {
                low = currentmod;
            } else {
                high = currentmod;
            }
        }
        if let Some(e) = probe_err {
            return Err(e);
        }
        found = low;
        mods.push(found);
        index_ij = index_ij + 1;
    }
    Ok(mods)
}

} // verus!
