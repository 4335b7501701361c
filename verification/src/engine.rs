//! The modify–measure–classify engine and the campaign drivers built on
//! it: repeated measured decapsulations of a perturbed ciphertext feed a
//! sample recorder, whose percentage summary drives the adaptive search.

use vstd::prelude::*;
use crate::kembuf::{Ciphertext, SecretKey, SharedSecret};
use crate::measure::{MeasureSource, NoCachePrepping};
use crate::modify::{Sign, lemma_modify_round_trip, modify};
use crate::oracle::{FrodoKem, KemMeasure, OracleError};
use crate::params::{FrodoKemParams, error_correction_limit};
use crate::recorder::{Recorder, SaveAllRecorder};
use crate::search::SearchState;
use crate::threshold::SearchError;

verus! {

/// A sample is ambiguous this many times in a row before the coordinate
/// search is abandoned.
pub const MAX_MOD_RETRIES: u8 = 6;

/// A coordinate's profiling-and-search sequence restarts at most this many
/// times before the coordinate is reported unrecovered.
pub const MAX_BINARYSEARCH_ATTEMPTS: u8 = 3;

/// Why the engine had to stop a measurement series.
#[derive(Debug)]
pub enum EngineError {
    /// The underlying KEM primitive failed.
    Oracle(OracleError),
    /// A recorder's sample counter is exhausted.
    RecorderFull,
    /// An aggregation was requested of a series with no retained samples.
    EmptySeries,
    /// Profiling could not separate the two perturbation behaviours.
    BadProfile,
    /// The engine reached a state it cannot recover from.
    Internal,
}

/// The sample recorder kept fewer than a quarter of the attempted
/// iterations: the data-quality warning threshold.
pub open spec fn quality_gate_fires(retained: int, iterations: u64) -> bool {
    retained < iterations as int / 4
}

/// The quality gate tolerates any dropout of at most three quarters of the
/// samples, and always fires beyond ninety percent dropout (for runs of at
/// least twenty samples).
pub proof fn lemma_quality_gate(retained: int, dropped: int, iterations: u64)
    requires
        0 <= retained,
        0 <= dropped,
        retained + dropped == iterations,
    ensures
        4 * dropped <= 3 * iterations ==> !quality_gate_fires(retained, iterations),
        10 * dropped >= 9 * iterations && iterations >= 20 ==> quality_gate_fires(
            retained,
            iterations,
        ),
{
    let i = iterations as int;
    vstd::arithmetic::div_mod::lemma_fundamental_div_mod(i, 4);
    vstd::arithmetic::div_mod::lemma_mod_bound(i, 4);
    if 4 * dropped <= 3 * i {
        assert(4 * retained >= i);
    }
    if 10 * dropped >= 9 * i && i >= 20 {
        assert(10 * retained <= i);
    }
}

/// Measure `iterations` decapsulations of the ciphertext perturbed by
/// `amount` at `index_ij`, recording every valid sample. The perturbation
/// is undone afterwards: on success the ciphertext is byte-identical to
/// what it was. The boolean reports the data-quality warning: fewer than
/// a quarter of the iterations were retained.
#[verifier::rlimit(30)]
pub fn mod_measure<K: KemMeasure>(
    oracle: &mut K,
    source: &MeasureSource,
    amount: u16,
    index_ij: usize,
    iterations: u64,
    params: &FrodoKemParams,
    ct: &mut Ciphertext,
    ss: &mut SharedSecret,
    sk: &mut SecretKey,
    recorder: Recorder<SaveAllRecorder>,
) -> (r: Result<(Recorder<SaveAllRecorder>, bool), EngineError>)
    requires
        params.wf(),
        amount <= params.PARAM_QMAX,
        0 <= index_ij < params.spec_c_len(),
        old(ct).data@.len() == old(oracle).spec_lengths().ciphertext,
        old(ct).data@.len() >= params.spec_bp_bytes() + params.spec_c_bytes(),
        old(ss).data@.len() == old(oracle).spec_lengths().shared_secret,
        old(sk).data@.len() == old(oracle).spec_lengths().secret_key,
        recorder.wf(),
    ensures
        final(oracle).spec_lengths() == old(oracle).spec_lengths(),
        final(ss).data@.len() == old(ss).data@.len(),
        final(sk).data@.len() == old(sk).data@.len(),
        final(ct).data@.len() == old(ct).data@.len(),
        r is Ok ==> final(ct).data@ == old(ct).data@,
        r is Ok ==> r->Ok_0.0.wf() && r->Ok_0.0.spec_cutoff() == recorder.spec_cutoff()
            && r->Ok_0.0.spec_name() == recorder.spec_name(),
        r is Ok ==> r->Ok_0.1 == quality_gate_fires(r->Ok_0.0.retained().len() as int, iterations),
        r is Ok ==> recorder.retained().len() <= r->Ok_0.0.retained().len()
            <= recorder.retained().len() + iterations,
{
    let ghost pre = ct.data@;
    let modres = modify(&mut ct.data, params, index_ij, Sign::Plus(amount));
    let ghost mid = ct.data@;
    let mut rec = recorder;
    let mut i: u64 = 0;
    let mut failed: Option<EngineError> = None;
    while i < iterations && failed.is_none()
        invariant
            params.wf(),
            0 <= index_ij < params.spec_c_len(),
            i <= iterations,
            rec.wf(),
            rec.spec_cutoff() == recorder.spec_cutoff(),
            rec.spec_name() == recorder.spec_name(),
            recorder.retained().len() <= rec.retained().len() <= recorder.retained().len() + i,
            ct.data@ == mid,
            ct.data@.len() == oracle.spec_lengths().ciphertext,
            ss.data@.len() == old(ss).data@.len(),
            sk.data@.len() == old(sk).data@.len(),
            ss.data@.len() == oracle.spec_lengths().shared_secret,
            sk.data@.len() == oracle.spec_lengths().secret_key,
            oracle.spec_lengths() == old(oracle).spec_lengths(),
        decreases iterations - i,
    {
        let m = source.measure_decap::<K, NoCachePrepping>(oracle, ct, ss, sk);
        match m {
            Ok(Some(time)) => {
                let ghost before = rec.retained().len();
                match rec.record(time) {
                    Ok(()) => {
                        proof {
                            assert(rec.retained().len() <= before + 1);
                        }
                    },
                    Err(()) => {
                        failed = Some(EngineError::RecorderFull);
                    },
                }
            },
            Ok(None) => {
            },
            Err(e) => {
                failed = Some(EngineError::Oracle(e));
            },
        }
        i = i + 1;
    }
    if let Some(e) = failed {
        return Err(e);
    }
    let modres2 = modify(&mut ct.data, params, index_ij, Sign::Minus(amount));
    proof {
        lemma_modify_round_trip(pre, mid, ct.data@, *params, index_ij as int, amount);
    }
    let retained = rec.len();
    let gate = retained < iterations / 4;
    Ok((rec, gate))
}

/// The decimal digits of a number, as the characters std's formatting of
/// an unsigned integer prints.
pub open spec fn dec_chars(n: int) -> Seq<char> {
    crate::csvio::dec_digits(n).map_values(|b: u8| b as char)
}

/// Relies on std's format machinery (an unsigned integer displays as its
/// plain decimal digits): the naming convention of a binary-search probe
/// series, `"{trial}-BINSEARCH[{coordinate}]({expected}){{probe}}"`.
#[verifier::external_body]
pub fn binsearch_name(trial: u64, index: usize, expected: u16, probe: u16) -> (r: String)
    ensures
        r@ == dec_chars(trial as int) + seq!['-', 'B', 'I', 'N', 'S', 'E', 'A', 'R', 'C', 'H', '[']
            + dec_chars(index as int) + seq![']', '('] + dec_chars(expected as int) + seq![
            ')',
            '{',
        ] + dec_chars(probe as int) + seq!['}'],
{
    format!("{}-BINSEARCH[{}]({}){{{}}}", trial, index, expected, probe)
}

/// Relies on std's format machinery: the naming convention of a warmup
/// series, `"{trial}-WARMUP[{coordinate}]"`.
#[verifier::external_body]
pub fn warmup_name(trial: u64, index: usize) -> (r: String)
    ensures
        r@ == dec_chars(trial as int) + seq!['-', 'W', 'A', 'R', 'M', 'U', 'P', '['] + dec_chars(
            index as int,
        ) + seq![']'],
{
    format!("{}-WARMUP[{}]", trial, index)
}

/// Relies on std's format machinery: a per-trial series name,
/// `"{trial}-{kind}"`.
#[verifier::external_body]
pub fn trial_name(trial: u64, kind: &str) -> (r: String)
    ensures
        r@ == dec_chars(trial as int) + seq!['-'] + kind@,
{
    format!("{}-{}", trial, kind)
}

/// Relies on std's format machinery: a per-trial, per-coordinate series
/// name, `"{trial}-{kind}[{coordinate}]"`.
#[verifier::external_body]
pub fn indexed_name(trial: u64, kind: &str, index: usize) -> (r: String)
    ensures
        r@ == dec_chars(trial as int) + seq!['-'] + kind@ + seq!['['] + dec_chars(index as int)
            + seq![']'],
{
    format!("{}-{}[{}]", trial, kind, index)
}

/// Where probe series are persisted after every probe, so partial
/// campaigns survive a later failure. An implementation typically encodes
/// the table and writes it out; the trivial sink keeps nothing.
pub trait SeriesSink {
    fn save(&mut self, recorders: &Vec<Recorder<SaveAllRecorder>>) -> (r: Result<(), ()>)
        requires
            forall|i: int| 0 <= i < recorders@.len() ==> (#[trigger] recorders@[i]).wf(),
    ;
}

/// The sink that persists nothing: measurement without saving.
pub struct DiscardSink;

impl SeriesSink for DiscardSink {
    fn save(&mut self, recorders: &Vec<Recorder<SaveAllRecorder>>) -> (r: Result<(), ()>) {
        Ok(())
    }
}

/// What a finished coordinate search reports: the recovered threshold
/// amount, how many probes it took, and how many of those were
/// confirmation probes of the final bounds.
pub struct SearchOutcome {
    pub value: u16,
    pub probes: u64,
    pub confirmation_probes: u64,
}

/// Search one coordinate: profile the two perturbation extremes, then
/// binary-search the flip point, retrying ambiguous probes in place and
/// demanding a confirmation of both final bounds. On success the value is
/// strictly inside the perturbation bracket, and the ciphertext is back to
/// its original bytes.
#[verifier::rlimit(60)]
pub fn search_modification<K: FrodoKem, S: SeriesSink>(
    oracle: &mut K,
    source: &MeasureSource,
    ciphertext_index: u64,
    index_ij: usize,
    iterations: u64,
    profileiters: u64,
    cutoff: u64,
    ct: &mut Ciphertext,
    ss: &mut SharedSecret,
    sk: &mut SecretKey,
    expected_x0: u16,
    recorders: &mut Vec<Recorder<SaveAllRecorder>>,
    sink: &mut S,
) -> (r: Result<SearchOutcome, SearchError>)
    requires
        old(ct).data@.len() == old(oracle).spec_lengths().ciphertext,
        old(ss).data@.len() == old(oracle).spec_lengths().shared_secret,
        old(sk).data@.len() == old(oracle).spec_lengths().secret_key,
        forall|i: int| 0 <= i < old(recorders)@.len() ==> (#[trigger] old(recorders)@[i]).wf(),
    ensures
        final(oracle).spec_lengths() == old(oracle).spec_lengths(),
        forall|i: int| 0 <= i < final(recorders)@.len() ==> (#[trigger] final(recorders)@[i]).wf(),
        r is Ok ==> final(recorders)@.len() >= old(recorders)@.len(),
        final(ct).data@.len() == old(ct).data@.len(),
        final(ss).data@.len() == old(ss).data@.len(),
        final(sk).data@.len() == old(sk).data@.len(),
        r is Ok ==> 0 < r->Ok_0.value < 2 * crate::params::spec_error_correction_limit(
            old(oracle).spec_params(),
        ),
        r is Ok ==> final(ct).data@ == old(ct).data@,
        index_ij >= old(oracle).spec_params().spec_c_len() ==> r == Result::<
            SearchOutcome,
            SearchError,
        >::Err(SearchError::Internal),
{
    let params = oracle.params();
    if index_ij >= params.c_len() {
        return Err(SearchError::Internal);
    }
    let maxmod = 2 * error_correction_limit(&params);
    let mut state = SearchState::new(
        maxmod,
        index_ij,
        params.c_len() - 1,
        iterations,
        profileiters,
    );
    let mut retries: u8 = 0;
    let mut probes: u64 = 0;
    let mut confirmation_probes: u64 = 0;
    // a generous probe budget: an unreliable oracle can stall the search
    // indefinitely, so the search gives up (as unreliable) long after any
    // plausible run; the ideal-oracle convergence proof shows an honest
    // search needs only a logarithmic fraction of this
    let mut fuel: u64 = 64 * (maxmod as u64) + 64;
    loop
        invariant
            state.wf(),
            state.maxmod == maxmod,
            maxmod == 2 * crate::params::spec_error_correction_limit(params),
            maxmod + 2 <= params.PARAM_QMAX,
            state.threshold is Some ==> state.highlim <= state.maxmod,
            params == old(oracle).spec_params(),
            params.wf(),
            0 <= index_ij < params.spec_c_len(),
            state.threshold is Some ==> state.threshold->0.wf(),
            ct.data@ == old(ct).data@,
            ct.data@.len() == oracle.spec_lengths().ciphertext,
            ct.data@.len() >= params.spec_bp_bytes() + params.spec_c_bytes(),
            ss.data@.len() == old(ss).data@.len(),
            sk.data@.len() == old(sk).data@.len(),
            ss.data@.len() == oracle.spec_lengths().shared_secret,
            sk.data@.len() == oracle.spec_lengths().secret_key,
            oracle.spec_lengths() == old(oracle).spec_lengths(),
            forall|i: int| 0 <= i < recorders@.len() ==> (#[trigger] recorders@[i]).wf(),
            recorders@.len() >= old(recorders)@.len(),
            retries < MAX_MOD_RETRIES,
        decreases fuel,
    {
        if fuel == 0 {
            return Err(SearchError::RetryIndex);
        }
        fuel = fuel - 1;
        if state.confirming_bounds && confirmation_probes < u64::MAX {
            confirmation_probes = confirmation_probes + 1;
        }
        let currentmod: u16 = state.calc_midpoint();
        let rec = if retries > 0 {
            match recorders.pop() {
                Some(r) => r,
                None => Recorder::saveall(
                    binsearch_name(ciphertext_index, index_ij, expected_x0, currentmod),
                    Some(cutoff),
                ),
            }
        } else {
            Recorder::saveall(
                binsearch_name(ciphertext_index, index_ij, expected_x0, currentmod),
                Some(cutoff),
            )
        };
        let measured = mod_measure(
            oracle,
            source,
            currentmod,
            index_ij,
            state.iterations,
            &params,
            ct,
            ss,
            sk,
            rec,
        );
        let rec = match measured {
            Ok((rec, _gate)) => rec,
            Err(_) => {
                return Err(SearchError::Internal);
            },
        };
        let pctres = state.get_percentage(&rec);
        recorders.push(rec);
        // persist the whole table after every probe, so a failed campaign
        // keeps its measurements
        match sink.save(recorders) {
            Ok(()) => (),
            Err(()) => {
                return Err(SearchError::Internal);
            },
        }
        let percentage = match pctres {
            Ok(p) => p,
            Err(e) => {
                return Err(e);
            },
        };
        if probes < u64::MAX {
            probes = probes + 1;
        }
        let ghost st1 = state;
        match state.update_state(percentage, currentmod) {
            Ok(Some(value)) => {
                proof {
                    assert(0 < value < maxmod);
                }
                return Ok(SearchOutcome { value, probes, confirmation_probes });
            },
            Ok(None) => {
                retries = 0;
            },
            Err(SearchError::RetryMod) => {
                retries = retries + 1;
                if retries >= MAX_MOD_RETRIES {
                    return Err(SearchError::RetryIndex);
                } else if retries == MAX_MOD_RETRIES / 2 {
                    // discard the accumulated, uncertain samples and start
                    // this modification over with a fresh recorder
                    recorders.push(
                        Recorder::saveall(
                            binsearch_name(ciphertext_index, index_ij, expected_x0, currentmod),
                            Some(cutoff),
                        ),
                    );
                }
            },
            Err(e) => {
                return Err(e);
            },
        }
    }
}


/// Measure several perturbation amounts interleaved: each round warms the
/// oracle twice without recording, then takes one sample per amount, so
/// slow drift spreads evenly over all series. One recorder per amount
/// comes back, in the amounts' order; the ciphertext ends byte-identical
/// to how it started.
#[verifier::rlimit(30)]
pub fn mod_measure_interleaved<K: KemMeasure>(
    oracle: &mut K,
    source: &MeasureSource,
    amounts: &Vec<u16>,
    index_ij: usize,
    iterations: u64,
    params: &FrodoKemParams,
    ct: &mut Ciphertext,
    ss: &mut SharedSecret,
    sk: &mut SecretKey,
) -> (r: Result<Vec<Recorder<SaveAllRecorder>>, EngineError>)
    requires
        params.wf(),
        forall|k: int| 0 <= k < amounts@.len() ==> #[trigger] amounts@[k] <= params.PARAM_QMAX,
        0 <= index_ij < params.spec_c_len(),
        old(ct).data@.len() == old(oracle).spec_lengths().ciphertext,
        old(ct).data@.len() >= params.spec_bp_bytes() + params.spec_c_bytes(),
        old(ss).data@.len() == old(oracle).spec_lengths().shared_secret,
        old(sk).data@.len() == old(oracle).spec_lengths().secret_key,
    ensures
        final(oracle).spec_lengths() == old(oracle).spec_lengths(),
        final(ss).data@.len() == old(ss).data@.len(),
        final(sk).data@.len() == old(sk).data@.len(),
        final(ct).data@.len() == old(ct).data@.len(),
        r is Ok ==> final(ct).data@ == old(ct).data@,
        r is Ok ==> r->Ok_0@.len() == amounts@.len(),
        r is Ok ==> forall|k: int|
            0 <= k < amounts@.len() ==> (#[trigger] r->Ok_0@[k]).wf() && r->Ok_0@[
            k].spec_cutoff() is None && r->Ok_0@[k].retained().len() <= iterations,
{
    let namounts = amounts.len();
    let mut recorders: Vec<Recorder<SaveAllRecorder>> = Vec::new();
    let mut k: usize = 0;
    while k < namounts
        invariant
            k <= namounts,
            recorders@.len() == k,
            forall|k2: int|
                0 <= k2 < k ==> (#[trigger] recorders@[k2]).wf() && recorders@[
                k2].retained().len() == 0 && recorders@[k2].spec_cutoff() is None,
        decreases namounts - k,
    {
        recorders.push(Recorder::saveall(indexed_name(k as u64, "INTERLEAVED", index_ij), None));
        k = k + 1;
    }
    let mut round: u64 = 0;
    while round < iterations
        invariant
            params.wf(),
            forall|k2: int| 0 <= k2 < amounts@.len() ==> #[trigger] amounts@[k2]
                <= params.PARAM_QMAX,
            0 <= index_ij < params.spec_c_len(),
            namounts == amounts@.len(),
            round <= iterations,
            recorders@.len() == namounts,
            forall|k2: int|
                0 <= k2 < namounts ==> (#[trigger] recorders@[k2]).wf() && recorders@[
                k2].spec_cutoff() is None && recorders@[k2].retained().len() <= round,
            ct.data@ == old(ct).data@,
            ct.data@.len() == oracle.spec_lengths().ciphertext,
            ct.data@.len() >= params.spec_bp_bytes() + params.spec_c_bytes(),
            ss.data@.len() == old(ss).data@.len(),
            sk.data@.len() == old(sk).data@.len(),
            ss.data@.len() == oracle.spec_lengths().shared_secret,
            sk.data@.len() == oracle.spec_lengths().secret_key,
            oracle.spec_lengths() == old(oracle).spec_lengths(),
        decreases iterations - round,
    {
        let mut k: usize = 0;
        while k < namounts
            invariant
                params.wf(),
                forall|k2: int| 0 <= k2 < amounts@.len() ==> #[trigger] amounts@[k2]
                    <= params.PARAM_QMAX,
                0 <= index_ij < params.spec_c_len(),
                namounts == amounts@.len(),
                k <= namounts,
                round < iterations,
                recorders@.len() == namounts,
                forall|k2: int|
                    0 <= k2 < k ==> (#[trigger] recorders@[k2]).wf() && recorders@[
                    k2].spec_cutoff() is None && recorders@[k2].retained().len() <= round + 1,
                forall|k2: int|
                    k <= k2 < namounts ==> (#[trigger] recorders@[k2]).wf() && recorders@[
                    k2].spec_cutoff() is None && recorders@[k2].retained().len() <= round,
                ct.data@ == old(ct).data@,
                ct.data@.len() == oracle.spec_lengths().ciphertext,
                ct.data@.len() >= params.spec_bp_bytes() + params.spec_c_bytes(),
                ss.data@.len() == old(ss).data@.len(),
                sk.data@.len() == old(sk).data@.len(),
                ss.data@.len() == oracle.spec_lengths().shared_secret,
                sk.data@.len() == oracle.spec_lengths().secret_key,
                oracle.spec_lengths() == old(oracle).spec_lengths(),
            decreases namounts - k,
        {
            // two unrecorded decapsulations settle the cache before the
            // measured one
            match source.measure_decap::<K, NoCachePrepping>(oracle, ct, ss, sk) {
                Ok(_) => (),
                Err(e) => {
                    return Err(EngineError::Oracle(e));
                },
            }
            match source.measure_decap::<K, NoCachePrepping>(oracle, ct, ss, sk) {
                Ok(_) => (),
                Err(e) => {
                    return Err(EngineError::Oracle(e));
                },
            }
            let amount = amounts[k];
            let ghost pre = ct.data@;
            let modres = modify(&mut ct.data, params, index_ij, Sign::Plus(amount));
            let ghost mid = ct.data@;
            let m = source.measure_decap::<K, NoCachePrepping>(oracle, ct, ss, sk);
            let modres2 = modify(&mut ct.data, params, index_ij, Sign::Minus(amount));
            proof {
                lemma_modify_round_trip(pre, mid, ct.data@, *params, index_ij as int, amount);
            }
            let sample = match m {
                Ok(s) => s,
                Err(e) => {
                    return Err(EngineError::Oracle(e));
                },
            };
            if let Some(time) = sample {
                let rec = &mut recorders[k];
                match rec.record(time) {
                    Ok(()) => (),
                    Err(()) => {
                        return Err(EngineError::RecorderFull);
                    },
                }
            }
            k = k + 1;
        }
        round = round + 1;
    }
    Ok(recorders)
}

} // verus!
