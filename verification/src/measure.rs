//! The latency measurement unit: three interchangeable sources (external
//! cycle counter, internal instrumented counters, synthetic oracle model),
//! cross-core-migration detection, and core-affinity pinning.

use vstd::prelude::*;
use crate::kembuf::{Ciphertext, SecretKey, SharedSecret};
use crate::oracle::{InternalKemMeasurments, Kem, KemMeasure, Measurments, OracleError};

verus! {

/// Which measurement source a campaign uses.
#[derive(Debug)]
pub enum MeasureSource {
    External,
    Internal,
    Oracle,
}

/// Internal measurements of one FrodoKEM-style decapsulation: the
/// instrumented latency of the ciphertext comparison, and the outcomes of
/// its two parts (absent where a part did not run). The second comparison
/// runs whenever the first came out equal; a value with an equal first
/// comparison and an absent second one cannot exist.
pub struct InternalFrodoMeasurments {
    memcmp_timing: Option<u64>,
    memcmp1: Option<bool>,
    memcmp2: Option<bool>,
}

impl InternalFrodoMeasurments {
    #[verifier::type_invariant]
    spec fn inv(self) -> bool {
        !(self.memcmp1 == Some(true) && self.memcmp2 is None)
    }

    /// The instrumented comparison latency, if both clock reads landed on
    /// the same core.
    pub closed spec fn spec_timing(self) -> Option<u64> {
        self.memcmp_timing
    }

    /// The first comparison's outcome, where it ran.
    pub closed spec fn spec_memcmp1(self) -> Option<bool> {
        self.memcmp1
    }

    /// The second comparison's outcome, where it ran.
    pub closed spec fn spec_memcmp2(self) -> Option<bool> {
        self.memcmp2
    }

    pub fn memcmp_timing(&self) -> (r: Option<u64>)
        ensures
            r == self.spec_timing(),
    {
        self.memcmp_timing
    }

    pub fn memcmp1(&self) -> (r: Option<bool>)
        ensures
            r == self.spec_memcmp1(),
    {
        self.memcmp1
    }

    pub fn memcmp2(&self) -> (r: Option<bool>)
        ensures
            r == self.spec_memcmp2(),
    {
        self.memcmp2
    }

    /// Decode raw readings: the latency counts only when both clock reads
    /// landed on the same core; comparison bytes 0/1/2 mean
    /// unequal/equal/not-executed. A reading with the first comparison
    /// equal but the second not executed is impossible on the instrumented
    /// decapsulation and is excluded.
    pub fn new(m: Measurments) -> (r: InternalFrodoMeasurments)
        requires
            m.memcmp1 <= 2,
            m.memcmp2 <= 2,
            !(m.memcmp1 == 1 && m.memcmp2 == 2),
            m.cpu_start == m.cpu_stop ==> m.start <= m.stop,
        ensures
            r.spec_timing() == if m.cpu_start == m.cpu_stop {
                Some((m.stop - m.start) as u64)
            } else {
                Option::<u64>::None
            },
            r.spec_memcmp1() == decode_flag(m.memcmp1),
            r.spec_memcmp2() == decode_flag(m.memcmp2),
    {
        let diff = if m.cpu_start == m.cpu_stop {
            Some(m.stop - m.start)
        } else {
            None
        };
        let memcmp1 = match m.memcmp1 {
            0 => Some(false),
            1 => Some(true),
            _ => None,
        };
        let memcmp2 = match m.memcmp2 {
            0 => Some(false),
            1 => Some(true),
            _ => None,
        };
        InternalFrodoMeasurments { memcmp_timing: diff, memcmp1, memcmp2 }
    }

    /// A modeled measurement: both comparisons share the one outcome of
    /// the model.
    pub fn from_outcomes(timing: Option<u64>, comparisons_equal: bool) -> (r:
        InternalFrodoMeasurments)
        ensures
            r.spec_timing() == timing,
            r.spec_memcmp1() == Some(comparisons_equal),
            r.spec_memcmp2() == Some(comparisons_equal),
    {
        InternalFrodoMeasurments {
            memcmp_timing: timing,
            memcmp1: Some(comparisons_equal),
            memcmp2: Some(comparisons_equal),
        }
    }

    /// The synthetic latency this measurement maps to: see
    /// `oracle_latency_of`.
    pub fn oracle_latency(&self) -> (r: Option<u64>)
        ensures
            r == oracle_latency_of(self.spec_memcmp1(), self.spec_memcmp2()),
    {
        match self.memcmp1 {
            None => None,
            Some(false) => Some(100),
            Some(true) => match self.memcmp2 {
                Some(true) => Some(250),
                _ => Some(150),
            },
        }
    }
}

/// A comparison byte decoded to its outcome.
pub open spec fn decode_flag(b: u8) -> Option<bool> {
    if b == 0 {
        Some(false)
    } else if b == 1 {
        Some(true)
    } else {
        None
    }
}

/// The idealized latency model: no comparison executed gives no sample; a
/// failing first comparison is fastest (100); an equal first comparison
/// adds 50; an equal second comparison adds another 100. An equal first
/// comparison with the second absent is ruled out by the measurement
/// type's invariant, so that arm of the spec is never reached.
pub open spec fn oracle_latency_of(memcmp1: Option<bool>, memcmp2: Option<bool>) -> Option<u64> {
    match memcmp1 {
        None => None,
        Some(false) => Some(100u64),
        Some(true) => match memcmp2 {
            Some(true) => Some(250u64),
            _ => Some(150u64),
        },
    }
}

impl InternalKemMeasurments for InternalFrodoMeasurments {
    fn result_internal(&self) -> (r: Option<u64>)
        ensures
            r == self.spec_timing(),
    {
        self.memcmp_timing()
    }

    fn result_oracle(&self) -> (r: Option<u64>)
        ensures
            r == oracle_latency_of(self.spec_memcmp1(), self.spec_memcmp2()),
    {
        self.oracle_latency()
    }
}

/// Validate one externally timed reading: a sample only counts when both
/// clock reads landed on the same core; a migration yields no sample, not
/// an error.
pub fn external_sample(m: &Measurments) -> (r: Option<u64>)
    requires
        m.cpu_start == m.cpu_stop ==> m.start <= m.stop,
    ensures
        r == if m.cpu_start == m.cpu_stop {
            Some((m.stop - m.start) as u64)
        } else {
            Option::<u64>::None
        },
{
    if m.cpu_start == m.cpu_stop {
        Some(m.stop - m.start)
    } else {
        None
    }
}

/// A cache-preparation strategy run before a timed decapsulation.
pub trait CachePrepper {
    fn prep_cache<K: Kem>(
        oracle: &mut K,
        ct: &Ciphertext,
        ss: &mut SharedSecret,
        sk: &mut SecretKey,
    ) -> (r: Result<(), OracleError>)
        requires
            ct.data@.len() == old(oracle).spec_lengths().ciphertext,
            old(ss).data@.len() == old(oracle).spec_lengths().shared_secret,
            old(sk).data@.len() == old(oracle).spec_lengths().secret_key,
        ensures
            final(oracle).spec_lengths() == old(oracle).spec_lengths(),
            final(ss).data@.len() == old(ss).data@.len(),
            final(sk).data@.len() == old(sk).data@.len(),
    ;
}

/// Leave the cache as it is.
pub struct NoCachePrepping;

/// Warm the cache with one identical decapsulation beforehand.
pub struct DecapsCachePrepping;

impl CachePrepper for NoCachePrepping {
    fn prep_cache<K: Kem>(
        oracle: &mut K,
        ct: &Ciphertext,
        ss: &mut SharedSecret,
        sk: &mut SecretKey,
    ) -> (r: Result<(), OracleError>) {
        Ok(())
    }
}

impl CachePrepper for DecapsCachePrepping {
    fn prep_cache<K: Kem>(
        oracle: &mut K,
        ct: &Ciphertext,
        ss: &mut SharedSecret,
        sk: &mut SecretKey,
    ) -> (r: Result<(), OracleError>) {
        oracle.decaps(ct, ss, sk)
    }
}

impl MeasureSource {
    /// One measured decapsulation through the selected source. `None`
    /// means a discarded sample (core migration, or no comparison ran);
    /// an error means the primitive itself failed.
    pub fn measure_decap<K: KemMeasure, C: CachePrepper>(
        &self,
        oracle: &mut K,
        ct: &Ciphertext,
        ss: &mut SharedSecret,
        sk: &mut SecretKey,
    ) -> (r: Result<Option<u64>, OracleError>)
        requires
            ct.data@.len() == old(oracle).spec_lengths().ciphertext,
            old(ss).data@.len() == old(oracle).spec_lengths().shared_secret,
            old(sk).data@.len() == old(oracle).spec_lengths().secret_key,
        ensures
            final(oracle).spec_lengths() == old(oracle).spec_lengths(),
            final(ss).data@.len() == old(ss).data@.len(),
            final(sk).data@.len() == old(sk).data@.len(),
    {
        match self {
            MeasureSource::External => {
                C::prep_cache(oracle, ct, ss, sk)?;
                let raw = match oracle.timed_decaps(ct, ss, sk) {
                    Ok(raw) => raw,
                    Err(e) => {
                        return Err(e);
                    },
                };
                Ok(external_sample(&raw))
            },
            MeasureSource::Internal => {
                let results = match oracle.decaps_measure(ct, ss, sk) {
                    Ok(m) => m,
                    Err(e) => {
                        return Err(e);
                    },
                };
                Ok(results.result_internal())
            },
            MeasureSource::Oracle => {
                let results = match oracle.decaps_measure(ct, ss, sk) {
                    Ok(m) => m,
                    Err(e) => {
                        return Err(e);
                    },
                };
                Ok(results.result_oracle())
            },
        }
    }

    /// Pin the current thread to the highest-numbered core, so that the
    /// two clock reads of external measurement are comparable. The
    /// synthetic oracle source needs no pinning.
    pub fn prep_thread(&self) -> (r: Result<(), ()>)
        ensures
            self is Oracle ==> r is Ok,
    {
        match self {
            MeasureSource::Oracle => Ok(()),
            _ => {
                let ids = match get_core_id_list() {
                    Some(ids) => ids,
                    None => {
                        return Err(());
                    },
                };
                let last_core = match highest_core(&ids) {
                    Some(c) => c,
                    None => {
                        return Err(());
                    },
                };
                if pin_to_core(last_core) {
                    Ok(())
                } else {
                    Err(())
                }
            },
        }
    }
}

/// The highest-numbered core of the list, if any.
pub fn highest_core(ids: &Vec<usize>) -> (r: Option<usize>)
    ensures
        r is Some <==> ids@.len() > 0,
        r is Some ==> ids@.contains(r->0) && forall|i: int| 0 <= i < ids@.len() ==> ids@[i] <= r->0,
{
    if ids.len() == 0 {
        return None;
    }
    let mut best: usize = ids[0];
    let mut i: usize = 1;
    proof {
        assert(ids@.contains(ids@[0]));
    }
    while i < ids.len()
        invariant
            1 <= i <= ids@.len(),
            ids@.contains(best),
            forall|j: int| 0 <= j < i ==> ids@[j] <= best,
        decreases ids@.len() - i,
    {
        if ids[i] > best {
            best = ids[i];
            proof {
                assert(ids@.contains(ids@[i as int]));
            }
        }
        i = i + 1;
    }
    Some(best)
}

/// Relies on core_affinity::get_core_ids: the identifiers of the cores
/// available to this process, or nothing if they cannot be retrieved. The
/// ids come from a scan of the cpu set, whose size is 1024, so each is
/// below 1024.
#[verifier::external_body]
fn get_core_id_list() -> (r: Option<Vec<usize>>)
    ensures
        r is Some ==> forall|i: int| 0 <= i < r->0@.len() ==> #[trigger] r->0@[i] < 1024,
{
    core_affinity::get_core_ids().map(|v| v.into_iter().map(|c| c.id).collect())
}

/// Relies on core_affinity::set_for_current: pins the current thread to
/// the given core, reporting success. Ids must stay below the cpu-set
/// size of 1024: the underlying bit-set write has no bounds check of its
/// own.
#[verifier::external_body]
fn pin_to_core(id: usize) -> bool
    requires
        id < 1024,
{
    core_affinity::set_for_current(core_affinity::CoreId { id })
}

} // verus!
