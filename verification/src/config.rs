//! The configuration surface of the toolkit: which KEM family and
//! parameter set to attack, which subroutine to run, and each
//! subroutine's options. The embedding program parses its command line
//! into these values; the library only dispatches on them.

use vstd::prelude::*;
use crate::measure::MeasureSource;
use crate::params::FrodoKemParams;

verus! {

/// FrodoKEM parameter sets under attack.
pub enum FrodoParams {
    Kem640aes,
    Kem1344aes,
}

/// Kyber parameter sets under attack.
pub enum KyberParams {
    Kem512,
    Kem512_90S,
    Kem768,
    Kem768_90S,
    Kem1024,
    Kem1024_90S,
}

/// Which KEM family a Fujisaki–Okamoto timing run targets.
pub enum KemAlg {
    Frodo(FrodoParams),
    Kyber(KyberParams),
}

/// BIKE parameter sets for the rejection-sampling attacks.
pub enum BikeParams {
    KemL1,
    KemL3,
}

/// HQC parameter sets for the rejection-sampling attacks.
pub enum HqcParams {
    Kem128,
    Kem192,
    Kem256,
}

/// Which rejection-sampling KEM a subroutine targets.
pub enum RejectionSamplingAlgorithms {
    Bike(BikeParams),
    Hqc(HqcParams),
}

/// Options of the rejection-count histogram subroutine.
pub struct HistogramRejectionsOptions {
    pub num_plaintexts: usize,
}

/// Options of the generic simulated rejection-sampling attack.
pub struct SimulateAttackOptions {
    pub num_plaintexts: i32,
    pub num_decaps: i32,
    pub error_weight: i32,
}

/// Options of the timing-attack verification subroutine.
pub struct VerifyTimingAttackOptions {
    pub num_plaintexts: i32,
    pub num_decaps: i32,
    pub save: Option<String>,
}

/// Options of the plaintext-collection subroutine.
pub struct CollectPlaintextsOptions {
    pub destination: String,
    pub pt_limit_per_iter: u32,
    pub clear: bool,
    pub threads: u8,
    pub save_interval_ms: Option<u64>,
    pub quiet: bool,
    pub stop_after_ms: Option<u64>,
    pub reindex_plaintexts: bool,
}

/// Options of the per-iteration-count timing subroutine.
pub struct IterationTimingsOptions {
    pub measurments: u32,
    pub included: Vec<u64>,
    pub db: String,
    pub destination: String,
}

/// Options of the distance-spectrum subroutine.
pub struct BikeDistanceSpectrumOptions {
    pub create_key_if_missing: bool,
    pub key_file: String,
    pub destination: String,
}

/// The rejection-sampling subroutines.
pub enum Subroutine {
    HistogramRejections { alg: RejectionSamplingAlgorithms, opt: HistogramRejectionsOptions },
    VerifyTimingAttacks { opt: VerifyTimingAttackOptions },
    SimulateAttack { alg: RejectionSamplingAlgorithms, opt: SimulateAttackOptions },
    CollectPlaintexts { alg: RejectionSamplingAlgorithms, opt: CollectPlaintextsOptions },
    IterationTimings { alg: RejectionSamplingAlgorithms, opt: IterationTimingsOptions },
    BikeDistanceSpectrum { alg: BikeParams, opt: BikeDistanceSpectrumOptions },
}

/// The attack variants the toolkit offers.
pub enum Attacks {
    FOBaseline {
        params: KemAlg,
        warmup: u64,
        samples: u64,
        save: Option<String>,
        measure_source: MeasureSource,
    },
    MemcmpFrodoCrackS {
        params: FrodoParams,
        warmup: u64,
        profiling: u64,
        iterations: u64,
        save_to_file: Option<String>,
        measure_source: MeasureSource,
    },
    RejectionSampling { sub: Subroutine },
}

/// A fully parsed invocation.
pub struct AttackOptions {
    pub attack: Attacks,
}

/// The parameter set a FrodoKEM selection stands for.
pub fn frodo_params_of(sel: &FrodoParams) -> (r: FrodoKemParams)
    ensures
        r.wf(),
        sel is Kem640aes ==> r.PARAM_N == 640 && r.PARAM_LOGQ == 15,
        sel is Kem1344aes ==> r.PARAM_N == 1344 && r.PARAM_LOGQ == 16,
{
    match sel {
        FrodoParams::Kem640aes => FrodoKemParams::frodokem640aes(),
        FrodoParams::Kem1344aes => FrodoKemParams::frodokem1344aes(),
    }
}

} // verus!
