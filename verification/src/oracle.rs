//! The KEM capability interface: `keypair` / `encaps` / `decaps` over
//! fixed-size buffers, with the measured variants the timing engine needs.
//! Implementations supply the cryptography; the engine only relies on the
//! buffer-shape contracts stated here.

use vstd::prelude::*;
use crate::kembuf::{Ciphertext, Plaintext, PublicKey, SecretKey, SharedSecret};
use crate::params::{FrodoKemParams, KemLengths};

verus! {

/// Status an underlying KEM primitive reports.
#[derive(Debug)]
pub enum OqsStatus {
    OqsError,
    OqsSuccess,
    OqsExternalLibErrorOpenssl,
}

/// Failure of the underlying KEM primitive. It aborts the current
/// measurement attempt, never the whole campaign.
#[derive(Debug)]
pub enum OracleError {
    /// The KEM library reported a generic error.
    Liboqs,
    /// The KEM library reported an error in its crypto backend.
    Openssl,
}

/// Where a code-inspection query points.
pub enum InspectionTarget {
    Decaps,
}

impl OqsStatus {
    /// The conventional numeric status codes: zero is success, fifty an
    /// error in the crypto backend, anything else a generic failure.
    pub fn from_code(status: u32) -> (r: OqsStatus)
        ensures
            r == if status == 0 {
                OqsStatus::OqsSuccess
            } else if status == 50 {
                OqsStatus::OqsExternalLibErrorOpenssl
            } else {
                OqsStatus::OqsError
            },
    {
        if status == 0 {
            OqsStatus::OqsSuccess
        } else if status == 50 {
            OqsStatus::OqsExternalLibErrorOpenssl
        } else {
            OqsStatus::OqsError
        }
    }

    /// Success is `Ok`; each failure keeps its taxonomy.
    pub fn to_result(self) -> (r: Result<(), OracleError>)
        ensures
            r is Ok <==> self is OqsSuccess,
            self is OqsError ==> r == Result::<(), OracleError>::Err(OracleError::Liboqs),
            self is OqsExternalLibErrorOpenssl ==> r == Result::<(), OracleError>::Err(
                OracleError::Openssl,
            ),
    {
        match self {
            OqsStatus::OqsSuccess => Ok(()),
            OqsStatus::OqsError => Err(OracleError::Liboqs),
            OqsStatus::OqsExternalLibErrorOpenssl => Err(OracleError::Openssl),
        }
    }
}

/// Raw readings of one timed decapsulation: a cycle counter sampled before
/// and after, each paired with the core it was read on, plus the two
/// comparison outcomes an instrumented decapsulation exposes
/// (0 = unequal, 1 = equal, 2 = not executed).
pub struct Measurments {
    pub start: u64,
    pub stop: u64,
    pub cpu_start: u32,
    pub cpu_stop: u32,
    pub memcmp1: u8,
    pub memcmp2: u8,
}

impl Measurments {
    pub fn new() -> (r: Measurments)
        ensures
            r.start == 0,
            r.stop == 0,
            r.cpu_start == 0,
            r.cpu_stop == 0,
            r.memcmp1 == 0,
            r.memcmp2 == 0,
    {
        Measurments { start: 0, stop: 0, cpu_start: 0, cpu_stop: 0, memcmp1: 0, memcmp2: 0 }
    }
}

/// Internal timing results of one measured decapsulation.
pub trait InternalKemMeasurments {
    /// The internally measured latency, if both clock reads landed on one
    /// core.
    fn result_internal(&self) -> Option<u64>;

    /// Synthetic latency derived from the comparison outcomes alone.
    fn result_oracle(&self) -> Option<u64>;
}

/// A KEM: key generation, encapsulation, decapsulation. Every operation
/// works on buffers of the advertised lengths and preserves both the
/// buffer lengths and the advertised lengths themselves.
pub trait Kem: Sized {
    spec fn spec_lengths(&self) -> KemLengths;

    fn lengths(&self) -> (r: KemLengths)
        ensures
            r == self.spec_lengths(),
    ;

    fn keypair(&mut self, pk: &mut PublicKey, sk: &mut SecretKey) -> (r: Result<(), OracleError>)
        requires
            old(pk).data@.len() == old(self).spec_lengths().public_key,
            old(sk).data@.len() == old(self).spec_lengths().secret_key,
        ensures
            final(self).spec_lengths() == old(self).spec_lengths(),
            final(pk).data@.len() == old(pk).data@.len(),
            final(sk).data@.len() == old(sk).data@.len(),
    ;

    fn encaps(&mut self, ct: &mut Ciphertext, ss: &mut SharedSecret, pk: &PublicKey) -> (r: Result<
        (),
        OracleError,
    >)
        requires
            old(ct).data@.len() == old(self).spec_lengths().ciphertext,
            old(ss).data@.len() == old(self).spec_lengths().shared_secret,
            pk.data@.len() == old(self).spec_lengths().public_key,
        ensures
            final(self).spec_lengths() == old(self).spec_lengths(),
            final(ct).data@.len() == old(ct).data@.len(),
            final(ss).data@.len() == old(ss).data@.len(),
    ;

    fn decaps(&mut self, ct: &Ciphertext, ss: &mut SharedSecret, sk: &mut SecretKey) -> (r: Result<
        (),
        OracleError,
    >)
        requires
            ct.data@.len() == old(self).spec_lengths().ciphertext,
            old(ss).data@.len() == old(self).spec_lengths().shared_secret,
            old(sk).data@.len() == old(self).spec_lengths().secret_key,
        ensures
            final(self).spec_lengths() == old(self).spec_lengths(),
            final(ss).data@.len() == old(ss).data@.len(),
            final(sk).data@.len() == old(sk).data@.len(),
    ;
}

/// A KEM whose decapsulation can be measured: instrumented internal
/// counters, and a raw externally timed variant.
pub trait KemMeasure: Kem {
    type M: InternalKemMeasurments;

    /// Decapsulate through the instrumented variant, collecting internal
    /// timing checkpoints.
    fn decaps_measure(&mut self, ct: &Ciphertext, ss: &mut SharedSecret, sk: &mut SecretKey) -> (r:
        Result<Self::M, OracleError>)
        requires
            ct.data@.len() == old(self).spec_lengths().ciphertext,
            old(ss).data@.len() == old(self).spec_lengths().shared_secret,
            old(sk).data@.len() == old(self).spec_lengths().secret_key,
        ensures
            final(self).spec_lengths() == old(self).spec_lengths(),
            final(ss).data@.len() == old(ss).data@.len(),
            final(sk).data@.len() == old(sk).data@.len(),
    ;

    /// Decapsulate between two reads of a monotonic cycle counter. On any
    /// single core the counter never runs backwards; nothing more is
    /// promised of the readings.
    fn timed_decaps(&mut self, ct: &Ciphertext, ss: &mut SharedSecret, sk: &mut SecretKey) -> (r:
        Result<Measurments, OracleError>)
        requires
            ct.data@.len() == old(self).spec_lengths().ciphertext,
            old(ss).data@.len() == old(self).spec_lengths().shared_secret,
            old(sk).data@.len() == old(self).spec_lengths().secret_key,
        ensures
            final(self).spec_lengths() == old(self).spec_lengths(),
            final(ss).data@.len() == old(ss).data@.len(),
            final(sk).data@.len() == old(sk).data@.len(),
            r is Ok && r->Ok_0.cpu_start == r->Ok_0.cpu_stop ==> r->Ok_0.start <= r->Ok_0.stop,
    ;
}

/// A FrodoKEM-style KEM: its ciphertext carries the packed `(Bp, C)`
/// matrix pair, and the error matrix can be computed from the secret key
/// as ground truth for validation.
pub trait FrodoKem: KemMeasure {
    spec fn spec_params(&self) -> FrodoKemParams;

    /// The parameter set; well-formed, stable, and consistent with the
    /// ciphertext length.
    fn params(&self) -> (r: FrodoKemParams)
        ensures
            r == self.spec_params(),
            r.wf(),
            self.spec_lengths().ciphertext >= r.spec_bp_bytes() + r.spec_c_bytes(),
            4 <= 2 * crate::params::spec_error_correction_limit(r) <= 16384,
    ;

    /// Ground truth: the error matrix the decapsulation of `ct` sees,
    /// one `u16` per `C` coordinate, each below the error-correction
    /// limit.
    fn calculate_eref(&mut self, ct: &Ciphertext, sk: &mut SecretKey) -> (r: Result<
        Vec<u16>,
        OracleError,
    >)
        requires
            ct.data@.len() == old(self).spec_lengths().ciphertext,
            old(sk).data@.len() == old(self).spec_lengths().secret_key,
        ensures
            final(self).spec_lengths() == old(self).spec_lengths(),
            final(self).spec_params() == old(self).spec_params(),
            final(sk).data@.len() == old(sk).data@.len(),
            r is Ok ==> r->Ok_0@.len() == old(self).spec_params().spec_c_len(),
            r is Ok ==> forall|i: int|
                0 <= i < r->Ok_0@.len() ==> #[trigger] r->Ok_0@[i]
                    < crate::params::spec_error_correction_limit(old(self).spec_params()),
    ;
}

/// A KEM with a rejection-sampling loop whose iteration count is the side
/// channel: the count can be queried per plaintext, and encapsulation can
/// be driven with a chosen plaintext.
pub trait KemWithRejectionSampling: Kem {
    spec fn spec_plaintext_len(&self) -> usize;

    fn plaintext_len(&self) -> (r: usize)
        ensures
            r == self.spec_plaintext_len(),
    ;

    /// How many rejection-sampling iterations this plaintext causes.
    fn num_rejections(&mut self, pt: &Plaintext) -> (r: Result<u64, OracleError>)
        requires
            pt.data@.len() == old(self).spec_plaintext_len(),
        ensures
            final(self).spec_lengths() == old(self).spec_lengths(),
            final(self).spec_plaintext_len() == old(self).spec_plaintext_len(),
    ;

    fn encaps_with_plaintext(
        &mut self,
        ct: &mut Ciphertext,
        ss: &mut SharedSecret,
        pk: &PublicKey,
        pt: &Plaintext,
    ) -> (r: Result<(), OracleError>)
        requires
            old(ct).data@.len() == old(self).spec_lengths().ciphertext,
            old(ss).data@.len() == old(self).spec_lengths().shared_secret,
            pk.data@.len() == old(self).spec_lengths().public_key,
            pt.data@.len() == old(self).spec_plaintext_len(),
        ensures
            final(self).spec_lengths() == old(self).spec_lengths(),
            final(self).spec_plaintext_len() == old(self).spec_plaintext_len(),
            final(ct).data@.len() == old(ct).data@.len(),
            final(ss).data@.len() == old(ss).data@.len(),
    ;
}

} // verus!
