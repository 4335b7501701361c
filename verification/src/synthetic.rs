//! A synthetic FrodoKEM-style oracle: a deterministic, noiseless model of
//! the decapsulation side channel, used to calibrate and test the search
//! engine. Decoding a perturbed coordinate succeeds exactly while the
//! perturbation plus the hidden error stays below the error-correction
//! limit; latency is a fixed constant per outcome plus a small rotating
//! jitter, and a configurable fraction of samples simulates core
//! migration.

use vstd::prelude::*;
use crate::codec::{frodo_pack, frodo_unpack, vals_bounded};
use crate::kembuf::{Ciphertext, Plaintext, PublicKey, SecretKey, SharedSecret};
use crate::measure::InternalFrodoMeasurments;
use crate::oracle::{FrodoKem, Kem, KemMeasure, KemWithRejectionSampling, Measurments,
    OracleError};
use crate::params::{FrodoKemParams, KemLengths, error_correction_limit,
    lemma_param_products_bounded, spec_error_correction_limit};

verus! {

/// The synthetic oracle's state: the parameter set, the buffer lengths it
/// advertises, the decoded `C` matrix of the reference ciphertext, the
/// hidden error matrix, and the jitter / migration bookkeeping.
pub struct SyntheticFrodo {
    params: FrodoKemParams,
    lengths: KemLengths,
    base_c: Vec<u16>,
    eppp: Vec<u16>,
    counter: u64,
    migrate_every: u64,
}

impl SyntheticFrodo {
    #[verifier::type_invariant]
    spec fn inv(self) -> bool {
        &&& self.params.wf()
        &&& self.lengths.ciphertext >= self.params.spec_bp_bytes() + self.params.spec_c_bytes()
        &&& self.base_c@.len() == self.params.spec_c_len()
        &&& vals_bounded(self.base_c@, self.params.PARAM_LOGQ as int)
        &&& self.eppp@.len() == self.params.spec_c_len()
        &&& forall|i: int|
            0 <= i < self.eppp@.len() ==> #[trigger] self.eppp@[i] < spec_error_correction_limit(
                self.params,
            )
    }

    /// Build a synthetic oracle. Fails when the parameters are malformed,
    /// the ciphertext length cannot hold the packed matrices, or the error
    /// matrix has the wrong shape or entries at or above the
    /// error-correction limit. `migrate_every` of `n > 0` discards every
    /// `n`-th timed sample as a simulated core migration.
    pub fn new(
        params: FrodoKemParams,
        lengths: KemLengths,
        eppp: Vec<u16>,
        migrate_every: u64,
    ) -> (r: Result<SyntheticFrodo, ()>)
        ensures
            r is Ok ==> r->Ok_0.spec_params() == params && r->Ok_0.spec_lengths() == lengths,
            r is Ok <==> params.wf() && lengths.ciphertext >= params.spec_bp_bytes()
                + params.spec_c_bytes() && eppp@.len() == params.spec_c_len() && (forall|i: int|
                0 <= i < eppp@.len() ==> #[trigger] eppp@[i] < spec_error_correction_limit(params)),
    {
        if !(2 <= params.PARAM_LOGQ && params.PARAM_LOGQ <= 16) {
            return Err(());
        }
        if !(2 <= params.PARAM_B && params.PARAM_B <= 14 && params.PARAM_B + 2 <= params.PARAM_LOGQ) {
            return Err(());
        }
        if params.PARAM_QMAX != 1u32 << params.PARAM_LOGQ {
            return Err(());
        }
        if !(0 < params.PARAM_N && params.PARAM_N <= 4096) {
            return Err(());
        }
        if !(0 < params.PARAM_NBAR && params.PARAM_NBAR <= 16) {
            return Err(());
        }
        proof {
            assert(params.PARAM_LOGQ * params.PARAM_N <= 0x10000 && params.PARAM_LOGQ
                * params.PARAM_N * params.PARAM_NBAR <= 0x100000 && params.PARAM_LOGQ
                * params.PARAM_NBAR <= 256 && params.PARAM_LOGQ * params.PARAM_NBAR
                * params.PARAM_NBAR <= 0x1000 && params.PARAM_NBAR * params.PARAM_NBAR <= 256)
                by (nonlinear_arith)
                requires
                    params.PARAM_LOGQ <= 16,
                    params.PARAM_N <= 4096,
                    params.PARAM_NBAR <= 16,
            ;
        }
        if (params.PARAM_LOGQ * params.PARAM_N * params.PARAM_NBAR) % 8 != 0 {
            return Err(());
        }
        if (params.PARAM_LOGQ * params.PARAM_NBAR * params.PARAM_NBAR) % 8 != 0 {
            return Err(());
        }
        assert(params.wf());
        let bp = params.bp_bytes();
        let c = params.c_bytes();
        let c_len = params.c_len();
        if lengths.ciphertext < bp || lengths.ciphertext - bp < c {
            return Err(());
        }
        if eppp.len() != c_len {
            return Err(());
        }
        let limit = error_correction_limit(&params);
        let mut i: usize = 0;
        while i < eppp.len()
            invariant
                i <= eppp@.len(),
                limit == spec_error_correction_limit(params),
                forall|j: int| 0 <= j < i ==> #[trigger] eppp@[j] < limit,
            decreases eppp@.len() - i,
        {
            if eppp[i] >= limit {
                return Err(());
            }
            i = i + 1;
        }
        let base_c = crate::kembuf::zeroed_u16(c_len);
        proof {
            let lq = params.PARAM_LOGQ;
            assert((1u32 << (lq as u32)) >= 1) by (bit_vector)
                requires
                    lq <= 16,
            ;
            assert(vals_bounded(base_c@, params.PARAM_LOGQ as int)) by {
                assert forall|v: int| 0 <= v < base_c@.len() implies (#[trigger] base_c@[v] as u32)
                    < (1u32 << (params.PARAM_LOGQ as u32)) by {
                }
            };
        }
        Ok(SyntheticFrodo { params, lengths, base_c, eppp, counter: 0, migrate_every })
    }

    /// One modeled decapsulation: decode the `C` matrix, decide whether
    /// every coordinate still decodes, and advance the jitter phase.
    fn model_decaps(&mut self, ct: &Ciphertext) -> (r: InternalFrodoMeasurments)
        requires
            ct.data@.len() == old(self).spec_lengths().ciphertext,
        ensures
            final(self).spec_lengths() == old(self).spec_lengths(),
            final(self).spec_params() == old(self).spec_params(),
    {
        proof {
            use_type_invariant(&*self);
            lemma_param_products_bounded(self.params);
        }
        let bp = self.params.bp_bytes();
        let c_len = self.params.c_len();
        let lsb = self.params.PARAM_LOGQ as usize;
        proof {
            assert(c_len * lsb == 8 * self.params.spec_c_bytes()) by (nonlinear_arith)
                requires
                    c_len == self.params.PARAM_NBAR * self.params.PARAM_NBAR,
                    lsb == self.params.PARAM_LOGQ,
                    self.params.spec_c_bytes() == (self.params.PARAM_LOGQ * self.params.PARAM_NBAR
                        * self.params.PARAM_NBAR) as int / 8,
                    (self.params.PARAM_LOGQ * self.params.PARAM_NBAR * self.params.PARAM_NBAR) % 8
                        == 0,
            ;
        }
        let cvals = frodo_unpack(&ct.data, bp, c_len, lsb);
        let limit = error_correction_limit(&self.params);
        let qmax = self.params.PARAM_QMAX;
        proof {
            crate::modify::lemma_qmax_is_pow2(self.params);
        }
        let mut all_ok = true;
        let mut i: usize = 0;
        while i < c_len
            invariant
                c_len == self.base_c@.len(),
                c_len == self.eppp@.len(),
                cvals@.len() == c_len,
                i <= c_len,
                qmax == self.params.PARAM_QMAX,
                4 <= qmax <= 65536,
                qmax == (1u32 << (self.params.PARAM_LOGQ as u32)),
                lsb == self.params.PARAM_LOGQ,
                vals_bounded(cvals@, lsb as int),
                vals_bounded(self.base_c@, lsb as int),
            decreases c_len - i,
        {
            proof {
                assert((cvals@[i as int] as u32) < qmax);
                assert((self.base_c@[i as int] as u32) < qmax);
            }
            let dev: u32 = (cvals[i] as u32 + qmax - self.base_c[i] as u32) % qmax;
            proof {
                vstd::arithmetic::div_mod::lemma_mod_bound(
                    (cvals@[i as int] + qmax - self.base_c@[i as int]) as int,
                    qmax as int,
                );
            }
            if dev + (self.eppp[i] as u32) >= limit as u32 {
                all_ok = false;
            }
            i = i + 1;
        }
        self.counter = if self.counter < 0xffff_ffff_ffff_ffffu64 {
            self.counter + 1
        } else {
            0
        };
        let jitter: u64 = self.counter % 16;
        let migrated = self.migrate_every > 0 && self.counter % self.migrate_every == 0;
        let base: u64 = if all_ok {
            250
        } else {
            100
        };
        let timing = if migrated {
            None
        } else {
            Some(base + jitter)
        };
        InternalFrodoMeasurments::from_outcomes(timing, all_ok)
    }
}

impl Kem for SyntheticFrodo {
    closed spec fn spec_lengths(&self) -> KemLengths {
        self.lengths
    }

    fn lengths(&self) -> KemLengths {
        self.lengths
    }

    fn keypair(&mut self, pk: &mut PublicKey, sk: &mut SecretKey) -> Result<(), OracleError> {
        Ok(())
    }

    fn encaps(&mut self, ct: &mut Ciphertext, ss: &mut SharedSecret, pk: &PublicKey) -> Result<
        (),
        OracleError,
    > {
        proof {
            use_type_invariant(&*self);
            lemma_param_products_bounded(self.params);
        }
        let bp = self.params.bp_bytes();
        let lsb = self.params.PARAM_LOGQ as usize;
        proof {
            assert(self.base_c@.len() * lsb == 8 * self.params.spec_c_bytes())
                by (nonlinear_arith)
                requires
                    self.base_c@.len() == self.params.PARAM_NBAR * self.params.PARAM_NBAR,
                    lsb == self.params.PARAM_LOGQ,
                    self.params.spec_c_bytes() == (self.params.PARAM_LOGQ * self.params.PARAM_NBAR
                        * self.params.PARAM_NBAR) as int / 8,
                    (self.params.PARAM_LOGQ * self.params.PARAM_NBAR * self.params.PARAM_NBAR) % 8
                        == 0,
            ;
        }
        frodo_pack(&self.base_c, lsb, &mut ct.data, bp);
        Ok(())
    }

    fn decaps(&mut self, ct: &Ciphertext, ss: &mut SharedSecret, sk: &mut SecretKey) -> Result<
        (),
        OracleError,
    > {
        let _ = self.model_decaps(ct);
        Ok(())
    }
}

impl KemMeasure for SyntheticFrodo {
    type M = InternalFrodoMeasurments;

    fn decaps_measure(&mut self, ct: &Ciphertext, ss: &mut SharedSecret, sk: &mut SecretKey) ->
        Result<InternalFrodoMeasurments, OracleError> {
        Ok(self.model_decaps(ct))
    }

    fn timed_decaps(&mut self, ct: &Ciphertext, ss: &mut SharedSecret, sk: &mut SecretKey) ->
        Result<Measurments, OracleError> {
        let m = self.model_decaps(ct);
        let raw = match m.memcmp_timing() {
            Some(t) => Measurments {
                start: 0,
                stop: t,
                cpu_start: 0,
                cpu_stop: 0,
                memcmp1: flag_byte(m.memcmp1()),
                memcmp2: flag_byte(m.memcmp2()),
            },
            None => Measurments {
                start: 0,
                stop: 0,
                cpu_start: 0,
                cpu_stop: 1,
                memcmp1: flag_byte(m.memcmp1()),
                memcmp2: flag_byte(m.memcmp2()),
            },
        };
        Ok(raw)
    }
}

impl FrodoKem for SyntheticFrodo {
    closed spec fn spec_params(&self) -> FrodoKemParams {
        self.params
    }

    fn params(&self) -> (r: FrodoKemParams)
        ensures
            r == self.spec_params(),
            r.wf(),
            self.spec_lengths().ciphertext >= r.spec_bp_bytes() + r.spec_c_bytes(),
            4 <= 2 * spec_error_correction_limit(r) <= 16384,
    {
        proof {
            use_type_invariant(&*self);
            lemma_limit_range(self.params);
        }
        self.params
    }

    fn calculate_eref(&mut self, ct: &Ciphertext, sk: &mut SecretKey) -> (r: Result<
        Vec<u16>,
        OracleError,
    >) {
        proof {
            use_type_invariant(&*self);
        }
        let n = self.eppp.len();
        let mut out: Vec<u16> = Vec::new();
        let mut i: usize = 0;
        while i < n
            invariant
                i <= n,
                n == self.eppp@.len(),
                out@ =~= self.eppp@.take(i as int),
            decreases n - i,
        {
            out.push(self.eppp[i]);
            proof {
                assert(out@ =~= self.eppp@.take(i as int + 1));
            }
            i = i + 1;
        }
        proof {
            assert(self.eppp@.take(n as int) =~= self.eppp@);
        }
        Ok(out)
    }
}

impl KemWithRejectionSampling for SyntheticFrodo {
    closed spec fn spec_plaintext_len(&self) -> usize {
        self.lengths.shared_secret
    }

    fn plaintext_len(&self) -> usize {
        self.lengths.shared_secret
    }

    /// The modeled rejection count: one plus a small deterministic
    /// function of the plaintext bytes, standing in for the number of
    /// redraws the real sampler would need.
    fn num_rejections(&mut self, pt: &Plaintext) -> Result<u64, OracleError> {
        let n = pt.data.len();
        let mut acc: u64 = 0;
        let mut i: usize = 0;
        while i < n
            invariant
                i <= n,
                n == pt.data@.len(),
                acc < 64,
            decreases n - i,
        {
            acc = (acc + pt.data[i] as u64) % 64;
            proof {
                vstd::arithmetic::div_mod::lemma_mod_bound((acc) as int, 64);
            }
            i = i + 1;
        }
        Ok(1 + acc)
    }

    fn encaps_with_plaintext(
        &mut self,
        ct: &mut Ciphertext,
        ss: &mut SharedSecret,
        pk: &PublicKey,
        pt: &Plaintext,
    ) -> Result<(), OracleError> {
        self.encaps(ct, ss, pk)
    }
}

/// Twice the error-correction limit of any well-formed parameter set lies
/// in the bracket the search state machine accepts.
pub proof fn lemma_limit_range(p: FrodoKemParams)
    requires
        p.wf(),
    ensures
        4 <= 2 * spec_error_correction_limit(p) <= 16384,
        spec_error_correction_limit(p) >= 2,
{
    let s = (p.PARAM_LOGQ - p.PARAM_B - 1) as u16;
    assert(1 <= s <= 13);
    assert(2 <= (1u16 << s) && 2 * (1u16 << s) <= 16384) by (bit_vector)
        requires
            1 <= s <= 13,
    ;
}

/// A comparison outcome re-encoded as a raw byte.
fn flag_byte(f: Option<bool>) -> (r: u8)
    ensures
        crate::measure::decode_flag(r) == f,
{
    match f {
        Some(false) => 0,
        Some(true) => 1,
        None => 2,
    }
}

} // verus!
