use vstd::prelude::*;

verus! {

/// Parameter set of a FrodoKEM-style scheme: matrix dimensions and the
/// modulus `q = 2^PARAM_LOGQ` that the ciphertext components live in.
#[allow(non_snake_case)]
#[derive(Clone, Copy)]
pub struct FrodoKemParams {
    pub PARAM_N: u32,
    pub PARAM_NBAR: u32,
    pub PARAM_B: u32,
    pub PARAM_LOGQ: u32,
    pub PARAM_QMAX: u32,
}

/// Byte lengths of the fixed-size buffers a KEM operates on.
#[derive(Clone, Copy)]
pub struct KemLengths {
    pub public_key: usize,
    pub secret_key: usize,
    pub ciphertext: usize,
    pub shared_secret: usize,
}

impl FrodoKemParams {
    /// Basic well-formedness: the modulus is the power of two named by
    /// `PARAM_LOGQ`, the error bound `PARAM_B` leaves room for at least one
    /// error-correction bit, and both packed matrix regions are whole bytes.
    pub open spec fn wf(self) -> bool {
        &&& 2 <= self.PARAM_LOGQ <= 16
        &&& 2 <= self.PARAM_B
        &&& self.PARAM_B + 2 <= self.PARAM_LOGQ
        &&& self.PARAM_QMAX == (1u32 << self.PARAM_LOGQ)
        &&& 0 < self.PARAM_N <= 4096
        &&& 0 < self.PARAM_NBAR <= 16
        &&& (self.PARAM_LOGQ * self.PARAM_N * self.PARAM_NBAR) % 8 == 0
        &&& (self.PARAM_LOGQ * self.PARAM_NBAR * self.PARAM_NBAR) % 8 == 0
    }

    /// Number of bytes of the packed `Bp` matrix inside a ciphertext.
    pub open spec fn spec_bp_bytes(self) -> int {
        (self.PARAM_LOGQ * self.PARAM_N * self.PARAM_NBAR) as int / 8
    }

    /// Number of bytes of the packed `C` matrix inside a ciphertext.
    pub open spec fn spec_c_bytes(self) -> int {
        (self.PARAM_LOGQ * self.PARAM_NBAR * self.PARAM_NBAR) as int / 8
    }

    pub fn bp_bytes(&self) -> (r: usize)
        requires
            self.wf(),
        ensures
            r == self.spec_bp_bytes(),
    {
        proof {
            lemma_param_products_bounded(*self);
        }
        ((self.PARAM_LOGQ * self.PARAM_N * self.PARAM_NBAR) / 8) as usize
    }

    pub fn c_bytes(&self) -> (r: usize)
        requires
            self.wf(),
        ensures
            r == self.spec_c_bytes(),
    {
        proof {
            lemma_param_products_bounded(*self);
        }
        ((self.PARAM_LOGQ * self.PARAM_NBAR * self.PARAM_NBAR) / 8) as usize
    }

    /// Number of `u16` entries of the `C` matrix.
    pub open spec fn spec_c_len(self) -> int {
        (self.PARAM_NBAR * self.PARAM_NBAR) as int
    }

    pub fn c_len(&self) -> (r: usize)
        requires
            self.wf(),
        ensures
            r == self.spec_c_len(),
    {
        proof {
            lemma_param_products_bounded(*self);
        }
        (self.PARAM_NBAR * self.PARAM_NBAR) as usize
    }

    /// The FrodoKEM-640-AES parameter set.
    pub fn frodokem640aes() -> (r: FrodoKemParams)
        ensures
            r.wf(),
            r.PARAM_N == 640,
            r.PARAM_NBAR == 8,
            r.PARAM_B == 2,
            r.PARAM_LOGQ == 15,
            r.PARAM_QMAX == 32768,
    {
        proof {
            assert(32768u32 == (1u32 << 15u32)) by (bit_vector);
            assert((15u32 * 640 * 8) % 8 == 0 && (15u32 * 8 * 8) % 8 == 0);
        }
        FrodoKemParams {
            PARAM_N: 640,
            PARAM_NBAR: 8,
            PARAM_B: 2,
            PARAM_LOGQ: 15,
            PARAM_QMAX: 32768,
        }
    }

    /// The FrodoKEM-1344-AES parameter set.
    pub fn frodokem1344aes() -> (r: FrodoKemParams)
        ensures
            r.wf(),
            r.PARAM_N == 1344,
            r.PARAM_NBAR == 8,
            r.PARAM_B == 4,
            r.PARAM_LOGQ == 16,
            r.PARAM_QMAX == 65536,
    {
        proof {
            assert(65536u32 == (1u32 << 16u32)) by (bit_vector);
            assert((16u32 * 1344 * 8) % 8 == 0 && (16u32 * 8 * 8) % 8 == 0);
        }
        FrodoKemParams {
            PARAM_N: 1344,
            PARAM_NBAR: 8,
            PARAM_B: 4,
            PARAM_LOGQ: 16,
            PARAM_QMAX: 65536,
        }
    }

    /// Buffer lengths of the FrodoKEM-640-AES parameter set.
    pub fn frodokem640aes_lengths() -> (r: KemLengths)
        ensures
            r.ciphertext == 9720,
            r.public_key == 9616,
            r.secret_key == 19888,
            r.shared_secret == 16,
    {
        KemLengths { public_key: 9616, secret_key: 19888, ciphertext: 9720, shared_secret: 16 }
    }
}

/// Element-wise maximum error-correction capability: `2^(logq - b - 1)`.
/// A modification of a `C` entry below this limit is absorbed by the
/// decoder; one at or above it flips the decoded matrix entry.
pub open spec fn spec_error_correction_limit(p: FrodoKemParams) -> u16 {
    (1u16 << ((p.PARAM_LOGQ - p.PARAM_B - 1) as u16))
}

pub fn error_correction_limit(p: &FrodoKemParams) -> (r: u16)
    requires
        p.wf(),
    ensures
        r == spec_error_correction_limit(*p),
        r >= 2,
        4 * r <= p.PARAM_QMAX,
{
    let shift: u16 = (p.PARAM_LOGQ - p.PARAM_B - 1) as u16;
    proof {
        lemma_shift_bounds(shift, p.PARAM_LOGQ as u16);
    }
    1u16 << shift
}

/// The packed-size products are small: with `logq <= 16`, `n <= 4096` and
/// `nbar <= 16` every product the byte-length arithmetic forms stays far
/// below `u32::MAX`.
pub proof fn lemma_param_products_bounded(p: FrodoKemParams)
    requires
        p.wf(),
    ensures
        p.PARAM_LOGQ * p.PARAM_N <= 0x10000,
        p.PARAM_LOGQ * p.PARAM_NBAR <= 256,
        p.PARAM_LOGQ * p.PARAM_N * p.PARAM_NBAR <= 0x100000,
        p.PARAM_LOGQ * p.PARAM_NBAR * p.PARAM_NBAR <= 0x1000,
        p.PARAM_NBAR * p.PARAM_NBAR <= 256,
{
    assert(p.PARAM_LOGQ * p.PARAM_N <= 0x10000 && p.PARAM_LOGQ * p.PARAM_NBAR <= 256
        && p.PARAM_LOGQ * p.PARAM_N * p.PARAM_NBAR <= 0x100000 && p.PARAM_LOGQ * p.PARAM_NBAR
        * p.PARAM_NBAR <= 0x1000 && p.PARAM_NBAR * p.PARAM_NBAR <= 256) by (nonlinear_arith)
        requires
            p.PARAM_LOGQ <= 16,
            p.PARAM_N <= 4096,
            p.PARAM_NBAR <= 16,
    ;
}

/// `1 << s` is at least two and `4 * (1 << s) <= 1 << l` when
/// `s + 2 <= l <= 16`, stated over the `u16`/`u32` shifts the parameter
/// arithmetic uses.
proof fn lemma_shift_bounds(s: u16, l: u16)
    requires
        1 <= s,
        s + 2 <= l,
        l <= 16,
    ensures
        (1u16 << s) >= 2,
        4 * (1u16 << s) <= (1u32 << l),
{
    assert((1u16 << s) >= 2 && 4 * (1u16 << s) <= (1u32 << l)) by (bit_vector)
        requires
            1 <= s,
            s + 2 <= l,
            l <= 16,
    ;
}

/// The parameter structs of the other KEM families exercised by the
/// campaign drivers; carried as plain integers.
#[allow(non_snake_case)]
pub struct BikeParams {
    pub PARAM_N: usize,
    pub PARAM_R: usize,
    pub PARAM_T: usize,
    pub PARAM_SK_OFFSET: usize,
}

#[allow(non_snake_case)]
pub struct HqcParams {
    pub PARAM_N: usize,
    pub PARAM_N1: usize,
    pub PARAM_N2: usize,
    pub PARAM_N1N2: usize,
    pub PARAM_SECURITY: usize,
    pub PARAM_DELTA: usize,
}

#[allow(non_snake_case)]
pub struct KyberParams {
    pub PARAM_N: usize,
    pub PARAM_Q: usize,
    pub PARAM_K: usize,
}

} // verus!
