//! Deterministic, invertible perturbation of one coordinate of the packed
//! `C` matrix of a FrodoKEM-style ciphertext, working modulo `q`. Adding an
//! amount and then subtracting the same amount restores the ciphertext
//! byte for byte.

use vstd::prelude::*;
use vstd::arithmetic::div_mod::{lemma_fundamental_div_mod, lemma_mod_bound, lemma_small_mod,
    lemma_mod_multiples_vanish};
use crate::codec::{byte_bit, frodo_pack, frodo_unpack, packed, value_bit, vals_bounded};
use crate::params::{FrodoKemParams, lemma_param_products_bounded};

verus! {

/// A signed perturbation amount: the sign selects addition or subtraction
/// modulo `q`.
pub enum Sign<T> {
    Plus(T),
    Minus(T),
}

/// The perturbed coordinate value: `x + a` or `x - a`, both reduced
/// modulo `q` (the subtraction adds `q` first, so it never goes negative).
pub open spec fn mod_value(x: u16, amount: Sign<u16>, q: int) -> int {
    match amount {
        Sign::Plus(a) => (x + a) % q,
        Sign::Minus(a) => (x + q - a) % q,
    }
}

/// How a ciphertext buffer after `modify` relates to the one before:
/// the bytes outside the packed `C` region are untouched, and the `C`
/// region decodes to the same matrix with exactly the chosen coordinate
/// perturbed modulo `q`.
pub open spec fn modify_rel(
    pre: Seq<u8>,
    post: Seq<u8>,
    p: FrodoKemParams,
    idx: int,
    amount: Sign<u16>,
) -> bool {
    exists|v0: Seq<u16>|
        #[trigger] vals_bounded(v0, p.PARAM_LOGQ as int) && modify_witness(
            pre,
            post,
            p,
            idx,
            amount,
            v0,
        )
}

/// The decoded-matrix witness of `modify_rel`.
pub open spec fn modify_witness(
    pre: Seq<u8>,
    post: Seq<u8>,
    p: FrodoKemParams,
    idx: int,
    amount: Sign<u16>,
    v0: Seq<u16>,
) -> bool {
    let bp = p.spec_bp_bytes();
    let c = p.spec_c_bytes();
    let v1 = v0.update(idx, mod_value(v0[idx], amount, p.PARAM_QMAX as int) as u16);
    &&& post.len() == pre.len()
    &&& forall|i: int| 0 <= i < pre.len() && !(bp <= i < bp + c) ==> post[i] == pre[i]
    &&& v0.len() == p.spec_c_len()
    &&& vals_bounded(v0, p.PARAM_LOGQ as int)
    &&& packed(pre.subrange(bp, bp + c), v0, p.PARAM_LOGQ as int)
    &&& packed(post.subrange(bp, bp + c), v1, p.PARAM_LOGQ as int)
}

/// `2^logq == qmax` links the codec's value bound to the modulus.
pub proof fn lemma_qmax_is_pow2(p: FrodoKemParams)
    requires
        p.wf(),
    ensures
        (1u32 << (p.PARAM_LOGQ as u32)) == p.PARAM_QMAX,
        4 <= p.PARAM_QMAX <= 65536,
{
    let l = p.PARAM_LOGQ;
    assert(4 <= (1u32 << (l as u32)) <= 65536) by (bit_vector)
        requires
            2 <= l <= 16,
    ;
}

/// Perturb coordinate `index_ij` of the packed `C` matrix by `amount`,
/// modulo `q`. The `Bp` region and any trailing bytes are untouched.
pub fn modify(
    ct: &mut Vec<u8>,
    p: &FrodoKemParams,
    index_ij: usize,
    amount: Sign<u16>,
) -> (r: Result<(), ()>)
    requires
        p.wf(),
        0 <= index_ij < p.spec_c_len(),
        old(ct)@.len() >= p.spec_bp_bytes() + p.spec_c_bytes(),
        match amount {
            Sign::Plus(a) => a <= p.PARAM_QMAX,
            Sign::Minus(a) => a <= p.PARAM_QMAX,
        },
    ensures
        r is Ok,
        final(ct)@.len() == old(ct)@.len(),
        modify_rel(old(ct)@, final(ct)@, *p, index_ij as int, amount),
{
    proof {
        lemma_param_products_bounded(*p);
        lemma_qmax_is_pow2(*p);
    }
    let bp_bytes: usize = p.bp_bytes();
    let c_bytes: usize = p.c_bytes();
    let c_len: usize = p.c_len();
    let lsb: usize = p.PARAM_LOGQ as usize;
    proof {
        assert(c_len * lsb == 8 * c_bytes) by (nonlinear_arith)
            requires
                c_len == p.PARAM_NBAR * p.PARAM_NBAR,
                lsb == p.PARAM_LOGQ,
                c_bytes == (p.PARAM_LOGQ * p.PARAM_NBAR * p.PARAM_NBAR) as int / 8,
                (p.PARAM_LOGQ * p.PARAM_NBAR * p.PARAM_NBAR) % 8 == 0,
                p.PARAM_NBAR <= 16,
                p.PARAM_LOGQ <= 16,
        ;
    }
    let mut vals: Vec<u16> = frodo_unpack(ct, bp_bytes, c_len, lsb);
    let ghost v0 = vals@;
    let qmax: u32 = p.PARAM_QMAX;
    let tomod: u32 = vals[index_ij] as u32;
    let newval: u32 = match amount {
        Sign::Plus(a) => (tomod + a as u32) % qmax,
        Sign::Minus(a) => (tomod + qmax - a as u32) % qmax,
    };
    proof {
        lemma_mod_bound(newval as int, qmax as int);
        match amount {
            Sign::Plus(a) => {
                lemma_mod_bound((tomod + a) as int, qmax as int);
            },
            Sign::Minus(a) => {
                lemma_mod_bound((tomod + qmax - a) as int, qmax as int);
            },
        }
        assert(newval == mod_value(v0[index_ij as int], amount, qmax as int));
        assert(newval < qmax);
    }
    vals[index_ij] = newval as u16;
    proof {
        assert(vals@ == v0.update(
            index_ij as int,
            mod_value(v0[index_ij as int], amount, qmax as int) as u16,
        ));
        assert(vals_bounded(vals@, lsb as int)) by {
            assert forall|v: int| 0 <= v < vals@.len() implies (#[trigger] vals@[v] as u32) < (1u32
                << (lsb as u32)) by {
                if v != index_ij as int {
                    assert(vals@[v] == v0[v]);
                }
            }
        };
    }
    frodo_pack(&vals, lsb, ct, bp_bytes);
    proof {
        assert(modify_witness(old(ct)@, ct@, *p, index_ij as int, amount, v0));
        assert(vals_bounded(v0, p.PARAM_LOGQ as int));
    }
    Ok(())
}

/// Perturbing a coordinate by `+a` and then by `-a` restores every byte of
/// the ciphertext: the two `modify` relations compose to the identity.
pub proof fn lemma_modify_round_trip(
    pre: Seq<u8>,
    mid: Seq<u8>,
    post: Seq<u8>,
    p: FrodoKemParams,
    idx: int,
    a: u16,
)
    requires
        p.wf(),
        0 <= idx < p.spec_c_len(),
        a <= p.PARAM_QMAX,
        pre.len() >= p.spec_bp_bytes() + p.spec_c_bytes(),
        modify_rel(pre, mid, p, idx, Sign::Plus(a)),
        modify_rel(mid, post, p, idx, Sign::Minus(a)),
    ensures
        post == pre,
{
    lemma_qmax_is_pow2(p);
    let q = p.PARAM_QMAX as int;
    let lsb = p.PARAM_LOGQ as int;
    let bp = p.spec_bp_bytes();
    let c = p.spec_c_bytes();
    let v0 = choose|v0: Seq<u16>|
        #[trigger] vals_bounded(v0, lsb) && modify_witness(pre, mid, p, idx, Sign::Plus(a), v0);
    let w0 = choose|w0: Seq<u16>|
        #[trigger] vals_bounded(w0, lsb) && modify_witness(mid, post, p, idx, Sign::Minus(a), w0);
    let v1 = v0.update(idx, mod_value(v0[idx], Sign::Plus(a), q) as u16);
    let w1 = w0.update(idx, mod_value(w0[idx], Sign::Minus(a), q) as u16);
    lemma_mod_bound((v0[idx] + a) as int, q);
    assert(vals_bounded(v1, lsb)) by {
        assert forall|v: int| 0 <= v < v1.len() implies (#[trigger] v1[v] as u32) < (1u32 << (
        lsb as u32)) by {
            if v != idx {
                assert(v1[v] == v0[v]);
            }
        }
    };
    // the middle buffer decodes uniquely, so the second call started from v1
    lemma_packed_vals_unique(mid.subrange(bp, bp + c), v1, w0, lsb);
    // undoing the perturbation restores the original coordinate
    assert(w1 =~= v0) by {
        lemma_mod_add_sub_cancel(v0[idx] as int, a as int, q);
        assert(v1[idx] as int == (v0[idx] + a) % q);
        assert(w0[idx] == v1[idx]);
        assert(mod_value(w0[idx], Sign::Minus(a), q) == ((v0[idx] + a) % q + q - a) % q);
        assert(w1[idx] == v0[idx]);
        assert forall|v: int| 0 <= v < w1.len() implies w1[v] == v0[v] by {
            if v != idx {
                assert(w1[v] == v1[v] && v1[v] == v0[v]);
            }
        }
    };
    // equal matrices pack to equal bytes
    assert(packed(post.subrange(bp, bp + c), v0, lsb)) by {
        assert(w1 == v0);
        assert(packed(post.subrange(bp, bp + c), w1, lsb));
    };
    lemma_packed_bytes_unique(post.subrange(bp, bp + c), pre.subrange(bp, bp + c), v0, lsb);
    assert(post.subrange(bp, bp + c) == pre.subrange(bp, bp + c));
    assert(mid.len() == pre.len() && post.len() == mid.len());
    assert(post =~= pre) by {
        assert forall|i: int| 0 <= i < pre.len() implies post[i] == pre[i] by {
            if bp <= i < bp + c {
                assert(post.subrange(bp, bp + c)[i - bp] == post[i]);
                assert(pre.subrange(bp, bp + c)[i - bp] == pre[i]);
            } else {
                assert(mid[i] == pre[i] && post[i] == mid[i]);
            }
        }
    };
}

/// `((x + a) % q + q - a) % q == x` for `0 <= x < q` and `0 <= a <= q`.
proof fn lemma_mod_add_sub_cancel(x: int, a: int, q: int)
    requires
        0 < q,
        0 <= x < q,
        0 <= a <= q,
    ensures
        ((x + a) % q + q - a) % q == x,
{
    let y = (x + a) % q;
    if x + a < q {
        lemma_small_mod((x + a) as nat, q as nat);
        assert(y == x + a);
        lemma_mod_multiples_vanish(1, x, q);
        assert((q * 1 + x) % q == x % q);
        lemma_small_mod(x as nat, q as nat);
        assert((y + q - a) == q + x);
    } else {
        lemma_mod_multiples_vanish(1, x + a - q, q);
        assert((q * 1 + (x + a - q)) % q == (x + a - q) % q);
        lemma_small_mod((x + a - q) as nat, q as nat);
        assert(y == x + a - q);
        lemma_small_mod(x as nat, q as nat);
        assert((y + q - a) == x);
    }
}

/// Two bounded matrices packed into the same bytes are the same matrix.
pub proof fn lemma_packed_vals_unique(bytes: Seq<u8>, a: Seq<u16>, b: Seq<u16>, lsb: int)
    requires
        1 <= lsb <= 16,
        packed(bytes, a, lsb),
        packed(bytes, b, lsb),
        vals_bounded(a, lsb),
        vals_bounded(b, lsb),
    ensures
        a == b,
{
    assert(lsb * a.len() == lsb * b.len());
    assert(a.len() == b.len()) by (nonlinear_arith)
        requires
            lsb * a.len() == lsb * b.len(),
            lsb >= 1,
    ;
    assert forall|v: int| 0 <= v < a.len() implies a[v] == b[v] by {
        assert forall|k: int| 0 <= k < lsb implies value_bit(a[v], lsb, k) == value_bit(
            b[v],
            lsb,
            k,
        ) by {
            let i = v * lsb + k;
            assert(0 <= i && i + 1 <= a.len() * lsb) by (nonlinear_arith)
                requires
                    i == v * lsb + k,
                    0 <= v < a.len(),
                    0 <= k < lsb,
            ;
            assert(8 * bytes.len() == lsb * a.len());
            assert(a.len() * lsb == lsb * a.len()) by (nonlinear_arith);
            lemma_fundamental_div_mod(i, lsb);
            lemma_mod_bound(i, lsb);
            assert(i / lsb == v && i % lsb == k) by {
                assert(v * lsb == lsb * v) by (nonlinear_arith);
                vstd::arithmetic::div_mod::lemma_div_multiples_vanish_fancy(v, k, lsb);
                lemma_fundamental_div_mod(i, lsb);
            };
            assert(byte_bit(bytes[i / 8], i % 8) == value_bit(a[i / lsb], lsb, i % lsb));
            assert(byte_bit(bytes[i / 8], i % 8) == value_bit(b[i / lsb], lsb, i % lsb));
        }
        lemma_u16_eq_from_bits(a[v], b[v], lsb);
    }
    assert(a =~= b);
}

/// A matrix packs into a unique byte string.
pub proof fn lemma_packed_bytes_unique(b1: Seq<u8>, b2: Seq<u8>, vals: Seq<u16>, lsb: int)
    requires
        1 <= lsb <= 16,
        packed(b1, vals, lsb),
        packed(b2, vals, lsb),
    ensures
        b1 == b2,
{
    assert(b1.len() == b2.len());
    assert forall|t: int| 0 <= t < b1.len() implies b1[t] == b2[t] by {
        assert forall|j: int| 0 <= j < 8 implies byte_bit(b1[t], j) == byte_bit(b2[t], j) by {
            let i = 8 * t + j;
            lemma_fundamental_div_mod(i, 8);
            assert(i / 8 == t && i % 8 == j) by {
                vstd::arithmetic::div_mod::lemma_div_multiples_vanish_fancy(t, j, 8);
            };
            assert(byte_bit(b1[i / 8], i % 8) == value_bit(vals[i / lsb], lsb, i % lsb));
            assert(byte_bit(b2[i / 8], i % 8) == value_bit(vals[i / lsb], lsb, i % lsb));
        }
        lemma_u8_eq_from_bits(b1[t], b2[t]);
    }
    assert(b1 =~= b2);
}

/// Two `u16` values below `2^w` that agree on their low `w` bits are equal.
proof fn lemma_u16_eq_from_bits(x: u16, y: u16, w: int)
    requires
        0 <= w <= 16,
        (x as u32) < (1u32 << (w as u32)),
        (y as u32) < (1u32 << (w as u32)),
        forall|k: int| 0 <= k < w ==> value_bit(x, w, k) == value_bit(y, w, k),
    ensures
        x == y,
    decreases w,
{
    if w == 0 {
        assert(x == 0 && y == 0) by (bit_vector)
            requires
                (x as u32) < (1u32 << 0u32),
                (y as u32) < (1u32 << 0u32),
        ;
    } else {
        let xs = x >> 1u16;
        let ys = y >> 1u16;
        let w16 = w as u16;
        assert((xs as u32) < (1u32 << ((w16 - 1) as u32)) && (ys as u32) < (1u32 << ((w16
            - 1) as u32))) by (bit_vector)
            requires
                xs == x >> 1u16,
                ys == y >> 1u16,
                (x as u32) < (1u32 << (w16 as u32)),
                (y as u32) < (1u32 << (w16 as u32)),
                1 <= w16 <= 16,
        ;
        assert forall|k: int| 0 <= k < w - 1 implies #[trigger] value_bit(xs, w - 1, k)
            == value_bit(ys, w - 1, k) by {
            let s = (w - 1 - 1 - k) as u16;
            assert((xs >> s) & 1 == (x >> (s + 1) as u16) & 1 && (ys >> s) & 1 == (y >> (s
                + 1) as u16) & 1) by (bit_vector)
                requires
                    xs == x >> 1u16,
                    ys == y >> 1u16,
                    s <= 15,
            ;
            assert(value_bit(x, w, k) == ((x >> (s + 1) as u16) & 1 == 1));
            assert(value_bit(y, w, k) == ((y >> (s + 1) as u16) & 1 == 1));
        }
        lemma_u16_eq_from_bits(xs, ys, w - 1);
        assert(value_bit(x, w, w - 1) == value_bit(y, w, w - 1));
        assert(value_bit(x, w, w - 1) == ((x >> 0u16) & 1 == 1));
        assert(value_bit(y, w, w - 1) == ((y >> 0u16) & 1 == 1));
        assert(x == y) by (bit_vector)
            requires
                x >> 1u16 == y >> 1u16,
                ((x >> 0u16) & 1 == 1) == ((y >> 0u16) & 1 == 1),
        ;
    }
}

/// Two bytes that agree on all eight bits are equal.
proof fn lemma_u8_eq_from_bits(x: u8, y: u8)
    requires
        forall|j: int| 0 <= j < 8 ==> byte_bit(x, j) == byte_bit(y, j),
    ensures
        x == y,
{
    assert(byte_bit(x, 0) == byte_bit(y, 0));
    assert(byte_bit(x, 1) == byte_bit(y, 1));
    assert(byte_bit(x, 2) == byte_bit(y, 2));
    assert(byte_bit(x, 3) == byte_bit(y, 3));
    assert(byte_bit(x, 4) == byte_bit(y, 4));
    assert(byte_bit(x, 5) == byte_bit(y, 5));
    assert(byte_bit(x, 6) == byte_bit(y, 6));
    assert(byte_bit(x, 7) == byte_bit(y, 7));
    assert(x == y) by (bit_vector)
        requires
            ((x >> 7u8) & 1 == 1) == ((y >> 7u8) & 1 == 1),
            ((x >> 6u8) & 1 == 1) == ((y >> 6u8) & 1 == 1),
            ((x >> 5u8) & 1 == 1) == ((y >> 5u8) & 1 == 1),
            ((x >> 4u8) & 1 == 1) == ((y >> 4u8) & 1 == 1),
            ((x >> 3u8) & 1 == 1) == ((y >> 3u8) & 1 == 1),
            ((x >> 2u8) & 1 == 1) == ((y >> 2u8) & 1 == 1),
            ((x >> 1u8) & 1 == 1) == ((y >> 1u8) & 1 == 1),
            ((x >> 0u8) & 1 == 1) == ((y >> 0u8) & 1 == 1),
    ;
}

} // verus!
