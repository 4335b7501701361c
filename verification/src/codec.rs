//! Bit-level codec for FrodoKEM-style packed matrices: a matrix of
//! `lsb`-bit entries is stored MSB-first as a contiguous bit stream inside
//! the ciphertext byte buffer.

use vstd::prelude::*;
use vstd::arithmetic::div_mod::{lemma_fundamental_div_mod, lemma_mod_bound};

verus! {

/// Bit `j` of byte `b`, counting the most significant bit as bit 0,
/// matching the order in which the packed stream fills bytes.
pub open spec fn byte_bit(b: u8, j: int) -> bool {
    (b >> ((7 - j) as u8)) & 1 == 1
}

/// Bit `k` of the low `lsb` bits of `v`, counting the most significant of
/// those bits as bit 0.
pub open spec fn value_bit(v: u16, lsb: int, k: int) -> bool {
    (v >> ((lsb - 1 - k) as u16)) & 1 == 1
}

/// `bytes` holds exactly the low `lsb` bits of every entry of `vals`,
/// MSB-first, as one contiguous bit stream.
pub open spec fn packed(bytes: Seq<u8>, vals: Seq<u16>, lsb: int) -> bool {
    &&& 8 * bytes.len() == lsb * vals.len()
    &&& forall|i: int|
        0 <= i < 8 * bytes.len() ==> #[trigger] byte_bit(bytes[i / 8], i % 8) == value_bit(
            vals[i / lsb],
            lsb,
            i % lsb,
        )
}

/// Every entry of `vals` fits in `lsb` bits.
pub open spec fn vals_bounded(vals: Seq<u16>, lsb: int) -> bool {
    forall|v: int| 0 <= v < vals.len() ==> (#[trigger] vals[v] as u32) < (1u32 << (lsb as u32))
}

/// `i < n * d` gives `i / d < n`.
pub proof fn lemma_div_lt_pub(i: int, d: int, n: int)
    requires
        0 <= i,
        1 <= d,
        i < n * d,
    ensures
        0 <= i / d < n,
{
    lemma_div_lt(i, d, n);
}

/// `i < n * d` gives `i / d < n`.
proof fn lemma_div_lt(i: int, d: int, n: int)
    requires
        0 <= i,
        1 <= d,
        i < n * d,
    ensures
        0 <= i / d < n,
{
    lemma_fundamental_div_mod(i, d);
    lemma_mod_bound(i, d);
    if i / d >= n {
        assert(d * (i / d) >= d * n) by (nonlinear_arith)
            requires
                d >= 1,
                i / d >= n,
        ;
        assert(n * d == d * n) by (nonlinear_arith);
        assert(false);
    }
    if i / d < 0 {
        assert(d * (i / d) <= d * -1) by (nonlinear_arith)
            requires
                d >= 1,
                i / d <= -1,
        ;
        assert(false);
    }
}

/// Appending one bit to an accumulator: how the bits of `acc << 1 | b`
/// relate to the bits of `acc`.
proof fn lemma_u16_append_bit(acc: u16, b: u16, w: u16, r: u16)
    requires
        (acc as u32) < (1u32 << (w as u32)),
        b <= 1,
        w <= 15,
        r == (acc << 1u16) | b,
    ensures
        r & 1 == b,
        forall|s: u16| 1 <= s <= 15 ==> #[trigger] ((r >> s) & 1) == (acc >> (s - 1) as u16) & 1,
        (r as u32) < (1u32 << ((w + 1) as u32)),
{
    assert((r & 1 == b) && ((r as u32) < (1u32 << ((w + 1) as u32)))) by (bit_vector)
        requires
            (acc as u32) < (1u32 << (w as u32)),
            b <= 1,
            w <= 15,
            r == (acc << 1u16) | b,
    ;
    assert forall|s: u16| 1 <= s <= 15 implies #[trigger] ((r >> s) & 1) == (acc >> (s
        - 1) as u16) & 1 by {
        assert((r >> s) & 1 == (acc >> (s - 1) as u16) & 1) by (bit_vector)
            requires
                b <= 1,
                1 <= s <= 15,
                r == (acc << 1u16) | b,
        ;
    }
}

/// The same fact for a byte accumulator.
proof fn lemma_u8_append_bit(acc: u8, b: u8, w: u8, r: u8)
    requires
        (acc as u32) < (1u32 << (w as u32)),
        b <= 1,
        w <= 7,
        r == (acc << 1u8) | b,
    ensures
        r & 1 == b,
        forall|s: u8| 1 <= s <= 7 ==> #[trigger] ((r >> s) & 1) == (acc >> (s - 1) as u8) & 1,
        (r as u32) < (1u32 << ((w + 1) as u32)),
{
    assert((r & 1 == b) && ((r as u32) < (1u32 << ((w + 1) as u32)))) by (bit_vector)
        requires
            (acc as u32) < (1u32 << (w as u32)),
            b <= 1,
            w <= 7,
            r == (acc << 1u8) | b,
    ;
    assert forall|s: u8| 1 <= s <= 7 implies #[trigger] ((r >> s) & 1) == (acc >> (s - 1) as u8)
        & 1 by {
        assert((r >> s) & 1 == (acc >> (s - 1) as u8) & 1) by (bit_vector)
            requires
                b <= 1,
                1 <= s <= 7,
                r == (acc << 1u8) | b,
        ;
    }
}

/// Unpack `nvals` entries of `lsb` bits each from the bit stream starting
/// at byte `off` of `bytes`.
pub fn frodo_unpack(bytes: &Vec<u8>, off: usize, nvals: usize, lsb: usize) -> (r: Vec<u16>)
    requires
        1 <= lsb <= 16,
        nvals <= 0x100000,
        (nvals * lsb) % 8 == 0,
        off + (nvals * lsb) / 8 <= bytes@.len(),
    ensures
        r@.len() == nvals,
        vals_bounded(r@, lsb as int),
        packed(bytes@.subrange(off as int, off + (nvals * lsb) / 8), r@, lsb as int),
{
    proof {
        assert(nvals * lsb <= 0x100000 * 16) by (nonlinear_arith)
            requires
                nvals <= 0x100000,
                lsb <= 16,
        ;
    }
    let nbits: usize = nvals * lsb;
    let nbytes: usize = nbits / 8;
    let blen: usize = bytes.len();
    let ghost sub = bytes@.subrange(off as int, off + nbytes);
    proof {
        lemma_fundamental_div_mod(nbits as int, 8);
    }
    let mut r: Vec<u16> = Vec::new();
    let mut v: usize = 0;
    while v < nvals
        invariant
            v <= nvals,
            r@.len() == v,
            1 <= lsb <= 16,
            nvals <= 0x100000,
            nbits == nvals * lsb,
            nbits == 8 * nbytes,
            off + nbytes <= blen,
            blen == bytes@.len(),
            sub == bytes@.subrange(off as int, off + nbytes),
            vals_bounded(r@, lsb as int),
            forall|v2: int, k: int|
                0 <= v2 < v && 0 <= k < lsb ==> #[trigger] value_bit(r@[v2], lsb as int, k)
                    == byte_bit(sub[(v2 * lsb + k) / 8], (v2 * lsb + k) % 8),
        decreases nvals - v,
    {
        let mut acc: u16 = 0;
        proof {
            assert(v * lsb + lsb <= nvals * lsb) by (nonlinear_arith)
                requires
                    v < nvals,
                    lsb >= 1,
            ;
            assert((1u32 << 0u32) == 1u32) by (bit_vector);
        }
        let mut k: usize = 0;
        while k < lsb
            invariant
                k <= lsb,
                1 <= lsb <= 16,
                v < nvals,
                nbits == nvals * lsb,
                nbits == 8 * nbytes,
                off + nbytes <= blen,
                blen == bytes@.len(),
                sub == bytes@.subrange(off as int, off + nbytes),
                v * lsb + lsb <= nbits,
                (acc as u32) < (1u32 << (k as u32)),
                forall|j: int|
                    0 <= j < k ==> #[trigger] value_bit(acc, k as int, j) == byte_bit(
                        sub[(v * lsb + j) / 8],
                        (v * lsb + j) % 8,
                    ),
            decreases lsb - k,
        {
            let i: usize = v * lsb + k;
            proof {
                assert(i < nbits);
                lemma_div_lt(i as int, 8, nbytes as int);
                lemma_fundamental_div_mod(i as int, 8);
                lemma_mod_bound(i as int, 8);
            }
            let byte: u8 = bytes[off + i / 8];
            let sh: u8 = (7 - (i % 8)) as u8;
            let bit: u8 = (byte >> sh) & 1;
            proof {
                assert((byte >> sh) & 1 <= 1) by (bit_vector);
            }
            let ghost oldacc = acc;
            acc = (acc << 1u16) | (bit as u16);
            proof {
                lemma_u16_append_bit(oldacc, bit as u16, k as u16, acc);
                assert(sub[i as int / 8] == bytes@[off + i as int / 8]);
                // the new low bit is the stream bit just read
                assert(value_bit(acc, (k + 1) as int, k as int) == byte_bit(
                    sub[i as int / 8],
                    i as int % 8,
                )) by {
                    assert(acc & 1 == bit as u16);
                    assert((acc >> 0u16) & 1 == acc & 1) by (bit_vector);
                    assert(((byte >> sh) & 1 == 1) == (bit == 1));
                };
                // previously read bits shift up by one
                assert forall|j: int| 0 <= j < k implies #[trigger] value_bit(
                    acc,
                    (k + 1) as int,
                    j,
                ) == byte_bit(sub[(v * lsb + j) / 8], (v * lsb + j) % 8) by {
                    let s = (k - j) as u16;
                    assert(1 <= s <= 15);
                    assert(((acc >> s) & 1) == (oldacc >> (s - 1) as u16) & 1);
                    assert(((k + 1) as int - 1 - j) as u16 == s);
                    assert((k as int - 1 - j) as u16 == (s - 1) as u16);
                    assert(value_bit(acc, (k + 1) as int, j) == ((acc >> s) & 1 == 1));
                    assert(value_bit(oldacc, k as int, j) == ((oldacc >> (s - 1) as u16) & 1
                        == 1));
                    assert(value_bit(oldacc, k as int, j) == byte_bit(
                        sub[(v * lsb + j) / 8],
                        (v * lsb + j) % 8,
                    ));
                };
            }
            k = k + 1;
        }
        proof {
            assert forall|j: int| 0 <= j < lsb implies #[trigger] value_bit(acc, lsb as int, j)
                == byte_bit(sub[(v * lsb + j) / 8], (v * lsb + j) % 8) by {}
        }
        r.push(acc);
        v = v + 1;
    }
    proof {
        assert(8 * sub.len() == lsb * r@.len()) by (nonlinear_arith)
            requires
                sub.len() == nbytes,
                r@.len() == nvals,
                nbits == nvals * lsb,
                nbits == 8 * nbytes,
        ;
        assert forall|i: int| 0 <= i < 8 * sub.len() implies #[trigger] byte_bit(sub[i / 8], i % 8)
            == value_bit(r@[i / (lsb as int)], lsb as int, i % (lsb as int)) by {
            let v2 = i / (lsb as int);
            let k = i % (lsb as int);
            lemma_fundamental_div_mod(i, lsb as int);
            assert(0 <= k < lsb);
            assert(i == v2 * lsb + k) by (nonlinear_arith)
                requires
                    i == (lsb as int) * v2 + k,
            ;
            lemma_div_lt(i, lsb as int, nvals as int);
        }
    }
    r
}

/// Pack the low `lsb` bits of every entry of `vals` MSB-first into the
/// byte region `[off, off + len*lsb/8)` of `out`; bytes outside the region
/// are untouched.
pub fn frodo_pack(vals: &Vec<u16>, lsb: usize, out: &mut Vec<u8>, off: usize)
    requires
        1 <= lsb <= 16,
        vals@.len() <= 0x100000,
        (vals@.len() * lsb) % 8 == 0,
        off + (vals@.len() * lsb) / 8 <= old(out)@.len(),
    ensures
        final(out)@.len() == old(out)@.len(),
        forall|idx: int|
            0 <= idx < old(out)@.len() && !(off <= idx < off + (vals@.len() * lsb) / 8)
                ==> final(out)@[idx] == old(out)@[idx],
        packed(
            final(out)@.subrange(off as int, off + (vals@.len() * lsb) / 8),
            vals@,
            lsb as int,
        ),
{
    let nvals: usize = vals.len();
    proof {
        assert(nvals * lsb <= 0x100000 * 16) by (nonlinear_arith)
            requires
                nvals <= 0x100000,
                lsb <= 16,
        ;
    }
    let nbits: usize = nvals * lsb;
    let nbytes: usize = nbits / 8;
    let outlen: usize = out.len();
    proof {
        lemma_fundamental_div_mod(nbits as int, 8);
    }
    let mut b: usize = 0;
    while b < nbytes
        invariant
            1 <= lsb <= 16,
            nvals == vals@.len(),
            nvals <= 0x100000,
            nbits == nvals * lsb,
            nbits == 8 * nbytes,
            off + nbytes <= outlen,
            outlen == out@.len(),
            b <= nbytes,
            out@.len() == old(out)@.len(),
            forall|idx: int|
                0 <= idx < old(out)@.len() && !(off <= idx < off + b) ==> out@[idx] == old(
                    out,
                )@[idx],
            forall|i: int|
                0 <= i < 8 * b ==> byte_bit(#[trigger] out@[off + i / 8], i % 8) == value_bit(
                    vals@[i / (lsb as int)],
                    lsb as int,
                    i % (lsb as int),
                ),
        decreases nbytes - b,
    {
        let mut acc: u8 = 0;
        proof {
            assert((1u32 << 0u32) == 1u32) by (bit_vector);
        }
        let mut j: usize = 0;
        while j < 8
            invariant
                1 <= lsb <= 16,
                nvals == vals@.len(),
                nbits == nvals * lsb,
                nbits == 8 * nbytes,
                b < nbytes,
                j <= 8,
                (acc as u32) < (1u32 << (j as u32)),
                forall|j2: int|
                    0 <= j2 < j ==> #[trigger] byte_bit_low(acc, j as int, j2) == value_bit(
                        vals@[(8 * b + j2) / (lsb as int)],
                        lsb as int,
                        (8 * b + j2) % (lsb as int),
                    ),
            decreases 8 - j,
        {
            let i: usize = 8 * b + j;
            proof {
                assert(i < nbits);
                assert(nbits == lsb * nvals) by (nonlinear_arith)
                    requires
                        nbits == nvals * lsb,
                ;
                lemma_div_lt(i as int, lsb as int, nvals as int);
                lemma_fundamental_div_mod(i as int, lsb as int);
                lemma_mod_bound(i as int, lsb as int);
            }
            let v: u16 = vals[i / lsb];
            let sh: u16 = (lsb - 1 - (i % lsb)) as u16;
            let bit: u8 = ((v >> sh) & 1) as u8;
            proof {
                assert((v >> sh) & 1 <= 1) by (bit_vector);
            }
            let ghost oldacc = acc;
            acc = (acc << 1u8) | bit;
            proof {
                lemma_u8_append_bit(oldacc, bit, j as u8, acc);
                assert(byte_bit_low(acc, (j + 1) as int, j as int) == value_bit(
                    vals@[i as int / (lsb as int)],
                    lsb as int,
                    i as int % (lsb as int),
                )) by {
                    assert((acc >> 0u8) & 1 == acc & 1) by (bit_vector);
                };
                assert forall|j2: int| 0 <= j2 < j implies #[trigger] byte_bit_low(
                    acc,
                    (j + 1) as int,
                    j2,
                ) == byte_bit_low(oldacc, j as int, j2) by {
                    let s = (j - j2) as u8;
                    assert(1 <= s <= 7);
                    assert(((acc >> s) & 1) == (oldacc >> (s - 1) as u8) & 1);
                };
            }
            j = j + 1;
        }
        let ghost oldout = out@;
        out[off + b] = acc;
        proof {
            assert forall|i: int| 0 <= i < 8 * (b + 1) implies byte_bit(
                #[trigger] out@[off + i / 8],
                i % 8,
            ) == value_bit(vals@[i / (lsb as int)], lsb as int, i % (lsb as int)) by {
                lemma_fundamental_div_mod(i, 8);
                if i < 8 * b {
                    assert(i / 8 < b);
                    assert(out@[off + i / 8] == oldout[off + i / 8]);
                } else {
                    assert(i / 8 == b as int && i % 8 == i - 8 * b);
                    assert(out@[off + i / 8] == acc);
                    assert(byte_bit_low(acc, 8, i % 8) == byte_bit(acc, i % 8));
                }
            }
        }
        b = b + 1;
    }
    proof {
        let sub = out@.subrange(off as int, off + nbytes);
        assert(8 * sub.len() == lsb * vals@.len()) by (nonlinear_arith)
            requires
                sub.len() == nbytes,
                nvals == vals@.len(),
                nbits == nvals * lsb,
                nbits == 8 * nbytes,
        ;
        assert forall|i: int| 0 <= i < 8 * sub.len() implies #[trigger] byte_bit(sub[i / 8], i % 8)
            == value_bit(vals@[i / (lsb as int)], lsb as int, i % (lsb as int)) by {
            lemma_fundamental_div_mod(i, 8);
            assert(sub[i / 8] == out@[off + i / 8]);
        }
    }
}

/// Bit `j2` of the `w` low bits already assembled in an accumulator,
/// counting the first-assembled (most significant) bit as bit 0.
pub open spec fn byte_bit_low(b: u8, w: int, j: int) -> bool {
    (b >> ((w - 1 - j) as u8)) & 1 == 1
}

} // verus!
