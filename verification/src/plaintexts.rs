//! The plaintext store and the rejection-sampling attack helpers: a
//! bucketed store of plaintexts keyed by their rejection-iteration count
//! (with a cap per bucket and round-robin retrieval), random sparse
//! ciphertext perturbation, and the search for extremal plaintexts.

use vstd::prelude::*;
use crate::mutbit::{mutbit, spec_bit};
use crate::oracle::{KemWithRejectionSampling, OracleError};
use crate::kembuf::{KemBuf, Plaintext};

verus! {

/// A bucketed plaintext store: bucket `i` holds plaintexts whose
/// rejection-sampling loop ran `i` iterations. Each bucket accepts at
/// most `add_limit` plaintexts; every offer is counted whether stored or
/// not. Retrieval within a bucket is round-robin: no plaintext is handed
/// out twice until the walk is reset.
/// The position a round-robin step reads next: one past the last
/// handed-out position when the walk over this bucket continues, the
/// start when it is reset or the bucket changed.
pub open spec fn next_walk_pos(cursor: (Option<u32>, usize), iter: u32, reset: bool) -> int {
    match cursor.0 {
        Some(ci) => if ci == iter && !reset {
            cursor.1 + 1
        } else {
            0
        },
        None => 0,
    }
}

pub struct PlaintextStore {
    add_limit: u32,
    buckets: Vec<Vec<Vec<u8>>>,
    encountered: Vec<u64>,
    cursor_iter: Option<u32>,
    cursor_pos: usize,
}

impl PlaintextStore {
    /// Stored plaintexts of bucket `iter` (empty outside the grown range).
    pub closed spec fn bucket(self, iter: int) -> Seq<Seq<u8>> {
        if 0 <= iter < self.buckets@.len() {
            self.buckets@[iter]@.map_values(|v: Vec<u8>| v@)
        } else {
            Seq::empty()
        }
    }

    /// How many plaintexts were ever offered for bucket `iter`.
    pub closed spec fn spec_encountered(self, iter: int) -> int {
        if 0 <= iter < self.encountered@.len() {
            self.encountered@[iter] as int
        } else {
            0
        }
    }

    /// The per-bucket cap.
    pub closed spec fn spec_add_limit(self) -> u32 {
        self.add_limit
    }

    /// The round-robin cursor: the bucket of the current walk, and the
    /// position last handed out within it.
    pub closed spec fn spec_cursor(self) -> (Option<u32>, usize) {
        (self.cursor_iter, self.cursor_pos)
    }

    pub fn new(add_limit: u32) -> (r: PlaintextStore)
        ensures
            r.spec_add_limit() == add_limit,
            forall|i: int| #[trigger] r.bucket(i).len() == 0,
            forall|i: int| #[trigger] r.spec_encountered(i) == 0,
            r.spec_cursor() == (Option::<u32>::None, 0usize),
    {
        PlaintextStore {
            add_limit,
            buckets: Vec::new(),
            encountered: Vec::new(),
            cursor_iter: None,
            cursor_pos: 0,
        }
    }

    /// Number of plaintexts stored for `iter`.
    pub fn count(&self, iter: u32) -> (r: u64)
        ensures
            r == self.bucket(iter as int).len(),
    {
        if (iter as usize) < self.buckets.len() {
            self.buckets[iter as usize].len() as u64
        } else {
            0
        }
    }

    /// Number of plaintexts ever offered for `iter`, stored or not — the
    /// counter `add_pt` steps, exposed so callers can test its headroom.
    pub fn encountered(&self, iter: u32) -> (r: u64)
        ensures
            r == self.spec_encountered(iter as int),
    {
        if (iter as usize) < self.encountered.len() {
            self.encountered[iter as usize]
        } else {
            0
        }
    }

    /// Grow the bucket vector to cover index `it` (with empty buckets).
    fn ensure_bucket(&mut self, it: usize)
        requires
            it < usize::MAX,
        ensures
            final(self).buckets@.len() > it,
            forall|i: int| #[trigger] final(self).bucket(i) == old(self).bucket(i),
            forall|i: int|
                #[trigger] final(self).spec_encountered(i) == old(self).spec_encountered(i),
            final(self).spec_add_limit() == old(self).spec_add_limit(),
            final(self).encountered == old(self).encountered,
            final(self).cursor_iter == old(self).cursor_iter,
            final(self).cursor_pos == old(self).cursor_pos,
    {
        while self.buckets.len() <= it
            invariant
                it < usize::MAX,
                self.buckets@.len() >= old(self).buckets@.len(),
                forall|i: int|
                    0 <= i < old(self).buckets@.len() ==> #[trigger] self.buckets@[i] == old(
                        self,
                    ).buckets@[i],
                forall|i: int|
                    old(self).buckets@.len() <= i < self.buckets@.len()
                        ==> (#[trigger] self.buckets@[i])@.len() == 0,
                self.add_limit == old(self).add_limit,
                self.encountered == old(self).encountered,
                self.cursor_iter == old(self).cursor_iter,
                self.cursor_pos == old(self).cursor_pos,
            decreases it + 1 - self.buckets@.len(),
        {
            self.buckets.push(Vec::new());
        }
        proof {
            assert forall|i: int| #[trigger] self.bucket(i) == old(self).bucket(i) by {
                if 0 <= i < old(self).buckets@.len() {
                } else if old(self).buckets@.len() <= i < self.buckets@.len() {
                    assert(self.buckets@[i]@.map_values(|v: Vec<u8>| v@) =~= Seq::<
                        Seq<u8>,
                    >::empty());
                }
            }
        }
    }

    /// Grow the offer counters to cover index `it` (with zero counts).
    fn ensure_count(&mut self, it: usize)
        requires
            it < usize::MAX,
        ensures
            final(self).encountered@.len() > it,
            forall|i: int| #[trigger] final(self).bucket(i) == old(self).bucket(i),
            forall|i: int|
                #[trigger] final(self).spec_encountered(i) == old(self).spec_encountered(i),
            final(self).spec_add_limit() == old(self).spec_add_limit(),
            final(self).buckets == old(self).buckets,
            final(self).cursor_iter == old(self).cursor_iter,
            final(self).cursor_pos == old(self).cursor_pos,
    {
        while self.encountered.len() <= it
            invariant
                it < usize::MAX,
                self.encountered@.len() >= old(self).encountered@.len(),
                forall|i: int|
                    0 <= i < old(self).encountered@.len() ==> #[trigger] self.encountered@[i]
                        == old(self).encountered@[i],
                forall|i: int|
                    old(self).encountered@.len() <= i < self.encountered@.len()
                        ==> #[trigger] self.encountered@[i] == 0,
                self.add_limit == old(self).add_limit,
                self.buckets == old(self).buckets,
                self.cursor_iter == old(self).cursor_iter,
                self.cursor_pos == old(self).cursor_pos,
            decreases it + 1 - self.encountered@.len(),
        {
            self.encountered.push(0);
        }
    }

    /// Offer a plaintext with the given iteration count: it is stored only
    /// while its bucket is below the cap, and counted either way.
    pub fn add_pt(&mut self, pt: &Vec<u8>, iter: u32) -> (stored: bool)
        requires
            old(self).spec_encountered(iter as int) < u64::MAX,
            iter < u32::MAX,
        ensures
            stored == (old(self).bucket(iter as int).len() < old(self).spec_add_limit()),
            stored ==> final(self).bucket(iter as int) == old(self).bucket(iter as int).push(pt@),
            !stored ==> final(self).bucket(iter as int) == old(self).bucket(iter as int),
            final(self).spec_encountered(iter as int) == old(self).spec_encountered(iter as int)
                + 1,
            final(self).spec_add_limit() == old(self).spec_add_limit(),
            forall|i: int|
                i != iter ==> #[trigger] final(self).bucket(i) == old(self).bucket(i),
            forall|i: int|
                i != iter ==> #[trigger] final(self).spec_encountered(i) == old(
                    self,
                ).spec_encountered(i),
            final(self).spec_cursor() == old(self).spec_cursor(),
    {
        let it = iter as usize;
        self.ensure_bucket(it);
        self.ensure_count(it);
        let ghost pre = *self;
        proof {
            assert forall|i: int| #[trigger] pre.bucket(i) == old(self).bucket(i) by {}
            assert forall|i: int| #[trigger] pre.spec_encountered(i) == old(self).spec_encountered(
                i,
            ) by {}
        }
        proof {
            assert(pre.bucket(it as int).len() == pre.buckets@[it as int]@.len());
        }
        let stored = (self.buckets[it].len() as u64) < (self.add_limit as u64);
        if stored {
            let copy = crate::csvio::copy_vec(pt);
            let ghost oldb = self.buckets@[it as int]@;
            let bucket = &mut self.buckets[it];
            bucket.push(copy);
            proof {
                assert(self.buckets@[it as int]@.map_values(|v: Vec<u8>| v@) =~= oldb.map_values(
                    |v: Vec<u8>| v@,
                ).push(pt@));
                assert(self.bucket(it as int) == pre.bucket(it as int).push(pt@));
                assert forall|i: int| i != it implies #[trigger] self.bucket(i) == pre.bucket(
                    i,
                ) by {
                    if 0 <= i < self.buckets@.len() {
                        assert(self.buckets@[i] == pre.buckets@[i]);
                    }
                }
            }
        }
        let ghost mid = *self;
        proof {
            assert(mid.encountered == pre.encountered);
            assert forall|i: int| #[trigger] mid.spec_encountered(i) == pre.spec_encountered(
                i,
            ) by {}
        }
        let c = self.encountered[it];
        proof {
            assert(c == pre.spec_encountered(it as int));
        }
        self.encountered[it] = c + 1;
        proof {
            assert forall|i: int| #[trigger] self.bucket(i) == mid.bucket(i) by {}
            assert(self.spec_encountered(it as int) == mid.spec_encountered(it as int) + 1);
            assert forall|i: int| i != it implies #[trigger] self.spec_encountered(i)
                == mid.spec_encountered(i) by {}
        }
        stored
    }

    /// The next plaintext of bucket `iter` in round-robin order; `reset`
    /// restarts the walk at the bucket's first entry. The walk advances by
    /// one position per call, so no plaintext is handed out twice within
    /// one walk; an exhausted walk returns nothing until it is reset.
    pub fn get_next_iter(&mut self, iter: u32, reset: bool) -> (r: Option<Vec<u8>>)
        ensures
            final(self).spec_add_limit() == old(self).spec_add_limit(),
            forall|i: int| #[trigger] final(self).bucket(i) == old(self).bucket(i),
            forall|i: int|
                #[trigger] final(self).spec_encountered(i) == old(self).spec_encountered(i),
            r is Some <==> next_walk_pos(old(self).spec_cursor(), iter, reset) < old(self).bucket(
                iter as int,
            ).len(),
            r is Some ==> r->0@ == old(self).bucket(iter as int)[next_walk_pos(
                old(self).spec_cursor(),
                iter,
                reset,
            )] && final(self).spec_cursor() == (
                Some(iter),
                next_walk_pos(old(self).spec_cursor(), iter, reset) as usize,
            ),
            r is None && old(self).bucket(iter as int).len() == 0 ==> final(self).spec_cursor()
                == old(self).spec_cursor(),
            r is None && old(self).bucket(iter as int).len() > 0 ==> final(self).spec_cursor() == (
                Some(iter),
                old(self).spec_cursor().1,
            ),
    {
        let it = iter as usize;
        if it >= self.buckets.len() {
            return None;
        }
        let blen = self.buckets[it].len();
        if blen == 0 {
            return None;
        }
        let continuing = match self.cursor_iter {
            Some(ci) => ci == iter && !reset,
            None => false,
        };
        let pos: usize = if continuing {
            if self.cursor_pos >= blen - 1 {
                blen
            } else {
                self.cursor_pos + 1
            }
        } else {
            0
        };
        if pos >= blen {
            // this walk over the bucket is exhausted
            self.cursor_iter = Some(iter);
            return None;
        }
        self.cursor_iter = Some(iter);
        self.cursor_pos = pos;
        let r = crate::csvio::copy_vec(&self.buckets[it][pos]);
        proof {
            assert(r@ == old(self).bucket(iter as int)[pos as int]);
        }
        Some(r)
    }
}


/// Number of set bits among the first `n` bit positions of a buffer
/// (bit `m` is bit `m % 8` of byte `m / 8`).
pub open spec fn bit_weight(bytes: Seq<u8>, n: int) -> int
    decreases n,
{
    if n <= 0 {
        0
    } else {
        bit_weight(bytes, n - 1) + if spec_bit(bytes, (n - 1) / 8, (n - 1) % 8) {
            1int
        } else {
            0int
        }
    }
}

/// A weight never exceeds the number of bits counted.
proof fn lemma_bit_weight_le(bytes: Seq<u8>, n: int)
    ensures
        0 <= bit_weight(bytes, n) <= if n >= 0 {
            n
        } else {
            0int
        },
    decreases n,
{
    if n > 0 {
        lemma_bit_weight_le(bytes, n - 1);
    }
}

/// An all-zero buffer has weight zero.
proof fn lemma_bit_weight_zeroed(bytes: Seq<u8>, n: int)
    requires
        forall|i: int| 0 <= i < bytes.len() ==> #[trigger] bytes[i] == 0,
        n <= 8 * bytes.len(),
    ensures
        bit_weight(bytes, n) == 0,
    decreases n,
{
    if n > 0 {
        lemma_bit_weight_zeroed(bytes, n - 1);
        let m = n - 1;
        vstd::arithmetic::div_mod::lemma_fundamental_div_mod(m, 8);
        vstd::arithmetic::div_mod::lemma_mod_bound(m, 8);
        crate::codec::lemma_div_lt_pub(m, 8, bytes.len() as int);
        let sh = (m % 8) as u8;
        assert((0u8 >> sh) & 1 == 0) by (bit_vector);
    }
}

/// Buffers that agree on every bit below `n` have the same weight there.
proof fn lemma_bit_weight_eq_below(pre: Seq<u8>, post: Seq<u8>, n: int)
    requires
        forall|m: int|
            0 <= m < n ==> #[trigger] spec_bit(post, m / 8, m % 8) == spec_bit(pre, m / 8, m % 8),
    ensures
        bit_weight(post, n) == bit_weight(pre, n),
    decreases n,
{
    if n > 0 {
        lemma_bit_weight_eq_below(pre, post, n - 1);
    }
}

/// Setting one clear bit raises the weight by exactly one.
proof fn lemma_bit_weight_flip(pre: Seq<u8>, post: Seq<u8>, b: int, l: int, n: int)
    requires
        post.len() == pre.len(),
        0 <= b < pre.len(),
        0 <= l < 8,
        forall|i: int| 0 <= i < pre.len() && i != b ==> #[trigger] post[i] == pre[i],
        forall|k: int| 0 <= k < 8 && k != l ==> spec_bit(post, b, k) == spec_bit(pre, b, k),
        !spec_bit(pre, b, l),
        spec_bit(post, b, l),
        8 * b + l < n <= 8 * pre.len(),
    ensures
        bit_weight(post, n) == bit_weight(pre, n) + 1,
    decreases n,
{
    let m0 = 8 * b + l;
    let m = n - 1;
    vstd::arithmetic::div_mod::lemma_fundamental_div_mod(m, 8);
    vstd::arithmetic::div_mod::lemma_mod_bound(m, 8);
    if m == m0 {
        assert(m / 8 == b && m % 8 == l) by {
            vstd::arithmetic::div_mod::lemma_div_multiples_vanish_fancy(b, l, 8);
        };
        assert(bit_weight(post, m) == bit_weight(pre, m)) by {
            assert forall|m2: int|
                0 <= m2 < m implies #[trigger] spec_bit(post, m2 / 8, m2 % 8) == spec_bit(
                pre,
                m2 / 8,
                m2 % 8,
            ) by {
                lemma_bit_agrees(pre, post, b, l, m2);
            }
            lemma_bit_weight_eq_below(pre, post, m);
        };
    } else {
        lemma_bit_weight_flip(pre, post, b, l, n - 1);
        assert(spec_bit(post, m / 8, m % 8) == spec_bit(pre, m / 8, m % 8)) by {
            lemma_bit_agrees(pre, post, b, l, m);
        };
    }
}

/// Away from the flipped position, every bit agrees.
proof fn lemma_bit_agrees(pre: Seq<u8>, post: Seq<u8>, b: int, l: int, m: int)
    requires
        post.len() == pre.len(),
        0 <= b < pre.len(),
        0 <= l < 8,
        forall|i: int| 0 <= i < pre.len() && i != b ==> #[trigger] post[i] == pre[i],
        forall|k: int| 0 <= k < 8 && k != l ==> spec_bit(post, b, k) == spec_bit(pre, b, k),
        0 <= m < 8 * pre.len(),
        m != 8 * b + l,
    ensures
        spec_bit(post, m / 8, m % 8) == spec_bit(pre, m / 8, m % 8),
{
    vstd::arithmetic::div_mod::lemma_fundamental_div_mod(m, 8);
    vstd::arithmetic::div_mod::lemma_mod_bound(m, 8);
    crate::codec::lemma_div_lt_pub(m, 8, pre.len() as int);
    if m / 8 == b {
        assert(m % 8 != l) by {
            vstd::arithmetic::div_mod::lemma_div_multiples_vanish_fancy(b, l, 8);
        };
    } else {
        assert(post[m / 8] == pre[m / 8]);
    }
}

/// `out` is `inp` with `mask` folded in by xor, byte for byte.
pub open spec fn xored(out: Seq<u8>, inp: Seq<u8>, mask: Seq<u8>) -> bool {
    &&& out.len() == inp.len()
    &&& mask.len() == inp.len()
    &&& forall|i: int| 0 <= i < inp.len() ==> #[trigger] out[i] == (inp[i] ^ mask[i])
}

/// Relies on rand::random_range over the thread-local generator: a
/// uniformly random value below `n`.
#[verifier::external_body]
pub fn random_below(n: u64) -> (r: u64)
    requires
        n > 0,
    ensures
        r < n,
{
    rand::random_range(0..n)
}

/// Relies on rand::fill over the thread-local generator: fills the buffer
/// with random bytes in place (the length cannot change).
#[verifier::external_body]
pub fn fill_random(buf: &mut Vec<u8>)
    ensures
        final(buf)@.len() == old(buf)@.len(),
{
    rand::fill(buf.as_mut_slice());
}

/// Add sparse random noise of exactly `error_weight` set bits to a
/// ciphertext: random positions are drawn until that many distinct bits
/// are set in an error mask, which is then folded in by xor. Fails only
/// when the random draws cannot reach the weight within a generous
/// budget.
pub fn modify_ct(ct: &mut Vec<u8>, error_weight: u32) -> (r: Result<(), ()>)
    requires
        old(ct)@.len() >= 1,
        8 * old(ct)@.len() < u32::MAX,
        error_weight as int <= 8 * old(ct)@.len(),
    ensures
        final(ct)@.len() == old(ct)@.len(),
        r is Ok ==> exists|mask: Seq<u8>|
            mask.len() == old(ct)@.len() && bit_weight(mask, 8 * old(ct)@.len() as int) == error_weight
                && #[trigger] xored(final(ct)@, old(ct)@, mask),
        r is Err ==> final(ct)@ == old(ct)@,
{
    let n = ct.len();
    let mut err: Vec<u8> = crate::kembuf::zeroed(n);
    let mut hamming_weight: u32 = 0;
    let nbits: u64 = 8 * (n as u64);
    proof {
        lemma_bit_weight_zeroed(err@, 8 * n as int);
    }
    let mut budget: u64 = if nbits <= u64::MAX / 64 {
        64 * nbits + 64
    } else {
        u64::MAX
    };
    while hamming_weight < error_weight
        invariant
            err@.len() == n,
            n == ct@.len(),
            ct@ == old(ct)@,
            n >= 1,
            8 * n < u32::MAX,
            nbits == 8 * n,
            hamming_weight == bit_weight(err@, 8 * n as int),
            hamming_weight <= error_weight,
        decreases budget,
    {
        if budget == 0 {
            return Err(());
        }
        budget = budget - 1;
        let bitnum = random_below(nbits);
        let bit = match mutbit(&err, bitnum) {
            Ok(b) => b,
            Err(()) => {
                return Err(());
            },
        };
        proof {
            vstd::arithmetic::div_mod::lemma_fundamental_div_mod(bitnum as int, 8);
            vstd::arithmetic::div_mod::lemma_mod_bound(bitnum as int, 8);
            crate::codec::lemma_div_lt_pub(bitnum as int, 8, n as int);
        }
        if !bit.get(&err) {
            let ghost pre = err@;
            bit.flip(&mut err);
            proof {
                lemma_bit_weight_flip(
                    pre,
                    err@,
                    bit.byte as int,
                    bit.local_bit as int,
                    8 * n as int,
                );
                lemma_bit_weight_le(err@, 8 * n as int);
            }
            hamming_weight = hamming_weight + 1;
        }
    }
    let ghost mask = err@;
    let ghost inp = ct@;
    let mut i: usize = 0;
    while i < n
        invariant
            i <= n,
            n == ct@.len(),
            err@ == mask,
            mask.len() == n,
            forall|i2: int| 0 <= i2 < i ==> #[trigger] ct@[i2] == (inp[i2] ^ mask[i2]),
            forall|i2: int| i <= i2 < n ==> #[trigger] ct@[i2] == inp[i2],
        decreases n - i,
    {
        let x = ct[i];
        ct[i] = x ^ err[i];
        i = i + 1;
    }
    proof {
        assert(xored(ct@, inp, mask));
    }
    Ok(())
}

/// The extremes found among the sampled plaintexts: the pair causing the
/// fewest and the pair causing the most rejection-sampling iterations.
pub struct ExtremalPlaintexts {
    pub min_rejections: u64,
    pub min_pt: Plaintext,
    pub max_rejections: u64,
    pub max_pt: Plaintext,
}

/// Search `num_plaintexts` random plaintexts for the pair causing the
/// fewest and the most rejection-sampling iterations.
pub fn find_min_max_pt<K: KemWithRejectionSampling>(
    oracle: &mut K,
    num_plaintexts: u64,
) -> (r: Result<ExtremalPlaintexts, OracleError>)
    ensures
        final(oracle).spec_lengths() == old(oracle).spec_lengths(),
        final(oracle).spec_plaintext_len() == old(oracle).spec_plaintext_len(),
        r is Ok ==> r->Ok_0.min_rejections <= r->Ok_0.max_rejections,
        r is Ok ==> r->Ok_0.min_pt.data@.len() == old(oracle).spec_plaintext_len(),
        r is Ok ==> r->Ok_0.max_pt.data@.len() == old(oracle).spec_plaintext_len(),
{
    let ptlen = oracle.plaintext_len();
    let mut pt = Plaintext::new(ptlen);
    let mut max_rejection: u64 = 0;
    let mut max_pt = Plaintext::new(ptlen);
    let mut min_rejection: u64 = 0;
    let mut min_pt = Plaintext::new(ptlen);
    let mut i: u64 = 0;
    while i < num_plaintexts
        invariant
            pt.data@.len() == oracle.spec_plaintext_len(),
            min_pt.data@.len() == oracle.spec_plaintext_len(),
            max_pt.data@.len() == oracle.spec_plaintext_len(),
            oracle.spec_lengths() == old(oracle).spec_lengths(),
            oracle.spec_plaintext_len() == old(oracle).spec_plaintext_len(),
            min_rejection <= max_rejection,
        decreases num_plaintexts - i,
    {
        fill_random(&mut pt.data);
        let num = match oracle.num_rejections(&pt) {
            Ok(v) => v,
            Err(e) => {
                return Err(e);
            },
        };
        if num > max_rejection || i == 0 {
            max_rejection = num;
            max_pt = Plaintext { data: crate::csvio::copy_vec(&pt.data) };
        }
        if num < min_rejection || i == 0 {
            min_rejection = num;
            min_pt = Plaintext { data: crate::csvio::copy_vec(&pt.data) };
        }
        if min_rejection > max_rejection {
            min_rejection = max_rejection;
        }
        i = i + 1;
    }
    Ok(
        ExtremalPlaintexts {
            min_rejections: min_rejection,
            min_pt,
            max_rejections: max_rejection,
            max_pt,
        },
    )
}

/// Tally one observed rejection count into a histogram, growing it as
/// needed. Fails only when a counter is exhausted.
pub fn tally_rejections(counts: &mut Vec<u64>, num: usize) -> (r: Result<(), ()>)
    requires
        num < usize::MAX,
    ensures
        r is Ok ==> final(counts)@.len() > num,
        r is Ok ==> final(counts)@[num as int] as int == (if old(counts)@.len() > num {
            old(counts)@[num as int] + 1
        } else {
            1int
        }),
        r is Ok ==> forall|i: int|
            0 <= i < final(counts)@.len() && i != num ==> #[trigger] final(counts)@[i] == (
            if i < old(counts)@.len() {
                old(counts)@[i]
            } else {
                0u64
            }),
{
    while counts.len() <= num
        invariant
            num < usize::MAX,
            forall|i: int|
                0 <= i < counts@.len() ==> #[trigger] counts@[i] == (if i < old(counts)@.len() {
                    old(counts)@[i]
                } else {
                    0u64
                }),
            counts@.len() >= old(counts)@.len(),
        decreases num + 1 - counts@.len(),
    {
        counts.push(0);
    }
    let c = counts[num];
    if c == u64::MAX {
        return Err(());
    }
    counts[num] = c + 1;
    Ok(())
}

} // verus!
