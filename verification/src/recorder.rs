//! Latency sample recorder: a named series of `u64` samples with an
//! optional outlier cutoff. Samples at or above the cutoff are dropped
//! from the aggregate but still update the running minimum — the minimum
//! is what cutoffs are derived from in the first place.

use vstd::prelude::*;
use vstd::multiset::Multiset;
use vstd::seq_lib::lemma_multiset_commutative;
use vstd::arithmetic::div_mod::{lemma_div_is_ordered, lemma_div_multiples_vanish_fancy,
    lemma_div_pos_is_pos};

verus! {

/// Does a sample pass the cutoff? (`None` keeps everything.)
pub open spec fn keeps(cutoff: Option<u64>, v: u64) -> bool {
    match cutoff {
        Option::None => true,
        Option::Some(c) => v < c,
    }
}

/// The multiset of samples a recorder with this cutoff retains out of the
/// stream `observed`.
pub open spec fn retained_of(observed: Seq<u64>, cutoff: Option<u64>) -> Multiset<u64>
    decreases observed.len(),
{
    if observed.len() == 0 {
        Multiset::empty()
    } else {
        let rest = retained_of(observed.drop_last(), cutoff);
        if keeps(cutoff, observed.last()) {
            rest.insert(observed.last())
        } else {
            rest
        }
    }
}

/// Minimum of a sample stream; `u64::MAX` when empty.
pub open spec fn seq_min(s: Seq<u64>) -> u64
    decreases s.len(),
{
    if s.len() == 0 {
        0xffff_ffff_ffff_ffffu64
    } else {
        let rest = seq_min(s.drop_last());
        if s.last() < rest {
            s.last()
        } else {
            rest
        }
    }
}

/// Sum of a sample sequence, as an unbounded integer.
pub open spec fn seq_sum(s: Seq<u64>) -> int
    decreases s.len(),
{
    if s.len() == 0 {
        0
    } else {
        seq_sum(s.drop_last()) + s.last()
    }
}

/// Number of entries not exceeding `v`.
pub open spec fn count_lte(s: Seq<u64>, v: u64) -> int
    decreases s.len(),
{
    if s.len() == 0 {
        0
    } else {
        count_lte(s.drop_last(), v) + if s.last() <= v {
            1int
        } else {
            0int
        }
    }
}

/// Ascending order (with duplicates).
pub open spec fn sorted(s: Seq<u64>) -> bool {
    forall|i: int, j: int| 0 <= i <= j < s.len() ==> s[i] <= s[j]
}

/// The values of a sorted sequence with adjacent duplicates removed: the
/// distinct retained values, in ascending order.
pub open spec fn distinct_values(s: Seq<u64>) -> Seq<u64>
    decreases s.len(),
{
    if s.len() == 0 {
        Seq::empty()
    } else if s.len() >= 2 && s[s.len() - 2] == s.last() {
        distinct_values(s.drop_last())
    } else {
        distinct_values(s.drop_last()).push(s.last())
    }
}

/// Never more distinct values than samples.
proof fn lemma_distinct_len_le(s: Seq<u64>)
    ensures
        distinct_values(s).len() <= s.len(),
    decreases s.len(),
{
    if s.len() > 0 {
        lemma_distinct_len_le(s.drop_last());
    }
}

/// Pushing an element is the recursive step of each of the stream
/// functions: one more observed sample inserts into the retained multiset
/// exactly when it passes the cutoff, and lowers the minimum exactly when
/// it undercuts it.
pub proof fn lemma_retained_of_push(s: Seq<u64>, v: u64, cutoff: Option<u64>)
    ensures
        retained_of(s.push(v), cutoff) == if keeps(cutoff, v) {
            retained_of(s, cutoff).insert(v)
        } else {
            retained_of(s, cutoff)
        },
        seq_min(s.push(v)) == if v < seq_min(s) {
            v
        } else {
            seq_min(s)
        },
{
    assert(s.push(v).drop_last() =~= s);
    assert(s.push(v).last() == v);
}

/// `seq_sum` is bounded by length times the largest `u64`.
proof fn lemma_seq_sum_bound(s: Seq<u64>)
    ensures
        0 <= seq_sum(s) <= s.len() * 0xffff_ffff_ffff_ffff,
    decreases s.len(),
{
    if s.len() == 0 {
    } else {
        lemma_seq_sum_bound(s.drop_last());
        assert((s.len() - 1) * 0xffff_ffff_ffff_ffff + 0xffff_ffff_ffff_ffff == s.len()
            * 0xffff_ffff_ffff_ffff) by (nonlinear_arith);
    }
}

/// Inserting anywhere in a sequence inserts into its multiset.
proof fn lemma_seq_insert_to_multiset(s: Seq<u64>, i: int, v: u64)
    requires
        0 <= i <= s.len(),
    ensures
        s.insert(i, v).to_multiset() == s.to_multiset().insert(v),
{
    broadcast use vstd::seq_lib::group_to_multiset_ensures;

    let pre = s.take(i);
    let post = s.skip(i);
    assert(s.insert(i, v) =~= pre.push(v) + post);
    assert(s =~= pre + post);
    lemma_multiset_commutative(pre.push(v), post);
    lemma_multiset_commutative(pre, post);
    assert(pre.push(v).to_multiset() =~= pre.to_multiset().insert(v));
    assert(s.insert(i, v).to_multiset() =~= s.to_multiset().insert(v)) by {
        assert(pre.to_multiset().insert(v).add(post.to_multiset()) =~= pre.to_multiset().add(
            post.to_multiset(),
        ).insert(v));
    };
}

/// Raising the cutoff only admits more samples: everything a recorder
/// with the lower cutoff retains, one with the higher cutoff retains too
/// (as multisets, out of the same sample stream).
pub proof fn lemma_cutoff_monotonic(observed: Seq<u64>, c1: u64, c2: u64)
    requires
        c1 <= c2,
    ensures
        retained_of(observed, Some(c1)).subset_of(retained_of(observed, Some(c2))),
        retained_of(observed, Some(c2)).subset_of(retained_of(observed, None)),
    decreases observed.len(),
{
    broadcast use vstd::multiset::group_multiset_axioms;

    if observed.len() == 0 {
    } else {
        let rest = observed.drop_last();
        let v = observed.last();
        lemma_cutoff_monotonic(rest, c1, c2);
        let r1 = retained_of(rest, Some(c1));
        let r2 = retained_of(rest, Some(c2));
        let rn = retained_of(rest, None);
        assert forall|x: u64|
            #[trigger] retained_of(observed, Some(c1)).count(x) <= retained_of(
                observed,
                Some(c2),
            ).count(x) by {
            assert(r1.count(x) <= r2.count(x));
        }
        assert forall|x: u64|
            #[trigger] retained_of(observed, Some(c2)).count(x) <= retained_of(
                observed,
                None,
            ).count(x) by {
            assert(r2.count(x) <= rn.count(x));
        }
    }
}

/// Backends a `Recorder` can aggregate with.
pub trait RecorderBackend {

}

/// Keeps every retained sample, in ascending order, with its running sum.
pub struct SaveAllRecorder {
    store: Vec<u64>,
    sum: u128,
}

/// Keeps no samples; only the running minimum and count.
pub struct MinVal;

impl RecorderBackend for SaveAllRecorder {

}

impl RecorderBackend for MinVal {

}

/// A named series of latency samples.
pub struct Recorder<R: RecorderBackend> {
    name: String,
    bknd: R,
    counter: u64,
    min: u64,
    cutoff: Option<u64>,
    observed: Ghost<Seq<u64>>,
}

impl SaveAllRecorder {
    /// The stored samples, in ascending order.
    pub closed spec fn spec_samples(self) -> Seq<u64> {
        self.store@
    }

    /// The running sum of the stored samples.
    pub closed spec fn spec_sum(self) -> int {
        self.sum as int
    }

    pub fn new() -> (r: SaveAllRecorder)
        ensures
            r.spec_samples() =~= Seq::<u64>::empty(),
            r.spec_sum() == 0,
    {
        SaveAllRecorder { store: Vec::new(), sum: 0 }
    }
}

impl<R: RecorderBackend> Recorder<R> {
    /// Every sample ever offered to the recorder, dropped or not.
    pub closed spec fn observed(self) -> Seq<u64> {
        self.observed@
    }

    /// The configured outlier cutoff.
    pub closed spec fn spec_cutoff(self) -> Option<u64> {
        self.cutoff
    }

    /// The running minimum over all observed samples.
    pub closed spec fn spec_min(self) -> u64 {
        self.min
    }

    pub closed spec fn spec_name(self) -> Seq<char> {
        self.name@
    }

    pub fn name(&self) -> (r: &String)
        ensures
            r@ == self.spec_name(),
    {
        &self.name
    }
}

impl Recorder<SaveAllRecorder> {
    /// The retained samples, in ascending order.
    pub closed spec fn retained(self) -> Seq<u64> {
        self.bknd.store@
    }

    /// Structural invariant: the store is the sorted arrangement of
    /// exactly those observed samples that pass the cutoff; the counter,
    /// sum and minimum agree with the stream.
    pub closed spec fn wf(self) -> bool {
        &&& sorted(self.bknd.store@)
        &&& self.bknd.store@.to_multiset() == retained_of(self.observed@, self.cutoff)
        &&& self.counter as int == self.bknd.store@.len()
        &&& self.bknd.sum as int == seq_sum(self.bknd.store@)
        &&& self.min == seq_min(self.observed@)
    }

    /// A fresh named recorder with an optional cutoff.
    pub fn saveall(name: String, cutoff: Option<u64>) -> (r: Recorder<SaveAllRecorder>)
        ensures
            r.wf(),
            r.observed() == Seq::<u64>::empty(),
            r.retained() == Seq::<u64>::empty(),
            r.spec_cutoff() == cutoff,
            r.spec_name() == name@,
    {
        let r = Recorder {
            name,
            bknd: SaveAllRecorder::new(),
            counter: 0,
            min: 0xffff_ffff_ffff_ffffu64,
            cutoff,
            observed: Ghost(Seq::empty()),
        };
        proof {
            assert(retained_of(r.observed@, cutoff) =~= r.bknd.store@.to_multiset()) by {
                r.bknd.store@.to_multiset_ensures();
                assert(r.bknd.store@.to_multiset().len() == 0);
                assert(retained_of(Seq::<u64>::empty(), cutoff).len() == 0);
            };
        }
        r
    }

    /// Record one sample. The minimum always updates; the sample joins
    /// the aggregate only if it passes the cutoff. The one failure is a
    /// full counter.
    pub fn record(&mut self, value: u64) -> (r: Result<(), ()>)
        requires
            old(self).wf(),
        ensures
            final(self).wf(),
            final(self).spec_cutoff() == old(self).spec_cutoff(),
            final(self).spec_name() == old(self).spec_name(),
            r is Err <==> (keeps(old(self).spec_cutoff(), value) && old(self).retained().len()
                == u64::MAX),
            r is Ok ==> final(self).observed() == old(self).observed().push(value),
            r is Ok ==> final(self).spec_min() == if value < old(self).spec_min() {
                value
            } else {
                old(self).spec_min()
            },
            r is Ok ==> final(self).retained().len() == old(self).retained().len() + (
            if keeps(old(self).spec_cutoff(), value) {
                1int
            } else {
                0int
            }),
            r is Ok && keeps(old(self).spec_cutoff(), value) ==> final(self).retained().to_multiset()
                == old(self).retained().to_multiset().insert(value),
            r is Ok && !keeps(old(self).spec_cutoff(), value) ==> final(self).retained()
                == old(self).retained(),
            sorted(final(self).retained()),
            r is Err ==> *final(self) == *old(self),
            final(self).spec_min() <= old(self).spec_min(),
    {
        let keep = match self.cutoff {
            Option::Some(c) => value < c,
            Option::None => true,
        };
        if keep && self.counter == 0xffff_ffff_ffff_ffffu64 {
            return Err(());
        }
        if value < self.min {
            self.min = value;
        }
        let ghost oldobs = self.observed@;
        proof {
            self.observed@ = self.observed@.push(value);
            lemma_retained_of_push(oldobs, value, self.cutoff);
        }
        if keep {
            let pos = self.lower_insert_pos(value);
            let ghost oldstore = self.bknd.store@;
            self.bknd.store.insert(pos, value);
            proof {
                lemma_seq_insert_to_multiset(oldstore, pos as int, value);
                assert(sorted(self.bknd.store@)) by {
                    assert forall|i: int, j: int|
                        0 <= i <= j < self.bknd.store@.len() implies self.bknd.store@[i]
                        <= self.bknd.store@[j] by {
                        let s = self.bknd.store@;
                        let p = pos as int;
                        if i < p && j > p {
                            assert(s[i] == oldstore[i] && s[j] == oldstore[j - 1]);
                        } else if i == p && j > p {
                            assert(s[j] == oldstore[j - 1] && oldstore[j - 1] >= value);
                        } else if i < p && j == p {
                            assert(s[i] == oldstore[i] && oldstore[i] <= value);
                        } else if i < p && j < p {
                            assert(s[i] == oldstore[i] && s[j] == oldstore[j]);
                        } else if i > p && j > p {
                            assert(s[i] == oldstore[i - 1] && s[j] == oldstore[j - 1]);
                        }
                    }
                };
                lemma_seq_sum_insert(oldstore, pos as int, value);
                lemma_seq_sum_bound(oldstore);
                assert(oldstore.len() * 0xffff_ffff_ffff_ffff + 0xffff_ffff_ffff_ffff
                    <= 0xffff_ffff_ffff_fffe * 0xffff_ffff_ffff_ffff + 0xffff_ffff_ffff_ffff)
                    by (nonlinear_arith)
                    requires
                        oldstore.len() <= 0xffff_ffff_ffff_fffe,
                ;
            }
            self.bknd.sum = self.bknd.sum + value as u128;
            self.counter = self.counter + 1;
        }
        Ok(())
    }

    /// First position whose entry exceeds `value` (so equal samples stay
    /// grouped and insertion keeps the order).
    fn lower_insert_pos(&self, value: u64) -> (pos: usize)
        requires
            sorted(self.bknd.store@),
        ensures
            0 <= pos <= self.bknd.store@.len(),
            forall|i: int| 0 <= i < pos ==> self.bknd.store@[i] <= value,
            forall|i: int| pos <= i < self.bknd.store@.len() ==> self.bknd.store@[i] >= value,
    {
        let n = self.bknd.store.len();
        let mut pos: usize = 0;
        while pos < n && self.bknd.store[pos] <= value
            invariant
                0 <= pos <= n,
                n == self.bknd.store@.len(),
                sorted(self.bknd.store@),
                forall|i: int| 0 <= i < pos ==> self.bknd.store@[i] <= value,
            decreases n - pos,
        {
            pos = pos + 1;
        }
        proof {
            if pos < self.bknd.store@.len() {
                assert(self.bknd.store@[pos as int] > value);
            }
        }
        pos
    }

    /// Count of retained samples.
    pub fn len(&self) -> (r: u64)
        requires
            self.wf(),
        ensures
            r == self.retained().len(),
    {
        self.counter
    }

    /// Minimum over every observed sample, dropped ones included; absent
    /// until at least one sample was retained.
    pub fn min(&self) -> (r: Result<u64, ()>)
        requires
            self.wf(),
        ensures
            r is Ok <==> self.retained().len() > 0,
            r is Ok ==> r->Ok_0 == seq_min(self.observed()),
    {
        if self.counter > 0 {
            Ok(self.min)
        } else {
            Err(())
        }
    }

    /// Arithmetic mean of the retained samples; absent when none were.
    pub fn aggregated_value(&self) -> (r: Result<u64, ()>)
        requires
            self.wf(),
        ensures
            r is Ok <==> self.retained().len() > 0,
            r is Ok ==> r->Ok_0 == seq_sum(self.retained()) / self.retained().len() as int,
    {
        if self.counter == 0 {
            return Err(());
        }
        let mean = self.bknd.sum / (self.counter as u128);
        proof {
            lemma_seq_sum_bound(self.bknd.store@);
            lemma_div_is_ordered(
                self.bknd.sum as int,
                self.counter as int * 0xffff_ffff_ffff_ffff,
                self.counter as int,
            );
            lemma_div_multiples_vanish_fancy(
                0xffff_ffff_ffff_ffff,
                0,
                self.counter as int,
            );
            assert(self.counter as int * 0xffff_ffff_ffff_ffff == 0xffff_ffff_ffff_ffff
                * self.counter as int) by (nonlinear_arith);
            lemma_div_pos_is_pos(self.bknd.sum as int, self.counter as int);
        }
        Ok(mean as u64)
    }

    /// The middle retained sample (the upper median for an even count);
    /// absent when nothing was retained.
    pub fn median(&self) -> (r: Result<u64, ()>)
        requires
            self.wf(),
        ensures
            r is Ok <==> self.retained().len() > 0,
            r is Ok ==> r->Ok_0 == self.retained()[self.retained().len() as int / 2],
    {
        let n = self.bknd.store.len();
        if n == 0 {
            return Err(());
        }
        Ok(self.bknd.store[n / 2])
    }

    /// The retained sample at rank `nth` — duplicates counted, starting
    /// at `nth == 1` — as a percentile needs. (The retained sequence is
    /// sorted, so index `nth - 1` is that rank.)
    pub fn sample_at_rank(&self, nth: u64) -> (r: Option<u64>)
        requires
            self.wf(),
        ensures
            r is Some <==> 1 <= nth <= self.retained().len(),
            r is Some ==> r->0 == self.retained()[nth - 1],
            sorted(self.retained()),
    {
        let n = self.bknd.store.len();
        if nth >= 1 && nth <= n as u64 {
            Some(self.bknd.store[(nth - 1) as usize])
        } else {
            None
        }
    }

    /// The `nth` smallest distinct retained value, starting at
    /// `nth == 1`; absent when fewer distinct values were retained.
    pub fn nth_lowest_value(&self, nth: u64) -> (r: Option<u64>)
        requires
            self.wf(),
        ensures
            r is Some <==> 1 <= nth <= distinct_values(self.retained()).len(),
            r is Some ==> r->0 == distinct_values(self.retained())[nth - 1],
    {
        let n = self.bknd.store.len();
        let ghost s = self.bknd.store@;
        let mut found: Option<u64> = None;
        let mut dcount: u64 = 0;
        let mut i: usize = 0;
        proof {
            assert(s.take(0) =~= Seq::<u64>::empty());
        }
        while i < n
            invariant
                i <= n,
                n == s.len(),
                s == self.bknd.store@,
                dcount == distinct_values(s.take(i as int)).len(),
                dcount <= i,
                found == if 1 <= nth <= dcount {
                    Some(distinct_values(s.take(i as int))[nth - 1])
                } else {
                    Option::<u64>::None
                },
            decreases n - i,
        {
            let ghost pre = s.take(i as int);
            let ghost pre1 = s.take(i as int + 1);
            proof {
                assert(pre1.drop_last() =~= pre);
                assert(pre1.last() == s[i as int]);
                if i > 0 {
                    assert(pre1[pre1.len() - 2] == s[i as int - 1]);
                }
            }
            let is_new = if i == 0 {
                true
            } else {
                self.bknd.store[i - 1] != self.bknd.store[i]
            };
            if is_new {
                proof {
                    lemma_distinct_len_le(pre);
                }
                dcount = dcount + 1;
                if dcount == nth {
                    found = Some(self.bknd.store[i]);
                }
            }
            i = i + 1;
        }
        proof {
            assert(s.take(n as int) =~= s);
        }
        found
    }

    /// Share of retained samples not exceeding `below`, in hundredths of
    /// a percent.
    pub fn percentage_lte(&self, below: u64) -> (r: u64)
        requires
            self.wf(),
            self.retained().len() > 0,
        ensures
            r == count_lte(self.retained(), below) * 10000 / self.retained().len() as int,
            r <= 10000,
    {
        let n = self.bknd.store.len();
        let mut i: usize = 0;
        let mut cnt: u64 = 0;
        proof {
            assert(self.bknd.store@.take(0) =~= Seq::<u64>::empty());
        }
        while i < n
            invariant
                0 <= i <= n,
                n == self.bknd.store@.len(),
                self.wf(),
                cnt == count_lte(self.bknd.store@.take(i as int), below),
                cnt <= i,
            decreases n - i,
        {
            let ghost pre = self.bknd.store@.take(i as int);
            let ghost pre1 = self.bknd.store@.take(i as int + 1);
            proof {
                assert(pre1.drop_last() =~= pre);
                assert(pre1.last() == self.bknd.store@[i as int]);
            }
            if self.bknd.store[i] <= below {
                cnt = cnt + 1;
            }
            i = i + 1;
        }
        proof {
            assert(self.bknd.store@.take(n as int) =~= self.bknd.store@);
        }
        let num: u128 = (cnt as u128) * 10000;
        let den: u128 = self.counter as u128;
        let r = num / den;
        proof {
            lemma_count_lte_nonneg(self.bknd.store@, below);
            lemma_div_is_ordered(num as int, (den * 10000) as int, den as int);
            lemma_div_multiples_vanish_fancy(10000, 0, den as int);
            assert(den as int * 10000 == 10000 * den as int) by (nonlinear_arith);
            lemma_div_pos_is_pos(num as int, den as int);
        }
        r as u64
    }

    /// The retained samples in ascending order, as a fresh vector.
    pub fn values(&self) -> (r: Vec<u64>)
        requires
            self.wf(),
        ensures
            r@ == self.retained(),
            sorted(r@),
    {
        let n = self.bknd.store.len();
        let mut r: Vec<u64> = Vec::new();
        let mut i: usize = 0;
        while i < n
            invariant
                0 <= i <= n,
                n == self.bknd.store@.len(),
                r@ =~= self.bknd.store@.take(i as int),
            decreases n - i,
        {
            r.push(self.bknd.store[i]);
            proof {
                assert(r@ =~= self.bknd.store@.take(i as int + 1));
            }
            i = i + 1;
        }
        proof {
            assert(self.bknd.store@.take(n as int) =~= self.bknd.store@);
        }
        r
    }
}

/// The retained samples of a well-formed recorder are exactly the
/// cutoff-filtered observed stream (as a multiset), held in ascending
/// order. This is the public face of the recorder's invariant: together
/// with `lemma_cutoff_monotonic` it carries the cutoff-monotonicity law
/// over to recorder objects themselves.
pub proof fn lemma_retained_model(r: Recorder<SaveAllRecorder>)
    requires
        r.wf(),
    ensures
        r.retained().to_multiset() == retained_of(r.observed(), r.spec_cutoff()),
        sorted(r.retained()),
        r.spec_min() == seq_min(r.observed()),
{
}

/// Counts never go negative and never exceed the length.
proof fn lemma_count_lte_nonneg(s: Seq<u64>, v: u64)
    ensures
        0 <= count_lte(s, v) <= s.len(),
    decreases s.len(),
{
    if s.len() > 0 {
        lemma_count_lte_nonneg(s.drop_last(), v);
    }
}

/// Inserting adds the element's value to the sum.
proof fn lemma_seq_sum_insert(s: Seq<u64>, i: int, v: u64)
    requires
        0 <= i <= s.len(),
    ensures
        seq_sum(s.insert(i, v)) == seq_sum(s) + v,
    decreases s.len(),
{
    if i == s.len() {
        assert(s.insert(i, v).drop_last() =~= s);
        assert(s.insert(i, v).last() == v);
    } else {
        assert(s.insert(i, v).drop_last() =~= s.drop_last().insert(i, v));
        assert(s.insert(i, v).last() == s.last());
        lemma_seq_sum_insert(s.drop_last(), i, v);
    }
}

impl Recorder<MinVal> {
    /// Structural invariant of the minimum-only recorder: every observed
    /// sample is retained (no cutoff applies), and the minimum and count
    /// track the stream.
    pub closed spec fn wf(self) -> bool {
        &&& self.counter as int == self.observed@.len()
        &&& self.min == seq_min(self.observed@)
    }

    /// A recorder that tracks only the minimum and the sample count.
    pub fn minval() -> (r: Recorder<MinVal>)
        ensures
            r.wf(),
            r.observed() == Seq::<u64>::empty(),
    {
        Recorder {
            name: String::new(),
            bknd: MinVal,
            counter: 0,
            min: 0xffff_ffff_ffff_ffffu64,
            cutoff: None,
            observed: Ghost(Seq::empty()),
        }
    }

    /// Record a sample: the count and minimum update, nothing is stored.
    pub fn record(&mut self, value: u64) -> (r: Result<(), ()>)
        requires
            old(self).wf(),
        ensures
            final(self).wf(),
            r is Err <==> old(self).observed().len() == u64::MAX,
            r is Ok ==> final(self).observed() == old(self).observed().push(value),
            r is Err ==> *final(self) == *old(self),
            final(self).spec_min() <= old(self).spec_min(),
    {
        if self.counter == 0xffff_ffff_ffff_ffffu64 {
            return Err(());
        }
        self.counter = self.counter + 1;
        if value < self.min {
            self.min = value;
        }
        let ghost oldobs = self.observed@;
        proof {
            self.observed@ = self.observed@.push(value);
            lemma_retained_of_push(oldobs, value, self.cutoff);
        }
        Ok(())
    }

    pub fn len(&self) -> (r: u64)
        requires
            self.wf(),
        ensures
            r == self.observed().len(),
    {
        self.counter
    }

    pub fn min(&self) -> (r: Result<u64, ()>)
        requires
            self.wf(),
        ensures
            r is Ok <==> self.observed().len() > 0,
            r is Ok ==> r->Ok_0 == seq_min(self.observed()),
    {
        if self.counter > 0 {
            Ok(self.min)
        } else {
            Err(())
        }
    }

    /// The minimum doubles as the aggregate for this backend.
    pub fn aggregated_value(&self) -> (r: Result<u64, ()>)
        requires
            self.wf(),
        ensures
            r is Ok <==> self.observed().len() > 0,
            r is Ok ==> r->Ok_0 == seq_min(self.observed()),
    {
        if self.counter > 0 {
            Ok(self.min)
        } else {
            Err(())
        }
    }

    /// All-or-nothing share: the full 10000 when the minimum lies below
    /// the bound, zero otherwise.
    pub fn percentage_lte(&self, below: u64) -> (r: u64)
        requires
            self.wf(),
        ensures
            r == if self.observed().len() > 0 && seq_min(self.observed()) < below {
                10000int
            } else {
                0int
            },
    {
        if self.counter > 0 && self.min < below {
            10000
        } else {
            0
        }
    }
}

} // verus!
