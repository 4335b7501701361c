//! Accumulated statistics of repeated attack trials, and the parsing of
//! the per-trial result lines an attack process prints.

use vstd::prelude::*;
use crate::csvio::{all_digits, dec_value};

verus! {

/// The outcome of one attack trial.
#[derive(Clone, Copy)]
pub struct Measurement {
    pub success: bool,
    pub oracle_calls: u64,
    pub wrong_bits: u64,
}

/// Totals over many trials.
pub struct Statistic {
    pub success: u64,
    pub measurements: Vec<Measurement>,
    pub trials: u64,
}

impl Statistic {
    /// The neutral element of `combine`.
    pub fn identity() -> (r: Statistic)
        ensures
            r.success == 0,
            r.trials == 0,
            r.measurements@.len() == 0,
    {
        Statistic { success: 0, measurements: Vec::new(), trials: 0 }
    }

    /// Merge two statistics: totals add, measurement lists concatenate.
    pub fn combine(&self, other: &Statistic) -> (r: Statistic)
        requires
            self.success + other.success <= u64::MAX,
            self.trials + other.trials <= u64::MAX,
        ensures
            r.success == self.success + other.success,
            r.trials == self.trials + other.trials,
            r.measurements@ == self.measurements@ + other.measurements@,
    {
        let mut measurements: Vec<Measurement> = Vec::new();
        let mut i: usize = 0;
        while i < self.measurements.len()
            invariant
                i <= self.measurements@.len(),
                measurements@ =~= self.measurements@.take(i as int),
            decreases self.measurements@.len() - i,
        {
            measurements.push(self.measurements[i]);
            proof {
                assert(measurements@ =~= self.measurements@.take(i as int + 1));
            }
            i = i + 1;
        }
        proof {
            assert(self.measurements@.take(self.measurements@.len() as int)
                =~= self.measurements@);
        }
        let mut j: usize = 0;
        while j < other.measurements.len()
            invariant
                j <= other.measurements@.len(),
                measurements@ =~= self.measurements@ + other.measurements@.take(j as int),
            decreases other.measurements@.len() - j,
        {
            measurements.push(other.measurements[j]);
            proof {
                assert(measurements@ =~= self.measurements@ + other.measurements@.take(
                    j as int + 1,
                ));
            }
            j = j + 1;
        }
        proof {
            assert(other.measurements@.take(other.measurements@.len() as int)
                =~= other.measurements@);
        }
        Statistic {
            success: self.success + other.success,
            measurements,
            trials: self.trials + other.trials,
        }
    }
}

/// Does `line` begin with `prefix`?
pub fn starts_with(line: &Vec<u8>, prefix: &Vec<u8>) -> (r: bool)
    ensures
        r == (prefix@.len() <= line@.len() && line@.take(prefix@.len() as int) =~= prefix@),
{
    let p = prefix.len();
    if p > line.len() {
        return false;
    }
    let mut i: usize = 0;
    while i < p
        invariant
            i <= p,
            p == prefix@.len(),
            p <= line@.len(),
            forall|k: int| 0 <= k < i ==> line@[k] == prefix@[k],
        decreases p - i,
    {
        if line[i] != prefix[i] {
            proof {
                assert(line@.take(p as int)[i as int] != prefix@[i as int]);
            }
            return false;
        }
        i = i + 1;
    }
    proof {
        assert(line@.take(p as int) =~= prefix@);
    }
    true
}

/// Parse a result line of the form `prefix` followed by a decimal number
/// reaching to the end of the line: exactly those lines parse.
pub fn parse_tagged_value(line: &Vec<u8>, prefix: &Vec<u8>) -> (r: Option<u64>)
    ensures
        r is Some ==> {
            let tail = line@.skip(prefix@.len() as int);
            &&& prefix@.len() < line@.len()
            &&& line@.take(prefix@.len() as int) == prefix@
            &&& all_digits(tail)
            &&& r->0 == dec_value(tail)
        },
        (prefix@.len() < line@.len() && line@.take(prefix@.len() as int) == prefix@ && all_digits(
            line@.skip(prefix@.len() as int),
        ) && dec_value(line@.skip(prefix@.len() as int)) <= u64::MAX) ==> r is Some,
{
    if !starts_with(line, prefix) {
        return None;
    }
    let p = prefix.len();
    let n = line.len();
    if p >= n {
        return None;
    }
    let mut tail: Vec<u8> = Vec::new();
    let mut i: usize = p;
    while i < n
        invariant
            p <= i <= n,
            n == line@.len(),
            tail@ =~= line@.subrange(p as int, i as int),
        decreases n - i,
    {
        tail.push(line[i]);
        proof {
            assert(tail@ =~= line@.subrange(p as int, i as int + 1));
        }
        i = i + 1;
    }
    proof {
        assert(line@.subrange(p as int, n as int) =~= line@.skip(p as int));
    }
    let r = crate::csvio::dec_parse(&tail);
    r
}

/// Parse a result line of the form `prefix` followed by the single digit
/// `0` or `1`: the trial's success flag. Exactly those lines parse.
pub fn parse_tagged_flag(line: &Vec<u8>, prefix: &Vec<u8>) -> (r: Option<bool>)
    ensures
        r is Some ==> prefix@.len() < line@.len() && line@.take(prefix@.len() as int) == prefix@
            && r->0 == (line@[prefix@.len() as int] == 49),
        r is Some ==> line@[prefix@.len() as int] == 48 || line@[prefix@.len() as int] == 49,
        (prefix@.len() < line@.len() && line@.take(prefix@.len() as int) == prefix@ && (line@[
        prefix@.len() as int] == 48 || line@[prefix@.len() as int] == 49)) ==> r is Some,
{
    if !starts_with(line, prefix) {
        return None;
    }
    let p = prefix.len();
    if p >= line.len() {
        return None;
    }
    let b = line[p];
    if b == 49 {
        Some(true)
    } else if b == 48 {
        Some(false)
    } else {
        None
    }
}

} // verus!
