//! Measurement bookkeeping for experiment runs: the recorded durations and
//! their averages. Printing and persisting the records is the harness's job.

use vstd::prelude::*;

use vstd::string::StringExecFns;

verus! {

/// `a + b`, clamped at the top of `u128`.
pub open spec fn spec_add_u128_saturating(a: int, b: int) -> int {
    if a + b > u128::MAX {
        u128::MAX as int
    } else {
        a + b
    }
}

/// The saturating sum of the durations.
pub open spec fn spec_sum(s: Seq<u128>) -> int
    decreases s.len(),
{
    if s.len() == 0 {
        0
    } else {
        spec_add_u128_saturating(spec_sum(s.drop_last()), s.last() as int)
    }
}

/// The recorded runs of one experiment configuration.
#[derive(Debug)]
pub struct ExperimentResult {
    pub name: String,
    pub warmup: u128,
    pub durations: Vec<u128>,
    pub output_dir: String,
    pub amount_avg: Option<u128>,
    pub no_warmup_avg: Option<u128>,
}

impl ExperimentResult {
    pub fn new(name: &str, warmup: u128, output_dir: &String) -> (r: ExperimentResult)
        ensures
            r.name@ == name@,
            r.warmup == warmup,
            r.durations@ =~= Seq::<u128>::empty(),
            r.output_dir@ == output_dir@,
            r.amount_avg is None && r.no_warmup_avg is None,
    {
        ExperimentResult {
            name: String::from_str(name),
            warmup,
            durations: Vec::new(),
            output_dir: output_dir.clone(),
            amount_avg: None,
            no_warmup_avg: None,
        }
    }

    /// Record one run's duration.
    pub fn add(&mut self, r: u128)
        ensures
            final(self).durations@ == old(self).durations@.push(r),
            final(self).name == old(self).name && final(self).warmup == old(self).warmup,
            final(self).output_dir == old(self).output_dir,
            final(self).amount_avg == old(self).amount_avg,
            final(self).no_warmup_avg == old(self).no_warmup_avg,
    {
        self.durations.push(r);
    }

    /// The average over all recorded runs and over the runs after warmup,
    /// rounded down; nothing when no run (or no post-warmup run) is recorded.
    /// Sums saturate rather than overflow.
    pub fn averages(&self) -> (r: (Option<u128>, Option<u128>))
        ensures
            self.durations@.len() == 0 ==> r.0 is None,
            self.durations@.len() > 0 ==> r.0 == Some(
                ((spec_sum(self.durations@) / self.durations@.len() as int) as u128),
            ),
            self.durations@.len() <= self.warmup ==> r.1 is None,
            self.durations@.len() > self.warmup ==> r.1 == Some(
                ((spec_sum(self.durations@.skip(self.warmup as int)) / (self.durations@.len()
                    - self.warmup) as int) as u128),
            ),
    {
        let n = self.durations.len();
        let all = if n == 0 {
            None
        } else {
            let total = Self::sum_from(&self.durations, 0);
            proof {
                assert(self.durations@.skip(0) =~= self.durations@);
                vstd::arithmetic::div_mod::lemma_div_basics_4(
                    spec_sum(self.durations@),
                    n as int,
                );
                vstd::arithmetic::div_mod::lemma_div_is_ordered(
                    spec_sum(self.durations@),
                    u128::MAX as int,
                    n as int,
                );
                vstd::arithmetic::div_mod::lemma_div_basics_5(u128::MAX as int, n as int);
            }
            Some(total / (n as u128))
        };
        let rest = if (n as u128) <= self.warmup {
            None
        } else {
            let total = Self::sum_from(&self.durations, self.warmup as usize);
            let m = n - (self.warmup as usize);
            proof {
                vstd::arithmetic::div_mod::lemma_div_basics_4(
                    spec_sum(self.durations@.skip(self.warmup as int)),
                    m as int,
                );
                vstd::arithmetic::div_mod::lemma_div_is_ordered(
                    spec_sum(self.durations@.skip(self.warmup as int)),
                    u128::MAX as int,
                    m as int,
                );
                vstd::arithmetic::div_mod::lemma_div_basics_5(u128::MAX as int, m as int);
            }
            Some(total / (m as u128))
        };
        (all, rest)
    }

    /// The saturating sum of the durations from index `from` on.
    fn sum_from(durations: &Vec<u128>, from: usize) -> (r: u128)
        requires
            from <= durations@.len(),
        ensures
            r as int == spec_sum(durations@.skip(from as int)),
    {
        let mut acc: u128 = 0;
        let mut i: usize = from;
        while i < durations.len()
            invariant
                from <= i <= durations@.len(),
                acc as int == spec_sum(durations@.skip(from as int).take(i - from)),
            decreases durations@.len() - i,
        {
            proof {
                let part = durations@.skip(from as int);
                assert(part.take(i - from + 1).drop_last() =~= part.take(i - from));
                assert(part.take(i - from + 1).last() == durations@[i as int]);
            }
            let d = durations[i];
            if acc <= u128::MAX - d {
                acc = acc + d;
            } else {
                acc = u128::MAX;
            }
            i = i + 1;
        }
        proof {
            assert(durations@.skip(from as int).take(
                durations@.len() - from,
            ) =~= durations@.skip(from as int));
        }
        acc
    }
}

} // verus!
