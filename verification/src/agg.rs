//! Window aggregation functions.
//!
//! An `Aggregator` is given in incremental form: an identity accumulator, a
//! per-element step, and a finishing function that lowers the accumulator to
//! the output — or to nothing, which makes the window emit no result. A
//! holistic evaluation folds the full member list at window close; an
//! incremental evaluation keeps one accumulator per open window. Both compute
//! `agg_of`, the fold of the member list in arrival order.
//!
//! An aggregation over an empty member list never happens inside the window
//! operators — a window only exists once a first element arrived — and a
//! finishing function may still return `None` to suppress emission, so the
//! undefined empty-window aggregate is resolved by construction: such a
//! window is skipped, never silently defaulted.

use vstd::prelude::*;

verus! {

/// An aggregation in identity / step / finish form. The spec functions say
/// what the executable ones compute.
pub trait Aggregator<V, O>: Sized {
    type Acc;

    spec fn sinit(&self) -> Self::Acc;

    spec fn sstep(&self, a: Self::Acc, v: V) -> Self::Acc;

    spec fn sfinish(&self, a: Self::Acc) -> Option<O>;

    fn init(&self) -> (r: Self::Acc)
        ensures
            r == self.sinit(),
    ;

    fn step(&self, a: Self::Acc, v: &V) -> (r: Self::Acc)
        ensures
            r == self.sstep(a, *v),
    ;

    fn finish(&self, a: Self::Acc) -> (r: Option<O>)
        ensures
            r == self.sfinish(a),
    ;
}

/// Fold `items` through the aggregation's step, left to right, from `a`.
pub open spec fn fold_from<V, O, A: Aggregator<V, O>>(agg: A, a: A::Acc, items: Seq<V>) -> A::Acc
    decreases items.len(),
{
    if items.len() == 0 {
        a
    } else {
        fold_from(agg, agg.sstep(a, items[0]), items.drop_first())
    }
}

/// The aggregate of a window's member list, in arrival order.
pub open spec fn agg_of<V, O, A: Aggregator<V, O>>(agg: A, items: Seq<V>) -> Option<O> {
    agg.sfinish(fold_from(agg, agg.sinit(), items))
}

/// Folding one more element steps the fold of the rest.
pub proof fn lemma_fold_push<V, O, A: Aggregator<V, O>>(agg: A, a: A::Acc, items: Seq<V>, v: V)
    ensures
        fold_from(agg, a, items.push(v)) == agg.sstep(fold_from(agg, a, items), v),
    decreases items.len(),
{
    if items.len() == 0 {
        assert(items.push(v)[0] == v);
        assert(items.push(v).drop_first() =~= Seq::empty());
        assert(fold_from(agg, a, items.push(v)) == fold_from(
            agg,
            agg.sstep(a, v),
            items.push(v).drop_first(),
        ));
        assert(fold_from(agg, a, items) == a);
    } else {
        assert(items.push(v)[0] == items[0]);
        assert(items.push(v).drop_first() =~= items.drop_first().push(v));
        assert(fold_from(agg, a, items.push(v)) == fold_from(
            agg,
            agg.sstep(a, items[0]),
            items.drop_first().push(v),
        ));
        lemma_fold_push(agg, agg.sstep(a, items[0]), items.drop_first(), v);
        assert(fold_from(agg, a, items) == fold_from(
            agg,
            agg.sstep(a, items[0]),
            items.drop_first(),
        ));
    }
}

/// Evaluate the aggregation holistically over a full member list.
pub fn fold_items<V, O, A: Aggregator<V, O>>(agg: &A, items: &Vec<V>) -> (r: A::Acc)
    ensures
        r == fold_from(*agg, agg.sinit(), items@),
{
    let mut acc = agg.init();
    let mut i: usize = 0;
    while i < items.len()
        invariant
            0 <= i <= items@.len(),
            acc == fold_from(*agg, agg.sinit(), items@.take(i as int)),
        decreases items@.len() - i,
    {
        proof {
            assert(items@.take(i as int + 1) =~= items@.take(i as int).push(items@[i as int]));
            lemma_fold_push(*agg, agg.sinit(), items@.take(i as int), items@[i as int]);
        }
        acc = agg.step(acc, &items[i]);
        i = i + 1;
    }
    proof {
        assert(items@.take(i as int) =~= items@);
    }
    acc
}

/// The sum of the members, saturating at the top of `u64`.
#[derive(Debug, Clone, Copy, PartialEq, Eq, Structural)]
pub struct SumAgg;

/// `a + v`, clamped at `u64::MAX`.
pub open spec fn spec_add_u64_saturating(a: int, v: int) -> int {
    if a + v > u64::MAX {
        u64::MAX as int
    } else {
        a + v
    }
}

impl Aggregator<u64, u64> for SumAgg {
    type Acc = u64;

    open spec fn sinit(&self) -> u64 {
        0
    }

    open spec fn sstep(&self, a: u64, v: u64) -> u64 {
        spec_add_u64_saturating(a as int, v as int) as u64
    }

    open spec fn sfinish(&self, a: u64) -> Option<u64> {
        Some(a)
    }

    fn init(&self) -> (r: u64) {
        0
    }

    fn step(&self, a: u64, v: &u64) -> (r: u64) {
        if a <= u64::MAX - *v {
            a + *v
        } else {
            u64::MAX
        }
    }

    fn finish(&self, a: u64) -> (r: Option<u64>) {
        Some(a)
    }
}

/// How many members the window holds, saturating at the top of `u64`.
#[derive(Debug, Clone, Copy, PartialEq, Eq, Structural)]
pub struct CountAgg;

impl<V> Aggregator<V, u64> for CountAgg {
    type Acc = u64;

    open spec fn sinit(&self) -> u64 {
        0
    }

    open spec fn sstep(&self, a: u64, v: V) -> u64 {
        spec_add_u64_saturating(a as int, 1) as u64
    }

    open spec fn sfinish(&self, a: u64) -> Option<u64> {
        Some(a)
    }

    fn init(&self) -> (r: u64) {
        0
    }

    fn step(&self, a: u64, v: &V) -> (r: u64) {
        if a < u64::MAX {
            a + 1
        } else {
            u64::MAX
        }
    }

    fn finish(&self, a: u64) -> (r: Option<u64>) {
        Some(a)
    }
}

/// The smallest member; an empty window yields nothing.
#[derive(Debug, Clone, Copy, PartialEq, Eq, Structural)]
pub struct MinAgg;

impl Aggregator<u64, u64> for MinAgg {
    type Acc = Option<u64>;

    open spec fn sinit(&self) -> Option<u64> {
        None
    }

    open spec fn sstep(&self, a: Option<u64>, v: u64) -> Option<u64> {
        match a {
            None => Some(v),
            Some(m) => Some(
                if v < m {
                    v
                } else {
                    m
                },
            ),
        }
    }

    open spec fn sfinish(&self, a: Option<u64>) -> Option<u64> {
        a
    }

    fn init(&self) -> (r: Option<u64>) {
        None
    }

    fn step(&self, a: Option<u64>, v: &u64) -> (r: Option<u64>) {
        match a {
            None => Some(*v),
            Some(m) => Some(
                if *v < m {
                    *v
                } else {
                    m
                },
            ),
        }
    }

    fn finish(&self, a: Option<u64>) -> (r: Option<u64>) {
        a
    }
}

/// The largest member; an empty window yields nothing.
#[derive(Debug, Clone, Copy, PartialEq, Eq, Structural)]
pub struct MaxAgg;

impl Aggregator<u64, u64> for MaxAgg {
    type Acc = Option<u64>;

    open spec fn sinit(&self) -> Option<u64> {
        None
    }

    open spec fn sstep(&self, a: Option<u64>, v: u64) -> Option<u64> {
        match a {
            None => Some(v),
            Some(m) => Some(
                if v > m {
                    v
                } else {
                    m
                },
            ),
        }
    }

    open spec fn sfinish(&self, a: Option<u64>) -> Option<u64> {
        a
    }

    fn init(&self) -> (r: Option<u64>) {
        None
    }

    fn step(&self, a: Option<u64>, v: &u64) -> (r: Option<u64>) {
        match a {
            None => Some(*v),
            Some(m) => Some(
                if *v > m {
                    *v
                } else {
                    m
                },
            ),
        }
    }

    fn finish(&self, a: Option<u64>) -> (r: Option<u64>) {
        a
    }
}

/// The mean of the members, rounded down; an empty window yields nothing.
#[derive(Debug, Clone, Copy, PartialEq, Eq, Structural)]
pub struct AvgAgg;

impl Aggregator<u64, u64> for AvgAgg {
    type Acc = (u64, u64);

    open spec fn sinit(&self) -> (u64, u64) {
        (0, 0)
    }

    open spec fn sstep(&self, a: (u64, u64), v: u64) -> (u64, u64) {
        (
            spec_add_u64_saturating(a.0 as int, v as int) as u64,
            spec_add_u64_saturating(a.1 as int, 1) as u64,
        )
    }

    open spec fn sfinish(&self, a: (u64, u64)) -> Option<u64> {
        if a.1 == 0 {
            None
        } else {
            Some((a.0 as int / a.1 as int) as u64)
        }
    }

    fn init(&self) -> (r: (u64, u64)) {
        (0, 0)
    }

    fn step(&self, a: (u64, u64), v: &u64) -> (r: (u64, u64)) {
        let sum = if a.0 <= u64::MAX - *v {
            a.0 + *v
        } else {
            u64::MAX
        };
        let count = if a.1 < u64::MAX {
            a.1 + 1
        } else {
            u64::MAX
        };
        (sum, count)
    }

    fn finish(&self, a: (u64, u64)) -> (r: Option<u64>) {
        if a.1 == 0 {
            None
        } else {
            proof {
                vstd::arithmetic::div_mod::lemma_div_basics_4(a.0 as int, a.1 as int);
                vstd::arithmetic::div_mod::lemma_div_basics_5(a.0 as int, a.1 as int);
            }
            Some(a.0 / a.1)
        }
    }
}

} // verus!
