//! Time-bounded interval join with per-key slice storage and watermark-driven
//! garbage collection.
//!
//! For two streams with key extractors, a `lower`/`upper` bound pair and a
//! pairing of matched records, the join emits one pair for every left record
//! `l` and right record `r` whose keys agree and whose times satisfy
//! `r.time ∈ [l.time - lower, l.time + upper]`. Each side buffers its records
//! in a sequence of slices: a new slice opens at each watermark, records land
//! in the newest slice, and a watermark on one side retires every slice on
//! the opposite side that can no longer match anything. Inserting a record
//! scans only the opposite slices that intersect its window — skipping slices
//! wholly before it, taking slices wholly inside it without per-record checks,
//! and stopping at the first slice wholly after it.

use vstd::prelude::*;

use crate::event::DeepClone;
use crate::event::Event;
use crate::keys::Key;
use crate::event::lemma_nondecreasing_concat;
use crate::event::lemma_terminal_concat;
use crate::event::lemma_wm_times_add;
use crate::event::nondecreasing;
use crate::event::terminal_ok;
use crate::event::wm_times;
use crate::merge::MergeState;
use crate::merge::Side;
use crate::merge::merge_min;
use crate::merge::merge_step_spec;
use crate::merge::merge_wm_out;
use crate::time::Duration;
use crate::time::Time;
use crate::time::spec_add_saturating;
use crate::time::spec_sub_saturating;

verus! {

/// One buffered record: its key, its event time, and its payload.
#[derive(Debug)]
pub struct SliceItem<K, T> {
    pub key: K,
    pub time: Time,
    pub value: T,
}

impl<K: DeepClone, T: DeepClone> DeepClone for SliceItem<K, T> {
    fn deep_clone(&self) -> (r: SliceItem<K, T>)
        ensures
            r == *self,
    {
        SliceItem { key: self.key.deep_clone(), time: self.time, value: self.value.deep_clone() }
    }
}

/// A time-bucketed bucket of records: the span `[earliest, latest]` covers
/// every record inside.
#[derive(Debug)]
pub struct Slice<K, T> {
    pub earliest: Time,
    pub latest: Time,
    pub items: Vec<SliceItem<K, T>>,
}

/// One side's buffered records, oldest slice first.
#[derive(Debug)]
pub struct SliceSeq<K, T> {
    pub slices: Vec<Slice<K, T>>,
}

/// All records buffered on one side, oldest slice first, arrival order within
/// a slice.
pub open spec fn slices_view<K, T>(ss: Seq<Slice<K, T>>) -> Seq<SliceItem<K, T>>
    decreases ss.len(),
{
    if ss.len() == 0 {
        Seq::empty()
    } else {
        ss[0].items@ + slices_view(ss.drop_first())
    }
}

/// A single slice's view is its items.
pub proof fn lemma_slices_view_single<K, T>(s: Slice<K, T>)
    ensures
        slices_view(seq![s]) =~= s.items@,
{
    assert(seq![s].drop_first() =~= Seq::<Slice<K, T>>::empty());
    assert(slices_view(Seq::<Slice<K, T>>::empty()) =~= Seq::empty());
}

/// `slices_view` distributes over concatenation.
pub proof fn lemma_slices_view_add<K, T>(a: Seq<Slice<K, T>>, b: Seq<Slice<K, T>>)
    ensures
        slices_view(a + b) == slices_view(a) + slices_view(b),
    decreases a.len(),
{
    if a.len() == 0 {
        assert(a + b =~= b);
        assert(slices_view(a) + slices_view(b) =~= slices_view(b));
    } else {
        assert((a + b).drop_first() =~= a.drop_first() + b);
        lemma_slices_view_add(a.drop_first(), b);
        assert(a[0].items@ + (slices_view(a.drop_first()) + slices_view(b)) =~= (a[0].items@
            + slices_view(a.drop_first())) + slices_view(b));
    }
}

/// Every record lies within its slice's span.
pub open spec fn slice_wf<K, T>(s: Slice<K, T>) -> bool {
    forall|p: int|
        0 <= p < s.items@.len() ==> s.earliest.0 <= s.items@[p].time.0 && s.items@[p].time.0
            <= s.latest.0
}

/// The invariant of one side's slices relative to that side's current
/// watermark `wm`: spans cover their records, every record lies at or after
/// every earlier slice's start, and no slice starts after `wm`.
pub open spec fn slice_seq_wf<K, T>(ss: Seq<Slice<K, T>>, wm: Time) -> bool {
    &&& (forall|i: int| 0 <= i < ss.len() ==> slice_wf(ss[i]))
    &&& (forall|i: int, j: int, p: int|
        0 <= i <= j < ss.len() && 0 <= p < ss[j].items@.len() ==> ss[i].earliest.0
            <= ss[j].items@[p].time.0)
    &&& (forall|i: int| 0 <= i < ss.len() ==> ss[i].earliest.0 <= wm.0)
}

/// `after` is `before` with a prefix of records retired, all of them older
/// than `cut`.
pub open spec fn dropped_before<K, T>(
    before: Seq<SliceItem<K, T>>,
    after: Seq<SliceItem<K, T>>,
    cut: int,
) -> bool {
    exists|n: int|
        0 <= n <= before.len() && after =~= before.skip(n) && (forall|q: int|
            0 <= q < n ==> before[q].time.0 < cut)
}

/// Retirements compose: a prefix dropped below `cut1` and then one below a
/// later `cut2` is one prefix dropped below `cut2`.
pub proof fn lemma_dropped_before_compose<K, T>(
    hist: Seq<SliceItem<K, T>>,
    v1: Seq<SliceItem<K, T>>,
    v2: Seq<SliceItem<K, T>>,
    cut1: int,
    cut2: int,
)
    requires
        dropped_before(hist, v1, cut1),
        dropped_before(v1, v2, cut2),
        cut1 <= cut2,
    ensures
        dropped_before(hist, v2, cut2),
{
    let n1 = choose|n: int|
        0 <= n <= hist.len() && v1 =~= hist.skip(n) && (forall|q: int|
            0 <= q < n ==> hist[q].time.0 < cut1);
    let n2 = choose|n: int|
        0 <= n <= v1.len() && v2 =~= v1.skip(n) && (forall|q: int|
            0 <= q < n ==> v1[q].time.0 < cut2);
    assert(v2 =~= hist.skip(n1 + n2)) by {
        assert(hist.skip(n1).skip(n2) =~= hist.skip(n1 + n2));
    }
    assert forall|q: int| 0 <= q < n1 + n2 implies hist[q].time.0 < cut2 by {
        if q >= n1 {
            assert(v1[q - n1] == hist.skip(n1)[q - n1]);
        }
    }
    assert(0 <= n1 + n2 <= hist.len() && v2 =~= hist.skip(n1 + n2) && (forall|q: int|
        0 <= q < n1 + n2 ==> hist[q].time.0 < cut2));
}

/// A record arriving on both sides of a retirement leaves it intact.
pub proof fn lemma_dropped_before_push<K, T>(
    hist: Seq<SliceItem<K, T>>,
    v: Seq<SliceItem<K, T>>,
    cut: int,
    item: SliceItem<K, T>,
)
    requires
        dropped_before(hist, v, cut),
    ensures
        dropped_before(hist.push(item), v.push(item), cut),
{
    let n = choose|n: int|
        0 <= n <= hist.len() && v =~= hist.skip(n) && (forall|q: int|
            0 <= q < n ==> hist[q].time.0 < cut);
    assert(v.push(item) =~= hist.push(item).skip(n));
    assert(forall|q: int| 0 <= q < n ==> hist.push(item)[q].time.0 < cut);
    assert(0 <= n <= hist.push(item).len() && v.push(item) =~= hist.push(item).skip(n) && (forall|
        q: int,
    | 0 <= q < n ==> hist.push(item)[q].time.0 < cut));
}

/// Nothing retired is a retirement too.
pub proof fn lemma_dropped_before_refl<K, T>(v: Seq<SliceItem<K, T>>, cut: int)
    ensures
        dropped_before(v, v, cut),
{
    assert(v =~= v.skip(0));
    assert(0 <= 0 <= v.len() && v =~= v.skip(0) && (forall|q: int|
        0 <= q < 0 ==> v[q].time.0 < cut));
}

/// The records with key `k` whose time falls within `[ep, lp]`, in buffer
/// order.
pub open spec fn join_matches<K, T>(items: Seq<SliceItem<K, T>>, k: K, ep: int, lp: int) -> Seq<
    SliceItem<K, T>,
> {
    items.filter(|it: SliceItem<K, T>| it.key == k && ep <= it.time.0 && it.time.0 <= lp)
}

/// Nothing passes a filter that nothing satisfies.
proof fn lemma_filter_none<A>(s: Seq<A>, p: spec_fn(A) -> bool)
    requires
        forall|i: int| 0 <= i < s.len() ==> !p(s[i]),
    ensures
        s.filter(p) =~= Seq::empty(),
    decreases s.len(),
{
    reveal(Seq::filter);
    if s.len() > 0 {
        lemma_filter_none(s.drop_last(), p);
    }
}

/// Slices whose records all lie beyond the window hold no matches.
proof fn lemma_suffix_no_match<K, T>(ss: Seq<Slice<K, T>>, k: K, ep: int, lp: int)
    requires
        forall|j: int, p: int|
            0 <= j < ss.len() && 0 <= p < ss[j].items@.len() ==> lp < ss[j].items@[p].time.0,
    ensures
        join_matches(slices_view(ss), k, ep, lp) =~= Seq::empty(),
    decreases ss.len(),
{
    if ss.len() == 0 {
    } else {
        let pred = |it: SliceItem<K, T>| it.key == k && ep <= it.time.0 && it.time.0 <= lp;
        lemma_filter_none(ss[0].items@, pred);
        assert(forall|j: int, p: int|
            0 <= j < ss.drop_first().len() && 0 <= p < ss.drop_first()[j].items@.len() ==> lp
                < ss.drop_first()[j].items@[p].time.0);
        lemma_suffix_no_match(ss.drop_first(), k, ep, lp);
        Seq::filter_distributes_over_add(
            ss[0].items@,
            slices_view(ss.drop_first()),
            pred,
        );
        assert(slices_view(ss) == ss[0].items@ + slices_view(ss.drop_first()));
    }
}

impl<K: Key + DeepClone, T: DeepClone> SliceSeq<K, T> {
    pub fn new() -> (r: SliceSeq<K, T>)
        ensures
            r.slices@.len() == 0,
            slices_view(r.slices@) =~= Seq::empty(),
    {
        SliceSeq { slices: Vec::new() }
    }

    /// Open a fresh slice at watermark time `w`; the buffered records are
    /// unchanged.
    fn push_watermark(&mut self, w: Time, Ghost(wm): Ghost<Time>)
        requires
            slice_seq_wf(old(self).slices@, wm),
            wm.0 <= w.0,
        ensures
            slices_view(final(self).slices@) == slices_view(old(self).slices@),
            slice_seq_wf(final(self).slices@, w),
    {
        let ghost ss0 = self.slices@;
        let s = Slice { earliest: w, latest: w, items: Vec::new() };
        proof {
            lemma_slices_view_add(ss0, seq![s]);
            lemma_slices_view_single(s);
            assert(slices_view(ss0 + seq![s]) =~= slices_view(ss0));
        }
        self.slices.push(s);
        proof {
            assert(self.slices@ =~= ss0 + seq![s]);
        }
    }

    /// Record `(k, t, v)` in the newest slice, opening one at the side's
    /// current watermark `wm` if none is open. Only the newest slice changes:
    /// the record is appended to it and its span widens exactly to cover the
    /// record's time.
    fn push_item(&mut self, k: K, t: Time, v: T, wm: Time)
        requires
            slice_seq_wf(old(self).slices@, wm),
            wm.0 <= t.0,
        ensures
            slices_view(final(self).slices@) == slices_view(old(self).slices@).push(
                SliceItem { key: k, time: t, value: v },
            ),
            slice_seq_wf(final(self).slices@, wm),
            old(self).slices@.len() == 0 ==> {
                let opened = final(self).slices@;
                &&& opened.len() == 1
                &&& opened[0].earliest == wm
                &&& opened[0].latest == t
                &&& opened[0].items@ =~= seq![(SliceItem { key: k, time: t, value: v })]
            },
            old(self).slices@.len() > 0 ==> {
                let last = old(self).slices@.len() - 1;
                let before = old(self).slices@[last as int];
                let after = final(self).slices@[last as int];
                &&& final(self).slices@.len() == old(self).slices@.len()
                &&& (forall|i: int| 0 <= i < last ==> final(self).slices@[i] == old(self).slices@[i])
                &&& after.items@ == before.items@.push(SliceItem { key: k, time: t, value: v })
                &&& after.earliest.0 == if t.0 < before.earliest.0 {
                    t.0
                } else {
                    before.earliest.0
                }
                &&& after.latest.0 == if t.0 > before.latest.0 {
                    t.0
                } else {
                    before.latest.0
                }
            },
    {
        let item = SliceItem { key: k, time: t, value: v };
        if self.slices.len() == 0 {
            let mut items = Vec::new();
            items.push(item);
            let s = Slice { earliest: wm, latest: t, items };
            self.slices.push(s);
            proof {
                assert(self.slices@ =~= seq![s]);
                lemma_slices_view_single(s);
                assert(slices_view(old(self).slices@) =~= Seq::empty());
                assert(s.items@ =~= slices_view(old(self).slices@).push(
                    SliceItem { key: k, time: t, value: v },
                ));
            }
        } else {
            let ghost ss0 = self.slices@;
            let last = self.slices.len() - 1;
            let ghost old_slice = ss0[last as int];
            let e = self.slices[last].earliest;
            let l = self.slices[last].latest;
            let new_e = if t.0 < e.0 {
                t
            } else {
                e
            };
            let new_l = if t.0 > l.0 {
                t
            } else {
                l
            };
            let mut s = self.slices.remove(last);
            s.earliest = new_e;
            s.latest = new_l;
            s.items.push(item);
            let ghost s1 = s;
            self.slices.push(s);
            proof {
                assert(self.slices@ =~= ss0.update(last as int, s1));
                let front = ss0.take(last as int);
                assert(ss0 =~= front + seq![old_slice]);
                assert(ss0.update(last as int, s1) =~= front + seq![s1]);
                lemma_slices_view_add(front, seq![old_slice]);
                lemma_slices_view_add(front, seq![s1]);
                lemma_slices_view_single(old_slice);
                lemma_slices_view_single(s1);
                assert(s1.items@ =~= old_slice.items@.push(item));
                assert(slices_view(front) + old_slice.items@.push(item) =~= (slices_view(front)
                    + old_slice.items@).push(item));
                // The widened span still covers its records and stays at or
                // before every record of later slices (there are none later).
                assert forall|i: int, j: int, p: int|
                    0 <= i <= j < self.slices@.len() && 0 <= p
                        < self.slices@[j].items@.len() implies self.slices@[i].earliest.0
                    <= self.slices@[j].items@[p].time.0 by {
                    if j < last as int {
                        assert(self.slices@[i] == ss0[i] && self.slices@[j] == ss0[j]);
                    } else {
                        assert(self.slices@[j] == s1);
                        if p < old_slice.items@.len() {
                            if i < last as int {
                                assert(ss0[i].earliest.0 <= old_slice.items@[p].time.0);
                            }
                        } else {
                            assert(s1.items@[p] == item);
                            assert(forall|q: int|
                                0 <= q < ss0.len() ==> ss0[q].earliest.0 <= wm.0);
                        }
                    }
                }
            }
        }
    }

    /// Retire every leading slice whose whole span lies before `cut` — and no
    /// fewer: afterwards the buffer is empty or its front slice's span reaches
    /// the cut, so memory stays bounded by the join's time window. The
    /// remaining records are a suffix of the buffer, and everything dropped is
    /// older than `cut`.
    fn gc(&mut self, cut: Time, Ghost(wm): Ghost<Time>)
        requires
            slice_seq_wf(old(self).slices@, wm),
        ensures
            slice_seq_wf(final(self).slices@, wm),
            final(self).slices@.len() == 0 || final(self).slices@[0].latest.0 >= cut.0,
            dropped_before(
                slices_view(old(self).slices@),
                slices_view(final(self).slices@),
                cut.0 as int,
            ),
    {
        let ghost v0 = slices_view(self.slices@);
        let ghost mut n: int = 0;
        while self.slices.len() > 0 && self.slices[0].latest.0 < cut.0
            invariant
                0 <= n <= v0.len(),
                slices_view(self.slices@) =~= v0.skip(n),
                slice_seq_wf(self.slices@, wm),
                forall|j: int| 0 <= j < n ==> v0[j].time.0 < cut.0,
            decreases self.slices.len(),
        {
            let ghost ss0 = self.slices@;
            let dropped = self.slices.remove(0);
            proof {
                assert(ss0.drop_first() =~= self.slices@);
                assert(slices_view(ss0) == dropped.items@ + slices_view(self.slices@));
                let m = dropped.items@.len() as int;
                assert forall|j: int| 0 <= j < n + m implies v0[j].time.0 < cut.0 by {
                    if j >= n {
                        assert(v0.skip(n)[j - n] == dropped.items@[j - n]);
                        assert(dropped.items@[j - n].time.0 <= dropped.latest.0);
                    }
                }
                assert(slices_view(self.slices@) =~= v0.skip(n + m)) by {
                    assert(v0.skip(n) =~= dropped.items@ + slices_view(self.slices@));
                    assert forall|q: int|
                        0 <= q < slices_view(self.slices@).len() implies slices_view(
                        self.slices@,
                    )[q] == v0.skip(n + m)[q] by {
                        assert(v0.skip(n)[m + q] == slices_view(self.slices@)[q]);
                    }
                }
                n = n + m;
                assert forall|i: int, j: int, p: int|
                    0 <= i <= j < self.slices@.len() && 0 <= p
                        < self.slices@[j].items@.len() implies self.slices@[i].earliest.0
                    <= self.slices@[j].items@[p].time.0 by {
                    assert(self.slices@[i] == ss0[i + 1] && self.slices@[j] == ss0[j + 1]);
                }
            }
        }
        proof {
            assert(0 <= n <= v0.len() && slices_view(self.slices@) =~= v0.skip(n) && (forall|
                q: int,
            | 0 <= q < n ==> v0[q].time.0 < cut.0));
        }
    }

    /// Collect the records with key `k` whose time lies in `[ep, lp]`, in
    /// buffer order, skipping slices wholly before the window, taking slices
    /// wholly inside it without per-record checks, and stopping at the first
    /// slice wholly beyond it.
    fn scan(&self, k: &K, ep: Time, lp: Time, Ghost(wm): Ghost<Time>) -> (out: Vec<
        SliceItem<K, T>,
    >)
        requires
            slice_seq_wf(self.slices@, wm),
        ensures
            out@ == join_matches(slices_view(self.slices@), *k, ep.0 as int, lp.0 as int),
    {
        let ghost pred = |it: SliceItem<K, T>| it.key == *k && ep.0 as int <= it.time.0
            && it.time.0 <= lp.0 as int;
        let mut out: Vec<SliceItem<K, T>> = Vec::new();
        let mut i: usize = 0;
        let mut stopped = false;
        let n = self.slices.len();
        while i < n && !stopped
            invariant
                0 <= i <= n,
                n == self.slices@.len(),
                slice_seq_wf(self.slices@, wm),
                pred == (|it: SliceItem<K, T>| it.key == *k && ep.0 as int <= it.time.0
                    && it.time.0 <= lp.0 as int),
                !stopped ==> out@ =~= slices_view(self.slices@.take(i as int)).filter(pred),
                stopped ==> out@ =~= slices_view(self.slices@).filter(pred),
            decreases n - i, (if stopped { 0int } else { 1int }),
        {
            let ghost prefix = slices_view(self.slices@.take(i as int));
            let ghost cur = self.slices@[i as int].items@;
            proof {
                assert(self.slices@.take(i as int + 1) =~= self.slices@.take(i as int) + seq![
                    self.slices@[i as int],
                ]);
                lemma_slices_view_add(self.slices@.take(i as int), seq![self.slices@[i as int]]);
                lemma_slices_view_single(self.slices@[i as int]);
                Seq::filter_distributes_over_add(prefix, cur, pred);
            }
            let earliest = self.slices[i].earliest;
            let latest = self.slices[i].latest;
            if latest.0 < ep.0 {
                // Wholly before the window: nothing here can match.
                proof {
                    lemma_filter_none(cur, pred);
                    assert(slices_view(self.slices@.take(i as int + 1)).filter(pred) =~= out@);
                }
                i = i + 1;
            } else if lp.0 < earliest.0 {
                // Wholly beyond the window, as is everything after it: stop.
                proof {
                    let suffix = self.slices@.skip(i as int);
                    assert forall|j: int, p: int|
                        0 <= j < suffix.len() && 0 <= p < suffix[j].items@.len() implies lp.0
                        < suffix[j].items@[p].time.0 by {
                        assert(suffix[j] == self.slices@[i as int + j]);
                        assert(self.slices@[i as int].earliest.0
                            <= self.slices@[i as int + j].items@[p].time.0);
                    }
                    lemma_suffix_no_match(suffix, *k, ep.0 as int, lp.0 as int);
                    assert(self.slices@ =~= self.slices@.take(i as int) + suffix);
                    lemma_slices_view_add(self.slices@.take(i as int), suffix);
                    Seq::filter_distributes_over_add(
                        prefix,
                        slices_view(suffix),
                        pred,
                    );
                    assert(slices_view(self.slices@).filter(pred) =~= out@);
                }
                stopped = true;
            } else {
                let contained = ep.0 <= earliest.0 && latest.0 <= lp.0;
                let m = self.slices[i].items.len();
                let mut p: usize = 0;
                while p < m
                    invariant
                        0 <= p <= m,
                        m == cur.len(),
                        i < n && n == self.slices@.len(),
                        cur == self.slices@[i as int].items@,
                        slice_wf(self.slices@[i as int]),
                        contained ==> ep.0 <= self.slices@[i as int].earliest.0
                            && self.slices@[i as int].latest.0 <= lp.0,
                        pred == (|it: SliceItem<K, T>| it.key == *k && ep.0 as int <= it.time.0
                            && it.time.0 <= lp.0 as int),
                        out@ =~= prefix.filter(pred) + cur.take(p as int).filter(pred),
                    decreases m - p,
                {
                    proof {
                        assert(cur.take(p as int + 1).drop_last() =~= cur.take(p as int));
                        assert(cur.take(p as int + 1) =~= cur.take(p as int).push(
                            cur[p as int],
                        ));
                        reveal_with_fuel(Seq::filter, 2);
                    }
                    let it = &self.slices[i].items[p];
                    let matches_key = it.key.key_eq(k);
                    let matches_here = if contained {
                        proof {
                            assert(ep.0 <= cur[p as int].time.0 && cur[p as int].time.0 <= lp.0);
                        }
                        matches_key
                    } else {
                        matches_key && ep.0 <= it.time.0 && it.time.0 <= lp.0
                    };
                    if matches_here {
                        out.push(it.deep_clone());
                    }
                    proof {
                        assert(cur.take(p as int + 1).filter(pred) =~= if pred(cur[p as int]) {
                            cur.take(p as int).filter(pred).push(cur[p as int])
                        } else {
                            cur.take(p as int).filter(pred)
                        });
                    }
                    p = p + 1;
                }
                proof {
                    assert(cur.take(m as int) =~= cur);
                    assert(slices_view(self.slices@.take(i as int + 1)).filter(pred) =~= out@);
                }
                i = i + 1;
            }
        }
        proof {
            if !stopped {
                assert(self.slices@.take(n as int) =~= self.slices@);
            }
        }
        out
    }
}

/// Why retiring slices loses no pair. A left watermark `w` retires only
/// right records strictly older than `w - lower`; any left record still to
/// come is at or after `w`, and the window of right times it matches starts
/// at its own time minus `lower` — at or above `w - lower`, strictly above
/// every retired record's time. So a retired record could not have matched
/// any future record, and symmetrically with `upper` for the other side.
/// Together with the exact match contracts of `on_data_left` and
/// `on_data_right`, every valid pair is emitted exactly once: at the moment
/// its later record arrives.
pub proof fn lemma_gc_retires_only_unmatchable(
    retired: Time,
    w: Time,
    future: Time,
    bound: Duration,
)
    requires
        bound.wf(),
        retired.0 < spec_sub_saturating(w.0 as int, bound.0 as int),
        w.0 <= future.0,
    ensures
        retired.0 < spec_sub_saturating(future.0 as int, bound.0 as int),
{
}

/// Interval join completeness across garbage collection: a buffer from which
/// a watermark `w` retired a prefix yields, for every record that can still
/// arrive on time (`w.0 <= future.0`) and any key, exactly the matches the
/// unretired buffer would have yielded — so, with the exact per-arrival match
/// contracts of `on_data_left` and `on_data_right`, no valid pair is ever
/// missed, and none is emitted twice: a pair is produced exactly once, when
/// the later of its two records arrives and scans the earlier one.
pub proof fn lemma_retirement_preserves_matches<K, T>(
    before: Seq<SliceItem<K, T>>,
    after: Seq<SliceItem<K, T>>,
    w: Time,
    bound: Duration,
    future: Time,
    upper: Duration,
    k: K,
)
    requires
        bound.wf(),
        upper.wf(),
        dropped_before(before, after, spec_sub_saturating(w.0 as int, bound.0 as int)),
        w.0 <= future.0,
    ensures
        join_matches(
            after,
            k,
            spec_sub_saturating(future.0 as int, bound.0 as int),
            spec_add_saturating(future.0 as int, upper.0 as int),
        ) == join_matches(
            before,
            k,
            spec_sub_saturating(future.0 as int, bound.0 as int),
            spec_add_saturating(future.0 as int, upper.0 as int),
        ),
{
    let cut = spec_sub_saturating(w.0 as int, bound.0 as int);
    let ep = spec_sub_saturating(future.0 as int, bound.0 as int);
    let lp = spec_add_saturating(future.0 as int, upper.0 as int);
    let pred = |it: SliceItem<K, T>| it.key == k && ep <= it.time.0 && it.time.0 <= lp;
    let n = choose|n: int|
        0 <= n <= before.len() && after =~= before.skip(n) && (forall|q: int|
            0 <= q < n ==> before[q].time.0 < cut);
    assert(before =~= before.take(n) + before.skip(n));
    Seq::filter_distributes_over_add(before.take(n), before.skip(n), pred);
    assert forall|q: int| 0 <= q < before.take(n).len() implies !pred(before.take(n)[q]) by {
        assert(before.take(n)[q] == before[q]);
        assert(before[q].time.0 < cut);
        assert(cut <= ep);
    }
    lemma_filter_none(before.take(n), pred);
    assert(join_matches(before, k, ep, lp) =~= join_matches(before.skip(n), k, ep, lp));
    assert(join_matches(after, k, ep, lp) == join_matches(before.skip(n), k, ep, lp));
}

/// The pairs an inserted left record `(t, v)` forms with the matched right
/// records, in buffer order; each pair carries the later of the two times.
pub open spec fn joined_left<K, L, R>(v: L, t: Time, ms: Seq<SliceItem<K, R>>) -> Seq<
    Event<(L, R)>,
> {
    ms.map_values(
        |it: SliceItem<K, R>|
            Event::Data(
                Time(
                    if t.0 >= it.time.0 {
                        t.0
                    } else {
                        it.time.0
                    },
                ),
                (v, it.value),
            ),
    )
}

/// The pairs an inserted right record `(t, v)` forms with the matched left
/// records, in buffer order; each pair carries the later of the two times.
pub open spec fn joined_right<K, L, R>(v: R, t: Time, ms: Seq<SliceItem<K, L>>) -> Seq<
    Event<(L, R)>,
> {
    ms.map_values(
        |it: SliceItem<K, L>|
            Event::Data(
                Time(
                    if t.0 >= it.time.0 {
                        t.0
                    } else {
                        it.time.0
                    },
                ),
                (it.value, v),
            ),
    )
}

/// The interval join operator: per-side slice storage, per-side watermarks
/// for forwarding and garbage collection, and per-side sentinel tracking.
pub struct IntervalJoinState<K, L, R> {
    pub lslices: SliceSeq<K, L>,
    pub rslices: SliceSeq<K, R>,
    pub lower: Duration,
    pub upper: Duration,
    pub l_wm: Time,
    pub r_wm: Time,
    pub l_done: bool,
    pub r_done: bool,
}

impl<K: Key + DeepClone, L: DeepClone, R: DeepClone> IntervalJoinState<K, L, R> {
    /// Both sides' slices respect their watermark, and the bounds are
    /// genuine durations.
    pub open spec fn wf(&self) -> bool {
        &&& slice_seq_wf(self.lslices.slices@, self.l_wm)
        &&& slice_seq_wf(self.rslices.slices@, self.r_wm)
        &&& self.lower.wf()
        &&& self.upper.wf()
    }

    /// The left records currently buffered, in arrival order.
    pub open spec fn lview(&self) -> Seq<SliceItem<K, L>> {
        slices_view(self.lslices.slices@)
    }

    /// The right records currently buffered, in arrival order.
    pub open spec fn rview(&self) -> Seq<SliceItem<K, R>> {
        slices_view(self.rslices.slices@)
    }

    /// The window of right times a left record at `t` matches:
    /// `[t - lower, t + upper]`, saturating at the ends of time.
    pub open spec fn window_left(&self, t: Time) -> (int, int) {
        (
            spec_sub_saturating(t.0 as int, self.lower.0 as int),
            spec_add_saturating(t.0 as int, self.upper.0 as int),
        )
    }

    /// The window of left times a right record at `t` matches:
    /// `[t - upper, t + lower]`.
    pub open spec fn window_right(&self, t: Time) -> (int, int) {
        (
            spec_sub_saturating(t.0 as int, self.upper.0 as int),
            spec_add_saturating(t.0 as int, self.lower.0 as int),
        )
    }

    pub fn new(lower: Duration, upper: Duration) -> (r: IntervalJoinState<K, L, R>)
        requires
            lower.wf(),
            upper.wf(),
        ensures
            r.wf(),
            r.lview() =~= Seq::empty(),
            r.rview() =~= Seq::empty(),
            r.lower == lower && r.upper == upper,
            r.l_wm.0 == 0 && r.r_wm.0 == 0 && !r.l_done && !r.r_done,
    {
        IntervalJoinState {
            lslices: SliceSeq::new(),
            rslices: SliceSeq::new(),
            lower,
            upper,
            l_wm: Time(0),
            r_wm: Time(0),
            l_done: false,
            r_done: false,
        }
    }

    /// Both sentinels have arrived; the joined stream is closed.
    pub fn finished(&self) -> (r: bool)
        ensures
            r == (self.l_done && self.r_done),
    {
        self.l_done && self.r_done
    }

    /// A left record arrives: buffer it and emit its pair with every buffered
    /// right record of the same key within `[t - lower, t + upper]` — all of
    /// them, each exactly once, in buffer order.
    pub fn on_data_left(&mut self, k: K, t: Time, v: L) -> (out: Vec<Event<(L, R)>>)
        requires
            old(self).wf(),
            !old(self).l_done,
            old(self).l_wm.0 <= t.0,
        ensures
            final(self).wf(),
            final(self).lview() == old(self).lview().push(SliceItem { key: k, time: t, value: v }),
            final(self).rview() == old(self).rview(),
            final(self).l_wm == old(self).l_wm && final(self).r_wm == old(self).r_wm,
            final(self).l_done == old(self).l_done && final(self).r_done == old(self).r_done,
            final(self).lower == old(self).lower && final(self).upper == old(self).upper,
            out@ == joined_left(
                v,
                t,
                join_matches(
                    old(self).rview(),
                    k,
                    old(self).window_left(t).0,
                    old(self).window_left(t).1,
                ),
            ),
            forall|i: int| 0 <= i < out@.len() ==> out@[i] is Data,
    {
        let ep = t.sub_duration(self.lower);
        let lp = t.add_duration(self.upper);
        let mut ms = self.rslices.scan(&k, ep, lp, Ghost(self.r_wm));
        let ghost ms0 = ms@;
        let mut out: Vec<Event<(L, R)>> = Vec::new();
        let ghost mut j: int = 0;
        while ms.len() > 0
            invariant
                0 <= j <= ms0.len(),
                ms@ =~= ms0.skip(j),
                out@ =~= joined_left(v, t, ms0.take(j)),
            decreases ms.len(),
        {
            let it = ms.remove(0);
            let pair_time = if t.0 >= it.time.0 {
                t
            } else {
                it.time
            };
            out.push(Event::Data(pair_time, (v.deep_clone(), it.value)));
            proof {
                assert(it == ms0[j]);
                assert(ms0.skip(j).drop_first() =~= ms0.skip(j + 1));
                assert(joined_left(v, t, ms0.take(j + 1)) =~= joined_left(
                    v,
                    t,
                    ms0.take(j),
                ).push(Event::Data(pair_time, (v, it.value))));
                j = j + 1;
            }
        }
        proof {
            assert(ms0.take(j) =~= ms0);
        }
        self.lslices.push_item(k, t, v, self.l_wm);
        out
    }

    /// A right record arrives: the mirror image, matching buffered left
    /// records within `[t - upper, t + lower]`.
    pub fn on_data_right(&mut self, k: K, t: Time, v: R) -> (out: Vec<Event<(L, R)>>)
        requires
            old(self).wf(),
            !old(self).r_done,
            old(self).r_wm.0 <= t.0,
        ensures
            final(self).wf(),
            final(self).rview() == old(self).rview().push(SliceItem { key: k, time: t, value: v }),
            final(self).lview() == old(self).lview(),
            final(self).l_wm == old(self).l_wm && final(self).r_wm == old(self).r_wm,
            final(self).l_done == old(self).l_done && final(self).r_done == old(self).r_done,
            final(self).lower == old(self).lower && final(self).upper == old(self).upper,
            out@ == joined_right(
                v,
                t,
                join_matches(
                    old(self).lview(),
                    k,
                    old(self).window_right(t).0,
                    old(self).window_right(t).1,
                ),
            ),
            forall|i: int| 0 <= i < out@.len() ==> out@[i] is Data,
    {
        let ep = t.sub_duration(self.upper);
        let lp = t.add_duration(self.lower);
        let mut ms = self.lslices.scan(&k, ep, lp, Ghost(self.l_wm));
        let ghost ms0 = ms@;
        let mut out: Vec<Event<(L, R)>> = Vec::new();
        let ghost mut j: int = 0;
        while ms.len() > 0
            invariant
                0 <= j <= ms0.len(),
                ms@ =~= ms0.skip(j),
                out@ =~= joined_right(v, t, ms0.take(j)),
            decreases ms.len(),
        {
            let it = ms.remove(0);
            let pair_time = if t.0 >= it.time.0 {
                t
            } else {
                it.time
            };
            out.push(Event::Data(pair_time, (it.value, v.deep_clone())));
            proof {
                assert(it == ms0[j]);
                assert(ms0.skip(j).drop_first() =~= ms0.skip(j + 1));
                assert(joined_right(v, t, ms0.take(j + 1)) =~= joined_right(
                    v,
                    t,
                    ms0.take(j),
                ).push(Event::Data(pair_time, (it.value, v))));
                j = j + 1;
            }
        }
        proof {
            assert(ms0.take(j) =~= ms0);
        }
        self.rslices.push_item(k, t, v, self.r_wm);
        out
    }

    /// A left watermark `t`: open a fresh left slice, retire right slices
    /// wholly before `t - lower` (nothing they held can match any further
    /// left record), and forward a watermark under the same min-forwarding
    /// rule as the merge.
    pub fn on_watermark_left(&mut self, t: Time) -> (out: Vec<Event<(L, R)>>)
        requires
            old(self).wf(),
            !old(self).l_done,
            old(self).l_wm.0 <= t.0,
        ensures
            final(self).wf(),
            final(self).lview() == old(self).lview(),
            final(self).l_wm == t && final(self).r_wm == old(self).r_wm,
            final(self).l_done == old(self).l_done && final(self).r_done == old(self).r_done,
            final(self).lower == old(self).lower && final(self).upper == old(self).upper,
            out@ == merge_wm_out::<(L, R)>(old(self).l_wm, old(self).r_wm, t),
            dropped_before(
                old(self).rview(),
                final(self).rview(),
                spec_sub_saturating(t.0 as int, old(self).lower.0 as int),
            ),
            final(self).rslices.slices@.len() == 0
                || final(self).rslices.slices@[0].latest.0 as int >= spec_sub_saturating(
                t.0 as int,
                old(self).lower.0 as int,
            ),
    {
        self.lslices.push_watermark(t, Ghost(self.l_wm));
        let cut = t.sub_duration(self.lower);
        self.rslices.gc(cut, Ghost(self.r_wm));
        let mut out: Vec<Event<(L, R)>> = Vec::new();
        if t.0 < self.r_wm.0 {
            out.push(Event::Watermark(t));
        } else if self.l_wm.0 < self.r_wm.0 && self.r_wm.0 < t.0 {
            out.push(Event::Watermark(self.r_wm));
        }
        self.l_wm = t;
        out
    }

    /// A right watermark `t`: the mirror image, retiring left slices wholly
    /// before `t - upper`.
    pub fn on_watermark_right(&mut self, t: Time) -> (out: Vec<Event<(L, R)>>)
        requires
            old(self).wf(),
            !old(self).r_done,
            old(self).r_wm.0 <= t.0,
        ensures
            final(self).wf(),
            final(self).rview() == old(self).rview(),
            final(self).r_wm == t && final(self).l_wm == old(self).l_wm,
            final(self).l_done == old(self).l_done && final(self).r_done == old(self).r_done,
            final(self).lower == old(self).lower && final(self).upper == old(self).upper,
            out@ == merge_wm_out::<(L, R)>(old(self).r_wm, old(self).l_wm, t),
            dropped_before(
                old(self).lview(),
                final(self).lview(),
                spec_sub_saturating(t.0 as int, old(self).upper.0 as int),
            ),
            final(self).lslices.slices@.len() == 0
                || final(self).lslices.slices@[0].latest.0 as int >= spec_sub_saturating(
                t.0 as int,
                old(self).upper.0 as int,
            ),
    {
        self.rslices.push_watermark(t, Ghost(self.r_wm));
        let cut = t.sub_duration(self.upper);
        self.lslices.gc(cut, Ghost(self.l_wm));
        let mut out: Vec<Event<(L, R)>> = Vec::new();
        if t.0 < self.l_wm.0 {
            out.push(Event::Watermark(t));
        } else if self.r_wm.0 < self.l_wm.0 && self.l_wm.0 < t.0 {
            out.push(Event::Watermark(self.l_wm));
        }
        self.r_wm = t;
        out
    }

    /// The left side closes; the joined stream closes once both sides have.
    pub fn on_sentinel_left(&mut self) -> (out: Vec<Event<(L, R)>>)
        requires
            old(self).wf(),
            !old(self).l_done,
        ensures
            final(self).wf(),
            *final(self) == (IntervalJoinState { l_done: true, ..*old(self) }),
            out@ == if old(self).r_done {
                seq![Event::<(L, R)>::Sentinel]
            } else {
                Seq::empty()
            },
    {
        let mut out: Vec<Event<(L, R)>> = Vec::new();
        if self.r_done {
            out.push(Event::Sentinel);
        }
        self.l_done = true;
        out
    }

    /// The right side closes; the joined stream closes once both sides have.
    pub fn on_sentinel_right(&mut self) -> (out: Vec<Event<(L, R)>>)
        requires
            old(self).wf(),
            !old(self).r_done,
        ensures
            final(self).wf(),
            *final(self) == (IntervalJoinState { r_done: true, ..*old(self) }),
            out@ == if old(self).l_done {
                seq![Event::<(L, R)>::Sentinel]
            } else {
                Seq::empty()
            },
    {
        let mut out: Vec<Event<(L, R)>> = Vec::new();
        if self.l_done {
            out.push(Event::Sentinel);
        }
        self.r_done = true;
        out
    }

    /// Checkpoint barriers pass straight through, while the stream is open.
    pub fn on_snapshot(&self, id: usize) -> (out: Vec<Event<(L, R)>>)
        requires
            !(self.l_done && self.r_done),
        ensures
            out@ == seq![Event::<(L, R)>::Snapshot(id)],
    {
        let mut out: Vec<Event<(L, R)>> = Vec::new();
        out.push(Event::Snapshot(id));
        out
    }
}

/// What a join emits besides data, for one incoming event kind: nothing for a
/// record, the merge's min-forwarding rule for a watermark, the barrier
/// itself, and the sentinel once both sides have closed. The state evolves as
/// the merge's does.
pub open spec fn join_control_out<P>(s: MergeState, side: Side, kind: Event<()>) -> Seq<Event<P>> {
    match kind {
        Event::Data(_, _) => Seq::<Event<P>>::empty(),
        Event::Watermark(t) => match side {
            Side::Left => merge_wm_out(s.l_wm, s.r_wm, t),
            Side::Right => merge_wm_out(s.r_wm, s.l_wm, t),
        },
        Event::Snapshot(i) => seq![Event::<P>::Snapshot(i)],
        Event::Sentinel => match side {
            Side::Left => if s.r_done {
                seq![Event::<P>::Sentinel]
            } else {
                Seq::<Event<P>>::empty()
            },
            Side::Right => if s.l_done {
                seq![Event::<P>::Sentinel]
            } else {
                Seq::<Event<P>>::empty()
            },
        },
    }
}

/// An abstracted join history: each step records the side and kind of the
/// incoming event together with the data batch the step emitted first (the
/// joined pairs of an arrival, or the cross products of the windows a
/// watermark or sentinel closed). It is admissible when no side speaks after
/// its sentinel, each side's watermarks never decrease, and every recorded
/// batch holds data events only — exactly what the step contracts of
/// `IntervalJoinState` and `TumblingJoinState` guarantee of their emissions.
pub open spec fn join_control_trace_ok<P>(
    s: MergeState,
    tr: Seq<(Side, Event<()>, Seq<Event<P>>)>,
) -> bool
    decreases tr.len(),
{
    tr.len() == 0 || {
        let side = tr[0].0;
        let kind = tr[0].1;
        let pairs = tr[0].2;
        let ok_now = match side {
            Side::Left => !s.l_done && (kind is Watermark ==> s.l_wm.0 <= kind->Watermark_0.0),
            Side::Right => !s.r_done && (kind is Watermark ==> s.r_wm.0 <= kind->Watermark_0.0),
        };
        ok_now && (forall|i: int| 0 <= i < pairs.len() ==> pairs[i] is Data)
            && join_control_trace_ok(merge_step_spec::<()>(s, side, kind).0, tr.drop_first())
    }
}

/// Everything a join emits over an abstracted history: per step, its data
/// batch followed by its control events.
pub open spec fn join_control_run<P>(
    s: MergeState,
    tr: Seq<(Side, Event<()>, Seq<Event<P>>)>,
) -> Seq<Event<P>>
    decreases tr.len(),
{
    if tr.len() == 0 {
        Seq::empty()
    } else {
        let side = tr[0].0;
        let kind = tr[0].1;
        let pairs = tr[0].2;
        (pairs + join_control_out::<P>(s, side, kind)) + join_control_run(
            merge_step_spec::<()>(s, side, kind).0,
            tr.drop_first(),
        )
    }
}

/// Watermark monotonicity and sentinel terminality for the joins: over any
/// admissible abstracted history, the watermarks a join emits form a
/// non-decreasing sequence, never below the smaller tracked watermark at the
/// start, and no emitted event follows the sentinel. Both join operators'
/// steps refine this machine: their data batches are data events only, their
/// watermark steps forward exactly `merge_wm_out`, and their sentinel steps
/// close exactly when the other side already has.
pub proof fn lemma_join_watermarks_and_terminal<P>(
    s: MergeState,
    tr: Seq<(Side, Event<()>, Seq<Event<P>>)>,
)
    requires
        join_control_trace_ok(s, tr),
    ensures
        nondecreasing(wm_times(join_control_run(s, tr))),
        forall|i: int|
            0 <= i < wm_times(join_control_run(s, tr)).len() ==> merge_min(s) <= wm_times(
                join_control_run(s, tr),
            )[i],
        terminal_ok(join_control_run(s, tr)),
    decreases tr.len(),
{
    if tr.len() == 0 {
    } else {
        let side = tr[0].0;
        let kind = tr[0].1;
        let pairs = tr[0].2;
        let s1 = merge_step_spec::<()>(s, side, kind).0;
        let out0 = pairs + join_control_out::<P>(s, side, kind);
        let rest = join_control_run(s1, tr.drop_first());
        lemma_join_watermarks_and_terminal(s1, tr.drop_first());
        assert(join_control_run(s, tr) == out0 + rest);
        crate::event::lemma_wm_times_none(pairs);
        lemma_wm_times_add(pairs, join_control_out::<P>(s, side, kind));
        lemma_wm_times_add(out0, rest);
        assert(merge_min(s) <= merge_min(s1));
        assert(forall|i: int|
            0 <= i < wm_times(out0).len() ==> merge_min(s) <= #[trigger] wm_times(out0)[i]
                && wm_times(out0)[i] <= merge_min(s1)) by {
            reveal_with_fuel(wm_times, 2);
        }
        assert(nondecreasing(wm_times(out0))) by {
            reveal_with_fuel(wm_times, 2);
        }
        lemma_nondecreasing_concat(wm_times(out0), wm_times(rest), merge_min(s1));
        if kind is Sentinel && (s1.l_done && s1.r_done) {
            // The second sentinel: no admissible history continues past it.
            assert(join_control_trace_ok(s1, tr.drop_first()));
            if tr.drop_first().len() > 0 {
                assert(match tr.drop_first()[0].0 {
                    Side::Left => !s1.l_done,
                    Side::Right => !s1.r_done,
                });
            }
            assert(tr.drop_first().len() == 0);
            assert(join_control_run(s, tr) =~= out0);
            assert(terminal_ok(out0)) by {
                assert(forall|i: int| 0 <= i < pairs.len() ==> out0[i] == pairs[i]);
            }
        } else {
            assert(forall|i: int| 0 <= i < out0.len() ==> !(out0[i] is Sentinel)) by {
                assert(forall|i: int| 0 <= i < pairs.len() ==> out0[i] == pairs[i]);
            }
            lemma_terminal_concat(out0, rest);
        }
    }
}

/// One operation of an interval-join run: a record arrives on one side, or a
/// watermark advances one side, retiring `n` buffered records of the opposite
/// side (`n` records whatever a particular garbage collection chose to keep).
pub enum JoinOp<K, L, R> {
    ArriveLeft(K, Time, L),
    ArriveRight(K, Time, R),
    AdvanceLeft(Time, int),
    AdvanceRight(Time, int),
}

/// A whole run's bookkeeping: every record that ever arrived on each side,
/// the records still buffered, the watermarks, and the bounds.
#[verifier::ext_equal]
pub struct JoinHist<K, L, R> {
    pub lefts: Seq<SliceItem<K, L>>,
    pub rights: Seq<SliceItem<K, R>>,
    pub lview: Seq<SliceItem<K, L>>,
    pub rview: Seq<SliceItem<K, R>>,
    pub l_wm: Time,
    pub r_wm: Time,
    pub lower: Duration,
    pub upper: Duration,
}

/// The buffers hold what arrived, less a retired prefix that lies wholly
/// below the opposite watermark's cut; the bounds are genuine durations.
pub open spec fn join_hist_wf<K, L, R>(h: JoinHist<K, L, R>) -> bool {
    &&& h.lower.wf()
    &&& h.upper.wf()
    &&& dropped_before(
        h.rights,
        h.rview,
        spec_sub_saturating(h.l_wm.0 as int, h.lower.0 as int),
    )
    &&& dropped_before(
        h.lefts,
        h.lview,
        spec_sub_saturating(h.r_wm.0 as int, h.upper.0 as int),
    )
}

/// When one operation is admissible: arrivals and watermarks are on time, and
/// a retirement only drops buffered records below its own cut.
pub open spec fn join_op_ok<K, L, R>(h: JoinHist<K, L, R>, op: JoinOp<K, L, R>) -> bool {
    match op {
        JoinOp::ArriveLeft(k, t, v) => h.l_wm.0 <= t.0,
        JoinOp::ArriveRight(k, t, v) => h.r_wm.0 <= t.0,
        JoinOp::AdvanceLeft(t, n) => h.l_wm.0 <= t.0 && 0 <= n <= h.rview.len() && (forall|q: int|
            0 <= q < n ==> h.rview[q].time.0 < spec_sub_saturating(
                t.0 as int,
                h.lower.0 as int,
            )),
        JoinOp::AdvanceRight(t, n) => h.r_wm.0 <= t.0 && 0 <= n <= h.lview.len() && (forall|q: int|
            0 <= q < n ==> h.lview[q].time.0 < spec_sub_saturating(
                t.0 as int,
                h.upper.0 as int,
            )),
    }
}

/// How one operation changes the bookkeeping.
pub open spec fn join_hist_step<K, L, R>(h: JoinHist<K, L, R>, op: JoinOp<K, L, R>) -> JoinHist<
    K,
    L,
    R,
> {
    match op {
        JoinOp::ArriveLeft(k, t, v) => {
            let item = SliceItem { key: k, time: t, value: v };
            JoinHist { lefts: h.lefts.push(item), lview: h.lview.push(item), ..h }
        },
        JoinOp::ArriveRight(k, t, v) => {
            let item = SliceItem { key: k, time: t, value: v };
            JoinHist { rights: h.rights.push(item), rview: h.rview.push(item), ..h }
        },
        JoinOp::AdvanceLeft(t, n) => JoinHist { l_wm: t, rview: h.rview.skip(n), ..h },
        JoinOp::AdvanceRight(t, n) => JoinHist { r_wm: t, lview: h.lview.skip(n), ..h },
    }
}

/// What one operation makes the join emit, scanning the retained buffer — as
/// `on_data_left` and `on_data_right` do.
pub open spec fn join_hist_out<K, L, R>(h: JoinHist<K, L, R>, op: JoinOp<K, L, R>) -> Seq<
    Event<(L, R)>,
> {
    match op {
        JoinOp::ArriveLeft(k, t, v) => joined_left(
            v,
            t,
            join_matches(
                h.rview,
                k,
                spec_sub_saturating(t.0 as int, h.lower.0 as int),
                spec_add_saturating(t.0 as int, h.upper.0 as int),
            ),
        ),
        JoinOp::ArriveRight(k, t, v) => joined_right(
            v,
            t,
            join_matches(
                h.lview,
                k,
                spec_sub_saturating(t.0 as int, h.upper.0 as int),
                spec_add_saturating(t.0 as int, h.lower.0 as int),
            ),
        ),
        JoinOp::AdvanceLeft(t, n) => Seq::empty(),
        JoinOp::AdvanceRight(t, n) => Seq::empty(),
    }
}

/// A run is admissible when every operation is, from the state the ones
/// before it produced.
pub open spec fn join_hist_trace_ok<K, L, R>(h: JoinHist<K, L, R>, tr: Seq<JoinOp<K, L, R>>) -> bool
    decreases tr.len(),
{
    tr.len() == 0 || (join_op_ok(h, tr[0]) && join_hist_trace_ok(
        join_hist_step(h, tr[0]),
        tr.drop_first(),
    ))
}

/// The bookkeeping after a prefix of the run.
pub open spec fn join_hist_at<K, L, R>(
    h: JoinHist<K, L, R>,
    tr: Seq<JoinOp<K, L, R>>,
    a: int,
) -> JoinHist<K, L, R>
    decreases (if a >= 0 {
        a
    } else {
        0
    }),
{
    if a <= 0 {
        h
    } else {
        join_hist_step(join_hist_at(h, tr, a - 1), tr[a - 1])
    }
}

/// One admissible step keeps the buffers a freshly-cut suffix of the arrivals.
pub proof fn lemma_join_hist_wf_step<K, L, R>(h: JoinHist<K, L, R>, op: JoinOp<K, L, R>)
    requires
        join_hist_wf(h),
        join_op_ok(h, op),
    ensures
        join_hist_wf(join_hist_step(h, op)),
{
    match op {
        JoinOp::ArriveLeft(k, t, v) => {
            let item = SliceItem { key: k, time: t, value: v };
            lemma_dropped_before_push(
                h.lefts,
                h.lview,
                spec_sub_saturating(h.r_wm.0 as int, h.upper.0 as int),
                item,
            );
        },
        JoinOp::ArriveRight(k, t, v) => {
            let item = SliceItem { key: k, time: t, value: v };
            lemma_dropped_before_push(
                h.rights,
                h.rview,
                spec_sub_saturating(h.l_wm.0 as int, h.lower.0 as int),
                item,
            );
        },
        JoinOp::AdvanceLeft(t, n) => {
            let cut1 = spec_sub_saturating(h.l_wm.0 as int, h.lower.0 as int);
            let cut2 = spec_sub_saturating(t.0 as int, h.lower.0 as int);
            assert(h.rview.skip(n) =~= h.rview.skip(n));
            assert(0 <= n <= h.rview.len() && h.rview.skip(n) =~= h.rview.skip(n) && (forall|
                q: int,
            | 0 <= q < n ==> h.rview[q].time.0 < cut2));
            assert(dropped_before(h.rview, h.rview.skip(n), cut2));
            lemma_dropped_before_compose(h.rights, h.rview, h.rview.skip(n), cut1, cut2);
        },
        JoinOp::AdvanceRight(t, n) => {
            let cut1 = spec_sub_saturating(h.r_wm.0 as int, h.upper.0 as int);
            let cut2 = spec_sub_saturating(t.0 as int, h.upper.0 as int);
            assert(0 <= n <= h.lview.len() && h.lview.skip(n) =~= h.lview.skip(n) && (forall|
                q: int,
            | 0 <= q < n ==> h.lview[q].time.0 < cut2));
            assert(dropped_before(h.lview, h.lview.skip(n), cut2));
            lemma_dropped_before_compose(h.lefts, h.lview, h.lview.skip(n), cut1, cut2);
        },
    }
}

/// Interval join completeness for one arrival in a run: what the scan of the
/// retained buffer emits is exactly what a scan of the full arrival history
/// would emit — no valid pair was lost to retirement, and the per-arrival
/// contract already gives each match exactly once.
pub proof fn lemma_join_arrival_complete<K, L, R>(h: JoinHist<K, L, R>, op: JoinOp<K, L, R>)
    requires
        join_hist_wf(h),
        join_op_ok(h, op),
    ensures
        op matches JoinOp::ArriveLeft(k, t, v) ==> join_hist_out(h, op) == joined_left(
            v,
            t,
            join_matches(
                h.rights,
                k,
                spec_sub_saturating(t.0 as int, h.lower.0 as int),
                spec_add_saturating(t.0 as int, h.upper.0 as int),
            ),
        ),
        op matches JoinOp::ArriveRight(k, t, v) ==> join_hist_out(h, op) == joined_right(
            v,
            t,
            join_matches(
                h.lefts,
                k,
                spec_sub_saturating(t.0 as int, h.upper.0 as int),
                spec_add_saturating(t.0 as int, h.lower.0 as int),
            ),
        ),
{
    match op {
        JoinOp::ArriveLeft(k, t, v) => {
            lemma_retirement_preserves_matches(h.rights, h.rview, h.l_wm, h.lower, t, h.upper, k);
        },
        JoinOp::ArriveRight(k, t, v) => {
            lemma_retirement_preserves_matches(h.lefts, h.lview, h.r_wm, h.upper, t, h.lower, k);
        },
        _ => {},
    }
}

/// A fresh join's bookkeeping is well-formed: nothing has arrived and nothing
/// has been retired, which is where an admissible run starts.
pub proof fn lemma_join_hist_initial<K, L, R>(lower: Duration, upper: Duration)
    requires
        lower.wf(),
        upper.wf(),
    ensures
        join_hist_wf(
            JoinHist::<K, L, R> {
                lefts: Seq::empty(),
                rights: Seq::empty(),
                lview: Seq::empty(),
                rview: Seq::empty(),
                l_wm: Time(0),
                r_wm: Time(0),
                lower,
                upper,
            },
        ),
{
    lemma_dropped_before_refl::<K, R>(
        Seq::empty(),
        spec_sub_saturating(0, lower.0 as int),
    );
    lemma_dropped_before_refl::<K, L>(
        Seq::empty(),
        spec_sub_saturating(0, upper.0 as int),
    );
}

/// A run's bookkeeping after `a` steps is the bookkeeping of the tail run.
proof fn lemma_join_hist_at_shift<K, L, R>(h: JoinHist<K, L, R>, tr: Seq<JoinOp<K, L, R>>, a: int)
    requires
        1 <= a <= tr.len(),
    ensures
        join_hist_at(h, tr, a) == join_hist_at(join_hist_step(h, tr[0]), tr.drop_first(), a - 1),
    decreases a,
{
    let h1 = join_hist_step(h, tr[0]);
    if a == 1 {
        assert(join_hist_at(h, tr, 1) == join_hist_step(join_hist_at(h, tr, 0), tr[0]));
        assert(join_hist_at(h, tr, 0) == h);
        assert(join_hist_at(h1, tr.drop_first(), 0) == h1);
    } else {
        lemma_join_hist_at_shift(h, tr, a - 1);
        assert(tr.drop_first()[a - 2] == tr[a - 1]);
        assert(join_hist_at(h, tr, a) == join_hist_step(join_hist_at(h, tr, a - 1), tr[a - 1]));
        assert(join_hist_at(h1, tr.drop_first(), a - 1) == join_hist_step(
            join_hist_at(h1, tr.drop_first(), a - 2),
            tr.drop_first()[a - 2],
        ));
    }
}

/// Interval join completeness over a whole admissible run: at every step, the
/// emitted pairs are the joined values of exactly the key-matching records of
/// the full opposite-side arrival history within the arrival's window —
/// whatever slices any admissible retirement dropped in between. Each valid
/// pair is therefore emitted exactly once: at the arrival of its later
/// record, whose history already holds the earlier one — and never at the
/// earlier record's arrival, whose history does not yet hold the later one.
pub proof fn lemma_interval_join_complete<K, L, R>(
    h: JoinHist<K, L, R>,
    tr: Seq<JoinOp<K, L, R>>,
)
    requires
        join_hist_wf(h),
        join_hist_trace_ok(h, tr),
    ensures
        forall|a: int|
            0 <= a < tr.len() ==> (#[trigger] join_hist_out(join_hist_at(h, tr, a), tr[a]))
                == (match tr[a] {
                JoinOp::ArriveLeft(k, t, v) => joined_left(
                    v,
                    t,
                    join_matches(
                        join_hist_at(h, tr, a).rights,
                        k,
                        spec_sub_saturating(t.0 as int, join_hist_at(h, tr, a).lower.0 as int),
                        spec_add_saturating(t.0 as int, join_hist_at(h, tr, a).upper.0 as int),
                    ),
                ),
                JoinOp::ArriveRight(k, t, v) => joined_right(
                    v,
                    t,
                    join_matches(
                        join_hist_at(h, tr, a).lefts,
                        k,
                        spec_sub_saturating(t.0 as int, join_hist_at(h, tr, a).upper.0 as int),
                        spec_add_saturating(t.0 as int, join_hist_at(h, tr, a).lower.0 as int),
                    ),
                ),
                JoinOp::AdvanceLeft(t, n) => Seq::<Event<(L, R)>>::empty(),
                JoinOp::AdvanceRight(t, n) => Seq::<Event<(L, R)>>::empty(),
            }),
    decreases tr.len(),
{
    if tr.len() > 0 {
        let h1 = join_hist_step(h, tr[0]);
        lemma_join_hist_wf_step(h, tr[0]);
        lemma_interval_join_complete(h1, tr.drop_first());
        assert forall|a: int|
            0 <= a < tr.len() implies (#[trigger] join_hist_out(join_hist_at(h, tr, a), tr[a]))
            == (match tr[a] {
            JoinOp::ArriveLeft(k, t, v) => joined_left(
                v,
                t,
                join_matches(
                    join_hist_at(h, tr, a).rights,
                    k,
                    spec_sub_saturating(t.0 as int, join_hist_at(h, tr, a).lower.0 as int),
                    spec_add_saturating(t.0 as int, join_hist_at(h, tr, a).upper.0 as int),
                ),
            ),
            JoinOp::ArriveRight(k, t, v) => joined_right(
                v,
                t,
                join_matches(
                    join_hist_at(h, tr, a).lefts,
                    k,
                    spec_sub_saturating(t.0 as int, join_hist_at(h, tr, a).upper.0 as int),
                    spec_add_saturating(t.0 as int, join_hist_at(h, tr, a).lower.0 as int),
                ),
            ),
            JoinOp::AdvanceLeft(t, n) => Seq::<Event<(L, R)>>::empty(),
            JoinOp::AdvanceRight(t, n) => Seq::<Event<(L, R)>>::empty(),
        }) by {
            if a == 0 {
                assert(join_hist_at(h, tr, 0) == h);
                lemma_join_arrival_complete(h, tr[0]);
            } else {
                lemma_join_hist_at_shift(h, tr, a);
                assert(tr.drop_first()[a - 1] == tr[a]);
                assert(join_hist_out(
                    join_hist_at(h1, tr.drop_first(), a - 1),
                    tr.drop_first()[a - 1],
                ) == (match tr.drop_first()[a - 1] {
                    JoinOp::ArriveLeft(k, t, v) => joined_left(
                        v,
                        t,
                        join_matches(
                            join_hist_at(h1, tr.drop_first(), a - 1).rights,
                            k,
                            spec_sub_saturating(
                                t.0 as int,
                                join_hist_at(h1, tr.drop_first(), a - 1).lower.0 as int,
                            ),
                            spec_add_saturating(
                                t.0 as int,
                                join_hist_at(h1, tr.drop_first(), a - 1).upper.0 as int,
                            ),
                        ),
                    ),
                    JoinOp::ArriveRight(k, t, v) => joined_right(
                        v,
                        t,
                        join_matches(
                            join_hist_at(h1, tr.drop_first(), a - 1).lefts,
                            k,
                            spec_sub_saturating(
                                t.0 as int,
                                join_hist_at(h1, tr.drop_first(), a - 1).upper.0 as int,
                            ),
                            spec_add_saturating(
                                t.0 as int,
                                join_hist_at(h1, tr.drop_first(), a - 1).lower.0 as int,
                            ),
                        ),
                    ),
                    JoinOp::AdvanceLeft(t, n) => Seq::<Event<(L, R)>>::empty(),
                    JoinOp::AdvanceRight(t, n) => Seq::<Event<(L, R)>>::empty(),
                }));
            }
        }
    }
}

} // verus!
