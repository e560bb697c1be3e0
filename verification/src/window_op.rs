//! Keyed windowed aggregation: aligned tumbling time windows, holistic and
//! incremental, and count-based sliding windows.
//!
//! A pane is one open window instance for one key. Data lands in the pane of
//! its key and aligned window; a watermark at or past a pane's end closes the
//! pane and emits its aggregate, stamped with the window end; the sentinel
//! flushes every open pane. Panes close in creation order.
//!
//! The holistic implementation buffers each pane's full member list and folds
//! it at close; the incremental implementation keeps one accumulator per pane
//! and updates it on each arrival, in constant memory per pane. Both are
//! verified against the same transitions (`window_data_step`,
//! `window_wm_step`, `window_sentinel_step`), so over the same inputs they
//! emit identical events: window closure is deterministic.

use vstd::prelude::*;

use crate::agg::Aggregator;
use crate::agg::agg_of;
use crate::agg::fold_from;
use crate::agg::fold_items;
use crate::agg::lemma_fold_push;
use crate::event::DeepClone;
use crate::event::KeyedEvent;
use crate::keys::Key;
use crate::time::Duration;
use crate::time::Time;
use crate::time::spec_add_saturating;
use crate::window::spec_window_start;
use crate::window::window_start;

verus! {

/// One open window instance for one key, as the contracts see it.
#[verifier::ext_equal]
pub struct PaneModel<K, V> {
    pub key: K,
    pub start: Time,
    pub items: Seq<V>,
}

/// A window operator's state, as the contracts see it.
#[verifier::ext_equal]
pub struct WindowModel<K, V> {
    pub length: Duration,
    pub wm: Time,
    pub done: bool,
    pub panes: Seq<PaneModel<K, V>>,
}

/// The first pane for key `k` and window start `ws`, or `-1` if none is open.
pub open spec fn find_pane<K, V>(panes: Seq<PaneModel<K, V>>, k: K, ws: Time) -> int
    decreases panes.len(),
{
    if panes.len() == 0 {
        -1
    } else if panes[0].key == k && panes[0].start == ws {
        0
    } else {
        let r = find_pane(panes.drop_first(), k, ws);
        if r == -1 {
            -1
        } else {
            r + 1
        }
    }
}

/// A matchless prefix followed by a match (or the end) pins `find_pane`.
proof fn lemma_find_pane_pin<K, V>(panes: Seq<PaneModel<K, V>>, k: K, ws: Time, i: int)
    requires
        0 <= i <= panes.len(),
        forall|j: int| 0 <= j < i ==> !(panes[j].key == k && panes[j].start == ws),
        i < panes.len() ==> panes[i].key == k && panes[i].start == ws,
    ensures
        find_pane(panes, k, ws) == if i == panes.len() {
            -1int
        } else {
            i
        },
    decreases i,
{
    if i == 0 {
    } else {
        lemma_find_pane_pin(panes.drop_first(), k, ws, i - 1);
    }
}

/// Append `v` to the pane of key `k` and window start `ws`, opening a fresh
/// pane at the back if none is.
pub open spec fn pane_insert<K, V>(
    panes: Seq<PaneModel<K, V>>,
    k: K,
    ws: Time,
    v: V,
) -> Seq<PaneModel<K, V>> {
    let i = find_pane(panes, k, ws);
    if i == -1 {
        panes.push(PaneModel { key: k, start: ws, items: seq![v] })
    } else {
        panes.update(
            i,
            PaneModel { key: k, start: panes[i].start, items: panes[i].items.push(v) },
        )
    }
}

/// Where a record at time `t` goes: the pane of its key and aligned window,
/// appended in arrival order.
pub open spec fn window_data_step<K, V>(m: WindowModel<K, V>, k: K, t: Time, v: V) -> WindowModel<
    K,
    V,
> {
    let ws = Time(spec_window_start(t.0 as int, m.length.0 as int) as i64);
    WindowModel {
        length: m.length,
        wm: m.wm,
        done: m.done,
        panes: pane_insert(m.panes, k, ws, v),
    }
}

/// Where a window of length `len` starting at `start` ends, saturating.
pub open spec fn pane_end(start: Time, len: Duration) -> int {
    spec_add_saturating(start.0 as int, len.0 as int)
}

/// The events closing `panes` emits, in pane-creation order: each pane's
/// aggregate at its window end, panes whose aggregation yields nothing
/// skipped.
pub open spec fn close_events<K, V, O, A: Aggregator<V, O>>(
    agg: A,
    panes: Seq<PaneModel<K, V>>,
    len: Duration,
) -> Seq<KeyedEvent<K, O>>
    decreases panes.len(),
{
    if panes.len() == 0 {
        Seq::empty()
    } else {
        (match agg_of(agg, panes[0].items) {
            Some(o) => seq![
                KeyedEvent::Data(Time(pane_end(panes[0].start, len) as i64), panes[0].key, o),
            ],
            None => Seq::empty(),
        }) + close_events(agg, panes.drop_first(), len)
    }
}

/// `close_events` distributes over concatenation.
proof fn lemma_close_events_add<K, V, O, A: Aggregator<V, O>>(
    agg: A,
    a: Seq<PaneModel<K, V>>,
    b: Seq<PaneModel<K, V>>,
    len: Duration,
)
    ensures
        close_events(agg, a + b, len) == close_events(agg, a, len) + close_events(agg, b, len),
    decreases a.len(),
{
    if a.len() == 0 {
        assert(a + b =~= b);
        assert(close_events(agg, a, len) + close_events(agg, b, len) =~= close_events(
            agg,
            b,
            len,
        ));
    } else {
        assert((a + b).drop_first() =~= a.drop_first() + b);
        lemma_close_events_add(agg, a.drop_first(), b, len);
        let head = match agg_of(agg, a[0].items) {
            Some(o) => seq![KeyedEvent::Data(Time(pane_end(a[0].start, len) as i64), a[0].key, o)],
            None => Seq::<KeyedEvent<K, O>>::empty(),
        };
        assert(head + (close_events(agg, a.drop_first(), len) + close_events(agg, b, len)) =~= (
        head + close_events(agg, a.drop_first(), len)) + close_events(agg, b, len));
    }
}

/// Closing a single pane.
proof fn lemma_close_events_single<K, V, O, A: Aggregator<V, O>>(
    agg: A,
    p: PaneModel<K, V>,
    len: Duration,
)
    ensures
        close_events(agg, seq![p], len) =~= match agg_of(agg, p.items) {
            Some(o) => seq![KeyedEvent::Data(Time(pane_end(p.start, len) as i64), p.key, o)],
            None => Seq::<KeyedEvent<K, O>>::empty(),
        },
{
    let head = match agg_of(agg, p.items) {
        Some(o) => seq![KeyedEvent::Data(Time(pane_end(p.start, len) as i64), p.key, o)],
        None => Seq::<KeyedEvent<K, O>>::empty(),
    };
    assert(seq![p].drop_first() =~= Seq::<PaneModel<K, V>>::empty());
    assert(close_events(agg, Seq::<PaneModel<K, V>>::empty(), len) =~= Seq::<
        KeyedEvent<K, O>,
    >::empty());
    assert(seq![p][0] == p);
    assert(close_events(agg, seq![p], len) == head + close_events(
        agg,
        seq![p].drop_first(),
        len,
    ));
    assert(head + Seq::<KeyedEvent<K, O>>::empty() =~= head);
}

/// A watermark `w` closes every pane whose end it has reached, in creation
/// order, then follows them downstream.
pub open spec fn window_wm_step<K, V, O, A: Aggregator<V, O>>(
    agg: A,
    m: WindowModel<K, V>,
    w: Time,
) -> (WindowModel<K, V>, Seq<KeyedEvent<K, O>>) {
    let closed = m.panes.filter(|p: PaneModel<K, V>| pane_end(p.start, m.length) <= w.0);
    let kept = m.panes.filter(|p: PaneModel<K, V>| pane_end(p.start, m.length) > w.0);
    (
        WindowModel { length: m.length, wm: w, done: m.done, panes: kept },
        close_events(agg, closed, m.length) + seq![KeyedEvent::Watermark(w)],
    )
}

/// The sentinel flushes every open pane, in creation order, then closes the
/// stream.
pub open spec fn window_sentinel_step<K, V, O, A: Aggregator<V, O>>(
    agg: A,
    m: WindowModel<K, V>,
) -> (WindowModel<K, V>, Seq<KeyedEvent<K, O>>) {
    (
        WindowModel { length: m.length, wm: m.wm, done: true, panes: Seq::empty() },
        close_events(agg, m.panes, m.length) + seq![KeyedEvent::Sentinel],
    )
}

/// An open window instance holding its full member list.
#[derive(Debug)]
pub struct Pane<K, V> {
    pub key: K,
    pub start: Time,
    pub items: Vec<V>,
}

/// The tumbling window operator in holistic form: each pane keeps its member
/// list and the aggregation runs over the whole list at close.
#[derive(Debug)]
pub struct TumblingHolisticState<K, V> {
    pub length: Duration,
    pub wm: Time,
    pub done: bool,
    pub panes: Vec<Pane<K, V>>,
}

impl<K: Key, V> TumblingHolisticState<K, V> {
    pub open spec fn model(&self) -> WindowModel<K, V> {
        WindowModel {
            length: self.length,
            wm: self.wm,
            done: self.done,
            panes: self.panes@.map_values(
                |p: Pane<K, V>| PaneModel { key: p.key, start: p.start, items: p.items@ },
            ),
        }
    }

    pub open spec fn wf(&self) -> bool {
        self.length.0 > 0
    }

    pub fn new(length: Duration) -> (r: TumblingHolisticState<K, V>)
        requires
            length.0 > 0,
        ensures
            r.wf(),
            r.model().length == length && r.model().wm.0 == 0 && !r.model().done,
            r.model().panes =~= Seq::<PaneModel<K, V>>::empty(),
    {
        TumblingHolisticState { length, wm: Time(0), done: false, panes: Vec::new() }
    }

    /// Append `v` to the pane of key `k` and window start `ws`.
    pub(crate) fn insert_at(&mut self, k: K, ws: Time, v: V)
        ensures
            final(self).length == old(self).length && final(self).wm == old(self).wm,
            final(self).done == old(self).done,
            final(self).model().panes == pane_insert(old(self).model().panes, k, ws, v),
    {
        let ghost panes0 = self.model().panes;
        let mut idx: usize = 0;
        let n = self.panes.len();
        while idx < n && !(self.panes[idx].key.key_eq(&k) && self.panes[idx].start.0 == ws.0)
            invariant
                0 <= idx <= n,
                n == self.panes@.len(),
                forall|j: int|
                    0 <= j < idx ==> !(self.panes@[j].key == k && self.panes@[j].start == ws),
            decreases n - idx,
        {
            idx = idx + 1;
        }
        proof {
            assert(forall|j: int|
                0 <= j < panes0.len() ==> panes0[j] == (PaneModel {
                    key: self.panes@[j].key,
                    start: self.panes@[j].start,
                    items: self.panes@[j].items@,
                }));
            if idx < n {
                assert(self.panes@[idx as int].start.0 == ws.0 ==> self.panes@[idx as int].start
                    == ws);
            }
            lemma_find_pane_pin(panes0, k, ws, idx as int);
        }
        if idx == n {
            let mut items = Vec::new();
            items.push(v);
            self.panes.push(Pane { key: k, start: ws, items });
            proof {
                assert(self.model().panes =~= panes0.push(
                    PaneModel { key: k, start: ws, items: seq![v] },
                ));
            }
        } else {
            let mut p = self.panes.remove(idx);
            p.items.push(v);
            let ghost pm = PaneModel { key: p.key, start: p.start, items: p.items@ };
            self.panes.insert(idx, p);
            proof {
                assert(self.model().panes =~= panes0.update(idx as int, pm));
                assert(pm =~= (PaneModel {
                    key: panes0[idx as int].key,
                    start: panes0[idx as int].start,
                    items: panes0[idx as int].items.push(v),
                }));
                assert(panes0[idx as int].start == ws);
            }
        }
    }

    /// An on-time record lands in the pane of its key and window.
    pub fn on_data(&mut self, k: K, t: Time, v: V)
        requires
            old(self).wf(),
            !old(self).model().done,
            0 <= t.0,
            old(self).model().wm.0 <= t.0,
        ensures
            final(self).wf(),
            final(self).model() == window_data_step(old(self).model(), k, t, v),
    {
        let ws = window_start(t, self.length);
        self.insert_at(k, ws, v);
    }

    /// A watermark closes every due pane, emits each aggregate at its window
    /// end in creation order, and is forwarded after them.
    pub fn on_watermark<O, A: Aggregator<V, O>>(&mut self, w: Time, agg: &A) -> (out: Vec<
        KeyedEvent<K, O>,
    >)
        requires
            old(self).wf(),
            !old(self).model().done,
            old(self).model().wm.0 <= w.0,
        ensures
            final(self).wf(),
            final(self).model() == window_wm_step::<K, V, O, A>(*agg, old(self).model(), w).0,
            out@ == window_wm_step::<K, V, O, A>(*agg, old(self).model(), w).1,
    {
        let ghost panes0 = self.model().panes;
        let ghost to_model = |p: Pane<K, V>| PaneModel { key: p.key, start: p.start, items: p.items@ };
        let ghost closed_pred = |p: PaneModel<K, V>| pane_end(p.start, self.length) <= w.0;
        let ghost kept_pred = |p: PaneModel<K, V>| pane_end(p.start, self.length) > w.0;
        let ghost len0 = self.length;
        let mut out: Vec<KeyedEvent<K, O>> = Vec::new();
        let mut kept: Vec<Pane<K, V>> = Vec::new();
        let ghost mut n: int = 0;
        while self.panes.len() > 0
            invariant
                0 <= n <= panes0.len(),
                self.length == len0 && self.wm == old(self).wm && self.done == old(self).done,
                len0.0 > 0,
                to_model == (|p: Pane<K, V>| PaneModel {
                    key: p.key,
                    start: p.start,
                    items: p.items@,
                }),
                self.panes@.map_values(to_model) =~= panes0.skip(n),
                closed_pred == (|p: PaneModel<K, V>| pane_end(p.start, len0) <= w.0),
                kept_pred == (|p: PaneModel<K, V>| pane_end(p.start, len0) > w.0),
                out@ =~= close_events(*agg, panes0.take(n).filter(closed_pred), len0),
                kept@.map_values(to_model) =~= panes0.take(n).filter(kept_pred),
            decreases self.panes.len(),
        {
            let ghost before = self.panes@;
            let p = self.panes.remove(0);
            let ghost pm = PaneModel { key: p.key, start: p.start, items: p.items@ };
            proof {
                assert(before.map_values(to_model).len() == before.len());
                assert(before.map_values(to_model)[0] == pm);
                assert(panes0.skip(n).len() == panes0.len() - n);
                assert(panes0.skip(n)[0] == panes0[n]);
                assert(pm == panes0[n]);
                assert(self.panes@ =~= before.drop_first());
                assert(self.panes@.map_values(to_model) =~= before.map_values(
                    to_model,
                ).drop_first());
                assert(panes0.take(n + 1).drop_last() =~= panes0.take(n));
                assert(panes0.take(n + 1) =~= panes0.take(n).push(pm));
                reveal_with_fuel(Seq::filter, 2);
            }
            let end = p.start.add_duration(self.length);
            if end.0 <= w.0 {
                proof {
                    assert(panes0.take(n + 1).filter(closed_pred) =~= panes0.take(n).filter(
                        closed_pred,
                    ).push(pm));
                    assert(panes0.take(n + 1).filter(kept_pred) =~= panes0.take(n).filter(
                        kept_pred,
                    ));
                    lemma_close_events_add(
                        *agg,
                        panes0.take(n).filter(closed_pred),
                        seq![pm],
                        len0,
                    );
                    lemma_close_events_single::<K, V, O, A>(*agg, pm, len0);
                    assert(panes0.take(n).filter(closed_pred).push(pm) =~= panes0.take(n).filter(
                        closed_pred,
                    ) + seq![pm]);
                }
                let acc = fold_items(agg, &p.items);
                match agg.finish(acc) {
                    Some(o) => {
                        out.push(KeyedEvent::Data(end, p.key, o));
                    },
                    None => {},
                }
            } else {
                proof {
                    assert(panes0.take(n + 1).filter(kept_pred) =~= panes0.take(n).filter(
                        kept_pred,
                    ).push(pm));
                    assert(panes0.take(n + 1).filter(closed_pred) =~= panes0.take(n).filter(
                        closed_pred,
                    ));
                }
                let ghost kept_before = kept@;
                kept.push(p);
                proof {
                    assert(kept@ =~= kept_before.push(p));
                    assert(kept@.map_values(to_model) =~= kept_before.map_values(to_model).push(
                        pm,
                    ));
                }
            }
            proof {
                assert(panes0.skip(n).drop_first() =~= panes0.skip(n + 1));
                n = n + 1;
            }
        }
        proof {
            assert(panes0.take(n) =~= panes0);
        }
        out.push(KeyedEvent::Watermark(w));
        self.panes = kept;
        self.wm = w;
        proof {
            assert(self.model().panes =~= self.panes@.map_values(to_model));
        }
        out
    }

    /// The sentinel flushes every open pane and closes the stream.
    pub fn on_sentinel<O, A: Aggregator<V, O>>(&mut self, agg: &A) -> (out: Vec<KeyedEvent<K, O>>)
        requires
            old(self).wf(),
            !old(self).model().done,
        ensures
            final(self).wf(),
            final(self).model() == window_sentinel_step::<K, V, O, A>(*agg, old(self).model()).0,
            out@ == window_sentinel_step::<K, V, O, A>(*agg, old(self).model()).1,
    {
        let ghost panes0 = self.model().panes;
        let ghost to_model = |p: Pane<K, V>| PaneModel { key: p.key, start: p.start, items: p.items@ };
        let ghost len0 = self.length;
        let mut out: Vec<KeyedEvent<K, O>> = Vec::new();
        let ghost mut n: int = 0;
        while self.panes.len() > 0
            invariant
                0 <= n <= panes0.len(),
                self.length == len0 && self.wm == old(self).wm && self.done == old(self).done,
                len0.0 > 0,
                to_model == (|p: Pane<K, V>| PaneModel {
                    key: p.key,
                    start: p.start,
                    items: p.items@,
                }),
                self.panes@.map_values(to_model) =~= panes0.skip(n),
                out@ =~= close_events(*agg, panes0.take(n), len0),
            decreases self.panes.len(),
        {
            let ghost before = self.panes@;
            let p = self.panes.remove(0);
            let ghost pm = PaneModel { key: p.key, start: p.start, items: p.items@ };
            proof {
                assert(before.map_values(to_model).len() == before.len());
                assert(before.map_values(to_model)[0] == pm);
                assert(panes0.skip(n).len() == panes0.len() - n);
                assert(panes0.skip(n)[0] == panes0[n]);
                assert(pm == panes0[n]);
                assert(self.panes@ =~= before.drop_first());
                assert(self.panes@.map_values(to_model) =~= before.map_values(
                    to_model,
                ).drop_first());
                assert(panes0.take(n + 1) =~= panes0.take(n).push(pm));
                assert(panes0.take(n).push(pm) =~= panes0.take(n) + seq![pm]);
                lemma_close_events_add(*agg, panes0.take(n), seq![pm], len0);
                lemma_close_events_single::<K, V, O, A>(*agg, pm, len0);
            }
            let end = p.start.add_duration(self.length);
            let acc = fold_items(agg, &p.items);
            match agg.finish(acc) {
                Some(o) => {
                    out.push(KeyedEvent::Data(end, p.key, o));
                },
                None => {},
            }
            proof {
                assert(panes0.skip(n).drop_first() =~= panes0.skip(n + 1));
                n = n + 1;
            }
        }
        proof {
            assert(panes0.take(n) =~= panes0);
        }
        out.push(KeyedEvent::Sentinel);
        self.done = true;
        out
    }

    /// Checkpoint barriers pass straight through, while the stream is open.
    pub fn on_snapshot<O>(&self, id: usize) -> (out: Vec<KeyedEvent<K, O>>)
        requires
            !self.done,
        ensures
            out@ == seq![KeyedEvent::<K, O>::Snapshot(id)],
    {
        let mut out: Vec<KeyedEvent<K, O>> = Vec::new();
        out.push(KeyedEvent::Snapshot(id));
        out
    }
}

/// An open window instance holding only the running accumulator; the member
/// list it stands for is carried as ghost state.
pub struct IncPane<K, C, V> {
    pub key: K,
    pub start: Time,
    pub acc: C,
    pub members: Ghost<Seq<V>>,
}

/// The tumbling window operator in commutative/associative incremental form:
/// constant memory per pane, one accumulator update per arrival, never
/// re-scanning history.
pub struct TumblingIncrementalState<K, C, V> {
    pub length: Duration,
    pub wm: Time,
    pub done: bool,
    pub panes: Vec<IncPane<K, C, V>>,
}

impl<K: Key, C, V> TumblingIncrementalState<K, C, V> {
    pub open spec fn model(&self) -> WindowModel<K, V> {
        WindowModel {
            length: self.length,
            wm: self.wm,
            done: self.done,
            panes: self.panes@.map_values(
                |p: IncPane<K, C, V>| PaneModel { key: p.key, start: p.start, items: p.members@ },
            ),
        }
    }

    /// Every accumulator is the fold of the members it stands for.
    pub open spec fn wf<O, A: Aggregator<V, O, Acc = C>>(&self, agg: A) -> bool {
        &&& self.length.0 > 0
        &&& forall|i: int|
            0 <= i < self.panes@.len() ==> self.panes@[i].acc == fold_from(
                agg,
                agg.sinit(),
                self.panes@[i].members@,
            )
    }

    pub fn new<O, A: Aggregator<V, O, Acc = C>>(length: Duration, agg: &A) -> (r:
        TumblingIncrementalState<K, C, V>)
        requires
            length.0 > 0,
        ensures
            r.wf::<O, A>(*agg),
            r.model().length == length && r.model().wm.0 == 0 && !r.model().done,
            r.model().panes =~= Seq::<PaneModel<K, V>>::empty(),
    {
        TumblingIncrementalState { length, wm: Time(0), done: false, panes: Vec::new() }
    }

    /// An on-time record steps the accumulator of its pane, in constant work.
    pub fn on_data<O, A: Aggregator<V, O, Acc = C>>(&mut self, k: K, t: Time, v: V, agg: &A)
        requires
            old(self).wf::<O, A>(*agg),
            !old(self).model().done,
            0 <= t.0,
            old(self).model().wm.0 <= t.0,
        ensures
            final(self).wf::<O, A>(*agg),
            final(self).model() == window_data_step(old(self).model(), k, t, v),
    {
        let ws = window_start(t, self.length);
        let ghost panes0 = self.model().panes;
        let mut idx: usize = 0;
        let n = self.panes.len();
        while idx < n && !(self.panes[idx].key.key_eq(&k) && self.panes[idx].start.0 == ws.0)
            invariant
                0 <= idx <= n,
                n == self.panes@.len(),
                forall|j: int|
                    0 <= j < idx ==> !(self.panes@[j].key == k && self.panes@[j].start == ws),
            decreases n - idx,
        {
            idx = idx + 1;
        }
        proof {
            assert(forall|j: int|
                0 <= j < panes0.len() ==> panes0[j] == (PaneModel {
                    key: self.panes@[j].key,
                    start: self.panes@[j].start,
                    items: self.panes@[j].members@,
                }));
            if idx < n {
                assert(self.panes@[idx as int].start.0 == ws.0 ==> self.panes@[idx as int].start
                    == ws);
            }
            lemma_find_pane_pin(panes0, k, ws, idx as int);
        }
        if idx == n {
            let acc = agg.step(agg.init(), &v);
            proof {
                assert(seq![v].drop_first() =~= Seq::<V>::empty());
                assert(seq![v][0] == v);
                assert(fold_from(*agg, agg.sinit(), seq![v]) == fold_from(
                    *agg,
                    agg.sstep(agg.sinit(), v),
                    seq![v].drop_first(),
                ));
            }
            let ghost ms: Seq<V> = seq![v];
            self.panes.push(IncPane { key: k, start: ws, acc, members: Ghost(ms) });
            proof {
                assert(self.model().panes =~= panes0.push(
                    PaneModel { key: k, start: ws, items: seq![v] },
                ));
            }
        } else {
            let mut p = self.panes.remove(idx);
            proof {
                lemma_fold_push(*agg, agg.sinit(), p.members@, v);
            }
            p.acc = agg.step(p.acc, &v);
            proof {
                p.members@ = p.members@.push(v);
            }
            let ghost pm = PaneModel { key: p.key, start: p.start, items: p.members@ };
            self.panes.insert(idx, p);
            proof {
                assert(self.model().panes =~= panes0.update(idx as int, pm));
                assert(pm =~= (PaneModel {
                    key: panes0[idx as int].key,
                    start: panes0[idx as int].start,
                    items: panes0[idx as int].items.push(v),
                }));
                assert(panes0[idx as int].start == ws);
            }
        }
    }

    /// A watermark closes every due pane by lowering its accumulator — the
    /// member list is never re-scanned — and is forwarded after them. The
    /// emitted events equal the holistic implementation's, event for event.
    pub fn on_watermark<O, A: Aggregator<V, O, Acc = C>>(&mut self, w: Time, agg: &A) -> (out: Vec<
        KeyedEvent<K, O>,
    >)
        requires
            old(self).wf::<O, A>(*agg),
            !old(self).model().done,
            old(self).model().wm.0 <= w.0,
        ensures
            final(self).wf::<O, A>(*agg),
            final(self).model() == window_wm_step::<K, V, O, A>(*agg, old(self).model(), w).0,
            out@ == window_wm_step::<K, V, O, A>(*agg, old(self).model(), w).1,
    {
        let ghost panes0 = self.model().panes;
        let ghost to_model = |p: IncPane<K, C, V>| PaneModel {
            key: p.key,
            start: p.start,
            items: p.members@,
        };
        let ghost closed_pred = |p: PaneModel<K, V>| pane_end(p.start, self.length) <= w.0;
        let ghost kept_pred = |p: PaneModel<K, V>| pane_end(p.start, self.length) > w.0;
        let ghost len0 = self.length;
        let ghost agg0 = *agg;
        let mut out: Vec<KeyedEvent<K, O>> = Vec::new();
        let mut kept: Vec<IncPane<K, C, V>> = Vec::new();
        let ghost mut n: int = 0;
        while self.panes.len() > 0
            invariant
                0 <= n <= panes0.len(),
                self.length == len0 && self.wm == old(self).wm && self.done == old(self).done,
                len0.0 > 0,
                agg0 == *agg,
                to_model == (|p: IncPane<K, C, V>| PaneModel {
                    key: p.key,
                    start: p.start,
                    items: p.members@,
                }),
                self.panes@.map_values(to_model) =~= panes0.skip(n),
                forall|i: int|
                    0 <= i < self.panes@.len() ==> self.panes@[i].acc == fold_from(
                        agg0,
                        agg0.sinit(),
                        self.panes@[i].members@,
                    ),
                closed_pred == (|p: PaneModel<K, V>| pane_end(p.start, len0) <= w.0),
                kept_pred == (|p: PaneModel<K, V>| pane_end(p.start, len0) > w.0),
                out@ =~= close_events(agg0, panes0.take(n).filter(closed_pred), len0),
                kept@.map_values(to_model) =~= panes0.take(n).filter(kept_pred),
                forall|i: int|
                    0 <= i < kept@.len() ==> kept@[i].acc == fold_from(
                        agg0,
                        agg0.sinit(),
                        kept@[i].members@,
                    ),
            decreases self.panes.len(),
        {
            let ghost before = self.panes@;
            let p = self.panes.remove(0);
            let ghost pm = PaneModel { key: p.key, start: p.start, items: p.members@ };
            proof {
                assert(before.map_values(to_model).len() == before.len());
                assert(before.map_values(to_model)[0] == pm);
                assert(panes0.skip(n).len() == panes0.len() - n);
                assert(panes0.skip(n)[0] == panes0[n]);
                assert(pm == panes0[n]);
                assert(self.panes@ =~= before.drop_first());
                assert(self.panes@.map_values(to_model) =~= before.map_values(
                    to_model,
                ).drop_first());
                assert(p.acc == fold_from(agg0, agg0.sinit(), p.members@));
                assert(panes0.take(n + 1).drop_last() =~= panes0.take(n));
                assert(panes0.take(n + 1) =~= panes0.take(n).push(pm));
                reveal_with_fuel(Seq::filter, 2);
            }
            let end = p.start.add_duration(self.length);
            if end.0 <= w.0 {
                proof {
                    assert(panes0.take(n + 1).filter(closed_pred) =~= panes0.take(n).filter(
                        closed_pred,
                    ).push(pm));
                    assert(panes0.take(n + 1).filter(kept_pred) =~= panes0.take(n).filter(
                        kept_pred,
                    ));
                    lemma_close_events_add(
                        agg0,
                        panes0.take(n).filter(closed_pred),
                        seq![pm],
                        len0,
                    );
                    lemma_close_events_single::<K, V, O, A>(agg0, pm, len0);
                    assert(panes0.take(n).filter(closed_pred).push(pm) =~= panes0.take(n).filter(
                        closed_pred,
                    ) + seq![pm]);
                }
                let acc = p.acc;
                proof {
                    assert(agg_of(agg0, pm.items) == agg0.sfinish(acc));
                }
                match agg.finish(acc) {
                    Some(o) => {
                        out.push(KeyedEvent::Data(end, p.key, o));
                    },
                    None => {},
                }
            } else {
                proof {
                    assert(panes0.take(n + 1).filter(kept_pred) =~= panes0.take(n).filter(
                        kept_pred,
                    ).push(pm));
                    assert(panes0.take(n + 1).filter(closed_pred) =~= panes0.take(n).filter(
                        closed_pred,
                    ));
                }
                let ghost kept_before = kept@;
                kept.push(p);
                proof {
                    assert(kept@ =~= kept_before.push(p));
                    assert(kept@.map_values(to_model) =~= kept_before.map_values(to_model).push(
                        pm,
                    ));
                }
            }
            proof {
                assert(panes0.skip(n).drop_first() =~= panes0.skip(n + 1));
                n = n + 1;
            }
        }
        proof {
            assert(panes0.take(n) =~= panes0);
        }
        out.push(KeyedEvent::Watermark(w));
        self.panes = kept;
        self.wm = w;
        proof {
            assert(self.model().panes =~= self.panes@.map_values(to_model));
        }
        out
    }

    /// The sentinel flushes every open pane and closes the stream.
    pub fn on_sentinel<O, A: Aggregator<V, O, Acc = C>>(&mut self, agg: &A) -> (out: Vec<
        KeyedEvent<K, O>,
    >)
        requires
            old(self).wf::<O, A>(*agg),
            !old(self).model().done,
        ensures
            final(self).wf::<O, A>(*agg),
            final(self).model() == window_sentinel_step::<K, V, O, A>(*agg, old(self).model()).0,
            out@ == window_sentinel_step::<K, V, O, A>(*agg, old(self).model()).1,
    {
        let ghost panes0 = self.model().panes;
        let ghost to_model = |p: IncPane<K, C, V>| PaneModel {
            key: p.key,
            start: p.start,
            items: p.members@,
        };
        let ghost len0 = self.length;
        let ghost agg0 = *agg;
        let mut out: Vec<KeyedEvent<K, O>> = Vec::new();
        let ghost mut n: int = 0;
        while self.panes.len() > 0
            invariant
                0 <= n <= panes0.len(),
                self.length == len0 && self.wm == old(self).wm && self.done == old(self).done,
                len0.0 > 0,
                agg0 == *agg,
                to_model == (|p: IncPane<K, C, V>| PaneModel {
                    key: p.key,
                    start: p.start,
                    items: p.members@,
                }),
                self.panes@.map_values(to_model) =~= panes0.skip(n),
                forall|i: int|
                    0 <= i < self.panes@.len() ==> self.panes@[i].acc == fold_from(
                        agg0,
                        agg0.sinit(),
                        self.panes@[i].members@,
                    ),
                out@ =~= close_events(agg0, panes0.take(n), len0),
            decreases self.panes.len(),
        {
            let ghost before = self.panes@;
            let p = self.panes.remove(0);
            let ghost pm = PaneModel { key: p.key, start: p.start, items: p.members@ };
            proof {
                assert(before.map_values(to_model).len() == before.len());
                assert(before.map_values(to_model)[0] == pm);
                assert(panes0.skip(n).len() == panes0.len() - n);
                assert(panes0.skip(n)[0] == panes0[n]);
                assert(pm == panes0[n]);
                assert(self.panes@ =~= before.drop_first());
                assert(self.panes@.map_values(to_model) =~= before.map_values(
                    to_model,
                ).drop_first());
                assert(p.acc == fold_from(agg0, agg0.sinit(), p.members@));
                assert(panes0.take(n + 1) =~= panes0.take(n).push(pm));
                assert(panes0.take(n).push(pm) =~= panes0.take(n) + seq![pm]);
                lemma_close_events_add(agg0, panes0.take(n), seq![pm], len0);
                lemma_close_events_single::<K, V, O, A>(agg0, pm, len0);
            }
            let end = p.start.add_duration(self.length);
            let acc = p.acc;
            proof {
                assert(agg_of(agg0, pm.items) == agg0.sfinish(acc));
            }
            match agg.finish(acc) {
                Some(o) => {
                    out.push(KeyedEvent::Data(end, p.key, o));
                },
                None => {},
            }
            proof {
                assert(panes0.skip(n).drop_first() =~= panes0.skip(n + 1));
                n = n + 1;
            }
        }
        proof {
            assert(panes0.take(n) =~= panes0);
        }
        out.push(KeyedEvent::Sentinel);
        self.done = true;
        out
    }

    /// Checkpoint barriers pass straight through, while the stream is open.
    pub fn on_snapshot<O>(&self, id: usize) -> (out: Vec<KeyedEvent<K, O>>)
        requires
            !self.done,
        ensures
            out@ == seq![KeyedEvent::<K, O>::Snapshot(id)],
    {
        let mut out: Vec<KeyedEvent<K, O>> = Vec::new();
        out.push(KeyedEvent::Snapshot(id));
        out
    }
}

/// One open count-based window instance for one key, as the contracts see it.
#[verifier::ext_equal]
pub struct CountPaneModel<K, V> {
    pub key: K,
    pub items: Seq<V>,
}

/// The first count pane for key `k`, or `-1` if none is open.
pub open spec fn find_key<K, V>(panes: Seq<CountPaneModel<K, V>>, k: K) -> int
    decreases panes.len(),
{
    if panes.len() == 0 {
        -1
    } else if panes[0].key == k {
        0
    } else {
        let r = find_key(panes.drop_first(), k);
        if r == -1 {
            -1
        } else {
            r + 1
        }
    }
}

proof fn lemma_find_key_pin<K, V>(panes: Seq<CountPaneModel<K, V>>, k: K, i: int)
    requires
        0 <= i <= panes.len(),
        forall|j: int| 0 <= j < i ==> panes[j].key != k,
        i < panes.len() ==> panes[i].key == k,
    ensures
        find_key(panes, k) == if i == panes.len() {
            -1int
        } else {
            i
        },
    decreases i,
{
    if i > 0 {
        lemma_find_key_pin(panes.drop_first(), k, i - 1);
    }
}

/// What a record does to a count-based sliding window of `size` sliding by
/// `slide`: it joins its key's buffer; when the buffer reaches `size`, the
/// aggregate over exactly those `size` records is emitted at the record's own
/// time and the `slide` oldest records retire.
pub open spec fn counting_data_step<K, V, O, A: Aggregator<V, O>>(
    agg: A,
    panes: Seq<CountPaneModel<K, V>>,
    size: int,
    slide: int,
    k: K,
    t: Time,
    v: V,
) -> (Seq<CountPaneModel<K, V>>, Seq<KeyedEvent<K, O>>) {
    let i = find_key(panes, k);
    let grown = if i == -1 {
        seq![v]
    } else {
        panes[i].items.push(v)
    };
    let out = if grown.len() == size {
        match agg_of(agg, grown) {
            Some(o) => seq![KeyedEvent::<K, O>::Data(t, k, o)],
            None => Seq::<KeyedEvent<K, O>>::empty(),
        }
    } else {
        Seq::<KeyedEvent<K, O>>::empty()
    };
    let trimmed = if grown.len() == size {
        grown.skip(slide)
    } else {
        grown
    };
    let panes1 = if i == -1 {
        panes.push(CountPaneModel { key: k, items: trimmed })
    } else {
        panes.update(i, CountPaneModel { key: k, items: trimmed })
    };
    (panes1, out)
}

/// An open count-based window instance.
#[derive(Debug)]
pub struct CountPane<K, V> {
    pub key: K,
    pub items: Vec<V>,
}

/// The count-based sliding window operator: per key, a window closes after
/// accumulating exactly `size` records, independent of event time, and slides
/// by `slide` records. Watermarks and barriers pass through; the sentinel
/// discards partially filled windows, whose aggregate never became due.
#[derive(Debug)]
pub struct CountingWindowState<K, V> {
    pub size: usize,
    pub slide: usize,
    pub done: bool,
    pub panes: Vec<CountPane<K, V>>,
}

impl<K: Key + DeepClone, V> CountingWindowState<K, V> {
    pub open spec fn panes_model(&self) -> Seq<CountPaneModel<K, V>> {
        self.panes@.map_values(
            |p: CountPane<K, V>| CountPaneModel { key: p.key, items: p.items@ },
        )
    }

    /// The shape is non-degenerate and no buffer has reached `size` yet.
    pub open spec fn wf(&self) -> bool {
        &&& 1 <= self.size
        &&& 1 <= self.slide <= self.size
        &&& forall|i: int| 0 <= i < self.panes@.len() ==> self.panes@[i].items@.len() < self.size
    }

    pub fn new(size: usize, slide: usize) -> (r: CountingWindowState<K, V>)
        requires
            1 <= size,
            1 <= slide <= size,
        ensures
            r.wf(),
            r.size == size && r.slide == slide && !r.done,
            r.panes_model() =~= Seq::<CountPaneModel<K, V>>::empty(),
    {
        CountingWindowState { size, slide, done: false, panes: Vec::new() }
    }

    /// A record joins its key's buffer; the window closes and slides exactly
    /// when the buffer reaches `size`.
    pub fn on_data<O, A: Aggregator<V, O>>(&mut self, k: K, t: Time, v: V, agg: &A) -> (out: Vec<
        KeyedEvent<K, O>,
    >)
        requires
            old(self).wf(),
            !old(self).done,
        ensures
            final(self).wf(),
            final(self).size == old(self).size && final(self).slide == old(self).slide,
            final(self).done == old(self).done,
            final(self).panes_model() == counting_data_step::<K, V, O, A>(
                *agg,
                old(self).panes_model(),
                old(self).size as int,
                old(self).slide as int,
                k,
                t,
                v,
            ).0,
            out@ == counting_data_step::<K, V, O, A>(
                *agg,
                old(self).panes_model(),
                old(self).size as int,
                old(self).slide as int,
                k,
                t,
                v,
            ).1,
    {
        let ghost panes0 = self.panes_model();
        let ghost k0 = k;
        let mut idx: usize = 0;
        let n = self.panes.len();
        while idx < n && !self.panes[idx].key.key_eq(&k)
            invariant
                0 <= idx <= n,
                n == self.panes@.len(),
                k == k0,
                forall|j: int| 0 <= j < idx ==> self.panes@[j].key != k0,
            decreases n - idx,
        {
            idx = idx + 1;
        }
        proof {
            assert(forall|j: int|
                0 <= j < panes0.len() ==> panes0[j] == (CountPaneModel {
                    key: self.panes@[j].key,
                    items: self.panes@[j].items@,
                }));
            lemma_find_key_pin(panes0, k0, idx as int);
        }
        let mut out: Vec<KeyedEvent<K, O>> = Vec::new();
        let mut p = if idx == n {
            CountPane { key: k, items: Vec::new() }
        } else {
            self.panes.remove(idx)
        };
        p.items.push(v);
        let ghost grown = p.items@;
        proof {
            if idx == n {
                assert(grown =~= seq![v]);
            }
        }
        if p.items.len() == self.size {
            let acc = fold_items(agg, &p.items);
            match agg.finish(acc) {
                Some(o) => {
                    proof {
                        assert(p.key == k);
                    }
                    out.push(KeyedEvent::Data(t, p.key.deep_clone(), o));
                },
                None => {},
            }
            let mut dropped: usize = 0;
            proof {
                assert(p.key == k0);
            }
            while dropped < self.slide
                invariant
                    0 <= dropped <= self.slide,
                    self.slide <= grown.len(),
                    p.key == k0,
                    p.items@ =~= grown.skip(dropped as int),
                decreases self.slide - dropped,
            {
                let ghost items_before = p.items@;
                let _ = p.items.remove(0);
                proof {
                    assert(items_before.drop_first() =~= grown.skip(dropped as int + 1));
                }
                dropped = dropped + 1;
            }
        }
        let ghost pm = CountPaneModel { key: p.key, items: p.items@ };
        proof {
            if idx == n {
                assert(find_key(panes0, k0) == -1);
                assert(pm.key == k0);
            } else {
                assert(find_key(panes0, k0) == idx as int);
                assert(grown =~= panes0[idx as int].items.push(v));
                assert(pm.key == k0);
            }
            assert(pm.items =~= (if grown.len() == old(self).size as int {
                grown.skip(old(self).slide as int)
            } else {
                grown
            }));
        }
        if idx == n {
            self.panes.push(p);
            proof {
                assert(self.panes_model() =~= panes0.push(pm));
                assert(pm =~= (CountPaneModel {
                    key: k,
                    items: counting_data_step::<K, V, O, A>(
                        *agg,
                        panes0,
                        old(self).size as int,
                        old(self).slide as int,
                        k,
                        t,
                        v,
                    ).0.last().items,
                }));
            }
        } else {
            self.panes.insert(idx, p);
            proof {
                assert(self.panes_model() =~= panes0.update(idx as int, pm));
            }
        }
        out
    }

    /// Watermarks pass straight through: count windows are time-independent.
    pub fn on_watermark<O>(&self, w: Time) -> (out: Vec<KeyedEvent<K, O>>)
        ensures
            out@ == seq![KeyedEvent::<K, O>::Watermark(w)],
    {
        let mut out: Vec<KeyedEvent<K, O>> = Vec::new();
        out.push(KeyedEvent::Watermark(w));
        out
    }

    /// Checkpoint barriers pass straight through, while the stream is open.
    pub fn on_snapshot<O>(&self, id: usize) -> (out: Vec<KeyedEvent<K, O>>)
        requires
            !self.done,
        ensures
            out@ == seq![KeyedEvent::<K, O>::Snapshot(id)],
    {
        let mut out: Vec<KeyedEvent<K, O>> = Vec::new();
        out.push(KeyedEvent::Snapshot(id));
        out
    }

    /// The sentinel closes the stream; partially filled windows never became
    /// due and are discarded rather than silently aggregated.
    pub fn on_sentinel<O>(&mut self) -> (out: Vec<KeyedEvent<K, O>>)
        requires
            !old(self).done,
        ensures
            final(self).done,
            final(self).size == old(self).size && final(self).slide == old(self).slide,
            out@ == seq![KeyedEvent::<K, O>::Sentinel],
    {
        let mut out: Vec<KeyedEvent<K, O>> = Vec::new();
        out.push(KeyedEvent::Sentinel);
        self.done = true;
        out
    }
}

/// The aligned sliding windows that contain time `t`, newest start first:
/// every multiple of `step` at or below `t` whose window of length `dur`
/// still reaches past `t`, starting from `s`.
pub open spec fn sliding_starts_from(s: int, t: int, dur: int, step: int) -> Seq<int>
    decreases (if s + dur - t >= 0 {
        s + dur - t
    } else {
        0
    }),
{
    if step <= 0 {
        Seq::empty()
    } else if s + dur > t && s >= 0 {
        seq![s] + sliding_starts_from(s - step, t, dur, step)
    } else {
        Seq::empty()
    }
}

/// Insert `v` into the panes of key `k` for each window start, in order.
pub open spec fn sliding_insert<K, V>(
    panes: Seq<PaneModel<K, V>>,
    k: K,
    starts: Seq<int>,
    v: V,
) -> Seq<PaneModel<K, V>>
    decreases starts.len(),
{
    if starts.len() == 0 {
        panes
    } else {
        sliding_insert(pane_insert(panes, k, Time(starts[0] as i64), v), k, starts.drop_first(), v)
    }
}

/// Inserting for one more start continues the fold.
proof fn lemma_sliding_insert_push<K, V>(
    panes: Seq<PaneModel<K, V>>,
    k: K,
    starts: Seq<int>,
    x: int,
    v: V,
)
    ensures
        sliding_insert(panes, k, starts.push(x), v) == pane_insert(
            sliding_insert(panes, k, starts, v),
            k,
            Time(x as i64),
            v,
        ),
    decreases starts.len(),
{
    if starts.len() == 0 {
        assert(starts.push(x)[0] == x);
        assert(starts.push(x).drop_first() =~= Seq::<int>::empty());
        assert(sliding_insert(panes, k, starts.push(x), v) == sliding_insert(
            pane_insert(panes, k, Time(x as i64), v),
            k,
            starts.push(x).drop_first(),
            v,
        ));
    } else {
        assert(starts.push(x)[0] == starts[0]);
        assert(starts.push(x).drop_first() =~= starts.drop_first().push(x));
        lemma_sliding_insert_push(
            pane_insert(panes, k, Time(starts[0] as i64), v),
            k,
            starts.drop_first(),
            x,
            v,
        );
    }
}

/// Where a record at time `t` goes under an aligned sliding window: the pane
/// of its key for every window that contains `t`, newest window first.
pub open spec fn sliding_data_step<K, V>(
    m: WindowModel<K, V>,
    step: Duration,
    k: K,
    t: Time,
    v: V,
) -> WindowModel<K, V> {
    let s0 = spec_window_start(t.0 as int, step.0 as int);
    let starts = sliding_starts_from(s0, t.0 as int, m.length.0 as int, step.0 as int);
    WindowModel {
        length: m.length,
        wm: m.wm,
        done: m.done,
        panes: sliding_insert(m.panes, k, starts, v),
    }
}

/// The aligned sliding window operator, holistic: overlapping windows of a
/// fixed duration advancing by a fixed step, so one record may belong to
/// several concurrently open windows. Closing works exactly as for tumbling
/// windows: a watermark at or past a window's end closes it.
pub struct SlidingHolisticState<K, V> {
    pub inner: TumblingHolisticState<K, V>,
    pub step: Duration,
}

impl<K: Key + DeepClone, V: DeepClone> SlidingHolisticState<K, V> {
    pub open spec fn model(&self) -> WindowModel<K, V> {
        self.inner.model()
    }

    pub open spec fn wf(&self) -> bool {
        self.inner.wf() && self.step.0 > 0
    }

    pub fn new(duration: Duration, step: Duration) -> (r: SlidingHolisticState<K, V>)
        requires
            duration.0 > 0,
            step.0 > 0,
        ensures
            r.wf(),
            r.model().length == duration && r.model().wm.0 == 0 && !r.model().done,
            r.step == step,
            r.model().panes =~= Seq::<PaneModel<K, V>>::empty(),
    {
        SlidingHolisticState { inner: TumblingHolisticState::new(duration), step }
    }

    /// An on-time record lands in every window that contains its time.
    pub fn on_data(&mut self, k: K, t: Time, v: V)
        requires
            old(self).wf(),
            !old(self).model().done,
            0 <= t.0,
            old(self).model().wm.0 <= t.0,
        ensures
            final(self).wf(),
            final(self).step == old(self).step,
            final(self).model() == sliding_data_step(
                old(self).model(),
                old(self).step,
                k,
                t,
                v,
            ),
    {
        let ghost panes0 = self.model().panes;
        let ghost dur = self.inner.length.0 as int;
        let ghost stp = self.step.0 as int;
        let ghost k0 = k;
        let ghost v0 = v;
        let s0 = window_start(t, self.step);
        let ghost starts = sliding_starts_from(s0.0 as int, t.0 as int, dur, stp);
        let mut s = s0.0;
        let ghost mut j: int = 0;
        while s >= 0 && s > t.0 - self.inner.length.0
            invariant
                0 <= j <= starts.len(),
                self.inner.length == old(self).inner.length && self.step == old(self).step,
                self.inner.wm == old(self).inner.wm && self.inner.done == old(self).inner.done,
                self.inner.length.0 as int == dur && self.step.0 as int == stp,
                dur > 0 && stp > 0,
                0 <= t.0,
                k == k0 && v == v0,
                starts == sliding_starts_from(s0.0 as int, t.0 as int, dur, stp),
                sliding_starts_from(s as int, t.0 as int, dur, stp) =~= starts.skip(j),
                self.inner.model().panes == sliding_insert(panes0, k0, starts.take(j), v0),
            decreases (if s + dur - t.0 >= 0 {
                s + dur - t.0
            } else {
                0
            }),
        {
            proof {
                assert(s + dur > t.0 && s >= 0);
                assert(sliding_starts_from(s as int, t.0 as int, dur, stp) == seq![s as int]
                    + sliding_starts_from(s - stp, t.0 as int, dur, stp));
                assert(starts.skip(j)[0] == s as int);
                assert(starts[j] == s as int);
                assert(starts.take(j + 1) =~= starts.take(j).push(s as int));
                lemma_sliding_insert_push(panes0, k0, starts.take(j), s as int, v0);
                assert(starts.skip(j).drop_first() =~= starts.skip(j + 1));
                assert(sliding_starts_from(s - stp, t.0 as int, dur, stp) =~= starts.skip(
                    j + 1,
                ));
            }
            self.inner.insert_at(k.deep_clone(), Time(s), v.deep_clone());
            s = s - self.step.0;
            proof {
                j = j + 1;
            }
        }
        proof {
            assert(sliding_starts_from(s as int, t.0 as int, dur, stp) =~= Seq::<int>::empty());
            assert(starts.skip(j).len() == 0);
            assert(starts.take(j) =~= starts);
        }
    }

    /// A watermark closes every due window, exactly as for tumbling windows.
    pub fn on_watermark<O, A: Aggregator<V, O>>(&mut self, w: Time, agg: &A) -> (out: Vec<
        KeyedEvent<K, O>,
    >)
        requires
            old(self).wf(),
            !old(self).model().done,
            old(self).model().wm.0 <= w.0,
        ensures
            final(self).wf(),
            final(self).step == old(self).step,
            final(self).model() == window_wm_step::<K, V, O, A>(*agg, old(self).model(), w).0,
            out@ == window_wm_step::<K, V, O, A>(*agg, old(self).model(), w).1,
    {
        self.inner.on_watermark(w, agg)
    }

    /// The sentinel flushes every open window.
    pub fn on_sentinel<O, A: Aggregator<V, O>>(&mut self, agg: &A) -> (out: Vec<KeyedEvent<K, O>>)
        requires
            old(self).wf(),
            !old(self).model().done,
        ensures
            final(self).wf(),
            final(self).step == old(self).step,
            final(self).model() == window_sentinel_step::<K, V, O, A>(*agg, old(self).model()).0,
            out@ == window_sentinel_step::<K, V, O, A>(*agg, old(self).model()).1,
    {
        self.inner.on_sentinel(agg)
    }

    /// Checkpoint barriers pass straight through, while the stream is open.
    pub fn on_snapshot<O>(&self, id: usize) -> (out: Vec<KeyedEvent<K, O>>)
        requires
            !self.model().done,
        ensures
            out@ == seq![KeyedEvent::<K, O>::Snapshot(id)],
    {
        self.inner.on_snapshot(id)
    }
}

} // verus!
