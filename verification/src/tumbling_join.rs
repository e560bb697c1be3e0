//! Tumbling-window equi-join: co-partition two streams into the same aligned
//! time windows and emit every pair of left and right records that share a
//! window and a key.
//!
//! Each window instance buffers both sides until the window closes — windows
//! are time-bounded, so the eager cross product stays bounded too. A window
//! closes once the smaller of the two input watermarks passes its end; the
//! pairs come out in buffer order (left-major), stamped with the window end.
//! Watermarks are forwarded under the merge's min-forwarding rule, and the
//! sentinel goes out once both sides have closed, after flushing every
//! remaining window.

use vstd::prelude::*;

use crate::event::DeepClone;
use crate::event::Event;
use crate::keys::Key;
use crate::merge::merge_wm_out;
use crate::time::Duration;
use crate::time::Time;
use crate::window::spec_window_start;
use crate::window::window_start;
use crate::window_op::pane_end;

verus! {

/// One open window instance, as the contracts see it.
#[verifier::ext_equal]
pub struct JoinPaneModel<K, L, R> {
    pub start: Time,
    pub lefts: Seq<(K, L)>,
    pub rights: Seq<(K, R)>,
}

/// The join operator's state, as the contracts see it.
#[verifier::ext_equal]
pub struct TumblingJoinModel<K, L, R> {
    pub length: Duration,
    pub l_wm: Time,
    pub r_wm: Time,
    pub l_done: bool,
    pub r_done: bool,
    pub panes: Seq<JoinPaneModel<K, L, R>>,
}

/// The first pane for window start `ws`, or `-1` if none is open.
pub open spec fn find_start<K, L, R>(panes: Seq<JoinPaneModel<K, L, R>>, ws: Time) -> int
    decreases panes.len(),
{
    if panes.len() == 0 {
        -1
    } else if panes[0].start == ws {
        0
    } else {
        let r = find_start(panes.drop_first(), ws);
        if r == -1 {
            -1
        } else {
            r + 1
        }
    }
}

proof fn lemma_find_start_pin<K, L, R>(panes: Seq<JoinPaneModel<K, L, R>>, ws: Time, i: int)
    requires
        0 <= i <= panes.len(),
        forall|j: int| 0 <= j < i ==> panes[j].start != ws,
        i < panes.len() ==> panes[i].start == ws,
    ensures
        find_start(panes, ws) == if i == panes.len() {
            -1int
        } else {
            i
        },
    decreases i,
{
    if i > 0 {
        lemma_find_start_pin(panes.drop_first(), ws, i - 1);
    }
}

/// The pairs one left record forms: every right record with its key, in
/// buffer order.
pub open spec fn pairs_for<K, L, R>(k: K, l: L, rights: Seq<(K, R)>) -> Seq<(L, R)> {
    rights.filter(|p: (K, R)| p.0 == k).map_values(|p: (K, R)| (l, p.1))
}

/// Every key-matching pair of a window, left-major in buffer order.
pub open spec fn cross_join<K, L, R>(lefts: Seq<(K, L)>, rights: Seq<(K, R)>) -> Seq<(L, R)>
    decreases lefts.len(),
{
    if lefts.len() == 0 {
        Seq::empty()
    } else {
        pairs_for(lefts[0].0, lefts[0].1, rights) + cross_join(lefts.drop_first(), rights)
    }
}

/// The events one closing window emits: its cross product, stamped with the
/// window end.
pub open spec fn join_pane_events<K, L, R>(p: JoinPaneModel<K, L, R>, len: Duration) -> Seq<
    Event<(L, R)>,
> {
    cross_join(p.lefts, p.rights).map_values(
        |pr: (L, R)| Event::Data(Time(pane_end(p.start, len) as i64), pr),
    )
}

/// The events a run of closing windows emits, in window-creation order.
pub open spec fn join_close_all<K, L, R>(panes: Seq<JoinPaneModel<K, L, R>>, len: Duration) -> Seq<
    Event<(L, R)>,
>
    decreases panes.len(),
{
    if panes.len() == 0 {
        Seq::empty()
    } else {
        join_pane_events(panes[0], len) + join_close_all(panes.drop_first(), len)
    }
}

/// Closing windows emits data events only: with the watermark-step contracts
/// (`join_close_all` followed by exactly `merge_wm_out`) this places every
/// step of the operator within the joins' abstract control machine, whose
/// watermark-monotonicity and sentinel-terminality theorem then applies.
pub proof fn lemma_join_close_all_data<K, L, R>(panes: Seq<JoinPaneModel<K, L, R>>, len: Duration)
    ensures
        forall|i: int|
            0 <= i < join_close_all(panes, len).len() ==> #[trigger] join_close_all(panes, len)[i]
                is Data,
    decreases panes.len(),
{
    if panes.len() > 0 {
        lemma_join_close_all_data(panes.drop_first(), len);
        let head = join_pane_events(panes[0], len);
        assert forall|i: int|
            0 <= i < join_close_all(panes, len).len() implies #[trigger] join_close_all(
            panes,
            len,
        )[i] is Data by {
            if i < head.len() {
                assert(join_close_all(panes, len)[i] == head[i]);
            } else {
                assert(join_close_all(panes, len)[i] == join_close_all(
                    panes.drop_first(),
                    len,
                )[i - head.len()]);
            }
        }
    }
}

proof fn lemma_join_close_all_add<K, L, R>(
    a: Seq<JoinPaneModel<K, L, R>>,
    b: Seq<JoinPaneModel<K, L, R>>,
    len: Duration,
)
    ensures
        join_close_all(a + b, len) == join_close_all(a, len) + join_close_all(b, len),
    decreases a.len(),
{
    if a.len() == 0 {
        assert(a + b =~= b);
        assert(join_close_all(a, len) + join_close_all(b, len) =~= join_close_all(b, len));
    } else {
        assert((a + b).drop_first() =~= a.drop_first() + b);
        lemma_join_close_all_add(a.drop_first(), b, len);
        assert(join_pane_events(a[0], len) + (join_close_all(a.drop_first(), len)
            + join_close_all(b, len)) =~= (join_pane_events(a[0], len) + join_close_all(
            a.drop_first(),
            len,
        )) + join_close_all(b, len));
    }
}

proof fn lemma_join_close_all_single<K, L, R>(p: JoinPaneModel<K, L, R>, len: Duration)
    ensures
        join_close_all(seq![p], len) =~= join_pane_events(p, len),
{
    assert(seq![p].drop_first() =~= Seq::<JoinPaneModel<K, L, R>>::empty());
    assert(join_close_all(Seq::<JoinPaneModel<K, L, R>>::empty(), len) =~= Seq::<
        Event<(L, R)>,
    >::empty());
    assert(join_pane_events(p, len) + Seq::<Event<(L, R)>>::empty() =~= join_pane_events(p, len));
}

/// The tumbling-window equi-join operator.
pub struct TumblingJoinState<K, L, R> {
    pub length: Duration,
    pub l_wm: Time,
    pub r_wm: Time,
    pub l_done: bool,
    pub r_done: bool,
    pub panes: Vec<JoinPane<K, L, R>>,
}

/// One open window instance: both sides' records, in arrival order.
pub struct JoinPane<K, L, R> {
    pub start: Time,
    pub lefts: Vec<(K, L)>,
    pub rights: Vec<(K, R)>,
}

/// The smaller of the two tracked watermarks.
pub open spec fn tj_min<K, L, R>(m: TumblingJoinModel<K, L, R>) -> int {
    if m.l_wm.0 <= m.r_wm.0 {
        m.l_wm.0 as int
    } else {
        m.r_wm.0 as int
    }
}

/// What a watermark `t` on the left makes the join do: close every window
/// whose end the new joint watermark has passed, then forward a watermark
/// under the min-forwarding rule. (`wm_right` is the mirror image.)
pub open spec fn tj_wm_left_step<K, L, R>(m: TumblingJoinModel<K, L, R>, t: Time) -> (
    TumblingJoinModel<K, L, R>,
    Seq<Event<(L, R)>>,
) {
    let m1 = TumblingJoinModel {
        length: m.length,
        l_wm: t,
        r_wm: m.r_wm,
        l_done: m.l_done,
        r_done: m.r_done,
        panes: m.panes,
    };
    let closed = m.panes.filter(
        |p: JoinPaneModel<K, L, R>| pane_end(p.start, m.length) <= tj_min(m1),
    );
    let kept = m.panes.filter(|p: JoinPaneModel<K, L, R>| pane_end(p.start, m.length) > tj_min(m1));
    (
        TumblingJoinModel {
            length: m.length,
            l_wm: t,
            r_wm: m.r_wm,
            l_done: m.l_done,
            r_done: m.r_done,
            panes: kept,
        },
        join_close_all(closed, m.length) + merge_wm_out(m.l_wm, m.r_wm, t),
    )
}

pub open spec fn tj_wm_right_step<K, L, R>(m: TumblingJoinModel<K, L, R>, t: Time) -> (
    TumblingJoinModel<K, L, R>,
    Seq<Event<(L, R)>>,
) {
    let m1 = TumblingJoinModel {
        length: m.length,
        l_wm: m.l_wm,
        r_wm: t,
        l_done: m.l_done,
        r_done: m.r_done,
        panes: m.panes,
    };
    let closed = m.panes.filter(
        |p: JoinPaneModel<K, L, R>| pane_end(p.start, m.length) <= tj_min(m1),
    );
    let kept = m.panes.filter(|p: JoinPaneModel<K, L, R>| pane_end(p.start, m.length) > tj_min(m1));
    (
        TumblingJoinModel {
            length: m.length,
            l_wm: m.l_wm,
            r_wm: t,
            l_done: m.l_done,
            r_done: m.r_done,
            panes: kept,
        },
        join_close_all(closed, m.length) + merge_wm_out(m.r_wm, m.l_wm, t),
    )
}

impl<K: Key + DeepClone, L: DeepClone, R: DeepClone> TumblingJoinState<K, L, R> {
    pub open spec fn model(&self) -> TumblingJoinModel<K, L, R> {
        TumblingJoinModel {
            length: self.length,
            l_wm: self.l_wm,
            r_wm: self.r_wm,
            l_done: self.l_done,
            r_done: self.r_done,
            panes: self.panes@.map_values(
                |p: JoinPane<K, L, R>| JoinPaneModel {
                    start: p.start,
                    lefts: p.lefts@,
                    rights: p.rights@,
                },
            ),
        }
    }

    pub open spec fn wf(&self) -> bool {
        self.length.0 > 0
    }

    pub fn new(length: Duration) -> (r: TumblingJoinState<K, L, R>)
        requires
            length.0 > 0,
        ensures
            r.wf(),
            r.model().length == length,
            r.model().l_wm.0 == 0 && r.model().r_wm.0 == 0,
            !r.model().l_done && !r.model().r_done,
            r.model().panes =~= Seq::<JoinPaneModel<K, L, R>>::empty(),
    {
        TumblingJoinState {
            length,
            l_wm: Time(0),
            r_wm: Time(0),
            l_done: false,
            r_done: false,
            panes: Vec::new(),
        }
    }

    /// Both sentinels have arrived; the joined stream is closed.
    pub fn finished(&self) -> (r: bool)
        ensures
            r == (self.l_done && self.r_done),
    {
        self.l_done && self.r_done
    }

    /// A left record lands in its window's pane; nothing is emitted until the
    /// window closes.
    pub fn on_data_left(&mut self, k: K, t: Time, v: L)
        requires
            old(self).wf(),
            !old(self).model().l_done,
            0 <= t.0,
            old(self).model().l_wm.0 <= t.0,
        ensures
            final(self).wf(),
            ({
                let m = old(self).model();
                let ws = Time(spec_window_start(t.0 as int, m.length.0 as int) as i64);
                let i = find_start(m.panes, ws);
                &&& final(self).model().length == m.length
                &&& final(self).model().l_wm == m.l_wm && final(self).model().r_wm == m.r_wm
                &&& final(self).model().l_done == m.l_done && final(self).model().r_done
                    == m.r_done
                &&& final(self).model().panes == (if i == -1 {
                    m.panes.push(
                        JoinPaneModel { start: ws, lefts: seq![(k, v)], rights: Seq::empty() },
                    )
                } else {
                    m.panes.update(
                        i,
                        JoinPaneModel {
                            start: m.panes[i].start,
                            lefts: m.panes[i].lefts.push((k, v)),
                            rights: m.panes[i].rights,
                        },
                    )
                })
            }),
    {
        let ws = window_start(t, self.length);
        let ghost panes0 = self.model().panes;
        let mut idx: usize = 0;
        let n = self.panes.len();
        while idx < n && self.panes[idx].start.0 != ws.0
            invariant
                0 <= idx <= n,
                n == self.panes@.len(),
                forall|j: int| 0 <= j < idx ==> self.panes@[j].start != ws,
            decreases n - idx,
        {
            idx = idx + 1;
        }
        proof {
            assert(forall|j: int|
                0 <= j < panes0.len() ==> panes0[j] == (JoinPaneModel {
                    start: self.panes@[j].start,
                    lefts: self.panes@[j].lefts@,
                    rights: self.panes@[j].rights@,
                }));
            if idx < n {
                assert(self.panes@[idx as int].start.0 == ws.0 ==> self.panes@[idx as int].start
                    == ws);
            }
            lemma_find_start_pin(panes0, ws, idx as int);
        }
        if idx == n {
            let mut lefts = Vec::new();
            lefts.push((k, v));
            self.panes.push(JoinPane { start: ws, lefts, rights: Vec::new() });
            proof {
                assert(self.model().panes =~= panes0.push(
                    JoinPaneModel { start: ws, lefts: seq![(k, v)], rights: Seq::empty() },
                ));
            }
        } else {
            let mut p = self.panes.remove(idx);
            p.lefts.push((k, v));
            let ghost pm = JoinPaneModel { start: p.start, lefts: p.lefts@, rights: p.rights@ };
            self.panes.insert(idx, p);
            proof {
                assert(self.model().panes =~= panes0.update(idx as int, pm));
                assert(pm =~= (JoinPaneModel {
                    start: panes0[idx as int].start,
                    lefts: panes0[idx as int].lefts.push((k, v)),
                    rights: panes0[idx as int].rights,
                }));
            }
        }
    }

    /// A right record lands in its window's pane.
    pub fn on_data_right(&mut self, k: K, t: Time, v: R)
        requires
            old(self).wf(),
            !old(self).model().r_done,
            0 <= t.0,
            old(self).model().r_wm.0 <= t.0,
        ensures
            final(self).wf(),
            ({
                let m = old(self).model();
                let ws = Time(spec_window_start(t.0 as int, m.length.0 as int) as i64);
                let i = find_start(m.panes, ws);
                &&& final(self).model().length == m.length
                &&& final(self).model().l_wm == m.l_wm && final(self).model().r_wm == m.r_wm
                &&& final(self).model().l_done == m.l_done && final(self).model().r_done
                    == m.r_done
                &&& final(self).model().panes == (if i == -1 {
                    m.panes.push(
                        JoinPaneModel { start: ws, lefts: Seq::empty(), rights: seq![(k, v)] },
                    )
                } else {
                    m.panes.update(
                        i,
                        JoinPaneModel {
                            start: m.panes[i].start,
                            lefts: m.panes[i].lefts,
                            rights: m.panes[i].rights.push((k, v)),
                        },
                    )
                })
            }),
    {
        let ws = window_start(t, self.length);
        let ghost panes0 = self.model().panes;
        let mut idx: usize = 0;
        let n = self.panes.len();
        while idx < n && self.panes[idx].start.0 != ws.0
            invariant
                0 <= idx <= n,
                n == self.panes@.len(),
                forall|j: int| 0 <= j < idx ==> self.panes@[j].start != ws,
            decreases n - idx,
        {
            idx = idx + 1;
        }
        proof {
            assert(forall|j: int|
                0 <= j < panes0.len() ==> panes0[j] == (JoinPaneModel {
                    start: self.panes@[j].start,
                    lefts: self.panes@[j].lefts@,
                    rights: self.panes@[j].rights@,
                }));
            if idx < n {
                assert(self.panes@[idx as int].start.0 == ws.0 ==> self.panes@[idx as int].start
                    == ws);
            }
            lemma_find_start_pin(panes0, ws, idx as int);
        }
        if idx == n {
            let mut rights = Vec::new();
            rights.push((k, v));
            self.panes.push(JoinPane { start: ws, lefts: Vec::new(), rights });
            proof {
                assert(self.model().panes =~= panes0.push(
                    JoinPaneModel { start: ws, lefts: Seq::empty(), rights: seq![(k, v)] },
                ));
            }
        } else {
            let mut p = self.panes.remove(idx);
            p.rights.push((k, v));
            let ghost pm = JoinPaneModel { start: p.start, lefts: p.lefts@, rights: p.rights@ };
            self.panes.insert(idx, p);
            proof {
                assert(self.model().panes =~= panes0.update(idx as int, pm));
                assert(pm =~= (JoinPaneModel {
                    start: panes0[idx as int].start,
                    lefts: panes0[idx as int].lefts,
                    rights: panes0[idx as int].rights.push((k, v)),
                }));
            }
        }
    }

    /// Emit every key-matching pair of one closing window, left-major in
    /// buffer order, stamped with the window end.
    fn close_pane(p: &JoinPane<K, L, R>, end: Time, out: &mut Vec<Event<(L, R)>>)
        ensures
            final(out)@ == old(out)@ + cross_join(p.lefts@, p.rights@).map_values(
                |pr: (L, R)| Event::<(L, R)>::Data(end, pr),
            ),
    {
        let ghost base0 = out@;
        let ghost to_ev = |pr: (L, R)| Event::<(L, R)>::Data(end, pr);
        let mut i: usize = 0;
        let nl = p.lefts.len();
        while i < nl
            invariant
                0 <= i <= nl,
                nl == p.lefts@.len(),
                to_ev == (|pr: (L, R)| Event::<(L, R)>::Data(end, pr)),
                out@ =~= base0 + cross_join(p.lefts@.take(i as int), p.rights@).map_values(to_ev),
            decreases nl - i,
        {
            let ghost left_prefix = cross_join(p.lefts@.take(i as int), p.rights@);
            let ghost kk = p.lefts@[i as int].0;
            let ghost ll = p.lefts@[i as int].1;
            let ghost pred = |q: (K, R)| q.0 == kk;
            let mut j: usize = 0;
            let nr = p.rights.len();
            while j < nr
                invariant
                    0 <= j <= nr,
                    i < nl && nl == p.lefts@.len(),
                    nr == p.rights@.len(),
                    kk == p.lefts@[i as int].0 && ll == p.lefts@[i as int].1,
                    pred == (|q: (K, R)| q.0 == kk),
                    to_ev == (|pr: (L, R)| Event::<(L, R)>::Data(end, pr)),
                    left_prefix == cross_join(p.lefts@.take(i as int), p.rights@),
                    out@ =~= base0 + (left_prefix + pairs_for(
                        kk,
                        ll,
                        p.rights@.take(j as int),
                    )).map_values(to_ev),
                decreases nr - j,
            {
                proof {
                    assert(p.rights@.take(j as int + 1).drop_last() =~= p.rights@.take(j as int));
                    assert(p.rights@.take(j as int + 1) =~= p.rights@.take(j as int).push(
                        p.rights@[j as int],
                    ));
                    reveal_with_fuel(Seq::filter, 2);
                }
                let lk = &p.lefts[i].0;
                let matched = p.rights[j].0.key_eq(lk);
                if matched {
                    let lv = p.lefts[i].1.deep_clone();
                    let rv = p.rights[j].1.deep_clone();
                    out.push(Event::Data(end, (lv, rv)));
                }
                proof {
                    let rj = p.rights@[j as int];
                    if pred(rj) {
                        assert(p.rights@.take(j as int + 1).filter(pred) =~= p.rights@.take(
                            j as int,
                        ).filter(pred).push(rj));
                        assert(pairs_for(kk, ll, p.rights@.take(j as int + 1)) =~= pairs_for(
                            kk,
                            ll,
                            p.rights@.take(j as int),
                        ).push((ll, rj.1)));
                    } else {
                        assert(p.rights@.take(j as int + 1).filter(pred) =~= p.rights@.take(
                            j as int,
                        ).filter(pred));
                        assert(pairs_for(kk, ll, p.rights@.take(j as int + 1)) =~= pairs_for(
                            kk,
                            ll,
                            p.rights@.take(j as int),
                        ));
                    }
                    assert(out@ =~= base0 + (left_prefix + pairs_for(
                        kk,
                        ll,
                        p.rights@.take(j as int + 1),
                    )).map_values(to_ev));
                }
                j = j + 1;
            }
            proof {
                assert(p.rights@.take(nr as int) =~= p.rights@);
                assert(p.lefts@.take(i as int + 1) =~= p.lefts@.take(i as int).push(
                    p.lefts@[i as int],
                ));
                lemma_cross_join_push(p.lefts@.take(i as int), p.lefts@[i as int], p.rights@);
            }
            i = i + 1;
        }
        proof {
            assert(p.lefts@.take(nl as int) =~= p.lefts@);
        }
    }

    /// A left watermark: close every window whose end the joint watermark has
    /// passed, in creation order, then forward under the min rule.
    pub fn on_watermark_left(&mut self, t: Time) -> (out: Vec<Event<(L, R)>>)
        requires
            old(self).wf(),
            !old(self).model().l_done,
            old(self).model().l_wm.0 <= t.0,
        ensures
            final(self).wf(),
            final(self).model() == tj_wm_left_step(old(self).model(), t).0,
            out@ == tj_wm_left_step(old(self).model(), t).1,
    {
        let prev = self.l_wm;
        let cut = if t.0 <= self.r_wm.0 {
            t
        } else {
            self.r_wm
        };
        let mut out = self.close_due(cut);
        if t.0 < self.r_wm.0 {
            out.push(Event::Watermark(t));
        } else if prev.0 < self.r_wm.0 && self.r_wm.0 < t.0 {
            out.push(Event::Watermark(self.r_wm));
        }
        self.l_wm = t;
        out
    }

    /// A right watermark: the mirror image.
    pub fn on_watermark_right(&mut self, t: Time) -> (out: Vec<Event<(L, R)>>)
        requires
            old(self).wf(),
            !old(self).model().r_done,
            old(self).model().r_wm.0 <= t.0,
        ensures
            final(self).wf(),
            final(self).model() == tj_wm_right_step(old(self).model(), t).0,
            out@ == tj_wm_right_step(old(self).model(), t).1,
    {
        let prev = self.r_wm;
        let cut = if t.0 <= self.l_wm.0 {
            t
        } else {
            self.l_wm
        };
        let mut out = self.close_due(cut);
        if t.0 < self.l_wm.0 {
            out.push(Event::Watermark(t));
        } else if prev.0 < self.l_wm.0 && self.l_wm.0 < t.0 {
            out.push(Event::Watermark(self.l_wm));
        }
        self.r_wm = t;
        out
    }

    /// Close every window whose end is at or before `cut`, in creation order.
    fn close_due(&mut self, cut: Time) -> (out: Vec<Event<(L, R)>>)
        requires
            old(self).wf(),
        ensures
            final(self).wf(),
            final(self).length == old(self).length,
            final(self).l_wm == old(self).l_wm && final(self).r_wm == old(self).r_wm,
            final(self).l_done == old(self).l_done && final(self).r_done == old(self).r_done,
            final(self).model().panes == old(self).model().panes.filter(
                |p: JoinPaneModel<K, L, R>| pane_end(p.start, old(self).model().length) > cut.0,
            ),
            out@ == join_close_all(
                old(self).model().panes.filter(
                    |p: JoinPaneModel<K, L, R>| pane_end(p.start, old(self).model().length)
                        <= cut.0,
                ),
                old(self).model().length,
            ),
    {
        let ghost panes0 = self.model().panes;
        let ghost to_model = |p: JoinPane<K, L, R>| JoinPaneModel {
            start: p.start,
            lefts: p.lefts@,
            rights: p.rights@,
        };
        let ghost len0 = self.length;
        let ghost closed_pred = |p: JoinPaneModel<K, L, R>| pane_end(p.start, len0) <= cut.0;
        let ghost kept_pred = |p: JoinPaneModel<K, L, R>| pane_end(p.start, len0) > cut.0;
        let mut out: Vec<Event<(L, R)>> = Vec::new();
        let mut kept: Vec<JoinPane<K, L, R>> = Vec::new();
        let ghost mut n: int = 0;
        while self.panes.len() > 0
            invariant
                0 <= n <= panes0.len(),
                self.length == len0 && self.l_wm == old(self).l_wm && self.r_wm == old(
                    self,
                ).r_wm && self.l_done == old(self).l_done && self.r_done == old(self).r_done,
                len0.0 > 0,
                to_model == (|p: JoinPane<K, L, R>| JoinPaneModel {
                    start: p.start,
                    lefts: p.lefts@,
                    rights: p.rights@,
                }),
                self.panes@.map_values(to_model) =~= panes0.skip(n),
                closed_pred == (|p: JoinPaneModel<K, L, R>| pane_end(p.start, len0) <= cut.0),
                kept_pred == (|p: JoinPaneModel<K, L, R>| pane_end(p.start, len0) > cut.0),
                out@ =~= join_close_all(panes0.take(n).filter(closed_pred), len0),
                kept@.map_values(to_model) =~= panes0.take(n).filter(kept_pred),
            decreases self.panes.len(),
        {
            let ghost before = self.panes@;
            let p = self.panes.remove(0);
            let ghost pm = JoinPaneModel { start: p.start, lefts: p.lefts@, rights: p.rights@ };
            proof {
                assert(before.map_values(to_model).len() == before.len());
                assert(before.map_values(to_model)[0] == pm);
                assert(panes0.skip(n).len() == panes0.len() - n);
                assert(panes0.skip(n)[0] == panes0[n]);
                assert(pm == panes0[n]);
                assert(self.panes@ =~= before.drop_first());
                assert(self.panes@.map_values(to_model) =~= before.map_values(
                    to_model,
                ).drop_first());
                assert(panes0.take(n + 1).drop_last() =~= panes0.take(n));
                assert(panes0.take(n + 1) =~= panes0.take(n).push(pm));
                reveal_with_fuel(Seq::filter, 2);
            }
            let end = p.start.add_duration(self.length);
            if end.0 <= cut.0 {
                proof {
                    assert(panes0.take(n + 1).filter(closed_pred) =~= panes0.take(n).filter(
                        closed_pred,
                    ).push(pm));
                    assert(panes0.take(n + 1).filter(kept_pred) =~= panes0.take(n).filter(
                        kept_pred,
                    ));
                    assert(panes0.take(n).filter(closed_pred).push(pm) =~= panes0.take(n).filter(
                        closed_pred,
                    ) + seq![pm]);
                    lemma_join_close_all_add(panes0.take(n).filter(closed_pred), seq![pm], len0);
                    lemma_join_close_all_single(pm, len0);
                }
                Self::close_pane(&p, end, &mut out);
                proof {
                    assert(cross_join(pm.lefts, pm.rights).map_values(
                        |pr: (L, R)| Event::<(L, R)>::Data(end, pr),
                    ) =~= join_pane_events(pm, len0));
                }
            } else {
                proof {
                    assert(panes0.take(n + 1).filter(kept_pred) =~= panes0.take(n).filter(
                        kept_pred,
                    ).push(pm));
                    assert(panes0.take(n + 1).filter(closed_pred) =~= panes0.take(n).filter(
                        closed_pred,
                    ));
                }
                let ghost kept_before = kept@;
                kept.push(p);
                proof {
                    assert(kept@ =~= kept_before.push(p));
                    assert(kept@.map_values(to_model) =~= kept_before.map_values(to_model).push(
                        pm,
                    ));
                }
            }
            proof {
                assert(panes0.skip(n).drop_first() =~= panes0.skip(n + 1));
                n = n + 1;
            }
        }
        proof {
            assert(panes0.take(n) =~= panes0);
        }
        self.panes = kept;
        proof {
            assert(self.model().panes =~= self.panes@.map_values(to_model));
        }
        out
    }

    /// The left side closes; once both sides have, every remaining window is
    /// flushed and the sentinel goes out.
    pub fn on_sentinel_left(&mut self) -> (out: Vec<Event<(L, R)>>)
        requires
            old(self).wf(),
            !old(self).model().l_done,
        ensures
            final(self).wf(),
            final(self).length == old(self).length,
            final(self).l_wm == old(self).l_wm && final(self).r_wm == old(self).r_wm,
            final(self).l_done && final(self).r_done == old(self).r_done,
            old(self).r_done ==> final(self).model().panes =~= Seq::<
                JoinPaneModel<K, L, R>,
            >::empty() && out@ == join_close_all(old(self).model().panes, old(self).length) + seq![
                Event::<(L, R)>::Sentinel,
            ],
            !old(self).r_done ==> final(self).model().panes == old(self).model().panes && out@
                =~= Seq::<Event<(L, R)>>::empty(),
    {
        let mut out: Vec<Event<(L, R)>> = Vec::new();
        if self.r_done {
            out = self.flush_all();
            out.push(Event::Sentinel);
        }
        self.l_done = true;
        out
    }

    /// The right side closes; the mirror image.
    pub fn on_sentinel_right(&mut self) -> (out: Vec<Event<(L, R)>>)
        requires
            old(self).wf(),
            !old(self).model().r_done,
        ensures
            final(self).wf(),
            final(self).length == old(self).length,
            final(self).l_wm == old(self).l_wm && final(self).r_wm == old(self).r_wm,
            final(self).r_done && final(self).l_done == old(self).l_done,
            old(self).l_done ==> final(self).model().panes =~= Seq::<
                JoinPaneModel<K, L, R>,
            >::empty() && out@ == join_close_all(old(self).model().panes, old(self).length) + seq![
                Event::<(L, R)>::Sentinel,
            ],
            !old(self).l_done ==> final(self).model().panes == old(self).model().panes && out@
                =~= Seq::<Event<(L, R)>>::empty(),
    {
        let mut out: Vec<Event<(L, R)>> = Vec::new();
        if self.l_done {
            out = self.flush_all();
            out.push(Event::Sentinel);
        }
        self.r_done = true;
        out
    }

    /// Close every remaining window, in creation order.
    fn flush_all(&mut self) -> (out: Vec<Event<(L, R)>>)
        requires
            old(self).wf(),
        ensures
            final(self).wf(),
            final(self).length == old(self).length,
            final(self).l_wm == old(self).l_wm && final(self).r_wm == old(self).r_wm,
            final(self).l_done == old(self).l_done && final(self).r_done == old(self).r_done,
            final(self).model().panes =~= Seq::<JoinPaneModel<K, L, R>>::empty(),
            out@ == join_close_all(old(self).model().panes, old(self).length),
    {
        let ghost panes0 = self.model().panes;
        let ghost to_model = |p: JoinPane<K, L, R>| JoinPaneModel {
            start: p.start,
            lefts: p.lefts@,
            rights: p.rights@,
        };
        let ghost len0 = self.length;
        let mut out: Vec<Event<(L, R)>> = Vec::new();
        let ghost mut n: int = 0;
        while self.panes.len() > 0
            invariant
                0 <= n <= panes0.len(),
                self.length == len0 && self.l_wm == old(self).l_wm && self.r_wm == old(
                    self,
                ).r_wm && self.l_done == old(self).l_done && self.r_done == old(self).r_done,
                len0.0 > 0,
                to_model == (|p: JoinPane<K, L, R>| JoinPaneModel {
                    start: p.start,
                    lefts: p.lefts@,
                    rights: p.rights@,
                }),
                self.panes@.map_values(to_model) =~= panes0.skip(n),
                out@ =~= join_close_all(panes0.take(n), len0),
            decreases self.panes.len(),
        {
            let ghost before = self.panes@;
            let p = self.panes.remove(0);
            let ghost pm = JoinPaneModel { start: p.start, lefts: p.lefts@, rights: p.rights@ };
            proof {
                assert(before.map_values(to_model).len() == before.len());
                assert(before.map_values(to_model)[0] == pm);
                assert(panes0.skip(n).len() == panes0.len() - n);
                assert(panes0.skip(n)[0] == panes0[n]);
                assert(pm == panes0[n]);
                assert(self.panes@ =~= before.drop_first());
                assert(self.panes@.map_values(to_model) =~= before.map_values(
                    to_model,
                ).drop_first());
                assert(panes0.take(n + 1) =~= panes0.take(n).push(pm));
                assert(panes0.take(n).push(pm) =~= panes0.take(n) + seq![pm]);
                lemma_join_close_all_add(panes0.take(n), seq![pm], len0);
                lemma_join_close_all_single(pm, len0);
            }
            let end = p.start.add_duration(self.length);
            Self::close_pane(&p, end, &mut out);
            proof {
                assert(cross_join(pm.lefts, pm.rights).map_values(
                    |pr: (L, R)| Event::<(L, R)>::Data(end, pr),
                ) =~= join_pane_events(pm, len0));
                assert(panes0.skip(n).drop_first() =~= panes0.skip(n + 1));
                n = n + 1;
            }
        }
        proof {
            assert(panes0.take(n) =~= panes0);
            assert(self.model().panes =~= self.panes@.map_values(to_model));
        }
        out
    }

    /// Checkpoint barriers pass straight through, while the stream is open.
    pub fn on_snapshot(&self, id: usize) -> (out: Vec<Event<(L, R)>>)
        requires
            !(self.l_done && self.r_done),
        ensures
            out@ == seq![Event::<(L, R)>::Snapshot(id)],
    {
        let mut out: Vec<Event<(L, R)>> = Vec::new();
        out.push(Event::Snapshot(id));
        out
    }
}

/// Appending a left record extends the cross product by its pairs.
proof fn lemma_cross_join_push<K, L, R>(lefts: Seq<(K, L)>, x: (K, L), rights: Seq<(K, R)>)
    ensures
        cross_join(lefts.push(x), rights) == cross_join(lefts, rights) + pairs_for(
            x.0,
            x.1,
            rights,
        ),
    decreases lefts.len(),
{
    if lefts.len() == 0 {
        assert(lefts.push(x)[0] == x);
        assert(lefts.push(x).drop_first() =~= Seq::<(K, L)>::empty());
        assert(cross_join(lefts.push(x), rights) == pairs_for(x.0, x.1, rights) + cross_join(
            Seq::<(K, L)>::empty(),
            rights,
        ));
        assert(pairs_for(x.0, x.1, rights) + Seq::<(L, R)>::empty() =~= pairs_for(
            x.0,
            x.1,
            rights,
        ));
        assert(cross_join(lefts, rights) + pairs_for(x.0, x.1, rights) =~= pairs_for(
            x.0,
            x.1,
            rights,
        ));
    } else {
        assert(lefts.push(x)[0] == lefts[0]);
        assert(lefts.push(x).drop_first() =~= lefts.drop_first().push(x));
        lemma_cross_join_push(lefts.drop_first(), x, rights);
        assert(cross_join(lefts.push(x), rights) == pairs_for(lefts[0].0, lefts[0].1, rights)
            + cross_join(lefts.drop_first().push(x), rights));
        assert(pairs_for(lefts[0].0, lefts[0].1, rights) + (cross_join(lefts.drop_first(), rights)
            + pairs_for(x.0, x.1, rights)) =~= (pairs_for(lefts[0].0, lefts[0].1, rights)
            + cross_join(lefts.drop_first(), rights)) + pairs_for(x.0, x.1, rights));
    }
}

} // verus!
