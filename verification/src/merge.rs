//! Merge: the watermark-interleaved union of two streams.
//!
//! Data events pass straight through in arrival order; no reordering happens
//! across the two sources. Each side's watermark is tracked separately and a
//! watermark is forwarded only when it is provably a lower bound for both
//! sides, so the merged stream's watermark never overstates completeness. The
//! sentinel goes out once both sides have closed.
//!
//! The operator is a state machine: a driver that owns the two input channels
//! feeds `merge_step` whichever event is ready next, tagged with the side it
//! came from, and forwards the returned batch downstream.

use vstd::prelude::*;

use crate::event::Event;
use crate::event::lemma_nondecreasing_concat;
use crate::event::lemma_terminal_concat;
use crate::event::lemma_wm_times_add;
use crate::event::nondecreasing;
use crate::event::terminal_ok;
use crate::event::wm_times;
use crate::sorted::SortEntry;
use crate::sorted::entries_time_sorted;
use crate::sorted::entries_to_data;
use crate::sorted::heap_insert;
use crate::sorted::insert_entry;
use crate::sorted::lemma_heap_insert_props;
use crate::sorted::lemma_ready_prefix_pin;
use crate::sorted::ready_prefix_len;
use crate::time::Time;

verus! {

/// Which of an operator's two inputs an event arrived on.
#[derive(Debug, Clone, Copy, PartialEq, Eq, Structural)]
pub enum Side {
    Left,
    Right,
}

/// The merge operator's state: the latest watermark seen on each side, and
/// whether each side has delivered its sentinel.
#[derive(Debug, Clone, Copy, PartialEq, Eq, Structural)]
pub struct MergeState {
    pub l_wm: Time,
    pub r_wm: Time,
    pub l_done: bool,
    pub r_done: bool,
}

/// The smaller of the two tracked watermarks.
pub open spec fn merge_min(s: MergeState) -> int {
    if s.l_wm.0 <= s.r_wm.0 {
        s.l_wm.0 as int
    } else {
        s.r_wm.0 as int
    }
}

/// What a new watermark `t` on the side previously at `prev` makes the merge
/// emit, while the opposite side stands at `other`: `t` itself when it is a
/// new global low point, else the opposite side's watermark when that one had
/// not been announced yet and is now subsumed.
pub open spec fn merge_wm_out<T>(prev: Time, other: Time, t: Time) -> Seq<Event<T>> {
    if t.0 < other.0 {
        seq![Event::Watermark(t)]
    } else if prev.0 < other.0 && other.0 < t.0 {
        seq![Event::Watermark(other)]
    } else {
        Seq::empty()
    }
}

/// One transition of the merge operator: the state after the event, and the
/// events it emits, in order.
pub open spec fn merge_step_spec<T>(s: MergeState, side: Side, ev: Event<T>) -> (MergeState, Seq<
    Event<T>,
>) {
    match ev {
        Event::Data(t, v) => (s, seq![Event::Data(t, v)]),
        Event::Snapshot(i) => (s, seq![Event::Snapshot(i)]),
        Event::Watermark(t) => match side {
            Side::Left => (
                MergeState { l_wm: t, r_wm: s.r_wm, l_done: s.l_done, r_done: s.r_done },
                merge_wm_out(s.l_wm, s.r_wm, t),
            ),
            Side::Right => (
                MergeState { l_wm: s.l_wm, r_wm: t, l_done: s.l_done, r_done: s.r_done },
                merge_wm_out(s.r_wm, s.l_wm, t),
            ),
        },
        Event::Sentinel => match side {
            Side::Left => (
                MergeState { l_wm: s.l_wm, r_wm: s.r_wm, l_done: true, r_done: s.r_done },
                if s.r_done {
                    seq![Event::Sentinel]
                } else {
                    Seq::empty()
                },
            ),
            Side::Right => (
                MergeState { l_wm: s.l_wm, r_wm: s.r_wm, l_done: s.l_done, r_done: true },
                if s.l_done {
                    seq![Event::Sentinel]
                } else {
                    Seq::empty()
                },
            ),
        },
    }
}

impl MergeState {
    pub fn new() -> (r: MergeState)
        ensures
            r.l_wm.0 == 0 && r.r_wm.0 == 0 && !r.l_done && !r.r_done,
    {
        MergeState { l_wm: Time(0), r_wm: Time(0), l_done: false, r_done: false }
    }

    /// Both sides have closed; the sentinel has gone out and the driver stops.
    pub fn finished(&self) -> (r: bool)
        ensures
            r == (self.l_done && self.r_done),
    {
        self.l_done && self.r_done
    }
}

/// Feed one event from the given side through the merge.
///
/// Every watermark that comes out is at or below both sides' tracked
/// watermarks at the moment of emission: the merged watermark never
/// overstates completeness.
pub fn merge_step<T>(state: &mut MergeState, side: Side, event: Event<T>) -> (out: Vec<Event<T>>)
    requires
        side == Side::Left ==> !old(state).l_done,
        side == Side::Right ==> !old(state).r_done,
    ensures
        *final(state) == merge_step_spec(*old(state), side, event).0,
        out@ == merge_step_spec(*old(state), side, event).1,
        forall|i: int|
            0 <= i < out@.len() && out@[i] is Watermark ==> out@[i]->Watermark_0.0 as int
                <= merge_min(*final(state)),
{
    let mut out: Vec<Event<T>> = Vec::new();
    match event {
        Event::Data(t, v) => {
            out.push(Event::Data(t, v));
        },
        Event::Snapshot(i) => {
            out.push(Event::Snapshot(i));
        },
        Event::Watermark(t) => {
            let (prev, other) = match side {
                Side::Left => (state.l_wm, state.r_wm),
                Side::Right => (state.r_wm, state.l_wm),
            };
            if t.0 < other.0 {
                out.push(Event::Watermark(t));
            } else if prev.0 < other.0 && other.0 < t.0 {
                out.push(Event::Watermark(other));
            }
            match side {
                Side::Left => {
                    state.l_wm = t;
                },
                Side::Right => {
                    state.r_wm = t;
                },
            }
        },
        Event::Sentinel => {
            match side {
                Side::Left => {
                    if state.r_done {
                        out.push(Event::Sentinel);
                    }
                    state.l_done = true;
                },
                Side::Right => {
                    if state.l_done {
                        out.push(Event::Sentinel);
                    }
                    state.r_done = true;
                },
            }
        },
    }
    out
}

/// An interleaved input history for the merge, each event tagged with its
/// side, is admissible from state `s` when no side speaks after its sentinel
/// and each side's watermarks never decrease.
pub open spec fn merge_trace_ok<T>(s: MergeState, tr: Seq<(Side, Event<T>)>) -> bool
    decreases tr.len(),
{
    tr.len() == 0 || {
        let side = tr[0].0;
        let ev = tr[0].1;
        let ok_now = match side {
            Side::Left => !s.l_done && (ev is Watermark ==> s.l_wm.0 <= ev->Watermark_0.0),
            Side::Right => !s.r_done && (ev is Watermark ==> s.r_wm.0 <= ev->Watermark_0.0),
        };
        ok_now && merge_trace_ok(merge_step_spec(s, side, ev).0, tr.drop_first())
    }
}

/// Everything the merge emits over an admissible input history.
pub open spec fn merge_run<T>(s: MergeState, tr: Seq<(Side, Event<T>)>) -> Seq<Event<T>>
    decreases tr.len(),
{
    if tr.len() == 0 {
        Seq::empty()
    } else {
        let side = tr[0].0;
        let ev = tr[0].1;
        merge_step_spec(s, side, ev).1 + merge_run(
            merge_step_spec(s, side, ev).0,
            tr.drop_first(),
        )
    }
}

/// Watermark monotonicity of the merge: over any admissible input history,
/// the watermarks it emits form a non-decreasing sequence, and none of them
/// falls below the smaller of the two watermarks tracked at the start.
pub proof fn lemma_merge_watermarks_monotonic<T>(s: MergeState, tr: Seq<(Side, Event<T>)>)
    requires
        merge_trace_ok(s, tr),
    ensures
        nondecreasing(wm_times(merge_run(s, tr))),
        forall|i: int|
            0 <= i < wm_times(merge_run(s, tr)).len() ==> merge_min(s) <= wm_times(
                merge_run(s, tr),
            )[i],
    decreases tr.len(),
{
    if tr.len() == 0 {
    } else {
        let side = tr[0].0;
        let ev = tr[0].1;
        let s1 = merge_step_spec(s, side, ev).0;
        let out0 = merge_step_spec(s, side, ev).1;
        let rest = merge_run(s1, tr.drop_first());
        lemma_merge_watermarks_monotonic(s1, tr.drop_first());
        lemma_wm_times_add(out0, rest);
        assert(merge_min(s) <= merge_min(s1));
        assert(forall|i: int|
            0 <= i < wm_times(out0).len() ==> merge_min(s) <= #[trigger] wm_times(out0)[i]
                && wm_times(out0)[i] <= merge_min(s1)) by {
            reveal_with_fuel(wm_times, 2);
        }
        assert(nondecreasing(wm_times(out0))) by {
            reveal_with_fuel(wm_times, 2);
        }
        lemma_nondecreasing_concat(wm_times(out0), wm_times(rest), merge_min(s1));
        assert(wm_times(merge_run(s, tr)) == wm_times(out0) + wm_times(rest));
    }
}

/// Sentinel exactly-once-terminal for the merge: over any admissible input
/// history, no emitted event follows the sentinel.
pub proof fn lemma_merge_terminal<T>(s: MergeState, tr: Seq<(Side, Event<T>)>)
    requires
        merge_trace_ok(s, tr),
    ensures
        terminal_ok(merge_run(s, tr)),
    decreases tr.len(),
{
    if tr.len() == 0 {
    } else {
        let side = tr[0].0;
        let ev = tr[0].1;
        let s1 = merge_step_spec(s, side, ev).0;
        let out0 = merge_step_spec(s, side, ev).1;
        let rest = merge_run(s1, tr.drop_first());
        lemma_merge_terminal(s1, tr.drop_first());
        if ev is Sentinel && (s1.l_done && s1.r_done) {
            // The second sentinel: no admissible trace continues past it.
            assert(merge_trace_ok(s1, tr.drop_first()));
            if tr.drop_first().len() > 0 {
                assert(match tr.drop_first()[0].0 {
                    Side::Left => !s1.l_done,
                    Side::Right => !s1.r_done,
                });
            }
            assert(tr.drop_first().len() == 0);
            assert(merge_run(s, tr) =~= out0);
        } else {
            assert(forall|i: int| 0 <= i < out0.len() ==> !(out0[i] is Sentinel));
            lemma_terminal_concat(out0, rest);
        }
    }
}

/// The merged-and-reordered union of two streams, as the contracts see it:
/// the ordered buffer of records not yet released, the two sides' watermarks,
/// and which sides have closed.
#[verifier::ext_equal]
pub struct SortedMergeModel<T> {
    pub buf: Seq<SortEntry<T>>,
    pub l_wm: Time,
    pub r_wm: Time,
    pub l_done: bool,
    pub r_done: bool,
}

/// The smaller of the two tracked watermarks.
pub open spec fn sm_min<T>(m: SortedMergeModel<T>) -> Time {
    if m.l_wm.0 <= m.r_wm.0 {
        m.l_wm
    } else {
        m.r_wm
    }
}

/// One transition of the merge-and-sort operator. Every event first lands:
/// data goes into the ordered buffer, a watermark or sentinel updates its
/// side, a barrier is forwarded at once. Then every buffered record covered
/// by the joint watermark — all of them once both sides have closed — is
/// released in timestamp order; the joint watermark follows whenever the
/// later side has spoken; and the sentinel closes the stream once both sides
/// are done and the buffer has drained.
pub open spec fn sorted_merge_step_spec<T>(
    m: SortedMergeModel<T>,
    side: Side,
    ev: Event<T>,
) -> (SortedMergeModel<T>, Seq<Event<T>>) {
    let (m1, pre) = match ev {
        Event::Data(t, v) => (
            SortedMergeModel {
                buf: heap_insert(m.buf, SortEntry { time: t, value: v }),
                l_wm: m.l_wm,
                r_wm: m.r_wm,
                l_done: m.l_done,
                r_done: m.r_done,
            },
            Seq::<Event<T>>::empty(),
        ),
        Event::Watermark(t) => (
            match side {
                Side::Left => SortedMergeModel {
                    buf: m.buf,
                    l_wm: t,
                    r_wm: m.r_wm,
                    l_done: m.l_done,
                    r_done: m.r_done,
                },
                Side::Right => SortedMergeModel {
                    buf: m.buf,
                    l_wm: m.l_wm,
                    r_wm: t,
                    l_done: m.l_done,
                    r_done: m.r_done,
                },
            },
            Seq::<Event<T>>::empty(),
        ),
        Event::Snapshot(i) => (m, seq![Event::<T>::Snapshot(i)]),
        Event::Sentinel => (
            match side {
                Side::Left => SortedMergeModel {
                    buf: m.buf,
                    l_wm: m.l_wm,
                    r_wm: m.r_wm,
                    l_done: true,
                    r_done: m.r_done,
                },
                Side::Right => SortedMergeModel {
                    buf: m.buf,
                    l_wm: m.l_wm,
                    r_wm: m.r_wm,
                    l_done: m.l_done,
                    r_done: true,
                },
            },
            Seq::<Event<T>>::empty(),
        ),
    };
    let k = if m1.l_done && m1.r_done {
        m1.buf.len() as int
    } else {
        ready_prefix_len(m1.buf, sm_min(m1))
    };
    let released = entries_to_data(m1.buf.take(k));
    let wm_out = if m1.l_wm.0 <= m1.r_wm.0 && m1.r_wm.0 != 0 {
        seq![Event::<T>::Watermark(m1.l_wm)]
    } else if m1.r_wm.0 < m1.l_wm.0 && m1.l_wm.0 != 0 {
        seq![Event::<T>::Watermark(m1.r_wm)]
    } else {
        Seq::<Event<T>>::empty()
    };
    let fin = if m1.l_done && m1.r_done {
        seq![Event::<T>::Sentinel]
    } else {
        Seq::<Event<T>>::empty()
    };
    (
        SortedMergeModel {
            buf: m1.buf.skip(k),
            l_wm: m1.l_wm,
            r_wm: m1.r_wm,
            l_done: m1.l_done,
            r_done: m1.r_done,
        },
        pre + released + wm_out + fin,
    )
}

/// Merge two streams and re-establish timestamp order in one operator: an
/// ordered buffer over the merge's two watermarks, released up to the joint
/// watermark, which amortises better than a merge followed by a separate
/// reorder buffer under frequent small watermark advances.
pub struct SortedMergeState<T> {
    pub buffer: Vec<SortEntry<T>>,
    pub l_wm: Time,
    pub r_wm: Time,
    pub l_done: bool,
    pub r_done: bool,
}

impl<T> SortedMergeState<T> {
    pub open spec fn model(&self) -> SortedMergeModel<T> {
        SortedMergeModel {
            buf: self.buffer@,
            l_wm: self.l_wm,
            r_wm: self.r_wm,
            l_done: self.l_done,
            r_done: self.r_done,
        }
    }

    /// The released prefix is exactly the ready records only while the buffer
    /// stays ordered.
    pub open spec fn wf(&self) -> bool {
        entries_time_sorted(self.buffer@)
    }

    pub fn new() -> (r: SortedMergeState<T>)
        ensures
            r.wf(),
            r.model().buf =~= Seq::<SortEntry<T>>::empty(),
            r.model().l_wm.0 == 0 && r.model().r_wm.0 == 0,
            !r.model().l_done && !r.model().r_done,
    {
        SortedMergeState {
            buffer: Vec::new(),
            l_wm: Time(0),
            r_wm: Time(0),
            l_done: false,
            r_done: false,
        }
    }

    /// Both sides have closed and the buffer has drained.
    pub fn finished(&self) -> (r: bool)
        ensures
            r == (self.l_done && self.r_done && self.model().buf.len() == 0),
    {
        self.l_done && self.r_done && self.buffer.len() == 0
    }

    /// Feed one event from the given side through the operator.
    pub fn step(&mut self, side: Side, event: Event<T>) -> (out: Vec<Event<T>>)
        requires
            old(self).wf(),
            side == Side::Left ==> !old(self).l_done,
            side == Side::Right ==> !old(self).r_done,
        ensures
            final(self).wf(),
            final(self).model() == sorted_merge_step_spec(old(self).model(), side, event).0,
            out@ == sorted_merge_step_spec(old(self).model(), side, event).1,
    {
        let mut out: Vec<Event<T>> = Vec::new();
        match event {
            Event::Data(t, v) => {
                proof {
                    lemma_heap_insert_props(self.buffer@, SortEntry { time: t, value: v });
                }
                insert_entry(&mut self.buffer, SortEntry { time: t, value: v });
            },
            Event::Watermark(t) => {
                match side {
                    Side::Left => {
                        self.l_wm = t;
                    },
                    Side::Right => {
                        self.r_wm = t;
                    },
                }
            },
            Event::Snapshot(i) => {
                out.push(Event::Snapshot(i));
            },
            Event::Sentinel => {
                match side {
                    Side::Left => {
                        self.l_done = true;
                    },
                    Side::Right => {
                        self.r_done = true;
                    },
                }
            },
        }
        let ghost b1 = self.buffer@;
        let ghost lw = self.l_wm;
        let ghost rw = self.r_wm;
        let ghost ld = self.l_done;
        let ghost rd = self.r_done;
        let both_done = self.l_done && self.r_done;
        let mn = if self.l_wm.0 <= self.r_wm.0 {
            self.l_wm
        } else {
            self.r_wm
        };
        let ghost pre0 = out@;
        let ghost mut n: int = 0;
        while self.buffer.len() > 0 && (both_done || self.buffer[0].time.0 <= mn.0)
            invariant
                0 <= n <= b1.len(),
                self.buffer@ =~= b1.skip(n),
                self.l_wm == lw && self.r_wm == rw && self.l_done == ld && self.r_done == rd,
                both_done == (ld && rd),
                mn.0 == if lw.0 <= rw.0 {
                    lw.0
                } else {
                    rw.0
                },
                out@ =~= pre0 + entries_to_data(b1.take(n)),
                forall|j: int| 0 <= j < n ==> both_done || b1[j].time.0 <= mn.0,
                entries_time_sorted(self.buffer@),
            decreases self.buffer.len(),
        {
            let e = self.buffer.remove(0);
            out.push(Event::Data(e.time, e.value));
            proof {
                assert(e == b1[n]);
                assert(b1.skip(n).drop_first() =~= b1.skip(n + 1));
                assert(entries_to_data(b1.take(n + 1)) =~= entries_to_data(b1.take(n)).push(
                    Event::Data(e.time, e.value),
                ));
                n = n + 1;
            }
        }
        let ghost k = if ld && rd {
            b1.len() as int
        } else {
            ready_prefix_len(b1, mn)
        };
        proof {
            if ld && rd {
                assert(n == b1.len());
            } else {
                if n < b1.len() {
                    assert(b1[n] == b1.skip(n)[0]);
                }
                lemma_ready_prefix_pin(b1, mn, n);
            }
            assert(n == k);
        }
        if self.l_wm.0 <= self.r_wm.0 && self.r_wm.0 != 0 {
            out.push(Event::Watermark(self.l_wm));
        } else if self.r_wm.0 < self.l_wm.0 && self.l_wm.0 != 0 {
            out.push(Event::Watermark(self.r_wm));
        }
        if both_done {
            out.push(Event::Sentinel);
        }
        proof {
            let spec_out = sorted_merge_step_spec(old(self).model(), side, event).1;
            let m1 = SortedMergeModel { buf: b1, l_wm: lw, r_wm: rw, l_done: ld, r_done: rd };
            assert(sm_min(m1) == mn);
            assert(out@ =~= spec_out);
        }
        out
    }
}

} // verus!
