//! Reorder buffers: `sorted` and `sorted_heap`.
//!
//! Downstream algorithms often assume each stream delivers data in
//! non-decreasing timestamp order, which a merge of independent sources does
//! not guarantee. Both operators buffer every incoming data event; a watermark
//! `w` releases everything with timestamp at or below `w`, in timestamp order
//! (ties kept in arrival order), followed by the watermark itself; the
//! sentinel flushes whatever is left, in order, and closes the stream.
//!
//! Two implementations with the same observable behaviour: `SortedState`
//! keeps the buffer in arrival order and partitions and sorts it at each
//! watermark; `SortedHeapState` keeps the buffer ordered at all times and
//! incrementally pops every ready entry, which amortises better under
//! frequent small watermark advances.

use vstd::prelude::*;

use vstd::multiset::Multiset;

use crate::event::Event;
use crate::event::data_before_wm;
use crate::event::data_sorted;
use crate::event::lemma_data_before_wm_concat;
use crate::event::lemma_data_sorted_concat;
use crate::event::lemma_nondecreasing_concat;
use crate::event::lemma_terminal_concat;
use crate::event::lemma_wm_times_add;
use crate::event::nondecreasing;
use crate::event::terminal_ok;
use crate::event::wm_times;
use crate::time::Time;

verus! {

/// One buffered data event.
#[derive(Debug)]
pub struct SortEntry<T> {
    pub time: Time,
    pub value: T,
}

/// Timestamps never decrease along the buffer.
pub open spec fn entries_time_sorted<T>(s: Seq<SortEntry<T>>) -> bool {
    forall|i: int, j: int| 0 <= i <= j < s.len() ==> s[i].time.0 <= s[j].time.0
}

/// Insert `e` behind every entry whose timestamp is at or below its own, so
/// that ties keep arrival order.
pub open spec fn heap_insert<T>(s: Seq<SortEntry<T>>, e: SortEntry<T>) -> Seq<SortEntry<T>>
    decreases s.len(),
{
    if s.len() == 0 {
        seq![e]
    } else if s[0].time.0 <= e.time.0 {
        seq![s[0]] + heap_insert(s.drop_first(), e)
    } else {
        seq![e] + s
    }
}

/// Sort a buffer by repeated ordered insertion, in arrival order: the result
/// is the stable timestamp ordering of `s`.
pub open spec fn insort<T>(s: Seq<SortEntry<T>>) -> Seq<SortEntry<T>>
    decreases s.len(),
{
    if s.len() == 0 {
        Seq::empty()
    } else {
        heap_insert(insort(s.drop_last()), s.last())
    }
}

/// How many entries at the front of the buffer are ready at watermark `w`.
pub open spec fn ready_prefix_len<T>(s: Seq<SortEntry<T>>, w: Time) -> int
    decreases s.len(),
{
    if s.len() == 0 {
        0
    } else if s[0].time.0 <= w.0 {
        1 + ready_prefix_len(s.drop_first(), w)
    } else {
        0
    }
}

/// The buffered entries as the data events they will be released as.
pub open spec fn entries_to_data<T>(s: Seq<SortEntry<T>>) -> Seq<Event<T>> {
    s.map_values(|e: SortEntry<T>| Event::Data(e.time, e.value))
}

/// The multiset of a one-entry sequence.
proof fn lemma_singleton_multiset<A>(e: A)
    ensures
        seq![e].to_multiset() =~= Multiset::empty().insert(e),
        Seq::<A>::empty().to_multiset() =~= Multiset::empty(),
{
    broadcast use vstd::seq_lib::group_to_multiset_ensures;

    assert(Seq::<A>::empty().to_multiset() =~= Multiset::empty()) by {
        assert forall|x: A| Seq::<A>::empty().to_multiset().count(x) == 0 by {
            assert(!Seq::<A>::empty().contains(x));
        }
    }
    assert(seq![e] =~= Seq::<A>::empty().push(e));
}

/// Inserting touches nothing but the new entry: the result holds exactly the
/// old entries and `e`, and stays sorted.
pub proof fn lemma_heap_insert_props<T>(s: Seq<SortEntry<T>>, e: SortEntry<T>)
    requires
        entries_time_sorted(s),
    ensures
        entries_time_sorted(heap_insert(s, e)),
        heap_insert(s, e).len() == s.len() + 1,
        forall|x: SortEntry<T>| #[trigger]
            heap_insert(s, e).contains(x) <==> s.contains(x) || x == e,
        heap_insert(s, e).to_multiset() == s.to_multiset().insert(e),
    decreases s.len(),
{
    broadcast use vstd::seq_lib::group_to_multiset_ensures;

    if s.len() == 0 {
        assert(heap_insert(s, e) =~= seq![e]);
        lemma_singleton_multiset(e);
        assert(s.to_multiset() =~= Multiset::empty());
        assert forall|x: SortEntry<T>| #[trigger]
            heap_insert(s, e).contains(x) <==> s.contains(x) || x == e by {
            assert(seq![e][0] == e);
            if heap_insert(s, e).contains(x) {
                let q = choose|q: int| 0 <= q < seq![e].len() && seq![e][q] == x;
                assert(x == e);
            }
        }
    } else if s[0].time.0 <= e.time.0 {
        let rest = heap_insert(s.drop_first(), e);
        assert(forall|i: int, j: int|
            0 <= i <= j < s.drop_first().len() ==> s.drop_first()[i].time.0
                <= s.drop_first()[j].time.0);
        lemma_heap_insert_props(s.drop_first(), e);
        let whole = seq![s[0]] + rest;
        assert(heap_insert(s, e) == whole);
        assert forall|i: int, j: int| 0 <= i <= j < whole.len() implies whole[i].time.0
            <= whole[j].time.0 by {
            if i == 0 && j > 0 {
                let x = rest[j - 1];
                assert(rest.contains(x));
                if s.drop_first().contains(x) {
                    let q = choose|q: int|
                        0 <= q < s.drop_first().len() && s.drop_first()[q] == x;
                    assert(s[0].time.0 <= s[q + 1].time.0);
                } else {
                    assert(x == e);
                }
            }
        }
        assert forall|x: SortEntry<T>| #[trigger]
            whole.contains(x) <==> s.contains(x) || x == e by {
            if whole.contains(x) {
                let q = choose|q: int| 0 <= q < whole.len() && whole[q] == x;
                if q == 0 {
                    assert(s[0] == x);
                } else {
                    assert(rest.contains(x));
                    if s.drop_first().contains(x) {
                        let p = choose|p: int|
                            0 <= p < s.drop_first().len() && s.drop_first()[p] == x;
                        assert(s[p + 1] == x);
                    }
                }
            }
            if s.contains(x) {
                let q = choose|q: int| 0 <= q < s.len() && s[q] == x;
                if q == 0 {
                    assert(whole[0] == x);
                } else {
                    assert(s.drop_first()[q - 1] == x);
                    assert(s.drop_first().contains(x));
                    assert(rest.contains(x));
                    let p = choose|p: int| 0 <= p < rest.len() && rest[p] == x;
                    assert(whole[p + 1] == x);
                }
            }
            if x == e {
                assert(rest.contains(x));
                let p = choose|p: int| 0 <= p < rest.len() && rest[p] == x;
                assert(whole[p + 1] == x);
            }
        }
        assert(s =~= seq![s[0]] + s.drop_first());
        assert(whole.to_multiset() == s.to_multiset().insert(e)) by {
            vstd::seq_lib::lemma_multiset_commutative(seq![s[0]], rest);
            vstd::seq_lib::lemma_multiset_commutative(seq![s[0]], s.drop_first());
            assert(rest.to_multiset() == s.drop_first().to_multiset().insert(e));
            assert(seq![s[0]].to_multiset().add(s.drop_first().to_multiset().insert(e))
                =~= seq![s[0]].to_multiset().add(s.drop_first().to_multiset()).insert(e));
        }
    } else {
        let whole = seq![e] + s;
        assert(heap_insert(s, e) == whole);
        assert(forall|j: int| 0 < j < whole.len() ==> whole[j] == s[j - 1]);
        assert forall|x: SortEntry<T>| #[trigger]
            whole.contains(x) <==> s.contains(x) || x == e by {
            assert(whole[0] == e);
            if whole.contains(x) {
                let q = choose|q: int| 0 <= q < whole.len() && whole[q] == x;
                if q > 0 {
                    assert(s[q - 1] == x);
                }
            }
            if s.contains(x) {
                let q = choose|q: int| 0 <= q < s.len() && s[q] == x;
                assert(whole[q + 1] == x);
            }
        }
        assert(whole.to_multiset() == s.to_multiset().insert(e)) by {
            vstd::seq_lib::lemma_multiset_commutative(seq![e], s);
            lemma_singleton_multiset(e);
            assert(Multiset::empty().insert(e).add(s.to_multiset()) =~= s.to_multiset().insert(
                e,
            ));
        }
    }
}

/// Walking past a prefix that the new entry belongs behind leaves the insert
/// of the remainder.
pub proof fn lemma_heap_insert_skip<T>(s: Seq<SortEntry<T>>, e: SortEntry<T>, i: int)
    requires
        0 <= i <= s.len(),
        forall|j: int| 0 <= j < i ==> s[j].time.0 <= e.time.0,
    ensures
        heap_insert(s, e) == s.take(i) + heap_insert(s.skip(i), e),
    decreases i,
{
    if i == 0 {
        assert(s.take(0) =~= Seq::empty());
        assert(s.skip(0) =~= s);
        assert(s.take(0) + heap_insert(s.skip(0), e) =~= heap_insert(s, e));
    } else {
        assert(s[0].time.0 <= e.time.0);
        lemma_heap_insert_skip(s.drop_first(), e, i - 1);
        assert(s.drop_first().take(i - 1) =~= s.take(i).drop_first());
        assert(s.drop_first().skip(i - 1) =~= s.skip(i));
        assert(seq![s[0]] + (s.drop_first().take(i - 1) + heap_insert(s.skip(i), e)) =~= s.take(
            i,
        ) + heap_insert(s.skip(i), e));
    }
}

/// A front segment that is ready, stopped by an entry that is not, is exactly
/// the ready prefix.
pub proof fn lemma_ready_prefix_pin<T>(s: Seq<SortEntry<T>>, w: Time, n: int)
    requires
        0 <= n <= s.len(),
        forall|j: int| 0 <= j < n ==> s[j].time.0 <= w.0,
        n < s.len() ==> s[n].time.0 > w.0,
    ensures
        ready_prefix_len(s, w) == n,
    decreases n,
{
    if n == 0 {
    } else {
        assert(s[0].time.0 <= w.0);
        lemma_ready_prefix_pin(s.drop_first(), w, n - 1);
    }
}

/// Everything in the ready prefix is ready.
pub proof fn lemma_ready_prefix_props<T>(s: Seq<SortEntry<T>>, w: Time)
    ensures
        0 <= ready_prefix_len(s, w) <= s.len(),
        forall|j: int| 0 <= j < ready_prefix_len(s, w) ==> s[j].time.0 <= w.0,
        ready_prefix_len(s, w) < s.len() ==> s[ready_prefix_len(s, w)].time.0 > w.0,
    decreases s.len(),
{
    if s.len() == 0 {
    } else if s[0].time.0 <= w.0 {
        lemma_ready_prefix_props(s.drop_first(), w);
        assert forall|j: int| 0 <= j < ready_prefix_len(s, w) implies s[j].time.0 <= w.0 by {
            if j > 0 {
                assert(s.drop_first()[j - 1].time.0 <= w.0);
            }
        }
    }
}

/// Put `e` into its place in an ordered buffer.
pub(crate) fn insert_entry<T>(buffer: &mut Vec<SortEntry<T>>, e: SortEntry<T>)
    ensures
        final(buffer)@ == heap_insert(old(buffer)@, e),
{
    let mut idx: usize = 0;
    while idx < buffer.len() && buffer[idx].time.0 <= e.time.0
        invariant
            0 <= idx <= buffer.len(),
            forall|j: int| 0 <= j < idx ==> buffer@[j].time.0 <= e.time.0,
        decreases buffer.len() - idx,
    {
        idx = idx + 1;
    }
    proof {
        lemma_heap_insert_skip(buffer@, e, idx as int);
        if idx < buffer@.len() {
            assert(heap_insert(buffer@.skip(idx as int), e) =~= seq![e] + buffer@.skip(
                idx as int,
            ));
        } else {
            assert(buffer@.skip(idx as int) =~= Seq::empty());
            assert(heap_insert(buffer@.skip(idx as int), e) =~= seq![e]);
        }
        assert(heap_insert(buffer@, e) =~= buffer@.insert(idx as int, e));
    }
    buffer.insert(idx, e);
}

/// What the contracts see of a reorder operator: the buffered entries, the
/// last watermark forwarded, and whether the sentinel has gone out.
#[verifier::ext_equal]
pub struct SortedModel<T> {
    pub buf: Seq<SortEntry<T>>,
    pub wm: Time,
    pub done: bool,
}

/// One transition of the incremental variant: data is placed into the ordered
/// buffer; a watermark pops every ready entry off the front, then follows
/// them; the sentinel flushes the whole buffer.
pub open spec fn sorted_heap_step_spec<T>(m: SortedModel<T>, ev: Event<T>) -> (SortedModel<T>, Seq<
    Event<T>,
>) {
    match ev {
        Event::Data(t, v) => (
            SortedModel {
                buf: heap_insert(m.buf, SortEntry { time: t, value: v }),
                wm: m.wm,
                done: m.done,
            },
            Seq::empty(),
        ),
        Event::Watermark(w) => {
            let k = ready_prefix_len(m.buf, w);
            (
                SortedModel { buf: m.buf.skip(k), wm: w, done: m.done },
                entries_to_data(m.buf.take(k)) + seq![Event::Watermark(w)],
            )
        },
        Event::Snapshot(i) => (m, seq![Event::Snapshot(i)]),
        Event::Sentinel => (
            SortedModel { buf: Seq::empty(), wm: m.wm, done: true },
            entries_to_data(m.buf) + seq![Event::Sentinel],
        ),
    }
}

/// One transition of the buffer-and-partition variant: data is appended in
/// arrival order; a watermark splits the buffer into ready and pending, sorts
/// the ready part, and releases it; the sentinel sorts and flushes everything.
pub open spec fn sorted_step_spec<T>(m: SortedModel<T>, ev: Event<T>) -> (SortedModel<T>, Seq<
    Event<T>,
>) {
    match ev {
        Event::Data(t, v) => (
            SortedModel {
                buf: m.buf.push(SortEntry { time: t, value: v }),
                wm: m.wm,
                done: m.done,
            },
            Seq::empty(),
        ),
        Event::Watermark(w) => (
            SortedModel {
                buf: m.buf.filter(|e: SortEntry<T>| e.time.0 > w.0),
                wm: w,
                done: m.done,
            },
            entries_to_data(insort(m.buf.filter(|e: SortEntry<T>| e.time.0 <= w.0))) + seq![
                Event::Watermark(w),
            ],
        ),
        Event::Snapshot(i) => (m, seq![Event::Snapshot(i)]),
        Event::Sentinel => (
            SortedModel { buf: Seq::empty(), wm: m.wm, done: true },
            entries_to_data(insort(m.buf)) + seq![Event::Sentinel],
        ),
    }
}

/// The reorder buffer that stays ordered at all times.
pub struct SortedHeapState<T> {
    pub buffer: Vec<SortEntry<T>>,
    pub wm: Time,
    pub done: bool,
}

/// The reorder buffer kept in arrival order and sorted at each flush.
pub struct SortedState<T> {
    pub buffer: Vec<SortEntry<T>>,
    pub wm: Time,
    pub done: bool,
}

impl<T> SortedHeapState<T> {
    pub open spec fn model(&self) -> SortedModel<T> {
        SortedModel { buf: self.buffer@, wm: self.wm, done: self.done }
    }

    pub fn new() -> (r: SortedHeapState<T>)
        ensures
            r.model().buf.len() == 0 && r.model().wm.0 == 0 && !r.model().done,
    {
        SortedHeapState { buffer: Vec::new(), wm: Time(0), done: false }
    }

    /// Feed one event through the incremental reorder buffer.
    pub fn step(&mut self, ev: Event<T>) -> (out: Vec<Event<T>>)
        requires
            !old(self).model().done,
        ensures
            final(self).model() == sorted_heap_step_spec(old(self).model(), ev).0,
            out@ == sorted_heap_step_spec(old(self).model(), ev).1,
    {
        let mut out: Vec<Event<T>> = Vec::new();
        match ev {
            Event::Data(t, v) => {
                insert_entry(&mut self.buffer, SortEntry { time: t, value: v });
            },
            Event::Watermark(w) => {
                let ghost b0 = self.buffer@;
                let ghost wm0 = self.wm;
                let ghost done0 = self.done;
                let ghost mut n: int = 0;
                while self.buffer.len() > 0 && self.buffer[0].time.0 <= w.0
                    invariant
                        0 <= n <= b0.len(),
                        self.buffer@ =~= b0.skip(n),
                        self.wm == wm0 && self.done == done0,
                        out@ =~= entries_to_data(b0.take(n)),
                        forall|j: int| 0 <= j < n ==> b0[j].time.0 <= w.0,
                    decreases self.buffer.len(),
                {
                    let e = self.buffer.remove(0);
                    out.push(Event::Data(e.time, e.value));
                    proof {
                        assert(e == b0[n]);
                        assert(b0.skip(n).drop_first() =~= b0.skip(n + 1));
                        assert(entries_to_data(b0.take(n + 1)) =~= entries_to_data(
                            b0.take(n),
                        ).push(Event::Data(e.time, e.value)));
                        n = n + 1;
                    }
                }
                proof {
                    if n < b0.len() {
                        assert(b0[n] == b0.skip(n)[0]);
                    }
                    lemma_ready_prefix_pin(b0, w, n);
                }
                out.push(Event::Watermark(w));
                self.wm = w;
                proof {
                    assert(out@ =~= entries_to_data(b0.take(ready_prefix_len(b0, w))) + seq![
                        Event::Watermark(w),
                    ]);
                }
            },
            Event::Snapshot(i) => {
                out.push(Event::Snapshot(i));
            },
            Event::Sentinel => {
                let ghost b0 = self.buffer@;
                let ghost wm0 = self.wm;
                let ghost done0 = self.done;
                let ghost mut n: int = 0;
                while self.buffer.len() > 0
                    invariant
                        0 <= n <= b0.len(),
                        self.buffer@ =~= b0.skip(n),
                        self.wm == wm0 && self.done == done0,
                        out@ =~= entries_to_data(b0.take(n)),
                    decreases self.buffer.len(),
                {
                    let e = self.buffer.remove(0);
                    out.push(Event::Data(e.time, e.value));
                    proof {
                        assert(e == b0[n]);
                        assert(b0.skip(n).drop_first() =~= b0.skip(n + 1));
                        assert(entries_to_data(b0.take(n + 1)) =~= entries_to_data(
                            b0.take(n),
                        ).push(Event::Data(e.time, e.value)));
                        n = n + 1;
                    }
                }
                proof {
                    assert(b0.take(n) =~= b0);
                }
                out.push(Event::Sentinel);
                self.done = true;
                proof {
                    assert(out@ =~= entries_to_data(b0) + seq![Event::Sentinel]);
                }
            },
        }
        out
    }
}

impl<T> SortedState<T> {
    pub open spec fn model(&self) -> SortedModel<T> {
        SortedModel { buf: self.buffer@, wm: self.wm, done: self.done }
    }

    pub fn new() -> (r: SortedState<T>)
        ensures
            r.model().buf.len() == 0 && r.model().wm.0 == 0 && !r.model().done,
    {
        SortedState { buffer: Vec::new(), wm: Time(0), done: false }
    }

    /// Feed one event through the buffer-and-partition reorder operator.
    pub fn step(&mut self, ev: Event<T>) -> (out: Vec<Event<T>>)
        requires
            !old(self).model().done,
        ensures
            final(self).model() == sorted_step_spec(old(self).model(), ev).0,
            out@ == sorted_step_spec(old(self).model(), ev).1,
    {
        let mut out: Vec<Event<T>> = Vec::new();
        match ev {
            Event::Data(t, v) => {
                self.buffer.push(SortEntry { time: t, value: v });
            },
            Event::Watermark(w) => {
                let ghost b0 = self.buffer@;
                let ghost ready_pred = |e: SortEntry<T>| e.time.0 <= w.0;
                let ghost pending_pred = |e: SortEntry<T>| e.time.0 > w.0;
                let ghost wm0 = self.wm;
                let ghost done0 = self.done;
                let mut ready: Vec<SortEntry<T>> = Vec::new();
                let mut pending: Vec<SortEntry<T>> = Vec::new();
                let ghost mut n: int = 0;
                while self.buffer.len() > 0
                    invariant
                        0 <= n <= b0.len(),
                        self.buffer@ =~= b0.skip(n),
                        self.wm == wm0 && self.done == done0,
                        ready@ =~= insort(b0.take(n).filter(ready_pred)),
                        pending@ =~= b0.take(n).filter(pending_pred),
                        ready_pred == (|e: SortEntry<T>| e.time.0 <= w.0),
                        pending_pred == (|e: SortEntry<T>| e.time.0 > w.0),
                    decreases self.buffer.len(),
                {
                    let e = self.buffer.remove(0);
                    proof {
                        assert(e == b0[n]);
                        assert(b0.skip(n).drop_first() =~= b0.skip(n + 1));
                        assert(b0.take(n + 1).drop_last() =~= b0.take(n));
                        assert(b0.take(n + 1) =~= b0.take(n).push(b0[n]));
                        reveal_with_fuel(Seq::filter, 2);
                    }
                    if e.time.0 <= w.0 {
                        proof {
                            assert(b0.take(n + 1).filter(ready_pred) =~= b0.take(n).filter(
                                ready_pred,
                            ).push(e));
                            assert(b0.take(n + 1).filter(ready_pred).drop_last() =~= b0.take(
                                n,
                            ).filter(ready_pred));
                            assert(b0.take(n + 1).filter(pending_pred) =~= b0.take(n).filter(
                                pending_pred,
                            ));
                        }
                        insert_entry(&mut ready, e);
                    } else {
                        proof {
                            assert(b0.take(n + 1).filter(pending_pred) =~= b0.take(n).filter(
                                pending_pred,
                            ).push(e));
                            assert(b0.take(n + 1).filter(ready_pred) =~= b0.take(n).filter(
                                ready_pred,
                            ));
                        }
                        pending.push(e);
                    }
                    proof {
                        n = n + 1;
                    }
                }
                proof {
                    assert(b0.take(n) =~= b0);
                }
                let ghost sorted_ready = ready@;
                let ghost mut i: int = 0;
                while ready.len() > 0
                    invariant
                        0 <= i <= sorted_ready.len(),
                        ready@ =~= sorted_ready.skip(i),
                        out@ =~= entries_to_data(sorted_ready.take(i)),
                    decreases ready.len(),
                {
                    let e = ready.remove(0);
                    out.push(Event::Data(e.time, e.value));
                    proof {
                        assert(e == sorted_ready[i]);
                        assert(sorted_ready.skip(i).drop_first() =~= sorted_ready.skip(i + 1));
                        assert(entries_to_data(sorted_ready.take(i + 1)) =~= entries_to_data(
                            sorted_ready.take(i),
                        ).push(Event::Data(e.time, e.value)));
                        i = i + 1;
                    }
                }
                proof {
                    assert(sorted_ready.take(i) =~= sorted_ready);
                }
                out.push(Event::Watermark(w));
                self.buffer = pending;
                self.wm = w;
                proof {
                    assert(out@ =~= entries_to_data(insort(b0.filter(ready_pred))) + seq![
                        Event::Watermark(w),
                    ]);
                }
            },
            Event::Snapshot(i) => {
                out.push(Event::Snapshot(i));
            },
            Event::Sentinel => {
                let ghost b0 = self.buffer@;
                let ghost wm0 = self.wm;
                let ghost done0 = self.done;
                let mut sorted_all: Vec<SortEntry<T>> = Vec::new();
                let ghost mut n: int = 0;
                while self.buffer.len() > 0
                    invariant
                        0 <= n <= b0.len(),
                        self.buffer@ =~= b0.skip(n),
                        self.wm == wm0 && self.done == done0,
                        sorted_all@ =~= insort(b0.take(n)),
                    decreases self.buffer.len(),
                {
                    let e = self.buffer.remove(0);
                    proof {
                        assert(e == b0[n]);
                        assert(b0.skip(n).drop_first() =~= b0.skip(n + 1));
                        assert(b0.take(n + 1).drop_last() =~= b0.take(n));
                    }
                    insert_entry(&mut sorted_all, e);
                    proof {
                        n = n + 1;
                    }
                }
                proof {
                    assert(b0.take(n) =~= b0);
                }
                let ghost sorted_ready = sorted_all@;
                let ghost mut i: int = 0;
                while sorted_all.len() > 0
                    invariant
                        0 <= i <= sorted_ready.len(),
                        sorted_all@ =~= sorted_ready.skip(i),
                        out@ =~= entries_to_data(sorted_ready.take(i)),
                    decreases sorted_all.len(),
                {
                    let e = sorted_all.remove(0);
                    out.push(Event::Data(e.time, e.value));
                    proof {
                        assert(e == sorted_ready[i]);
                        assert(sorted_ready.skip(i).drop_first() =~= sorted_ready.skip(i + 1));
                        assert(entries_to_data(sorted_ready.take(i + 1)) =~= entries_to_data(
                            sorted_ready.take(i),
                        ).push(Event::Data(e.time, e.value)));
                        i = i + 1;
                    }
                }
                proof {
                    assert(sorted_ready.take(i) =~= sorted_ready);
                }
                out.push(Event::Sentinel);
                self.done = true;
                proof {
                    assert(out@ =~= entries_to_data(insort(b0)) + seq![Event::Sentinel]);
                }
            },
        }
        out
    }
}

/// Sorting a buffer keeps exactly its entries, in timestamp order.
pub proof fn lemma_insort_props<T>(s: Seq<SortEntry<T>>)
    ensures
        entries_time_sorted(insort(s)),
        insort(s).len() == s.len(),
        forall|x: SortEntry<T>| #[trigger] insort(s).contains(x) <==> s.contains(x),
        insort(s).to_multiset() == s.to_multiset(),
    decreases s.len(),
{
    broadcast use vstd::seq_lib::group_to_multiset_ensures;

    if s.len() == 0 {
    } else {
        lemma_insort_props(s.drop_last());
        lemma_heap_insert_props(insort(s.drop_last()), s.last());
        assert(s =~= s.drop_last().push(s.last()));
        assert forall|x: SortEntry<T>| #[trigger] insort(s).contains(x) <==> s.contains(x) by {
            if insort(s).contains(x) {
                if s.drop_last().contains(x) {
                    let q = choose|q: int| 0 <= q < s.drop_last().len() && s.drop_last()[q] == x;
                    assert(s[q] == x);
                } else {
                    assert(s[s.len() - 1] == x);
                }
            }
            if s.contains(x) {
                let q = choose|q: int| 0 <= q < s.len() && s[q] == x;
                if q < s.len() - 1 {
                    assert(s.drop_last()[q] == x);
                    assert(s.drop_last().contains(x));
                }
            }
        }
    }
}

/// Whatever the filter keeps was already in the sequence.
pub proof fn lemma_filter_subset<A>(s: Seq<A>, p: spec_fn(A) -> bool, x: A)
    requires
        s.filter(p).contains(x),
    ensures
        s.contains(x),
    decreases s.len(),
{
    reveal(Seq::filter);
    if s.len() > 0 {
        if s.drop_last().filter(p).contains(x) {
            lemma_filter_subset(s.drop_last(), p, x);
            let q = choose|q: int| 0 <= q < s.drop_last().len() && s.drop_last()[q] == x;
            assert(s[q] == x);
        } else {
            assert(x == s.last());
            assert(s[s.len() - 1] == x);
        }
    }
}

/// Inputs a reorder buffer can be fed from state `m`: nothing after the
/// sentinel, and on-time data and watermarks relative to the watermark last
/// forwarded — the contract the upstream source establishes by dropping late
/// records.
pub open spec fn sorted_trace_ok<T>(
    m: SortedModel<T>,
    tr: Seq<Event<T>>,
    stepf: spec_fn(SortedModel<T>, Event<T>) -> (SortedModel<T>, Seq<Event<T>>),
) -> bool
    decreases tr.len(),
{
    tr.len() == 0 || {
        let ev = tr[0];
        let ok = !m.done && (ev is Data ==> m.wm.0 <= ev->Data_0.0) && (ev is Watermark
            ==> m.wm.0 <= ev->Watermark_0.0);
        ok && sorted_trace_ok(stepf(m, ev).0, tr.drop_first(), stepf)
    }
}

/// Everything a reorder buffer emits over an input history.
pub open spec fn sorted_run<T>(
    m: SortedModel<T>,
    tr: Seq<Event<T>>,
    stepf: spec_fn(SortedModel<T>, Event<T>) -> (SortedModel<T>, Seq<Event<T>>),
) -> Seq<Event<T>>
    decreases tr.len(),
{
    if tr.len() == 0 {
        Seq::empty()
    } else {
        stepf(m, tr[0]).1 + sorted_run(stepf(m, tr[0]).0, tr.drop_first(), stepf)
    }
}

/// The incremental variant's invariant: the buffer is ordered and holds
/// nothing from before the watermark already forwarded.
pub open spec fn sorted_heap_wf<T>(m: SortedModel<T>) -> bool {
    entries_time_sorted(m.buf) && (forall|i: int|
        0 <= i < m.buf.len() ==> m.wm.0 <= m.buf[i].time.0)
}

/// The partitioning variant's invariant: the buffer (kept in arrival order)
/// holds nothing from before the watermark already forwarded.
pub open spec fn sorted_wf<T>(m: SortedModel<T>) -> bool {
    forall|i: int| 0 <= i < m.buf.len() ==> m.wm.0 <= m.buf[i].time.0
}

/// The ordering laws of the incremental reorder buffer, over any admissible
/// input history: adjacent data events come out in non-decreasing timestamp
/// order; every data event emitted before a watermark is at or below it; the
/// emitted watermarks never decrease; and nothing follows the sentinel.
pub proof fn lemma_sorted_heap_ordering<T>(m: SortedModel<T>, tr: Seq<Event<T>>)
    requires
        sorted_heap_wf(m),
        sorted_trace_ok(m, tr, |m2: SortedModel<T>, ev: Event<T>| sorted_heap_step_spec(m2, ev)),
    ensures
        ({
            let run = sorted_run(
                m,
                tr,
                |m2: SortedModel<T>, ev: Event<T>| sorted_heap_step_spec(m2, ev),
            );
            &&& data_sorted(run)
            &&& data_before_wm(run)
            &&& nondecreasing(wm_times(run))
            &&& terminal_ok(run)
            &&& forall|i: int|
                0 <= i < run.len() && run[i] is Data ==> m.wm.0 <= run[i]->Data_0.0
            &&& forall|i: int|
                0 <= i < run.len() && run[i] is Watermark ==> m.wm.0 <= run[i]->Watermark_0.0
        }),
    decreases tr.len(),
{
    let stepf = |m2: SortedModel<T>, ev: Event<T>| sorted_heap_step_spec(m2, ev);
    let run = sorted_run(m, tr, stepf);
    if tr.len() == 0 {
    } else {
        let ev = tr[0];
        let m1 = sorted_heap_step_spec(m, ev).0;
        let out0 = sorted_heap_step_spec(m, ev).1;
        let rest = sorted_run(m1, tr.drop_first(), stepf);
        assert(run == out0 + rest);
        match ev {
            Event::Data(t, v) => {
                let e = SortEntry { time: t, value: v };
                lemma_heap_insert_props(m.buf, e);
                assert forall|i: int| 0 <= i < m1.buf.len() implies m.wm.0
                    <= m1.buf[i].time.0 by {
                    assert(m1.buf.contains(m1.buf[i]));
                    if m.buf.contains(m1.buf[i]) {
                        let q = choose|q: int| 0 <= q < m.buf.len() && m.buf[q] == m1.buf[i];
                    }
                }
                lemma_sorted_heap_ordering(m1, tr.drop_first());
                assert(run =~= rest);
            },
            Event::Watermark(w) => {
                let k = ready_prefix_len(m.buf, w);
                lemma_ready_prefix_props(m.buf, w);
                let released = entries_to_data(m.buf.take(k));
                assert(entries_time_sorted(m1.buf));
                assert forall|i: int| 0 <= i < m1.buf.len() implies w.0 <= m1.buf[i].time.0 by {
                    assert(m1.buf[i] == m.buf[k + i]);
                    assert(m.buf[k].time.0 <= m.buf[k + i].time.0);
                }
                lemma_sorted_heap_ordering(m1, tr.drop_first());
                lemma_wm_times_add(out0, rest);
                crate::event::lemma_wm_times_none(released);
                lemma_wm_times_add(released, seq![Event::Watermark(w)]);
                assert(out0 =~= released + seq![Event::Watermark(w)]);
                assert(wm_times(seq![Event::<T>::Watermark(w)]) =~= seq![w.0 as int]) by {
                    reveal_with_fuel(wm_times, 2);
                }
                assert(wm_times(out0) =~= seq![w.0 as int]);
                assert(forall|i: int|
                    0 <= i < released.len() ==> released[i] == Event::<T>::Data(
                        m.buf.take(k)[i].time,
                        m.buf.take(k)[i].value,
                    ));
                assert(data_sorted(out0));
                assert(data_before_wm(out0));
                lemma_data_sorted_concat(out0, rest, w.0 as int);
                lemma_data_before_wm_concat(out0, rest, w.0 as int);
                crate::event::lemma_wm_times_bound(rest, w.0 as int);
                lemma_nondecreasing_concat(wm_times(out0), wm_times(rest), w.0 as int);
                lemma_terminal_concat(out0, rest);
            },
            Event::Snapshot(i) => {
                lemma_sorted_heap_ordering(m1, tr.drop_first());
                assert(out0 =~= seq![Event::Snapshot(i)]);
                lemma_wm_times_add(out0, rest);
                crate::event::lemma_wm_times_none(out0);
                lemma_data_sorted_concat(out0, rest, m.wm.0 as int);
                lemma_data_before_wm_concat(out0, rest, m.wm.0 as int);
                lemma_terminal_concat(out0, rest);
                assert(wm_times(run) =~= wm_times(rest));
            },
            Event::Sentinel => {
                assert(sorted_trace_ok(m1, tr.drop_first(), stepf));
                if tr.drop_first().len() > 0 {
                    assert(!m1.done);
                }
                assert(tr.drop_first().len() == 0);
                assert(run =~= out0);
                let released = entries_to_data(m.buf);
                assert(out0 =~= released + seq![Event::Sentinel]);
                assert(forall|i: int|
                    0 <= i < released.len() ==> released[i] == Event::<T>::Data(
                        m.buf[i].time,
                        m.buf[i].value,
                    ));
                assert(forall|i: int| 0 <= i < out0.len() ==> !(out0[i] is Watermark));
                crate::event::lemma_wm_times_none(out0);
                assert(data_sorted(out0));
                assert(terminal_ok(out0)) by {
                    assert(forall|i: int|
                        0 <= i < out0.len() - 1 ==> out0[i] == released[i] && !(out0[i]
                            is Sentinel));
                }
            },
        }
    }
}

/// The same ordering laws for the buffer-and-partition variant.
pub proof fn lemma_sorted_ordering<T>(m: SortedModel<T>, tr: Seq<Event<T>>)
    requires
        sorted_wf(m),
        sorted_trace_ok(m, tr, |m2: SortedModel<T>, ev: Event<T>| sorted_step_spec(m2, ev)),
    ensures
        ({
            let run = sorted_run(
                m,
                tr,
                |m2: SortedModel<T>, ev: Event<T>| sorted_step_spec(m2, ev),
            );
            &&& data_sorted(run)
            &&& data_before_wm(run)
            &&& nondecreasing(wm_times(run))
            &&& terminal_ok(run)
            &&& forall|i: int|
                0 <= i < run.len() && run[i] is Data ==> m.wm.0 <= run[i]->Data_0.0
            &&& forall|i: int|
                0 <= i < run.len() && run[i] is Watermark ==> m.wm.0 <= run[i]->Watermark_0.0
        }),
    decreases tr.len(),
{
    let stepf = |m2: SortedModel<T>, ev: Event<T>| sorted_step_spec(m2, ev);
    let run = sorted_run(m, tr, stepf);
    if tr.len() == 0 {
    } else {
        let ev = tr[0];
        let m1 = sorted_step_spec(m, ev).0;
        let out0 = sorted_step_spec(m, ev).1;
        let rest = sorted_run(m1, tr.drop_first(), stepf);
        assert(run == out0 + rest);
        match ev {
            Event::Data(t, v) => {
                assert forall|i: int| 0 <= i < m1.buf.len() implies m.wm.0
                    <= m1.buf[i].time.0 by {
                    if i < m.buf.len() {
                    } else {
                        assert(m1.buf[i].time == t);
                    }
                }
                lemma_sorted_ordering(m1, tr.drop_first());
                assert(run =~= rest);
            },
            Event::Watermark(w) => {
                broadcast use vstd::seq_lib::group_filter_ensures;

                let ready_pred = |e: SortEntry<T>| e.time.0 <= w.0;
                let pending_pred = |e: SortEntry<T>| e.time.0 > w.0;
                let ready = m.buf.filter(ready_pred);
                let sorted_ready = insort(ready);
                lemma_insort_props(ready);
                let released = entries_to_data(sorted_ready);
                assert forall|i: int| 0 <= i < m1.buf.len() implies w.0 <= m1.buf[i].time.0 by {
                    assert(pending_pred(m1.buf[i]));
                }
                lemma_sorted_ordering(m1, tr.drop_first());
                lemma_wm_times_add(out0, rest);
                crate::event::lemma_wm_times_none(released);
                lemma_wm_times_add(released, seq![Event::Watermark(w)]);
                assert(out0 =~= released + seq![Event::Watermark(w)]);
                assert(wm_times(seq![Event::<T>::Watermark(w)]) =~= seq![w.0 as int]) by {
                    reveal_with_fuel(wm_times, 2);
                }
                assert(wm_times(out0) =~= seq![w.0 as int]);
                assert(forall|i: int|
                    0 <= i < released.len() ==> released[i] == Event::<T>::Data(
                        sorted_ready[i].time,
                        sorted_ready[i].value,
                    ));
                assert forall|i: int| 0 <= i < sorted_ready.len() implies m.wm.0
                    <= sorted_ready[i].time.0 && sorted_ready[i].time.0 <= w.0 by {
                    assert(sorted_ready.contains(sorted_ready[i]));
                    assert(ready.contains(sorted_ready[i]));
                    assert(ready_pred(sorted_ready[i]));
                    lemma_filter_subset(m.buf, ready_pred, sorted_ready[i]);
                    let q = choose|q: int|
                        0 <= q < m.buf.len() && m.buf[q] == sorted_ready[i];
                }
                assert(data_sorted(out0));
                assert(data_before_wm(out0));
                lemma_data_sorted_concat(out0, rest, w.0 as int);
                lemma_data_before_wm_concat(out0, rest, w.0 as int);
                crate::event::lemma_wm_times_bound(rest, w.0 as int);
                lemma_nondecreasing_concat(wm_times(out0), wm_times(rest), w.0 as int);
                lemma_terminal_concat(out0, rest);
            },
            Event::Snapshot(i) => {
                lemma_sorted_ordering(m1, tr.drop_first());
                assert(out0 =~= seq![Event::Snapshot(i)]);
                lemma_wm_times_add(out0, rest);
                crate::event::lemma_wm_times_none(out0);
                lemma_data_sorted_concat(out0, rest, m.wm.0 as int);
                lemma_data_before_wm_concat(out0, rest, m.wm.0 as int);
                lemma_terminal_concat(out0, rest);
                assert(wm_times(run) =~= wm_times(rest));
            },
            Event::Sentinel => {
                assert(sorted_trace_ok(m1, tr.drop_first(), stepf));
                if tr.drop_first().len() > 0 {
                    assert(!m1.done);
                }
                assert(tr.drop_first().len() == 0);
                assert(run =~= out0);
                let sorted_all = insort(m.buf);
                lemma_insort_props(m.buf);
                let released = entries_to_data(sorted_all);
                assert(out0 =~= released + seq![Event::Sentinel]);
                assert(forall|i: int|
                    0 <= i < released.len() ==> released[i] == Event::<T>::Data(
                        sorted_all[i].time,
                        sorted_all[i].value,
                    ));
                assert forall|i: int| 0 <= i < sorted_all.len() implies m.wm.0
                    <= sorted_all[i].time.0 by {
                    assert(sorted_all.contains(sorted_all[i]));
                    assert(m.buf.contains(sorted_all[i]));
                    let q = choose|q: int| 0 <= q < m.buf.len() && m.buf[q] == sorted_all[i];
                }
                assert(forall|i: int| 0 <= i < out0.len() ==> !(out0[i] is Watermark));
                crate::event::lemma_wm_times_none(out0);
                assert(data_sorted(out0));
                assert(terminal_ok(out0)) by {
                    assert(forall|i: int|
                        0 <= i < out0.len() - 1 ==> out0[i] == released[i] && !(out0[i]
                            is Sentinel));
                }
            },
        }
    }
}

} // verus!
