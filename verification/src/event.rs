//! The event model: the tagged union carried on every channel, and the
//! spec-level vocabulary for whole event histories.
//!
//! Within one stream, data events need not arrive in timestamp order, but a
//! `Watermark(w)` asserts that no later on-time `Data` event on that stream
//! carries a timestamp below `w`. `Sentinel` is terminal and exactly-once per
//! stream: it closes the stream and must be the last event any consumer sees.

use vstd::prelude::*;

use crate::time::Time;

verus! {

/// One event on a channel: a data record with its event-time timestamp, a
/// watermark, a checkpoint-barrier marker, or the end-of-stream sentinel.
#[derive(Debug)]
pub enum Event<T> {
    Data(Time, T),
    Watermark(Time),
    Snapshot(usize),
    Sentinel,
}

/// One event on a keyed channel: data records additionally carry a key.
#[derive(Debug)]
pub enum KeyedEvent<K, T> {
    Data(Time, K, T),
    Watermark(Time),
    Snapshot(usize),
    Sentinel,
}

/// The error a send on a closed channel yields; a task treats it as a local
/// shutdown signal for itself, never as a failure of the whole run.
#[derive(Debug, Clone, Copy, PartialEq, Eq, Structural)]
pub enum SendError {
    Closed,
}

/// A clone that the contracts can rely on: the result equals the original.
pub trait DeepClone: Sized {
    fn deep_clone(&self) -> (r: Self)
        ensures
            r == *self,
    ;
}

impl DeepClone for u64 {
    fn deep_clone(&self) -> (r: u64)
        ensures
            r == *self,
    {
        *self
    }
}

impl DeepClone for String {
    fn deep_clone(&self) -> (r: String)
        ensures
            r == *self,
    {
        self.clone()
    }
}

impl<T: DeepClone> DeepClone for Event<T> {
    fn deep_clone(&self) -> (r: Event<T>)
        ensures
            r == *self,
    {
        match self {
            Event::Data(t, v) => Event::Data(*t, v.deep_clone()),
            Event::Watermark(t) => Event::Watermark(*t),
            Event::Snapshot(i) => Event::Snapshot(*i),
            Event::Sentinel => Event::Sentinel,
        }
    }
}

impl<K: DeepClone, T: DeepClone> DeepClone for KeyedEvent<K, T> {
    fn deep_clone(&self) -> (r: KeyedEvent<K, T>)
        ensures
            r == *self,
    {
        match self {
            KeyedEvent::Data(t, k, v) => KeyedEvent::Data(*t, k.deep_clone(), v.deep_clone()),
            KeyedEvent::Watermark(t) => KeyedEvent::Watermark(*t),
            KeyedEvent::Snapshot(i) => KeyedEvent::Snapshot(*i),
            KeyedEvent::Sentinel => KeyedEvent::Sentinel,
        }
    }
}

/// The timestamps of the watermarks in a history, in order of emission.
pub open spec fn wm_times<T>(s: Seq<Event<T>>) -> Seq<int>
    decreases s.len(),
{
    if s.len() == 0 {
        Seq::empty()
    } else if s[0] is Watermark {
        seq![s[0]->Watermark_0.0 as int] + wm_times(s.drop_first())
    } else {
        wm_times(s.drop_first())
    }
}

/// `wm_times` distributes over concatenation.
pub proof fn lemma_wm_times_add<T>(a: Seq<Event<T>>, b: Seq<Event<T>>)
    ensures
        wm_times(a + b) == wm_times(a) + wm_times(b),
    decreases a.len(),
{
    if a.len() == 0 {
        assert(a + b =~= b);
        assert(wm_times(a) + wm_times(b) =~= wm_times(b));
    } else {
        assert((a + b).drop_first() =~= a.drop_first() + b);
        lemma_wm_times_add(a.drop_first(), b);
        if a[0] is Watermark {
            assert(seq![a[0]->Watermark_0.0 as int] + (wm_times(a.drop_first()) + wm_times(b))
                =~= (seq![a[0]->Watermark_0.0 as int] + wm_times(a.drop_first())) + wm_times(b));
        }
    }
}

/// A sequence of numbers that never decreases.
pub open spec fn nondecreasing(s: Seq<int>) -> bool {
    forall|i: int, j: int| 0 <= i <= j < s.len() ==> s[i] <= s[j]
}

/// No event follows a `Sentinel`.
pub open spec fn terminal_ok<T>(s: Seq<Event<T>>) -> bool {
    forall|i: int| 0 <= i < s.len() && s[i] is Sentinel ==> i == s.len() - 1
}

/// Two runs of non-decreasing numbers concatenate to one, when everything in
/// the first stays at or below `m` and everything in the second at or above.
pub proof fn lemma_nondecreasing_concat(a: Seq<int>, b: Seq<int>, m: int)
    requires
        nondecreasing(a),
        nondecreasing(b),
        forall|i: int| 0 <= i < a.len() ==> a[i] <= m,
        forall|i: int| 0 <= i < b.len() ==> m <= b[i],
    ensures
        nondecreasing(a + b),
{
    assert forall|i: int, j: int| 0 <= i <= j < (a + b).len() implies (a + b)[i] <= (a + b)[j] by {
        if j < a.len() {
        } else if i >= a.len() {
        } else {
            assert((a + b)[i] == a[i] && (a + b)[j] == b[j - a.len()]);
        }
    }
}

/// A sentinel-free history followed by a terminal one is terminal.
pub proof fn lemma_terminal_concat<T>(a: Seq<Event<T>>, b: Seq<Event<T>>)
    requires
        forall|i: int| 0 <= i < a.len() ==> !(a[i] is Sentinel),
        terminal_ok(b),
    ensures
        terminal_ok(a + b),
{
    assert forall|i: int| 0 <= i < (a + b).len() && (a + b)[i] is Sentinel implies i == (a
        + b).len() - 1 by {
        if i < a.len() {
            assert((a + b)[i] == a[i]);
        } else {
            assert((a + b)[i] == b[i - a.len()]);
        }
    }
}

/// A lower bound on the watermark events of a history bounds its watermark
/// times.
pub proof fn lemma_wm_times_bound<T>(s: Seq<Event<T>>, b: int)
    requires
        forall|i: int| 0 <= i < s.len() && s[i] is Watermark ==> b <= s[i]->Watermark_0.0,
    ensures
        forall|i: int| 0 <= i < wm_times(s).len() ==> b <= wm_times(s)[i],
    decreases s.len(),
{
    if s.len() > 0 {
        assert(forall|i: int|
            0 <= i < s.drop_first().len() && s.drop_first()[i] is Watermark ==> b
                <= s.drop_first()[i]->Watermark_0.0);
        lemma_wm_times_bound(s.drop_first(), b);
        let rest = wm_times(s.drop_first());
        if s[0] is Watermark {
            assert(wm_times(s) =~= seq![s[0]->Watermark_0.0 as int] + rest);
            assert forall|i: int| 0 <= i < wm_times(s).len() implies b <= wm_times(s)[i] by {
                if i > 0 {
                    assert(wm_times(s)[i] == rest[i - 1]);
                }
            }
        } else {
            assert(wm_times(s) =~= rest);
        }
    }
}

/// A history without watermarks contributes no watermark times.
pub proof fn lemma_wm_times_none<T>(s: Seq<Event<T>>)
    requires
        forall|i: int| 0 <= i < s.len() ==> !(s[i] is Watermark),
    ensures
        wm_times(s) =~= Seq::empty(),
    decreases s.len(),
{
    if s.len() > 0 {
        lemma_wm_times_none(s.drop_first());
    }
}

/// Histories of sorted data concatenate around a pivot `m`.
pub proof fn lemma_data_sorted_concat<T>(a: Seq<Event<T>>, b: Seq<Event<T>>, m: int)
    requires
        data_sorted(a),
        data_sorted(b),
        forall|i: int| 0 <= i < a.len() && a[i] is Data ==> a[i]->Data_0.0 <= m,
        forall|i: int| 0 <= i < b.len() && b[i] is Data ==> m <= b[i]->Data_0.0,
    ensures
        data_sorted(a + b),
{
    assert forall|i: int, j: int|
        0 <= i < j < (a + b).len() && (a + b)[i] is Data && (a + b)[j] is Data implies (a
        + b)[i]->Data_0.0 <= (a + b)[j]->Data_0.0 by {
        if i < a.len() && j >= a.len() {
            assert((a + b)[i] == a[i] && (a + b)[j] == b[j - a.len()]);
        }
    }
}

/// Histories where every watermark subsumes the data before it concatenate
/// around a pivot `m`, when the first part's data stays at or below `m` and
/// the second part's watermarks at or above.
pub proof fn lemma_data_before_wm_concat<T>(a: Seq<Event<T>>, b: Seq<Event<T>>, m: int)
    requires
        data_before_wm(a),
        data_before_wm(b),
        forall|i: int| 0 <= i < a.len() && a[i] is Data ==> a[i]->Data_0.0 <= m,
        forall|i: int| 0 <= i < b.len() && b[i] is Watermark ==> m <= b[i]->Watermark_0.0,
    ensures
        data_before_wm(a + b),
{
    assert forall|i: int, j: int|
        0 <= i < j < (a + b).len() && (a + b)[i] is Data && (a + b)[j] is Watermark implies (a
        + b)[i]->Data_0.0 <= (a + b)[j]->Watermark_0.0 by {
        if i < a.len() && j >= a.len() {
            assert((a + b)[i] == a[i] && (a + b)[j] == b[j - a.len()]);
        }
    }
}

/// The watermark contract of one stream: watermarks never decrease, and every
/// data event is on time with respect to each watermark already seen.
pub open spec fn stream_consistent<T>(s: Seq<Event<T>>) -> bool {
    &&& (forall|i: int, j: int|
        0 <= i < j < s.len() && s[i] is Watermark && s[j] is Watermark
            ==> s[i]->Watermark_0.0 <= s[j]->Watermark_0.0)
    &&& (forall|i: int, j: int|
        0 <= i < j < s.len() && s[i] is Watermark && s[j] is Data
            ==> s[i]->Watermark_0.0 <= s[j]->Data_0.0)
}

/// Data events appear in non-decreasing timestamp order.
pub open spec fn data_sorted<T>(s: Seq<Event<T>>) -> bool {
    forall|i: int, j: int|
        0 <= i < j < s.len() && s[i] is Data && s[j] is Data
            ==> s[i]->Data_0.0 <= s[j]->Data_0.0
}

/// Every data event emitted before a watermark is subsumed by it: once
/// `Watermark(w)` is out, everything already emitted is at or below `w`.
pub open spec fn data_before_wm<T>(s: Seq<Event<T>>) -> bool {
    forall|i: int, j: int|
        0 <= i < j < s.len() && s[i] is Data && s[j] is Watermark
            ==> s[i]->Data_0.0 <= s[j]->Watermark_0.0
}

} // verus!
