//! Stateless and near-stateless per-event operators: map, filter, filter_map,
//! flat_map, keying and unkeying, take, fan-out, sink and collect.
//!
//! Each operator consumes one event and forwards zero or more. All non-data
//! events pass through unchanged, in order, exactly once; data is transformed
//! by a caller-supplied pure function.

use vstd::prelude::*;

use crate::event::DeepClone;
use crate::event::Event;
use crate::event::KeyedEvent;
use crate::event::lemma_terminal_concat;
use crate::event::terminal_ok;
use crate::time::Time;

verus! {

/// Apply a pure function to a data event's payload; everything else passes
/// through unchanged.
pub fn map_step<T, O, F: Fn(T) -> O>(f: &F, ev: Event<T>) -> (out: Event<O>)
    requires
        forall|t: Time, v: T| ev == Event::<T>::Data(t, v) ==> call_requires(*f, (v,)),
    ensures
        ev is Watermark ==> out == Event::<O>::Watermark(ev->Watermark_0),
        ev is Snapshot ==> out == Event::<O>::Snapshot(ev->Snapshot_0),
        ev is Sentinel ==> out == Event::<O>::Sentinel,
        ev is Data ==> out is Data && out->Data_0 == ev->Data_0 && call_ensures(
            *f,
            (ev->Data_1,),
            out->Data_1,
        ),
{
    match ev {
        Event::Data(t, v) => Event::Data(t, f(v)),
        Event::Watermark(t) => Event::Watermark(t),
        Event::Snapshot(i) => Event::Snapshot(i),
        Event::Sentinel => Event::Sentinel,
    }
}

/// Keep a data event only when the predicate holds of its payload.
pub fn filter_step<T, F: Fn(&T) -> bool>(f: &F, ev: Event<T>) -> (out: Option<Event<T>>)
    requires
        forall|t: Time, v: T| ev == Event::<T>::Data(t, v) ==> call_requires(*f, (&v,)),
    ensures
        !(ev is Data) ==> out == Some(ev),
        ev is Data ==> match out {
            Some(e) => e == ev && call_ensures(*f, (&ev->Data_1,), true),
            None => call_ensures(*f, (&ev->Data_1,), false),
        },
{
    match ev {
        Event::Data(t, v) => {
            if f(&v) {
                Some(Event::Data(t, v))
            } else {
                None
            }
        },
        other => Some(other),
    }
}

/// Transform a data event's payload into zero or one results.
pub fn filter_map_step<T, O, F: Fn(T) -> Option<O>>(f: &F, ev: Event<T>) -> (out: Option<
    Event<O>,
>)
    requires
        forall|t: Time, v: T| ev == Event::<T>::Data(t, v) ==> call_requires(*f, (v,)),
    ensures
        ev is Watermark ==> out == Some(Event::<O>::Watermark(ev->Watermark_0)),
        ev is Snapshot ==> out == Some(Event::<O>::Snapshot(ev->Snapshot_0)),
        ev is Sentinel ==> out == Some(Event::<O>::Sentinel),
        ev is Data ==> match out {
            Some(e) => e is Data && e->Data_0 == ev->Data_0 && call_ensures(
                *f,
                (ev->Data_1,),
                Some(e->Data_1),
            ),
            None => call_ensures(*f, (ev->Data_1,), None::<O>),
        },
{
    match ev {
        Event::Data(t, v) => match f(v) {
            Some(o) => Some(Event::Data(t, o)),
            None => None,
        },
        Event::Watermark(t) => Some(Event::Watermark(t)),
        Event::Snapshot(i) => Some(Event::Snapshot(i)),
        Event::Sentinel => Some(Event::Sentinel),
    }
}

/// Transform a data event's payload into many results, emitted in order at
/// the same timestamp.
pub fn flat_map_step<T, O, F: Fn(T) -> Vec<O>>(f: &F, ev: Event<T>) -> (out: Vec<Event<O>>)
    requires
        forall|t: Time, v: T| ev == Event::<T>::Data(t, v) ==> call_requires(*f, (v,)),
    ensures
        ev is Watermark ==> out@ == seq![Event::<O>::Watermark(ev->Watermark_0)],
        ev is Snapshot ==> out@ == seq![Event::<O>::Snapshot(ev->Snapshot_0)],
        ev is Sentinel ==> out@ == seq![Event::<O>::Sentinel],
        ev is Data ==> exists|vs: Vec<O>|
            call_ensures(*f, (ev->Data_1,), vs) && out@ == vs@.map_values(
                |o: O| Event::<O>::Data(ev->Data_0, o),
            ),
{
    let mut out: Vec<Event<O>> = Vec::new();
    match ev {
        Event::Data(t, v) => {
            let mut vs = f(v);
            let ghost vs0 = vs;
            let ghost mut j: int = 0;
            while vs.len() > 0
                invariant
                    0 <= j <= vs0@.len(),
                    vs@ =~= vs0@.skip(j),
                    out@ =~= vs0@.take(j).map_values(|o: O| Event::<O>::Data(t, o)),
                decreases vs.len(),
            {
                let o = vs.remove(0);
                out.push(Event::Data(t, o));
                proof {
                    assert(o == vs0@[j]);
                    assert(vs0@.skip(j).drop_first() =~= vs0@.skip(j + 1));
                    assert(vs0@.take(j + 1).map_values(|o2: O| Event::<O>::Data(t, o2))
                        =~= vs0@.take(j).map_values(|o2: O| Event::<O>::Data(t, o2)).push(
                        Event::<O>::Data(t, o),
                    ));
                    j = j + 1;
                }
            }
            proof {
                assert(vs0@.take(j) =~= vs0@);
            }
        },
        Event::Watermark(t) => {
            out.push(Event::Watermark(t));
        },
        Event::Snapshot(i) => {
            out.push(Event::Snapshot(i));
        },
        Event::Sentinel => {
            out.push(Event::Sentinel);
        },
    }
    out
}

/// The keyed flat_map: many results per record, each carrying the record's
/// key.
pub fn keyed_flat_map_step<K: DeepClone, T, O, F: Fn(T) -> Vec<O>>(
    f: &F,
    ev: KeyedEvent<K, T>,
) -> (out: Vec<KeyedEvent<K, O>>)
    requires
        forall|t: Time, k: K, v: T|
            ev == KeyedEvent::<K, T>::Data(t, k, v) ==> call_requires(*f, (v,)),
    ensures
        ev is Watermark ==> out@ == seq![KeyedEvent::<K, O>::Watermark(ev->Watermark_0)],
        ev is Snapshot ==> out@ == seq![KeyedEvent::<K, O>::Snapshot(ev->Snapshot_0)],
        ev is Sentinel ==> out@ == seq![KeyedEvent::<K, O>::Sentinel],
        ev is Data ==> exists|vs: Vec<O>|
            call_ensures(*f, (ev->Data_2,), vs) && out@ == vs@.map_values(
                |o: O| KeyedEvent::<K, O>::Data(ev->Data_0, ev->Data_1, o),
            ),
{
    let mut out: Vec<KeyedEvent<K, O>> = Vec::new();
    match ev {
        KeyedEvent::Data(t, k, v) => {
            let ghost k0 = k;
            let mut vs = f(v);
            let ghost vs0 = vs;
            let ghost mut j: int = 0;
            while vs.len() > 0
                invariant
                    0 <= j <= vs0@.len(),
                    k == k0,
                    vs@ =~= vs0@.skip(j),
                    out@ =~= vs0@.take(j).map_values(|o: O| KeyedEvent::<K, O>::Data(t, k0, o)),
                decreases vs.len(),
            {
                let o = vs.remove(0);
                out.push(KeyedEvent::Data(t, k.deep_clone(), o));
                proof {
                    assert(o == vs0@[j]);
                    assert(vs0@.skip(j).drop_first() =~= vs0@.skip(j + 1));
                    assert(vs0@.take(j + 1).map_values(
                        |o2: O| KeyedEvent::<K, O>::Data(t, k0, o2),
                    ) =~= vs0@.take(j).map_values(
                        |o2: O| KeyedEvent::<K, O>::Data(t, k0, o2),
                    ).push(KeyedEvent::<K, O>::Data(t, k0, o)));
                    j = j + 1;
                }
            }
            proof {
                assert(vs0@.take(j) =~= vs0@);
            }
        },
        KeyedEvent::Watermark(t) => {
            out.push(KeyedEvent::Watermark(t));
        },
        KeyedEvent::Snapshot(i) => {
            out.push(KeyedEvent::Snapshot(i));
        },
        KeyedEvent::Sentinel => {
            out.push(KeyedEvent::Sentinel);
        },
    }
    out
}

/// Attach a key, computed from the payload, to every data event.
pub fn keyby_step<K, T, F: Fn(&T) -> K>(f: &F, ev: Event<T>) -> (out: KeyedEvent<K, T>)
    requires
        forall|t: Time, v: T| ev == Event::<T>::Data(t, v) ==> call_requires(*f, (&v,)),
    ensures
        ev is Watermark ==> out == KeyedEvent::<K, T>::Watermark(ev->Watermark_0),
        ev is Snapshot ==> out == KeyedEvent::<K, T>::Snapshot(ev->Snapshot_0),
        ev is Sentinel ==> out == KeyedEvent::<K, T>::Sentinel,
        ev is Data ==> out is Data && out->Data_0 == ev->Data_0 && out->Data_2 == ev->Data_1
            && call_ensures(*f, (&ev->Data_1,), out->Data_1),
{
    match ev {
        Event::Data(t, v) => {
            let k = f(&v);
            KeyedEvent::Data(t, k, v)
        },
        Event::Watermark(t) => KeyedEvent::Watermark(t),
        Event::Snapshot(i) => KeyedEvent::Snapshot(i),
        Event::Sentinel => KeyedEvent::Sentinel,
    }
}

/// Drop the key again.
pub fn unkey_step<K, T>(ev: KeyedEvent<K, T>) -> (out: Event<T>)
    ensures
        ev is Watermark ==> out == Event::<T>::Watermark(ev->Watermark_0),
        ev is Snapshot ==> out == Event::<T>::Snapshot(ev->Snapshot_0),
        ev is Sentinel ==> out == Event::<T>::Sentinel,
        ev is Data ==> out == Event::<T>::Data(ev->Data_0, ev->Data_2),
{
    match ev {
        KeyedEvent::Data(t, _, v) => Event::Data(t, v),
        KeyedEvent::Watermark(t) => Event::Watermark(t),
        KeyedEvent::Snapshot(i) => Event::Snapshot(i),
        KeyedEvent::Sentinel => Event::Sentinel,
    }
}

/// The take operator: forward the first `remaining` data events, then
/// synthesize the sentinel and stop, even if upstream has more.
#[derive(Debug, Clone, Copy, PartialEq, Eq, Structural)]
pub struct TakeState {
    pub remaining: i32,
    pub done: bool,
}

impl TakeState {
    pub fn new(n: i32) -> (r: TakeState)
        ensures
            r.remaining == n && !r.done,
    {
        TakeState { remaining: n, done: false }
    }

    /// What opening the operator emits: with no budget at all, the sentinel
    /// goes out before anything is consumed.
    pub open spec fn take_open_spec<T>(s: TakeState) -> (TakeState, Seq<Event<T>>) {
        if s.remaining <= 0 {
            (TakeState { remaining: s.remaining, done: true }, seq![Event::<T>::Sentinel])
        } else {
            (s, Seq::<Event<T>>::empty())
        }
    }

    /// One transition: the budgeted data events pass; the one that spends the
    /// budget carries the synthesized sentinel with it; markers pass while the
    /// budget lasts; an upstream sentinel closes early.
    pub open spec fn take_step_spec<T>(s: TakeState, ev: Event<T>) -> (TakeState, Seq<Event<T>>) {
        match ev {
            Event::Data(t, v) => {
                if s.remaining == 1 {
                    (
                        TakeState { remaining: 0, done: true },
                        seq![Event::Data(t, v), Event::<T>::Sentinel],
                    )
                } else {
                    (
                        TakeState { remaining: (s.remaining - 1) as i32, done: s.done },
                        seq![Event::Data(t, v)],
                    )
                }
            },
            Event::Watermark(t) => (s, seq![Event::<T>::Watermark(t)]),
            Event::Snapshot(i) => (s, seq![Event::<T>::Snapshot(i)]),
            Event::Sentinel => (
                TakeState { remaining: s.remaining, done: true },
                seq![Event::<T>::Sentinel],
            ),
        }
    }

    /// Open the operator: a non-positive budget yields the sentinel at once,
    /// before any event is consumed.
    pub fn open<T>(&mut self) -> (out: Vec<Event<T>>)
        requires
            !old(self).done,
        ensures
            *final(self) == TakeState::take_open_spec::<T>(*old(self)).0,
            out@ == TakeState::take_open_spec::<T>(*old(self)).1,
    {
        let mut out: Vec<Event<T>> = Vec::new();
        if self.remaining <= 0 {
            out.push(Event::Sentinel);
            self.done = true;
        }
        out
    }

    /// Feed one event through the operator.
    pub fn step<T>(&mut self, ev: Event<T>) -> (out: Vec<Event<T>>)
        requires
            !old(self).done,
            old(self).remaining > 0,
        ensures
            *final(self) == TakeState::take_step_spec(*old(self), ev).0,
            out@ == TakeState::take_step_spec(*old(self), ev).1,
    {
        let mut out: Vec<Event<T>> = Vec::new();
        match ev {
            Event::Data(t, v) => {
                out.push(Event::Data(t, v));
                self.remaining = self.remaining - 1;
                if self.remaining == 0 {
                    out.push(Event::Sentinel);
                    self.done = true;
                }
            },
            Event::Watermark(t) => {
                out.push(Event::Watermark(t));
            },
            Event::Snapshot(i) => {
                out.push(Event::Snapshot(i));
            },
            Event::Sentinel => {
                out.push(Event::Sentinel);
                self.done = true;
            },
        }
        out
    }
}

/// Inputs the take operator can be fed from state `s`: nothing after the
/// budget is spent or the upstream closed.
pub open spec fn take_trace_ok<T>(s: TakeState, tr: Seq<Event<T>>) -> bool
    decreases tr.len(),
{
    tr.len() == 0 || {
        !s.done && s.remaining > 0 && take_trace_ok(
            TakeState::take_step_spec(s, tr[0]).0,
            tr.drop_first(),
        )
    }
}

/// Everything the take operator emits over an input history.
pub open spec fn take_run<T>(s: TakeState, tr: Seq<Event<T>>) -> Seq<Event<T>>
    decreases tr.len(),
{
    if tr.len() == 0 {
        Seq::empty()
    } else {
        TakeState::take_step_spec(s, tr[0]).1 + take_run(
            TakeState::take_step_spec(s, tr[0]).0,
            tr.drop_first(),
        )
    }
}

/// Sentinel exactly-once-terminal for the take operator: over any admissible
/// input history, no emitted event follows the sentinel — whether it was
/// synthesized by the spent budget or forwarded from upstream.
pub proof fn lemma_take_terminal<T>(s: TakeState, tr: Seq<Event<T>>)
    requires
        take_trace_ok(s, tr),
    ensures
        terminal_ok(take_run(s, tr)),
    decreases tr.len(),
{
    if tr.len() == 0 {
    } else {
        let ev = tr[0];
        let s1 = TakeState::take_step_spec(s, ev).0;
        let out0 = TakeState::take_step_spec(s, ev).1;
        let rest = take_run(s1, tr.drop_first());
        lemma_take_terminal(s1, tr.drop_first());
        if s1.done || s1.remaining <= 0 {
            assert(take_trace_ok(s1, tr.drop_first()));
            assert(tr.drop_first().len() == 0);
            assert(take_run(s, tr) =~= out0);
        } else {
            assert(forall|i: int| 0 <= i < out0.len() ==> !(out0[i] is Sentinel));
            lemma_terminal_concat(out0, rest);
        }
    }
}

/// Duplicate every event to two downstream branches; a fan-out must succeed
/// on both branches before the next event is taken.
pub fn fork_step<T: DeepClone>(ev: Event<T>) -> (out: (Event<T>, Event<T>))
    ensures
        out.0 == ev && out.1 == ev,
{
    match ev {
        Event::Data(t, v) => {
            let v2 = v.deep_clone();
            (Event::Data(t, v2), Event::Data(t, v))
        },
        Event::Watermark(t) => (Event::Watermark(t), Event::Watermark(t)),
        Event::Snapshot(i) => (Event::Snapshot(i), Event::Snapshot(i)),
        Event::Sentinel => (Event::Sentinel, Event::Sentinel),
    }
}

/// Duplicate every keyed event to two downstream branches.
pub fn split_step<K: DeepClone, T: DeepClone>(ev: KeyedEvent<K, T>) -> (out: (
    KeyedEvent<K, T>,
    KeyedEvent<K, T>,
))
    ensures
        out.0 == ev && out.1 == ev,
{
    match ev {
        KeyedEvent::Data(t, k, v) => {
            let k2 = k.deep_clone();
            let v2 = v.deep_clone();
            (KeyedEvent::Data(t, k2, v2), KeyedEvent::Data(t, k, v))
        },
        KeyedEvent::Watermark(t) => (KeyedEvent::Watermark(t), KeyedEvent::Watermark(t)),
        KeyedEvent::Snapshot(i) => (KeyedEvent::Snapshot(i), KeyedEvent::Snapshot(i)),
        KeyedEvent::Sentinel => (KeyedEvent::Sentinel, KeyedEvent::Sentinel),
    }
}

/// What a sink does with one event: hand the payload on, ignore the marker,
/// or stop. Watermarks and checkpoint barriers carry no payload to write.
#[derive(Debug)]
pub enum SinkAction<T> {
    Emit(T),
    Skip,
    Stop,
}

/// Decide a sink's reaction to one event.
pub fn sink_step<T>(ev: Event<T>) -> (out: SinkAction<T>)
    ensures
        ev is Data ==> out == SinkAction::<T>::Emit(ev->Data_1),
        ev is Watermark || ev is Snapshot ==> out is Skip,
        ev is Sentinel ==> out is Stop,
{
    match ev {
        Event::Data(_, v) => SinkAction::Emit(v),
        Event::Watermark(_) => SinkAction::Skip,
        Event::Snapshot(_) => SinkAction::Skip,
        Event::Sentinel => SinkAction::Stop,
    }
}

/// Fold one event into a collected vector of payloads; the result says
/// whether the stream has ended.
pub fn collect_step<T>(acc: &mut Vec<T>, ev: Event<T>) -> (done: bool)
    ensures
        ev is Data ==> final(acc)@ == old(acc)@.push(ev->Data_1) && !done,
        !(ev is Data) ==> final(acc)@ == old(acc)@ && done == (ev is Sentinel),
{
    match ev {
        Event::Data(_, v) => {
            acc.push(v);
            false
        },
        Event::Watermark(_) => false,
        Event::Snapshot(_) => false,
        Event::Sentinel => true,
    }
}

} // verus!
