//! The hot-swap operator: a data stream interleaved with a control stream of
//! replacement transformation modules.
//!
//! Both streams merge into one ordered stream of `Either` values. A control
//! record installs a new implementation before the next data record is
//! processed; a data record is handed to the active implementation, or passes
//! as an empty result while none is installed. The operator itself only
//! decides; invoking the installed module is the driver's job, and the
//! decision is exact for every input.

use vstd::prelude::*;

use crate::data::Auction;
use crate::data::Bid;
use crate::data::Person;
use crate::data::WasmComponent;
use crate::event::DeepClone;
use crate::event::Event;
use crate::time::Time;

verus! {

/// What flows on the merged stream: a replacement module or a data record.
#[derive(Debug)]
pub enum Either<D> {
    Component(WasmComponent),
    Data(D),
}

/// A record of any of the benchmark's kinds, for pipelines whose pluggable
/// transformation handles all of them.
#[derive(Debug, Clone, PartialEq, Eq)]
pub enum EitherData {
    Bid(Bid),
    Auction(Auction),
    Person(Person),
}

impl DeepClone for EitherData {
    fn deep_clone(&self) -> (r: EitherData)
        ensures
            r == *self,
    {
        match self {
            EitherData::Bid(b) => EitherData::Bid(b.deep_clone()),
            EitherData::Auction(a) => EitherData::Auction(a.deep_clone()),
            EitherData::Person(p) => EitherData::Person(p.deep_clone()),
        }
    }
}

impl EitherData {
    /// The declared event time of the record inside.
    pub fn timestamp(&self) -> (r: u64)
        ensures
            r == match *self {
                EitherData::Bid(b) => b.date_time,
                EitherData::Auction(a) => a.date_time,
                EitherData::Person(p) => p.date_time,
            },
    {
        match self {
            EitherData::Bid(b) => b.timestamp(),
            EitherData::Auction(a) => a.timestamp(),
            EitherData::Person(p) => p.timestamp(),
        }
    }
}

/// What the hot-swap operator decides for one incoming event.
#[derive(Debug)]
pub enum SwapAction<D> {
    /// Install this module as the active implementation.
    Install(WasmComponent),
    /// Hand the record to the active implementation and emit its result.
    Invoke(Time, D),
    /// No implementation is installed: emit an empty result.
    EmitEmpty(Time),
    /// Forward the watermark.
    ForwardWatermark(Time),
    /// Forward the checkpoint barrier.
    ForwardSnapshot(usize),
    /// Forward the sentinel and stop.
    Finish,
}

/// Decide one event of the merged stream, given whether an implementation is
/// currently installed.
pub fn swap_step<D>(has_impl: bool, ev: Event<Either<D>>) -> (r: SwapAction<D>)
    ensures
        r == match ev {
            Event::Data(t, Either::Component(c)) => SwapAction::<D>::Install(c),
            Event::Data(t, Either::Data(d)) => if has_impl {
                SwapAction::<D>::Invoke(t, d)
            } else {
                SwapAction::<D>::EmitEmpty(t)
            },
            Event::Watermark(t) => SwapAction::<D>::ForwardWatermark(t),
            Event::Snapshot(i) => SwapAction::<D>::ForwardSnapshot(i),
            Event::Sentinel => SwapAction::<D>::Finish,
        },
{
    match ev {
        Event::Data(t, Either::Component(c)) => SwapAction::Install(c),
        Event::Data(t, Either::Data(d)) => {
            if has_impl {
                SwapAction::Invoke(t, d)
            } else {
                SwapAction::EmitEmpty(t)
            }
        },
        Event::Watermark(t) => SwapAction::ForwardWatermark(t),
        Event::Snapshot(i) => SwapAction::ForwardSnapshot(i),
        Event::Sentinel => SwapAction::Finish,
    }
}

/// Wrap what the active implementation returned for a record into the event
/// the operator emits: the result, at the record's time.
pub fn apply_result<T>(t: Time, result: Option<T>) -> (out: Event<Option<T>>)
    ensures
        out == Event::<Option<T>>::Data(t, result),
{
    Event::Data(t, result)
}

} // verus!
