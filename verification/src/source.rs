//! The source boundary: event-time extraction, the late-data policy, and
//! periodic watermark emission.
//!
//! A reader hands the source decoded records; the source stamps each record
//! with its declared event time and drops records that are already behind the
//! current watermark — late data is silently discarded here, at the boundary,
//! so that every stream entering the runtime obeys the watermark contract.
//! A periodic tick emits a watermark trailing the latest declared time by a
//! fixed slack.

use vstd::prelude::*;

use crate::event::Event;
use crate::time::Duration;
use crate::time::Time;
use crate::time::spec_sub_saturating;

verus! {

/// The source's state: the latest declared event time, the current
/// watermark, and the slack the watermark trails by.
#[derive(Debug, Clone, Copy, PartialEq, Eq, Structural)]
pub struct SourceState {
    pub latest: Time,
    pub wm: Time,
    pub slack: Duration,
    pub done: bool,
}

impl SourceState {
    pub open spec fn wf(&self) -> bool {
        self.slack.wf()
    }

    pub fn new(slack: Duration) -> (r: SourceState)
        requires
            slack.wf(),
        ensures
            r.wf(),
            r.latest.0 == 0 && r.wm.0 == 0 && r.slack == slack && !r.done,
    {
        SourceState { latest: Time(0), wm: Time(0), slack, done: false }
    }

    /// A record with declared time `t` arrives: drop it when it is already
    /// behind the watermark, else remember its time and emit it.
    pub fn on_item<T>(&mut self, t: Time, data: T) -> (out: Option<Event<T>>)
        requires
            old(self).wf(),
            !old(self).done,
        ensures
            final(self).wf(),
            final(self).wm == old(self).wm && final(self).slack == old(self).slack,
            final(self).done == old(self).done,
            t.0 < old(self).wm.0 ==> out is None && final(self).latest == old(self).latest,
            t.0 >= old(self).wm.0 ==> out == Some(Event::Data(t, data)) && final(self).latest.0
                == if t.0 > old(self).latest.0 {
                t.0
            } else {
                old(self).latest.0
            },
    {
        if t.0 < self.wm.0 {
            None
        } else {
            if t.0 > self.latest.0 {
                self.latest = t;
            }
            Some(Event::Data(t, data))
        }
    }

    /// A watermark tick: once any record has been seen, advance the watermark
    /// to the latest declared time minus the slack and emit it. The emitted
    /// watermarks never decrease.
    pub fn on_tick<T>(&mut self) -> (out: Option<Event<T>>)
        requires
            old(self).wf(),
            !old(self).done,
            old(self).wm.0 <= spec_sub_saturating(
                old(self).latest.0 as int,
                old(self).slack.0 as int,
            ) || old(self).latest.0 == 0,
        ensures
            final(self).wf(),
            final(self).latest == old(self).latest && final(self).slack == old(self).slack,
            final(self).done == old(self).done,
            old(self).latest.0 == 0 ==> out is None && final(self).wm == old(self).wm,
            old(self).latest.0 != 0 ==> final(self).wm.0 == spec_sub_saturating(
                old(self).latest.0 as int,
                old(self).slack.0 as int,
            ) && out == Some(Event::<T>::Watermark(final(self).wm)) && final(self).wm.0 >= old(
                self,
            ).wm.0,
    {
        if self.latest.0 == 0 {
            None
        } else {
            let w = self.latest.sub_duration(self.slack);
            self.wm = w;
            Some(Event::Watermark(w))
        }
    }

    /// The reader is exhausted: close the stream.
    pub fn on_end<T>(&mut self) -> (out: Event<T>)
        requires
            !old(self).done,
        ensures
            final(self).done,
            out == Event::<T>::Sentinel,
    {
        self.done = true;
        Event::Sentinel
    }
}

} // verus!
