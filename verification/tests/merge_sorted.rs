use runtime::event::Event;
use runtime::merge::{merge_step, MergeState, Side, SortedMergeState};
use runtime::sorted::{SortedHeapState, SortedState};
use runtime::time::Time;

fn wm(t: i64) -> Event<u64> {
    Event::Watermark(Time(t))
}

fn data(t: i64, v: u64) -> Event<u64> {
    Event::Data(Time(t), v)
}

#[test]
fn merge_forwards_data_in_arrival_order() {
    let mut st = MergeState::new();
    let out = merge_step(&mut st, Side::Left, data(5, 50));
    assert_eq!(out.len(), 1);
    assert!(matches!(out[0], Event::Data(Time(5), 50)));
    let out = merge_step(&mut st, Side::Right, data(3, 30));
    assert_eq!(out.len(), 1);
    assert!(matches!(out[0], Event::Data(Time(3), 30)));
}

#[test]
fn merge_emits_min_watermark_only_when_safe() {
    let mut st = MergeState::new();
    // A watermark on one side alone is never a global low point at start.
    let out = merge_step(&mut st, Side::Left, wm(5));
    assert_eq!(out.len(), 0);
    // The other side passes it: the stale left value is flushed.
    let out = merge_step(&mut st, Side::Right, wm(7));
    assert_eq!(out.len(), 1);
    assert!(matches!(out[0], Event::Watermark(Time(5))));
    // A new low point on the left goes out at once.
    let out = merge_step(&mut st, Side::Left, wm(6));
    assert_eq!(out.len(), 1);
    assert!(matches!(out[0], Event::Watermark(Time(6))));
}

#[test]
fn merge_watermarks_nondecreasing_over_interleaving() {
    let mut st = MergeState::new();
    let steps: Vec<(Side, Event<u64>)> = vec![
        (Side::Left, wm(5)),
        (Side::Right, wm(3)),
        (Side::Left, wm(7)),
        (Side::Right, wm(10)),
        (Side::Left, wm(12)),
        (Side::Right, wm(12)),
    ];
    let mut emitted: Vec<i64> = Vec::new();
    for (side, ev) in steps {
        for e in merge_step(&mut st, side, ev) {
            if let Event::Watermark(Time(t)) = e {
                emitted.push(t);
            }
        }
    }
    for w in emitted.windows(2) {
        assert!(w[0] <= w[1]);
    }
    assert_eq!(emitted, vec![3, 7, 10]);
}

#[test]
fn merge_sentinel_goes_out_once_both_sides_close() {
    let mut st = MergeState::new();
    let out = merge_step::<u64>(&mut st, Side::Left, Event::Sentinel);
    assert_eq!(out.len(), 0);
    assert!(!st.finished());
    let out = merge_step::<u64>(&mut st, Side::Right, Event::Sentinel);
    assert_eq!(out.len(), 1);
    assert!(matches!(out[0], Event::Sentinel));
    assert!(st.finished());
}

#[test]
fn sorted_releases_ready_data_in_order() {
    let mut st = SortedState::new();
    let mut out: Vec<Event<u64>> = Vec::new();
    for ev in [data(7, 70), data(3, 30), data(12, 120), wm(10)] {
        out.extend(st.step(ev));
    }
    assert_eq!(out.len(), 3);
    assert!(matches!(out[0], Event::Data(Time(3), 30)));
    assert!(matches!(out[1], Event::Data(Time(7), 70)));
    assert!(matches!(out[2], Event::Watermark(Time(10))));
    // The sentinel flushes what is left, then closes the stream.
    out.clear();
    out.extend(st.step(Event::Sentinel));
    assert_eq!(out.len(), 2);
    assert!(matches!(out[0], Event::Data(Time(12), 120)));
    assert!(matches!(out[1], Event::Sentinel));
}

#[test]
fn sorted_keeps_arrival_order_between_equal_timestamps() {
    let mut st = SortedState::new();
    let mut out: Vec<Event<u64>> = Vec::new();
    for ev in [data(5, 1), data(5, 2), data(5, 3), wm(5)] {
        out.extend(st.step(ev));
    }
    assert!(matches!(out[0], Event::Data(Time(5), 1)));
    assert!(matches!(out[1], Event::Data(Time(5), 2)));
    assert!(matches!(out[2], Event::Data(Time(5), 3)));
}

#[test]
fn sorted_heap_matches_sorted_on_same_input() {
    let input: Vec<Event<u64>> = vec![
        data(9, 9),
        data(2, 2),
        wm(4),
        data(4, 4),
        data(15, 15),
        wm(9),
        data(11, 11),
        Event::Sentinel,
    ];
    let mut simple = SortedState::new();
    let mut heap = SortedHeapState::new();
    let mut out_simple: Vec<Event<u64>> = Vec::new();
    let mut out_heap: Vec<Event<u64>> = Vec::new();
    for ev in input {
        let copy = match &ev {
            Event::Data(t, v) => Event::Data(*t, *v),
            Event::Watermark(t) => Event::Watermark(*t),
            Event::Snapshot(i) => Event::Snapshot(*i),
            Event::Sentinel => Event::Sentinel,
        };
        out_simple.extend(simple.step(ev));
        out_heap.extend(heap.step(copy));
    }
    assert_eq!(format!("{:?}", out_simple), format!("{:?}", out_heap));
    // Adjacent data events come out in non-decreasing timestamp order, and
    // every data event emitted before a watermark is at or below it.
    let mut last_data: Option<i64> = None;
    let mut max_data: i64 = i64::MIN;
    for e in &out_simple {
        match e {
            Event::Data(Time(t), _) => {
                if let Some(prev) = last_data {
                    assert!(prev <= *t);
                }
                last_data = Some(*t);
                if *t > max_data {
                    max_data = *t;
                }
            }
            Event::Watermark(Time(w)) => {
                assert!(max_data <= *w || max_data == i64::MIN);
            }
            _ => {}
        }
    }
}

#[test]
fn sorted_merge_via_merge_then_sort() {
    // The reorder buffer downstream of a merge re-establishes timestamp order.
    let mut mg = MergeState::new();
    let mut srt = SortedHeapState::new();
    let feed: Vec<(Side, Event<u64>)> = vec![
        (Side::Left, data(5, 5)),
        (Side::Right, data(1, 1)),
        (Side::Left, wm(6)),
        (Side::Right, wm(6)),
        (Side::Left, Event::Sentinel),
        (Side::Right, Event::Sentinel),
    ];
    let mut out: Vec<Event<u64>> = Vec::new();
    for (side, ev) in feed {
        for e in merge_step(&mut mg, side, ev) {
            out.extend(srt.step(e));
        }
    }
    let times: Vec<i64> = out
        .iter()
        .filter_map(|e| match e {
            Event::Data(Time(t), _) => Some(*t),
            _ => None,
        })
        .collect();
    assert_eq!(times, vec![1, 5]);
    assert!(matches!(out.last(), Some(Event::Sentinel)));
}

#[test]
fn sorted_merge_releases_up_to_the_joint_watermark() {
    let mut st: SortedMergeState<u64> = SortedMergeState::new();
    assert!(st.step(Side::Left, data(5, 50)).is_empty());
    assert!(st.step(Side::Right, data(1, 10)).is_empty());
    // Only the left side has spoken: the joint watermark is still at zero,
    // which is also what gets announced.
    let out = st.step(Side::Left, wm(6));
    assert_eq!(out.len(), 1);
    assert!(matches!(out[0], Event::Watermark(Time(0))));
    // The right side reaches 4: the record at 1 is covered and released.
    let out = st.step(Side::Right, wm(4));
    assert_eq!(out.len(), 2);
    assert!(matches!(out[0], Event::Data(Time(1), 10)));
    assert!(matches!(out[1], Event::Watermark(Time(4))));
    // One sentinel alone releases nothing new.
    let out = st.step(Side::Left, Event::Sentinel);
    assert_eq!(out.len(), 1);
    assert!(matches!(out[0], Event::Watermark(Time(4))));
    assert!(!st.finished());
    // The second sentinel drains the buffer and closes the stream.
    let out = st.step(Side::Right, Event::Sentinel);
    assert_eq!(out.len(), 3);
    assert!(matches!(out[0], Event::Data(Time(5), 50)));
    assert!(matches!(out[1], Event::Watermark(Time(4))));
    assert!(matches!(out[2], Event::Sentinel));
    assert!(st.finished());
}
