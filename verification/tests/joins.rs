use runtime::event::Event;
use runtime::join::IntervalJoinState;
use runtime::time::{Duration, Time};
use runtime::tumbling_join::TumblingJoinState;

#[test]
fn interval_join_example_scenario() {
    // Bounds lower=0, upper=5; left (t=10), right (t=8), (t=12), (t=20):
    // only t=12 lies in [10, 15], so exactly one pair comes out.
    let mut j: IntervalJoinState<u64, u64, u64> = IntervalJoinState::new(Duration(0), Duration(5));
    let mut pairs: Vec<(i64, (u64, u64))> = Vec::new();
    let mut collect = |out: Vec<Event<(u64, u64)>>, pairs: &mut Vec<(i64, (u64, u64))>| {
        for e in out {
            if let Event::Data(Time(t), p) = e {
                pairs.push((t, p));
            }
        }
    };
    let o = j.on_data_right(1, Time(8), 800);
    collect(o, &mut pairs);
    let o = j.on_data_left(1, Time(10), 1000);
    collect(o, &mut pairs);
    let o = j.on_data_right(1, Time(12), 1200);
    collect(o, &mut pairs);
    let o = j.on_data_right(1, Time(20), 2000);
    collect(o, &mut pairs);
    assert_eq!(pairs, vec![(12, (1000, 1200))]);
}

#[test]
fn interval_join_matches_brute_force() {
    // Streaming output must contain exactly the pairs a nested loop finds:
    // no missed pairs and no duplicates.
    let lower = 3i64;
    let upper = 4i64;
    let lefts: Vec<(u64, i64, u64)> = vec![
        (1, 2, 102),
        (2, 3, 203),
        (1, 5, 105),
        (1, 9, 109),
        (2, 12, 212),
        (1, 14, 114),
    ];
    let rights: Vec<(u64, i64, u64)> = vec![
        (1, 1, 901),
        (1, 4, 904),
        (2, 6, 906),
        (1, 8, 908),
        (1, 13, 913),
        (2, 15, 915),
    ];
    // Brute force over the full input set.
    let mut expected: Vec<(u64, u64)> = Vec::new();
    for (lk, lt, lv) in &lefts {
        for (rk, rt, rv) in &rights {
            if lk == rk && *lt - lower <= *rt && *rt <= *lt + upper {
                expected.push((*lv, *rv));
            }
        }
    }
    expected.sort();

    // Streaming: feed both sides in time order with interleaved watermarks.
    let mut j: IntervalJoinState<u64, u64, u64> =
        IntervalJoinState::new(Duration(lower), Duration(upper));
    let mut got: Vec<(u64, u64)> = Vec::new();
    let mut li = 0;
    let mut ri = 0;
    let mut tick = 0i64;
    while li < lefts.len() || ri < rights.len() {
        // Interleave by timestamp, watermark every few events.
        let take_left = ri >= rights.len()
            || (li < lefts.len() && lefts[li].1 <= rights[ri].1);
        let out = if take_left {
            let (k, t, v) = lefts[li];
            li += 1;
            j.on_data_left(k, Time(t), v)
        } else {
            let (k, t, v) = rights[ri];
            ri += 1;
            j.on_data_right(k, Time(t), v)
        };
        for e in out {
            if let Event::Data(_, p) = e {
                got.push(p);
            }
        }
        tick += 1;
        if tick % 3 == 0 {
            let w = if take_left { lefts[li - 1].1 } else { rights[ri - 1].1 };
            let _ = j.on_watermark_left(Time(w));
            let _ = j.on_watermark_right(Time(w));
        }
    }
    got.sort();
    assert_eq!(got, expected);
}

#[test]
fn interval_join_sentinel_after_both_sides() {
    let mut j: IntervalJoinState<u64, u64, u64> = IntervalJoinState::new(Duration(1), Duration(1));
    let out = j.on_sentinel_left();
    assert!(out.is_empty());
    let out = j.on_sentinel_right();
    assert_eq!(out.len(), 1);
    assert!(matches!(out[0], Event::Sentinel));
    assert!(j.finished());
}

#[test]
fn tumbling_join_pairs_within_shared_window() {
    // Window length 10: a left record at t=3 and right records at t=5 (same
    // key) and t=6 (other key) share window [0,10); a right record at t=14
    // lies in the next window and never pairs with it.
    let mut j: TumblingJoinState<u64, u64, u64> = TumblingJoinState::new(Duration(10));
    j.on_data_left(7, Time(3), 73);
    j.on_data_right(7, Time(5), 75);
    j.on_data_right(8, Time(6), 86);
    j.on_data_right(7, Time(14), 714);
    // Both sides' watermarks must pass the window end before it closes.
    let out = j.on_watermark_left(Time(12));
    assert!(out.iter().all(|e| !matches!(e, Event::Data(_, _))));
    let out = j.on_watermark_right(Time(12));
    let pairs: Vec<(i64, (u64, u64))> = out
        .iter()
        .filter_map(|e| match e {
            Event::Data(Time(t), p) => Some((*t, *p)),
            _ => None,
        })
        .collect();
    assert_eq!(pairs, vec![(10, (73, 75))]);
    // Flushing at the two sentinels pairs the rest (nothing, here: the left
    // side has no record in [10,20)).
    let _ = j.on_sentinel_left();
    let out = j.on_sentinel_right();
    assert!(matches!(out.last(), Some(Event::Sentinel)));
    assert!(out.iter().all(|e| !matches!(e, Event::Data(_, _))));
}
