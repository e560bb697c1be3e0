use runtime::agg::{CountAgg, MaxAgg, MinAgg, SumAgg};
use runtime::event::KeyedEvent;
use runtime::time::{Duration, Time};
use runtime::window::{window_start, Window};
use runtime::window_op::{
    CountingWindowState, SlidingHolisticState, TumblingHolisticState, TumblingIncrementalState,
};

#[test]
fn window_constructors_carry_their_shape() {
    let d = Duration::from_seconds(10);
    let s = Duration::from_seconds(2);
    assert_eq!(Window::tumbling(d), Window::Tumbling { length: d });
    assert_eq!(Window::sliding(d, s), Window::Sliding { duration: d, step: s });
    assert_eq!(Window::session(s), Window::Session { gap: s });
    assert_eq!(Window::counting(7), Window::Counting { length: 7 });
    assert_eq!(Window::moving(7, 2), Window::Moving { length: 7, step: 2 });
}

#[test]
fn window_start_aligns_down() {
    assert_eq!(window_start(Time(0), Duration(10)), Time(0));
    assert_eq!(window_start(Time(9), Duration(10)), Time(0));
    assert_eq!(window_start(Time(10), Duration(10)), Time(10));
    assert_eq!(window_start(Time(11), Duration(10)), Time(10));
}

#[test]
fn tumbling_window_closes_only_on_watermark() {
    // Bids at t=1 (10), t=2 (20) and t=11 (5), tumbling length 10: the first
    // window covers [0,10) with members {10, 20} only and closes once a
    // watermark at or past 10 arrives; the bid at t=11 belongs to [10,20).
    let mut w: TumblingHolisticState<u64, u64> = TumblingHolisticState::new(Duration(10));
    w.on_data(1, Time(1), 10);
    w.on_data(1, Time(2), 20);
    w.on_data(1, Time(11), 5);
    // A watermark below the window end closes nothing.
    let out = w.on_watermark(Time(9), &SumAgg);
    assert_eq!(out.len(), 1);
    assert!(matches!(out[0], KeyedEvent::Watermark(Time(9))));
    // A watermark at 12 closes [0,10) with sum 30, and [10,20) stays open.
    let out = w.on_watermark(Time(12), &SumAgg);
    assert_eq!(out.len(), 2);
    assert!(matches!(out[0], KeyedEvent::Data(Time(10), 1, 30)));
    assert!(matches!(out[1], KeyedEvent::Watermark(Time(12))));
    // The sentinel flushes the remaining window.
    let out = w.on_sentinel(&SumAgg);
    assert_eq!(out.len(), 2);
    assert!(matches!(out[0], KeyedEvent::Data(Time(20), 1, 5)));
    assert!(matches!(out[1], KeyedEvent::Sentinel));
}

fn run_both(
    input: &[(i64, u64)],
    watermark: i64,
) -> (Vec<KeyedEvent<u64, u64>>, Vec<KeyedEvent<u64, u64>>) {
    let mut hol: TumblingHolisticState<u64, u64> = TumblingHolisticState::new(Duration(10));
    let mut inc: TumblingIncrementalState<u64, u64, u64> =
        TumblingIncrementalState::new(Duration(10), &SumAgg);
    for (t, v) in input {
        hol.on_data(*v % 2, Time(*t), *v);
        inc.on_data(*v % 2, Time(*t), *v, &SumAgg);
    }
    let mut a = hol.on_watermark(Time(watermark), &SumAgg);
    a.extend(hol.on_sentinel(&SumAgg));
    let mut b = inc.on_watermark(Time(watermark), &SumAgg);
    b.extend(inc.on_sentinel(&SumAgg));
    (a, b)
}

#[test]
fn holistic_and_incremental_sum_agree() {
    let input = [(1, 10), (2, 21), (11, 5), (13, 8), (25, 3)];
    let (a, b) = run_both(&input, 20);
    assert_eq!(format!("{:?}", a), format!("{:?}", b));
}

#[test]
fn holistic_and_incremental_count_min_max_agree() {
    let input: Vec<(i64, u64)> = vec![(1, 10), (2, 21), (3, 7), (11, 5), (13, 8)];
    let mut hol: TumblingHolisticState<u64, u64> = TumblingHolisticState::new(Duration(10));
    let mut inc_count: TumblingIncrementalState<u64, u64, u64> =
        TumblingIncrementalState::new(Duration(10), &CountAgg);
    let mut inc_min: TumblingIncrementalState<u64, Option<u64>, u64> =
        TumblingIncrementalState::new(Duration(10), &MinAgg);
    let mut inc_max: TumblingIncrementalState<u64, Option<u64>, u64> =
        TumblingIncrementalState::new(Duration(10), &MaxAgg);
    let mut hol_min: TumblingHolisticState<u64, u64> = TumblingHolisticState::new(Duration(10));
    let mut hol_max: TumblingHolisticState<u64, u64> = TumblingHolisticState::new(Duration(10));
    for (t, v) in &input {
        hol.on_data(0, Time(*t), *v);
        hol_min.on_data(0, Time(*t), *v);
        hol_max.on_data(0, Time(*t), *v);
        inc_count.on_data(0, Time(*t), *v, &CountAgg);
        inc_min.on_data(0, Time(*t), *v, &MinAgg);
        inc_max.on_data(0, Time(*t), *v, &MaxAgg);
    }
    let hc = hol.on_sentinel(&CountAgg);
    let ic = inc_count.on_sentinel(&CountAgg);
    assert_eq!(format!("{:?}", hc), format!("{:?}", ic));
    let hmin = hol_min.on_sentinel(&MinAgg);
    let imin = inc_min.on_sentinel(&MinAgg);
    assert_eq!(format!("{:?}", hmin), format!("{:?}", imin));
    let hmax = hol_max.on_sentinel(&MaxAgg);
    let imax = inc_max.on_sentinel(&MaxAgg);
    assert_eq!(format!("{:?}", hmax), format!("{:?}", imax));
    // And the closed values themselves are the expected ones.
    assert!(matches!(hmin[0], KeyedEvent::Data(_, 0, 7)));
    assert!(matches!(hmax[0], KeyedEvent::Data(_, 0, 21)));
    assert!(matches!(hc[0], KeyedEvent::Data(_, 0, 3)));
}

#[test]
fn counting_window_closes_on_size_and_slides() {
    let mut w: CountingWindowState<u64, u64> = CountingWindowState::new(3, 1);
    let mut out: Vec<KeyedEvent<u64, u64>> = Vec::new();
    for (i, v) in [5u64, 1, 9, 4].iter().enumerate() {
        out.extend(w.on_data(7, Time(i as i64), *v, &SumAgg));
    }
    // The window closes at the third record (5+1+9) and, sliding by one, again
    // at the fourth (1+9+4).
    assert_eq!(out.len(), 2);
    assert!(matches!(out[0], KeyedEvent::Data(Time(2), 7, 15)));
    assert!(matches!(out[1], KeyedEvent::Data(Time(3), 7, 14)));
}

#[test]
fn sliding_window_places_records_in_every_covering_window() {
    // Duration 10, step 5: a record at t=25 belongs to the windows starting
    // at 25 and at 20, and to no other.
    let mut w: SlidingHolisticState<u64, u64> = SlidingHolisticState::new(Duration(10), Duration(5));
    w.on_data(3, Time(25), 1);
    w.on_data(3, Time(26), 1);
    w.on_data(3, Time(31), 1);
    let out = w.on_watermark(Time(50), &CountAgg);
    // Windows close in creation order: [25,35) first (it was opened first,
    // holding all three records), then [20,30) with two, then [30,40).
    assert_eq!(out.len(), 4);
    assert!(matches!(out[0], KeyedEvent::Data(Time(35), 3, 3)));
    assert!(matches!(out[1], KeyedEvent::Data(Time(30), 3, 2)));
    assert!(matches!(out[2], KeyedEvent::Data(Time(40), 3, 1)));
    assert!(matches!(out[3], KeyedEvent::Watermark(Time(50))));
}
