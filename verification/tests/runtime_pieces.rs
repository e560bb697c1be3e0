use runtime::cache::Cache;
use runtime::data::Bid;
use runtime::encode::{b64_decode, b64_encode, component_from_text, encode_component_file};
use runtime::data::WasmComponent;
use runtime::event::{DeepClone, Event, KeyedEvent, SendError};
use runtime::result::ExperimentResult;
use runtime::source::SourceState;
use runtime::stateless::{
    collect_step, filter_map_step, filter_step, flat_map_step, fork_step, keyby_step,
    keyed_flat_map_step, map_step, sink_step, split_step, unkey_step, SinkAction, TakeState,
};
use runtime::swap::{apply_result, swap_step, Either, EitherData, SwapAction};
use runtime::time::{Duration, Time};

#[test]
fn time_and_duration_arithmetic() {
    assert_eq!(Duration::from_seconds(3), Duration(3000));
    assert_eq!(Duration::from_minutes(2), Duration(120000));
    assert_eq!(Duration::from_milliseconds(7), Duration(7));
    assert_eq!(Time(10).sub_duration(Duration(4)), Time(6));
    assert_eq!(Time(10).add_duration(Duration(4)), Time(14));
    assert_eq!(Time(i64::MIN + 1).sub_duration(Duration(5)), Time(i64::MIN));
    assert_eq!(Time(i64::MAX - 1).add_duration(Duration(5)), Time(i64::MAX));
    assert_eq!(Time(3).min(Time(5)), Time(3));
    assert_eq!(Time(3).max(Time(5)), Time(5));
    assert!(Time::zero().le(Time(0)));
    assert!(Time(1).lt(Time(2)));
}

#[test]
fn send_error_is_closed() {
    let e = SendError::Closed;
    assert_eq!(e, SendError::Closed);
}

#[test]
fn map_and_filter_steps() {
    let double = |x: u64| -> u64 { x * 2 };
    let out = map_step(&double, Event::Data(Time(1), 21u64));
    assert!(matches!(out, Event::Data(Time(1), 42)));
    let out = map_step(&double, Event::<u64>::Watermark(Time(9)));
    assert!(matches!(out, Event::Watermark(Time(9))));

    let even = |x: &u64| -> bool { *x % 2 == 0 };
    assert!(matches!(
        filter_step(&even, Event::Data(Time(1), 4u64)),
        Some(Event::Data(Time(1), 4))
    ));
    assert!(filter_step(&even, Event::Data(Time(1), 5u64)).is_none());
    assert!(matches!(
        filter_step(&even, Event::<u64>::Sentinel),
        Some(Event::Sentinel)
    ));

    let half = |x: u64| -> Option<u64> { if x % 2 == 0 { Some(x / 2) } else { None } };
    assert!(matches!(
        filter_map_step(&half, Event::Data(Time(1), 10u64)),
        Some(Event::Data(Time(1), 5))
    ));
    assert!(filter_map_step(&half, Event::Data(Time(1), 3u64)).is_none());
}

#[test]
fn flat_map_and_keyed_steps() {
    let dup = |x: u64| -> Vec<u64> { vec![x, x + 1] };
    let out = flat_map_step(&dup, Event::Data(Time(2), 7u64));
    assert_eq!(out.len(), 2);
    assert!(matches!(out[0], Event::Data(Time(2), 7)));
    assert!(matches!(out[1], Event::Data(Time(2), 8)));

    let keyed = keyby_step(&|x: &u64| -> u64 { *x % 3 }, Event::Data(Time(2), 7u64));
    assert!(matches!(keyed, KeyedEvent::Data(Time(2), 1, 7)));
    let back = unkey_step(KeyedEvent::Data(Time(2), 1u64, 7u64));
    assert!(matches!(back, Event::Data(Time(2), 7)));

    let out = keyed_flat_map_step(&dup, KeyedEvent::Data(Time(2), 9u64, 7u64));
    assert_eq!(out.len(), 2);
    assert!(matches!(out[0], KeyedEvent::Data(Time(2), 9, 7)));
    assert!(matches!(out[1], KeyedEvent::Data(Time(2), 9, 8)));
}

#[test]
fn take_stops_after_its_budget() {
    let mut st = TakeState::new(2);
    assert!(st.open::<u64>().is_empty());
    let out = st.step(Event::Data(Time(1), 1u64));
    assert!(matches!(out[0], Event::Data(Time(1), 1)));
    let out = st.step(Event::<u64>::Watermark(Time(2)));
    assert!(matches!(out[0], Event::Watermark(Time(2))));
    // The record that spends the budget carries the sentinel with it: the
    // operator stops even though upstream has more, consuming nothing else.
    let out = st.step(Event::Data(Time(3), 2u64));
    assert_eq!(out.len(), 2);
    assert!(matches!(out[0], Event::Data(Time(3), 2)));
    assert!(matches!(out[1], Event::Sentinel));
    assert!(st.done);
}

#[test]
fn take_with_no_budget_emits_only_the_sentinel() {
    // A zero budget closes the stream before anything is consumed: the whole
    // output is the sentinel, and a pending watermark is never forwarded.
    let mut st = TakeState::new(0);
    let out = st.open::<u64>();
    assert_eq!(out.len(), 1);
    assert!(matches!(out[0], Event::Sentinel));
    assert!(st.done);
}

#[test]
fn fork_and_split_duplicate() {
    let (a, b) = fork_step(Event::Data(Time(5), 9u64));
    assert!(matches!(a, Event::Data(Time(5), 9)));
    assert!(matches!(b, Event::Data(Time(5), 9)));
    let (a, b) = split_step(KeyedEvent::Data(Time(5), 2u64, 9u64));
    assert!(matches!(a, KeyedEvent::Data(Time(5), 2, 9)));
    assert!(matches!(b, KeyedEvent::Data(Time(5), 2, 9)));
}

#[test]
fn sink_and_collect() {
    assert!(matches!(sink_step(Event::Data(Time(1), 5u64)), SinkAction::Emit(5)));
    assert!(matches!(sink_step(Event::<u64>::Watermark(Time(1))), SinkAction::Skip));
    assert!(matches!(sink_step(Event::<u64>::Sentinel), SinkAction::Stop));
    let mut acc: Vec<u64> = Vec::new();
    assert!(!collect_step(&mut acc, Event::Data(Time(1), 5u64)));
    assert!(!collect_step(&mut acc, Event::Watermark(Time(2))));
    assert!(collect_step(&mut acc, Event::Sentinel));
    assert_eq!(acc, vec![5]);
}

#[test]
fn source_drops_late_data() {
    let mut s = SourceState::new(Duration(2));
    assert!(matches!(s.on_item(Time(10), 1u64), Some(Event::Data(Time(10), 1))));
    let w = s.on_tick::<u64>();
    assert!(matches!(w, Some(Event::Watermark(Time(8)))));
    // A record behind the watermark is silently dropped at the boundary.
    assert!(s.on_item(Time(7), 2u64).is_none());
    assert!(matches!(s.on_item(Time(8), 3u64), Some(Event::Data(Time(8), 3))));
    assert!(matches!(s.on_end::<u64>(), Event::Sentinel));
}

#[test]
fn source_tick_before_any_data_is_silent() {
    let mut s = SourceState::new(Duration(2));
    assert!(s.on_tick::<u64>().is_none());
}

#[test]
fn swap_installs_and_invokes() {
    let comp = WasmComponent::new_empty(1);
    let act = swap_step::<u64>(false, Event::Data(Time(1), Either::Component(comp)));
    assert!(matches!(act, SwapAction::Install(_)));
    let act = swap_step::<u64>(false, Event::Data(Time(2), Either::Data(7)));
    assert!(matches!(act, SwapAction::EmitEmpty(Time(2))));
    let act = swap_step::<u64>(true, Event::Data(Time(2), Either::Data(7)));
    assert!(matches!(act, SwapAction::Invoke(Time(2), 7)));
    let act = swap_step::<u64>(true, Event::Watermark(Time(3)));
    assert!(matches!(act, SwapAction::ForwardWatermark(Time(3))));
    let act = swap_step::<u64>(true, Event::Sentinel);
    assert!(matches!(act, SwapAction::Finish));
    let out = apply_result(Time(2), Some(9u64));
    assert!(matches!(out, Event::Data(Time(2), Some(9))));
}

#[test]
fn cache_inserts_and_gets() {
    let mut c = Cache::new();
    assert!(c.get(&[1, 2]).is_none());
    assert!(c.insert(vec![1, 2], vec![9]));
    assert_eq!(c.get(&[1, 2]).unwrap(), &vec![9u8]);
    // Rebinding replaces; other keys keep their binding.
    assert!(c.insert(vec![3], vec![7]));
    assert!(c.insert(vec![1, 2], vec![8]));
    assert_eq!(c.get(&[1, 2]).unwrap(), &vec![8u8]);
    assert_eq!(c.get(&[3]).unwrap(), &vec![7u8]);
}

#[test]
fn experiment_result_averages() {
    let dir = String::from("out");
    let mut r = ExperimentResult::new("run", 1, &dir);
    assert!(r.averages().0.is_none());
    r.add(10);
    r.add(20);
    r.add(60);
    let (all, rest) = r.averages();
    assert_eq!(all, Some(30));
    // Warmup of one: the average of the last two runs.
    assert_eq!(rest, Some(40));
}

#[test]
fn base64_round_trips_through_the_real_encoder() {
    let bytes: Vec<u8> = vec![0, 1, 2, 250, 255, 7];
    let text = b64_encode(&bytes);
    // A wrapper that handed its argument back unchanged would fail here.
    assert_ne!(text.as_bytes(), bytes.as_slice());
    assert_eq!(b64_decode(&text), Some(bytes.clone()));
    let c = WasmComponent {
        file: bytes,
        pkg_name: String::from("pkg"),
        name: String::from("f"),
        date_time: 3,
        extra: String::new(),
    };
    let text2 = encode_component_file(&c);
    let c2 = component_from_text(&text2, c.pkg_name.clone(), c.name.clone(), 3, String::new())
        .unwrap();
    assert_eq!(c2.file, c.file);
    assert!(b64_decode(&String::from("!!not base64!!")).is_none());
}

#[test]
fn deep_clone_keeps_values() {
    let b = Bid::new(1, 2, 3, String::from("c"), String::from("u"), 4, String::from("e"));
    let b2 = b.deep_clone();
    assert_eq!(b, b2);
    let ev = Event::Data(Time(1), b);
    let ev2 = ev.deep_clone();
    assert_eq!(format!("{:?}", ev), format!("{:?}", ev2));
}

#[test]
fn swap_drives_any_record_kind() {
    let b = Bid::new(1, 2, 3, String::new(), String::new(), 9, String::new());
    let d = EitherData::Bid(b);
    assert_eq!(d.timestamp(), 9);
    let d2 = d.deep_clone();
    assert_eq!(d, d2);
    let act = swap_step(true, Event::Data(Time(9), Either::Data(d)));
    assert!(matches!(act, SwapAction::Invoke(Time(9), EitherData::Bid(_))));
}
