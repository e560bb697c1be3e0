use runtime::data::{
    compare_all, compare_holds, Auction, Bid, CompareOpV, Q6JoinOutput, Value, WasmComponent,
};
use runtime::e3::{run_wasm_e1_func, run_wasm_func, run_wasm_sf_func};
use runtime::q1;
use runtime::q2;
use runtime::q3;
use runtime::q4;
use runtime::q5;
use runtime::q6;
use runtime::q7;
use runtime::agg::Aggregator;
use runtime::event::KeyedEvent;
use runtime::keys::KeyPair;
use runtime::time::{Duration, Time};
use runtime::window_op::TumblingHolisticState;

fn bid(auction: u64, bidder: u64, price: u64, date_time: u64) -> Bid {
    Bid::new(
        auction,
        bidder,
        price,
        String::from("ch"),
        String::from("url"),
        date_time,
        String::new(),
    )
}

fn auction(id: u64, seller: u64, category: u64, date_time: u64, expires: u64) -> Auction {
    Auction {
        id,
        item_name: String::from("item"),
        description: String::new(),
        initial_bid: 1,
        reserve: 2,
        date_time,
        expires,
        seller,
        category,
        extra: String::new(),
    }
}

#[test]
fn q1_rescales_price() {
    let out = q1::q1_map(&bid(4, 9, 85, 77));
    assert_eq!(out, q1::Output::new(4, 100, 9, 77));
    // Rounding goes down.
    let out = q1::q1_map(&bid(4, 9, 86, 77));
    assert_eq!(out.price, 101);
}

#[test]
fn q2_keeps_only_watched_auctions() {
    assert!(q2::q2_filter(&bid(1007, 1, 5, 0)));
    assert!(q2::q2_filter(&bid(2087, 1, 5, 0)));
    assert!(!q2::q2_filter(&bid(1087, 1, 5, 0)));
    assert_eq!(
        q2::q2_filter_map(&bid(2019, 1, 5, 0)),
        Some(q2::Output::new(2019, 5))
    );
    assert_eq!(q2::q2_filter_map(&bid(3, 1, 5, 0)), None);
}

#[test]
fn q3_filters_states_and_categories() {
    let mut p = runtime::data::Person {
        id: 12,
        name: String::from("pat"),
        email_address: String::new(),
        credit_card: String::new(),
        city: String::from("salem"),
        state: String::from("or"),
        date_time: 0,
        extra: String::new(),
    };
    let pruned = q3::q3_person_filter_map(p.clone()).unwrap();
    assert_eq!(pruned.id, 12);
    p.state = String::from("ny");
    assert!(q3::q3_person_filter_map(p).is_none());
    let a = auction(5, 12, 10, 0, 100);
    let pa = q3::q3_auction_filter_map(a.clone()).unwrap();
    assert_eq!(pa, q3::PrunedAuction { id: 5, seller: 12 });
    let mut a2 = a;
    a2.category = 11;
    assert!(q3::q3_auction_filter_map(a2).is_none());
}

#[test]
fn q4_key_filter_and_max() {
    let a = q4::q4_prune_auction(auction(5, 1, 10, 10, 30));
    let b_in = q4::q4_prune_bid(bid(5, 2, 100, 20));
    let b_out = q4::q4_prune_bid(bid(5, 2, 100, 40));
    assert!(q4::q4_filter(&(a, b_in)));
    assert!(!q4::q4_filter(&(a, b_out)));
    assert_eq!(q4::q4_key(&(a, b_in)), KeyPair(5, 10));
    let agg = q4::Q4MaxPriceAgg;
    let acc = agg.step(agg.init(), &(a, b_in));
    let acc = agg.step(acc, &(a, q4::q4_prune_bid(bid(5, 3, 70, 21))));
    assert_eq!(agg.finish(acc), Some(100));
}

#[test]
fn q5_argmax_by_count_takes_last_max() {
    let agg = q5::Q5ArgMaxCountAgg;
    let acc = agg.step(agg.init(), &(10, 3));
    let acc = agg.step(acc, &(11, 5));
    let acc = agg.step(acc, &(12, 5));
    assert_eq!(agg.finish(acc), Some(12));
    assert_eq!(agg.finish(agg.init()), None);
    assert_eq!(q5::q5_prune_bid(bid(9, 8, 7, 6)), runtime::data::Q5PrunedBid::new(9, 8));
}

#[test]
fn q6_join_filter_and_average() {
    let a = q6::q6_prune_auction(auction(5, 77, 0, 10, 30));
    let b = q6::q6_prune_bid(bid(5, 2, 100, 20));
    let j = q6::q6_join_output((a, b));
    assert_eq!(j, Q6JoinOutput::new(77, 30, 10, 100, 20));
    assert!(q6::q6_filter(&j));
    let late = q6::q6_join_output((a, q6::q6_prune_bid(bid(5, 2, 100, 30))));
    assert!(!q6::q6_filter(&late));
    let agg = q6::Q6AvgPriceAgg;
    let mut acc = agg.init();
    for price in [100u64, 200, 250] {
        let v = Q6JoinOutput::new(77, 30, 10, price, 20);
        acc = agg.step(acc, &v);
    }
    assert_eq!(agg.finish(acc), Some(183));
    assert_eq!(agg.finish(agg.init()), None);
}

#[test]
fn q7_takes_highest_priced_bid() {
    let agg = q7::Q7MaxBidAgg;
    let acc = agg.step(agg.init(), &q7::q7_prune_bid(bid(5, 1, 30, 0)));
    let acc = agg.step(acc, &q7::q7_prune_bid(bid(5, 2, 90, 0)));
    let acc = agg.step(acc, &q7::q7_prune_bid(bid(5, 3, 60, 0)));
    let best = agg.finish(acc).unwrap();
    assert_eq!(q7::q7_output(5, &best), q7::Output::new(5, 90, 2));
}

#[test]
fn e1_and_e3_watch_their_own_list() {
    assert!(runtime::e1::opt_func(bid(1087, 1, 5, 0)).is_some());
    assert!(runtime::e1::opt_func(bid(2087, 1, 5, 0)).is_none());
    assert_eq!(
        runtime::e3::opt_func(bid(1007, 1, 5, 0)),
        Some(runtime::e3::Output::new(1007, 5))
    );
}

#[test]
fn e3_wasm_shims_shape_the_call_result() {
    // A stand-in for the external call: the same predicate, natively.
    let call = |args: (u64, u64, Vec<u64>)| -> (Option<(u64, u64)>,) {
        let (a, p, v) = args;
        if v.contains(&a) {
            (Some((a, p)),)
        } else {
            (None,)
        }
    };
    assert_eq!(
        run_wasm_func(bid(2019, 1, 5, 0), call),
        Some(runtime::e3::Output::new(2019, 5))
    );
    assert_eq!(run_wasm_func(bid(4, 1, 5, 0), call), None);

    let single = |args: (u64, Vec<u64>)| -> (bool,) { (args.1.contains(&args.0),) };
    assert_eq!(
        run_wasm_sf_func(bid(1087, 1, 9, 0), single),
        Some(runtime::e3::Output::new(1087, 9))
    );
    assert_eq!(run_wasm_sf_func(bid(5, 1, 9, 0), single), None);

    let e1call = |args: (u64,)| -> (bool,) { (args.0 == 1007,) };
    assert_eq!(
        run_wasm_e1_func(bid(1007, 1, 2, 0), e1call),
        Some(runtime::e3::Output::new(1007, 2))
    );
    assert_eq!(run_wasm_e1_func(bid(1008, 1, 2, 0), e1call), None);
}

#[test]
fn compare_ops_evaluate() {
    let lt = CompareOpV::Lt(Value::TyU64(3), Value::TyU64(5));
    let lt_false = CompareOpV::Lt(Value::TyU64(5), Value::TyU64(3));
    let eq_str = CompareOpV::Eq(
        Value::TyString(String::from("ab")),
        Value::TyString(String::from("ab")),
    );
    let mixed = CompareOpV::Gt(Value::TyString(String::from("z")), Value::TyU64(1));
    assert!(compare_holds(&lt));
    assert!(!compare_holds(&lt_false));
    assert!(compare_holds(&eq_str));
    assert!(!compare_holds(&mixed));
    assert!(compare_all(&vec![lt.clone(), eq_str.clone()]));
    assert!(!compare_all(&vec![lt, lt_false, eq_str]));
    assert!(compare_all(&Vec::new()));
}

#[test]
fn wasm_component_emptiness() {
    let c = WasmComponent::new_empty(42);
    assert!(c.empty());
    assert_eq!(c.timestamp(), 42);
    let mut c2 = c;
    c2.name = String::from("f");
    assert!(!c2.empty());
}

#[test]
fn q7_pipeline_over_windows() {
    // Key bids by auction, aggregate the top bid per tumbling window of ten,
    // and shape the winning record.
    let mut w: TumblingHolisticState<u64, runtime::data::Q7PrunedBid> =
        TumblingHolisticState::new(Duration(10));
    for (t, b) in [
        (1, bid(5, 1, 30, 1)),
        (2, bid(5, 2, 90, 2)),
        (3, bid(6, 3, 10, 3)),
    ] {
        let pruned = q7::q7_prune_bid(b);
        w.on_data(pruned.auction, Time(t), pruned);
    }
    let out = w.on_sentinel(&q7::Q7MaxBidAgg);
    let winners: Vec<q7::Output> = out
        .iter()
        .filter_map(|e| match e {
            KeyedEvent::Data(_, k, best) => Some(q7::q7_output(*k, best)),
            _ => None,
        })
        .collect();
    assert_eq!(winners, vec![q7::Output::new(5, 90, 2), q7::Output::new(6, 10, 3)]);
}
