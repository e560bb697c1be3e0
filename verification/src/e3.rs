//! Per-record steps of the pluggable-function experiments: each takes the
//! call into the externally supplied implementation as a function value,
//! hands it the record's fields and the watch list, and shapes the result.
//! What such a call returns is pinned only by the supplied function's own
//! contract; the shaping around it is exact for every possible return.

use vstd::prelude::*;

use crate::data::Bid;

verus! {

/// A selected bid.
#[derive(Debug, Clone, Copy, PartialEq, Eq, Structural)]
pub struct Output {
    pub auction: u64,
    pub price: u64,
}

impl Output {
    pub fn new(auction: u64, price: u64) -> (r: Output)
        ensures
            r == (Output { auction, price }),
    {
        Output { auction, price }
    }
}

/// The auctions these experiments watch.
pub open spec fn spec_e3_filters() -> Seq<u64> {
    seq![1007u64, 1020u64, 2001u64, 2019u64, 1087u64]
}

/// The native filter-and-project step.
pub fn opt_func(bid: Bid) -> (r: Option<Output>)
    ensures
        r == if crate::e1::spec_e1_selected(bid.auction) {
            Some(Output { auction: bid.auction, price: bid.price })
        } else {
            None::<Output>
        },
{
    if bid.auction == 1007 || bid.auction == 1020 || bid.auction == 2001 || bid.auction == 2019
        || bid.auction == 1087 {
        Some(Output { auction: bid.auction, price: bid.price })
    } else {
        None
    }
}

/// The watch list as a vector, for handing to an external call.
pub fn e3_filters() -> (r: Vec<u64>)
    ensures
        r@ == spec_e3_filters(),
{
    let mut v: Vec<u64> = Vec::new();
    v.push(1007);
    v.push(1020);
    v.push(2001);
    v.push(2019);
    v.push(1087);
    proof {
        assert(v@ =~= spec_e3_filters());
    }
    v
}

/// Hand the supplied function the bid's auction and price with the watch
/// list; its optional pair becomes the output record.
pub fn run_wasm_func<F: Fn((u64, u64, Vec<u64>)) -> (Option<(u64, u64)>,)>(
    input: Bid,
    wasm_func_call: F,
) -> (r: Option<Output>)
    requires
        forall|args: ((u64, u64, Vec<u64>),)| call_requires(wasm_func_call, args),
    ensures
        exists|v: Vec<u64>, res: (Option<(u64, u64)>,)|
            v@ == spec_e3_filters() && call_ensures(
                wasm_func_call,
                ((input.auction, input.price, v),),
                res,
            ) && r == match res.0 {
                Some(p) => Some(Output { auction: p.0, price: p.1 }),
                None => None::<Output>,
            },
{
    let v = e3_filters();
    let (result,) = wasm_func_call((input.auction, input.price, v));
    match result {
        Some(p) => Some(Output { auction: p.0, price: p.1 }),
        None => None,
    }
}

/// Hand the supplied predicate the bid's auction with the watch list; a true
/// answer keeps the bid's own fields.
pub fn run_wasm_sf_func<F: Fn((u64, Vec<u64>)) -> (bool,)>(input: Bid, wasm_func_call: F) -> (r:
    Option<Output>)
    requires
        forall|args: ((u64, Vec<u64>),)| call_requires(wasm_func_call, args),
    ensures
        exists|v: Vec<u64>, res: (bool,)|
            v@ == spec_e3_filters() && call_ensures(wasm_func_call, ((input.auction, v),), res)
                && r == if res.0 {
                Some(Output { auction: input.auction, price: input.price })
            } else {
                None::<Output>
            },
{
    let v = e3_filters();
    let (result,) = wasm_func_call((input.auction, v));
    if result {
        Some(Output { auction: input.auction, price: input.price })
    } else {
        None
    }
}

/// Hand the supplied predicate the bid's auction alone; a true answer keeps
/// the bid's own fields.
pub fn run_wasm_e1_func<F: Fn((u64,)) -> (bool,)>(input: Bid, wasm_func_call: F) -> (r: Option<
    Output,
>)
    requires
        forall|args: ((u64,),)| call_requires(wasm_func_call, args),
    ensures
        exists|res: (bool,)|
            call_ensures(wasm_func_call, ((input.auction,),), res) && r == if res.0 {
                Some(Output { auction: input.auction, price: input.price })
            } else {
                None::<Output>
            },
{
    let (result,) = wasm_func_call((input.auction,));
    if result {
        Some(Output { auction: input.auction, price: input.price })
    } else {
        None
    }
}

} // verus!
