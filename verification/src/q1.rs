//! Currency conversion: every bid's price is rescaled by 100/85.

use vstd::prelude::*;

use crate::data::Bid;

verus! {

/// A converted bid.
#[derive(Debug, Clone, Copy, PartialEq, Eq, Structural)]
pub struct Output {
    pub auction: u64,
    pub price: u64,
    pub bidder: u64,
    pub date_time: u64,
}

impl Output {
    pub fn new(auction: u64, price: u64, bidder: u64, date_time: u64) -> (r: Output)
        ensures
            r == (Output { auction, price, bidder, date_time }),
    {
        Output { auction, price, bidder, date_time }
    }
}

/// Rescale one bid's price by 100/85, rounding down.
pub fn q1_map(bid: &Bid) -> (r: Output)
    requires
        bid.price * 100 <= u64::MAX,
    ensures
        r == (Output {
            auction: bid.auction,
            price: (bid.price * 100 / 85) as u64,
            bidder: bid.bidder,
            date_time: bid.date_time,
        }),
{
    proof {
        vstd::arithmetic::div_mod::lemma_div_basics_4(bid.price * 100, 85);
        vstd::arithmetic::div_mod::lemma_div_is_ordered(bid.price * 100, u64::MAX as int, 85);
        vstd::arithmetic::div_mod::lemma_div_basics_5(u64::MAX as int, 85);
    }
    Output {
        auction: bid.auction,
        price: bid.price * 100 / 85,
        bidder: bid.bidder,
        date_time: bid.date_time,
    }
}

} // verus!
