//! Average selling price per seller: join auctions with bids placed while the
//! auction was open, then average the last ten closing prices per seller.

use vstd::prelude::*;

use crate::agg::Aggregator;
use crate::agg::spec_add_u64_saturating;
use crate::data::Auction;
use crate::data::Bid;
use crate::data::Q6JoinOutput;
use crate::data::Q6PrunedAuction;
use crate::data::Q6PrunedBid;

verus! {

/// A seller and the average price of their recent sales.
#[derive(Debug, Clone, Copy, PartialEq, Eq, Structural)]
pub struct Output {
    pub seller: u64,
    pub avg_bid_price: u64,
}

impl Output {
    pub fn new(seller: u64, avg_bid_price: u64) -> (r: Output)
        ensures
            r == (Output { seller, avg_bid_price }),
    {
        Output { seller, avg_bid_price }
    }
}

/// Prune an auction to what the query needs.
pub fn q6_prune_auction(a: Auction) -> (r: Q6PrunedAuction)
    ensures
        r == (Q6PrunedAuction {
            id: a.id,
            seller: a.seller,
            expires: a.expires,
            date_time: a.date_time,
        }),
{
    Q6PrunedAuction { id: a.id, seller: a.seller, expires: a.expires, date_time: a.date_time }
}

/// Prune a bid to what the query needs.
pub fn q6_prune_bid(b: Bid) -> (r: Q6PrunedBid)
    ensures
        r == (Q6PrunedBid { auction: b.auction, price: b.price, date_time: b.date_time }),
{
    Q6PrunedBid { auction: b.auction, price: b.price, date_time: b.date_time }
}

/// Combine one joined pair into the query's record.
pub fn q6_join_output(pair: (Q6PrunedAuction, Q6PrunedBid)) -> (r: Q6JoinOutput)
    ensures
        r == (Q6JoinOutput {
            auction_seller: pair.0.seller,
            auction_expires: pair.0.expires,
            auction_date_time: pair.0.date_time,
            bid_price: pair.1.price,
            bid_date_time: pair.1.date_time,
        }),
{
    Q6JoinOutput {
        auction_seller: pair.0.seller,
        auction_expires: pair.0.expires,
        auction_date_time: pair.0.date_time,
        bid_price: pair.1.price,
        bid_date_time: pair.1.date_time,
    }
}

/// A sale counts only when the bid fell strictly inside the auction's open
/// interval.
pub fn q6_filter(i: &Q6JoinOutput) -> (r: bool)
    ensures
        r == (i.auction_date_time < i.bid_date_time && i.bid_date_time < i.auction_expires),
{
    i.auction_date_time < i.bid_date_time && i.bid_date_time < i.auction_expires
}

/// The average bid price of the window's sales, rounded down; sums saturate.
#[derive(Debug, Clone, Copy, PartialEq, Eq, Structural)]
pub struct Q6AvgPriceAgg;

impl Aggregator<Q6JoinOutput, u64> for Q6AvgPriceAgg {
    type Acc = (u64, u64);

    open spec fn sinit(&self) -> (u64, u64) {
        (0, 0)
    }

    open spec fn sstep(&self, a: (u64, u64), v: Q6JoinOutput) -> (u64, u64) {
        (
            spec_add_u64_saturating(a.0 as int, v.bid_price as int) as u64,
            spec_add_u64_saturating(a.1 as int, 1) as u64,
        )
    }

    open spec fn sfinish(&self, a: (u64, u64)) -> Option<u64> {
        if a.1 == 0 {
            None
        } else {
            Some((a.0 as int / a.1 as int) as u64)
        }
    }

    fn init(&self) -> (r: (u64, u64)) {
        (0, 0)
    }

    fn step(&self, a: (u64, u64), v: &Q6JoinOutput) -> (r: (u64, u64)) {
        let sum = if a.0 <= u64::MAX - v.bid_price {
            a.0 + v.bid_price
        } else {
            u64::MAX
        };
        let count = if a.1 < u64::MAX {
            a.1 + 1
        } else {
            u64::MAX
        };
        (sum, count)
    }

    fn finish(&self, a: (u64, u64)) -> (r: Option<u64>) {
        if a.1 == 0 {
            None
        } else {
            proof {
                vstd::arithmetic::div_mod::lemma_div_basics_4(a.0 as int, a.1 as int);
                vstd::arithmetic::div_mod::lemma_div_is_ordered(
                    a.0 as int,
                    u64::MAX as int,
                    a.1 as int,
                );
                vstd::arithmetic::div_mod::lemma_div_basics_5(u64::MAX as int, a.1 as int);
            }
            Some(a.0 / a.1)
        }
    }
}

} // verus!
