//! Average closing price per category: join auctions with their bids, keep
//! bids placed while the auction was open, take each auction's top bid per
//! window, then average those per category.

use vstd::prelude::*;

use crate::agg::Aggregator;
use crate::data::Auction;
use crate::data::Bid;
use crate::data::Q4PrunedAuction;
use crate::data::Q4PrunedBid;
use crate::keys::KeyPair;

verus! {

/// A category and its average top price.
#[derive(Debug, Clone, Copy, PartialEq, Eq, Structural)]
pub struct Output {
    pub category: u64,
    pub avg_price: u64,
}

impl Output {
    pub fn new(category: u64, avg_price: u64) -> (r: Output)
        ensures
            r == (Output { category, avg_price }),
    {
        Output { category, avg_price }
    }
}

/// Prune an auction to what the query needs.
pub fn q4_prune_auction(a: Auction) -> (r: Q4PrunedAuction)
    ensures
        r == (Q4PrunedAuction {
            id: a.id,
            category: a.category,
            expires: a.expires,
            date_time: a.date_time,
        }),
{
    Q4PrunedAuction { id: a.id, category: a.category, expires: a.expires, date_time: a.date_time }
}

/// Prune a bid to what the query needs.
pub fn q4_prune_bid(b: Bid) -> (r: Q4PrunedBid)
    ensures
        r == (Q4PrunedBid { auction: b.auction, price: b.price, date_time: b.date_time }),
{
    Q4PrunedBid { auction: b.auction, price: b.price, date_time: b.date_time }
}

/// A bid counts only while its auction was open: placed at or after the
/// listing and at or before the expiry.
pub fn q4_filter(pair: &(Q4PrunedAuction, Q4PrunedBid)) -> (r: bool)
    ensures
        r == (pair.0.date_time <= pair.1.date_time && pair.1.date_time <= pair.0.expires),
{
    pair.0.date_time <= pair.1.date_time && pair.1.date_time <= pair.0.expires
}

/// Group a joined pair by auction and category.
pub fn q4_key(pair: &(Q4PrunedAuction, Q4PrunedBid)) -> (r: KeyPair)
    ensures
        r == KeyPair(pair.0.id, pair.0.category),
{
    KeyPair(pair.0.id, pair.0.category)
}

/// The highest bid price among an auction's joined pairs; an empty window
/// yields nothing.
#[derive(Debug, Clone, Copy, PartialEq, Eq, Structural)]
pub struct Q4MaxPriceAgg;

impl Aggregator<(Q4PrunedAuction, Q4PrunedBid), u64> for Q4MaxPriceAgg {
    type Acc = Option<u64>;

    open spec fn sinit(&self) -> Option<u64> {
        None
    }

    open spec fn sstep(&self, a: Option<u64>, v: (Q4PrunedAuction, Q4PrunedBid)) -> Option<u64> {
        match a {
            None => Some(v.1.price),
            Some(m) => Some(
                if v.1.price > m {
                    v.1.price
                } else {
                    m
                },
            ),
        }
    }

    open spec fn sfinish(&self, a: Option<u64>) -> Option<u64> {
        a
    }

    fn init(&self) -> (r: Option<u64>) {
        None
    }

    fn step(&self, a: Option<u64>, v: &(Q4PrunedAuction, Q4PrunedBid)) -> (r: Option<u64>) {
        match a {
            None => Some(v.1.price),
            Some(m) => Some(
                if v.1.price > m {
                    v.1.price
                } else {
                    m
                },
            ),
        }
    }

    fn finish(&self, a: Option<u64>) -> (r: Option<u64>) {
        a
    }
}

/// Combine a category and its average into the output record.
pub fn q4_output(category: u64, avg_price: u64) -> (r: Output)
    ensures
        r == (Output { category, avg_price }),
{
    Output { category, avg_price }
}

} // verus!
