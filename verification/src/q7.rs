//! Highest bid: the top bid per auction and window.

use vstd::prelude::*;

use crate::agg::Aggregator;
use crate::data::Bid;
use crate::data::Q7PrunedBid;

verus! {

/// An auction's winning bid.
#[derive(Debug, Clone, Copy, PartialEq, Eq, Structural)]
pub struct Output {
    pub auction: u64,
    pub price: u64,
    pub bidder: u64,
}

impl Output {
    pub fn new(auction: u64, price: u64, bidder: u64) -> (r: Output)
        ensures
            r == (Output { auction, price, bidder }),
    {
        Output { auction, price, bidder }
    }
}

/// Prune a bid to what the query needs.
pub fn q7_prune_bid(b: Bid) -> (r: Q7PrunedBid)
    ensures
        r == (Q7PrunedBid { auction: b.auction, price: b.price, bidder: b.bidder }),
{
    Q7PrunedBid { auction: b.auction, price: b.price, bidder: b.bidder }
}

/// The bid with the highest price; ties go to the later bid, and an empty
/// window yields nothing.
#[derive(Debug, Clone, Copy, PartialEq, Eq, Structural)]
pub struct Q7MaxBidAgg;

impl Aggregator<Q7PrunedBid, Q7PrunedBid> for Q7MaxBidAgg {
    type Acc = Option<Q7PrunedBid>;

    open spec fn sinit(&self) -> Option<Q7PrunedBid> {
        None
    }

    open spec fn sstep(&self, a: Option<Q7PrunedBid>, v: Q7PrunedBid) -> Option<Q7PrunedBid> {
        match a {
            None => Some(v),
            Some(m) => Some(
                if v.price >= m.price {
                    v
                } else {
                    m
                },
            ),
        }
    }

    open spec fn sfinish(&self, a: Option<Q7PrunedBid>) -> Option<Q7PrunedBid> {
        a
    }

    fn init(&self) -> (r: Option<Q7PrunedBid>) {
        None
    }

    fn step(&self, a: Option<Q7PrunedBid>, v: &Q7PrunedBid) -> (r: Option<Q7PrunedBid>) {
        match a {
            None => Some(*v),
            Some(m) => Some(
                if v.price >= m.price {
                    *v
                } else {
                    m
                },
            ),
        }
    }

    fn finish(&self, a: Option<Q7PrunedBid>) -> (r: Option<Q7PrunedBid>) {
        a
    }
}

/// Combine an auction and its winning bid into the output record.
pub fn q7_output(auction: u64, bid: &Q7PrunedBid) -> (r: Output)
    ensures
        r == (Output { auction, price: bid.price, bidder: bid.bidder }),
{
    Output { auction, price: bid.price, bidder: bid.bidder }
}

} // verus!
