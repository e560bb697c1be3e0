//! Hot items: the auction with the most bids per sliding window.

use vstd::prelude::*;

use crate::agg::Aggregator;
use crate::data::Bid;
use crate::data::Q5PrunedBid;

verus! {

/// The hottest auction.
#[derive(Debug, Clone, Copy, PartialEq, Eq, Structural)]
pub struct Output {
    pub auction: u64,
}

impl Output {
    pub fn new(auction: u64) -> (r: Output)
        ensures
            r == (Output { auction }),
    {
        Output { auction }
    }
}

/// Prune a bid to what the query needs.
pub fn q5_prune_bid(b: Bid) -> (r: Q5PrunedBid)
    ensures
        r == (Q5PrunedBid { auction: b.auction, bidder: b.bidder }),
{
    Q5PrunedBid { auction: b.auction, bidder: b.bidder }
}

/// Among (auction, bid-count) pairs, the auction of the pair with the largest
/// count; ties go to the later pair, and an empty window yields nothing.
#[derive(Debug, Clone, Copy, PartialEq, Eq, Structural)]
pub struct Q5ArgMaxCountAgg;

impl Aggregator<(u64, u64), u64> for Q5ArgMaxCountAgg {
    type Acc = Option<(u64, u64)>;

    open spec fn sinit(&self) -> Option<(u64, u64)> {
        None
    }

    open spec fn sstep(&self, a: Option<(u64, u64)>, v: (u64, u64)) -> Option<(u64, u64)> {
        match a {
            None => Some(v),
            Some(m) => Some(
                if v.1 >= m.1 {
                    v
                } else {
                    m
                },
            ),
        }
    }

    open spec fn sfinish(&self, a: Option<(u64, u64)>) -> Option<u64> {
        match a {
            None => None,
            Some(m) => Some(m.0),
        }
    }

    fn init(&self) -> (r: Option<(u64, u64)>) {
        None
    }

    fn step(&self, a: Option<(u64, u64)>, v: &(u64, u64)) -> (r: Option<(u64, u64)>) {
        match a {
            None => Some(*v),
            Some(m) => Some(
                if v.1 >= m.1 {
                    *v
                } else {
                    m
                },
            ),
        }
    }

    fn finish(&self, a: Option<(u64, u64)>) -> (r: Option<u64>) {
        match a {
            None => None,
            Some(m) => Some(m.0),
        }
    }
}

} // verus!
