//! Selection: keep only the bids on a fixed set of auctions.

use vstd::prelude::*;

use crate::data::Bid;

verus! {

/// A selected bid.
#[derive(Debug, Clone, Copy, PartialEq, Eq, Structural)]
pub struct Output {
    pub auction: u64,
    pub price: u64,
}

impl Output {
    pub fn new(auction: u64, price: u64) -> (r: Output)
        ensures
            r == (Output { auction, price }),
    {
        Output { auction, price }
    }
}

/// The auctions the query watches.
pub open spec fn spec_q2_selected(auction: u64) -> bool {
    auction == 1007 || auction == 1020 || auction == 2001 || auction == 2019 || auction == 2087
}

/// Whether a bid is on a watched auction.
pub fn q2_filter(bid: &Bid) -> (r: bool)
    ensures
        r == spec_q2_selected(bid.auction),
{
    bid.auction == 1007 || bid.auction == 1020 || bid.auction == 2001 || bid.auction == 2019
        || bid.auction == 2087
}

/// The fused filter-and-project step: the projection of a watched bid,
/// nothing otherwise.
pub fn q2_filter_map(bid: &Bid) -> (r: Option<Output>)
    ensures
        r == if spec_q2_selected(bid.auction) {
            Some(Output { auction: bid.auction, price: bid.price })
        } else {
            None::<Output>
        },
{
    if q2_filter(bid) {
        Some(Output { auction: bid.auction, price: bid.price })
    } else {
        None
    }
}

} // verus!
