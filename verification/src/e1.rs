//! Selection with a fixed auction watch list, in the form the pluggable-
//! function experiments use: the native implementation of the predicate.

use vstd::prelude::*;

use crate::data::Bid;

verus! {

/// A selected bid.
#[derive(Debug, Clone, Copy, PartialEq, Eq, Structural)]
pub struct Output {
    pub auction: u64,
    pub price: u64,
}

impl Output {
    pub fn new(auction: u64, price: u64) -> (r: Output)
        ensures
            r == (Output { auction, price }),
    {
        Output { auction, price }
    }
}

/// The auctions this experiment watches.
pub open spec fn spec_e1_selected(auction: u64) -> bool {
    auction == 1007 || auction == 1020 || auction == 2001 || auction == 2019 || auction == 1087
}

/// The native filter-and-project step: the projection of a watched bid,
/// nothing otherwise.
pub fn opt_func(bid: Bid) -> (r: Option<Output>)
    ensures
        r == if spec_e1_selected(bid.auction) {
            Some(Output { auction: bid.auction, price: bid.price })
        } else {
            None::<Output>
        },
{
    if bid.auction == 1007 || bid.auction == 1020 || bid.auction == 2001 || bid.auction == 2019
        || bid.auction == 1087 {
        Some(Output { auction: bid.auction, price: bid.price })
    } else {
        None
    }
}

} // verus!
