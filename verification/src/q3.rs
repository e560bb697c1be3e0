//! Local-item suggestion: join sellers with people from a few states, keep
//! category-10 auctions.

use vstd::prelude::*;

use vstd::string::StringExecFns;

use crate::data::Auction;
use crate::data::Person;

verus! {

/// A suggested listing: the seller's contact and the auction.
#[derive(Debug, Clone, PartialEq, Eq)]
pub struct Output {
    pub name: String,
    pub city: String,
    pub state: String,
    pub id: u64,
}

/// The auction fields the query needs.
#[derive(Debug, Clone, Copy, PartialEq, Eq, Structural)]
pub struct PrunedAuction {
    pub id: u64,
    pub seller: u64,
}

/// The person fields the query needs.
#[derive(Debug, Clone, PartialEq, Eq)]
pub struct PrunedPerson {
    pub id: u64,
    pub name: String,
    pub city: String,
    pub state: String,
}

/// Whether the person lives in one of the watched states.
pub open spec fn spec_q3_state_selected(state: Seq<char>) -> bool {
    state == "or"@ || state == "id"@ || state == "ca"@
}

/// Keep people from the watched states, pruned to what the query needs.
pub fn q3_person_filter_map(p: Person) -> (r: Option<PrunedPerson>)
    ensures
        r == if spec_q3_state_selected(p.state@) {
            Some(PrunedPerson { id: p.id, name: p.name, city: p.city, state: p.state })
        } else {
            None::<PrunedPerson>
        },
{
    let or_s = String::from_str("or");
    let id_s = String::from_str("id");
    let ca_s = String::from_str("ca");
    if p.state == or_s || p.state == id_s || p.state == ca_s {
        Some(PrunedPerson { id: p.id, name: p.name, city: p.city, state: p.state })
    } else {
        None
    }
}

/// Keep category-10 auctions, pruned to what the query needs.
pub fn q3_auction_filter_map(a: Auction) -> (r: Option<PrunedAuction>)
    ensures
        r == if a.category == 10 {
            Some(PrunedAuction { id: a.id, seller: a.seller })
        } else {
            None::<PrunedAuction>
        },
{
    if a.category == 10 {
        Some(PrunedAuction { id: a.id, seller: a.seller })
    } else {
        None
    }
}

/// Combine one joined pair into the suggestion record.
pub fn q3_output(pair: (PrunedAuction, PrunedPerson)) -> (r: Output)
    ensures
        r == (Output {
            name: pair.1.name,
            city: pair.1.city,
            state: pair.1.state,
            id: pair.0.id,
        }),
{
    let (a, p) = pair;
    Output { name: p.name, city: p.city, state: p.state, id: a.id }
}

} // verus!
