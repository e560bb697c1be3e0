//! The benchmark's record types: auctions, people, bids, their pruned
//! projections, dynamically loadable transformation modules, and a small
//! comparison language for externally evaluated predicates.

use vstd::prelude::*;

use crate::event::DeepClone;

verus! {

/// An auction listing.
#[derive(Debug, Clone, PartialEq, Eq)]
pub struct Auction {
    pub id: u64,
    pub item_name: String,
    pub description: String,
    pub initial_bid: u64,
    pub reserve: u64,
    pub date_time: u64,
    pub expires: u64,
    pub seller: u64,
    pub category: u64,
    pub extra: String,
}

/// A registered person.
#[derive(Debug, Clone, PartialEq, Eq)]
pub struct Person {
    pub id: u64,
    pub name: String,
    pub email_address: String,
    pub credit_card: String,
    pub city: String,
    pub state: String,
    pub date_time: u64,
    pub extra: String,
}

/// A bid on an auction.
#[derive(Debug, Clone, PartialEq, Eq)]
pub struct Bid {
    pub auction: u64,
    pub bidder: u64,
    pub price: u64,
    pub channel: String,
    pub url: String,
    pub date_time: u64,
    pub extra: String,
}

/// An externally supplied transformation module: its binary image and the
/// package and function it exports, carried on a control stream.
#[derive(Debug, Clone, PartialEq, Eq)]
pub struct WasmComponent {
    pub file: Vec<u8>,
    pub pkg_name: String,
    pub name: String,
    pub date_time: u64,
    pub extra: String,
}

impl Bid {
    pub fn new(
        auction: u64,
        bidder: u64,
        price: u64,
        channel: String,
        url: String,
        date_time: u64,
        extra: String,
    ) -> (r: Bid)
        ensures
            r == (Bid { auction, bidder, price, channel, url, date_time, extra }),
    {
        Bid { auction, bidder, price, channel, url, date_time, extra }
    }

    pub fn timestamp(&self) -> (r: u64)
        ensures
            r == self.date_time,
    {
        self.date_time
    }
}

impl Auction {
    pub fn timestamp(&self) -> (r: u64)
        ensures
            r == self.date_time,
    {
        self.date_time
    }
}

impl Person {
    pub fn timestamp(&self) -> (r: u64)
        ensures
            r == self.date_time,
    {
        self.date_time
    }
}

impl WasmComponent {
    /// A stand-in with no module loaded.
    pub fn new_empty(date_time: u64) -> (r: WasmComponent)
        ensures
            r.file@ =~= Seq::<u8>::empty(),
            r.pkg_name@ =~= Seq::<char>::empty(),
            r.name@ =~= Seq::<char>::empty(),
            r.date_time == date_time,
            r.extra@ =~= Seq::<char>::empty(),
    {
        WasmComponent {
            file: Vec::new(),
            pkg_name: String::new(),
            name: String::new(),
            date_time,
            extra: String::new(),
        }
    }

    /// Whether no module is loaded: no image, no package, no name.
    pub fn empty(&self) -> (r: bool)
        ensures
            r == (self.pkg_name@.len() == 0 && self.name@.len() == 0 && self.file@.len() == 0),
    {
        self.pkg_name.as_str().is_empty() && self.name.as_str().is_empty()
            && self.file.len() == 0
    }

    pub fn timestamp(&self) -> (r: u64)
        ensures
            r == self.date_time,
    {
        self.date_time
    }
}

impl DeepClone for Bid {
    fn deep_clone(&self) -> (r: Bid)
        ensures
            r == *self,
    {
        Bid {
            auction: self.auction,
            bidder: self.bidder,
            price: self.price,
            channel: self.channel.clone(),
            url: self.url.clone(),
            date_time: self.date_time,
            extra: self.extra.clone(),
        }
    }
}

impl DeepClone for Auction {
    fn deep_clone(&self) -> (r: Auction)
        ensures
            r == *self,
    {
        Auction {
            id: self.id,
            item_name: self.item_name.clone(),
            description: self.description.clone(),
            initial_bid: self.initial_bid,
            reserve: self.reserve,
            date_time: self.date_time,
            expires: self.expires,
            seller: self.seller,
            category: self.category,
            extra: self.extra.clone(),
        }
    }
}

impl DeepClone for Person {
    fn deep_clone(&self) -> (r: Person)
        ensures
            r == *self,
    {
        Person {
            id: self.id,
            name: self.name.clone(),
            email_address: self.email_address.clone(),
            credit_card: self.credit_card.clone(),
            city: self.city.clone(),
            state: self.state.clone(),
            date_time: self.date_time,
            extra: self.extra.clone(),
        }
    }
}

/// The auction fields the category-average query needs.
#[derive(Debug, Clone, Copy, PartialEq, Eq, Structural)]
pub struct Q4PrunedAuction {
    pub id: u64,
    pub category: u64,
    pub expires: u64,
    pub date_time: u64,
}

/// The bid fields the category-average query needs.
#[derive(Debug, Clone, Copy, PartialEq, Eq, Structural)]
pub struct Q4PrunedBid {
    pub auction: u64,
    pub price: u64,
    pub date_time: u64,
}

/// The bid fields the hot-items query needs.
#[derive(Debug, Clone, Copy, PartialEq, Eq, Structural)]
pub struct Q5PrunedBid {
    pub auction: u64,
    pub bidder: u64,
}

/// The auction fields the seller-average query needs.
#[derive(Debug, Clone, Copy, PartialEq, Eq, Structural)]
pub struct Q6PrunedAuction {
    pub id: u64,
    pub seller: u64,
    pub expires: u64,
    pub date_time: u64,
}

/// The bid fields the seller-average query needs.
#[derive(Debug, Clone, Copy, PartialEq, Eq, Structural)]
pub struct Q6PrunedBid {
    pub auction: u64,
    pub price: u64,
    pub date_time: u64,
}

/// A joined auction/bid record for the seller-average query.
#[derive(Debug, Clone, Copy, PartialEq, Eq, Structural)]
pub struct Q6JoinOutput {
    pub auction_seller: u64,
    pub auction_expires: u64,
    pub auction_date_time: u64,
    pub bid_price: u64,
    pub bid_date_time: u64,
}

/// The bid fields the highest-bid query needs.
#[derive(Debug, Clone, Copy, PartialEq, Eq, Structural)]
pub struct Q7PrunedBid {
    pub auction: u64,
    pub price: u64,
    pub bidder: u64,
}

/// The bid fields the price-statistics query needs.
#[derive(Debug, Clone, Copy, PartialEq, Eq, Structural)]
pub struct QwPrunedBid {
    pub price: u64,
}

impl Q4PrunedAuction {
    pub fn new(id: u64, category: u64, expires: u64, date_time: u64) -> (r: Q4PrunedAuction)
        ensures
            r == (Q4PrunedAuction { id, category, expires, date_time }),
    {
        Q4PrunedAuction { id, category, expires, date_time }
    }
}

impl Q4PrunedBid {
    pub fn new(auction: u64, price: u64, date_time: u64) -> (r: Q4PrunedBid)
        ensures
            r == (Q4PrunedBid { auction, price, date_time }),
    {
        Q4PrunedBid { auction, price, date_time }
    }
}

impl Q5PrunedBid {
    pub fn new(auction: u64, bidder: u64) -> (r: Q5PrunedBid)
        ensures
            r == (Q5PrunedBid { auction, bidder }),
    {
        Q5PrunedBid { auction, bidder }
    }
}

impl Q6PrunedAuction {
    pub fn new(id: u64, seller: u64, expires: u64, date_time: u64) -> (r: Q6PrunedAuction)
        ensures
            r == (Q6PrunedAuction { id, seller, expires, date_time }),
    {
        Q6PrunedAuction { id, seller, expires, date_time }
    }
}

impl Q6PrunedBid {
    pub fn new(auction: u64, price: u64, date_time: u64) -> (r: Q6PrunedBid)
        ensures
            r == (Q6PrunedBid { auction, price, date_time }),
    {
        Q6PrunedBid { auction, price, date_time }
    }
}

impl Q6JoinOutput {
    pub fn new(
        auction_seller: u64,
        auction_expires: u64,
        auction_date_time: u64,
        bid_price: u64,
        bid_date_time: u64,
    ) -> (r: Q6JoinOutput)
        ensures
            r == (Q6JoinOutput {
                auction_seller,
                auction_expires,
                auction_date_time,
                bid_price,
                bid_date_time,
            }),
    {
        Q6JoinOutput { auction_seller, auction_expires, auction_date_time, bid_price, bid_date_time }
    }
}

impl Q7PrunedBid {
    pub fn new(auction: u64, price: u64, bidder: u64) -> (r: Q7PrunedBid)
        ensures
            r == (Q7PrunedBid { auction, price, bidder }),
    {
        Q7PrunedBid { auction, price, bidder }
    }
}

impl QwPrunedBid {
    pub fn new(price: u64) -> (r: QwPrunedBid)
        ensures
            r == (QwPrunedBid { price }),
    {
        QwPrunedBid { price }
    }
}

impl DeepClone for Q4PrunedAuction {
    fn deep_clone(&self) -> (r: Q4PrunedAuction)
        ensures
            r == *self,
    {
        *self
    }
}

impl DeepClone for Q4PrunedBid {
    fn deep_clone(&self) -> (r: Q4PrunedBid)
        ensures
            r == *self,
    {
        *self
    }
}

impl DeepClone for Q5PrunedBid {
    fn deep_clone(&self) -> (r: Q5PrunedBid)
        ensures
            r == *self,
    {
        *self
    }
}

impl DeepClone for Q6PrunedAuction {
    fn deep_clone(&self) -> (r: Q6PrunedAuction)
        ensures
            r == *self,
    {
        *self
    }
}

impl DeepClone for Q6PrunedBid {
    fn deep_clone(&self) -> (r: Q6PrunedBid)
        ensures
            r == *self,
    {
        *self
    }
}

impl DeepClone for Q6JoinOutput {
    fn deep_clone(&self) -> (r: Q6JoinOutput)
        ensures
            r == *self,
    {
        *self
    }
}

impl DeepClone for Q7PrunedBid {
    fn deep_clone(&self) -> (r: Q7PrunedBid)
        ensures
            r == *self,
    {
        *self
    }
}

/// A value an externally evaluated predicate can mention.
#[derive(Debug, Clone, PartialEq, Eq)]
pub enum Value {
    TyU64(u64),
    TyString(String),
}

/// A comparison between two values, evaluated by a pluggable predicate.
#[derive(Debug, Clone, PartialEq, Eq)]
pub enum CompareOpV {
    Eq(Value, Value),
    Ne(Value, Value),
    Gt(Value, Value),
    Gte(Value, Value),
    Lt(Value, Value),
    Lte(Value, Value),
}

/// When two values are the same: numbers by value, strings by contents;
/// values of different kinds are never equal.
pub open spec fn spec_value_eq(a: Value, b: Value) -> bool {
    match (a, b) {
        (Value::TyU64(x), Value::TyU64(y)) => x == y,
        (Value::TyString(x), Value::TyString(y)) => x@ == y@,
        _ => false,
    }
}

/// What a comparison means: equality for any values, order only between
/// numbers — an ordered comparison of anything else does not hold.
pub open spec fn spec_compare_holds(op: CompareOpV) -> bool {
    match op {
        CompareOpV::Eq(a, b) => spec_value_eq(a, b),
        CompareOpV::Ne(a, b) => !spec_value_eq(a, b),
        CompareOpV::Gt(a, b) => match (a, b) {
            (Value::TyU64(x), Value::TyU64(y)) => x > y,
            _ => false,
        },
        CompareOpV::Gte(a, b) => match (a, b) {
            (Value::TyU64(x), Value::TyU64(y)) => x >= y,
            _ => false,
        },
        CompareOpV::Lt(a, b) => match (a, b) {
            (Value::TyU64(x), Value::TyU64(y)) => x < y,
            _ => false,
        },
        CompareOpV::Lte(a, b) => match (a, b) {
            (Value::TyU64(x), Value::TyU64(y)) => x <= y,
            _ => false,
        },
    }
}

/// Decide value equality.
pub fn value_eq(a: &Value, b: &Value) -> (r: bool)
    ensures
        r == spec_value_eq(*a, *b),
{
    match (a, b) {
        (Value::TyU64(x), Value::TyU64(y)) => *x == *y,
        (Value::TyString(x), Value::TyString(y)) => *x == *y,
        _ => false,
    }
}

/// Decide one comparison.
pub fn compare_holds(op: &CompareOpV) -> (r: bool)
    ensures
        r == spec_compare_holds(*op),
{
    match op {
        CompareOpV::Eq(a, b) => value_eq(a, b),
        CompareOpV::Ne(a, b) => !value_eq(a, b),
        CompareOpV::Gt(a, b) => match (a, b) {
            (Value::TyU64(x), Value::TyU64(y)) => *x > *y,
            _ => false,
        },
        CompareOpV::Gte(a, b) => match (a, b) {
            (Value::TyU64(x), Value::TyU64(y)) => *x >= *y,
            _ => false,
        },
        CompareOpV::Lt(a, b) => match (a, b) {
            (Value::TyU64(x), Value::TyU64(y)) => *x < *y,
            _ => false,
        },
        CompareOpV::Lte(a, b) => match (a, b) {
            (Value::TyU64(x), Value::TyU64(y)) => *x <= *y,
            _ => false,
        },
    }
}

/// Decide a conjunction of comparisons, as a pluggable predicate evaluates a
/// batch of them.
pub fn compare_all(ops: &Vec<CompareOpV>) -> (r: bool)
    ensures
        r == (forall|i: int| 0 <= i < ops@.len() ==> spec_compare_holds(ops@[i])),
{
    let mut i: usize = 0;
    while i < ops.len()
        invariant
            0 <= i <= ops@.len(),
            forall|j: int| 0 <= j < i ==> spec_compare_holds(ops@[j]),
        decreases ops@.len() - i,
    {
        if !compare_holds(&ops[i]) {
            return false;
        }
        i = i + 1;
    }
    true
}

} // verus!
