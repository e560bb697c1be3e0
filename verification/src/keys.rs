//! Grouping keys.
//!
//! Operators that group by key (windows, joins) compare keys at runtime; the
//! `Key` trait ties that runtime comparison to mathematical equality, so that
//! contracts can speak of "the entries with this key".

use vstd::prelude::*;

use crate::event::DeepClone;

verus! {

/// A grouping key: decidable equality that agrees with equality of values.
pub trait Key: Sized {
    fn key_eq(&self, other: &Self) -> (r: bool)
        ensures
            r == (*self == *other),
    ;
}

impl Key for u64 {
    fn key_eq(&self, other: &Self) -> (r: bool)
        ensures
            r == (*self == *other),
    {
        *self == *other
    }
}

/// A compound key of two numbers, for grouping by a pair such as an
/// identifier together with a category.
#[derive(Debug, Clone, Copy, PartialEq, Eq, Structural)]
pub struct KeyPair(pub u64, pub u64);

impl Key for KeyPair {
    fn key_eq(&self, other: &Self) -> (r: bool)
        ensures
            r == (*self == *other),
    {
        self.0 == other.0 && self.1 == other.1
    }
}

impl DeepClone for KeyPair {
    fn deep_clone(&self) -> (r: KeyPair)
        ensures
            r == *self,
    {
        *self
    }
}

} // verus!
