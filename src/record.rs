//! One imported transaction.

use vstd::prelude::*;
use crate::calendar::Date;

verus! {

/// A transaction. For single-party layouts `party1 == party2`. A negative
/// amount is money going out, in millionths of the currency unit.
#[derive(Debug)]
pub struct Record {
    pub date: Date,
    pub party1: String,
    pub party2: String,
    pub description: String,
    pub amount: i128,
}

impl Record {
    /// The party a transaction is attributed to: the recipient when money
    /// goes out, the source when it comes in.
    pub open spec fn key_party(&self) -> Seq<char> {
        if self.amount < 0 {
            self.party2@
        } else {
            self.party1@
        }
    }

    pub fn key(&self) -> (r: &String)
        ensures
            r@ == self.key_party(),
    {
        if self.amount < 0 {
            &self.party2
        } else {
            &self.party1
        }
    }
}

} // verus!
