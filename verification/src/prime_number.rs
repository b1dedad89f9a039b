//! The record of one confirmed prime, as the persistence queue buffers and
//! stores it.

use vstd::prelude::*;

verus! {

/// A confirmed prime together with when it was found and how long its check
/// took.
///
/// The discovery timestamp and the elapsed time are carried as already
/// formatted text: this library only ever stores them, and the clock that
/// produces them lives outside it. A record is created the instant a
/// candidate is confirmed prime and never changed afterwards.
pub struct PrimeNumber {
    pub number: u32,
    pub created_at: String,
    pub elapsed_secs: String,
}

/// The mathematical image of one record.
pub ghost struct PrimeRecord {
    pub number: int,
    pub created_at: Seq<char>,
    pub elapsed_secs: Seq<char>,
}

impl View for PrimeNumber {
    type V = PrimeRecord;

    open spec fn view(&self) -> PrimeRecord {
        PrimeRecord {
            number: self.number as int,
            created_at: self.created_at@,
            elapsed_secs: self.elapsed_secs@,
        }
    }
}

impl PrimeNumber {
    /// A record for the confirmed prime `number`, found at `created_at`
    /// after `elapsed_secs` seconds of checking.
    pub fn new(number: u32, created_at: String, elapsed_secs: String) -> (r: Self)
        ensures
            r@ == (PrimeRecord {
                number: number as int,
                created_at: created_at@,
                elapsed_secs: elapsed_secs@,
            }),
    {
        Self { number, created_at, elapsed_secs }
    }
}

} // verus!
