//! Exact base-10 fixed-point money values.
//!
//! Every monetary quantity in the ledger is a count of ten-thousandths
//! of the currency unit, so all arithmetic is exact and a value is
//! rendered with exactly four fractional digits.

use vstd::prelude::*;

verus! {

/// The number of [`Amount`] units that make up one whole currency unit.
pub const UNITS_PER_WHOLE: i64 = 10_000;

/// A monetary value, stored as a signed count of ten-thousandths
/// (`1.5` is `Amount(15_000)`).  Negative values can appear in an
/// instruction coming from outside and in the `available` balance of a
/// disputed account; the engine rejects them where the rules demand it.
#[derive(Clone, Copy, Debug, PartialEq, Eq, Structural)]
pub struct Amount(pub i64);

impl View for Amount {
    type V = int;

    open spec fn view(&self) -> int {
        self.0 as int
    }
}

impl Amount {
    /// The amount of `units` ten-thousandths.
    pub fn new(units: i64) -> (r: Amount)
        ensures
            r@ == units as int,
    {
        Amount(units)
    }

    /// Zero of the currency.
    pub fn zero() -> (r: Amount)
        ensures
            r@ == 0,
    {
        Amount(0)
    }

    /// The amount of `n` whole currency units.
    pub fn from_whole(n: i64) -> (r: Amount)
        requires
            i64::MIN as int <= n as int * UNITS_PER_WHOLE as int,
            n as int * UNITS_PER_WHOLE as int <= i64::MAX as int,
        ensures
            r@ == n as int * UNITS_PER_WHOLE as int,
    {
        Amount(n * UNITS_PER_WHOLE)
    }

    /// True when the value is strictly below zero.
    pub fn is_negative(&self) -> (r: bool)
        ensures
            r == (self@ < 0),
    {
        self.0 < 0
    }
}

} // verus!
