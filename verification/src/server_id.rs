//! Identity of an upstream server.

use crate::decimal;
use vstd::prelude::*;

verus! {

/// The number by which an upstream server is known.
#[derive(Debug, Clone, Copy, PartialEq, Eq, Structural, Hash)]
pub struct ServerId(pub i64);

impl ServerId {
    pub fn new(value: i64) -> (r: Self)
        ensures
            r.0 == value,
    {
        ServerId(value)
    }

    pub fn as_i64(self) -> (r: i64)
        ensures
            r == self.0,
    {
        self.0
    }

    /// The number in decimal notation.
    pub fn text(self) -> (r: String)
        ensures
            r@ == decimal::decimal(self.0 as int),
    {
        decimal::decimal_text(self.0)
    }
}

} // verus!
