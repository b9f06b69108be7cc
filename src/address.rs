use vstd::prelude::*;

verus! {

/// A 256-bit account or contract identifier, held as two 128-bit halves.
/// The all-zero identifier is the null address.
#[derive(Clone, Copy, Debug, PartialEq, Eq, Structural)]
pub struct Address {
    pub high: u128,
    pub low: u128,
}

impl Address {
    pub open spec fn spec_is_zero(&self) -> bool {
        self.high == 0 && self.low == 0
    }

    pub fn new(high: u128, low: u128) -> (r: Address)
        ensures
            r.high == high,
            r.low == low,
    {
        Address { high, low }
    }

    /// The null address.
    pub fn zero() -> (r: Address)
        ensures
            r.spec_is_zero(),
    {
        Address { high: 0, low: 0 }
    }

    #[verifier::when_used_as_spec(spec_is_zero)]
    pub fn is_zero(&self) -> (r: bool)
        ensures
            r == self.spec_is_zero(),
    {
        self.high == 0 && self.low == 0
    }
}

} // verus!
