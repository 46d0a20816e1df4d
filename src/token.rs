//! Token identifiers and the compile-time facts each token kind declares.

use vstd::prelude::*;

verus! {

/// Token Id, used to identify different assets on the blockchain.
#[derive(Clone, Copy, Debug, PartialEq, Eq, Structural, PartialOrd, Ord, Hash)]
pub struct TokenId(pub u32);

impl View for TokenId {
    type V = u32;

    open spec fn view(&self) -> u32 {
        self.0
    }
}

impl From<u32> for TokenId {
    fn from(src: u32) -> (r: TokenId)
        ensures
            r@ == src,
    {
        TokenId(src)
    }
}

impl vstd::std_specs::convert::FromSpecImpl<u32> for TokenId {
    open spec fn obeys_from_spec() -> bool {
        true
    }

    open spec fn from_spec(v: u32) -> TokenId {
        TokenId(v)
    }
}

impl TokenId {
    /// The identifier's numeric value.
    pub fn value(&self) -> (r: u32)
        ensures
            r == self@,
    {
        self.0
    }
}

impl core::ops::Deref for TokenId {
    type Target = u32;

    fn deref(&self) -> (r: &u32)
        ensures
            *r == self@,
    {
        &self.0
    }
}

/// Conversion factor from microMOB to picoMOB.
pub const MICROMOB_TO_PICOMOB: u64 = 1_000_000;

/// Id of the MOB token, the base asset of the ledger.
pub const MOB_TOKEN_ID: u32 = 0;

/// Minimum fee of the MOB token, denominated in picoMOB.
pub const MOB_MINIMUM_FEE: u64 = 400 * MICROMOB_TO_PICOMOB;

/// A generic representation of a token.
pub trait Token {
    /// The numeric value of this token's id.
    const ID: u32;

    /// Minimum fee for this token.
    const MINIMUM_FEE: u64;
}

/// The MOB token.
pub struct Mob;

impl Token for Mob {
    const ID: u32 = MOB_TOKEN_ID;

    const MINIMUM_FEE: u64 = MOB_MINIMUM_FEE;
}

} // verus!
