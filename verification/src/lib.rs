use vstd::prelude::*;

pub mod chain;
pub mod dna;
pub mod ledger;
pub mod owned;
pub mod random;
pub mod registry;
pub mod store;

verus! {

/// The ways a registry transition can be rejected.  Every error aborts the
/// whole transition: the caller sees the kind and the state is unchanged.
#[derive(Clone, Copy, Debug, PartialEq, Eq, Structural)]
pub enum Error {
    /// The entity-identifier space is exhausted, or a balance would exceed
    /// its maximum.
    Overflow,
    /// The referenced entity does not exist.
    NotFound,
    /// An entity cannot be bred with itself.
    SameParent,
    /// The given account does not own the referenced entity.
    NotOwner,
    /// The paying account cannot cover the price.
    InsufficientFunds,
}

} // verus!
