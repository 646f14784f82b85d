//! A proposal-and-voting contract: proposers pay a commission to open a
//! proposal with a list of options, admit voters, collect one vote per voter
//! and close the proposal once it has expired, electing the option (or the
//! tied options) with the most votes when enough of the admitted voters took
//! part.
//!
//! The library holds the contract's decisions over plain values; reading and
//! writing the chain's storage, and the chain's address checks, belong to the
//! host that calls it.
pub mod contract;
pub mod error;
pub mod exec;
pub mod laws;
pub mod msg;
pub mod query;
pub mod state;
pub mod text;
pub mod voters;

use vstd::prelude::*;

verus! {

} // verus!
