//! A read-mostly index of blocks: lookups by height, hash, transaction id and
//! header hash, cursor-paginated listings, and the decisions around proof
//! artifacts, with their contracts proved.
use vstd::prelude::*;

pub mod error;
pub mod facade;
pub mod ident;
pub mod index;
pub mod laws;
pub mod model;
pub mod page;
pub mod proof_access;
pub mod store;
pub mod text;

verus! {

} // verus!
