//! Cache-aside resolution of city names to coordinates.
//!
//! A city's coordinates come from the store when it holds them; otherwise
//! from a geocoding service, whose first candidate is then written to the
//! store. Stores are kept in memory, or in a byte form that a persistent
//! medium holds, and are shared between concurrent callers behind an
//! exclusive or a reader/writer lock.
use vstd::prelude::*;

pub mod client;
pub mod codec;
pub mod locked;
pub mod record;
pub mod resolver;
pub mod store;
pub mod table;

verus! {

} // verus!
