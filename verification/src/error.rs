//! The store's error taxonomy. Every failure a command can hit is turned
//! into one of these and handled at the command boundary; no verified
//! function panics.

use vstd::prelude::*;

verus! {

/// What a store mutation can report.
#[derive(Debug, PartialEq, Eq, Structural, Clone, Copy)]
pub enum MyError {
    /// A command referenced a pub, table or person that is not in the store.
    NotFound,
    /// An insert collided with a row that already carries the same id.
    Duplicate,
}

} // verus!
