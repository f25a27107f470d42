//! The errors of the wrapped index.
use vstd::prelude::*;

verus! {

/// What can go wrong in an operation on the wrapped index.
#[derive(Debug)]
pub enum FaissError {
    /// An argument does not fit the operation: the text says which.
    InvalidArguments(String),
}

} // verus!
