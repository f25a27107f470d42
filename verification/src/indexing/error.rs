//! The errors of an index.
use vstd::prelude::*;

verus! {

/// What can go wrong in an operation on an index.
#[derive(Debug)]
pub enum FaissError {
    /// Input or output failed.
    Io(std::io::Error),
    /// An argument does not fit the operation: the text says which.
    InvalidArguments(String),
}

} // verus!
