//! The errors that the crate's operations return.
use vstd::prelude::*;

verus! {

/// An error of the operating system's input and output, carried through
/// unread.
#[verifier::external_type_specification]
#[verifier::external_body]
pub struct ExIoError(std::io::Error);

/// What can go wrong in an operation of this crate.
#[derive(Debug)]
pub enum CustomErrors {
    /// Input or output failed.
    Io(std::io::Error),
    /// An argument does not fit the operation: the text says which.
    InvalidArguments(String),
    /// The operation cannot be carried out in the state that the object is
    /// in: the text says why.
    InvalidState(String),
}

/// The character for the decimal digit `d`.
pub open spec fn digit(d: nat) -> char {
    ((48 + d) as u8) as char
}

/// `n` written in decimal, without leading zeros.
pub open spec fn decimal(n: nat) -> Seq<char>
    decreases n,
{
    if n < 10 {
        seq![digit(n)]
    } else {
        decimal(n / 10).push(digit(n % 10))
    }
}

/// The text that tells of a byte string of the wrong length.
pub open spec fn expected_bytes_text(expected: nat, got: nat) -> Seq<char> {
    "Expected "@ + decimal(expected) + " bytes, got "@ + decimal(got)
}

/// Whether `error` says that `got` bytes were given where `expected` were
/// due.
pub open spec fn is_size_mismatch(error: CustomErrors, expected: nat, got: nat) -> bool {
    error matches CustomErrors::InvalidArguments(text) && text@ == expected_bytes_text(
        expected,
        got,
    )
}

/// `format!` with two numbers in the text of a size mismatch: each is
/// written in decimal.
#[verifier::external_body]
pub(crate) fn expected_bytes_message(expected: u128, got: usize) -> (text: String)
    ensures
        text@ == expected_bytes_text(expected as nat, got as nat),
{
    format!("Expected {} bytes, got {}", expected, got)
}

} // verus!
