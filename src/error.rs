use vstd::prelude::*;

verus! {

/// Failure of a decode (or of reading the text form of an identifier).
#[derive(Debug, PartialEq, Eq, Clone)]
pub enum BitcoinError {
    /// The buffer is shorter than the field being read requires.
    InsufficientBytes,
    /// A structural problem other than length, such as malformed hexadecimal text.
    InvalidFormat,
}

} // verus!
