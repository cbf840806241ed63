//! Error type of the delta codec.

use vstd::prelude::*;

verus! {

/// The result of an operation of the codec.
pub type Result<T> = std::result::Result<T, GDeltaError>;

/// Errors reported while encoding or decoding a delta.
#[derive(Debug, Clone, PartialEq, Eq)]
pub enum GDeltaError {
    /// The delta is malformed; the text says why.
    InvalidDelta(String),
    /// A read asked for more bytes than remain.
    UnexpectedEndOfData,
    /// The decoded data does not have the size that was expected.
    SizeMismatch {
        /// Size that was expected.
        expected: usize,
        /// Size that was found.
        actual: usize,
    },
    /// A buffer operation failed.
    BufferError(String),
}

/// The character of a single decimal digit `d < 10`.
pub open spec fn digit_char(d: nat) -> char {
    (48 + d) as char
}

/// The decimal numeral of `n`, most significant digit first, with no sign
/// and no leading zero.
pub open spec fn decimal_digits(n: nat) -> Seq<char>
    decreases n,
{
    if n < 10 {
        seq![digit_char(n)]
    } else {
        decimal_digits(n / 10).push(digit_char(n % 10))
    }
}

/// Formats `n` in decimal.
///
/// Trusted: calls `u64::to_string`, whose `Display` form for an unsigned
/// integer is its decimal numeral without sign, padding or leading zeros.
#[verifier::external_body]
pub(crate) fn decimal_string(n: u64) -> (s: String)
    ensures
        s@ == decimal_digits(n as nat),
{
    n.to_string()
}

impl GDeltaError {
    /// The text that [`GDeltaError::to_string`] produces.
    pub open spec fn description(&self) -> Seq<char> {
        match self {
            GDeltaError::InvalidDelta(msg) => "Invalid delta: "@ + msg@,
            GDeltaError::UnexpectedEndOfData => "Unexpected end of data"@,
            GDeltaError::SizeMismatch { expected, actual } => "Size mismatch: expected "@
                + decimal_digits(*expected as nat) + " bytes, got "@ + decimal_digits(
                *actual as nat,
            ) + " bytes"@,
            GDeltaError::BufferError(msg) => "Buffer error: "@ + msg@,
        }
    }

    /// Renders the error as a human-readable line.
    pub fn to_string(&self) -> (s: String)
        ensures
            s@ == self.description(),
    {
        match self {
            GDeltaError::InvalidDelta(msg) => {
                let mut s = String::from_str("Invalid delta: ");
                s.append(msg.as_str());
                s
            },
            GDeltaError::UnexpectedEndOfData => String::from_str("Unexpected end of data"),
            GDeltaError::SizeMismatch { expected, actual } => {
                let mut s = String::from_str("Size mismatch: expected ");
                let e = decimal_string(*expected as u64);
                s.append(e.as_str());
                s.append(" bytes, got ");
                let a = decimal_string(*actual as u64);
                s.append(a.as_str());
                s.append(" bytes");
                s
            },
            GDeltaError::BufferError(msg) => {
                let mut s = String::from_str("Buffer error: ");
                s.append(msg.as_str());
                s
            },
        }
    }
}

} // verus!
