//! Delta compression for similar data chunks.
//!
//! [`encode`] computes a compact patch that turns a base blob into a new
//! blob, and [`decode`] applies such a patch to the base. Matching regions
//! are found with a GEAR rolling fingerprint; the patch is a stream of copy
//! and literal instructions in a variable-length integer encoding.
//!
//! Every function carries a contract that Verus checks against its body.
//! The central guarantee is proved once and for all: whatever `encode`
//! returns, `decode` turns back into the new blob.
//!
//! # Modules
//!
//! * [`buffer`]: a byte vector with a cursor.
//! * [`varint`]: variable-length integers and delta units on the wire.
//! * [`gear`]: the rolling fingerprint and the index of the base.
//! * [`run`]: runs of equal bytes between two blobs.
//! * [`units`]: rows of delta units and what they yield.
//! * [`delta`]: the encoder and the decoder.
//! * [`laws`]: what holds of every delta.
//! * [`error`]: the error type.
//! * [`frontend`]: decisions of the command-line tool.

use vstd::prelude::*;

pub mod buffer;
pub mod delta;
pub mod error;
pub mod frontend;
pub mod gear;
pub mod laws;
pub mod run;
pub mod units;
pub mod varint;

pub use error::{GDeltaError, Result};

verus! {

/// Encodes the delta from `base_data` to `new_data`.
///
/// The result is the delta that [`delta::encode_spec`] defines: the same
/// inputs always give the same bytes. Encoding never fails, and
/// [`decode`] turns the delta back into `new_data`.
pub fn encode(new_data: &[u8], base_data: &[u8]) -> (result: Result<Vec<u8>>)
    ensures
        result matches Ok(delta) && delta@ == delta::encode_spec(new_data@, base_data@)
            && delta::decode_spec(delta@, base_data@) == Ok::<Seq<u8>, delta::DecodeFault>(
            new_data@,
        ),
{
    delta::encode(new_data, base_data)
}

/// Decodes `delta` against `base_data`, the base that it was encoded
/// against.
///
/// Returns the new blob, or the error for the first fault in the delta:
/// `UnexpectedEndOfData` where the delta is cut short, `InvalidDelta` where
/// the length prefix exceeds the delta, an instruction runs past the
/// instruction stream, or a copy reaches past the end of the base.
pub fn decode(delta: &[u8], base_data: &[u8]) -> (result: Result<Vec<u8>>)
    ensures
        match delta::decode_spec(delta@, base_data@) {
            Ok(new) => result matches Ok(output) && output@ == new,
            Err(fault) => result matches Err(error) && delta::reports(
                error,
                fault,
                base_data@.len(),
            ),
        },
{
    delta::decode(delta, base_data)
}

} // verus!
