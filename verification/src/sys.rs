//! The standard library's I/O error, carried through the library's error
//! types.

use vstd::prelude::*;

verus! {

/// `std::io::Error`, held opaquely.
#[verifier::external_type_specification]
#[verifier::external_body]
pub struct ExIoError(std::io::Error);

/// Calls `ToString::to_string` on an I/O error (its `Display` text);
/// nothing is claimed of the text.
#[verifier::external_body]
pub(crate) fn io_error_text(e: &std::io::Error) -> String {
    e.to_string()
}

} // verus!
