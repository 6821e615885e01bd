//! Errors of the manifest reader.
use vstd::prelude::*;

verus! {

/// The error that `nzb_rs` reports for a manifest it cannot read.
#[verifier::external_type_specification]
#[verifier::external_body]
pub struct ExParseNzbError(nzb_rs::ParseNzbError);

/// What can go wrong while a posting manifest is read.
#[derive(Debug, PartialEq, Eq)]
pub enum NzbError {
    /// The text is no well-formed manifest.
    Parsing(nzb_rs::ParseNzbError),
}

} // verus!
