//! The errors of a search.

use vstd::prelude::*;

use crate::descriptor::DescriptorError;

verus! {

/// The error that `cafebabe` reports for bytes that are no class file. Its
/// contents are not looked at here.
#[verifier::external_type_specification]
#[verifier::external_body]
pub struct ExParseError(cafebabe::ParseError);

/// Why a search gave no result.
#[derive(Debug)]
pub enum Error {
    /// The bytes of a candidate are no class file.
    ClassError(cafebabe::ParseError),
    /// A descriptor could not be read.
    DescriptorError(DescriptorError),
    /// More than one candidate was found for the pattern with this index.
    TooManyMatches(usize),
    /// No candidate was found for the pattern with this index.
    PatternNotFound(usize),
}

/// A search result.
pub type Result<A, E = Error> = std::result::Result<A, E>;

} // verus!
