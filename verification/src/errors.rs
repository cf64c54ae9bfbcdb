//! Error kinds of the report pipeline.

use vstd::prelude::*;

verus! {

/// Failure while extracting the embedded JSON payload from one HTML page.
#[derive(PartialEq, Eq, Structural, Clone, Copy, Debug)]
pub enum ExtractError {
    /// The page holds no script element at all.
    NoPayload,
    /// A script element was found, but its text does not have the expected
    /// `window.data = ...;` assignment shape.
    BadWrapper,
    /// The wrapper was stripped, but the remaining text is not a payload of
    /// the expected schema.  The library never raises this itself: the JSON
    /// decoding collaborator reports it through this variant.
    BadJson,
}

/// Fatal failure of one conversion run.
#[derive(PartialEq, Eq, Structural, Clone, Copy, Debug)]
pub enum RunError {
    /// The summary document has no unique vulnerability-information category.
    SummarySectionMissing,
    /// The category is there, but its first child carries no vulnerability
    /// statistics field.
    SummaryFieldMissing,
    /// A summarized vulnerability's target IP has no exposure entry in the
    /// host index.
    ExposureMissing,
}

} // verus!
