//! The error taxonomy of the splitting core.
//!
//! Parse-time errors are raised by the parsers before any side effect
//! happens; `SegmentationFailed` is reserved for the unverified shell,
//! which records the external cutting service's diagnostic text in it.

use vstd::prelude::*;

verus! {

/// Every failure the splitting core can report.
#[derive(Debug, PartialEq, Eq)]
pub enum SplitError {
    /// A clock-time token was unparseable or out of range.
    MalformedDuration,
    /// The marker block held no marker, or a line of it did not parse.
    EmptyOrMalformedMarkerList,
    /// The subtitle block held no cue, or a cue of it did not parse.
    EmptyOrMalformedCueList,
    /// The external cutting service failed; carries its raw diagnostic.
    SegmentationFailed { diagnostic: String },
}

} // verus!
