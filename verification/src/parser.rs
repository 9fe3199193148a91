//! The parsing layer: marker lists, subtitle cues, and path
//! classification.

pub mod file_parser;
pub mod srt_parser;
pub mod timestamp_parser;

use vstd::prelude::*;

use crate::errors::SplitError;
pub use self::file_parser::FileHolder;
pub use self::file_parser::FileType;
pub use self::srt_parser::SubtitleItem;
pub use self::timestamp_parser::Timestamp;

verus! {

/// Parses a marker-list text block into derived intervals: one
/// [`Timestamp`] per marker line, in source order, with the sequence
/// index and the inferred end time filled in.
pub fn parse_timestamp(input: &str) -> (r: Result<Vec<Timestamp>, SplitError>)
    requires
        input@.len() <= u32::MAX,
    ensures
        timestamp_parser::parse_full_spec(input@, r),
{
    timestamp_parser::parse(input)
}

/// Parses an SRT-style subtitle block into its cues, in source order.
pub fn parse_srt(input: &str) -> (r: Result<Vec<SubtitleItem>, SplitError>)
    ensures
        srt_parser::parse_full_spec(input@, r),
{
    srt_parser::parse(input)
}

/// Classifies a file path into a [`FileHolder`].
pub fn parse_path(path_str: &str) -> (r: FileHolder)
    ensures
        r.full_path@ == path_str@,
        r.name@ == file_parser::spec_name(path_str@),
        r.directory@ == file_parser::spec_directory(path_str@),
        r.file_type == file_parser::kind_of_ext(
            file_parser::spec_extension(file_parser::spec_name(path_str@)),
        ),
{
    file_parser::parse(path_str)
}

} // verus!
