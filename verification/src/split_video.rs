//! The segmentation orchestrator.
//!
//! Fans a set of input files and a block of marker text out into one
//! segmentation request per (video file, derived interval) pair, in file
//! order and, per file, in ascending sequence-index order. Non-video
//! files are skipped silently. The requests are pure values: the
//! unverified shell creates the output directories and invokes the
//! external cutting service, one call per request, stopping at the first
//! failure.

use vstd::prelude::*;

use crate::clock::{clock_hms, push_clock_hms, push_decimal, dec_unpadded, ClockTime};
use crate::errors::SplitError;
use crate::parser::file_parser::{
    kind_of_ext, parse as parse_path, spec_directory, spec_extension, spec_name, FileHolder,
    FileType,
};
use crate::parser::timestamp_parser::{markers_from, parse as parse_timestamp, Timestamp};
use crate::text::{chars_to_string, str_to_chars};
use crate::util::{escape_seq, push_escaped};

verus! {

/// One request to the external cutting service: the source path, the
/// start offset (as a value and as `HH:MM:SS` text), the cut's length in
/// whole seconds — open-ended when the interval's end is open — and the
/// output directory and file to write.
#[derive(Debug, PartialEq, Eq)]
pub struct SegmentationRequest {
    pub source_path: String,
    pub start: ClockTime,
    pub start_text: String,
    pub duration_seconds: Option<i64>,
    pub output_dir: String,
    pub output_path: String,
}

/// The dots of a file name replaced by underscores: the per-source output
/// subdirectory's name.
pub open spec fn replace_dots(s: Seq<char>) -> Seq<char> {
    s.map_values(
        |c: char|
            if c == '.' {
                '_'
            } else {
                c
            },
    )
}

/// The output path of a request: a per-source subdirectory beside the
/// source, then `<index>_<start with dashes>_<sanitized label>.mp4`.
pub open spec fn output_path_of(
    name: Seq<char>,
    directory: Seq<char>,
    idx: nat,
    start: ClockTime,
    title: Seq<char>,
) -> Seq<char> {
    directory + seq!['/'] + replace_dots(name) + seq!['/'] + dec_unpadded(idx) + seq!['_']
        + clock_hms(start, '-') + seq!['_'] + escape_seq(title) + seq!['.', 'm', 'p', '4']
}

/// Whether `r` is the request that a file with the given path parts and
/// an interval with the given fields call for.
pub open spec fn request_spec_ok(
    full_path: Seq<char>,
    name: Seq<char>,
    directory: Seq<char>,
    idx: nat,
    start: ClockTime,
    end: Option<ClockTime>,
    title: Seq<char>,
    r: SegmentationRequest,
) -> bool {
    &&& r.source_path@ == full_path
    &&& r.start == start
    &&& r.start_text@ == clock_hms(start, ':')
    &&& (match end {
        Some(e) => r.duration_seconds matches Some(d) && d == e.spec_total_seconds()
            - start.spec_total_seconds(),
        None => r.duration_seconds is None,
    })
    &&& r.output_dir@ == directory + seq!['/'] + replace_dots(name)
    &&& r.output_path@ == output_path_of(name, directory, idx, start, title)
}

/// Whether `r` is the request for one classified file and one interval.
pub open spec fn request_matches(fh: FileHolder, ts: Timestamp, r: SegmentationRequest) -> bool {
    request_spec_ok(fh.full_path@, fh.name@, fh.directory@, ts.index as nat, ts.start, ts.end, ts.title@, r)
}

/// Builds the request for one video file and one interval: the pure
/// construction step, separated from the side-effecting invocation.
pub fn build_request(file_holder: &FileHolder, time_stamp: &Timestamp) -> (r: SegmentationRequest)
    ensures
        request_matches(*file_holder, *time_stamp, r),
{
    let mut chars = str_to_chars(file_holder.directory.as_str());
    chars.push('/');
    let name_chars = str_to_chars(file_holder.name.as_str());
    let len = name_chars.len();
    let mut i: usize = 0;
    while i < len
        invariant
            i <= len,
            len == name_chars@.len(),
            chars@ == file_holder.directory@ + seq!['/'] + replace_dots(
                name_chars@.subrange(0, i as int),
            ),
        decreases len - i,
    {
        let c = name_chars[i];
        if c == '.' {
            chars.push('_');
        } else {
            chars.push(c);
        }
        proof {
            assert(replace_dots(name_chars@.subrange(0, i + 1)) =~= replace_dots(
                name_chars@.subrange(0, i as int),
            ).push(
                if name_chars@[i as int] == '.' {
                    '_'
                } else {
                    name_chars@[i as int]
                },
            ));
            assert(chars@ =~= file_holder.directory@ + seq!['/'] + replace_dots(
                name_chars@.subrange(0, i + 1),
            ));
        }
        i = i + 1;
    }
    proof {
        assert(name_chars@.subrange(0, len as int) =~= name_chars@);
        assert(replace_dots(name_chars@.subrange(0, 0)) =~= Seq::<char>::empty());
    }
    let output_dir = chars_to_string(&chars);
    chars.push('/');
    push_decimal(&mut chars, time_stamp.index);
    chars.push('_');
    push_clock_hms(&mut chars, &time_stamp.start, '-');
    chars.push('_');
    let title_chars = str_to_chars(time_stamp.title.as_str());
    push_escaped(&mut chars, &title_chars);
    chars.push('.');
    chars.push('m');
    chars.push('p');
    chars.push('4');
    let output_path = chars_to_string(&chars);
    proof {
        assert(output_path@ =~= output_path_of(
            file_holder.name@,
            file_holder.directory@,
            time_stamp.index as nat,
            time_stamp.start,
            time_stamp.title@,
        ));
    }
    let mut start_chars: Vec<char> = Vec::new();
    push_clock_hms(&mut start_chars, &time_stamp.start, ':');
    proof {
        assert(Seq::<char>::empty() + clock_hms(time_stamp.start, ':') =~= clock_hms(
            time_stamp.start,
            ':',
        ));
    }
    let start_text = chars_to_string(&start_chars);
    let duration_seconds = match time_stamp.end {
        Some(e) => {
            let es = e.total_seconds();
            let ss = time_stamp.start.total_seconds();
            Some((es as i64) - (ss as i64))
        },
        None => None,
    };
    SegmentationRequest {
        source_path: file_holder.full_path.clone(),
        start: time_stamp.start,
        start_text,
        duration_seconds,
        output_dir,
        output_path,
    }
}

/// The requests for one classified file: one per interval, in interval
/// order, for a video file; none for any other kind.
pub fn split_one_file(file_holder: &FileHolder, time_stamps: &Vec<Timestamp>) -> (r: Vec<
    SegmentationRequest,
>)
    ensures
        file_holder.file_type == FileType::Video ==> r@.len() == time_stamps@.len() && (forall|
            i: int,
        |
            0 <= i < time_stamps@.len() ==> request_matches(
                *file_holder,
                time_stamps@[i],
                #[trigger] r@[i],
            )),
        file_holder.file_type != FileType::Video ==> r@.len() == 0,
{
    let mut out: Vec<SegmentationRequest> = Vec::new();
    let is_video = matches!(file_holder.file_type, FileType::Video);
    if !is_video {
        return out;
    }
    let n = time_stamps.len();
    let mut i: usize = 0;
    while i < n
        invariant
            i <= n,
            n == time_stamps@.len(),
            out@.len() == i,
            forall|k: int|
                0 <= k < i ==> request_matches(*file_holder, time_stamps@[k], #[trigger] out@[k]),
        decreases n - i,
    {
        let req = build_request(file_holder, &time_stamps[i]);
        out.push(req);
        i = i + 1;
    }
    out
}

/// Whether `reqs` is the full plan for the given paths and raw markers:
/// for each path classified as video, in order, one block of requests —
/// one per derived interval, in interval order — and nothing for any
/// other path.
pub open spec fn plan_ok(
    paths: Seq<Seq<char>>,
    ms: Seq<(ClockTime, Seq<char>)>,
    reqs: Seq<SegmentationRequest>,
) -> bool
    decreases paths.len(),
{
    if paths.len() == 0 {
        reqs.len() == 0
    } else {
        let p = paths[0];
        let nm = spec_name(p);
        if kind_of_ext(spec_extension(nm)) == FileType::Video {
            &&& reqs.len() >= ms.len()
            &&& (forall|i: int|
                0 <= i < ms.len() ==> request_spec_ok(
                    p,
                    nm,
                    spec_directory(p),
                    (i + 1) as nat,
                    ms[i].0,
                    if i + 1 < ms.len() {
                        Some(ms[i + 1].0)
                    } else {
                        None
                    },
                    ms[i].1,
                    #[trigger] reqs[i],
                ))
            &&& plan_ok(paths.skip(1), ms, reqs.skip(ms.len() as int))
        } else {
            plan_ok(paths.skip(1), ms, reqs)
        }
    }
}

/// The requests for the files from `idx` on, given the derived intervals
/// of the raw markers `ms`.
fn split_files_from(
    file_names: &Vec<String>,
    idx: usize,
    time_stamps: &Vec<Timestamp>,
    Ghost(ms): Ghost<Seq<(ClockTime, Seq<char>)>>,
) -> (r: Vec<SegmentationRequest>)
    requires
        idx <= file_names@.len(),
        time_stamps@.len() == ms.len(),
        forall|i: int|
            0 <= i < ms.len() ==> {
                let t = #[trigger] time_stamps@[i];
                &&& t.index == i + 1
                &&& t.start == ms[i].0
                &&& t.title@ == ms[i].1
                &&& t.end == (if i + 1 < ms.len() {
                    Option::Some(ms[i + 1].0)
                } else {
                    Option::<ClockTime>::None
                })
            },
    ensures
        plan_ok(file_names@.map_values(|s: String| s@).skip(idx as int), ms, r@),
    decreases file_names@.len() - idx,
{
    let ghost paths = file_names@.map_values(|s: String| s@);
    if idx == file_names.len() {
        let r: Vec<SegmentationRequest> = Vec::new();
        proof {
            assert(paths.skip(idx as int).len() == 0);
        }
        return r;
    }
    let holder = parse_path(file_names[idx].as_str());
    let mut block = split_one_file(&holder, time_stamps);
    let mut rest = split_files_from(file_names, idx + 1, time_stamps, Ghost(ms));
    let ghost block_view = block@;
    let ghost rest_view = rest@;
    block.append(&mut rest);
    proof {
        let tail = paths.skip(idx as int);
        assert(paths[idx as int] == file_names@[idx as int]@);
        assert(tail[0] == paths[idx as int]);
        assert(tail.skip(1) =~= paths.skip(idx + 1));
        assert(block@ == block_view + rest_view);
        if kind_of_ext(spec_extension(spec_name(paths[idx as int]))) == FileType::Video {
            assert(holder.file_type == FileType::Video);
            assert(block_view.len() == ms.len());
            assert(block@.skip(ms.len() as int) =~= rest_view);
            assert forall|i: int| 0 <= i < ms.len() implies request_spec_ok(
                tail[0],
                spec_name(tail[0]),
                spec_directory(tail[0]),
                (i + 1) as nat,
                ms[i].0,
                if i + 1 < ms.len() {
                    Some(ms[i + 1].0)
                } else {
                    None
                },
                ms[i].1,
                #[trigger] block@[i],
            ) by {
                assert(block@[i] == block_view[i]);
                assert(request_matches(holder, time_stamps@[i], block_view[i]));
            }
        } else {
            assert(holder.file_type != FileType::Video);
            assert(block_view.len() == 0);
            assert(block@ =~= rest_view);
        }
    }
    block
}

/// Parses the marker block, derives its intervals, classifies every file,
/// and builds the full segmentation plan: one request per (video file,
/// interval) pair, files in the given order, intervals in ascending
/// sequence-index order. A marker-block failure aborts before any request
/// is built.
pub fn split_file(file_names: Vec<String>, time_stamp: String) -> (r: Result<
    Vec<SegmentationRequest>,
    SplitError,
>)
    requires
        time_stamp@.len() <= u32::MAX,
    ensures
        match r {
            Ok(reqs) => {
                &&& markers_from(time_stamp@, 0) is Some
                &&& markers_from(time_stamp@, 0)->Some_0.len() >= 1
                &&& plan_ok(
                    file_names@.map_values(|s: String| s@),
                    markers_from(time_stamp@, 0)->Some_0,
                    reqs@,
                )
            },
            Err(e) => {
                &&& e == SplitError::EmptyOrMalformedMarkerList
                &&& (markers_from(time_stamp@, 0) is None || markers_from(
                    time_stamp@,
                    0,
                )->Some_0.len() == 0)
            },
        },
{
    let timestamps = match parse_timestamp(time_stamp.as_str()) {
        Ok(v) => v,
        Err(e) => {
            return Err(e);
        },
    };
    let ghost ms = markers_from(time_stamp@, 0)->Some_0;
    let reqs = split_files_from(&file_names, 0, &timestamps, Ghost(ms));
    proof {
        assert(file_names@.map_values(|s: String| s@).skip(0) =~= file_names@.map_values(
            |s: String| s@,
        ));
    }
    Ok(reqs)
}

} // verus!
