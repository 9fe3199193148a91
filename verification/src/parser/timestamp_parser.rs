//! The marker-list parser and the interval deriver.
//!
//! A marker block is lines of `<duration> <label>` separated by runs of
//! whitespace; blank lines are ignored. Each line contributes one raw
//! marker (start time and verbatim label). Derivation then turns the
//! ordered markers into intervals: each marker's end is the next marker's
//! start, and the last marker's end is left open.

use vstd::prelude::*;

use crate::clock::{duration_result, lemma_duration_result_bounds, ClockTime};
use crate::errors::SplitError;
use crate::text::{
    chars_to_string, is_ws, line_end, line_end_at, lemma_line_end_bounds, lemma_skip_ws_bounds,
    skip_line_ws, skip_line_ws_at, skip_ws_at, str_to_chars, subvec,
};
use crate::clock::parse_duration;

verus! {

/// A derived interval: a 1-based sequence index, the marker's own start,
/// the inferred end — the next marker's start, or open for the last
/// marker — and the marker's verbatim label.
#[derive(Debug, PartialEq, Eq)]
pub struct Timestamp {
    pub index: u32,
    pub start: ClockTime,
    pub end: Option<ClockTime>,
    pub title: String,
}

/// What parsing one marker line at `from` yields: the start time with the
/// verbatim label, and the position of the line's end. The line is a
/// duration token, at least one character of in-line whitespace, and a
/// non-empty label running to the end of the line.
pub open spec fn marker_line(s: Seq<char>, from: int) -> Option<((ClockTime, Seq<char>), int)>
    recommends
        0 <= from <= s.len(),
{
    match duration_result(s, from, false) {
        Option::None => Option::None,
        Option::Some((ct, p)) => {
            let a = skip_line_ws(s, p);
            let le = line_end(s, p);
            if p < a < le {
                Option::Some(((ct, s.subrange(a, le)), le))
            } else {
                Option::None
            }
        },
    }
}

/// What parsing the whole marker block from `from` on yields: the raw
/// markers in source order, or nothing when some line is malformed.
/// Whitespace between lines is skipped; an exhausted input yields the
/// empty sequence.
pub open spec fn markers_from(s: Seq<char>, from: int) -> Option<Seq<(ClockTime, Seq<char>)>>
    decreases s.len() - from,
    when 0 <= from <= s.len()
{
    if from >= s.len() {
        Option::Some(Seq::empty())
    } else if is_ws(s[from]) {
        markers_from(s, from + 1)
    } else {
        match marker_line(s, from) {
            Option::None => Option::None,
            Option::Some((m, q)) => {
                let next = if from + 1 <= q <= s.len() {
                    q
                } else {
                    from + 1
                };
                match markers_from(s, next) {
                    Option::None => Option::None,
                    Option::Some(rest) => Option::Some(seq![m] + rest),
                }
            },
        }
    }
}

/// A parsed marker line ends strictly after its start and within the
/// input.
pub proof fn lemma_marker_line_bounds(s: Seq<char>, from: int)
    requires
        0 <= from <= s.len(),
        marker_line(s, from) is Some,
    ensures
        from < marker_line(s, from)->Some_0.1 <= s.len(),
{
    lemma_duration_result_bounds(s, from, false);
    let p = duration_result(s, from, false)->Some_0.1;
    lemma_line_end_bounds(s, p);
}

/// Skipping whitespace does not change what the marker block parses to.
pub proof fn lemma_markers_from_ws(s: Seq<char>, i: int, j: int)
    requires
        0 <= i <= j <= s.len(),
        forall|k: int| i <= k < j ==> is_ws(#[trigger] s[k]),
    ensures
        markers_from(s, i) == markers_from(s, j),
    decreases j - i,
{
    if i < j {
        assert(is_ws(s[i]));
        lemma_markers_from_ws(s, i + 1, j);
    }
}

/// A marker block never yields more markers than it has characters left.
pub proof fn lemma_markers_from_count(s: Seq<char>, from: int)
    requires
        0 <= from <= s.len(),
        markers_from(s, from) is Some,
    ensures
        markers_from(s, from)->Some_0.len() <= s.len() - from,
    decreases s.len() - from,
{
    if from >= s.len() {
    } else if is_ws(s[from]) {
        lemma_markers_from_count(s, from + 1);
    } else {
        match marker_line(s, from) {
            Option::None => {},
            Option::Some((m, q)) => {
                lemma_marker_line_bounds(s, from);
                lemma_markers_from_count(s, q);
            },
        }
    }
}

/// The raw markers a sequence of interval values was built from: each
/// element's start time and label text.
pub open spec fn raw_markers_of(ts: Seq<Timestamp>) -> Seq<(ClockTime, Seq<char>)> {
    ts.map_values(|t: Timestamp| (t.start, t.title@))
}

/// Parses the marker block into raw markers, one [`Timestamp`] per line
/// with the index and end not yet derived. Fails exactly when the block
/// parses to no marker at all or some line of it is malformed.
pub fn parse_timestamps(s: &Vec<char>) -> (r: Result<Vec<Timestamp>, SplitError>)
    ensures
        match r {
            Ok(v) => {
                &&& markers_from(s@, 0) == Option::Some(raw_markers_of(v@))
                &&& v@.len() >= 1
                &&& forall|i: int|
                    0 <= i < v@.len() ==> (#[trigger] v@[i]).index == 0 && v@[i].end is None
            },
            Err(e) => {
                &&& e == SplitError::EmptyOrMalformedMarkerList
                &&& (markers_from(s@, 0) is None || markers_from(s@, 0)->Some_0.len() == 0)
            },
        },
{
    let len = s.len();
    let mut acc: Vec<Timestamp> = Vec::new();
    let mut pos: usize = 0;
    loop
        invariant
            pos <= len,
            len == s@.len(),
            forall|i: int| 0 <= i < acc@.len() ==> (#[trigger] acc@[i]).index == 0 && acc@[i].end is None,
            markers_from(s@, 0) == match markers_from(s@, pos as int) {
                Option::None => Option::<Seq<(ClockTime, Seq<char>)>>::None,
                Option::Some(rest) => Option::Some(raw_markers_of(acc@) + rest),
            },
        ensures
            pos == len,
        decreases len - pos,
    {
        let npos = skip_ws_at(s, pos);
        proof {
            lemma_skip_ws_bounds(s@, pos as int);
            lemma_markers_from_ws(s@, pos as int, npos as int);
        }
        pos = npos;
        if pos == len {
            break;
        }
        let (ct, p) = match parse_duration(s, pos, false) {
            Ok(x) => x,
            Err(_) => {
                return Err(SplitError::EmptyOrMalformedMarkerList);
            },
        };
        let a = skip_line_ws_at(s, p);
        let le = line_end_at(s, p);
        if a == p || a >= le {
            return Err(SplitError::EmptyOrMalformedMarkerList);
        }
        let label_chars = subvec(s, a, le);
        let label = chars_to_string(&label_chars);
        let ghost m = (ct, s@.subrange(a as int, le as int));
        let ghost old_acc = acc@;
        acc.push(Timestamp { index: 0, start: ct, end: Option::None, title: label });
        proof {
            assert(marker_line(s@, pos as int) == Option::Some((m, le as int)));
            assert(raw_markers_of(acc@) =~= raw_markers_of(old_acc).push(m));
            match markers_from(s@, le as int) {
                Option::None => {
                    assert(markers_from(s@, pos as int) is None);
                },
                Option::Some(rest) => {
                    assert(markers_from(s@, pos as int) == Option::Some(seq![m] + rest));
                    assert(raw_markers_of(old_acc) + (seq![m] + rest) =~= raw_markers_of(acc@)
                        + rest);
                },
            }
        }
        pos = le;
    }
    proof {
        assert(markers_from(s@, pos as int) == Option::Some(Seq::<(ClockTime, Seq<char>)>::empty()));
        assert(raw_markers_of(acc@) + Seq::<(ClockTime, Seq<char>)>::empty() =~= raw_markers_of(
            acc@,
        ));
    }
    if acc.len() == 0 {
        proof {
            assert(raw_markers_of(acc@) =~= Seq::<(ClockTime, Seq<char>)>::empty());
        }
        return Err(SplitError::EmptyOrMalformedMarkerList);
    }
    Ok(acc)
}

/// Derives the intervals in place: element `i` gets sequence index `i + 1`
/// and, for every element but the last, an end equal to the next
/// element's start; the last element's end is left as it was. Start times
/// and labels are untouched.
pub fn process_timestamps(timestamps: &mut Vec<Timestamp>)
    requires
        old(timestamps)@.len() <= u32::MAX,
    ensures
        final(timestamps)@.len() == old(timestamps)@.len(),
        forall|i: int|
            0 <= i < old(timestamps)@.len() ==> {
                let t = #[trigger] final(timestamps)@[i];
                &&& t.index == i + 1
                &&& t.start == old(timestamps)@[i].start
                &&& t.title == old(timestamps)@[i].title
                &&& t.end == (if i + 1 < old(timestamps)@.len() {
                    Option::Some(old(timestamps)@[i + 1].start)
                } else {
                    old(timestamps)@[i].end
                })
            },
{
    let n = timestamps.len();
    let mut out: Vec<Timestamp> = Vec::new();
    let mut i: usize = 0;
    while i < n
        invariant
            i <= n,
            n == timestamps@.len() <= u32::MAX,
            out@.len() == i,
            forall|k: int|
                0 <= k < i ==> {
                    let t = #[trigger] out@[k];
                    &&& t.index == k + 1
                    &&& t.start == timestamps@[k].start
                    &&& t.title == timestamps@[k].title
                    &&& t.end == (if k + 1 < timestamps@.len() {
                        Option::Some(timestamps@[k + 1].start)
                    } else {
                        timestamps@[k].end
                    })
                },
        decreases n - i,
    {
        let t = &timestamps[i];
        let end = if i + 1 < n {
            Option::Some(timestamps[i + 1].start)
        } else {
            t.end
        };
        let start = t.start;
        let title = t.title.clone();
        out.push(Timestamp { index: (i as u32) + 1, start, end, title });
        i = i + 1;
    }
    *timestamps = out;
}

/// The whole contract of [`parse`]: on success the result is the derived
/// interval list of the block's raw markers — same length, 1-based
/// sequence indices, each end the next marker's start and the last end
/// open; on failure the block parses to no marker or is malformed.
pub open spec fn parse_full_spec(input: Seq<char>, r: Result<Vec<Timestamp>, SplitError>) -> bool {
    match r {
        Ok(v) => {
            let ms = markers_from(input, 0)->Some_0;
            &&& markers_from(input, 0) is Some
            &&& ms.len() >= 1
            &&& v@.len() == ms.len()
            &&& forall|i: int|
                0 <= i < ms.len() ==> {
                    let t = #[trigger] v@[i];
                    &&& t.index == i + 1
                    &&& t.start == ms[i].0
                    &&& t.title@ == ms[i].1
                    &&& t.end == (if i + 1 < ms.len() {
                        Option::Some(ms[i + 1].0)
                    } else {
                        Option::<ClockTime>::None
                    })
                }
        },
        Err(e) => {
            &&& e == SplitError::EmptyOrMalformedMarkerList
            &&& (markers_from(input, 0) is None || markers_from(input, 0)->Some_0.len() == 0)
        },
    }
}

/// Parses a marker block and derives its intervals.
pub fn parse(input: &str) -> (r: Result<Vec<Timestamp>, SplitError>)
    requires
        input@.len() <= u32::MAX,
    ensures
        parse_full_spec(input@, r),
{
    let chars = str_to_chars(input);
    let mut timestamps = match parse_timestamps(&chars) {
        Ok(v) => v,
        Err(e) => {
            return Err(e);
        },
    };
    proof {
        lemma_markers_from_count(chars@, 0);
    }
    process_timestamps(&mut timestamps);
    Ok(timestamps)
}

} // verus!
