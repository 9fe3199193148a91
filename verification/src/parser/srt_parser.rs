//! The subtitle-cue parser.
//!
//! A subtitle block is a sequence of cue blocks separated by blank-line
//! runs. Each cue block is an integer id line, a line
//! `<start> --> <end>` whose two sides are duration tokens with
//! mandatory milliseconds, and one or more non-blank text lines, each
//! trimmed of surrounding whitespace and kept in order.

use vstd::prelude::*;

use crate::clock::{
    duration_result, field_ok, field_val, parse_duration, parse_field, run_end, ClockTime,
};
use crate::errors::SplitError;
use crate::text::{
    chars_to_string, is_line_ws, is_ws, lemma_line_end_bounds, lemma_lws_run_start_bounds,
    lemma_skip_line_ws_bounds, lemma_skip_ws_bounds, line_end, line_end_at, lws_run_start,
    lws_run_start_at, skip_line_ws, skip_line_ws_at, skip_ws_at, str_to_chars, subvec,
};

verus! {

/// One subtitle cue: the id as written in the source, the explicit start
/// and end times, and the cue's text lines in order.
#[derive(Debug, PartialEq, Eq)]
pub struct SubtitleItem {
    pub id: u32,
    pub start: ClockTime,
    pub end: ClockTime,
    pub content: Vec<String>,
}

/// The cue of a [`SubtitleItem`] as the grammar sees it.
pub open spec fn cue_of(item: SubtitleItem) -> (u32, ClockTime, ClockTime, Seq<Seq<char>>) {
    (item.id, item.start, item.end, item.content@.map_values(|l: String| l@))
}

/// The cues of a sequence of [`SubtitleItem`] values.
pub open spec fn cues_of(items: Seq<SubtitleItem>) -> Seq<(u32, ClockTime, ClockTime, Seq<Seq<char>>)> {
    items.map_values(|item: SubtitleItem| cue_of(item))
}

/// Whether the literal ` --> ` separator stands at `p`.
pub open spec fn arrow_at(s: Seq<char>, p: int) -> bool {
    &&& p + 5 <= s.len()
    &&& s[p] == ' '
    &&& s[p + 1] == '-'
    &&& s[p + 2] == '-'
    &&& s[p + 3] == '>'
    &&& s[p + 4] == ' '
}

/// The trimmed contents of the consecutive non-blank lines that start at
/// `from`, with the position of the line break (or input end) after the
/// last one; a blank line or exhausted input yields no lines and `from`
/// itself.
pub open spec fn cue_lines(s: Seq<char>, from: int) -> (Seq<Seq<char>>, int)
    decreases s.len() - from,
    when 0 <= from <= s.len()
{
    if from >= s.len() {
        (Seq::empty(), from)
    } else {
        let le0 = line_end(s, from);
        let le = if from <= le0 <= s.len() {
            le0
        } else {
            from
        };
        let a = skip_line_ws(s, from);
        if !(a < le) {
            (Seq::empty(), from)
        } else {
            let b = lws_run_start(s, le);
            let line = s.subrange(a, b);
            if le >= s.len() {
                (seq![line], le)
            } else {
                let r = cue_lines(s, le + 1);
                (seq![line] + r.0, if r.0.len() == 0 {
                    le
                } else {
                    r.1
                })
            }
        }
    }
}

pub proof fn lemma_cue_lines_bounds(s: Seq<char>, from: int)
    requires
        0 <= from <= s.len(),
    ensures
        from <= cue_lines(s, from).1 <= s.len(),
        cue_lines(s, from).0.len() >= 1 ==> cue_lines(s, from).1 > from,
    decreases s.len() - from,
{
    if from < s.len() {
        lemma_line_end_bounds(s, from);
        let le = line_end(s, from);
        let a = skip_line_ws(s, from);
        if a < le && le < s.len() {
            lemma_cue_lines_bounds(s, le + 1);
        }
    }
}

/// Every line collected from `from` on is non-empty and carries no
/// whitespace at either end.
pub proof fn lemma_cue_lines_trimmed(s: Seq<char>, from: int)
    requires
        0 <= from <= s.len(),
    ensures
        forall|j: int|
            0 <= j < cue_lines(s, from).0.len() ==> {
                let l = #[trigger] cue_lines(s, from).0[j];
                &&& l.len() >= 1
                &&& !is_ws(l[0])
                &&& !is_ws(l[l.len() - 1])
            },
    decreases s.len() - from,
{
    if from < s.len() {
        lemma_line_end_bounds(s, from);
        lemma_skip_line_ws_bounds(s, from);
        let le = line_end(s, from);
        let a = skip_line_ws(s, from);
        if a < le {
            lemma_lws_run_start_bounds(s, le);
            let b = lws_run_start(s, le);
            assert(!is_line_ws(s[a]));
            assert(a < b) by {
                if b <= a {
                    assert(is_line_ws(s[a]));
                }
            }
            let line = s.subrange(a, b);
            assert(line[0] == s[a] && !is_ws(line[0]));
            assert(line[line.len() - 1] == s[b - 1] && !is_ws(line[line.len() - 1]));
            if le < s.len() {
                lemma_cue_lines_trimmed(s, le + 1);
                let r = cue_lines(s, le + 1);
                assert(forall|j: int|
                    1 <= j < cue_lines(s, from).0.len() ==> cue_lines(s, from).0[j] == r.0[j - 1]);
            }
        }
    }
}

/// What parsing one cue block at `from` yields: the cue and the position
/// after its last text line, or nothing when the block does not match the
/// cue shape.
pub open spec fn cue_at(s: Seq<char>, from: int) -> Option<
    ((u32, ClockTime, ClockTime, Seq<Seq<char>>), int),
>
    recommends
        0 <= from <= s.len(),
{
    if !field_ok(s, from) {
        Option::None
    } else {
        let ie = run_end(s, from);
        let le1 = line_end(s, ie);
        if !(skip_line_ws(s, ie) == le1 && le1 < s.len()) {
            Option::None
        } else {
            let a2 = skip_line_ws(s, le1 + 1);
            match duration_result(s, a2, true) {
                Option::None => Option::None,
                Option::Some((start, p2)) => {
                    if !arrow_at(s, p2) {
                        Option::None
                    } else {
                        match duration_result(s, p2 + 5, true) {
                            Option::None => Option::None,
                            Option::Some((end, p3)) => {
                                let le3 = line_end(s, p3);
                                if !(skip_line_ws(s, p3) == le3 && le3 < s.len()) {
                                    Option::None
                                } else {
                                    let r = cue_lines(s, le3 + 1);
                                    if r.0.len() < 1 {
                                        Option::None
                                    } else {
                                        Option::Some(
                                            ((field_val(s, from) as u32, start, end, r.0), r.1),
                                        )
                                    }
                                }
                            },
                        }
                    }
                },
            }
        }
    }
}

/// A parsed cue block ends strictly after its start and within the input.
pub proof fn lemma_cue_at_bounds(s: Seq<char>, from: int)
    requires
        0 <= from <= s.len(),
        cue_at(s, from) is Some,
    ensures
        from < cue_at(s, from)->Some_0.1 <= s.len(),
{
    crate::clock::lemma_run_end_bounds(s, from);
    let ie = run_end(s, from);
    lemma_line_end_bounds(s, ie);
    let le1 = line_end(s, ie);
    lemma_skip_line_ws_bounds(s, le1 + 1);
    let a2 = skip_line_ws(s, le1 + 1);
    crate::clock::lemma_duration_result_bounds(s, a2, true);
    let (start, p2) = duration_result(s, a2, true)->Some_0;
    crate::clock::lemma_duration_result_bounds(s, p2 + 5, true);
    let (end, p3) = duration_result(s, p2 + 5, true)->Some_0;
    lemma_line_end_bounds(s, p3);
    let le3 = line_end(s, p3);
    lemma_cue_lines_bounds(s, le3 + 1);
}

/// What parsing the whole subtitle block from `from` on yields: the cues
/// in source order, or nothing when some block is malformed. Whitespace
/// between blocks is skipped; an exhausted input yields the empty
/// sequence.
pub open spec fn cues_from(s: Seq<char>, from: int) -> Option<
    Seq<(u32, ClockTime, ClockTime, Seq<Seq<char>>)>,
>
    decreases s.len() - from,
    when 0 <= from <= s.len()
{
    if from >= s.len() {
        Option::Some(Seq::empty())
    } else if is_ws(s[from]) {
        cues_from(s, from + 1)
    } else {
        match cue_at(s, from) {
            Option::None => Option::None,
            Option::Some((c, q)) => {
                let next = if from + 1 <= q <= s.len() {
                    q
                } else {
                    from + 1
                };
                match cues_from(s, next) {
                    Option::None => Option::None,
                    Option::Some(rest) => Option::Some(seq![c] + rest),
                }
            },
        }
    }
}

/// Skipping whitespace does not change what the subtitle block parses to.
pub proof fn lemma_cues_from_ws(s: Seq<char>, i: int, j: int)
    requires
        0 <= i <= j <= s.len(),
        forall|k: int| i <= k < j ==> is_ws(#[trigger] s[k]),
    ensures
        cues_from(s, i) == cues_from(s, j),
    decreases j - i,
{
    if i < j {
        assert(is_ws(s[i]));
        lemma_cues_from_ws(s, i + 1, j);
    }
}

/// Every cue of a subtitle block that parses has at least one text line,
/// and every text line is non-empty with no whitespace at either end.
pub proof fn lemma_cues_wellformed(s: Seq<char>, from: int)
    requires
        0 <= from <= s.len(),
        cues_from(s, from) is Some,
    ensures
        forall|i: int|
            0 <= i < cues_from(s, from)->Some_0.len() ==> {
                let c = #[trigger] cues_from(s, from)->Some_0[i];
                &&& c.3.len() >= 1
                &&& forall|j: int|
                    0 <= j < c.3.len() ==> {
                        let l = #[trigger] c.3[j];
                        &&& l.len() >= 1
                        &&& !is_ws(l[0])
                        &&& !is_ws(l[l.len() - 1])
                    }
            },
    decreases s.len() - from,
{
    if from >= s.len() {
    } else if is_ws(s[from]) {
        lemma_cues_wellformed(s, from + 1);
    } else {
        match cue_at(s, from) {
            Option::None => {},
            Option::Some((c, q)) => {
                lemma_cue_at_bounds(s, from);
                lemma_cues_wellformed(s, q);
                crate::clock::lemma_run_end_bounds(s, from);
                let ie = run_end(s, from);
                lemma_line_end_bounds(s, ie);
                let le1 = line_end(s, ie);
                lemma_skip_line_ws_bounds(s, le1 + 1);
                let a2 = skip_line_ws(s, le1 + 1);
                crate::clock::lemma_duration_result_bounds(s, a2, true);
                let (start, p2) = duration_result(s, a2, true)->Some_0;
                crate::clock::lemma_duration_result_bounds(s, p2 + 5, true);
                let (end, p3) = duration_result(s, p2 + 5, true)->Some_0;
                lemma_line_end_bounds(s, p3);
                let le3 = line_end(s, p3);
                lemma_cue_lines_trimmed(s, le3 + 1);
                let rest = cues_from(s, q)->Some_0;
                assert(forall|i: int|
                    1 <= i < cues_from(s, from)->Some_0.len() ==> cues_from(s, from)->Some_0[i]
                        == rest[i - 1]);
            },
        }
    }
}

/// Collects the trimmed consecutive non-blank lines that start at `ts`,
/// with the position after the last one: the executable [`cue_lines`].
fn collect_text_lines(s: &Vec<char>, ts: usize) -> (r: (Vec<String>, usize))
    requires
        ts <= s@.len(),
    ensures
        r.0@.map_values(|l: String| l@) == cue_lines(s@, ts as int).0,
        r.1 == cue_lines(s@, ts as int).1,
        ts <= r.1 <= s@.len(),
{
    let len = s.len();
    let mut lines: Vec<String> = Vec::new();
    let mut cur = ts;
    let mut endpos = ts;
    loop
        invariant
            ts <= cur <= len,
            len == s@.len(),
            ts <= endpos <= len,
            cue_lines(s@, ts as int).0 == lines@.map_values(|l: String| l@) + cue_lines(
                s@,
                cur as int,
            ).0,
            cue_lines(s@, ts as int).1 == (if cue_lines(s@, cur as int).0.len() == 0
                && lines@.len() > 0 {
                endpos as int
            } else {
                cue_lines(s@, cur as int).1
            }),
            lines@.len() == 0 ==> cur == ts && endpos == ts,
        ensures
            cue_lines(s@, cur as int) == (Seq::<Seq<char>>::empty(), cur as int),
        decreases len - cur,
    {
        if cur >= len {
            break;
        }
        let le = line_end_at(s, cur);
        let a = skip_line_ws_at(s, cur);
        if a >= le {
            break;
        }
        let b = lws_run_start_at(s, le);
        proof {
            lemma_skip_line_ws_bounds(s@, cur as int);
            lemma_lws_run_start_bounds(s@, le as int);
            assert(a < b) by {
                if b <= a {
                    assert(is_line_ws(s@[a as int]));
                }
            }
        }
        let line_chars = subvec(s, a, b);
        let line = chars_to_string(&line_chars);
        let ghost lc = s@.subrange(a as int, b as int);
        let ghost old_lines = lines@;
        let ghost old_cur = cur as int;
        lines.push(line);
        endpos = le;
        if le >= len {
            cur = len;
        } else {
            cur = le + 1;
        }
        proof {
            assert(lines@.map_values(|l: String| l@) =~= old_lines.map_values(|l: String| l@)
                + seq![lc]);
            if le >= len {
                assert(cue_lines(s@, old_cur) == (seq![lc], le as int));
                assert(cue_lines(s@, cur as int) == (Seq::<Seq<char>>::empty(), cur as int));
            } else {
                let r = cue_lines(s@, le + 1);
                assert(cue_lines(s@, old_cur) == (seq![lc] + r.0, if r.0.len() == 0 {
                    le as int
                } else {
                    r.1
                }));
            }
            assert(cue_lines(s@, ts as int).0 == lines@.map_values(|l: String| l@) + cue_lines(
                s@,
                cur as int,
            ).0) by {
                assert(old_lines.map_values(|l: String| l@) + (seq![lc] + cue_lines(
                    s@,
                    cur as int,
                ).0) =~= lines@.map_values(|l: String| l@) + cue_lines(s@, cur as int).0);
            }
        }
    }
    proof {
        assert(lines@.map_values(|l: String| l@) + Seq::<Seq<char>>::empty() =~= lines@.map_values(
            |l: String| l@,
        ));
        if lines@.len() == 0 {
            assert(lines@.map_values(|l: String| l@) =~= Seq::<Seq<char>>::empty());
        }
    }
    (lines, endpos)
}

/// Parses one cue block at `from`; the result is exactly what the grammar
/// [`cue_at`] assigns to the input.
fn parse_cue(s: &Vec<char>, from: usize) -> (r: Result<(SubtitleItem, usize), SplitError>)
    requires
        from <= s@.len(),
    ensures
        match r {
            Ok(p) => {
                &&& cue_at(s@, from as int) == Option::Some((cue_of(p.0), p.1 as int))
                &&& from < p.1 <= s@.len()
            },
            Err(e) => {
                &&& e == SplitError::EmptyOrMalformedCueList
                &&& cue_at(s@, from as int) is None
            },
        },
{
    let len = s.len();
    let (id, ie) = match parse_field(s, from) {
        Ok(x) => x,
        Err(_) => {
            return Err(SplitError::EmptyOrMalformedCueList);
        },
    };
    let le1 = line_end_at(s, ie);
    let a1 = skip_line_ws_at(s, ie);
    if a1 != le1 || le1 >= len {
        return Err(SplitError::EmptyOrMalformedCueList);
    }
    let a2 = skip_line_ws_at(s, le1 + 1);
    let (start, p2) = match parse_duration(s, a2, true) {
        Ok(x) => x,
        Err(_) => {
            return Err(SplitError::EmptyOrMalformedCueList);
        },
    };
    if len - p2 < 5 {
        return Err(SplitError::EmptyOrMalformedCueList);
    }
    if !(s[p2] == ' ' && s[p2 + 1] == '-' && s[p2 + 2] == '-' && s[p2 + 3] == '>' && s[p2 + 4]
        == ' ') {
        return Err(SplitError::EmptyOrMalformedCueList);
    }
    let (end, p3) = match parse_duration(s, p2 + 5, true) {
        Ok(x) => x,
        Err(_) => {
            return Err(SplitError::EmptyOrMalformedCueList);
        },
    };
    let le3 = line_end_at(s, p3);
    let a3 = skip_line_ws_at(s, p3);
    if a3 != le3 || le3 >= len {
        return Err(SplitError::EmptyOrMalformedCueList);
    }
    let (content, q) = collect_text_lines(s, le3 + 1);
    if content.len() == 0 {
        return Err(SplitError::EmptyOrMalformedCueList);
    }
    proof {
        lemma_cue_at_bounds(s@, from as int);
    }
    Ok((SubtitleItem { id, start, end, content }, q))
}

/// The whole contract of [`parse`]: on success the result holds the
/// block's cues in source order, at least one; on failure the block
/// parses to no cue or is malformed.
pub open spec fn parse_full_spec(input: Seq<char>, r: Result<Vec<SubtitleItem>, SplitError>) -> bool {
    match r {
        Ok(v) => {
            &&& cues_from(input, 0) == Option::Some(cues_of(v@))
            &&& v@.len() >= 1
        },
        Err(e) => {
            &&& e == SplitError::EmptyOrMalformedCueList
            &&& (cues_from(input, 0) is None || cues_from(input, 0)->Some_0.len() == 0)
        },
    }
}

/// Parses a subtitle block into its cues.
pub fn parse(input: &str) -> (r: Result<Vec<SubtitleItem>, SplitError>)
    ensures
        parse_full_spec(input@, r),
{
    let s = str_to_chars(input);
    let len = s.len();
    let mut acc: Vec<SubtitleItem> = Vec::new();
    let mut pos: usize = 0;
    loop
        invariant
            pos <= len,
            len == s@.len(),
            s@ == input@,
            cues_from(s@, 0) == match cues_from(s@, pos as int) {
                Option::None => Option::<Seq<(u32, ClockTime, ClockTime, Seq<Seq<char>>)>>::None,
                Option::Some(rest) => Option::Some(cues_of(acc@) + rest),
            },
        ensures
            pos == len,
        decreases len - pos,
    {
        let npos = skip_ws_at(&s, pos);
        proof {
            lemma_skip_ws_bounds(s@, pos as int);
            lemma_cues_from_ws(s@, pos as int, npos as int);
        }
        pos = npos;
        if pos == len {
            break;
        }
        let (item, q) = match parse_cue(&s, pos) {
            Ok(x) => x,
            Err(e) => {
                return Err(e);
            },
        };
        let ghost c = cue_of(item);
        let ghost old_acc = acc@;
        acc.push(item);
        proof {
            assert(cues_of(acc@) =~= cues_of(old_acc).push(c));
            match cues_from(s@, q as int) {
                Option::None => {
                    assert(cues_from(s@, pos as int) is None);
                },
                Option::Some(rest) => {
                    assert(cues_from(s@, pos as int) == Option::Some(seq![c] + rest));
                    assert(cues_of(old_acc) + (seq![c] + rest) =~= cues_of(acc@) + rest);
                },
            }
        }
        pos = q;
    }
    proof {
        assert(cues_from(s@, pos as int) == Option::Some(
            Seq::<(u32, ClockTime, ClockTime, Seq<Seq<char>>)>::empty(),
        ));
        assert(cues_of(acc@) + Seq::<(u32, ClockTime, ClockTime, Seq<Seq<char>>)>::empty()
            =~= cues_of(acc@));
    }
    if acc.len() == 0 {
        proof {
            assert(cues_of(acc@) =~= Seq::<(u32, ClockTime, ClockTime, Seq<Seq<char>>)>::empty());
        }
        return Err(SplitError::EmptyOrMalformedCueList);
    }
    Ok(acc)
}

} // verus!
