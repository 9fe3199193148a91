//! Character-level text plumbing shared by the parsers: whitespace and
//! line scanning, trimming, and the bridge between `String` and the
//! character vectors the parsers work on.

use vstd::prelude::*;

verus! {

/// Whitespace that may stand inside a line: space, tab, carriage return.
pub open spec fn is_line_ws(c: char) -> bool {
    c == ' ' || c == '\t' || c == '\r'
}

/// Whitespace of any kind, the line separator included.
pub open spec fn is_ws(c: char) -> bool {
    is_line_ws(c) || c == '\n'
}

/// Executable test for in-line whitespace.
pub fn line_ws_check(c: char) -> (r: bool)
    ensures
        r == is_line_ws(c),
{
    c == ' ' || c == '\t' || c == '\r'
}

/// Executable test for whitespace of any kind.
pub fn ws_check(c: char) -> (r: bool)
    ensures
        r == is_ws(c),
{
    c == ' ' || c == '\t' || c == '\r' || c == '\n'
}

/// The first position at or after `from` that holds a non-whitespace
/// character, or the end of `s`.
pub open spec fn skip_ws(s: Seq<char>, from: int) -> int
    decreases s.len() - from,
    when 0 <= from <= s.len()
{
    if from >= s.len() {
        s.len() as int
    } else if is_ws(s[from]) {
        skip_ws(s, from + 1)
    } else {
        from
    }
}

/// The first position at or after `from` that holds a character other
/// than in-line whitespace, or the end of `s`.
pub open spec fn skip_line_ws(s: Seq<char>, from: int) -> int
    decreases s.len() - from,
    when 0 <= from <= s.len()
{
    if from >= s.len() {
        s.len() as int
    } else if is_line_ws(s[from]) {
        skip_line_ws(s, from + 1)
    } else {
        from
    }
}

/// The position of the first line break at or after `from`, or the end of
/// `s`.
pub open spec fn line_end(s: Seq<char>, from: int) -> int
    decreases s.len() - from,
    when 0 <= from <= s.len()
{
    if from >= s.len() {
        s.len() as int
    } else if s[from] == '\n' {
        from
    } else {
        line_end(s, from + 1)
    }
}

/// The start of the maximal run of in-line whitespace that ends just
/// before `upto`: scanning backwards from `upto`, the first position
/// whose left neighbour is not in-line whitespace.
pub open spec fn lws_run_start(s: Seq<char>, upto: int) -> int
    decreases upto,
    when 0 <= upto <= s.len()
{
    if upto <= 0 {
        0
    } else if is_line_ws(s[upto - 1]) {
        lws_run_start(s, upto - 1)
    } else {
        upto
    }
}

pub proof fn lemma_lws_run_start_bounds(s: Seq<char>, upto: int)
    requires
        0 <= upto <= s.len(),
    ensures
        0 <= lws_run_start(s, upto) <= upto,
        forall|i: int| lws_run_start(s, upto) <= i < upto ==> is_line_ws(s[i]),
        lws_run_start(s, upto) > 0 ==> !is_line_ws(s[lws_run_start(s, upto) - 1]),
    decreases upto,
{
    if upto > 0 && is_line_ws(s[upto - 1]) {
        lemma_lws_run_start_bounds(s, upto - 1);
    }
}

/// Executable [`lws_run_start`].
pub fn lws_run_start_at(s: &Vec<char>, upto: usize) -> (r: usize)
    requires
        upto <= s@.len(),
    ensures
        r == lws_run_start(s@, upto as int),
        r <= upto,
{
    let mut j = upto;
    while j > 0 && line_ws_check(s[j - 1])
        invariant
            j <= upto <= s@.len(),
            lws_run_start(s@, upto as int) == lws_run_start(s@, j as int),
        decreases j,
    {
        j = j - 1;
    }
    j
}

pub proof fn lemma_skip_ws_bounds(s: Seq<char>, from: int)
    requires
        0 <= from <= s.len(),
    ensures
        from <= skip_ws(s, from) <= s.len(),
        forall|i: int| from <= i < skip_ws(s, from) ==> is_ws(s[i]),
        skip_ws(s, from) < s.len() ==> !is_ws(s[skip_ws(s, from)]),
    decreases s.len() - from,
{
    if from < s.len() && is_ws(s[from]) {
        lemma_skip_ws_bounds(s, from + 1);
    }
}

pub proof fn lemma_skip_line_ws_bounds(s: Seq<char>, from: int)
    requires
        0 <= from <= s.len(),
    ensures
        from <= skip_line_ws(s, from) <= s.len(),
        forall|i: int| from <= i < skip_line_ws(s, from) ==> is_line_ws(s[i]),
        skip_line_ws(s, from) < s.len() ==> !is_line_ws(s[skip_line_ws(s, from)]),
    decreases s.len() - from,
{
    if from < s.len() && is_line_ws(s[from]) {
        lemma_skip_line_ws_bounds(s, from + 1);
    }
}

pub proof fn lemma_line_end_bounds(s: Seq<char>, from: int)
    requires
        0 <= from <= s.len(),
    ensures
        from <= line_end(s, from) <= s.len(),
        forall|i: int| from <= i < line_end(s, from) ==> s[i] != '\n',
        line_end(s, from) < s.len() ==> s[line_end(s, from)] == '\n',
    decreases s.len() - from,
{
    if from < s.len() && s[from] != '\n' {
        lemma_line_end_bounds(s, from + 1);
    }
}

/// Executable [`skip_ws`].
pub fn skip_ws_at(s: &Vec<char>, from: usize) -> (r: usize)
    requires
        from <= s@.len(),
    ensures
        r == skip_ws(s@, from as int),
        from <= r <= s@.len(),
{
    let len = s.len();
    let mut j = from;
    while j < len && ws_check(s[j])
        invariant
            from <= j <= len,
            len == s@.len(),
            skip_ws(s@, from as int) == skip_ws(s@, j as int),
        decreases len - j,
    {
        j = j + 1;
    }
    j
}

/// Executable [`skip_line_ws`].
pub fn skip_line_ws_at(s: &Vec<char>, from: usize) -> (r: usize)
    requires
        from <= s@.len(),
    ensures
        r == skip_line_ws(s@, from as int),
        from <= r <= s@.len(),
{
    let len = s.len();
    let mut j = from;
    while j < len && line_ws_check(s[j])
        invariant
            from <= j <= len,
            len == s@.len(),
            skip_line_ws(s@, from as int) == skip_line_ws(s@, j as int),
        decreases len - j,
    {
        j = j + 1;
    }
    j
}

/// Executable [`line_end`].
pub fn line_end_at(s: &Vec<char>, from: usize) -> (r: usize)
    requires
        from <= s@.len(),
    ensures
        r == line_end(s@, from as int),
        from <= r <= s@.len(),
{
    let len = s.len();
    let mut j = from;
    while j < len && s[j] != '\n'
        invariant
            from <= j <= len,
            len == s@.len(),
            line_end(s@, from as int) == line_end(s@, j as int),
        decreases len - j,
    {
        j = j + 1;
    }
    j
}

/// Copies the characters of `s` between `from` and `to` into a fresh
/// vector.
pub fn subvec(s: &Vec<char>, from: usize, to: usize) -> (r: Vec<char>)
    requires
        from <= to <= s@.len(),
    ensures
        r@ == s@.subrange(from as int, to as int),
{
    let mut out: Vec<char> = Vec::new();
    let mut j = from;
    while j < to
        invariant
            from <= j <= to <= s@.len(),
            out@ == s@.subrange(from as int, j as int),
        decreases to - j,
    {
        out.push(s[j]);
        proof {
            assert(out@ =~= s@.subrange(from as int, j + 1));
        }
        j = j + 1;
    }
    out
}

/// The characters of `s` as a vector, in order.
pub fn str_to_chars(s: &str) -> (r: Vec<char>)
    ensures
        r@ == s@,
{
    let len = s.unicode_len();
    let mut out: Vec<char> = Vec::new();
    let mut j: usize = 0;
    while j < len
        invariant
            j <= len,
            len == s@.len(),
            out@ == s@.subrange(0, j as int),
        decreases len - j,
    {
        out.push(s.get_char(j));
        proof {
            assert(out@ =~= s@.subrange(0, j + 1));
        }
        j = j + 1;
    }
    proof {
        assert(out@ =~= s@);
    }
    out
}

/// Relies on `String::push`: it appends exactly the one character to the
/// end of the string.
#[verifier::external_body]
fn push_char(s: &mut String, c: char)
    ensures
        final(s)@ == old(s)@.push(c),
{
    s.push(c);
}

/// The characters of `v`, in order, as a `String`.
pub fn chars_to_string(v: &Vec<char>) -> (r: String)
    ensures
        r@ == v@,
{
    let len = v.len();
    let mut out = String::new();
    let mut j: usize = 0;
    while j < len
        invariant
            j <= len,
            len == v@.len(),
            out@ == v@.subrange(0, j as int),
        decreases len - j,
    {
        push_char(&mut out, v[j]);
        proof {
            assert(out@ =~= v@.subrange(0, j + 1));
        }
        j = j + 1;
    }
    proof {
        assert(out@ =~= v@);
    }
    out
}

} // verus!
