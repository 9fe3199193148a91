//! Label sanitization for output filenames.
//!
//! Exactly five characters are special — `$`, backtick, double quote,
//! backslash and space — and each is escaped by one preceding backslash;
//! every other character, multi-byte text included, is kept unchanged.

use vstd::prelude::*;

use crate::text::{chars_to_string, str_to_chars};

verus! {

/// Whether `c` is one of the five characters that sanitization escapes.
pub open spec fn is_special(c: char) -> bool {
    c == '$' || c == '`' || c == '"' || c == '\\' || c == ' '
}

/// Executable test for the five special characters.
pub fn special_check(c: char) -> (r: bool)
    ensures
        r == is_special(c),
{
    c == '$' || c == '`' || c == '"' || c == '\\' || c == ' '
}

/// The sanitized form of a text: each special character preceded by one
/// backslash, all other characters unchanged.
pub open spec fn escape_seq(s: Seq<char>) -> Seq<char>
    decreases s.len(),
{
    if s.len() == 0 {
        Seq::empty()
    } else {
        escape_seq(s.drop_last()) + (if is_special(s.last()) {
            seq!['\\', s.last()]
        } else {
            seq![s.last()]
        })
    }
}

/// Sanitization treats each character independently: escaping a
/// concatenation escapes the parts.
pub proof fn lemma_escape_append(s: Seq<char>, t: Seq<char>)
    ensures
        escape_seq(s + t) == escape_seq(s) + escape_seq(t),
    decreases t.len(),
{
    if t.len() == 0 {
        assert(s + t =~= s);
        assert(escape_seq(s) + Seq::<char>::empty() =~= escape_seq(s));
    } else {
        lemma_escape_append(s, t.drop_last());
        assert((s + t).drop_last() =~= s + t.drop_last());
        assert((s + t).last() == t.last());
        assert(escape_seq(s) + escape_seq(t) =~= escape_seq(s) + (escape_seq(t.drop_last()) + (
        if is_special(t.last()) {
            seq!['\\', t.last()]
        } else {
            seq![t.last()]
        })));
    }
}

/// A single special character becomes backslash + itself; any other
/// single character is kept as it is.
pub proof fn lemma_escape_single(c: char)
    ensures
        escape_seq(seq![c]) == if is_special(c) {
            seq!['\\', c]
        } else {
            seq![c]
        },
{
    assert(seq![c].len() == 1);
    assert(seq![c].last() == c);
    assert(seq![c].drop_last() =~= Seq::<char>::empty());
    assert(escape_seq(Seq::<char>::empty()) == Seq::<char>::empty());
    if is_special(c) {
        assert(escape_seq(seq![c]) =~= seq!['\\', c]);
    } else {
        assert(escape_seq(seq![c]) =~= seq![c]);
    }
}

/// A text without special characters is left unchanged, so sanitizing it
/// twice gives the same result as sanitizing it once.
pub proof fn lemma_escape_no_specials(s: Seq<char>)
    requires
        forall|i: int| 0 <= i < s.len() ==> !is_special(#[trigger] s[i]),
    ensures
        escape_seq(s) == s,
    decreases s.len(),
{
    if s.len() > 0 {
        assert(!is_special(s.last()));
        lemma_escape_no_specials(s.drop_last());
        assert(escape_seq(s) =~= s);
    }
}

/// Appends the sanitized form of `s` to `out`.
pub(crate) fn push_escaped(out: &mut Vec<char>, s: &Vec<char>)
    ensures
        final(out)@ == old(out)@ + escape_seq(s@),
{
    let len = s.len();
    let mut i: usize = 0;
    while i < len
        invariant
            i <= len,
            len == s@.len(),
            out@ == old(out)@ + escape_seq(s@.subrange(0, i as int)),
        decreases len - i,
    {
        let c = s[i];
        if special_check(c) {
            out.push('\\');
        }
        out.push(c);
        proof {
            let pre = s@.subrange(0, i as int);
            let cur = s@.subrange(0, i + 1);
            assert(cur.drop_last() =~= pre);
            assert(cur.last() == s@[i as int]);
            if is_special(s@[i as int]) {
                assert(out@ =~= old(out)@ + (escape_seq(pre) + seq!['\\', s@[i as int]]));
            } else {
                assert(out@ =~= old(out)@ + (escape_seq(pre) + seq![s@[i as int]]));
            }
        }
        i = i + 1;
    }
    proof {
        assert(s@.subrange(0, s@.len() as int) =~= s@);
        assert(escape_seq(s@.subrange(0, 0)) =~= Seq::<char>::empty());
    }
}

/// Sanitizes a label for use in an output filename.
pub fn escape_special_chars(filename: &str) -> (r: String)
    ensures
        r@ == escape_seq(filename@),
{
    let chars = str_to_chars(filename);
    let mut out: Vec<char> = Vec::new();
    push_escaped(&mut out, &chars);
    proof {
        assert(Seq::<char>::empty() + escape_seq(chars@) =~= escape_seq(chars@));
    }
    chars_to_string(&out)
}

} // verus!
