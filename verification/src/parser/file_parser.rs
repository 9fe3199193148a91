//! The file classifier: splits a path string into name and directory and
//! maps the extension to a coarse file kind.
//!
//! The name is what follows the last path separator (`/`), the directory
//! is what precedes it (empty when there is no separator), and the
//! extension is what follows the last dot of the name, provided that dot
//! does not lead the name.

use vstd::prelude::*;

use crate::text::{chars_to_string, str_to_chars, subvec};

verus! {

/// The coarse kind of a file, read off its extension: `mp4`, `avi` and
/// `mkv` are video, `srt`, `ass` and `vtt` are subtitles, everything else
/// is other.
#[derive(Debug, PartialEq, Eq, Clone, Copy)]
pub enum FileType {
    Video,
    Subtitle,
    Other,
}

/// A classified file: the full path as given, the file name, the
/// directory part, and the kind.
#[derive(Debug, PartialEq, Eq)]
pub struct FileHolder {
    pub full_path: String,
    pub name: String,
    pub directory: String,
    pub file_type: FileType,
}

/// The position just after the last `/` in `s`, or 0 when `s` has none.
pub open spec fn name_start(s: Seq<char>) -> int
    decreases s.len(),
{
    if s.len() == 0 {
        0
    } else if s.last() == '/' {
        s.len() as int
    } else {
        name_start(s.drop_last())
    }
}

/// The file-name part of a path: what follows the last `/`.
pub open spec fn spec_name(s: Seq<char>) -> Seq<char> {
    s.subrange(name_start(s), s.len() as int)
}

/// The directory part of a path: what precedes the last `/`, empty when
/// there is none.
pub open spec fn spec_directory(s: Seq<char>) -> Seq<char> {
    if name_start(s) == 0 {
        Seq::empty()
    } else {
        s.subrange(0, name_start(s) - 1)
    }
}

/// The position just after the last `.` of a name, or 0 when no `.`
/// stands past the name's first character.
pub open spec fn ext_start(name: Seq<char>) -> int
    decreases name.len(),
{
    if name.len() <= 1 {
        0
    } else if name.last() == '.' {
        name.len() as int
    } else {
        ext_start(name.drop_last())
    }
}

/// The extension of a name: what follows its last `.`, empty when the
/// name has no extension.
pub open spec fn spec_extension(name: Seq<char>) -> Seq<char> {
    if ext_start(name) == 0 {
        Seq::empty()
    } else {
        name.subrange(ext_start(name), name.len() as int)
    }
}

/// The kind an extension maps to.
pub open spec fn kind_of_ext(e: Seq<char>) -> FileType {
    if e == seq!['m', 'p', '4'] || e == seq!['a', 'v', 'i'] || e == seq!['m', 'k', 'v'] {
        FileType::Video
    } else if e == seq!['s', 'r', 't'] || e == seq!['a', 's', 's'] || e == seq!['v', 't', 't'] {
        FileType::Subtitle
    } else {
        FileType::Other
    }
}

pub proof fn lemma_name_start_bounds(s: Seq<char>)
    ensures
        0 <= name_start(s) <= s.len(),
    decreases s.len(),
{
    if s.len() > 0 && s.last() != '/' {
        lemma_name_start_bounds(s.drop_last());
    }
}

pub proof fn lemma_ext_start_bounds(name: Seq<char>)
    ensures
        0 <= ext_start(name) <= name.len(),
        ext_start(name) != 1,
    decreases name.len(),
{
    if name.len() > 1 && name.last() != '.' {
        lemma_ext_start_bounds(name.drop_last());
    }
}

/// Finds [`name_start`] of the characters of `s`.
fn scan_name_start(s: &Vec<char>) -> (r: usize)
    ensures
        r == name_start(s@),
        r <= s@.len(),
{
    let mut j = s.len();
    proof {
        assert(s@.subrange(0, s@.len() as int) =~= s@);
    }
    while j > 0 && s[j - 1] != '/'
        invariant
            j <= s@.len(),
            name_start(s@) == name_start(s@.subrange(0, j as int)),
        decreases j,
    {
        proof {
            let cur = s@.subrange(0, j as int);
            assert(cur.drop_last() =~= s@.subrange(0, j - 1));
            assert(cur.last() == s@[j - 1]);
        }
        j = j - 1;
    }
    proof {
        let cur = s@.subrange(0, j as int);
        if j > 0 {
            assert(cur.last() == s@[j - 1]);
            assert(name_start(cur) == j);
        } else {
            assert(name_start(cur) == 0);
        }
    }
    j
}

/// Finds [`ext_start`] of the characters of a name.
fn scan_ext_start(name: &Vec<char>) -> (r: usize)
    ensures
        r == ext_start(name@),
        r <= name@.len(),
{
    let mut j = name.len();
    proof {
        assert(name@.subrange(0, name@.len() as int) =~= name@);
    }
    while j > 1 && name[j - 1] != '.'
        invariant
            j <= name@.len(),
            ext_start(name@) == ext_start(name@.subrange(0, j as int)),
        decreases j,
    {
        proof {
            let cur = name@.subrange(0, j as int);
            assert(cur.drop_last() =~= name@.subrange(0, j - 1));
            assert(cur.last() == name@[j - 1]);
        }
        j = j - 1;
    }
    proof {
        let cur = name@.subrange(0, j as int);
        if j > 1 {
            assert(cur.last() == name@[j - 1]);
            assert(ext_start(cur) == j);
        } else {
            assert(ext_start(cur) == 0);
        }
    }
    if j > 1 {
        j
    } else {
        0
    }
}

/// Whether the characters of `e` are exactly `a`, `b`, `c`.
fn ext_is(e: &Vec<char>, a: char, b: char, c: char) -> (r: bool)
    ensures
        r == (e@ == seq![a, b, c]),
{
    if e.len() != 3 {
        return false;
    }
    if e[0] == a && e[1] == b && e[2] == c {
        proof {
            assert(e@ =~= seq![a, b, c]);
        }
        true
    } else {
        false
    }
}

/// Classifies the extension characters.
fn kind_of(e: &Vec<char>) -> (r: FileType)
    ensures
        r == kind_of_ext(e@),
{
    if ext_is(e, 'm', 'p', '4') || ext_is(e, 'a', 'v', 'i') || ext_is(e, 'm', 'k', 'v') {
        FileType::Video
    } else if ext_is(e, 's', 'r', 't') || ext_is(e, 'a', 's', 's') || ext_is(e, 'v', 't', 't') {
        FileType::Subtitle
    } else {
        FileType::Other
    }
}

/// Classifies a path: keeps the path verbatim, splits off the name and
/// the directory, and maps the extension to its kind.
pub fn parse(path_str: &str) -> (r: FileHolder)
    ensures
        r.full_path@ == path_str@,
        r.name@ == spec_name(path_str@),
        r.directory@ == spec_directory(path_str@),
        r.file_type == kind_of_ext(spec_extension(spec_name(path_str@))),
{
    let chars = str_to_chars(path_str);
    let ns = scan_name_start(&chars);
    let name_chars = subvec(&chars, ns, chars.len());
    let directory_chars = if ns == 0 {
        Vec::new()
    } else {
        subvec(&chars, 0, ns - 1)
    };
    let es = scan_ext_start(&name_chars);
    let ext_chars = if es == 0 {
        Vec::new()
    } else {
        subvec(&name_chars, es, name_chars.len())
    };
    let file_type = kind_of(&ext_chars);
    proof {
        if ns == 0 {
            assert(spec_directory(chars@) =~= Seq::<char>::empty());
        }
        if es == 0 {
            assert(spec_extension(name_chars@) =~= Seq::<char>::empty());
        }
    }
    FileHolder {
        full_path: path_str.to_owned(),
        name: chars_to_string(&name_chars),
        directory: chars_to_string(&directory_chars),
        file_type,
    }
}

} // verus!
