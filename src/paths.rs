//! Relative paths inside an archive: which paths a skip list excludes, how a
//! child path is named, and which stored names are safe to extract.
use vstd::prelude::*;
use vstd::string::StrSliceExecFns;
use vstd::string::StringExecFns;

verus! {

/// A separator inside a stored entry name: `/` as zip tools write it, or `\`.
pub open spec fn is_sep(c: char) -> bool {
    c == '/' || c == '\\'
}

pub open spec fn has_prefix(s: Seq<char>, p: Seq<char>) -> bool {
    p.len() <= s.len() && s.subrange(0, p.len() as int) == p
}

/// The skip entry `skip` names the relative path `rel` itself or a directory
/// that holds it. The match is by whole segments: `logs` covers `logs` and
/// `logs/a`, not `logs2/a`; `logs/` covers what lies under `logs`.
pub open spec fn skip_matches(rel: Seq<char>, skip: Seq<char>) -> bool {
    ||| rel == skip
    ||| (has_prefix(rel, skip) && skip.len() < rel.len() && rel[skip.len() as int] == '/')
    ||| (skip.len() > 0 && skip.last() == '/' && has_prefix(rel, skip))
}

/// Some entry of the skip list matches `rel`.
pub open spec fn skipped_by(rel: Seq<char>, skips: Seq<Seq<char>>) -> bool {
    exists|i: int| 0 <= i < skips.len() && skip_matches(rel, #[trigger] skips[i])
}

/// The character sequences of a list of strings.
pub open spec fn views(v: Seq<String>) -> Seq<Seq<char>> {
    v.map_values(|s: String| s@)
}

/// The path of `name` inside the directory `dir`, both relative to the root;
/// the root itself is the empty path.
pub open spec fn child_path(dir: Seq<char>, name: Seq<char>) -> Seq<char> {
    if dir.len() == 0 {
        name
    } else {
        dir + seq!['/'] + name
    }
}

/// One name from a directory listing: not empty, not `..`, and free of
/// separators, NUL and `:`.
pub open spec fn plain_segment(s: Seq<char>) -> bool {
    &&& s.len() > 0
    &&& s != seq!['.', '.']
    &&& forall|i: int| 0 <= i < s.len() ==> !is_sep(#[trigger] s[i]) && s[i] != '\0' && s[i] != ':'
}

/// A `..` segment starts at position `i` of `name`.
pub open spec fn parent_segment_at(name: Seq<char>, i: int) -> bool {
    &&& 0 <= i && i + 2 <= name.len()
    &&& name[i] == '.' && name[i + 1] == '.'
    &&& (i == 0 || is_sep(name[i - 1]))
    &&& (i + 2 == name.len() || is_sep(name[i + 2]))
}

/// A stored entry name that stays under the destination root once joined to
/// it: not empty, not absolute, free of NUL and of `..` segments, and free of
/// `:`, which on Windows starts a drive prefix (`C:\x`) or a data stream.
pub open spec fn safe_entry_name(name: Seq<char>) -> bool {
    &&& name.len() > 0
    &&& !is_sep(name[0])
    &&& forall|i: int| 0 <= i < name.len() ==> #[trigger] name[i] != '\0' && name[i] != ':'
    &&& forall|i: int| !#[trigger] parent_segment_at(name, i)
}

/// zip's rule for a directory entry: the stored name ends in a separator.
pub open spec fn names_directory(name: Seq<char>) -> bool {
    name.len() > 0 && is_sep(name.last())
}

/// A name under which the archive writer stores a file: safe to extract, and
/// not read back as a directory.
pub open spec fn file_entry_name(name: Seq<char>) -> bool {
    safe_entry_name(name) && !names_directory(name)
}

fn is_sep_char(c: char) -> (r: bool)
    ensures
        r == is_sep(c),
{
    c == '/' || c == '\\'
}

fn starts_with_chars(s: &str, p: &str) -> (r: bool)
    ensures
        r == has_prefix(s@, p@),
{
    let sl = s.unicode_len();
    let pl = p.unicode_len();
    if pl > sl {
        return false;
    }
    let mut i: usize = 0;
    while i < pl
        invariant
            sl == s@.len(),
            pl == p@.len(),
            pl <= sl,
            0 <= i <= pl,
            forall|j: int| 0 <= j < i ==> s@[j] == p@[j],
        decreases pl - i,
    {
        if s.get_char(i) != p.get_char(i) {
            assert(s@.subrange(0, pl as int)[i as int] != p@[i as int]);
            return false;
        }
        i = i + 1;
    }
    assert(s@.subrange(0, pl as int) =~= p@);
    true
}

/// Whether the skip entry `skip` excludes the relative path `rel`.
pub fn skip_entry_matches(rel: &str, skip: &str) -> (r: bool)
    ensures
        r == skip_matches(rel@, skip@),
{
    let rl = rel.unicode_len();
    let kl = skip.unicode_len();
    if !starts_with_chars(rel, skip) {
        proof {
            if rel@ == skip@ {
                assert(rel@.subrange(0, skip@.len() as int) =~= rel@);
            }
        }
        return false;
    }
    if rl == kl {
        assert(rel@ =~= rel@.subrange(0, kl as int));
        return true;
    }
    if rel.get_char(kl) == '/' {
        return true;
    }
    kl > 0 && skip.get_char(kl - 1) == '/'
}

/// Whether some entry of `skips` excludes the relative path `rel`.
pub fn is_skipped(rel: &str, skips: &Vec<String>) -> (r: bool)
    ensures
        r == skipped_by(rel@, views(skips@)),
{
    let mut i: usize = 0;
    while i < skips.len()
        invariant
            0 <= i <= skips@.len(),
            forall|j: int| 0 <= j < i ==> !skip_matches(rel@, #[trigger] views(skips@)[j]),
        decreases skips@.len() - i,
    {
        if skip_entry_matches(rel, skips[i].as_str()) {
            assert(views(skips@)[i as int] == skips@[i as int]@);
            return true;
        }
        assert(views(skips@)[i as int] == skips@[i as int]@);
        i = i + 1;
    }
    false
}

/// The relative path of `name` inside `dir`, joined with `/`.
pub fn child_path_of(dir: &str, name: &str) -> (r: String)
    ensures
        r@ == child_path(dir@, name@),
{
    if dir.unicode_len() == 0 {
        return String::from_str(name);
    }
    proof {
        reveal_strlit("/");
    }
    let d = String::from_str(dir).concat("/");
    d.concat(name)
}

/// Whether `name` may be extracted: see `safe_entry_name`.
pub fn is_safe_entry_name(name: &str) -> (r: bool)
    ensures
        r == safe_entry_name(name@),
{
    let n = name.unicode_len();
    if n == 0 {
        return false;
    }
    if is_sep_char(name.get_char(0)) {
        return false;
    }
    let mut i: usize = 0;
    while i < n
        invariant
            n == name@.len(),
            0 <= i <= n,
            n > 0,
            !is_sep(name@[0]),
            forall|j: int| 0 <= j < i ==> #[trigger] name@[j] != '\0' && name@[j] != ':',
            forall|j: int| 0 <= j < i ==> !#[trigger] parent_segment_at(name@, j),
        decreases n - i,
    {
        let c = name.get_char(i);
        if c == '\0' || c == ':' {
            assert(name@[i as int] == c);
            return false;
        }
        if c == '.' && i + 1 < n && name.get_char(i + 1) == '.' && (i == 0 || is_sep_char(
            name.get_char(i - 1),
        )) && (i + 2 == n || is_sep_char(name.get_char(i + 2))) {
            assert(parent_segment_at(name@, i as int));
            return false;
        }
        assert(!parent_segment_at(name@, i as int));
        i = i + 1;
    }
    assert forall|j: int| !#[trigger] parent_segment_at(name@, j) by {
        if 0 <= j < n {
        }
    }
    true
}

/// Whether the stored name `name` marks a directory entry.
pub fn is_directory_name(name: &str) -> (r: bool)
    ensures
        r == names_directory(name@),
{
    let n = name.unicode_len();
    n > 0 && is_sep_char(name.get_char(n - 1))
}

} // verus!
