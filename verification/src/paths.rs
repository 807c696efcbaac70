//! Plugin paths in a form that process launchers accept.

use vstd::prelude::*;

use crate::text::{chars_of, string_of};

verus! {

/// `prefix` followed by the separator: the four characters `\\?\` or `//?/`.
pub open spec fn extended_prefix(sep: char) -> Seq<char> {
    seq![sep, sep, '?', sep]
}

/// Whether `text` starts with `UNC` in any ASCII case, followed by the separator.
pub open spec fn starts_with_unc(text: Seq<char>, sep: char) -> bool {
    &&& text.len() >= 4
    &&& (text[0] == 'U' || text[0] == 'u')
    &&& (text[1] == 'N' || text[1] == 'n')
    &&& (text[2] == 'C' || text[2] == 'c')
    &&& text[3] == sep
}

/// What remains of an extended path once its prefix is gone: a UNC share keeps its two leading
/// separators, any other path loses the whole prefix.
pub open spec fn without_extended_prefix(rest: Seq<char>, sep: char) -> Seq<char> {
    if starts_with_unc(rest, sep) {
        seq![sep, sep] + rest.skip(4)
    } else {
        rest
    }
}

/// The path with a Windows extended-path prefix (`\\?\` or `//?/`) removed.
pub open spec fn normalized_windows_path(value: Seq<char>) -> Seq<char> {
    if value.len() >= 4 && value.take(4) == extended_prefix('\\') {
        without_extended_prefix(value.skip(4), '\\')
    } else if value.len() >= 4 && value.take(4) == extended_prefix('/') {
        without_extended_prefix(value.skip(4), '/')
    } else {
        value
    }
}

fn starts_with_prefix(chars: &Vec<char>, sep: char) -> (b: bool)
    ensures
        b == (chars@.len() >= 4 && chars@.take(4) == extended_prefix(sep)),
{
    let b = chars.len() >= 4 && chars[0] == sep && chars[1] == sep && chars[2] == '?' && chars[3]
        == sep;
    proof {
        if chars@.len() >= 4 {
            assert(b == (chars@.take(4) =~= extended_prefix(sep)));
        }
    }
    b
}

fn strip_extended(chars: &Vec<char>, sep: char) -> (out: Vec<char>)
    requires
        chars@.len() >= 4,
    ensures
        out@ == without_extended_prefix(chars@.skip(4), sep),
{
    let n = chars.len();
    let unc = n >= 8 && (chars[4] == 'U' || chars[4] == 'u') && (chars[5] == 'N' || chars[5] == 'n')
        && (chars[6] == 'C' || chars[6] == 'c') && chars[7] == sep;
    let mut out: Vec<char> = Vec::new();
    let mut i: usize = 4;
    if unc {
        out.push(sep);
        out.push(sep);
        i = 8;
    }
    let start: usize = i;
    let ghost head = out@;
    while i < n
        invariant
            start <= i <= n,
            n == chars@.len(),
            out@ == head + chars@.subrange(start as int, i as int),
        decreases n - i,
    {
        out.push(chars[i]);
        i = i + 1;
        assert(out@ =~= head + chars@.subrange(start as int, i as int));
    }
    proof {
        let rest = chars@.skip(4);
        assert(unc == starts_with_unc(rest, sep));
        if unc {
            assert(head =~= seq![sep, sep]);
            assert(chars@.subrange(8, n as int) =~= rest.skip(4));
        } else {
            assert(head =~= Seq::<char>::empty());
            assert(chars@.subrange(4, n as int) =~= rest);
        }
    }
    out
}

/// Remove Windows extended-path prefixes that process launchers cannot use as a cwd.
pub fn normalize_windows_path(value: &str) -> (normalized: String)
    ensures
        normalized@ == normalized_windows_path(value@),
{
    let chars = chars_of(value);
    if starts_with_prefix(&chars, '\\') {
        let out = strip_extended(&chars, '\\');
        return string_of(out.as_slice());
    }
    if starts_with_prefix(&chars, '/') {
        let out = strip_extended(&chars, '/');
        return string_of(out.as_slice());
    }
    string_of(chars.as_slice())
}

/// `name` inside directory `dir`, joined as `Path::join` joins a plain file name: with one
/// `separator` between them, unless `dir` is empty or already ends in a separator (`/`, or the
/// platform's own).
pub open spec fn joined_path(dir: Seq<char>, separator: char, name: Seq<char>) -> Seq<char> {
    if dir.len() == 0 {
        name
    } else if dir.last() == '/' || dir.last() == separator {
        dir + name
    } else {
        dir.push(separator) + name
    }
}

fn join_path(dir: &str, separator: char, name: &str) -> (path: String)
    ensures
        path@ == joined_path(dir@, separator, name@),
{
    let chars = chars_of(dir);
    let mut path = string_of(chars.as_slice());
    if chars.len() > 0 && chars[chars.len() - 1] != '/' && chars[chars.len() - 1] != separator {
        crate::text::push_char(&mut path, separator);
    }
    path.append(name);
    proof {
        if chars@.len() > 0 {
            assert(chars@.last() == chars@[chars@.len() - 1]);
        } else {
            assert(dir@ + name@ =~= name@);
        }
    }
    path
}

/// Resolve the JSONL store inside a plugin state directory, `separator` being the platform's
/// path separator.
pub fn annotations_path(dir: &str, separator: char) -> (path: String)
    ensures
        path@ == joined_path(dir@, separator, "annotations.jsonl"@),
{
    join_path(dir, separator, "annotations.jsonl")
}

/// Resolve the archived-set JSONL store inside a plugin state directory, `separator` being the
/// platform's path separator.
pub fn archives_path(dir: &str, separator: char) -> (path: String)
    ensures
        path@ == joined_path(dir@, separator, "archives.jsonl"@),
{
    join_path(dir, separator, "archives.jsonl")
}

} // verus!
