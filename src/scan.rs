//! Which entries of a directory walk the scanner yields.
use vstd::prelude::*;
use crate::naming::{file_extension, file_name_of, has_extension, extension_of};

verus! {

/// One entry met while walking a directory tree. `depth` is 0 for the
/// root's direct children, 1 for their children, and so on.
pub struct ScanEntry {
    pub path: String,
    pub depth: usize,
    pub is_file: bool,
}

/// ASCII letters compare without regard to case; other characters as they are.
pub open spec fn ascii_fold(c: char) -> int {
    if 'A' <= c && c <= 'Z' {
        (c as int) + 32
    } else {
        c as int
    }
}

pub open spec fn eq_ignore_ascii_case(a: Seq<char>, b: Seq<char>) -> bool {
    a.len() == b.len() && forall|i: int| 0 <= i < a.len() ==> ascii_fold(a[i]) == ascii_fold(b[i])
}

pub open spec fn strings_view(v: Seq<String>) -> Seq<Seq<char>> {
    v.map_values(|s: String| s@)
}

/// The path's file has an extension that one of `exts` names, case aside.
pub open spec fn extension_allowed(path: Seq<char>, exts: Seq<Seq<char>>) -> bool {
    has_extension(file_name_of(path)) && exists|i: int|
        0 <= i < exts.len() && eq_ignore_ascii_case(#[trigger] exts[i], extension_of(file_name_of(path)))
}

/// Whether the scanner yields an entry.
pub open spec fn is_selected(e: ScanEntry, max_depth: Option<usize>, exts: Option<Seq<Seq<char>>>) -> bool {
    &&& e.is_file
    &&& (max_depth matches Some(d) ==> e.depth <= d)
    &&& (exts matches Some(x) ==> extension_allowed(e.path@, x))
}

/// The paths of the selected entries, in the order of the walk.
pub open spec fn selected_paths(
    entries: Seq<ScanEntry>,
    max_depth: Option<usize>,
    exts: Option<Seq<Seq<char>>>,
) -> Seq<Seq<char>>
    decreases entries.len(),
{
    if entries.len() == 0 {
        Seq::empty()
    } else {
        let rest = selected_paths(entries.drop_last(), max_depth, exts);
        if is_selected(entries.last(), max_depth, exts) {
            rest.push(entries.last().path@)
        } else {
            rest
        }
    }
}

fn fold_char(c: char) -> (r: u32)
    ensures
        r as int == ascii_fold(c),
{
    if 'A' <= c && c <= 'Z' {
        (c as u32) + 32
    } else {
        c as u32
    }
}

/// Equality of two strings with ASCII letters compared case-insensitively.
pub fn str_eq_ignore_ascii_case(a: &str, b: &str) -> (r: bool)
    ensures
        r == eq_ignore_ascii_case(a@, b@),
{
    let n = a.unicode_len();
    if n != b.unicode_len() {
        return false;
    }
    let mut i: usize = 0;
    while i < n
        invariant
            n == a@.len() == b@.len(),
            i <= n,
            forall|j: int| 0 <= j < i ==> ascii_fold(a@[j]) == ascii_fold(b@[j]),
        decreases n - i,
    {
        if fold_char(a.get_char(i)) != fold_char(b.get_char(i)) {
            return false;
        }
        i = i + 1;
    }
    true
}

/// Whether the file of `path` has one of the extensions `exts`, case aside.
pub fn has_allowed_extension(path: &str, exts: &Vec<String>) -> (r: bool)
    ensures
        r == extension_allowed(path@, strings_view(exts@)),
{
    let ext = file_extension(path);
    match ext {
        None => false,
        Some(e) => {
            let mut i: usize = 0;
            while i < exts.len()
                invariant
                    i <= exts@.len(),
                    e@ == extension_of(file_name_of(path@)),
                    has_extension(file_name_of(path@)),
                    forall|j: int| 0 <= j < i ==> !eq_ignore_ascii_case(
                        #[trigger] strings_view(exts@)[j], e@),
                decreases exts.len() - i,
            {
                if str_eq_ignore_ascii_case(exts[i].as_str(), e.as_str()) {
                    assert(eq_ignore_ascii_case(strings_view(exts@)[i as int], e@));
                    return true;
                }
                i = i + 1;
            }
            false
        },
    }
}

/// The paths that a scan yields from the entries of a walk: regular files,
/// no deeper than `max_depth`, and, with a filter, only those whose
/// extension matches one of `extensions` without regard to ASCII case.
pub fn select_files(
    entries: &Vec<ScanEntry>,
    max_depth: Option<usize>,
    extensions: Option<&Vec<String>>,
) -> (r: Vec<String>)
    ensures
        strings_view(r@) == selected_paths(
            entries@,
            max_depth,
            match extensions {
                Some(x) => Some(strings_view(x@)),
                None => None,
            },
        ),
{
    let ghost exts = match extensions {
        Some(x) => Some(strings_view(x@)),
        None => None,
    };
    let mut r: Vec<String> = Vec::new();
    let mut i: usize = 0;
    while i < entries.len()
        invariant
            i <= entries@.len(),
            exts == match extensions {
                Some(x) => Some(strings_view(x@)),
                None => None::<Seq<Seq<char>>>,
            },
            strings_view(r@) == selected_paths(entries@.subrange(0, i as int), max_depth, exts),
        decreases entries.len() - i,
    {
        let e = &entries[i];
        let deep_enough = match max_depth {
            Some(d) => e.depth <= d,
            None => true,
        };
        let ext_ok = match extensions {
            Some(x) => has_allowed_extension(e.path.as_str(), x),
            None => true,
        };
        let ghost before = r@;
        if e.is_file && deep_enough && ext_ok {
            r.push(e.path.clone());
            assert(strings_view(r@) =~= strings_view(before).push(e.path@));
        }
        assert(entries@.subrange(0, i + 1).drop_last() =~= entries@.subrange(0, i as int));
        i = i + 1;
    }
    assert(entries@.subrange(0, entries@.len() as int) =~= entries@);
    r
}

} // verus!
