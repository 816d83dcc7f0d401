//! How a source image's path becomes the file name of its cached thumbnail.
use vstd::prelude::*;

verus! {

/// Path separators: `'/'`, and `'\\'` as on Windows.
pub open spec fn is_separator(c: char) -> bool {
    c == '/' || c == '\\'
}

/// Index just past the last separator of `s`, or 0 when `s` has none.
pub open spec fn name_start(s: Seq<char>) -> int
    decreases s.len(),
{
    if s.len() == 0 {
        0
    } else if is_separator(s.last()) {
        s.len() as int
    } else {
        name_start(s.drop_last())
    }
}

/// Whether the path ends in a separator or in a `.` component.
pub open spec fn ends_in_filler(s: Seq<char>) -> bool {
    s.len() > 0 && (is_separator(s.last()) || (s.last() == '.' && (s.len() == 1 || is_separator(
        s[s.len() - 2],
    ))))
}

/// The path without trailing separators and `.` components.
pub open spec fn trimmed(s: Seq<char>) -> Seq<char>
    decreases s.len(),
{
    if ends_in_filler(s) {
        trimmed(s.drop_last())
    } else {
        s
    }
}

/// The last component of a path: the segment after the last separator,
/// once trailing separators and `.` components are dropped.
pub open spec fn file_name_of(s: Seq<char>) -> Seq<char> {
    let t = trimmed(s);
    t.subrange(name_start(t), t.len() as int)
}

/// Index of the last `'.'` of `s`, or -1 when `s` has none.
pub open spec fn last_dot(s: Seq<char>) -> int
    decreases s.len(),
{
    if s.len() == 0 {
        -1
    } else if s.last() == '.' {
        s.len() - 1
    } else {
        last_dot(s.drop_last())
    }
}

/// A segment that names a file: neither empty nor `.` nor `..`.
pub open spec fn is_named(name: Seq<char>) -> bool {
    name.len() != 0 && name != seq!['.'] && name != seq!['.', '.']
}

/// A file name has an extension when it holds a dot that does not start it.
pub open spec fn has_extension(name: Seq<char>) -> bool {
    is_named(name) && last_dot(name) > 0
}

/// The extension of a file name (without the dot), empty when it has none.
pub open spec fn extension_of(name: Seq<char>) -> Seq<char> {
    if has_extension(name) {
        name.subrange(last_dot(name) + 1, name.len() as int)
    } else {
        Seq::empty()
    }
}

/// The stem of a file name: all of it before the extension's dot.
pub open spec fn stem_of(name: Seq<char>) -> Seq<char> {
    if !is_named(name) {
        Seq::empty()
    } else if has_extension(name) {
        name.subrange(0, last_dot(name))
    } else {
        name
    }
}

/// `"thumb_" + stem + "." + extension` of the path's file name.
pub open spec fn thumbnail_name(path: Seq<char>) -> Seq<char> {
    seq!['t', 'h', 'u', 'm', 'b', '_'] + stem_of(file_name_of(path)) + seq!['.']
        + extension_of(file_name_of(path))
}

/// The prefix that marks a file of the cache directory as a managed thumbnail.
pub open spec fn thumb_prefix() -> Seq<char> {
    seq!['t', 'h', 'u', 'm', 'b', '_']
}

pub open spec fn starts_with(s: Seq<char>, p: Seq<char>) -> bool {
    p.len() <= s.len() && s.subrange(0, p.len() as int) == p
}

proof fn lemma_name_start_bounds(s: Seq<char>)
    ensures
        0 <= name_start(s) <= s.len(),
    decreases s.len(),
{
    if s.len() > 0 && !is_separator(s.last()) {
        lemma_name_start_bounds(s.drop_last());
    }
}

proof fn lemma_last_dot_bounds(s: Seq<char>)
    ensures
        -1 <= last_dot(s) < s.len(),
    decreases s.len(),
{
    if s.len() > 0 && s.last() != '.' {
        lemma_last_dot_bounds(s.drop_last());
    }
}

fn find_name_start(s: &str) -> (r: usize)
    ensures
        r == name_start(s@),
        r <= s@.len(),
{
    proof {
        lemma_name_start_bounds(s@);
    }
    let n = s.unicode_len();
    let mut i: usize = n;
    assert(s@.subrange(0, n as int) == s@);
    while i > 0
        invariant
            i <= n == s@.len(),
            name_start(s@) == name_start(s@.subrange(0, i as int)),
        decreases i,
    {
        let c = s.get_char(i - 1);
        let ghost pre = s@.subrange(0, i as int);
        assert(pre.drop_last() == s@.subrange(0, i - 1));
        assert(pre.last() == c);
        if c == '/' || c == '\\' {
            return i;
        }
        i = i - 1;
    }
    0
}

proof fn lemma_trimmed_idempotent(s: Seq<char>)
    ensures
        trimmed(trimmed(s)) == trimmed(s),
    decreases s.len(),
{
    if ends_in_filler(s) {
        lemma_trimmed_idempotent(s.drop_last());
    }
}

fn trimmed_len(s: &str) -> (r: usize)
    ensures
        r <= s@.len(),
        s@.subrange(0, r as int) == trimmed(s@),
{
    let n = s.unicode_len();
    let mut i: usize = n;
    assert(s@.subrange(0, n as int) == s@);
    while i > 0 && (s.get_char(i - 1) == '/' || s.get_char(i - 1) == '\\' || (s.get_char(i - 1) == '.'
        && (i == 1 || s.get_char(i - 2) == '/' || s.get_char(i - 2) == '\\')))
        invariant
            i <= n == s@.len(),
            trimmed(s@) == trimmed(s@.subrange(0, i as int)),
        decreases i,
    {
        let ghost pre = s@.subrange(0, i as int);
        assert(pre.drop_last() == s@.subrange(0, i - 1));
        assert(ends_in_filler(pre));
        i = i - 1;
    }
    let ghost pre = s@.subrange(0, i as int);
    assert(!ends_in_filler(pre));
    i
}

fn find_last_dot(s: &str, start: usize) -> (r: Option<usize>)
    requires
        start <= s@.len(),
    ensures
        ({
            let name = s@.subrange(start as int, s@.len() as int);
            match r {
                Some(k) => k == last_dot(name) && last_dot(name) >= 0,
                None => last_dot(name) == -1,
            }
        }),
        r matches Some(k) ==> k < s@.len() - start,
{
    proof {
        lemma_last_dot_bounds(s@.subrange(start as int, s@.len() as int));
    }
    let n = s.unicode_len();
    let ghost name = s@.subrange(start as int, n as int);
    let mut i: usize = n;
    while i > start
        invariant
            start <= i <= n == s@.len(),
            name == s@.subrange(start as int, n as int),
            last_dot(name) == last_dot(s@.subrange(start as int, i as int)),
        decreases i,
    {
        let c = s.get_char(i - 1);
        let ghost pre = s@.subrange(start as int, i as int);
        assert(pre.drop_last() == s@.subrange(start as int, i - 1));
        assert(pre.last() == c);
        if c == '.' {
            return Some(i - 1 - start);
        }
        i = i - 1;
    }
    None
}

fn names_a_file(name: &str) -> (r: bool)
    ensures
        r == is_named(name@),
{
    let n = name.unicode_len();
    let dots_only = (n == 1 && name.get_char(0) == '.') || (n == 2 && name.get_char(0) == '.'
        && name.get_char(1) == '.');
    proof {
        if n == 1 && name@[0] == '.' {
            assert(name@ == seq!['.']);
        }
        if n == 2 && name@[0] == '.' && name@[1] == '.' {
            assert(name@ == seq!['.', '.']);
        }
    }
    n != 0 && !dots_only
}

proof fn lemma_name_start_of_suffix(a: Seq<char>, b: Seq<char>)
    requires
        forall|i: int| 0 <= i < b.len() ==> !is_separator(b[i]),
    ensures
        name_start(a + b) == name_start(a),
    decreases b.len(),
{
    if b.len() > 0 {
        assert((a + b).drop_last() =~= a + b.drop_last());
        assert((a + b).last() == b.last());
        lemma_name_start_of_suffix(a, b.drop_last());
    } else {
        assert(a + b =~= a);
    }
}

/// The cache name of a file does not depend on the directory it is in:
/// for a file name without a separator, joining any directory in front of it
/// gives the same cache name as the bare file name.
pub proof fn lemma_thumbnail_name_ignores_directory(dir: Seq<char>, name: Seq<char>)
    requires
        forall|i: int| 0 <= i < name.len() ==> !is_separator(name[i]),
        name.len() > 0,
        name != seq!['.'],
    ensures
        thumbnail_name(path_join(dir, name)) == thumbnail_name(name),
{
    if name.len() == 1 && name[0] == '.' {
        assert(name =~= seq!['.']);
    }
    assert(!ends_in_filler(name));
    lemma_name_start_of_suffix(Seq::empty(), name);
    assert(Seq::<char>::empty() + name =~= name);
    assert(file_name_of(name) =~= name);
    let path = path_join(dir, name);
    if dir.len() != 0 {
        let head = if is_separator(dir.last()) {
            dir
        } else {
            dir + seq!['/']
        };
        assert(is_separator(head.last()));
        assert(path =~= head + name);
        assert((head + name).last() == name.last());
        if name.last() == '.' {
            assert(name.len() >= 2);
            assert((head + name)[(head + name).len() - 2] == name[name.len() - 2]);
        }
        assert(!ends_in_filler(path));
        lemma_name_start_of_suffix(head, name);
        assert(file_name_of(path) =~= name);
    } else {
        assert(path =~= name);
    }
}

/// The name under which the thumbnail of `path` is cached.
pub fn thumbnail_file_name(path: &str) -> (r: String)
    ensures
        r@ == thumbnail_name(path@),
{
    let k = trimmed_len(path);
    proof {
        lemma_trimmed_idempotent(path@);
    }
    let path = path.substring_char(0, k);
    let n = path.unicode_len();
    let start = find_name_start(path);
    let name = path.substring_char(start, n);
    assert(name@ == file_name_of(path@));
    let dot = find_last_dot(path, start);
    let named = names_a_file(name);
    let mut r = String::from_str("thumb_");
    proof {
        reveal_strlit("thumb_");
        reveal_strlit(".");
    }
    match dot {
        Some(k) if named && k > 0 => {
            assert(has_extension(name@));
            r.append(name.substring_char(0, k));
            r.append(".");
            r.append(name.substring_char(k + 1, n - start));
        },
        _ => {
            assert(!has_extension(name@));
            assert(extension_of(name@) =~= Seq::<char>::empty());
            if named {
                r.append(name);
            }
            r.append(".");
        },
    }
    assert(r@ =~= thumbnail_name(path@));
    r
}

/// The extension of the path's file name, when it has one.
pub fn file_extension(path: &str) -> (r: Option<String>)
    ensures
        r is Some <==> has_extension(file_name_of(path@)),
        r matches Some(e) ==> e@ == extension_of(file_name_of(path@)),
{
    let k = trimmed_len(path);
    proof {
        lemma_trimmed_idempotent(path@);
    }
    let path = path.substring_char(0, k);
    let n = path.unicode_len();
    let start = find_name_start(path);
    let name = path.substring_char(start, n);
    let dot = find_last_dot(path, start);
    let named = names_a_file(name);
    match dot {
        Some(k) if named && k > 0 => Some(String::from_str(name.substring_char(k + 1, n - start))),
        _ => None,
    }
}

/// `dir` followed by `name`, with a `'/'` between them unless `dir` is
/// empty or already ends in a separator.
pub open spec fn path_join(dir: Seq<char>, name: Seq<char>) -> Seq<char> {
    if dir.len() == 0 || is_separator(dir.last()) {
        dir + name
    } else {
        dir + seq!['/'] + name
    }
}

/// The path of the entry `name` inside the directory `dir`.
pub fn join_path(dir: &str, name: &str) -> (r: String)
    ensures
        r@ == path_join(dir@, name@),
{
    let n = dir.unicode_len();
    let mut r = String::from_str(dir);
    if n != 0 && dir.get_char(n - 1) != '/' && dir.get_char(n - 1) != '\\' {
        proof {
            reveal_strlit("/");
        }
        r.append("/");
    }
    r.append(name);
    r
}

/// `s` with every occurrence of `"thumb_"` removed, scanning from the left.
pub open spec fn without_thumb_marks(s: Seq<char>) -> Seq<char>
    decreases s.len(),
{
    if s.len() == 0 {
        Seq::empty()
    } else if starts_with(s, thumb_prefix()) {
        without_thumb_marks(s.skip(6))
    } else {
        seq![s[0]] + without_thumb_marks(s.skip(1))
    }
}

fn thumb_mark_at(s: &str, i: usize) -> (r: bool)
    requires
        i <= s@.len(),
    ensures
        r == starts_with(s@.skip(i as int), thumb_prefix()),
{
    let mark = "thumb_";
    proof {
        reveal_strlit("thumb_");
    }
    let n = s.unicode_len();
    if n - i < 6 {
        return false;
    }
    let mut j: usize = 0;
    while j < 6
        invariant
            n == s@.len(),
            i + 6 <= n,
            j <= 6,
            mark@ == thumb_prefix(),
            forall|k: int| 0 <= k < j ==> s@[i + k] == thumb_prefix()[k],
        decreases 6 - j,
    {
        if s.get_char(i + j) != mark.get_char(j) {
            assert(s@.skip(i as int).subrange(0, 6)[j as int] != thumb_prefix()[j as int]);
            return false;
        }
        j = j + 1;
    }
    assert(s@.skip(i as int).subrange(0, 6) =~= thumb_prefix());
    true
}

/// The file name of the wallpaper that a cached thumbnail was made from:
/// the thumbnail's name with every `"thumb_"` taken out.
pub fn wallpaper_file_name(thumb_name: &str) -> (r: String)
    ensures
        r@ == without_thumb_marks(thumb_name@),
{
    let n = thumb_name.unicode_len();
    let mut r = String::new();
    let mut i: usize = 0;
    assert(thumb_name@.skip(0) =~= thumb_name@);
    while i < n
        invariant
            n == thumb_name@.len(),
            i <= n,
            r@ + without_thumb_marks(thumb_name@.skip(i as int)) == without_thumb_marks(thumb_name@),
        decreases n - i,
    {
        let ghost rest = thumb_name@.skip(i as int);
        if thumb_mark_at(thumb_name, i) {
            assert(rest.skip(6) =~= thumb_name@.skip(i + 6));
            i = i + 6;
        } else {
            let c = thumb_name.substring_char(i, i + 1);
            assert(rest.skip(1) =~= thumb_name@.skip(i + 1));
            assert(c@ =~= seq![rest[0]]);
            let ghost r0 = r@;
            r.append(c);
            assert(r@ + without_thumb_marks(thumb_name@.skip(i + 1)) =~= r0 + (seq![rest[0]]
                + without_thumb_marks(rest.skip(1))));
            i = i + 1;
        }
    }
    assert(without_thumb_marks(thumb_name@.skip(n as int)) =~= Seq::<char>::empty());
    assert(r@ + Seq::<char>::empty() =~= r@);
    r
}

} // verus!
