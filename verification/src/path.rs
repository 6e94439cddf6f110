//! File-name arithmetic on `/`-separated path strings: final component, stem,
//! extension, parent directory and joining.
//!
//! The model follows `std::path` for the paths this library handles (a file path,
//! possibly with repeated or trailing separators); `.` components in the middle of a
//! path are kept as ordinary components.
use vstd::prelude::*;
use vstd::string::*;
use crate::text::{chars_of, push_char, string_of_range};

verus! {

/// A path separator: `/`, or a backslash as Windows also writes it.
pub open spec fn is_sep(c: char) -> bool {
    c == '/' || c == '\\'
}

/// `p` without trailing separators.
pub open spec fn trim_seps(p: Seq<char>) -> Seq<char>
    decreases p.len(),
{
    if p.len() > 0 && is_sep(p.last()) {
        trim_seps(p.drop_last())
    } else {
        p
    }
}

/// The index of the last `c` in `s`, or `-1`.
pub open spec fn last_index(s: Seq<char>, c: char) -> int
    decreases s.len(),
{
    if s.len() == 0 {
        -1
    } else if s.last() == c {
        s.len() - 1
    } else {
        last_index(s.drop_last(), c)
    }
}

/// The index of the last separator in `s`, or `-1`.
pub open spec fn last_sep(s: Seq<char>) -> int
    decreases s.len(),
{
    if s.len() == 0 {
        -1
    } else if is_sep(s.last()) {
        s.len() - 1
    } else {
        last_sep(s.drop_last())
    }
}

/// The text after the last separator, once trailing separators are removed.
pub open spec fn last_segment(p: Seq<char>) -> Seq<char> {
    let t = trim_seps(p);
    t.skip(last_sep(t) + 1)
}

/// The final component of a path, if it names a file or directory
/// (not empty, `.` or `..`).
pub open spec fn file_name(p: Seq<char>) -> Option<Seq<char>> {
    let seg = last_segment(p);
    if seg.len() == 0 || seg == seq!['.'] || seg == seq!['.', '.'] {
        None
    } else {
        Some(seg)
    }
}

/// The extension of a path: the text after the last `.` of its file name, when
/// that `.` is not the first character of the name.
pub open spec fn extension(p: Seq<char>) -> Option<Seq<char>> {
    match file_name(p) {
        None => None,
        Some(n) => {
            let k = last_index(n, '.');
            if k <= 0 { None } else { Some(n.skip(k + 1)) }
        },
    }
}

/// The file name without its extension.
pub open spec fn file_stem(p: Seq<char>) -> Option<Seq<char>> {
    match file_name(p) {
        None => None,
        Some(n) => {
            let k = last_index(n, '.');
            if k <= 0 { Some(n) } else { Some(n.take(k)) }
        },
    }
}

/// The directory holding the final component: `None` for an empty path or the
/// root; the root separator itself for a file at the root.
pub open spec fn parent(p: Seq<char>) -> Option<Seq<char>> {
    let t = trim_seps(p);
    if t.len() == 0 {
        None
    } else {
        let k = last_sep(t);
        if k < 0 {
            Some(Seq::empty())
        } else {
            let d = trim_seps(t.take(k));
            if d.len() == 0 { Some(t.take(1)) } else { Some(d) }
        }
    }
}

/// `dir` joined with `name` (as `Path::join`): a `name` that starts at a root
/// replaces `dir`, and a `/` is inserted only where `dir` does not already end
/// with a separator.
pub open spec fn join(dir: Seq<char>, name: Seq<char>) -> Seq<char> {
    if name.len() > 0 && is_sep(name[0]) {
        name
    } else if dir.len() == 0 {
        name
    } else if is_sep(dir.last()) {
        dir + name
    } else {
        dir + seq!['/'] + name
    }
}

/// ASCII lowercase of one character.
pub open spec fn lower_char(c: char) -> char {
    if 'A' <= c && c <= 'Z' {
        ((c as u32) + 32) as char
    } else {
        c
    }
}

/// ASCII lowercase of a text (`to_ascii_lowercase`).
pub open spec fn lower(s: Seq<char>) -> Seq<char> {
    s.map_values(|c: char| lower_char(c))
}

/// The lowercased extension of a path, or the empty text when it has none.
pub open spec fn ext_lower(p: Seq<char>) -> Seq<char> {
    match extension(p) {
        Some(e) => lower(e),
        None => Seq::empty(),
    }
}

/// The last index of a character is `-1` or an index of the text.
proof fn lemma_last_index_range(s: Seq<char>, c: char)
    ensures
        -1 <= last_index(s, c) < s.len(),
    decreases s.len(),
{
    if s.len() > 0 {
        lemma_last_index_range(s.drop_last(), c);
    }
}

/// Lowercasing leaves separators and dots where they were, and makes nothing
/// into one.
proof fn lemma_lower_char_marks(c: char)
    ensures
        lower_char(c) == '/' <==> c == '/',
        lower_char(c) == '.' <==> c == '.',
        is_sep(lower_char(c)) <==> is_sep(c),
        lower_char(lower_char(c)) == lower_char(c),
{
}

/// Trailing separators are the same before and after lowercasing.
proof fn lemma_trim_seps_lower(s: Seq<char>)
    ensures
        trim_seps(lower(s)) == lower(trim_seps(s)),
    decreases s.len(),
{
    if s.len() > 0 {
        lemma_lower_char_marks(s.last());
        assert(lower(s).last() == lower_char(s.last()));
        if is_sep(s.last()) {
            assert(lower(s).drop_last() =~= lower(s.drop_last()));
            lemma_trim_seps_lower(s.drop_last());
        }
    }
}

/// The last separator sits at the same index before and after lowercasing.
proof fn lemma_last_sep_lower(s: Seq<char>)
    ensures
        last_sep(lower(s)) == last_sep(s),
    decreases s.len(),
{
    if s.len() > 0 {
        lemma_lower_char_marks(s.last());
        assert(lower(s).last() == lower_char(s.last()));
        assert(lower(s).drop_last() =~= lower(s.drop_last()));
        lemma_last_sep_lower(s.drop_last());
    }
}

/// The last separator is at `-1` or at an index of the text.
pub proof fn lemma_last_sep_range(s: Seq<char>)
    ensures
        -1 <= last_sep(s) < s.len(),
        last_sep(s) >= 0 ==> is_sep(s[last_sep(s)]),
    decreases s.len(),
{
    if s.len() > 0 {
        lemma_last_sep_range(s.drop_last());
    }
}

/// The last dot sits at the same index before and after lowercasing.
proof fn lemma_last_index_lower(s: Seq<char>, c: char)
    requires
        c == '/' || c == '.',
    ensures
        last_index(lower(s), c) == last_index(s, c),
    decreases s.len(),
{
    if s.len() > 0 {
        lemma_lower_char_marks(s.last());
        assert(lower(s).last() == lower_char(s.last()));
        assert(lower(s).drop_last() =~= lower(s.drop_last()));
        lemma_last_index_lower(s.drop_last(), c);
    }
}

/// The extension of a lowercased path is the lowercased extension.
proof fn lemma_extension_lower(p: Seq<char>)
    ensures
        extension(lower(p)) == (match extension(p) {
            Some(e) => Some(lower(e)),
            None => None,
        }),
{
    lemma_trim_seps_lower(p);
    let t = trim_seps(p);
    lemma_last_sep_lower(t);
    let seg = last_segment(p);
    lemma_last_sep_range(t);
    assert(lower(t).skip(last_sep(t) + 1) =~= lower(seg));
    assert(last_segment(lower(p)) == lower(seg));
    if seg.len() >= 1 {
        lemma_lower_char_marks(seg[0]);
        assert(lower(seg)[0] == lower_char(seg[0]));
    }
    if seg.len() >= 2 {
        lemma_lower_char_marks(seg[1]);
        assert(lower(seg)[1] == lower_char(seg[1]));
    }
    if seg.len() == 1 {
        assert(lower(seg) =~= seq!['.'] <==> seg =~= seq!['.']);
    }
    if seg.len() == 2 {
        assert(lower(seg) =~= seq!['.', '.'] <==> seg =~= seq!['.', '.']);
    }
    lemma_last_index_lower(seg, '.');
    lemma_last_index_range(seg, '.');
    let k = last_index(seg, '.');
    assert(lower(seg).skip(k + 1) =~= lower(seg.skip(k + 1)));
}

/// Lowercasing twice is lowercasing once.
proof fn lemma_lower_lower(s: Seq<char>)
    ensures
        lower(lower(s)) == lower(s),
{
    assert forall|i: int| 0 <= i < s.len() implies lower(lower(s))[i] == lower(s)[i] by {
        lemma_lower_char_marks(s[i]);
    }
    assert(lower(lower(s)) =~= lower(s));
}

/// Lowercasing a joined text lowercases each part.
pub proof fn lemma_lower_concat(a: Seq<char>, b: Seq<char>)
    ensures
        lower(a + b) == lower(a) + lower(b),
{
    assert(lower(a + b) =~= lower(a) + lower(b));
}

/// A text without ASCII capitals is its own lowercase.
pub proof fn lemma_lower_fixed(a: Seq<char>)
    requires
        forall|i: int| 0 <= i < a.len() ==> !('A' <= #[trigger] a[i] && a[i] <= 'Z'),
    ensures
        lower(a) == a,
{
    assert(lower(a) =~= a);
}

/// Lowercasing commutes with joining a directory and a name.
pub proof fn lemma_join_lower(dir: Seq<char>, name: Seq<char>)
    ensures
        lower(join(dir, name)) == join(lower(dir), lower(name)),
{
    if name.len() > 0 {
        lemma_lower_char_marks(name[0]);
        assert(lower(name)[0] == lower_char(name[0]));
    }
    if dir.len() > 0 {
        lemma_lower_char_marks(dir.last());
        assert(lower(dir).last() == lower_char(dir.last()));
    }
    lemma_lower_concat(dir, name);
    lemma_lower_concat(dir, seq!['/']);
    lemma_lower_concat(dir + seq!['/'], name);
    lemma_lower_fixed(seq!['/']);
}

/// Lowercasing keeps whether a text starts with a separator.
pub proof fn lemma_lower_first_sep(a: Seq<char>)
    requires
        a.len() > 0,
    ensures
        lower(a).len() > 0,
        is_sep(lower(a)[0]) == is_sep(a[0]),
{
    lemma_lower_char_marks(a[0]);
}

/// Paths that are equal up to ASCII case have the same lowercased extension.
pub proof fn lemma_ext_lower_ignores_case(p: Seq<char>, q: Seq<char>)
    requires
        lower(p) == lower(q),
    ensures
        ext_lower(p) == ext_lower(q),
{
    lemma_extension_lower(p);
    lemma_extension_lower(q);
    if let Some(e) = extension(p) {
        lemma_lower_lower(e);
    }
    if let Some(e) = extension(q) {
        lemma_lower_lower(e);
    }
}

fn trim_seps_len(v: &Vec<char>, n: usize) -> (m: usize)
    requires
        n <= v@.len(),
    ensures
        m <= n,
        trim_seps(v@.take(n as int)) == v@.take(m as int),
{
    let mut m = n;
    while m > 0 && (v[m - 1] == '/' || v[m - 1] == '\\')
        invariant
            m <= n <= v@.len(),
            trim_seps(v@.take(n as int)) == trim_seps(v@.take(m as int)),
        decreases m,
    {
        assert(v@.take(m as int).drop_last() =~= v@.take(m - 1));
        m = m - 1;
    }
    m
}

/// One past the position of the last separator in `v[..n]`, or `0` when there is none.
fn find_last_sep(v: &Vec<char>, n: usize) -> (k: usize)
    requires
        n <= v@.len(),
    ensures
        k == last_sep(v@.take(n as int)) + 1,
        k <= n,
{
    let mut m = n;
    while m > 0 && v[m - 1] != '/' && v[m - 1] != '\\'
        invariant
            m <= n <= v@.len(),
            last_sep(v@.take(n as int)) == last_sep(v@.take(m as int)),
        decreases m,
    {
        assert(v@.take(m as int).drop_last() =~= v@.take(m - 1));
        m = m - 1;
    }
    m
}

/// Positions `(start, end)` of the last segment of `v`.
fn last_segment_range(v: &Vec<char>) -> (r: (usize, usize))
    ensures
        r.0 <= r.1 <= v@.len(),
        last_segment(v@) == v@.subrange(r.0 as int, r.1 as int),
        trim_seps(v@) == v@.take(r.1 as int),
        last_sep(trim_seps(v@)) == r.0 - 1,
{
    assert(v@.take(v@.len() as int) =~= v@);
    let m = trim_seps_len(v, v.len());
    let start = find_last_sep(v, m);
    assert(v@.take(m as int).skip(start as int) =~= v@.subrange(start as int, m as int));
    (start, m)
}

fn is_dot_or_dotdot(v: &Vec<char>, a: usize, b: usize) -> (r: bool)
    requires
        a <= b <= v@.len(),
    ensures
        r == (v@.subrange(a as int, b as int) == seq!['.'] || v@.subrange(a as int, b as int)
            == seq!['.', '.']),
{
    let ghost sub = v@.subrange(a as int, b as int);
    let ghost one = seq!['.'];
    let ghost two = seq!['.', '.'];
    assert(one.len() == 1 && one[0] == '.');
    assert(two.len() == 2 && two[0] == '.' && two[1] == '.');
    if b - a == 1 {
        let r = v[a] == '.';
        assert(sub[0] == v@[a as int]);
        if r {
            assert(sub =~= one);
        } else {
            assert(sub != one);
        }
        assert(sub != two);
        r
    } else if b - a == 2 {
        let r = v[a] == '.' && v[a + 1] == '.';
        assert(sub[0] == v@[a as int]);
        assert(sub[1] == v@[a + 1]);
        if r {
            assert(sub =~= two);
        } else {
            assert(sub != two);
        }
        assert(sub != one);
        r
    } else {
        assert(sub != one);
        assert(sub != two);
        false
    }
}

/// The range of the file name of the path held in `v`.
fn file_name_range(v: &Vec<char>) -> (r: Option<(usize, usize)>)
    ensures
        match file_name(v@) {
            None => r is None,
            Some(n) => r matches Some(x) && x.0 <= x.1 <= v@.len() && n == v@.subrange(
                x.0 as int,
                x.1 as int,
            ),
        },
{
    let (a, b) = last_segment_range(v);
    if a == b || is_dot_or_dotdot(v, a, b) {
        None
    } else {
        Some((a, b))
    }
}

/// The final component of `p`.
pub fn path_file_name(p: &str) -> (r: Option<String>)
    ensures
        match file_name(p@) {
            None => r is None,
            Some(n) => r matches Some(s) && s@ == n,
        },
{
    let v = chars_of(p);
    match file_name_range(&v) {
        None => None,
        Some((a, b)) => Some(string_of_range(&v, a, b)),
    }
}

/// Splits the name `v[a..b]` at its last dot: the position of the dot, or `None`
/// when the name has no extension.
fn dot_split(v: &Vec<char>, a: usize, b: usize) -> (r: Option<usize>)
    requires
        a <= b <= v@.len(),
    ensures
        ({
            let n = v@.subrange(a as int, b as int);
            let k = last_index(n, '.');
            match r {
                None => k <= 0,
                Some(d) => k > 0 && d == a + k && a < d < b,
            }
        }),
{
    let ghost n = v@.subrange(a as int, b as int);
    let mut m = b;
    while m > a && v[m - 1] != '.'
        invariant
            a <= m <= b <= v@.len(),
            n == v@.subrange(a as int, b as int),
            last_index(n, '.') == last_index(v@.subrange(a as int, m as int), '.'),
        decreases m,
    {
        assert(v@.subrange(a as int, m as int).drop_last() =~= v@.subrange(a as int, m - 1));
        m = m - 1;
    }
    if m - a <= 1 {
        None
    } else {
        Some(m - 1)
    }
}

/// The extension of `p`, if any.
pub fn path_extension(p: &str) -> (r: Option<String>)
    ensures
        match extension(p@) {
            None => r is None,
            Some(e) => r matches Some(s) && s@ == e,
        },
{
    let v = chars_of(p);
    match file_name_range(&v) {
        None => None,
        Some((a, b)) => match dot_split(&v, a, b) {
            None => None,
            Some(d) => {
                let ghost n = v@.subrange(a as int, b as int);
                assert(n.skip(d - a + 1) =~= v@.subrange(d + 1, b as int));
                Some(string_of_range(&v, d + 1, b))
            },
        },
    }
}

/// The file name of `p` without its extension.
pub fn path_file_stem(p: &str) -> (r: Option<String>)
    ensures
        match file_stem(p@) {
            None => r is None,
            Some(e) => r matches Some(s) && s@ == e,
        },
{
    let v = chars_of(p);
    match file_name_range(&v) {
        None => None,
        Some((a, b)) => match dot_split(&v, a, b) {
            None => Some(string_of_range(&v, a, b)),
            Some(d) => {
                let ghost n = v@.subrange(a as int, b as int);
                assert(n.take(d - a) =~= v@.subrange(a as int, d as int));
                Some(string_of_range(&v, a, d))
            },
        },
    }
}

/// The parent directory of `p`.
pub fn path_parent(p: &str) -> (r: Option<String>)
    ensures
        match parent(p@) {
            None => r is None,
            Some(d) => r matches Some(s) && s@ == d,
        },
{
    let v = chars_of(p);
    assert(v@.take(v@.len() as int) =~= v@);
    let m = trim_seps_len(&v, v.len());
    if m == 0 {
        return None;
    }
    let k1 = find_last_sep(&v, m);
    let ghost t = v@.take(m as int);
    if k1 == 0 {
        return Some(String::new());
    }
    let k = k1 - 1;
    assert(t.take(k as int) =~= v@.take(k as int));
    let e = trim_seps_len(&v, k);
    if e == 0 {
        assert(t.take(1) =~= v@.subrange(0, 1));
        Some(string_of_range(&v, 0, 1))
    } else {
        Some(string_of_range(&v, 0, e))
    }
}

/// `dir` joined with `name`.
pub fn path_join(dir: &str, name: &str) -> (r: String)
    ensures
        r@ == join(dir@, name@),
{
    let dn = dir.unicode_len();
    if name.unicode_len() > 0 && (name.get_char(0) == '/' || name.get_char(0) == '\\') {
        return String::from_str(name);
    }
    if dn == 0 {
        return String::from_str(name);
    }
    let mut s = String::from_str(dir);
    let last = dir.get_char(dn - 1);
    if last != '/' && last != '\\' {
        push_char(&mut s, '/');
    }
    s.append(name);
    s
}

fn lower_one(c: char) -> (r: char)
    ensures
        r == lower_char(c),
{
    if 'A' <= c && c <= 'Z' {
        let u = (c as u32) + 32;
        assert(u < 128);
        (u as u8) as char
    } else {
        c
    }
}

/// ASCII lowercase of `s`.
pub fn to_lower(s: &str) -> (r: String)
    ensures
        r@ == lower(s@),
{
    let v = chars_of(s);
    let mut out = String::new();
    let mut i: usize = 0;
    while i < v.len()
        invariant
            v@ == s@,
            i <= v@.len(),
            out@ == lower(s@.take(i as int)),
        decreases v@.len() - i,
    {
        push_char(&mut out, lower_one(v[i]));
        i = i + 1;
        assert(out@ =~= lower(s@.take(i as int)));
    }
    assert(s@.take(i as int) =~= s@);
    out
}

/// The lowercased extension of `p`, or the empty string.
pub fn path_ext_lower(p: &str) -> (r: String)
    ensures
        r@ == ext_lower(p@),
{
    match path_extension(p) {
        Some(e) => to_lower(e.as_str()),
        None => String::new(),
    }
}

} // verus!
