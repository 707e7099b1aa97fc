use vstd::prelude::*;

use crate::text::{chars_of, decimal, lowered, push_decimal, string_of, to_lowercase};

verus! {

/// Which path rules apply: Unix (macOS, Linux), where `/` is the only
/// separator, or Windows, where `\` separates too and a path may start with a
/// prefix (a drive such as `C:`, a share such as `\\server\share`, or a
/// verbatim or device prefix such as `\\?\` and `\\.\`).
#[derive(PartialEq, Eq, Structural, Clone, Copy, Debug)]
pub enum PathStyle {
    Unix,
    Windows,
}

/// Which characters separate the components of a path after its prefix: `/`
/// alone (Unix), `/` and `\` (Windows), or `\` alone (Windows, after a
/// verbatim prefix such as `\\?\`).
#[derive(PartialEq, Eq, Structural, Clone, Copy, Debug)]
pub enum SepKind {
    Slash,
    Both,
    Backslash,
}

/// Whether `c` separates path components under `kind`.
pub open spec fn is_sep(kind: SepKind, c: char) -> bool {
    match kind {
        SepKind::Slash => c == '/',
        SepKind::Both => c == '/' || c == '\\',
        SepKind::Backslash => c == '\\',
    }
}

/// `is_sep` as a predicate value.
pub open spec fn seps(kind: SepKind) -> spec_fn(char) -> bool {
    |c: char| is_sep(kind, c)
}

pub fn separator(kind: SepKind, c: char) -> (b: bool)
    ensures
        b == is_sep(kind, c),
{
    match kind {
        SepKind::Slash => c == '/',
        SepKind::Both => c == '/' || c == '\\',
        SepKind::Backslash => c == '\\',
    }
}

/// Index of the last character of `s` that satisfies `p`, or -1.
pub open spec fn last_index_of(s: Seq<char>, p: spec_fn(char) -> bool) -> int
    decreases s.len(),
{
    if s.len() == 0 {
        -1
    } else if p(s.last()) {
        s.len() - 1
    } else {
        last_index_of(s.drop_last(), p)
    }
}

pub proof fn lemma_last_index_bounds(s: Seq<char>, p: spec_fn(char) -> bool)
    ensures
        -1 <= last_index_of(s, p) < s.len(),
        last_index_of(s, p) >= 0 ==> p(s[last_index_of(s, p)]),
        forall|i: int| last_index_of(s, p) < i < s.len() ==> !p(#[trigger] s[i]),
    decreases s.len(),
{
    if s.len() > 0 && !p(s.last()) {
        lemma_last_index_bounds(s.drop_last(), p);
        assert forall|i: int| last_index_of(s, p) < i < s.len() implies !p(#[trigger] s[i]) by {
            if i < s.len() - 1 {
                assert(s[i] == s.drop_last()[i]);
            }
        }
    }
}

/// A position `k` with `p(s[k - 1])` (or `k == 0`) and nothing satisfying `p`
/// after it makes `k - 1` the last index.
pub proof fn lemma_last_index_at(s: Seq<char>, p: spec_fn(char) -> bool, k: int)
    requires
        0 <= k <= s.len(),
        k == 0 || p(s[k - 1]),
        forall|i: int| k <= i < s.len() ==> !p(#[trigger] s[i]),
    ensures
        last_index_of(s, p) == k - 1,
    decreases s.len(),
{
    if s.len() > k {
        let t = s.drop_last();
        assert forall|i: int| k <= i < t.len() implies !p(#[trigger] t[i]) by {
            assert(t[i] == s[i]);
        }
        if k > 0 {
            assert(t[k - 1] == s[k - 1]);
        }
        assert(!p(s[s.len() - 1]));
        lemma_last_index_at(t, p, k);
    }
}

pub open spec fn is_ascii_letter(c: char) -> bool {
    ('a' <= c <= 'z') || ('A' <= c <= 'Z')
}

/// A `\` or a `/`, as the markers of a Windows prefix read them.
pub open spec fn win_sep(c: char) -> bool {
    c == '\\' || c == '/'
}

/// The end of the component that starts at `i`: the first index at or after
/// `i` that holds a separator of `kind`, or the length of `p`.
pub open spec fn comp_end(p: Seq<char>, i: int, kind: SepKind) -> int
    decreases p.len() - i,
{
    if i >= p.len() {
        p.len() as int
    } else if is_sep(kind, p[i]) {
        i
    } else {
        comp_end(p, i + 1, kind)
    }
}

pub proof fn lemma_comp_end(p: Seq<char>, i: int, kind: SepKind)
    requires
        0 <= i <= p.len(),
    ensures
        i <= comp_end(p, i, kind) <= p.len(),
        comp_end(p, i, kind) < p.len() ==> is_sep(kind, p[comp_end(p, i, kind)]),
        forall|j: int| i <= j < comp_end(p, i, kind) ==> !is_sep(kind, #[trigger] p[j]),
    decreases p.len() - i,
{
    if i < p.len() && !is_sep(kind, p[i]) {
        lemma_comp_end(p, i + 1, kind);
    }
}

/// Whether `p` starts with the verbatim share marker `\\?\UNC\`, whose
/// letters `std::path` compares in this case only.
pub open spec fn verbatim_unc_marker(p: Seq<char>) -> bool {
    &&& p.len() >= 8
    &&& p[0] == '\\' && p[1] == '\\' && p[2] == '?' && p[3] == '\\'
    &&& p[4] == 'U' && p[5] == 'N' && p[6] == 'C' && win_sep(p[7])
}

/// The prefix a Windows path starts with, as `std::path` parses it: its
/// length, and the separators of the rest of the path.
/// - `\\?\UNC\server\share` (verbatim share; the share may be missing),
///   `\\?\C:` (verbatim drive, followed by `\` or nothing) and `\\?\name`
///   (verbatim): after them only `\` separates. The `\\?\` marker must be
///   written with `\`.
/// - `\\.\name` (device) and `\\server\share` (share; both parts non-empty).
/// - `C:` (drive).
/// In the markers, `/` may stand for `\`.
pub open spec fn win_prefix(p: Seq<char>) -> (int, SepKind) {
    if p.len() >= 2 && win_sep(p[0]) && win_sep(p[1]) {
        if p.len() >= 4 && p[0] == '\\' && p[1] == '\\' && p[2] == '?' && p[3] == '\\' {
            if verbatim_unc_marker(p) {
                let s = comp_end(p, 8, SepKind::Backslash);
                let t = comp_end(p, s + 1, SepKind::Backslash);
                (
                    if s < p.len() && t > s + 1 {
                        t
                    } else {
                        s
                    },
                    SepKind::Backslash,
                )
            } else if p.len() >= 6 && is_ascii_letter(p[4]) && p[5] == ':' && (p.len() == 6
                || p[6] == '\\') {
                (6, SepKind::Backslash)
            } else {
                (comp_end(p, 4, SepKind::Backslash), SepKind::Backslash)
            }
        } else if p.len() >= 4 && p[2] == '.' && win_sep(p[3]) {
            (comp_end(p, 4, SepKind::Both), SepKind::Both)
        } else {
            let s = comp_end(p, 2, SepKind::Both);
            let t = comp_end(p, s + 1, SepKind::Both);
            if 2 < s < p.len() && t > s + 1 {
                (t, SepKind::Both)
            } else {
                (0, SepKind::Both)
            }
        }
    } else if p.len() >= 2 && is_ascii_letter(p[0]) && p[1] == ':' {
        (2, SepKind::Both)
    } else {
        (0, SepKind::Both)
    }
}

/// Length of the prefix a path starts with (none on Unix).
pub open spec fn prefix_len(p: Seq<char>, style: PathStyle) -> int {
    match style {
        PathStyle::Unix => 0,
        PathStyle::Windows => win_prefix(p).0,
    }
}

/// The separators of a path after its prefix.
pub open spec fn body_kind(p: Seq<char>, style: PathStyle) -> SepKind {
    match style {
        PathStyle::Unix => SepKind::Slash,
        PathStyle::Windows => win_prefix(p).1,
    }
}

/// A prefix lies within the path; a non-empty one is a drive `X:` or starts
/// with a separator of the rest of the path.
pub proof fn lemma_prefix_shape(p: Seq<char>, style: PathStyle)
    ensures
        0 <= prefix_len(p, style) <= p.len(),
        prefix_len(p, style) == 0 || (prefix_len(p, style) == 2 && p[1] == ':' && body_kind(
            p,
            style,
        ) == SepKind::Both) || is_sep(body_kind(p, style), p[0]),
{
    if style == PathStyle::Windows && p.len() >= 2 {
        lemma_comp_end(p, 2, SepKind::Both);
        let s = comp_end(p, 2, SepKind::Both);
        if s < p.len() {
            lemma_comp_end(p, s + 1, SepKind::Both);
        }
        if p.len() >= 4 {
            lemma_comp_end(p, 4, SepKind::Both);
            lemma_comp_end(p, 4, SepKind::Backslash);
        }
        if p.len() >= 8 {
            lemma_comp_end(p, 8, SepKind::Backslash);
            let v = comp_end(p, 8, SepKind::Backslash);
            if v < p.len() {
                lemma_comp_end(p, v + 1, SepKind::Backslash);
            }
        }
    }
}

/// The last component of a path body, as `Path::file_name` finds it:
/// trailing separators and `.` components are skipped, and a path that ends
/// in `..` (or has no component at all) has no file name. After a verbatim
/// prefix (`kind` is `Backslash`) a `.` component is kept as such, so a body
/// that ends in one has no file name either.
pub open spec fn name_in(p: Seq<char>, kind: SepKind) -> Option<Seq<char>>
    decreases p.len(),
{
    if p.len() == 0 {
        None
    } else if is_sep(kind, p.last()) {
        name_in(p.drop_last(), kind)
    } else {
        let start = last_index_of(p, seps(kind)) + 1;
        let seg = p.subrange(start, p.len() as int);
        if seg == seq!['.'] {
            if kind == SepKind::Backslash {
                None
            } else {
                proof {
                    lemma_last_index_bounds(p, seps(kind));
                    assert(seg.len() == 1);
                }
                name_in(p.subrange(0, start), kind)
            }
        } else if seg == seq!['.', '.'] {
            None
        } else {
            Some(seg)
        }
    }
}

/// `Path::file_name`: the last component after the path's prefix.
pub open spec fn file_name_of(p: Seq<char>, style: PathStyle) -> Option<Seq<char>> {
    name_in(p.subrange(prefix_len(p, style), p.len() as int), body_kind(p, style))
}

/// Where a file name splits into stem and extension: the last `.`, unless
/// there is none or the only one starts the name (then -1 or 0).
pub open spec fn dot_split(name: Seq<char>) -> int {
    last_index_of(name, crate::text::dots())
}

/// The stem of a file name: up to its last `.`; the whole name when it has no
/// `.` or only a leading one.
pub open spec fn name_stem(name: Seq<char>) -> Seq<char> {
    if dot_split(name) <= 0 {
        name
    } else {
        name.subrange(0, dot_split(name))
    }
}

/// The extension of a file name: what follows its last `.`, if that `.` is
/// not its first character.
pub open spec fn name_ext(name: Seq<char>) -> Option<Seq<char>> {
    if dot_split(name) <= 0 {
        None
    } else {
        Some(name.subrange(dot_split(name) + 1, name.len() as int))
    }
}

/// `Path::file_stem`: the stem of the file name.
pub open spec fn file_stem_of(p: Seq<char>, style: PathStyle) -> Option<Seq<char>> {
    match file_name_of(p, style) {
        None => None,
        Some(name) => Some(name_stem(name)),
    }
}

/// `Path::extension`: the extension of the file name.
pub open spec fn extension_of(p: Seq<char>, style: PathStyle) -> Option<Seq<char>> {
    match file_name_of(p, style) {
        None => None,
        Some(name) => name_ext(name),
    }
}

pub open spec fn or_empty(o: Option<Seq<char>>) -> Seq<char> {
    match o {
        Some(s) => s,
        None => Seq::empty(),
    }
}

/// The lowercased stem of a path, as matching compares names.
pub open spec fn stem_key(p: Seq<char>, style: PathStyle) -> Seq<char> {
    lowered(or_empty(file_stem_of(p, style)))
}

/// The lowercased extension of a path.
pub open spec fn ext_key(p: Seq<char>, style: PathStyle) -> Seq<char> {
    lowered(or_empty(extension_of(p, style)))
}

/// Just after the last `.` in `cs[from..to]`, or `from`.
fn after_last_dot(cs: &Vec<char>, from: usize, to: usize) -> (k: usize)
    requires
        from <= to <= cs@.len(),
    ensures
        from <= k <= to,
        last_index_of(cs@.subrange(from as int, to as int), crate::text::dots()) == k - from - 1,
{
    let ghost p = crate::text::dots();
    let mut k = to;
    while k > from && cs[k - 1] != '.'
        invariant
            from <= k <= to <= cs@.len(),
            p == crate::text::dots(),
            forall|i: int| k <= i < to ==> !p(#[trigger] cs@[i]),
        decreases k - from,
    {
        k -= 1;
    }
    proof {
        let s = cs@.subrange(from as int, to as int);
        assert forall|i: int| k - from <= i < s.len() implies !p(#[trigger] s[i]) by {
            assert(s[i] == cs@[from + i]);
        }
        if k > from {
            assert(s[k - from - 1] == cs@[k - 1]);
        }
        lemma_last_index_at(s, p, k - from);
    }
    k
}

/// Just after the last separator of `kind` in `cs[from..to]`, or `from`.
fn after_last_separator(cs: &Vec<char>, from: usize, to: usize, kind: SepKind) -> (k: usize)
    requires
        from <= to <= cs@.len(),
    ensures
        from <= k <= to,
        last_index_of(cs@.subrange(from as int, to as int), seps(kind)) == k - from - 1,
{
    let ghost p = seps(kind);
    let mut k = to;
    while k > from && !separator(kind, cs[k - 1])
        invariant
            from <= k <= to <= cs@.len(),
            p == seps(kind),
            forall|i: int| k <= i < to ==> !p(#[trigger] cs@[i]),
        decreases k - from,
    {
        k -= 1;
    }
    proof {
        let s = cs@.subrange(from as int, to as int);
        assert forall|i: int| k - from <= i < s.len() implies !p(#[trigger] s[i]) by {
            assert(s[i] == cs@[from + i]);
        }
        if k > from {
            assert(s[k - from - 1] == cs@[k - 1]);
        }
        lemma_last_index_at(s, p, k - from);
    }
    k
}

/// `comp_end` of `cs` at `from`.
fn component_end(cs: &Vec<char>, from: usize, kind: SepKind) -> (e: usize)
    requires
        from <= cs@.len(),
    ensures
        e == comp_end(cs@, from as int, kind),
        from <= e <= cs@.len(),
{
    let mut j = from;
    while j < cs.len() && !separator(kind, cs[j])
        invariant
            from <= j <= cs@.len(),
            comp_end(cs@, from as int, kind) == comp_end(cs@, j as int, kind),
        decreases cs@.len() - j,
    {
        j += 1;
    }
    j
}

fn win_separator(c: char) -> (b: bool)
    ensures
        b == win_sep(c),
{
    c == '\\' || c == '/'
}

fn ascii_letter(c: char) -> (b: bool)
    ensures
        b == is_ascii_letter(c),
{
    ('a' <= c && c <= 'z') || ('A' <= c && c <= 'Z')
}

/// `win_prefix` of `cs`.
fn windows_prefix(cs: &Vec<char>) -> (r: (usize, SepKind))
    ensures
        r.0 == win_prefix(cs@).0,
        r.1 == win_prefix(cs@).1,
{
    let n = cs.len();
    if n >= 2 && win_separator(cs[0]) && win_separator(cs[1]) {
        if n >= 4 && cs[0] == '\\' && cs[1] == '\\' && cs[2] == '?' && cs[3] == '\\' {
            if n >= 8 && cs[4] == 'U' && cs[5] == 'N' && cs[6] == 'C' && win_separator(cs[7]) {
                let s = component_end(cs, 8, SepKind::Backslash);
                if s < n {
                    let t = component_end(cs, s + 1, SepKind::Backslash);
                    if t > s + 1 {
                        return (t, SepKind::Backslash);
                    }
                }
                (s, SepKind::Backslash)
            } else if n >= 6 && ascii_letter(cs[4]) && cs[5] == ':' && (n == 6 || cs[6] == '\\') {
                (6, SepKind::Backslash)
            } else {
                (component_end(cs, 4, SepKind::Backslash), SepKind::Backslash)
            }
        } else if n >= 4 && cs[2] == '.' && win_separator(cs[3]) {
            (component_end(cs, 4, SepKind::Both), SepKind::Both)
        } else {
            let s = component_end(cs, 2, SepKind::Both);
            if s > 2 && s < n {
                let t = component_end(cs, s + 1, SepKind::Both);
                if t > s + 1 {
                    return (t, SepKind::Both);
                }
            }
            (0, SepKind::Both)
        }
    } else if n >= 2 && ascii_letter(cs[0]) && cs[1] == ':' {
        (2, SepKind::Both)
    } else {
        (0, SepKind::Both)
    }
}

/// The prefix length and body separators of `cs`.
fn path_prefix(cs: &Vec<char>, style: PathStyle) -> (r: (usize, SepKind))
    ensures
        r.0 == prefix_len(cs@, style),
        r.1 == body_kind(cs@, style),
        r.0 <= cs@.len(),
{
    proof {
        lemma_prefix_shape(cs@, style);
    }
    match style {
        PathStyle::Unix => (0, SepKind::Slash),
        PathStyle::Windows => windows_prefix(cs),
    }
}

/// The range of the file name within the path `cs`, if there is one.
fn file_name_range(cs: &Vec<char>, style: PathStyle) -> (r: Option<(usize, usize)>)
    ensures
        match r {
            Some((a, b)) => a <= b <= cs@.len() && file_name_of(cs@, style) == Some(
                cs@.subrange(a as int, b as int),
            ),
            None => file_name_of(cs@, style) is None,
        },
{
    let (start, kind) = path_prefix(cs, style);
    let mut end = cs.len();
    loop
        invariant
            start <= end <= cs@.len(),
            file_name_of(cs@, style) == name_in(cs@.subrange(start as int, end as int), kind),
        decreases end,
    {
        let ghost p = cs@.subrange(start as int, end as int);
        if end == start {
            assert(p.len() == 0);
            return None;
        }
        assert(p.last() == cs@[end - 1]);
        if separator(kind, cs[end - 1]) {
            assert(p.drop_last() =~= cs@.subrange(start as int, end - 1));
            end -= 1;
        } else {
            let k = after_last_separator(cs, start, end, kind);
            let ghost seg = p.subrange(k - start, p.len() as int);
            assert(seg =~= cs@.subrange(k as int, end as int));
            if end - k == 1 && cs[k] == '.' {
                assert(seg =~= seq!['.']);
                if kind == SepKind::Backslash {
                    return None;
                }
                assert(p.subrange(0, k - start) =~= cs@.subrange(start as int, k as int));
                end = k;
            } else if end - k == 2 && cs[k] == '.' && cs[k + 1] == '.' {
                assert(seg =~= seq!['.', '.']);
                return None;
            } else {
                assert(seg != seq!['.']) by {
                    if seg.len() == 1 {
                        assert(seg[0] == cs@[k as int]);
                    }
                }
                assert(seg != seq!['.', '.']) by {
                    if seg.len() == 2 {
                        assert(seg[0] == cs@[k as int]);
                        assert(seg[1] == cs@[k + 1]);
                    }
                }
                return Some((k, end));
            }
        }
    }
}

/// The stem and extension ranges of the path's file name, if it has one:
/// `(a, b, d)` with the name `cs[a..b]`, and the extension `cs[d..b]` when
/// `d > a + 1` (then the stem is `cs[a..d - 1]`), else no extension.
fn split_range(cs: &Vec<char>, style: PathStyle) -> (r: Option<(usize, usize, usize)>)
    ensures
        match r {
            None => file_name_of(cs@, style) is None,
            Some((a, b, d)) => {
                &&& a <= d <= b <= cs@.len()
                &&& file_name_of(cs@, style) == Some(cs@.subrange(a as int, b as int))
                &&& dot_split(cs@.subrange(a as int, b as int)) == d - a - 1
            },
        },
{
    match file_name_range(cs, style) {
        None => None,
        Some((a, b)) => {
            let d = after_last_dot(cs, a, b);
            Some((a, b, d))
        },
    }
}

/// The stem and the extension of `path` (each empty when absent), in
/// lower case: what names are compared by. `style` gives the path rules of
/// the platform.
pub fn stem_and_ext(path: &str, style: PathStyle) -> (r: (String, String))
    ensures
        r.0@ == stem_key(path@, style),
        r.1@ == ext_key(path@, style),
{
    let cs = chars_of(path);
    match split_range(&cs, style) {
        None => {
            let e = String::new();
            let stem = to_lowercase(e.as_str());
            let ext = to_lowercase(e.as_str());
            (stem, ext)
        },
        Some((a, b, d)) => {
            let ghost name = cs@.subrange(a as int, b as int);
            if d - a <= 1 {
                let s = string_of(&cs, a, b);
                let e = String::new();
                let stem = to_lowercase(s.as_str());
                let ext = to_lowercase(e.as_str());
                (stem, ext)
            } else {
                assert(cs@.subrange(a as int, d - 1) =~= name.subrange(0, d - 1 - a));
                assert(cs@.subrange(d as int, b as int) =~= name.subrange(d - a, name.len() as int));
                let s = string_of(&cs, a, d - 1);
                let e = string_of(&cs, d, b);
                let stem = to_lowercase(s.as_str());
                let ext = to_lowercase(e.as_str());
                (stem, ext)
            }
        },
    }
}

/// The highest suffix tried when looking for a free name: the counter is an
/// `i32` that starts at 1.
pub const MAX_SUFFIX: u32 = 2147483647;

/// The `k`-th name tried for a copy of `file_name`: the name itself, then
/// `{stem}_{k}.{ext}` (or `{stem}_{k}` when there is no extension), where the
/// stem falls back to the whole name when there is none. Letter case is kept.
pub open spec fn candidate_name(file_name: Seq<char>, k: nat, style: PathStyle) -> Seq<char> {
    if k == 0 {
        file_name
    } else {
        let stem = match file_stem_of(file_name, style) {
            Some(s) => s,
            None => file_name,
        };
        match extension_of(file_name, style) {
            Some(e) => stem + seq!['_'] + decimal(k) + seq!['.'] + e,
            None => stem + seq!['_'] + decimal(k),
        }
    }
}

/// Builds `candidate_name(file_name, k, style)`.
pub fn candidate(file_name: &str, k: u32, style: PathStyle) -> (r: String)
    ensures
        r@ == candidate_name(file_name@, k as nat, style),
{
    let cs = chars_of(file_name);
    assert(cs@.subrange(0, cs@.len() as int) =~= cs@);
    if k == 0 {
        return string_of(&cs, 0, cs.len());
    }
    let (mut name, ext) = match split_range(&cs, style) {
        None => (string_of(&cs, 0, cs.len()), None),
        Some((a, b, d)) => {
            let ghost nm = cs@.subrange(a as int, b as int);
            if d - a <= 1 {
                (string_of(&cs, a, b), None)
            } else {
                assert(cs@.subrange(a as int, d - 1) =~= nm.subrange(0, d - 1 - a));
                assert(cs@.subrange(d as int, b as int) =~= nm.subrange(d - a, nm.len() as int));
                (string_of(&cs, a, d - 1), Some(string_of(&cs, d, b)))
            }
        },
    };
    crate::text::push_char(&mut name, '_');
    push_decimal(&mut name, k);
    match ext {
        Some(e) => {
            crate::text::push_char(&mut name, '.');
            name.append(e.as_str());
        },
        None => {},
    }
    assert(name@ =~= candidate_name(file_name@, k as nat, style));
    name
}

/// Whether `probe` can have answered `answer` for a name with these
/// characters.
pub open spec fn probe_said<F: Fn(&str) -> bool>(probe: F, name: Seq<char>, answer: bool) -> bool {
    exists|s: &str| s@ == name && call_ensures(probe, (s,), answer)
}

/// The first name for a copy of `file_name` that `probe` reports free:
/// `file_name` itself, else `{stem}_1.{ext}`, `{stem}_2.{ext}`, ... (see
/// `candidate_name`). `None` when every candidate up to `MAX_SUFFIX` is
/// reported taken. The probe is asked about the names in that order and is
/// the only way the file system is looked at.
pub fn unique_dest<F: Fn(&str) -> bool>(file_name: &str, style: PathStyle, probe: F) -> (r: Option<
    String,
>)
    requires
        forall|s: &str| probe.requires((s,)),
    ensures
        match r {
            Some(name) => exists|k: nat|
                k <= MAX_SUFFIX && name@ == candidate_name(file_name@, k, style) && probe_said(
                    probe,
                    name@,
                    false,
                ) && forall|j: nat|
                    j < k ==> probe_said(probe, #[trigger] candidate_name(file_name@, j, style), true),
            None => forall|j: nat|
                j <= MAX_SUFFIX ==> probe_said(
                    probe,
                    #[trigger] candidate_name(file_name@, j, style),
                    true,
                ),
        },
{
    let mut k: u32 = 0;
    loop
        invariant
            k <= MAX_SUFFIX,
            forall|s: &str| probe.requires((s,)),
            forall|j: nat|
                j < k ==> probe_said(probe, #[trigger] candidate_name(file_name@, j, style), true),
        decreases MAX_SUFFIX - k,
    {
        let name = candidate(file_name, k, style);
        let taken = probe(name.as_str());
        if !taken {
            assert(probe_said(probe, name@, false));
            return Some(name);
        }
        assert(probe_said(probe, candidate_name(file_name@, k as nat, style), true));
        if k == MAX_SUFFIX {
            return None;
        }
        k += 1;
    }
}

} // verus!
