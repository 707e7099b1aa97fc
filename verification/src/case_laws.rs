use vstd::prelude::*;

use crate::path::{
    body_kind, comp_end, dot_split, ext_key, extension_of, file_name_of, file_stem_of,
    is_ascii_letter, is_sep, last_index_of, name_ext, name_in, name_stem, or_empty, prefix_len, seps,
    stem_key, verbatim_unc_marker, win_prefix, PathStyle, SepKind,
};
use crate::exts::{custom_key, custom_list};
use crate::text::{
    ascii_lower, ascii_lower_char, dots, is_ascii_text, lowered, trim_end_by, trim_start_by, trimmed,
    without_leading_dots,
};

verus! {

proof fn lemma_lower_char(c: char)
    ensures
        (ascii_lower_char(c) == '.') == (c == '.'),
        (ascii_lower_char(c) == ':') == (c == ':'),
        (ascii_lower_char(c) == '/') == (c == '/'),
        (ascii_lower_char(c) == '\\') == (c == '\\'),
        (ascii_lower_char(c) == '?') == (c == '?'),
        is_ascii_letter(ascii_lower_char(c)) == is_ascii_letter(c),
        (c as u32) < 0x80 ==> (ascii_lower_char(c) as u32) < 0x80,
        ascii_lower_char(ascii_lower_char(c)) == ascii_lower_char(c),
{
    if 'A' <= c <= 'Z' {
        let u = (c as u32) + 32;
        assert(0x61 <= u <= 0x7a);
        assert((u as char) as u32 == u);
    }
}

proof fn lemma_lower_pred(kind: SepKind)
    ensures
        forall|c: char| #[trigger] seps(kind)(ascii_lower_char(c)) == seps(kind)(c),
        forall|c: char| #[trigger] dots()(ascii_lower_char(c)) == dots()(c),
{
    assert forall|c: char| #[trigger] seps(kind)(ascii_lower_char(c)) == seps(kind)(c) by {
        lemma_lower_char(c);
    }
    assert forall|c: char| #[trigger] dots()(ascii_lower_char(c)) == dots()(c) by {
        lemma_lower_char(c);
    }
}

proof fn lemma_lower_subrange(s: Seq<char>, i: int, j: int)
    requires
        0 <= i <= j <= s.len(),
    ensures
        ascii_lower(s.subrange(i, j)) == ascii_lower(s).subrange(i, j),
{
    assert(ascii_lower(s.subrange(i, j)) =~= ascii_lower(s).subrange(i, j));
}

proof fn lemma_last_index_lower(s: Seq<char>, p: spec_fn(char) -> bool)
    requires
        forall|c: char| #[trigger] p(ascii_lower_char(c)) == p(c),
    ensures
        last_index_of(ascii_lower(s), p) == last_index_of(s, p),
    decreases s.len(),
{
    if s.len() > 0 {
        assert(ascii_lower(s).drop_last() =~= ascii_lower(s.drop_last()));
        assert(ascii_lower(s).last() == ascii_lower_char(s.last()));
        lemma_last_index_lower(s.drop_last(), p);
    }
}

/// Lowering the ASCII letters of a path body lowers its file name and
/// nothing else about it.
proof fn lemma_name_in_lower(p: Seq<char>, kind: SepKind)
    ensures
        match name_in(p, kind) {
            None => name_in(ascii_lower(p), kind) is None,
            Some(n) => name_in(ascii_lower(p), kind) == Some(ascii_lower(n)),
        },
    decreases p.len(),
{
    let q = ascii_lower(p);
    if p.len() > 0 {
        lemma_lower_char(p.last());
        assert(q.last() == ascii_lower_char(p.last()));
        if is_sep(kind, p.last()) {
            assert(q.drop_last() =~= ascii_lower(p.drop_last()));
            lemma_name_in_lower(p.drop_last(), kind);
        } else {
            lemma_lower_pred(kind);
            lemma_last_index_lower(p, seps(kind));
            crate::path::lemma_last_index_bounds(p, seps(kind));
            let start = last_index_of(p, seps(kind)) + 1;
            let seg = p.subrange(start, p.len() as int);
            lemma_lower_subrange(p, start, p.len() as int);
            let lseg = q.subrange(start, p.len() as int);
            assert(lseg == ascii_lower(seg));
            if seg.len() >= 1 {
                lemma_lower_char(seg[0]);
                assert(lseg[0] == ascii_lower_char(seg[0]));
            }
            if seg.len() >= 2 {
                lemma_lower_char(seg[1]);
                assert(lseg[1] == ascii_lower_char(seg[1]));
            }
            assert(lseg.len() == seg.len());
            assert((seg == seq!['.']) == (lseg == seq!['.'])) by {
                if lseg == seq!['.'] {
                    assert(seg =~= seq!['.']);
                }
                if seg == seq!['.'] {
                    assert(lseg =~= seq!['.']);
                }
            }
            assert((seg == seq!['.', '.']) == (lseg == seq!['.', '.'])) by {
                if lseg == seq!['.', '.'] {
                    assert(seg =~= seq!['.', '.']);
                }
                if seg == seq!['.', '.'] {
                    assert(lseg =~= seq!['.', '.']);
                }
            }
            if seg == seq!['.'] && kind != SepKind::Backslash {
                lemma_lower_subrange(p, 0, start);
                lemma_name_in_lower(p.subrange(0, start), kind);
            }
        }
    }
}

proof fn lemma_ascii_subrange(s: Seq<char>, i: int, j: int)
    requires
        is_ascii_text(s),
        0 <= i <= j <= s.len(),
    ensures
        is_ascii_text(s.subrange(i, j)),
{
    assert forall|k: int| 0 <= k < s.subrange(i, j).len() implies (#[trigger] s.subrange(
        i,
        j,
    )[k] as u32) < 0x80 by {
        assert(s.subrange(i, j)[k] == s[i + k]);
    }
}

/// A file name found in ASCII text is ASCII and not empty.
proof fn lemma_name_in_ascii(p: Seq<char>, kind: SepKind)
    ensures
        match name_in(p, kind) {
            None => true,
            Some(n) => n.len() > 0 && (is_ascii_text(p) ==> is_ascii_text(n)),
        },
    decreases p.len(),
{
    if p.len() > 0 {
        if is_sep(kind, p.last()) {
            if is_ascii_text(p) {
                lemma_ascii_subrange(p, 0, p.len() - 1);
                assert(p.drop_last() =~= p.subrange(0, p.len() - 1));
            }
            lemma_name_in_ascii(p.drop_last(), kind);
        } else {
            crate::path::lemma_last_index_bounds(p, seps(kind));
            let start = last_index_of(p, seps(kind)) + 1;
            if is_ascii_text(p) {
                lemma_ascii_subrange(p, start, p.len() as int);
                lemma_ascii_subrange(p, 0, start);
            }
            if p.subrange(start, p.len() as int) == seq!['.'] && kind != SepKind::Backslash {
                lemma_name_in_ascii(p.subrange(0, start), kind);
            }
        }
    }
}

/// Characters at the same place in two texts equal up to the case of ASCII
/// letters agree on everything but the case of a letter.
proof fn lemma_lower_same(a: Seq<char>, b: Seq<char>, i: int)
    requires
        ascii_lower(a) == ascii_lower(b),
        0 <= i < a.len(),
    ensures
        a.len() == b.len(),
        (a[i] == '\\') == (b[i] == '\\'),
        (a[i] == '/') == (b[i] == '/'),
        (a[i] == '?') == (b[i] == '?'),
        (a[i] == '.') == (b[i] == '.'),
        (a[i] == ':') == (b[i] == ':'),
        is_ascii_letter(a[i]) == is_ascii_letter(b[i]),
{
    assert(a.len() == ascii_lower(a).len() && b.len() == ascii_lower(b).len());
    lemma_lower_char(a[i]);
    lemma_lower_char(b[i]);
    assert(ascii_lower(a)[i] == ascii_lower_char(a[i]));
    assert(ascii_lower(b)[i] == ascii_lower_char(b[i]));
}

/// Two paths equal up to the case of ASCII letters have their components end
/// at the same places.
proof fn lemma_comp_end_lower(a: Seq<char>, b: Seq<char>, i: int, kind: SepKind)
    requires
        ascii_lower(a) == ascii_lower(b),
        0 <= i,
    ensures
        comp_end(a, i, kind) == comp_end(b, i, kind),
    decreases a.len() - i,
{
    assert(a.len() == ascii_lower(a).len() && b.len() == ascii_lower(b).len());
    if i < a.len() {
        lemma_lower_same(a, b, i);
        lemma_comp_end_lower(a, b, i + 1, kind);
    }
}

/// Two Windows paths equal up to the case of ASCII letters have the same
/// prefix, unless only one of them holds the case-sensitive `\\?\UNC\`.
proof fn lemma_win_prefix_lower(a: Seq<char>, b: Seq<char>)
    requires
        ascii_lower(a) == ascii_lower(b),
        verbatim_unc_marker(a) == verbatim_unc_marker(b),
    ensures
        win_prefix(a) == win_prefix(b),
{
    assert(a.len() == ascii_lower(a).len() && b.len() == ascii_lower(b).len());
    assert forall|i: int| 0 <= i < a.len() implies {
        &&& (#[trigger] a[i] == '\\') == (b[i] == '\\')
        &&& (a[i] == '/') == (b[i] == '/')
        &&& (a[i] == '?') == (b[i] == '?')
        &&& (a[i] == '.') == (b[i] == '.')
        &&& (a[i] == ':') == (b[i] == ':')
        &&& is_ascii_letter(a[i]) == is_ascii_letter(b[i])
    } by {
        lemma_lower_same(a, b, i);
    }
    assert forall|i: int| 0 <= i implies comp_end(a, i, SepKind::Both) == comp_end(
        b,
        i,
        SepKind::Both,
    ) && comp_end(a, i, SepKind::Backslash) == comp_end(b, i, SepKind::Backslash) by {
        lemma_comp_end_lower(a, b, i, SepKind::Both);
        lemma_comp_end_lower(a, b, i, SepKind::Backslash);
    }
    if a.len() >= 2 {
        crate::path::lemma_comp_end(a, 2, SepKind::Both);
    }
    if a.len() >= 8 {
        crate::path::lemma_comp_end(a, 8, SepKind::Backslash);
    }
}

/// What lowering the ASCII letters of a file name does to its stem and
/// extension: it lowers them.
proof fn lemma_name_parts_lower(n: Seq<char>)
    ensures
        ascii_lower(name_stem(n)) == name_stem(ascii_lower(n)),
        (name_ext(n) is Some) == (name_ext(ascii_lower(n)) is Some),
        ascii_lower(or_empty(name_ext(n))) == or_empty(name_ext(ascii_lower(n))),
{
    let ln = ascii_lower(n);
    assert(ascii_lower(Seq::<char>::empty()) =~= Seq::<char>::empty());
    lemma_lower_pred(SepKind::Both);
    lemma_last_index_lower(n, dots());
    crate::path::lemma_last_index_bounds(n, dots());
    let d = dot_split(n);
    assert(dot_split(ln) == d);
    if d > 0 {
        lemma_lower_subrange(n, 0, d);
        lemma_lower_subrange(n, d + 1, n.len() as int);
    }
}

proof fn lemma_ascii_lower_is_ascii(s: Seq<char>)
    requires
        is_ascii_text(s),
    ensures
        is_ascii_text(ascii_lower(s)),
        ascii_lower(ascii_lower(s)) == ascii_lower(s),
{
    assert forall|i: int| 0 <= i < ascii_lower(s).len() implies (#[trigger] ascii_lower(s)[i] as u32)
        < 0x80 by {
        lemma_lower_char(s[i]);
    }
    assert forall|i: int| 0 <= i < s.len() implies #[trigger] ascii_lower(ascii_lower(s))[i]
        == ascii_lower(s)[i] by {
        lemma_lower_char(s[i]);
    }
    assert(ascii_lower(ascii_lower(s)) =~= ascii_lower(s));
}

/// The stem and extension of an ASCII path are ASCII.
proof fn lemma_parts_ascii(p: Seq<char>, style: PathStyle)
    requires
        is_ascii_text(p),
    ensures
        is_ascii_text(or_empty(file_stem_of(p, style))),
        is_ascii_text(or_empty(extension_of(p, style))),
        match file_name_of(p, style) {
            None => true,
            Some(n) => is_ascii_text(n) && n.len() > 0,
        },
{
    let n = prefix_len(p, style);
    crate::path::lemma_prefix_shape(p, style);
    lemma_ascii_subrange(p, n, p.len() as int);
    lemma_name_in_ascii(p.subrange(n, p.len() as int), body_kind(p, style));
    match file_name_of(p, style) {
        None => {},
        Some(n) => {
            crate::path::lemma_last_index_bounds(n, dots());
            let d = dot_split(n);
            if d > 0 {
                lemma_ascii_subrange(n, 0, d);
                lemma_ascii_subrange(n, d + 1, n.len() as int);
            }
        },
    }
}

/// On ASCII paths, matching ignores letter case: two paths that differ only
/// in the case of ASCII letters have the same stem and extension keys. (On
/// Windows, `std::path` reads the `UNC` of a `\\?\UNC\` prefix in this case
/// only, so both paths must hold that marker or neither.)
pub proof fn law_ascii_case_insensitive(a: Seq<char>, b: Seq<char>, style: PathStyle)
    requires
        is_ascii_text(a),
        is_ascii_text(b),
        ascii_lower(a) == ascii_lower(b),
        style == PathStyle::Windows ==> verbatim_unc_marker(a) == verbatim_unc_marker(b),
    ensures
        stem_key(a, style) == stem_key(b, style),
        ext_key(a, style) == ext_key(b, style),
{
    assert(a.len() == ascii_lower(a).len() && b.len() == ascii_lower(b).len());
    if style == PathStyle::Windows {
        lemma_win_prefix_lower(a, b);
    }
    let n = prefix_len(a, style);
    let kind = body_kind(a, style);
    crate::path::lemma_prefix_shape(a, style);
    lemma_lower_subrange(a, n, a.len() as int);
    lemma_lower_subrange(b, n, b.len() as int);
    let qa = a.subrange(n, a.len() as int);
    let qb = b.subrange(n, b.len() as int);
    lemma_name_in_lower(qa, kind);
    lemma_name_in_lower(qb, kind);
    lemma_parts_ascii(a, style);
    lemma_parts_ascii(b, style);
    assert(ascii_lower(Seq::<char>::empty()) =~= Seq::<char>::empty());
    match (file_name_of(a, style), file_name_of(b, style)) {
        (Some(na), Some(nb)) => {
            assert(ascii_lower(na) == ascii_lower(nb));
            lemma_name_parts_lower(na);
            lemma_name_parts_lower(nb);
        },
        _ => {},
    }
}

/// On ASCII paths, the keys are already in lower case.
pub proof fn law_keys_are_lowercase(p: Seq<char>, style: PathStyle)
    requires
        is_ascii_text(p),
    ensures
        lowered(stem_key(p, style)) == stem_key(p, style),
        lowered(ext_key(p, style)) == ext_key(p, style),
{
    lemma_parts_ascii(p, style);
    lemma_ascii_lower_is_ascii(or_empty(file_stem_of(p, style)));
    lemma_ascii_lower_is_ascii(or_empty(extension_of(p, style)));
}

/// On ASCII paths, stem and extension put back together give the lowercased
/// file name: a path with no file name has empty keys; otherwise the stem is
/// not empty, the extension holds no `.`, and the file name lowercased is
/// `stem.ext` (or `stem` when there is no extension).
pub proof fn law_stem_and_ext_round_trip(p: Seq<char>, style: PathStyle)
    requires
        is_ascii_text(p),
    ensures
        match file_name_of(p, style) {
            None => stem_key(p, style).len() == 0 && ext_key(p, style).len() == 0,
            Some(f) => {
                &&& stem_key(p, style).len() > 0
                &&& !ext_key(p, style).contains('.')
                &&& if extension_of(p, style) is Some {
                    lowered(f) == stem_key(p, style) + seq!['.'] + ext_key(p, style)
                } else {
                    lowered(f) == stem_key(p, style)
                }
            },
        },
{
    lemma_parts_ascii(p, style);
    assert(is_ascii_text(Seq::<char>::empty()));
    assert(ascii_lower(Seq::<char>::empty()) =~= Seq::<char>::empty());
    match file_name_of(p, style) {
        None => {},
        Some(f) => {
            crate::path::lemma_last_index_bounds(f, dots());
            let d = dot_split(f);
            if d > 0 {
                let stem = f.subrange(0, d);
                let ext = f.subrange(d + 1, f.len() as int);
                assert(f =~= stem + seq!['.'] + ext);
                assert(ascii_lower(f) =~= ascii_lower(stem) + seq!['.'] + ascii_lower(ext)) by {
                    lemma_lower_char('.');
                }
                assert(!ascii_lower(ext).contains('.')) by {
                    if ascii_lower(ext).contains('.') {
                        let i = choose|i: int| 0 <= i < ascii_lower(ext).len() && ascii_lower(ext)[i]
                            == '.';
                        lemma_lower_char(ext[i]);
                        assert(ext[i] == f[d + 1 + i]);
                        assert(dots()(f[d + 1 + i]));
                    }
                }
            } else {
                assert(ascii_lower(Seq::<char>::empty()) =~= Seq::<char>::empty());
            }
        },
    }
}

proof fn lemma_trim_start_ascii(s: Seq<char>, p: spec_fn(char) -> bool)
    ensures
        is_ascii_text(s) ==> is_ascii_text(trim_start_by(s, p)),
        trim_start_by(s, p).len() > 0 ==> !p(trim_start_by(s, p)[0]),
    decreases s.len(),
{
    if s.len() > 0 && p(s[0]) {
        if is_ascii_text(s) {
            lemma_ascii_subrange(s, 1, s.len() as int);
            assert(s.drop_first() =~= s.subrange(1, s.len() as int));
        }
        lemma_trim_start_ascii(s.drop_first(), p);
    }
}

proof fn lemma_trim_end_ascii(s: Seq<char>, p: spec_fn(char) -> bool)
    ensures
        is_ascii_text(s) ==> is_ascii_text(trim_end_by(s, p)),
    decreases s.len(),
{
    if s.len() > 0 && p(s.last()) {
        if is_ascii_text(s) {
            lemma_ascii_subrange(s, 0, s.len() - 1);
            assert(s.drop_last() =~= s.subrange(0, s.len() - 1));
        }
        lemma_trim_end_ascii(s.drop_last(), p);
    }
}

/// An ASCII custom extension, once normalised, is in lower case and does not
/// start with a dot (when it is not empty).
pub proof fn law_custom_key_normalised(e: Seq<char>)
    requires
        is_ascii_text(e),
    ensures
        lowered(custom_key(e)) == custom_key(e),
        custom_key(e).len() > 0 ==> custom_key(e)[0] != '.',
{
    let t = trimmed(e);
    lemma_trim_start_ascii(e, crate::text::ws());
    lemma_trim_end_ascii(trim_start_by(e, crate::text::ws()), crate::text::ws());
    let w = without_leading_dots(t);
    lemma_trim_start_ascii(t, dots());
    lemma_ascii_lower_is_ascii(w);
    if w.len() > 0 {
        lemma_lower_char(w[0]);
        assert(ascii_lower(w)[0] == ascii_lower_char(w[0]));
    }
}

/// The extensions a "custom" request lets through, when typed in ASCII, are
/// all non-empty, in lower case, and do not start with a dot.
pub proof fn law_custom_exts_normalised(es: Seq<Seq<char>>)
    requires
        forall|i: int| 0 <= i < es.len() ==> is_ascii_text(#[trigger] es[i]),
    ensures
        forall|i: int|
            0 <= i < custom_list(es).len() ==> {
                let k = #[trigger] custom_list(es)[i];
                &&& k.len() > 0
                &&& k[0] != '.'
                &&& lowered(k) == k
            },
    decreases es.len(),
{
    if es.len() > 0 {
        let rest = es.drop_last();
        assert forall|i: int| 0 <= i < rest.len() implies is_ascii_text(#[trigger] rest[i]) by {
            assert(rest[i] == es[i]);
        }
        law_custom_exts_normalised(rest);
        assert(is_ascii_text(es[es.len() - 1]));
        law_custom_key_normalised(es.last());
        let prev = custom_list(rest);
        let all = custom_list(es);
        assert forall|i: int| 0 <= i < all.len() implies {
            let k = #[trigger] all[i];
            &&& k.len() > 0
            &&& k[0] != '.'
            &&& lowered(k) == k
        } by {
            if i < prev.len() {
                assert(all[i] == prev[i]);
            } else {
                assert(all[i] == custom_key(es.last()));
            }
        }
    }
}

} // verus!
