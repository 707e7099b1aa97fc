use vstd::prelude::*;

verus! {

/// The characters of `s`, in order.
pub fn chars_of(s: &str) -> (v: Vec<char>)
    ensures
        v@ == s@,
{
    let mut v: Vec<char> = Vec::new();
    for c in it: s.chars()
        invariant
            v@ == it.seq().take(it.index() as int),
            it.seq() == s@,
    {
        v.push(c);
    }
    v
}

/// `String::push`: appends one character.
#[verifier::external_body]
pub(crate) fn push_char(s: &mut String, c: char)
    ensures
        final(s)@ == old(s)@.push(c),
{
    s.push(c);
}

/// The string made of `cs[from..to]`.
pub fn string_of(cs: &Vec<char>, from: usize, to: usize) -> (s: String)
    requires
        from <= to <= cs@.len(),
    ensures
        s@ == cs@.subrange(from as int, to as int),
{
    let mut s = String::new();
    let mut i = from;
    while i < to
        invariant
            from <= i <= to <= cs@.len(),
            s@ == cs@.subrange(from as int, i as int),
        decreases to - i,
    {
        push_char(&mut s, cs[i]);
        i += 1;
    }
    s
}


/// The characters that carry the Unicode `White_Space` property
/// (the set that `char::is_whitespace` and `str::trim` go by).
pub open spec fn is_white_space(c: char) -> bool {
    let u = c as u32;
    ||| 0x09 <= u <= 0x0d
    ||| u == 0x20
    ||| u == 0x85
    ||| u == 0xa0
    ||| u == 0x1680
    ||| 0x2000 <= u <= 0x200a
    ||| u == 0x2028
    ||| u == 0x2029
    ||| u == 0x202f
    ||| u == 0x205f
    ||| u == 0x3000
}

/// `char::is_whitespace`.
pub fn white_space(c: char) -> (b: bool)
    ensures
        b == is_white_space(c),
{
    let u = c as u32;
    (0x09 <= u && u <= 0x0d) || u == 0x20 || u == 0x85 || u == 0xa0 || u == 0x1680 || (0x2000
        <= u && u <= 0x200a) || u == 0x2028 || u == 0x2029 || u == 0x202f || u == 0x205f || u
        == 0x3000
}

pub open spec fn is_dot(c: char) -> bool {
    c == '.'
}

/// `is_white_space` as a predicate value.
pub open spec fn ws() -> spec_fn(char) -> bool {
    |c: char| is_white_space(c)
}

/// `is_dot` as a predicate value.
pub open spec fn dots() -> spec_fn(char) -> bool {
    |c: char| is_dot(c)
}

/// `s` without its longest prefix of characters that satisfy `p`.
pub open spec fn trim_start_by(s: Seq<char>, p: spec_fn(char) -> bool) -> Seq<char>
    decreases s.len(),
{
    if s.len() > 0 && p(s[0]) {
        trim_start_by(s.drop_first(), p)
    } else {
        s
    }
}

/// `s` without its longest suffix of characters that satisfy `p`.
pub open spec fn trim_end_by(s: Seq<char>, p: spec_fn(char) -> bool) -> Seq<char>
    decreases s.len(),
{
    if s.len() > 0 && p(s.last()) {
        trim_end_by(s.drop_last(), p)
    } else {
        s
    }
}

/// `str::trim`: leading and trailing white space removed.
pub open spec fn trimmed(s: Seq<char>) -> Seq<char> {
    trim_end_by(trim_start_by(s, ws()), ws())
}

/// `str::trim_start_matches('.')`: leading dots removed.
pub open spec fn without_leading_dots(s: Seq<char>) -> Seq<char> {
    trim_start_by(s, dots())
}

/// Index of the first character of `cs[from..]` that is not white space
/// (or `cs.len()`), with the white space before it skipped.
fn skip_white_space(cs: &Vec<char>, from: usize) -> (i: usize)
    requires
        from <= cs@.len(),
    ensures
        from <= i <= cs@.len(),
        trim_start_by(cs@.subrange(from as int, cs@.len() as int), ws())
            == cs@.subrange(i as int, cs@.len() as int),
{
        let mut i = from;
    while i < cs.len() && white_space(cs[i])
        invariant
            from <= i <= cs@.len(),
            trim_start_by(cs@.subrange(from as int, cs@.len() as int), ws()) == trim_start_by(
                cs@.subrange(i as int, cs@.len() as int),
                ws(),
            ),
        decreases cs@.len() - i,
    {
        let ghost sub = cs@.subrange(i as int, cs@.len() as int);
        assert(sub[0] == cs@[i as int]);
        assert(ws()(sub[0]));
        assert(sub.drop_first() =~= cs@.subrange(i + 1, cs@.len() as int));
        i += 1;
    }
    i
}

/// Index just past the last character of `cs[from..to]` that is not white space
/// (or `from`).
fn back_over_white_space(cs: &Vec<char>, from: usize, to: usize) -> (j: usize)
    requires
        from <= to <= cs@.len(),
    ensures
        from <= j <= to,
        trim_end_by(cs@.subrange(from as int, to as int), ws())
            == cs@.subrange(from as int, j as int),
{
        let mut j = to;
    while j > from && white_space(cs[j - 1])
        invariant
            from <= j <= to <= cs@.len(),
            trim_end_by(cs@.subrange(from as int, to as int), ws()) == trim_end_by(
                cs@.subrange(from as int, j as int),
                ws(),
            ),
        decreases j - from,
    {
        let ghost sub = cs@.subrange(from as int, j as int);
        assert(sub.last() == cs@[j - 1]);
        assert(ws()(sub.last()));
        assert(sub.drop_last() =~= cs@.subrange(from as int, j - 1));
        j -= 1;
    }
    j
}

/// `str::trim`.
pub fn trim(s: &str) -> (t: String)
    ensures
        t@ == trimmed(s@),
{
    let cs = chars_of(s);
    let i = skip_white_space(&cs, 0);
    let j = back_over_white_space(&cs, i, cs.len());
    assert(cs@.subrange(0, cs@.len() as int) =~= s@);
    string_of(&cs, i, j)
}

/// `str::trim_start_matches('.')`.
pub fn strip_leading_dots(s: &str) -> (t: String)
    ensures
        t@ == without_leading_dots(s@),
{
        let cs = chars_of(s);
    assert(cs@.subrange(0, cs@.len() as int) =~= s@);
    let mut i: usize = 0;
    while i < cs.len() && cs[i] == '.'
        invariant
            i <= cs@.len(),
            trim_start_by(s@, dots()) == trim_start_by(cs@.subrange(i as int, cs@.len() as int), dots()),
            cs@ == s@,
        decreases cs@.len() - i,
    {
        let ghost sub = cs@.subrange(i as int, cs@.len() as int);
        assert(sub[0] == cs@[i as int]);
        assert(dots()(sub[0]));
        assert(sub.drop_first() =~= cs@.subrange(i + 1, cs@.len() as int));
        i += 1;
    }
    string_of(&cs, i, cs.len())
}

/// Whether two strings hold the same characters.
pub fn same_text(a: &str, b: &str) -> (r: bool)
    ensures
        r == (a@ == b@),
{
    let x = chars_of(a);
    let y = chars_of(b);
    if x.len() != y.len() {
        return false;
    }
    let mut i: usize = 0;
    while i < x.len()
        invariant
            x@ == a@,
            y@ == b@,
            x@.len() == y@.len(),
            i <= x@.len(),
            forall|k: int| 0 <= k < i ==> x@[k] == y@[k],
        decreases x@.len() - i,
    {
        if x[i] != y[i] {
            return false;
        }
        i += 1;
    }
    assert(x@ =~= y@);
    true
}

/// What `str::to_lowercase` returns for a string with these characters: the
/// Unicode lowercase mapping (mostly character by character, with a few
/// context rules such as a word-final capital sigma).
pub uninterp spec fn lowercase(s: Seq<char>) -> Seq<char>;

/// Whether every character is ASCII.
pub open spec fn is_ascii_text(s: Seq<char>) -> bool {
    forall|i: int| 0 <= i < s.len() ==> (#[trigger] s[i] as u32) < 0x80
}

/// `char::to_ascii_lowercase`: `A`..`Z` become `a`..`z`, all else is kept.
pub open spec fn ascii_lower_char(c: char) -> char {
    if 'A' <= c <= 'Z' {
        ((c as u32) + 32) as char
    } else {
        c
    }
}

/// Each character lowered with `ascii_lower_char`.
pub open spec fn ascii_lower(s: Seq<char>) -> Seq<char> {
    s.map_values(|c: char| ascii_lower_char(c))
}

/// The lowercase form `str::to_lowercase` gives: on ASCII text the Unicode
/// mapping is the ASCII one (`A`..`Z` to `a`..`z`, everything else kept); on
/// other text it is named `lowercase`.
pub open spec fn lowered(s: Seq<char>) -> Seq<char> {
    if is_ascii_text(s) {
        ascii_lower(s)
    } else {
        lowercase(s)
    }
}

/// `str::to_lowercase`. On ASCII text the result is the ASCII lowercase
/// mapping, which the Unicode lowercase mapping reduces to there (upper-case
/// letters A..Z map to a..z and no other ASCII character has a lowercase
/// mapping); on any other text the result is only named `lowercase` of the
/// argument's characters, and nothing more of the Unicode mapping is claimed.
#[verifier::external_body]
pub(crate) fn to_lowercase(s: &str) -> (r: String)
    ensures
        is_ascii_text(s@) ==> r@ == ascii_lower(s@),
        !is_ascii_text(s@) ==> r@ == lowercase(s@),
{
    s.to_lowercase()
}

/// The decimal digit for `d < 10`.
pub open spec fn digit_char(d: nat) -> char {
    (48 + d) as char
}

/// The decimal representation of `n`, without leading zeros.
pub open spec fn decimal(n: nat) -> Seq<char>
    decreases n,
{
    if n < 10 {
        seq![digit_char(n)]
    } else {
        decimal(n / 10).push(digit_char(n % 10))
    }
}

/// Appends the decimal representation of `n` to `s`.
pub fn push_decimal(s: &mut String, n: u32)
    ensures
        final(s)@ == old(s)@ + decimal(n as nat),
    decreases n,
{
    if n >= 10 {
        push_decimal(s, n / 10);
    }
    let d: u8 = (n % 10) as u8;
    let c = (48u8 + d) as char;
    push_char(s, c);
    assert(s@ =~= old(s)@ + decimal(n as nat));
}

} // verus!
