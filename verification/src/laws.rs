use vstd::prelude::*;

use crate::exts::{ext_allowed, ext_policy, jpg_exts, raw_exts};
use crate::matching::{distinct, file_keys, key_matches, match_count, matched_indices};
use crate::outcome::{
    count_action, matched_upto, plan_for, unmatched_upto, ConflictPolicy, CopiedFile, CopyAction,
    CopyPlan, CopyTally,
};
use crate::path::{body_kind, is_sep, name_in, prefix_len, seps, stem_key, PathStyle, SepKind};
use crate::request::requested_stems;
use crate::text::trimmed;

verus! {

/// Every line whose trimmed text has a non-empty lowercased stem is
/// requested under that stem.
pub proof fn law_every_usable_line_is_requested(lines: Seq<Seq<char>>, l: int, style: PathStyle)
    requires
        0 <= l < lines.len(),
        trimmed(lines[l]).len() > 0,
        stem_key(trimmed(lines[l]), style).len() > 0,
    ensures
        requested_stems(lines, style).contains(stem_key(trimmed(lines[l]), style)),
    decreases lines.len(),
{
    let k = stem_key(trimmed(lines[l]), style);
    if l < lines.len() - 1 {
        law_every_usable_line_is_requested(lines.drop_last(), l, style);
        assert(lines.drop_last()[l] == lines[l]);
        let prev = requested_stems(lines.drop_last(), style);
        let j = choose|j: int| 0 <= j < prev.len() && prev[j] == k;
        assert(requested_stems(lines, style)[j] == k);
    } else {
        let prev = requested_stems(lines.drop_last(), style);
        if prev.contains(k) {
            let j = choose|j: int| 0 <= j < prev.len() && prev[j] == k;
            assert(requested_stems(lines, style)[j] == k);
        } else {
            assert(requested_stems(lines, style)[prev.len() as int] == k);
        }
    }
}

/// No base name is requested twice, and none is empty: lines that differ only
/// in case or extension collapse into one request.
pub proof fn law_requested_names_distinct(lines: Seq<Seq<char>>, style: PathStyle)
    ensures
        distinct(requested_stems(lines, style)),
        forall|i: int|
            0 <= i < requested_stems(lines, style).len() ==> #[trigger] requested_stems(lines, style)[i].len()
                > 0,
{
    crate::request::lemma_requested_stems_distinct(lines, style);
}

/// A file is among the matches exactly when its stem is requested and its
/// extension is let through.
pub proof fn law_matched_exactly_when_wanted(
    order: Seq<Seq<char>>,
    allowed: Option<Seq<Seq<char>>>,
    keys: Seq<(Seq<char>, Seq<char>)>,
    i: int,
)
    requires
        0 <= i < keys.len(),
    ensures
        matched_indices(order, allowed, keys).contains(i) <==> key_matches(
            order,
            allowed,
            keys[i],
        ),
    decreases keys.len(),
{
    lemma_matched_indices_below(order, allowed, keys);
    let prev = matched_indices(order, allowed, keys.drop_last());
    lemma_matched_indices_below(order, allowed, keys.drop_last());
    if i < keys.len() - 1 {
        law_matched_exactly_when_wanted(order, allowed, keys.drop_last(), i);
        assert(keys.drop_last()[i] == keys[i]);
        let all = matched_indices(order, allowed, keys);
        if prev.contains(i) {
            let j = choose|j: int| 0 <= j < prev.len() && prev[j] == i;
            assert(all[j] == i);
        }
        if all.contains(i) {
            let j = choose|j: int| 0 <= j < all.len() && all[j] == i;
            if j < prev.len() {
                assert(prev[j] == i);
            }
        }
    } else {
        let all = matched_indices(order, allowed, keys);
        if key_matches(order, allowed, keys[i]) {
            assert(all[prev.len() as int] == i);
        } else {
            if all.contains(i) {
                let j = choose|j: int| 0 <= j < all.len() && all[j] == i;
                assert(prev[j] == i);
            }
        }
    }
}

pub proof fn lemma_matched_indices_below(
    order: Seq<Seq<char>>,
    allowed: Option<Seq<Seq<char>>>,
    keys: Seq<(Seq<char>, Seq<char>)>,
)
    ensures
        forall|j: int|
            0 <= j < matched_indices(order, allowed, keys).len() ==> 0 <= #[trigger] matched_indices(
                order,
                allowed,
                keys,
            )[j] < keys.len(),
    decreases keys.len(),
{
    if keys.len() > 0 {
        lemma_matched_indices_below(order, allowed, keys.drop_last());
        let prev = matched_indices(order, allowed, keys.drop_last());
        let all = matched_indices(order, allowed, keys);
        assert forall|j: int| 0 <= j < all.len() implies 0 <= #[trigger] all[j] < keys.len() by {
            if j < prev.len() {
                assert(all[j] == prev[j]);
            }
        }
    }
}

/// Matching ignores the extension and the case of a typed name: a file whose
/// lowercased stem equals that of a usable typed line, and whose extension is
/// let through, is matched.
pub proof fn law_typed_name_matches_file(
    lines: Seq<Seq<char>>,
    l: int,
    allowed: Option<Seq<Seq<char>>>,
    files: Seq<Seq<char>>,
    i: int,
    style: PathStyle,
)
    requires
        0 <= l < lines.len(),
        0 <= i < files.len(),
        trimmed(lines[l]).len() > 0,
        stem_key(trimmed(lines[l]), style).len() > 0,
        stem_key(files[i], style) == stem_key(trimmed(lines[l]), style),
        ext_allowed(allowed, crate::path::ext_key(files[i], style)),
    ensures
        matched_indices(requested_stems(lines, style), allowed, file_keys(files, style)).contains(i),
{
    law_every_usable_line_is_requested(lines, l, style);
    assert(file_keys(files, style)[i] == (stem_key(files[i], style), crate::path::ext_key(files[i], style)));
    law_matched_exactly_when_wanted(requested_stems(lines, style), allowed, file_keys(files, style), i);
}

/// "all" lets every extension through.
pub proof fn law_all_mode_takes_everything(custom: Seq<Seq<char>>, ext: Seq<char>)
    ensures
        ext_allowed(ext_policy("all"@, custom), ext),
{
}

/// "raw_jpg" lets through exactly the JPEG and the RAW extensions.
pub proof fn law_raw_jpg_takes_both(custom: Seq<Seq<char>>, ext: Seq<char>)
    ensures
        ext_allowed(ext_policy("raw_jpg"@, custom), ext) <==> (jpg_exts().contains(ext)
            || raw_exts().contains(ext)),
{
    reveal_strlit("all");
    reveal_strlit("jpg");
    reveal_strlit("raw");
    reveal_strlit("raw_jpg");
    assert("raw_jpg"@.len() == 7);
    assert("all"@.len() == 3);
    assert("jpg"@.len() == 3);
    assert("raw"@.len() == 3);
    assert(ext_policy("raw_jpg"@, custom) == Some(jpg_exts() + raw_exts()));
    let both = jpg_exts() + raw_exts();
    if both.contains(ext) {
        let j = choose|j: int| 0 <= j < both.len() && both[j] == ext;
        if j < jpg_exts().len() {
            assert(jpg_exts()[j] == ext);
        } else {
            assert(raw_exts()[j - jpg_exts().len()] == ext);
        }
    }
    if jpg_exts().contains(ext) {
        let j = choose|j: int| 0 <= j < jpg_exts().len() && jpg_exts()[j] == ext;
        assert(both[j] == ext);
    }
    if raw_exts().contains(ext) {
        let j = choose|j: int| 0 <= j < raw_exts().len() && raw_exts()[j] == ext;
        assert(both[jpg_exts().len() + j] == ext);
    }
}

/// No extension is both a JPEG and a RAW extension.
pub proof fn law_jpg_and_raw_disjoint(ext: Seq<char>)
    ensures
        !(jpg_exts().contains(ext) && raw_exts().contains(ext)),
{
    reveal_strlit("jpg");
    reveal_strlit("jpeg");
    reveal_strlit("jpe");
    reveal_strlit("jfif");
    reveal_strlit("nef");
    reveal_strlit("cr2");
    reveal_strlit("cr3");
    reveal_strlit("arw");
    reveal_strlit("raf");
    reveal_strlit("orf");
    reveal_strlit("rw2");
    reveal_strlit("dng");
    reveal_strlit("pef");
    reveal_strlit("srw");
    reveal_strlit("x3f");
    reveal_strlit("raw");
    reveal_strlit("rwl");
    reveal_strlit("nrw");
    reveal_strlit("kdc");
    reveal_strlit("dcr");
    reveal_strlit("mrw");
    reveal_strlit("3fr");
    reveal_strlit("mef");
    reveal_strlit("iiq");
    reveal_strlit("gpr");
    assert forall|i: int| 0 <= i < jpg_exts().len() implies #[trigger] jpg_exts()[i].len() > 0
        && jpg_exts()[i][0] == 'j' by {}
    assert forall|i: int| 0 <= i < raw_exts().len() implies #[trigger] raw_exts()[i].len() > 0
        && raw_exts()[i][0] != 'j' by {}
    if jpg_exts().contains(ext) && raw_exts().contains(ext) {
        let a = choose|a: int| 0 <= a < jpg_exts().len() && jpg_exts()[a] == ext;
        let b = choose|b: int| 0 <= b < raw_exts().len() && raw_exts()[b] == ext;
        assert(jpg_exts()[a][0] == raw_exts()[b][0]);
    }
}

/// "jpg" keeps the RAW files out (and "raw" the JPEG files).
pub proof fn law_jpg_mode_excludes_raw(custom: Seq<Seq<char>>, ext: Seq<char>)
    ensures
        raw_exts().contains(ext) ==> !ext_allowed(ext_policy("jpg"@, custom), ext),
        jpg_exts().contains(ext) ==> !ext_allowed(ext_policy("raw"@, custom), ext),
{
    reveal_strlit("all");
    reveal_strlit("jpg");
    reveal_strlit("raw");
    assert("all"@ != "jpg"@) by {
        assert("all"@[0] != "jpg"@[0]);
    }
    assert("all"@ != "raw"@) by {
        assert("all"@[0] != "raw"@[0]);
    }
    assert("jpg"@ != "raw"@) by {
        assert("jpg"@[0] != "raw"@[0]);
    }
    law_jpg_and_raw_disjoint(ext);
}

/// A dry run writes nothing: every matched file is only previewed.
pub proof fn law_dry_run_writes_nothing(policy: ConflictPolicy, target_exists: bool)
    ensures
        plan_for(true, policy, target_exists) == CopyPlan::Preview,
{
}

proof fn lemma_no_skipped(entries: Seq<CopiedFile>)
    requires
        forall|i: int| 0 <= i < entries.len() ==> (#[trigger] entries[i]).action is Copied,
    ensures
        count_action(entries, CopyAction::Skipped) == 0,
    decreases entries.len(),
{
    if entries.len() > 0 {
        let rest = entries.drop_last();
        assert forall|i: int| 0 <= i < rest.len() implies (#[trigger] rest[i]).action is Copied by {
            assert(rest[i] == entries[i]);
        }
        lemma_no_skipped(rest);
        assert(entries[entries.len() - 1].action is Copied);
    }
}

/// A dry run's record lists every match as copied, skips nothing and counts
/// no bytes.
pub proof fn law_dry_run_report(tally: CopyTally)
    requires
        tally.wf(),
        tally.dry_run,
    ensures
        forall|i: int|
            0 <= i < tally.copied@.len() ==> (#[trigger] tally.copied@[i]).action is Copied,
        tally.skipped_count == 0,
        tally.total_bytes == 0,
{
    lemma_no_skipped(tally.copied@);
}

/// Every action the report can hold is one of copied, renamed, skipped,
/// overwritten.
pub proof fn law_actions_are_documented(a: CopyAction)
    ensures
        crate::outcome::action_label(a) == "copied"@ || crate::outcome::action_label(a)
            == "renamed"@ || crate::outcome::action_label(a) == "skipped"@
            || crate::outcome::action_label(a) == "overwritten"@,
{
}

/// Every requested name is either matched or listed as not found.
pub proof fn law_report_accounts_for_every_name(names: Seq<Seq<char>>, counts: Seq<usize>, n: nat)
    requires
        n <= names.len(),
        n <= counts.len(),
    ensures
        matched_upto(counts, n) + unmatched_upto(names, counts, n).len() == n,
    decreases n,
{
    if n > 0 {
        law_report_accounts_for_every_name(names, counts, (n - 1) as nat);
    }
}

/// Sum of the per-name counts over the first `m` requested names.
pub open spec fn count_sum(
    order: Seq<Seq<char>>,
    allowed: Option<Seq<Seq<char>>>,
    keys: Seq<(Seq<char>, Seq<char>)>,
    m: nat,
) -> nat
    decreases m,
{
    if m == 0 {
        0
    } else {
        count_sum(order, allowed, keys, (m - 1) as nat) + match_count(
            order[m - 1],
            allowed,
            keys,
        )
    }
}

/// How many of the first `m` requested names equal `k`.
pub open spec fn occurrences(order: Seq<Seq<char>>, k: Seq<char>, m: nat) -> nat
    decreases m,
{
    if m == 0 {
        0
    } else {
        occurrences(order, k, (m - 1) as nat) + if order[m - 1] == k {
            1nat
        } else {
            0nat
        }
    }
}

proof fn lemma_occurrences_distinct(order: Seq<Seq<char>>, k: Seq<char>, m: nat)
    requires
        distinct(order),
        m <= order.len(),
    ensures
        occurrences(order, k, m) == if exists|j: int| 0 <= j < m && order[j] == k {
            1nat
        } else {
            0nat
        },
    decreases m,
{
    if m > 0 {
        lemma_occurrences_distinct(order, k, (m - 1) as nat);
        if order[m - 1] == k {
            assert(!exists|j: int| 0 <= j < m - 1 && order[j] == k) by {
                if exists|j: int| 0 <= j < m - 1 && order[j] == k {
                    let j = choose|j: int| 0 <= j < m - 1 && order[j] == k;
                    assert(order[j] != order[m - 1]);
                }
            }
        } else {
            if exists|j: int| 0 <= j < m && order[j] == k {
                let j = choose|j: int| 0 <= j < m && order[j] == k;
                assert(j < m - 1);
            }
        }
    }
}

proof fn lemma_count_sum_step(
    order: Seq<Seq<char>>,
    allowed: Option<Seq<Seq<char>>>,
    keys: Seq<(Seq<char>, Seq<char>)>,
    m: nat,
)
    requires
        keys.len() > 0,
        m <= order.len(),
    ensures
        count_sum(order, allowed, keys, m) == count_sum(order, allowed, keys.drop_last(), m)
            + if ext_allowed(allowed, keys.last().1) {
            occurrences(order, keys.last().0, m)
        } else {
            0nat
        },
    decreases m,
{
    if m > 0 {
        lemma_count_sum_step(order, allowed, keys, (m - 1) as nat);
    }
}

proof fn lemma_count_sum_empty(
    order: Seq<Seq<char>>,
    allowed: Option<Seq<Seq<char>>>,
    keys: Seq<(Seq<char>, Seq<char>)>,
    m: nat,
)
    requires
        keys.len() == 0,
    ensures
        count_sum(order, allowed, keys, m) == 0,
    decreases m,
{
    if m > 0 {
        lemma_count_sum_empty(order, allowed, keys, (m - 1) as nat);
    }
}

/// Each matched file is counted under exactly one requested name: the
/// per-name counts add up to the number of matched keys.
pub proof fn law_counts_add_up_to_matches(
    order: Seq<Seq<char>>,
    allowed: Option<Seq<Seq<char>>>,
    keys: Seq<(Seq<char>, Seq<char>)>,
)
    requires
        distinct(order),
    ensures
        count_sum(order, allowed, keys, order.len()) == matched_indices(
            order,
            allowed,
            keys,
        ).len(),
    decreases keys.len(),
{
    if keys.len() == 0 {
        lemma_count_sum_empty(order, allowed, keys, order.len());
    } else {
        law_counts_add_up_to_matches(order, allowed, keys.drop_last());
        lemma_count_sum_step(order, allowed, keys, order.len());
        lemma_occurrences_distinct(order, keys.last().0, order.len());
        let k = keys.last().0;
        if order.contains(k) {
            let j = choose|j: int| 0 <= j < order.len() && order[j] == k;
            assert(exists|j: int| 0 <= j < order.len() && order[j] == k);
        } else {
            assert(!exists|j: int| 0 <= j < order.len() && order[j] == k) by {
                if exists|j: int| 0 <= j < order.len() && order[j] == k {
                    let j = choose|j: int| 0 <= j < order.len() && order[j] == k;
                    assert(order.contains(k));
                }
            }
        }
    }
}

/// After a real copy, the files counted as copied and those skipped are all
/// the handled files, and the bytes are those of the files not skipped.
pub proof fn law_copied_and_skipped_partition(tally: CopyTally)
    requires
        tally.wf(),
        !tally.dry_run,
    ensures
        (tally.copied@.len() - count_action(tally.copied@, CopyAction::Skipped))
            + tally.skipped_count == tally.copied@.len(),
        tally.total_bytes == crate::outcome::unskipped_bytes(tally.copied@),
{
    crate::outcome::lemma_count_action_bound(tally.copied@, CopyAction::Skipped);
}

/// Whether `s` holds a separator of `kind`.
pub open spec fn has_sep(s: Seq<char>, kind: SepKind) -> bool {
    exists|i: int| 0 <= i < s.len() && is_sep(kind, #[trigger] s[i])
}

/// A file name found in a path body holds no separator, and is the whole
/// body when the body has no separator.
pub proof fn lemma_name_in_shape(p: Seq<char>, kind: SepKind)
    ensures
        match name_in(p, kind) {
            Some(name) => !has_sep(name, kind) && (!has_sep(p, kind) ==> name == p),
            None => true,
        },
    decreases p.len(),
{
    if p.len() > 0 {
        if is_sep(kind, p.last()) {
            lemma_name_in_shape(p.drop_last(), kind);
            assert(is_sep(kind, p[p.len() - 1]));
        } else {
            let sep = seps(kind);
            crate::path::lemma_last_index_bounds(p, sep);
            let start = crate::path::last_index_of(p, sep) + 1;
            let seg = p.subrange(start, p.len() as int);
            assert(!has_sep(seg, kind)) by {
                if has_sep(seg, kind) {
                    let j = choose|j: int| 0 <= j < seg.len() && is_sep(kind, #[trigger] seg[j]);
                    assert(seg[j] == p[start + j]);
                    assert(sep(p[start + j]));
                }
            }
            if start > 0 {
                assert(sep(p[start - 1]));
                assert(is_sep(kind, p[start - 1]));
            } else {
                assert(seg =~= p);
            }
            if seg == seq!['.'] && kind != SepKind::Backslash {
                lemma_name_in_shape(p.subrange(0, start), kind);
                if start == 0 {
                    assert(p.subrange(0, start).len() == 0);
                }
            }
        }
    }
}

/// How many times `c` occurs in `s`.
pub open spec fn count_char(s: Seq<char>, c: char) -> nat
    decreases s.len(),
{
    if s.len() == 0 {
        0
    } else {
        count_char(s.drop_last(), c) + if s.last() == c {
            1nat
        } else {
            0nat
        }
    }
}

proof fn lemma_count_concat(a: Seq<char>, b: Seq<char>, c: char)
    ensures
        count_char(a + b, c) == count_char(a, c) + count_char(b, c),
    decreases b.len(),
{
    if b.len() == 0 {
        assert(a + b =~= a);
    } else {
        lemma_count_concat(a, b.drop_last(), c);
        assert((a + b).drop_last() =~= a + b.drop_last());
    }
}

proof fn lemma_count_absent(s: Seq<char>, c: char)
    requires
        forall|i: int| 0 <= i < s.len() ==> s[i] != c,
    ensures
        count_char(s, c) == 0,
    decreases s.len(),
{
    if s.len() > 0 {
        assert(s[s.len() - 1] != c);
        let t = s.drop_last();
        assert forall|i: int| 0 <= i < t.len() implies t[i] != c by {
            assert(t[i] == s[i]);
        }
        lemma_count_absent(t, c);
    }
}

proof fn lemma_decimal_nonempty(n: nat)
    ensures
        crate::text::decimal(n).len() >= 1,
    decreases n,
{
    if n >= 10 {
        lemma_decimal_nonempty(n / 10);
    }
}

proof fn lemma_decimal_digits(n: nat, i: int)
    requires
        0 <= i < crate::text::decimal(n).len(),
    ensures
        '0' <= crate::text::decimal(n)[i] <= '9',
    decreases n,
{
    if n >= 10 {
        if i < crate::text::decimal(n / 10).len() {
            lemma_decimal_digits(n / 10, i);
        }
    }
}

/// The number a string of decimal digits stands for.
pub open spec fn digits_value(s: Seq<char>) -> int
    decreases s.len(),
{
    if s.len() == 0 {
        0
    } else {
        digits_value(s.drop_last()) * 10 + (s.last() as int - 48)
    }
}

proof fn lemma_decimal_value(n: nat)
    ensures
        digits_value(crate::text::decimal(n)) == n,
    decreases n,
{
    let d = (n % 10) as nat;
    let s = crate::text::decimal(n);
    assert(crate::text::digit_char(d) as int == 48 + d) by {
        assert(48 + d < 58);
    }
    if n >= 10 {
        lemma_decimal_value(n / 10);
        assert(s.drop_last() =~= crate::text::decimal(n / 10));
        assert(s.last() == crate::text::digit_char(d));
        assert(digits_value(s) == digits_value(s.drop_last()) * 10 + (s.last() as int - 48));
        assert(digits_value(s) == (n / 10) * 10 + d);
    } else {
        assert(s.drop_last() =~= Seq::<char>::empty());
        assert(s.last() == crate::text::digit_char(n));
        assert(digits_value(s) == digits_value(s.drop_last()) * 10 + (s.last() as int - 48));
    }
}

/// The pieces a suffixed candidate is made of: `stem_`, the suffix digits,
/// and `.ext` (or nothing).
pub open spec fn candidate_parts(file_name: Seq<char>, style: PathStyle) -> (Seq<char>, Seq<char>) {
    let stem = match crate::path::file_stem_of(file_name, style) {
        Some(s) => s,
        None => file_name,
    };
    let tail = match crate::path::extension_of(file_name, style) {
        Some(e) => seq!['.'] + e,
        None => Seq::empty(),
    };
    (stem + seq!['_'], tail)
}

proof fn lemma_candidate_parts(file_name: Seq<char>, k: nat, style: PathStyle)
    requires
        k >= 1,
    ensures
        crate::path::candidate_name(file_name, k, style) == candidate_parts(file_name, style).0
            + crate::text::decimal(k) + candidate_parts(file_name, style).1,
{
    let parts = candidate_parts(file_name, style);
    let d = crate::text::decimal(k);
    match crate::path::extension_of(file_name, style) {
        Some(e) => {
            assert(crate::path::candidate_name(file_name, k, style) =~= parts.0 + d + parts.1);
        },
        None => {
            assert(crate::path::candidate_name(file_name, k, style) =~= parts.0 + d + parts.1);
        },
    }
}

/// The shape of a suffixed candidate when the path has a file name: it holds
/// no separator, is longer than the name by the suffix, and holds as many `:`
/// as the name.
proof fn lemma_candidate_shape(f: Seq<char>, k: nat, style: PathStyle, name: Seq<char>)
    requires
        k >= 1,
        crate::path::file_name_of(f, style) == Some(name),
        !has_sep(name, body_kind(f, style)),
    ensures
        !has_sep(crate::path::candidate_name(f, k, style), body_kind(f, style)),
        crate::path::candidate_name(f, k, style).len() == name.len() + 1
            + crate::text::decimal(k).len(),
        count_char(crate::path::candidate_name(f, k, style), ':') == count_char(name, ':'),
{
    lemma_candidate_parts(f, k, style);
    let c = crate::path::candidate_name(f, k, style);
    let d = crate::text::decimal(k);
    let parts = candidate_parts(f, style);
    let cut = crate::path::dot_split(name);
    crate::path::lemma_last_index_bounds(name, crate::text::dots());
    let stem = if cut <= 0 {
        name
    } else {
        name.subrange(0, cut)
    };
    let e = if cut <= 0 {
        Seq::<char>::empty()
    } else {
        name.subrange(cut + 1, name.len() as int)
    };
    assert(parts.0 == stem + seq!['_']);
    if cut <= 0 {
        assert(parts.1 == Seq::<char>::empty());
        assert(name =~= stem + e);
    } else {
        assert(parts.1 == seq!['.'] + e);
        assert(name =~= stem + seq!['.'] + e);
    }
    let kind = body_kind(f, style);
    assert(!has_sep(c, kind)) by {
        if has_sep(c, kind) {
            let j = choose|j: int| 0 <= j < c.len() && is_sep(kind, #[trigger] c[j]);
            if j < stem.len() {
                assert(c[j] == stem[j] && stem[j] == name[j]);
            } else if j == stem.len() {
            } else if j < stem.len() + 1 + d.len() {
                lemma_decimal_digits(k, j - stem.len() - 1);
                assert(c[j] == d[j - stem.len() - 1]);
            } else if j == stem.len() + 1 + d.len() {
                assert(c[j] == parts.1[0]);
            } else {
                let i = j - stem.len() - 2 - d.len();
                assert(c[j] == e[i]);
                if cut <= 0 {
                } else {
                    assert(e[i] == name[cut + 1 + i]);
                }
            }
        }
    }
    assert forall|i: int| 0 <= i < d.len() implies d[i] != ':' by {
        lemma_decimal_digits(k, i);
    }
    lemma_count_absent(d, ':');
    lemma_count_absent(seq!['_'], ':');
    lemma_count_absent(seq!['.'], ':');
    lemma_count_concat(stem, seq!['_'], ':');
    lemma_count_concat(parts.0, d, ':');
    lemma_count_concat(parts.0 + d, parts.1, ':');
    if cut > 0 {
        lemma_count_concat(seq!['.'], e, ':');
        lemma_count_concat(stem, seq!['.'], ':');
        lemma_count_concat(stem + seq!['.'], e, ':');
    } else {
        lemma_count_concat(stem, e, ':');
    }
}

/// A renamed copy never takes the name it was renamed from: every candidate
/// after the first differs from the original file name.
pub proof fn law_renamed_name_differs(file_name: Seq<char>, k: nat, style: PathStyle)
    requires
        k >= 1,
    ensures
        crate::path::candidate_name(file_name, k, style) != file_name,
{
    let f = file_name;
    let n = prefix_len(f, style);
    let kind = body_kind(f, style);
    crate::path::lemma_prefix_shape(f, style);
    let q = f.subrange(n, f.len() as int);
    lemma_name_in_shape(q, kind);
    lemma_decimal_nonempty(k);
    let c = crate::path::candidate_name(f, k, style);
    match crate::path::file_name_of(f, style) {
        None => {
            lemma_candidate_parts(f, k, style);
            assert(c.len() > f.len());
        },
        Some(name) => {
            lemma_candidate_shape(f, k, style, name);
            if !has_sep(f, kind) {
                // A prefix that starts with a separator would be one in `f`,
                // so the prefix is empty or a drive `X:`.
                assert(n == 0 || (n == 2 && f[1] == ':')) by {
                    if n > 0 && is_sep(kind, f[0]) {
                        assert(has_sep(f, kind));
                    }
                }
                assert(!has_sep(q, kind)) by {
                    if has_sep(q, kind) {
                        let j = choose|j: int| 0 <= j < q.len() && is_sep(kind, #[trigger] q[j]);
                        assert(q[j] == f[n + j]);
                    }
                }
                assert(name == q);
                if n == 0 {
                    assert(q =~= f);
                } else {
                    // `f` is `X:` followed by the name, so it holds one `:`
                    // more than the name, and the candidate.
                    let pre = f.subrange(0, 2);
                    assert(f =~= pre + q);
                    lemma_count_concat(pre, q, ':');
                    assert(pre.drop_last() =~= seq![f[0]]);
                    assert(pre.last() == ':');
                    assert(count_char(pre, ':') >= 1);
                }
            } else {
                assert(c != f) by {
                    if c == f {
                        assert(has_sep(c, kind));
                    }
                }
            }
        },
    }
}

/// Distinct suffixes give distinct candidate names.
pub proof fn law_candidates_distinct(file_name: Seq<char>, j: nat, k: nat, style: PathStyle)
    requires
        j != k,
    ensures
        crate::path::candidate_name(file_name, j, style) != crate::path::candidate_name(
            file_name,
            k,
            style,
        ),
{
    if j == 0 {
        law_renamed_name_differs(file_name, k, style);
    } else if k == 0 {
        law_renamed_name_differs(file_name, j, style);
    } else {
        lemma_candidate_parts(file_name, j, style);
        lemma_candidate_parts(file_name, k, style);
        let parts = candidate_parts(file_name, style);
        let dj = crate::text::decimal(j);
        let dk = crate::text::decimal(k);
        let cj = crate::path::candidate_name(file_name, j, style);
        let ck = crate::path::candidate_name(file_name, k, style);
        if cj == ck {
            assert(cj.len() == parts.0.len() + dj.len() + parts.1.len());
            assert(ck.len() == parts.0.len() + dk.len() + parts.1.len());
            assert(dj.len() == dk.len());
            let a = parts.0.len() as int;
            assert(dj =~= cj.subrange(a, a + dj.len()));
            assert(dk =~= ck.subrange(a, a + dk.len()));
            lemma_decimal_value(j);
            lemma_decimal_value(k);
        }
    }
}

/// The rename suffix is bounded by the folder's size: if the first `k`
/// candidates are all among the `taken` names (a finite set, such as the
/// entries of the destination folder), then `k` is at most their number.
pub proof fn law_rename_suffix_bounded(
    file_name: Seq<char>,
    k: nat,
    style: PathStyle,
    taken: Set<Seq<char>>,
)
    requires
        taken.finite(),
        forall|j: nat| j < k ==> taken.contains(#[trigger] crate::path::candidate_name(file_name, j, style)),
    ensures
        k <= taken.len(),
{
    let cands = Seq::new(k, |j: int| crate::path::candidate_name(file_name, j as nat, style));
    assert(cands.no_duplicates()) by {
        assert forall|a: int, b: int|
            0 <= a < cands.len() && 0 <= b < cands.len() && a != b implies cands[a] != cands[b] by {
            law_candidates_distinct(file_name, a as nat, b as nat, style);
        }
    }
    cands.unique_seq_to_set();
    assert(cands.to_set().subset_of(taken)) by {
        assert forall|n: Seq<char>| cands.to_set().contains(n) implies taken.contains(n) by {
            let a = choose|a: int| 0 <= a < cands.len() && cands[a] == n;
            assert(taken.contains(crate::path::candidate_name(file_name, a as nat, style)));
        }
    }
    vstd::set_lib::lemma_len_subset(cands.to_set(), taken);
}

/// A file name splits at its last dot, whatever characters the two sides
/// hold: a non-empty stem `s`, a dot and an extension `e` without a dot give
/// the stem `s` and the extension `e`.
pub proof fn law_name_splits_at_last_dot(s: Seq<char>, e: Seq<char>)
    requires
        s.len() > 0,
        !e.contains('.'),
    ensures
        crate::path::name_stem(s + seq!['.'] + e) == s,
        crate::path::name_ext(s + seq!['.'] + e) == Some(e),
{
    let n = s + seq!['.'] + e;
    let d = crate::text::dots();
    assert forall|i: int| s.len() + 1 <= i < n.len() implies !d(#[trigger] n[i]) by {
        assert(n[i] == e[i - s.len() - 1]);
        if d(n[i]) {
            assert(e.contains(e[i - s.len() - 1]));
        }
    }
    assert(n[s.len() as int] == '.');
    crate::path::lemma_last_index_at(n, d, s.len() + 1int);
    assert(n.subrange(0, s.len() as int) =~= s);
    assert(n.subrange(s.len() + 1int, n.len() as int) =~= e);
}

/// A file name with no dot after its first character is all stem and has no
/// extension.
pub proof fn law_name_without_inner_dot(n: Seq<char>)
    requires
        forall|i: int| 0 < i < n.len() ==> n[i] != '.',
    ensures
        crate::path::name_stem(n) == n,
        crate::path::name_ext(n) is None,
{
    let d = crate::text::dots();
    crate::path::lemma_last_index_bounds(n, d);
    let k = crate::path::last_index_of(n, d);
    if k > 0 {
        assert(d(n[k]));
    }
}

/// On Unix, a name that holds no `/` and is neither `.` nor `..` is its own
/// file name.
pub proof fn law_plain_name_is_file_name(n: Seq<char>)
    requires
        n.len() > 0,
        !n.contains('/'),
        n != seq!['.'],
        n != seq!['.', '.'],
    ensures
        crate::path::file_name_of(n, PathStyle::Unix) == Some(n),
{
    let p = seps(SepKind::Slash);
    assert forall|i: int| 0 <= i < n.len() implies !p(#[trigger] n[i]) by {
        if p(n[i]) {
            assert(n.contains(n[i]));
        }
    }
    crate::path::lemma_last_index_at(n, p, 0);
    assert(n.subrange(0, n.len() as int) =~= n);
    assert(!is_sep(SepKind::Slash, n.last())) by {
        assert(!p(n[n.len() - 1]));
    }
}

/// The keys of a path whose file name is `s.e` (with `s` non-empty and no
/// dot in `e`) are `s` and `e` lowercased, whatever characters they hold.
pub proof fn law_keys_split_file_name(p: Seq<char>, style: PathStyle, s: Seq<char>, e: Seq<char>)
    requires
        crate::path::file_name_of(p, style) == Some(s + seq!['.'] + e),
        s.len() > 0,
        !e.contains('.'),
    ensures
        stem_key(p, style) == crate::text::lowered(s),
        crate::path::ext_key(p, style) == crate::text::lowered(e),
{
    law_name_splits_at_last_dot(s, e);
}

/// A renamed copy of a file named `s.e` (with `s` non-empty and no dot in
/// `e`) is named `s_k.e`: the suffix goes before the extension, which is
/// kept whatever characters it holds.
pub proof fn law_candidate_keeps_extension(
    f: Seq<char>,
    k: nat,
    style: PathStyle,
    s: Seq<char>,
    e: Seq<char>,
)
    requires
        k >= 1,
        crate::path::file_name_of(f, style) == Some(s + seq!['.'] + e),
        s.len() > 0,
        !e.contains('.'),
    ensures
        crate::path::candidate_name(f, k, style) == s + seq!['_'] + crate::text::decimal(k) + seq![
            '.',
        ] + e,
{
    law_name_splits_at_last_dot(s, e);
}

} // verus!
