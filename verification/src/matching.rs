use vstd::prelude::*;

use crate::exts::ext_ok;
use crate::path::stem_and_ext;
use crate::request::position_of;

verus! {

/// No name occurs twice.
pub open spec fn distinct(s: Seq<Seq<char>>) -> bool {
    forall|i: int, j: int| 0 <= i < j < s.len() ==> s[i] != s[j]
}

/// The characters of each (stem, extension) pair.
pub open spec fn key_views(keys: Seq<(String, String)>) -> Seq<(Seq<char>, Seq<char>)> {
    keys.map_values(|k: (String, String)| (k.0@, k.1@))
}

/// The (lowercased stem, lowercased extension) of each scanned file.
pub open spec fn file_keys(files: Seq<Seq<char>>, style: crate::path::PathStyle) -> Seq<
    (Seq<char>, Seq<char>),
> {
    files.map_values(|f: Seq<char>| (crate::path::stem_key(f, style), crate::path::ext_key(f, style)))
}

/// Whether a file with these keys is wanted: its stem is requested and its
/// extension is let through.
pub open spec fn key_matches(
    order: Seq<Seq<char>>,
    allowed: Option<Seq<Seq<char>>>,
    key: (Seq<char>, Seq<char>),
) -> bool {
    order.contains(key.0) && crate::exts::ext_allowed(allowed, key.1)
}

/// Positions of the wanted files, in scan order.
pub open spec fn matched_indices(
    order: Seq<Seq<char>>,
    allowed: Option<Seq<Seq<char>>>,
    keys: Seq<(Seq<char>, Seq<char>)>,
) -> Seq<int>
    decreases keys.len(),
{
    if keys.len() == 0 {
        Seq::empty()
    } else {
        let prev = matched_indices(order, allowed, keys.drop_last());
        if key_matches(order, allowed, keys.last()) {
            prev.push(keys.len() - 1)
        } else {
            prev
        }
    }
}

/// How many files match the requested name `name`.
pub open spec fn match_count(
    name: Seq<char>,
    allowed: Option<Seq<Seq<char>>>,
    keys: Seq<(Seq<char>, Seq<char>)>,
) -> nat
    decreases keys.len(),
{
    if keys.len() == 0 {
        0
    } else {
        match_count(name, allowed, keys.drop_last()) + if keys.last().0 == name
            && crate::exts::ext_allowed(allowed, keys.last().1) {
            1nat
        } else {
            0nat
        }
    }
}

/// What a scan found: for each requested name, how many files matched it,
/// and the positions of all matching files.
pub struct ScanMatches {
    pub counts: Vec<usize>,
    pub matched: Vec<usize>,
}

/// Matches scanned files, given by their (lowercased stem, lowercased
/// extension) in scan order, against the requested names `order` and the
/// extensions `allowed`.
pub fn match_keys(
    order: &Vec<String>,
    allowed: &Option<Vec<String>>,
    keys: &Vec<(String, String)>,
) -> (r: ScanMatches)
    requires
        distinct(crate::request::views(order@)),
    ensures
        r.counts@.len() == order@.len(),
        forall|j: int|
            0 <= j < order@.len() ==> r.counts@[j] == match_count(
                order@[j]@,
                crate::exts::opt_views(*allowed),
                key_views(keys@),
            ),
        r.matched@.map_values(|i: usize| i as int) == matched_indices(
            crate::request::views(order@),
            crate::exts::opt_views(*allowed),
            key_views(keys@),
        ),
{
    let ghost ord = crate::request::views(order@);
    let ghost al = crate::exts::opt_views(*allowed);
    let ghost ks = key_views(keys@);
    let mut counts: Vec<usize> = Vec::new();
    let mut j: usize = 0;
    while j < order.len()
        invariant
            j <= order@.len(),
            counts@.len() == j,
            forall|k: int| 0 <= k < j ==> counts@[k] == 0,
        decreases order@.len() - j,
    {
        counts.push(0);
        j += 1;
    }
    let mut matched: Vec<usize> = Vec::new();
    let mut i: usize = 0;
    while i < keys.len()
        invariant
            i <= keys@.len(),
            ord == crate::request::views(order@),
            al == crate::exts::opt_views(*allowed),
            ks == key_views(keys@),
            distinct(ord),
            counts@.len() == order@.len(),
            forall|k: int|
                0 <= k < order@.len() ==> counts@[k] == match_count(
                    order@[k]@,
                    al,
                    ks.take(i as int),
                ) && counts@[k] <= i,
            matched@.map_values(|x: usize| x as int) == matched_indices(ord, al, ks.take(i as int)),
        decreases keys@.len() - i,
    {
        let ghost part = ks.take(i + 1);
        assert(part.drop_last() =~= ks.take(i as int));
        assert(part.last() == (keys@[i as int].0@, keys@[i as int].1@));
        let stem = &keys[i].0;
        let ext = &keys[i].1;
        let ghost before = matched@;
        match position_of(order, stem) {
            Some(p) => {
                assert(ord[p as int] == stem@);
                assert(ord.contains(stem@));
                if ext_ok(allowed, ext.as_str()) {
                    let c = counts[p] + 1;
                    counts.set(p, c);
                    matched.push(i);
                    assert(matched@.map_values(|x: usize| x as int) =~= before.map_values(
                        |x: usize| x as int,
                    ).push(i as int));
                    assert forall|k: int| 0 <= k < order@.len() implies counts@[k] == match_count(
                        order@[k]@,
                        al,
                        part,
                    ) && counts@[k] <= i + 1 by {
                        if k != p {
                            assert(ord[k] != ord[p as int]);
                        }
                    }
                } else {
                    assert forall|k: int| 0 <= k < order@.len() implies counts@[k] == match_count(
                        order@[k]@,
                        al,
                        part,
                    ) && counts@[k] <= i + 1 by {}
                }
            },
            None => {
                assert forall|k: int| 0 <= k < order@.len() implies counts@[k] == match_count(
                    order@[k]@,
                    al,
                    part,
                ) && counts@[k] <= i + 1 by {
                    assert(ord[k] == order@[k]@);
                }
            },
        }
        i += 1;
    }
    assert(ks.take(keys@.len() as int) =~= ks);
    ScanMatches { counts, matched }
}

/// Matches the scanned files (their names or paths, in scan order) against
/// the requested names `order` and the extensions `allowed`: a file matches
/// a name when its lowercased stem is that name and its lowercased extension
/// is let through.
pub fn match_files(
    order: &Vec<String>,
    allowed: &Option<Vec<String>>,
    files: &Vec<String>,
    style: crate::path::PathStyle,
) -> (r: ScanMatches)
    requires
        distinct(crate::request::views(order@)),
    ensures
        r.counts@.len() == order@.len(),
        forall|j: int|
            0 <= j < order@.len() ==> r.counts@[j] == match_count(
                order@[j]@,
                crate::exts::opt_views(*allowed),
                file_keys(crate::request::views(files@), style),
            ),
        r.matched@.map_values(|i: usize| i as int) == matched_indices(
            crate::request::views(order@),
            crate::exts::opt_views(*allowed),
            file_keys(crate::request::views(files@), style),
        ),
{
    let mut keys: Vec<(String, String)> = Vec::new();
    let mut i: usize = 0;
    while i < files.len()
        invariant
            i <= files@.len(),
            key_views(keys@) == file_keys(crate::request::views(files@), style).take(i as int),
        decreases files@.len() - i,
    {
        let ghost before = keys@;
        let k = stem_and_ext(files[i].as_str(), style);
        keys.push(k);
        assert(key_views(keys@) =~= key_views(before).push(
            (
                crate::path::stem_key(files@[i as int]@, style),
                crate::path::ext_key(files@[i as int]@, style),
            ),
        ));
        assert(file_keys(crate::request::views(files@), style).take(i + 1) =~= file_keys(
            crate::request::views(files@),
            style,
        ).take(i as int).push(
            (
                crate::path::stem_key(files@[i as int]@, style),
                crate::path::ext_key(files@[i as int]@, style),
            ),
        ));
        i += 1;
    }
    assert(file_keys(crate::request::views(files@), style).take(files@.len() as int) =~= file_keys(
        crate::request::views(files@),
        style,
    ));
    match_keys(order, allowed, &keys)
}

/// Depth limit for the folder scan: unbounded when subfolders are included,
/// otherwise only the entries directly in the source folder.
pub fn scan_depth(recursive: bool) -> (d: usize)
    ensures
        d == (if recursive { usize::MAX } else { 1 }),
{
    if recursive {
        usize::MAX
    } else {
        1
    }
}

} // verus!
