use vstd::prelude::*;

use crate::request::FilterRequest;
use crate::text::{same_text, strip_leading_dots, to_lowercase, trim};

verus! {

/// Extensions of JPEG files.
pub open spec fn jpg_exts() -> Seq<Seq<char>> {
    seq!["jpg"@, "jpeg"@, "jpe"@, "jfif"@]
}

/// Common camera RAW extensions.
pub open spec fn raw_exts() -> Seq<Seq<char>> {
    seq![
        "nef"@, "cr2"@, "cr3"@, "arw"@, "raf"@, "orf"@, "rw2"@, "dng"@, "pef"@, "srw"@, "x3f"@,
        "raw"@, "rwl"@, "nrw"@, "kdc"@, "dcr"@, "mrw"@, "3fr"@, "mef"@, "iiq"@, "gpr"@,
    ]
}

fn jpg_list() -> (v: Vec<String>)
    ensures
        crate::request::views(v@) == jpg_exts(),
{
    let mut v: Vec<String> = Vec::new();
    v.push("jpg".to_owned());
    v.push("jpeg".to_owned());
    v.push("jpe".to_owned());
    v.push("jfif".to_owned());
    assert(crate::request::views(v@) =~= jpg_exts());
    v
}

fn raw_list() -> (v: Vec<String>)
    ensures
        crate::request::views(v@) == raw_exts(),
{
    let mut v: Vec<String> = Vec::new();
    v.push("nef".to_owned());
    v.push("cr2".to_owned());
    v.push("cr3".to_owned());
    v.push("arw".to_owned());
    v.push("raf".to_owned());
    v.push("orf".to_owned());
    v.push("rw2".to_owned());
    v.push("dng".to_owned());
    v.push("pef".to_owned());
    v.push("srw".to_owned());
    v.push("x3f".to_owned());
    v.push("raw".to_owned());
    v.push("rwl".to_owned());
    v.push("nrw".to_owned());
    v.push("kdc".to_owned());
    v.push("dcr".to_owned());
    v.push("mrw".to_owned());
    v.push("3fr".to_owned());
    v.push("mef".to_owned());
    v.push("iiq".to_owned());
    v.push("gpr".to_owned());
    assert(crate::request::views(v@) =~= raw_exts());
    v
}

/// A user-typed extension as it is compared: trimmed, leading dots removed,
/// lowercased.
pub open spec fn custom_key(e: Seq<char>) -> Seq<char> {
    crate::text::lowered(crate::text::without_leading_dots(crate::text::trimmed(e)))
}

/// The user-typed extensions, normalised, with the empty ones left out.
pub open spec fn custom_list(es: Seq<Seq<char>>) -> Seq<Seq<char>>
    decreases es.len(),
{
    if es.len() == 0 {
        Seq::empty()
    } else {
        let prev = custom_list(es.drop_last());
        let k = custom_key(es.last());
        if k.len() > 0 {
            prev.push(k)
        } else {
            prev
        }
    }
}

/// The extensions a mode lets through; `None` lets every extension through
/// ("all", and any mode not listed).
pub open spec fn ext_policy(mode: Seq<char>, custom: Seq<Seq<char>>) -> Option<Seq<Seq<char>>> {
    if mode == "all"@ {
        None
    } else if mode == "jpg"@ {
        Some(jpg_exts())
    } else if mode == "raw"@ {
        Some(raw_exts())
    } else if mode == "raw_jpg"@ {
        Some(jpg_exts() + raw_exts())
    } else if mode == "custom"@ {
        Some(custom_list(custom))
    } else {
        None
    }
}

fn custom_exts_of(es: &Vec<String>) -> (v: Vec<String>)
    ensures
        crate::request::views(v@) == custom_list(crate::request::views(es@)),
{
    let mut v: Vec<String> = Vec::new();
    let mut i: usize = 0;
    while i < es.len()
        invariant
            i <= es@.len(),
            crate::request::views(v@) == custom_list(crate::request::views(es@).take(i as int)),
        decreases es@.len() - i,
    {
        let ghost part = crate::request::views(es@).take(i + 1);
        assert(part.drop_last() =~= crate::request::views(es@).take(i as int));
        assert(part.last() == es@[i as int]@);
        let t = trim(es[i].as_str());
        let d = strip_leading_dots(t.as_str());
        let k = to_lowercase(d.as_str());
        if !k.as_str().is_empty() {
            let ghost before = v@;
            let ghost kv = k@;
            v.push(k);
            assert(crate::request::views(v@) =~= crate::request::views(before).push(kv));
        }
        i += 1;
    }
    assert(crate::request::views(es@).take(es@.len() as int) =~= crate::request::views(es@));
    v
}

/// The extensions the request lets through (lowercase, without the dot);
/// `None` means every extension.
pub fn allowed_exts(req: &FilterRequest) -> (r: Option<Vec<String>>)
    ensures
        match r {
            None => ext_policy(req.ext_mode@, crate::request::views(req.custom_exts@)) is None,
            Some(v) => ext_policy(req.ext_mode@, crate::request::views(req.custom_exts@)) == Some(
                crate::request::views(v@),
            ),
        },
{
    let mode = req.ext_mode.as_str();
    if same_text(mode, "all") {
        None
    } else if same_text(mode, "jpg") {
        Some(jpg_list())
    } else if same_text(mode, "raw") {
        Some(raw_list())
    } else if same_text(mode, "raw_jpg") {
        let mut v = jpg_list();
        let mut raw = raw_list();
        v.append(&mut raw);
        assert(crate::request::views(v@) =~= jpg_exts() + raw_exts());
        Some(v)
    } else if same_text(mode, "custom") {
        Some(custom_exts_of(&req.custom_exts))
    } else {
        None
    }
}

/// Whether an extension is let through.
pub open spec fn ext_allowed(allowed: Option<Seq<Seq<char>>>, ext: Seq<char>) -> bool {
    match allowed {
        None => true,
        Some(list) => list.contains(ext),
    }
}

/// The view of an optional list of strings.
pub open spec fn opt_views(o: Option<Vec<String>>) -> Option<Seq<Seq<char>>> {
    match o {
        None => None,
        Some(v) => Some(crate::request::views(v@)),
    }
}

/// Whether `list` holds a string with the characters of `key`.
pub fn contains_text(list: &Vec<String>, key: &str) -> (r: bool)
    ensures
        r == crate::request::views(list@).contains(key@),
{
    let mut i: usize = 0;
    while i < list.len()
        invariant
            i <= list@.len(),
            forall|j: int| 0 <= j < i ==> list@[j]@ != key@,
        decreases list@.len() - i,
    {
        if same_text(list[i].as_str(), key) {
            assert(crate::request::views(list@)[i as int] == key@);
            return true;
        }
        i += 1;
    }
    assert(!crate::request::views(list@).contains(key@)) by {
        if crate::request::views(list@).contains(key@) {
            let j = choose|j: int| 0 <= j < list@.len() && crate::request::views(list@)[j] == key@;
            assert(list@[j]@ == key@);
        }
    }
    false
}

/// Whether `ext` is let through by `allowed` (`None`: everything).
pub fn ext_ok(allowed: &Option<Vec<String>>, ext: &str) -> (r: bool)
    ensures
        r == ext_allowed(opt_views(*allowed), ext@),
{
    match allowed {
        None => true,
        Some(list) => contains_text(list, ext),
    }
}

} // verus!
