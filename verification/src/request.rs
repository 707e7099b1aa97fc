use vstd::prelude::*;

use crate::path::stem_and_ext;
use crate::text::trim;

verus! {

/// What the user asks for: where to look, where to copy, which names, which
/// extensions, and how to treat names already taken in the destination.
pub struct FilterRequest {
    pub source: String,
    pub dest: String,
    /// Raw lines as typed (with or without an extension).
    pub names: Vec<String>,
    /// "all" | "jpg" | "raw" | "raw_jpg" | "custom"
    pub ext_mode: String,
    /// Used when `ext_mode` is "custom" (e.g. ["jpg", "png"]).
    pub custom_exts: Vec<String>,
    /// Whether subfolders are scanned too.
    pub recursive: bool,
    /// "skip" | "rename" | "overwrite"
    pub on_conflict: String,
    /// Only count matches, copy nothing.
    pub dry_run: bool,
}

/// The characters of each string.
pub open spec fn views(v: Seq<String>) -> Seq<Seq<char>> {
    v.map_values(|s: String| s@)
}

/// Why a request is refused.
pub enum FilterError {
    /// The source folder is blank or is not a folder.
    InvalidSource,
    /// No destination folder was given for a real copy.
    MissingDest,
    /// The destination folder could not be created (with the system's reason).
    CreateDest(String),
    /// No line of the name list holds a usable name.
    EmptyNames,
}

/// The requested base names, in the order they were first typed: each line
/// is trimmed, blank lines are skipped, the line's stem (its extension, if
/// any, dropped) is lowercased, empty stems are skipped, and a stem already
/// requested is not requested again.
pub open spec fn requested_stems(lines: Seq<Seq<char>>, style: crate::path::PathStyle) -> Seq<Seq<char>>
    decreases lines.len(),
{
    if lines.len() == 0 {
        Seq::empty()
    } else {
        let prev = requested_stems(lines.drop_last(), style);
        let t = crate::text::trimmed(lines.last());
        if t.len() == 0 {
            prev
        } else {
            with_key(prev, crate::path::stem_key(t, style))
        }
    }
}

/// The requested names after `key` is offered: an empty or already
/// requested key changes nothing, any other is added at the end.
pub open spec fn with_key(order: Seq<Seq<char>>, key: Seq<char>) -> Seq<Seq<char>> {
    if key.len() == 0 || order.contains(key) {
        order
    } else {
        order.push(key)
    }
}

/// Every requested name is non-empty and none is requested twice.
pub proof fn lemma_requested_stems_distinct(lines: Seq<Seq<char>>, style: crate::path::PathStyle)
    ensures
        crate::matching::distinct(requested_stems(lines, style)),
        forall|i: int|
            0 <= i < requested_stems(lines, style).len() ==> #[trigger] requested_stems(lines, style)[i].len() > 0,
    decreases lines.len(),
{
    if lines.len() > 0 {
        lemma_requested_stems_distinct(lines.drop_last(), style);
    }
}

/// Position of `key` in `list`, if it is there (the first one).
pub fn position_of(list: &Vec<String>, key: &String) -> (r: Option<usize>)
    ensures
        match r {
            Some(i) => i < list@.len() && list@[i as int]@ == key@ && forall|j: int|
                0 <= j < i ==> list@[j]@ != key@,
            None => !views(list@).contains(key@),
        },
{
    let mut i: usize = 0;
    while i < list.len()
        invariant
            i <= list@.len(),
            forall|j: int| 0 <= j < i ==> list@[j]@ != key@,
        decreases list@.len() - i,
    {
        if list[i] == *key {
            return Some(i);
        }
        i += 1;
    }
    assert(!views(list@).contains(key@)) by {
        if views(list@).contains(key@) {
            let j = choose|j: int| 0 <= j < views(list@).len() && views(list@)[j] == key@;
            assert(list@[j]@ == key@);
        }
    }
    None
}

/// Offers one lowercased stem to the requested names (see `with_key`).
pub fn add_requested(order: &mut Vec<String>, key: String)
    ensures
        views(final(order)@) == with_key(views(old(order)@), key@),
{
    if key.as_str().is_empty() {
        return;
    }
    match position_of(order, &key) {
        Some(p) => {
            assert(views(order@)[p as int] == key@);
            assert(views(order@).contains(key@));
        },
        None => {
            let ghost before = order@;
            let ghost kv = key@;
            order.push(key);
            assert(views(order@) =~= views(before).push(kv));
        },
    }
}

/// The requested base names (see `requested_stems`), with `style` the
/// platform's path rules; refused with
/// `EmptyNames` when there is none.
pub fn collect_requested(names: &Vec<String>, style: crate::path::PathStyle) -> (r: Result<
    Vec<String>,
    FilterError,
>)
    ensures
        match r {
            Ok(order) => views(order@) == requested_stems(views(names@), style) && order@.len() > 0
                && crate::matching::distinct(views(order@)),
            Err(e) => e is EmptyNames && requested_stems(views(names@), style).len() == 0,
        },
{
    let mut order: Vec<String> = Vec::new();
    let mut i: usize = 0;
    while i < names.len()
        invariant
            i <= names@.len(),
            views(order@) == requested_stems(views(names@).take(i as int), style),
        decreases names@.len() - i,
    {
        let ghost lines = views(names@).take(i + 1);
        assert(lines.drop_last() =~= views(names@).take(i as int));
        assert(lines.last() == names@[i as int]@);
        let line = trim(names[i].as_str());
        if !line.as_str().is_empty() {
            let (stem, _ext) = stem_and_ext(line.as_str(), style);
            add_requested(&mut order, stem);
        }
        i += 1;
    }
    assert(views(names@).take(names@.len() as int) =~= views(names@));
    proof {
        lemma_requested_stems_distinct(views(names@), style);
    }
    if order.len() == 0 {
        return Err(FilterError::EmptyNames);
    }
    Ok(order)
}

/// The message shown for a refused request.
pub open spec fn error_message(e: FilterError) -> Seq<char> {
    match e {
        FilterError::InvalidSource => "Thư mục nguồn không hợp lệ."@,
        FilterError::MissingDest => "Chưa chọn thư mục đích."@,
        FilterError::CreateDest(reason) => "Không tạo được thư mục đích: "@ + reason@,
        FilterError::EmptyNames => "Danh sách tên ảnh đang trống."@,
    }
}

impl FilterError {
    pub fn message(&self) -> (m: String)
        ensures
            m@ == error_message(*self),
    {
        match self {
            FilterError::InvalidSource => "Thư mục nguồn không hợp lệ.".to_owned(),
            FilterError::MissingDest => "Chưa chọn thư mục đích.".to_owned(),
            FilterError::CreateDest(reason) => {
                let mut m = "Không tạo được thư mục đích: ".to_owned();
                m.append(reason.as_str());
                m
            },
            FilterError::EmptyNames => "Danh sách tên ảnh đang trống.".to_owned(),
        }
    }
}

/// The checks made before anything is scanned: the source must be a
/// non-blank path of a folder, and a real copy needs a non-blank destination.
pub open spec fn request_check(
    source: Seq<char>,
    dest: Seq<char>,
    dry_run: bool,
    source_is_dir: bool,
) -> Result<(), FilterError> {
    if crate::text::trimmed(source).len() == 0 || !source_is_dir {
        Err(FilterError::InvalidSource)
    } else if !dry_run && crate::text::trimmed(dest).len() == 0 {
        Err(FilterError::MissingDest)
    } else {
        Ok(())
    }
}

/// Checks the request's folders; `source_is_dir` says whether the source
/// path names an existing folder.
pub fn check_request(req: &FilterRequest, source_is_dir: bool) -> (r: Result<(), FilterError>)
    ensures
        r == request_check(req.source@, req.dest@, req.dry_run, source_is_dir),
{
    let source = trim(req.source.as_str());
    if source.as_str().is_empty() || !source_is_dir {
        return Err(FilterError::InvalidSource);
    }
    if !req.dry_run {
        let dest = trim(req.dest.as_str());
        if dest.as_str().is_empty() {
            return Err(FilterError::MissingDest);
        }
    }
    Ok(())
}

} // verus!
