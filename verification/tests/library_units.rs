use std::path::Path;

use mphotopicker::exts::{allowed_exts, contains_text, ext_ok};
use mphotopicker::matching::{match_files, match_keys, scan_depth};
use mphotopicker::outcome::{
    conflict_policy, decide_action, scan_finished, summarize, ConflictPolicy, CopyAction, CopyPlan,
    CopyTally, FileOutcome, Phase, ProgressEvent,
};
use mphotopicker::path::{candidate, stem_and_ext, unique_dest, PathStyle};

const U: PathStyle = PathStyle::Unix;
const W: PathStyle = PathStyle::Windows;
use mphotopicker::request::{
    add_requested, check_request, collect_requested, position_of, FilterError, FilterRequest,
};
use mphotopicker::text::{
    chars_of, push_decimal, same_text, string_of, strip_leading_dots, trim, white_space,
};

fn strings(v: &[&str]) -> Vec<String> {
    v.iter().map(|s| s.to_string()).collect()
}

fn request(ext_mode: &str, custom: &[&str]) -> FilterRequest {
    FilterRequest {
        source: "src".to_string(),
        dest: "dst".to_string(),
        names: vec![],
        ext_mode: ext_mode.to_string(),
        custom_exts: strings(custom),
        recursive: false,
        on_conflict: "rename".to_string(),
        dry_run: false,
    }
}

fn pair(a: &str, b: &str) -> (String, String) {
    (a.to_string(), b.to_string())
}

#[test]
fn stem_and_ext_lowercases_both_parts() {
    assert_eq!(stem_and_ext("DSC_0001.JPG", U), pair("dsc_0001", "jpg"));
    assert_eq!(stem_and_ext("dsc_0001", U), pair("dsc_0001", ""));
    assert_eq!(stem_and_ext("Photos/Trip/IMG_2451.HEIC", U), pair("img_2451", "heic"));
}

#[test]
fn stem_and_ext_follows_path_rules() {
    assert_eq!(stem_and_ext("archive.tar.gz", U), pair("archive.tar", "gz"));
    assert_eq!(stem_and_ext(".bashrc", U), pair(".bashrc", ""));
    assert_eq!(stem_and_ext("..hidden.jpg", U), pair("..hidden", "jpg"));
    assert_eq!(stem_and_ext("name.", U), pair("name", ""));
    assert_eq!(stem_and_ext("foo.txt/.", U), pair("foo", "txt"));
    assert_eq!(stem_and_ext("dir/sub/", U), pair("sub", ""));
    assert_eq!(stem_and_ext("a/..", U), pair("", ""));
    assert_eq!(stem_and_ext("..", U), pair("", ""));
    assert_eq!(stem_and_ext(".", U), pair("", ""));
    assert_eq!(stem_and_ext("/", U), pair("", ""));
    assert_eq!(stem_and_ext("", U), pair("", ""));
}

#[test]
fn stem_and_ext_agrees_with_std_path() {
    let cases = [
        "a", "a.b", "a.b.c", ".a", ".a.b", "a.", "..a", "a..b", "/a/b.c", "a/b/", "a/./", "./a",
        "a/./b.C", "//x//y.Z//", "a/b/..", "./", "x/.", "é.JPG", "DSC 0001 .Jpeg", "a/.b/c",
    ];
    for c in cases {
        let p = Path::new(c);
        let stem = p.file_stem().and_then(|s| s.to_str()).unwrap_or("").to_lowercase();
        let ext = p.extension().and_then(|s| s.to_str()).unwrap_or("").to_lowercase();
        assert_eq!(stem_and_ext(c, U), (stem, ext), "path {c:?}");
    }
}

#[test]
fn white_space_agrees_with_std() {
    for u in 0u32..=0x10ffff {
        if let Some(c) = char::from_u32(u) {
            assert_eq!(white_space(c), c.is_whitespace(), "char {u:#x}");
        }
    }
}

#[test]
fn trim_agrees_with_std() {
    let cases = ["", "  ", " a ", "\t\nDSC_0001.jpg\r\n", "\u{3000}x\u{00a0}", "a b", "\u{200b}a"];
    for c in cases {
        assert_eq!(trim(c), c.trim(), "{c:?}");
    }
}

#[test]
fn strip_leading_dots_removes_every_leading_dot() {
    assert_eq!(strip_leading_dots("..jpg"), "jpg");
    assert_eq!(strip_leading_dots("jpg."), "jpg.");
    assert_eq!(strip_leading_dots("..."), "");
    assert_eq!(strip_leading_dots(""), "");
}

#[test]
fn text_helpers() {
    assert!(same_text("raw_jpg", "raw_jpg"));
    assert!(!same_text("raw", "raw_jpg"));
    assert!(!same_text("Raw", "raw"));
    let cs = chars_of("héllo");
    assert_eq!(cs, vec!['h', 'é', 'l', 'l', 'o']);
    assert_eq!(string_of(&cs, 1, 4), "éll");
    let mut s = String::from("n=");
    push_decimal(&mut s, 0);
    push_decimal(&mut s, 4096);
    assert_eq!(s, "n=04096");
    let mut m = String::new();
    push_decimal(&mut m, u32::MAX);
    assert_eq!(m, u32::MAX.to_string());
}

#[test]
fn allowed_exts_per_mode() {
    assert_eq!(allowed_exts(&request("all", &[])), None);
    assert_eq!(allowed_exts(&request("something", &[])), None);
    assert_eq!(allowed_exts(&request("jpg", &[])), Some(strings(&["jpg", "jpeg", "jpe", "jfif"])));
    let raw = allowed_exts(&request("raw", &[])).unwrap();
    assert_eq!(raw.len(), 21);
    assert_eq!(raw[0], "nef");
    assert_eq!(raw[20], "gpr");
    let both = allowed_exts(&request("raw_jpg", &[])).unwrap();
    assert_eq!(both.len(), 25);
    assert_eq!(&both[..4], &strings(&["jpg", "jpeg", "jpe", "jfif"])[..]);
    assert_eq!(&both[4..], &raw[..]);
}

#[test]
fn custom_exts_are_normalised() {
    let got = allowed_exts(&request("custom", &[" .PNG ", "", "..", "Tiff", "  "]));
    assert_eq!(got, Some(strings(&["png", "tiff"])));
}

#[test]
fn ext_ok_checks_membership() {
    assert!(ext_ok(&None, "anything"));
    let list = Some(strings(&["jpg", "png"]));
    assert!(ext_ok(&list, "png"));
    assert!(!ext_ok(&list, "nef"));
    assert!(!ext_ok(&Some(vec![]), "jpg"));
    assert!(contains_text(&strings(&["a", "b"]), "b"));
    assert!(!contains_text(&strings(&["a", "b"]), "c"));
}

#[test]
fn collect_requested_dedups_in_order() {
    let names = strings(&["  DSC_0002.jpg ", "", "dsc_0001", "DSC_0001.NEF", "  ", "img_1.PNG", "dsc_0002"]);
    let order = collect_requested(&names, U).ok().unwrap();
    assert_eq!(order, strings(&["dsc_0002", "dsc_0001", "img_1"]));
}

#[test]
fn collect_requested_refuses_an_empty_list() {
    assert!(matches!(collect_requested(&strings(&[]), U), Err(FilterError::EmptyNames)));
    assert!(matches!(collect_requested(&strings(&["  ", "\t", ".."]), U), Err(FilterError::EmptyNames)));
}

#[test]
fn position_of_finds_the_first() {
    let list = strings(&["a", "b", "a"]);
    assert_eq!(position_of(&list, &"a".to_string()), Some(0));
    assert_eq!(position_of(&list, &"b".to_string()), Some(1));
    assert_eq!(position_of(&list, &"c".to_string()), None);
}

#[test]
fn check_request_errors() {
    let mut r = request("all", &[]);
    assert!(check_request(&r, true).is_ok());
    assert!(matches!(check_request(&r, false), Err(FilterError::InvalidSource)));
    r.source = "   ".to_string();
    assert!(matches!(check_request(&r, true), Err(FilterError::InvalidSource)));
    r.source = "src".to_string();
    r.dest = " ".to_string();
    assert!(matches!(check_request(&r, true), Err(FilterError::MissingDest)));
    r.dry_run = true;
    assert!(check_request(&r, true).is_ok());
}

#[test]
fn error_messages() {
    assert_eq!(FilterError::InvalidSource.message(), "Thư mục nguồn không hợp lệ.");
    assert_eq!(FilterError::MissingDest.message(), "Chưa chọn thư mục đích.");
    assert_eq!(
        FilterError::CreateDest("denied".to_string()).message(),
        "Không tạo được thư mục đích: denied"
    );
    assert_eq!(FilterError::EmptyNames.message(), "Danh sách tên ảnh đang trống.");
}

#[test]
fn match_files_counts_and_positions() {
    let order = strings(&["dsc_0001", "dsc_0002", "nope"]);
    let files = strings(&["DSC_0001.JPG", "DSC_0001.NEF", "readme.txt", "dsc_0002.jpg", "DSC_0001.jpeg"]);
    let all = match_files(&order, &None, &files, U);
    assert_eq!(all.counts, vec![3, 1, 0]);
    assert_eq!(all.matched, vec![0, 1, 3, 4]);
    let jpg = match_files(&order, &Some(strings(&["jpg"])), &files, U);
    assert_eq!(jpg.counts, vec![1, 1, 0]);
    assert_eq!(jpg.matched, vec![0, 3]);
}

#[test]
fn scan_depth_values() {
    assert_eq!(scan_depth(true), usize::MAX);
    assert_eq!(scan_depth(false), 1);
}

#[test]
fn conflict_policy_and_actions() {
    assert_eq!(conflict_policy("skip"), ConflictPolicy::Skip);
    assert_eq!(conflict_policy("overwrite"), ConflictPolicy::Overwrite);
    assert_eq!(conflict_policy("rename"), ConflictPolicy::Rename);
    assert_eq!(conflict_policy("whatever"), ConflictPolicy::Rename);
    for p in [ConflictPolicy::Skip, ConflictPolicy::Rename, ConflictPolicy::Overwrite] {
        assert_eq!(decide_action(true, p, true), CopyPlan::Preview);
        assert_eq!(decide_action(true, p, false), CopyPlan::Preview);
        assert_eq!(decide_action(false, p, false), CopyPlan::Write(CopyAction::Copied));
    }
    assert_eq!(decide_action(false, ConflictPolicy::Skip, true), CopyPlan::Skip);
    assert_eq!(
        decide_action(false, ConflictPolicy::Overwrite, true),
        CopyPlan::Write(CopyAction::Overwritten)
    );
    assert_eq!(
        decide_action(false, ConflictPolicy::Rename, true),
        CopyPlan::Write(CopyAction::Renamed)
    );
    assert_eq!(CopyAction::Copied.label(), "copied");
    assert_eq!(CopyAction::Renamed.label(), "renamed");
    assert_eq!(CopyAction::Skipped.label(), "skipped");
    assert_eq!(CopyAction::Overwritten.label(), "overwritten");
}

#[test]
fn candidate_names() {
    assert_eq!(candidate("DSC_0002.jpg", 0, U), "DSC_0002.jpg");
    assert_eq!(candidate("DSC_0002.jpg", 1, U), "DSC_0002_1.jpg");
    assert_eq!(candidate("DSC_0002.jpg", 12, U), "DSC_0002_12.jpg");
    assert_eq!(candidate("README", 3, U), "README_3");
    assert_eq!(candidate(".bashrc", 2, U), ".bashrc_2");
    assert_eq!(candidate("a.tar.gz", 1, U), "a.tar_1.gz");
    assert_eq!(candidate("..", 1, U), ".._1");
}

#[test]
fn unique_dest_takes_the_first_free_name() {
    let taken = ["x.jpg", "x_1.jpg", "x_2.jpg"];
    assert_eq!(unique_dest("x.jpg", U, |n: &str| taken.contains(&n)), Some("x_3.jpg".to_string()));
    assert_eq!(unique_dest("y.jpg", U, |n: &str| taken.contains(&n)), Some("y.jpg".to_string()));
}

fn written(name: &str, action: CopyAction) -> FileOutcome {
    FileOutcome::Written { final_name: name.to_string(), action }
}

fn copy_event(done: usize, total: usize) -> Option<ProgressEvent> {
    Some(ProgressEvent { phase: Phase::Copy, done, total })
}

#[test]
fn tally_counts_skips_and_bytes() {
    let mut t = CopyTally::new(false);
    let s = |x: &str| x.to_string();
    assert_eq!(t.record_file(0, 5, s("a.jpg"), s("a.jpg"), 10, written("a.jpg", CopyAction::Copied)), copy_event(1, 5));
    assert_eq!(t.record_file(1, 5, s("b.jpg"), s("b.jpg"), 20, FileOutcome::Skipped), copy_event(2, 5));
    assert_eq!(t.record_file(2, 5, s("c.jpg"), s("sub/c.jpg"), 30, written("c_1.jpg", CopyAction::Renamed)), copy_event(3, 5));
    assert_eq!(t.record_file(3, 5, s("d.jpg"), s("d.jpg"), 40, written("d.jpg", CopyAction::Overwritten)), copy_event(4, 5));
    assert_eq!(
        t.record_file(4, 5, s("e.jpg"), s("e.jpg"), 50, FileOutcome::Failed { reason: s("denied") }),
        copy_event(5, 5)
    );
    t.record_scan_error(s("permission denied"));
    assert_eq!(t.skipped_count, 1);
    assert_eq!(t.total_bytes, 80);
    assert_eq!(t.copied.len(), 4);
    assert_eq!(t.copied[1].action, CopyAction::Skipped);
    assert_eq!(t.copied[2].file_name, "c_1.jpg");
    assert_eq!(t.copied[2].rel_path, "sub/c.jpg");
    assert_eq!(t.errors, strings(&["Lỗi chép e.jpg: denied", "Lỗi đọc: permission denied"]));
}

#[test]
fn dry_run_tally_records_copied_without_bytes_or_events() {
    let mut t = CopyTally::new(true);
    assert_eq!(t.record_file(0, 2, "a.jpg".to_string(), "a.jpg".to_string(), 9, FileOutcome::Previewed), None);
    assert_eq!(t.record_file(1, 2, "a.nef".to_string(), "a.nef".to_string(), 9, FileOutcome::Previewed), None);
    assert_eq!(t.total_bytes, 0);
    assert_eq!(t.skipped_count, 0);
    assert!(t.copied.iter().all(|c| c.action == CopyAction::Copied));
    assert_eq!(scan_finished(2), ProgressEvent { phase: Phase::Scan, done: 2, total: 2 });
    assert_eq!(Phase::Scan.label(), "scan");
    assert_eq!(Phase::Copy.label(), "copy");
}

#[test]
fn summarize_builds_the_report() {
    let order = strings(&["a", "b", "c"]);
    let mut t = CopyTally::new(false);
    t.record_file(0, 2, "a.jpg".to_string(), "a.jpg".to_string(), 5, written("a.jpg", CopyAction::Copied));
    t.record_file(1, 2, "a.nef".to_string(), "a.nef".to_string(), 7, FileOutcome::Skipped);
    let r = summarize(&order, &vec![2, 0, 0], t, 2);
    assert_eq!(r.requested, 3);
    assert_eq!(r.matched_names, 1);
    assert_eq!(r.not_found, strings(&["b", "c"]));
    assert_eq!(r.copied_count, 1);
    assert_eq!(r.skipped_count, 1);
    assert_eq!(r.total_bytes, 5);
    assert_eq!(r.names.len(), 3);
    assert_eq!(r.names[0].name, "a");
    assert_eq!(r.names[0].count, 2);
    assert_eq!(r.names[2].count, 0);
    assert!(!r.dry_run);

    let mut d = CopyTally::new(true);
    d.record_file(0, 1, "a.jpg".to_string(), "a.jpg".to_string(), 5, FileOutcome::Previewed);
    let dry = summarize(&strings(&["a"]), &vec![1], d, 1);
    assert_eq!(dry.copied_count, 1);
    assert_eq!(dry.total_bytes, 0);
    assert_eq!(dry.copied[0].action.label(), "copied");
    assert!(dry.dry_run);
}

#[test]
fn law_report_every_name_matched_or_not_found() {
    let order = strings(&["a", "b", "c", "d"]);
    let r = summarize(&order, &vec![1, 0, 3, 0], CopyTally::new(false), 4);
    assert_eq!(r.matched_names + r.not_found.len(), r.requested);
}

#[test]
fn law_counts_add_up_to_matches() {
    let order = strings(&["p", "q"]);
    let files = strings(&["P.jpg", "q.nef", "r.jpg", "p.png", "Q"]);
    let m = match_files(&order, &None, &files, U);
    assert_eq!(m.counts.iter().sum::<usize>(), m.matched.len());
}

#[test]
fn law_renamed_name_differs() {
    for name in ["a.jpg", "a", ".a", "x/y.z", "..", ""] {
        for k in 1..20u32 {
            assert_ne!(candidate(name, k, U), name);
        }
    }
}

#[test]
fn law_jpg_and_raw_disjoint() {
    let jpg = allowed_exts(&request("jpg", &[])).unwrap();
    let raw = allowed_exts(&request("raw", &[])).unwrap();
    assert!(jpg.iter().all(|e| !raw.contains(e)));
}

#[test]
fn add_requested_skips_empty_and_known_keys() {
    let mut order = strings(&["a"]);
    add_requested(&mut order, "".to_string());
    assert_eq!(order, strings(&["a"]));
    add_requested(&mut order, "a".to_string());
    assert_eq!(order, strings(&["a"]));
    add_requested(&mut order, "B".to_string());
    assert_eq!(order, strings(&["a", "B"]));
}

#[test]
fn match_keys_uses_the_given_keys() {
    let order = strings(&["x", "y"]);
    let keys = vec![
        ("x".to_string(), "jpg".to_string()),
        ("X".to_string(), "jpg".to_string()),
        ("y".to_string(), "nef".to_string()),
        ("x".to_string(), "png".to_string()),
    ];
    let all = match_keys(&order, &None, &keys);
    assert_eq!(all.counts, vec![2, 1]);
    assert_eq!(all.matched, vec![0, 2, 3]);
    let jpg = match_keys(&order, &Some(strings(&["jpg"])), &keys);
    assert_eq!(jpg.counts, vec![1, 0]);
    assert_eq!(jpg.matched, vec![0]);
}

#[test]
fn law_every_usable_line_is_requested() {
    let names = strings(&[" A.jpg", "b", "  ", "c.d.e", "A.NEF"]);
    let order = collect_requested(&names, U).ok().unwrap();
    for n in ["a", "b", "c.d"] {
        assert!(order.contains(&n.to_string()));
    }
    let mut seen = order.clone();
    seen.sort();
    seen.dedup();
    assert_eq!(seen.len(), order.len());
}

#[test]
fn law_all_and_raw_jpg_modes() {
    for e in ["jpg", "nef", "png", "", "weird"] {
        assert!(ext_ok(&allowed_exts(&request("all", &[])), e));
    }
    let both = allowed_exts(&request("raw_jpg", &[]));
    let jpg = allowed_exts(&request("jpg", &[]));
    let raw = allowed_exts(&request("raw", &[]));
    for e in ["jpg", "jfif", "nef", "gpr", "png", "tif"] {
        assert_eq!(ext_ok(&both, e), ext_ok(&jpg, e) || ext_ok(&raw, e));
    }
}

#[test]
fn law_copied_and_skipped_partition() {
    let mut t = CopyTally::new(false);
    let s = |x: &str| x.to_string();
    t.record_file(0, 4, s("a"), s("a"), 1, written("a", CopyAction::Copied));
    t.record_file(1, 4, s("b"), s("b"), 2, FileOutcome::Skipped);
    t.record_file(2, 4, s("c"), s("c"), 4, FileOutcome::Skipped);
    t.record_file(3, 4, s("d"), s("d"), 8, written("d", CopyAction::Overwritten));
    let n = t.copied.len();
    let r = summarize(&strings(&["a"]), &vec![4], t, 4);
    assert_eq!(r.copied_count + r.skipped_count, n);
    assert_eq!(r.total_bytes, 9);
}

#[test]
fn windows_paths_split_on_both_separators() {
    assert_eq!(stem_and_ext("folder\\DSC_0001.jpg", W), pair("dsc_0001", "jpg"));
    assert_eq!(stem_and_ext("folder\\DSC_0001.jpg", U), pair("folder\\dsc_0001", "jpg"));
    assert_eq!(stem_and_ext("C:\\Photos\\IMG.NEF", W), pair("img", "nef"));
    assert_eq!(stem_and_ext("C:IMG.jpg", W), pair("img", "jpg"));
    assert_eq!(stem_and_ext("C:IMG.jpg", U), pair("c:img", "jpg"));
    assert_eq!(stem_and_ext("C:", W), pair("", ""));
    assert_eq!(stem_and_ext("a/b\\..", W), pair("", ""));
    assert_eq!(candidate("C:x.jpg", 1, W), "x_1.jpg");
    assert_eq!(candidate("dir\\x.jpg", 2, W), "x_2.jpg");
    assert_eq!(candidate("dir\\x.jpg", 2, U), "dir\\x_2.jpg");
}

#[test]
fn windows_prefixes_are_not_file_names() {
    assert_eq!(stem_and_ext(r"\\server\share\IMG.JPG", W), pair("img", "jpg"));
    assert_eq!(stem_and_ext(r"//server/share/x.png", W), pair("x", "png"));
    assert_eq!(stem_and_ext(r"\\server\share", W), pair("", ""));
    assert_eq!(stem_and_ext(r"\\server\share\", W), pair("", ""));
    assert_eq!(stem_and_ext(r"\\server", W), pair("server", ""));
    assert_eq!(stem_and_ext(r"\\.\COM1", W), pair("", ""));
    assert_eq!(stem_and_ext(r"\\.\pipe\Log.txt", W), pair("log", "txt"));
    assert_eq!(stem_and_ext(r"\\?\UNC\srv\share", W), pair("", ""));
    assert_eq!(stem_and_ext(r"\\?\UNC\srv\share\A.b", W), pair("a", "b"));
    assert_eq!(stem_and_ext(r"\\?\unc\srv\share", W), pair("share", ""));
    assert_eq!(stem_and_ext(r"\\?\C:\dir/IMG.jpg", W), pair("dir/img", "jpg"));
    assert_eq!(stem_and_ext(r"\\?\C:\x\.", W), pair("", ""));
    assert_eq!(stem_and_ext(r"C:\x\.", W), pair("x", ""));
    assert_eq!(stem_and_ext(r"\\?\cat.jpg", W), pair("", ""));
    assert_eq!(stem_and_ext(r"\\?\cat\Dog.JPG", W), pair("dog", "jpg"));
    assert_eq!(candidate(r"\\?\C:\a/b.jpg", 1, W), "a/b_1.jpg");
    assert_eq!(candidate(r"\\srv\share\p.jpg", 3, W), "p_3.jpg");
    assert_eq!(candidate(r"\\.\COM1", 1, W), r"\\.\COM1_1");
}

#[test]
fn law_candidates_distinct() {
    let names: Vec<String> = (0..200u32).map(|k| candidate("DSC_0001.jpg", k, U)).collect();
    let mut sorted = names.clone();
    sorted.sort();
    sorted.dedup();
    assert_eq!(sorted.len(), names.len());
    for k in 1..20u32 {
        assert_ne!(candidate("C:x.jpg", k, W), "C:x.jpg");
    }
}

#[test]
fn law_rename_suffix_bounded() {
    let taken = ["p.jpg", "p_1.jpg", "p_2.jpg", "other.jpg"];
    let got = unique_dest("p.jpg", U, |n: &str| taken.contains(&n)).unwrap();
    assert_eq!(got, "p_3.jpg");
    assert!(3 <= taken.len());
}

#[test]
fn law_ascii_case_insensitive() {
    for (a, b) in [("DSC_0001.JPG", "dsc_0001.jpg"), ("Trip/IMG.Nef", "trip/img.nEF"), (".BashRC", ".bashrc")] {
        assert_eq!(stem_and_ext(a, U), stem_and_ext(b, U));
        assert_eq!(stem_and_ext(a, W), stem_and_ext(b, W));
    }
    for (a, b) in [
        (r"\\SERVER\Share\A.JPG", r"\\server\share\a.jpg"),
        (r"\\?\C:\X\P.Nef", r"\\?\c:\x\p.nEF"),
        (r"\\?\UNC\Srv\S\Q.JPG", r"\\?\UNC\srv\s\q.jpg"),
    ] {
        assert_eq!(stem_and_ext(a, W), stem_and_ext(b, W));
    }
    // Only the `UNC` of a verbatim share prefix is read in this case.
    assert_ne!(stem_and_ext(r"\\?\UNC\srv\share", W), stem_and_ext(r"\\?\unc\srv\share", W));
}

#[test]
fn law_stem_and_ext_round_trip() {
    for p in ["DSC_0001.JPG", "a/B.tar.GZ", "NoExt", ".Hidden", "x/."] {
        let f = Path::new(p).file_name().unwrap().to_str().unwrap().to_lowercase();
        let (s, e) = stem_and_ext(p, U);
        assert!(!s.is_empty());
        assert!(!e.contains('.'));
        assert_eq!(s.to_lowercase(), s);
        assert_eq!(e.to_lowercase(), e);
        if Path::new(p).extension().is_some() {
            assert_eq!(f, format!("{s}.{e}"));
        } else {
            assert_eq!(f, s);
        }
    }
    assert_eq!(stem_and_ext("a/..", U), pair("", ""));
}

#[test]
fn law_custom_exts_normalised() {
    let got = allowed_exts(&request("custom", &["..JPG", " Png ", ".", "TIF."])).unwrap();
    assert_eq!(got, strings(&["jpg", "png", "tif."]));
    assert!(got.iter().all(|k| !k.is_empty() && !k.starts_with('.') && k.to_lowercase() == *k));
}
