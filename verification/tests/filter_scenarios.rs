//! The end-to-end scenarios of the photo filter, run over an in-memory model
//! of the source and destination folders: the library makes every decision,
//! the helper below only plays the part of the file system.

use std::collections::BTreeSet;

use mphotopicker::outcome::{FilterResult, Phase, ProgressEvent};
use mphotopicker::path::{unique_dest, PathStyle};
use mphotopicker::request::FilterRequest;
use mphotopicker::run::{Run, RunAction, ScanEntry};

/// A source folder: (path relative to the folder, content).
fn setup_source() -> Vec<(&'static str, &'static [u8])> {
    vec![
        ("DSC_0001.JPG", b"jpg1"),
        ("DSC_0001.NEF", b"raw-bytes-bigger"),
        ("DSC_0002.jpg", b"jpg2"),
        ("IMG_2451.png", b"png"),
        ("sub/DSC_0003.jpg", b"jpg3-in-sub"),
    ]
}

fn req(names: &[&str], ext_mode: &str, recursive: bool, dry: bool) -> FilterRequest {
    FilterRequest {
        source: "/photos/src".to_string(),
        dest: "/photos/dest".to_string(),
        names: names.iter().map(|s| s.to_string()).collect(),
        ext_mode: ext_mode.to_string(),
        custom_exts: vec![],
        recursive,
        on_conflict: "rename".to_string(),
        dry_run: dry,
    }
}

/// Runs a request against the model; `dest` holds the names in the
/// destination folder and receives the copies.
fn run(
    r: &FilterRequest,
    source: &[(&str, &[u8])],
    dest: &mut BTreeSet<String>,
) -> Result<FilterResult, String> {
    run_reporting(r, source, dest).0
}

/// `run`, also giving the progress reports sent, in order.
fn run_reporting(
    r: &FilterRequest,
    source: &[(&str, &[u8])],
    dest: &mut BTreeSet<String>,
) -> (Result<FilterResult, String>, Vec<ProgressEvent>) {
    let mut reports = Vec::new();
    let mut visible: Vec<(&str, &[u8])> = Vec::new();
    let name_of = |p: &str| p.rsplit('/').next().unwrap().to_string();
    let (mut machine, mut action) = Run::start(r, true, PathStyle::Unix);
    loop {
        let (next, step) = match action {
            RunAction::PrepareDest => machine.dest_prepared(Ok(())),
            RunAction::Scan { depth } => {
                visible = source
                    .iter()
                    .filter(|(p, _)| p.split('/').count() <= depth)
                    .cloned()
                    .collect();
                let entries = visible.iter().map(|(p, _)| ScanEntry::File(name_of(p))).collect();
                machine.scanned(entries)
            }
            RunAction::Report(e) => {
                reports.push(e);
                machine.reported()
            }
            RunAction::Inspect { file, check_target } => {
                let (p, content) = visible[file];
                let exists = check_target && dest.contains(&name_of(p));
                machine.inspected(content.len() as u64, p.to_string(), exists)
            }
            RunAction::FindFreeName { file } => {
                let name = name_of(visible[file].0);
                let free = unique_dest(&name, PathStyle::Unix, |c: &str| dest.contains(c)).unwrap();
                machine.free_name(free)
            }
            RunAction::Copy { name, .. } => {
                dest.insert(name);
                machine.copy_done(Ok(()))
            }
            RunAction::Finish(res) => return (res.map_err(|e| e.message()), reports),
        };
        machine = next;
        action = step;
    }
}

#[test]
fn matches_basename_ignoring_extension_and_case() {
    let src = setup_source();
    let mut dest = BTreeSet::new();
    let r = run(
        &req(&["dsc_0001", "DSC_0002.jpg", "IMG_2451", "NOPE_9999"], "all", true, false),
        &src,
        &mut dest,
    )
    .unwrap();

    assert_eq!(r.requested, 4);
    assert_eq!(r.matched_names, 3, "3 of 4 names should match");
    assert_eq!(r.not_found, vec!["nope_9999".to_string()]);
    assert_eq!(r.copied_count, 4);
    assert!(dest.contains("DSC_0001.JPG"));
    assert!(dest.contains("DSC_0001.NEF"));
    // the source model is never written to
    assert!(src.iter().any(|(p, _)| *p == "DSC_0001.JPG"));
}

#[test]
fn jpg_mode_excludes_raw() {
    let src = setup_source();
    let mut dest = BTreeSet::new();
    let r = run(&req(&["DSC_0001"], "jpg", false, false), &src, &mut dest).unwrap();
    assert_eq!(r.copied_count, 1, "only the JPG, not the NEF");
    assert!(dest.contains("DSC_0001.JPG"));
    assert!(!dest.contains("DSC_0001.NEF"));
}

#[test]
fn raw_jpg_mode_takes_both() {
    let src = setup_source();
    let mut dest = BTreeSet::new();
    let r = run(&req(&["DSC_0001"], "raw_jpg", false, false), &src, &mut dest).unwrap();
    assert_eq!(r.copied_count, 2);
}

#[test]
fn recursive_toggle_controls_subfolders() {
    let src = setup_source();
    let mut dest_off = BTreeSet::new();
    let off = run(&req(&["DSC_0003"], "all", false, false), &src, &mut dest_off).unwrap();
    assert_eq!(off.matched_names, 0, "subfolder file not found when non-recursive");

    let mut dest_on = BTreeSet::new();
    let on = run(&req(&["DSC_0003"], "all", true, false), &src, &mut dest_on).unwrap();
    assert_eq!(on.matched_names, 1);
    assert!(dest_on.contains("DSC_0003.jpg"));
}

#[test]
fn dry_run_copies_nothing() {
    let src = setup_source();
    let mut dest = BTreeSet::new();
    let r = run(&req(&["DSC_0001"], "all", false, true), &src, &mut dest).unwrap();
    assert!(r.dry_run);
    assert_eq!(r.matched_names, 1);
    assert_eq!(dest.len(), 0, "dest stays empty on dry run");
    // every dry-run entry carries a documented action
    assert_eq!(r.copied.len(), 2);
    assert_eq!(r.copied_count, 2);
    assert_eq!(r.skipped_count, 0);
    assert_eq!(r.total_bytes, 0);
    assert!(r.copied.iter().all(|c| c.action.label() == "copied"));
}

#[test]
fn conflict_rename_keeps_both() {
    let src = setup_source();
    let mut dest = BTreeSet::new();
    // pre-existing file with same name in dest
    dest.insert("DSC_0002.jpg".to_string());
    let r = run(&req(&["DSC_0002"], "all", false, false), &src, &mut dest).unwrap();
    assert_eq!(r.copied_count, 1);
    assert!(dest.contains("DSC_0002.jpg"));
    assert!(dest.contains("DSC_0002_1.jpg"), "renamed copy should exist");
}

#[test]
fn duplicate_names_deduped() {
    let src = setup_source();
    let mut dest = BTreeSet::new();
    let r = run(&req(&["DSC_0001", "dsc_0001", "DSC_0001.nef"], "jpg", false, true), &src, &mut dest)
        .unwrap();
    assert_eq!(r.requested, 1, "same basename collapses to one request");
}

#[test]
fn law_progress_reports_follow_the_files() {
    let src = setup_source();
    let mut dest = BTreeSet::new();
    let (r, reports) =
        run_reporting(&req(&["DSC_0001", "DSC_0002"], "all", false, false), &src, &mut dest);
    assert_eq!(r.unwrap().copied_count, 3);
    let mut expected = vec![ProgressEvent { phase: Phase::Scan, done: 3, total: 3 }];
    for i in 1..=3 {
        expected.push(ProgressEvent { phase: Phase::Copy, done: i, total: 3 });
    }
    assert_eq!(reports, expected);

    let mut dest = BTreeSet::new();
    let (_, reports) =
        run_reporting(&req(&["DSC_0001", "DSC_0002"], "all", false, true), &src, &mut dest);
    assert_eq!(reports, vec![ProgressEvent { phase: Phase::Scan, done: 3, total: 3 }]);
    assert!(dest.is_empty());
}
