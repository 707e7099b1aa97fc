//! A run driven step by step: what it asks for, and what it makes of the
//! answers.

use mphotopicker::outcome::{CopyAction, FilterResult, Phase, ProgressEvent};
use mphotopicker::path::PathStyle;
use mphotopicker::request::{FilterError, FilterRequest};
use mphotopicker::run::{Run, RunAction, ScanEntry};

const U: PathStyle = PathStyle::Unix;

fn request(names: &[&str], dest: &str, on_conflict: &str, dry: bool) -> FilterRequest {
    FilterRequest {
        source: "/src".to_string(),
        dest: dest.to_string(),
        names: names.iter().map(|s| s.to_string()).collect(),
        ext_mode: "all".to_string(),
        custom_exts: vec![],
        recursive: false,
        on_conflict: on_conflict.to_string(),
        dry_run: dry,
    }
}

fn files(names: &[&str]) -> Vec<ScanEntry> {
    names.iter().map(|n| ScanEntry::File(n.to_string())).collect()
}

fn refused(a: RunAction) -> FilterError {
    match a {
        RunAction::Finish(Err(e)) => e,
        _ => panic!("expected a refusal"),
    }
}

fn finished(a: RunAction) -> FilterResult {
    match a {
        RunAction::Finish(Ok(r)) => r,
        _ => panic!("expected a report"),
    }
}

fn report(a: &RunAction) -> ProgressEvent {
    match a {
        RunAction::Report(e) => *e,
        _ => panic!("expected a progress report"),
    }
}

fn copy_report(done: usize, total: usize) -> ProgressEvent {
    ProgressEvent { phase: Phase::Copy, done, total }
}

#[test]
fn refusals_come_in_order() {
    let r = request(&["a"], "/dst", "rename", false);
    let (_, a) = Run::start(&r, false, U);
    assert!(matches!(refused(a), FilterError::InvalidSource));

    let r = request(&["a"], "  ", "rename", false);
    let (_, a) = Run::start(&r, true, U);
    assert!(matches!(refused(a), FilterError::MissingDest));

    let r = request(&["a"], "/dst", "rename", false);
    let (run, a) = Run::start(&r, true, U);
    assert!(matches!(a, RunAction::PrepareDest));
    let (_, a) = run.dest_prepared(Err("denied".to_string()));
    match refused(a) {
        FilterError::CreateDest(reason) => assert_eq!(reason, "denied"),
        _ => panic!("expected CreateDest"),
    }

    // The destination is made before the names are looked at.
    let r = request(&["  ", ""], "/dst", "rename", false);
    let (run, a) = Run::start(&r, true, U);
    assert!(matches!(a, RunAction::PrepareDest));
    let (_, a) = run.dest_prepared(Ok(()));
    assert!(matches!(refused(a), FilterError::EmptyNames));

    // A dry run needs no destination.
    let r = request(&[""], "", "rename", true);
    let (_, a) = Run::start(&r, true, U);
    assert!(matches!(refused(a), FilterError::EmptyNames));
}

#[test]
fn real_run_reports_each_file() {
    let r = request(&["a", "b"], "/dst", "skip", false);
    let (run, a) = Run::start(&r, true, U);
    assert!(matches!(a, RunAction::PrepareDest));
    let (run, a) = run.dest_prepared(Ok(()));
    assert!(matches!(a, RunAction::Scan { depth: 1 }));
    let (run, a) = run.scanned(files(&["a.jpg", "x.jpg", "b.nef"]));
    assert_eq!(report(&a), ProgressEvent { phase: Phase::Scan, done: 2, total: 2 });

    // a.jpg: its name is free, it is copied under it.
    let (run, a) = run.reported();
    assert!(matches!(a, RunAction::Inspect { file: 0, check_target: true }));
    let (run, a) = run.inspected(10, "a.jpg".to_string(), false);
    match &a {
        RunAction::Copy { file, name } => {
            assert_eq!(*file, 0);
            assert_eq!(name, "a.jpg");
        }
        _ => panic!("expected a copy"),
    }
    let (run, a) = run.copy_done(Ok(()));
    assert_eq!(report(&a), copy_report(1, 2));

    // b.nef: its name is taken and the policy skips it.
    let (run, a) = run.reported();
    assert!(matches!(a, RunAction::Inspect { file: 2, check_target: true }));
    let (run, a) = run.inspected(7, "b.nef".to_string(), true);
    assert_eq!(report(&a), copy_report(2, 2));

    let (_, a) = run.reported();
    let res = finished(a);
    assert_eq!(res.copied_count, 1);
    assert_eq!(res.skipped_count, 1);
    assert_eq!(res.total_bytes, 10);
    assert_eq!(res.copied[1].action, CopyAction::Skipped);
    assert_eq!(res.matched_names, 2);
}

#[test]
fn dry_run_asks_for_no_write() {
    let r = request(&["a"], "", "rename", true);
    let (run, a) = Run::start(&r, true, U);
    assert!(matches!(a, RunAction::Scan { depth: 1 }));
    let (run, a) = run.scanned(files(&["A.JPG", "a.nef"]));
    assert_eq!(report(&a), ProgressEvent { phase: Phase::Scan, done: 2, total: 2 });
    let (run, a) = run.reported();
    assert!(matches!(a, RunAction::Inspect { file: 0, check_target: false }));
    let (run, a) = run.inspected(3, "A.JPG".to_string(), false);
    assert!(matches!(a, RunAction::Inspect { file: 1, check_target: false }));
    let (_, a) = run.inspected(4, "a.nef".to_string(), false);
    let res = finished(a);
    assert!(res.dry_run);
    assert_eq!(res.copied.len(), 2);
    assert_eq!(res.copied_count, 2);
    assert_eq!(res.total_bytes, 0);
    assert_eq!(res.copied[0].file_name, "A.JPG");
    assert_eq!(res.copied[1].size, 4);
    assert!(res.copied.iter().all(|c| c.action == CopyAction::Copied));
}

#[test]
fn rename_asks_for_a_free_name() {
    let r = request(&["p"], "/dst", "rename", false);
    let (run, _) = Run::start(&r, true, U);
    let (run, _) = run.dest_prepared(Ok(()));
    let (run, _) = run.scanned(files(&["p.jpg"]));
    let (run, _) = run.reported();
    let (run, a) = run.inspected(5, "p.jpg".to_string(), true);
    assert!(matches!(a, RunAction::FindFreeName { file: 0 }));
    let (run, a) = run.free_name("p_1.jpg".to_string());
    match &a {
        RunAction::Copy { name, .. } => assert_eq!(name, "p_1.jpg"),
        _ => panic!("expected a copy"),
    }
    let (run, _) = run.copy_done(Ok(()));
    let (_, a) = run.reported();
    let res = finished(a);
    assert_eq!(res.copied[0].file_name, "p_1.jpg");
    assert_eq!(res.copied[0].action, CopyAction::Renamed);
}

#[test]
fn overwrite_copies_under_the_same_name() {
    let r = request(&["p"], "/dst", "overwrite", false);
    let (run, _) = Run::start(&r, true, U);
    let (run, _) = run.dest_prepared(Ok(()));
    let (run, _) = run.scanned(files(&["p.jpg"]));
    let (run, _) = run.reported();
    let (run, a) = run.inspected(5, "p.jpg".to_string(), true);
    match &a {
        RunAction::Copy { name, .. } => assert_eq!(name, "p.jpg"),
        _ => panic!("expected a copy"),
    }
    let (run, _) = run.copy_done(Ok(()));
    let (_, a) = run.reported();
    assert_eq!(finished(a).copied[0].action, CopyAction::Overwritten);
}

#[test]
fn errors_keep_walk_order_then_copy_order() {
    let r = request(&["a", "b"], "/dst", "rename", false);
    let (run, _) = Run::start(&r, true, U);
    let (run, _) = run.dest_prepared(Ok(()));
    let entries = vec![
        ScanEntry::File("a.jpg".to_string()),
        ScanEntry::Unreadable("locked dir".to_string()),
        ScanEntry::File("b.jpg".to_string()),
    ];
    let (run, a) = run.scanned(entries);
    assert_eq!(report(&a).total, 2);
    let (run, _) = run.reported();
    let (run, _) = run.inspected(1, "a.jpg".to_string(), false);
    let (run, a) = run.copy_done(Err("disk full".to_string()));
    // A failed copy still reports its progress.
    assert_eq!(report(&a), copy_report(1, 2));
    let (run, a) = run.reported();
    assert!(matches!(a, RunAction::Inspect { file: 1, .. }));
    let (run, _) = run.inspected(2, "b.jpg".to_string(), false);
    let (run, _) = run.copy_done(Ok(()));
    let (_, a) = run.reported();
    let res = finished(a);
    assert_eq!(res.errors, vec!["Lỗi đọc: locked dir".to_string(), "Lỗi chép a.jpg: disk full".to_string()]);
    assert_eq!(res.copied.len(), 1);
    assert_eq!(res.copied_count, 1);
    assert_eq!(res.total_bytes, 2);
}

#[test]
fn law_every_file_accounted_for() {
    let r = request(&["a", "b", "c"], "/dst", "skip", false);
    let (run, _) = Run::start(&r, true, U);
    let (run, _) = run.dest_prepared(Ok(()));
    let (run, _) = run.scanned(files(&["a.jpg", "b.jpg", "c.jpg"]));
    let (run, _) = run.reported();
    let (run, _) = run.inspected(1, "a.jpg".to_string(), false);
    let (run, _) = run.copy_done(Err("x".to_string()));
    let (run, _) = run.reported();
    let (run, _) = run.inspected(1, "b.jpg".to_string(), true);
    let (run, _) = run.reported();
    let (run, _) = run.inspected(1, "c.jpg".to_string(), false);
    let (run, _) = run.copy_done(Ok(()));
    let (_, a) = run.reported();
    let res = finished(a);
    assert_eq!(res.copied.len() + res.errors.len(), 3);
}
