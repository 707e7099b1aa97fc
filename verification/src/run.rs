use vstd::prelude::*;

use crate::exts::{allowed_exts, ext_policy, opt_views};
use crate::matching::{distinct, file_keys, match_count, match_files, matched_indices, scan_depth};
use crate::outcome::{
    conflict_policy, copy_error_message, count_action, decide_action, matched_upto, plan_for,
    policy_of, scan_error_message, scan_finished, summarize, unmatched_upto, unskipped_bytes,
    ConflictPolicy, CopiedFile, CopyAction, CopyPlan, CopyTally, FileOutcome, FilterResult,
    NameResult, Phase, ProgressEvent,
};
use crate::path::PathStyle;
use crate::request::{
    check_request, collect_requested, request_check, requested_stems, views, FilterError,
    FilterRequest,
};

verus! {

/// One entry the walk of the source folder reported: a regular file, by its
/// file name, or an entry that could not be read, with the reason.
pub enum ScanEntry {
    File(String),
    Unreadable(String),
}

/// What a run waits for next.
#[derive(PartialEq, Eq, Structural, Clone, Copy, Debug)]
pub enum Stage {
    /// Waiting for `dest_prepared`.
    Dest,
    /// Waiting for `scanned`.
    Scan,
    /// Waiting for `reported`.
    Report,
    /// Waiting for `inspected`.
    Inspection,
    /// Waiting for `free_name`.
    FreeName,
    /// Waiting for `copy_done`.
    CopyResult,
    /// Waiting for nothing: the run is over.
    Done,
}

/// What the caller of a run is asked to do next.
pub enum RunAction {
    /// Create the destination folder if it does not exist, then call
    /// `dest_prepared`.
    PrepareDest,
    /// Walk the source folder down to `depth` levels (links not followed),
    /// then call `scanned` with every entry in walk order.
    Scan { depth: usize },
    /// Send this progress report, then call `reported`.
    Report(ProgressEvent),
    /// Look at the `file`-th scanned file: its size, its path relative to
    /// the source folder and, when `check_target`, whether the destination
    /// already has a file of its name; then call `inspected`.
    Inspect { file: usize, check_target: bool },
    /// Find a free name in the destination for the `file`-th scanned file
    /// (see `unique_dest`), then call `free_name`.
    FindFreeName { file: usize },
    /// Copy the `file`-th scanned file into the destination under `name`,
    /// then call `copy_done`.
    Copy { file: usize, name: String },
    /// The run is over, with this result.
    Finish(Result<FilterResult, FilterError>),
}

/// What the caller told a run about one matched file.
pub struct FileAnswer {
    pub size: u64,
    pub rel_path: Seq<char>,
    /// Whether the destination had a file of its name (asked on real runs).
    pub exists: bool,
    /// The free name found for it, when it was renamed.
    pub free_name: Seq<char>,
    /// How its copy went, when one was made.
    pub copy: Result<(), Seq<char>>,
}

/// The abstract state of a run: the request, everything the caller answered
/// so far, and the progress reports sent.
pub struct RunView {
    pub stage: Stage,
    pub dry_run: bool,
    pub recursive: bool,
    pub policy: ConflictPolicy,
    pub style: PathStyle,
    /// The typed name lines.
    pub lines: Seq<Seq<char>>,
    /// The extensions let through (`None`: all).
    pub allowed: Option<Seq<Seq<char>>>,
    /// The names of the regular files the walk found, in walk order.
    pub files: Seq<Seq<char>>,
    /// The reasons of the entries the walk could not read, in walk order.
    pub scan_errors: Seq<Seq<char>>,
    /// The answers about the matched files handled so far, in order.
    pub answers: Seq<FileAnswer>,
    /// The answers about the matched file in hand.
    pub current: FileAnswer,
    /// The progress reports sent so far.
    pub reports: Seq<ProgressEvent>,
}

/// The names of the regular files among scan entries.
pub open spec fn scanned_files(es: Seq<ScanEntry>) -> Seq<Seq<char>>
    decreases es.len(),
{
    if es.len() == 0 {
        Seq::empty()
    } else {
        match es.last() {
            ScanEntry::File(name) => scanned_files(es.drop_last()).push(name@),
            ScanEntry::Unreadable(_) => scanned_files(es.drop_last()),
        }
    }
}

/// The reasons of the unreadable scan entries.
pub open spec fn scanned_errors(es: Seq<ScanEntry>) -> Seq<Seq<char>>
    decreases es.len(),
{
    if es.len() == 0 {
        Seq::empty()
    } else {
        match es.last() {
            ScanEntry::File(_) => scanned_errors(es.drop_last()),
            ScanEntry::Unreadable(reason) => scanned_errors(es.drop_last()).push(reason@),
        }
    }
}

/// The requested names of a run.
pub open spec fn run_order(v: RunView) -> Seq<Seq<char>> {
    requested_stems(v.lines, v.style)
}

/// The (stem, extension) keys of the scanned files.
pub open spec fn run_keys(v: RunView) -> Seq<(Seq<char>, Seq<char>)> {
    file_keys(v.files, v.style)
}

/// The positions, among the scanned files, of the matched ones.
pub open spec fn run_matched(v: RunView) -> Seq<int> {
    matched_indices(run_order(v), v.allowed, run_keys(v))
}

/// The names of the matched files, in walk order.
pub open spec fn run_matches(v: RunView) -> Seq<Seq<char>> {
    run_matched(v).map_values(|i: int| v.files[i])
}

/// A recorded file: name, relative path, size and action.
pub open spec fn entry_view(c: CopiedFile) -> (Seq<char>, Seq<char>, u64, CopyAction) {
    (c.file_name@, c.rel_path@, c.size, c.action)
}

pub open spec fn entry_views(s: Seq<CopiedFile>) -> Seq<(Seq<char>, Seq<char>, u64, CopyAction)> {
    s.map_values(|c: CopiedFile| entry_view(c))
}

/// The message recorded for each unreadable entry.
pub open spec fn scan_messages(reasons: Seq<Seq<char>>) -> Seq<Seq<char>> {
    reasons.map_values(|r: Seq<char>| scan_error_message(r))
}

/// The name a written file gets: the free name found when it is renamed,
/// else its own.
pub open spec fn written_name(action: CopyAction, name: Seq<char>, a: FileAnswer) -> Seq<char> {
    if action == CopyAction::Renamed {
        a.free_name
    } else {
        name
    }
}

/// The files recorded and the error messages of a run, given the names of
/// its matched files, the walk's unreadable entries, and the answers about
/// the files handled: the walk's errors come first; then each file is
/// recorded as its plan says (a dry run records it as copied; a real run
/// records it as skipped, or as written under its name when its copy
/// succeeded, or adds the copy's error message).
pub open spec fn records(
    dry_run: bool,
    policy: ConflictPolicy,
    names: Seq<Seq<char>>,
    scan_errors: Seq<Seq<char>>,
    answers: Seq<FileAnswer>,
) -> (Seq<(Seq<char>, Seq<char>, u64, CopyAction)>, Seq<Seq<char>>)
    decreases answers.len(),
{
    if answers.len() == 0 {
        (Seq::empty(), scan_messages(scan_errors))
    } else {
        let prev = records(dry_run, policy, names, scan_errors, answers.drop_last());
        let a = answers.last();
        let name = names[answers.len() - 1];
        match plan_for(dry_run, policy, a.exists) {
            CopyPlan::Preview => (prev.0.push((name, a.rel_path, a.size, CopyAction::Copied)), prev.1),
            CopyPlan::Skip => (prev.0.push((name, a.rel_path, a.size, CopyAction::Skipped)), prev.1),
            CopyPlan::Write(action) => match a.copy {
                Ok(_) => (
                    prev.0.push((written_name(action, name, a), a.rel_path, a.size, action)),
                    prev.1,
                ),
                Err(reason) => (prev.0, prev.1.push(copy_error_message(name, reason))),
            },
        }
    }
}

/// `records` of a run so far.
pub open spec fn run_records(v: RunView) -> (
    Seq<(Seq<char>, Seq<char>, u64, CopyAction)>,
    Seq<Seq<char>>,
) {
    records(v.dry_run, v.policy, run_matches(v), v.scan_errors, v.answers)
}

/// Total size of the recorded files that were not skipped.
pub open spec fn record_bytes(es: Seq<(Seq<char>, Seq<char>, u64, CopyAction)>) -> nat
    decreases es.len(),
{
    if es.len() == 0 {
        0
    } else {
        record_bytes(es.drop_last()) + if es.last().3 == CopyAction::Skipped {
            0nat
        } else {
            es.last().2 as nat
        }
    }
}

/// The progress reports of a run that matched `total` files, once `handled`
/// of them are handled: the scan's report, then on a real run one report per
/// handled file.
pub open spec fn progress_reports(total: nat, dry_run: bool, handled: nat) -> Seq<ProgressEvent> {
    seq![ProgressEvent { phase: Phase::Scan, done: total as usize, total: total as usize }] + if dry_run {
        Seq::<ProgressEvent>::empty()
    } else {
        Seq::new(
            handled,
            |i: int| ProgressEvent { phase: Phase::Copy, done: (i + 1) as usize, total: total as usize },
        )
    }
}

/// The count of each name in a report.
pub open spec fn name_counts(names: Seq<NameResult>) -> Seq<usize> {
    names.map_values(|n: NameResult| n.count)
}

/// The report a finished run gives: one line per requested name, in request
/// order, with the number of scanned files that match it; the names nothing
/// matched; the files recorded and the errors, as `records` says; the
/// counters; and the progress reports sent, as `progress_reports` says.
pub open spec fn run_report(v: RunView, r: FilterResult) -> bool {
    let order = run_order(v);
    let recs = run_records(v);
    &&& v.answers.len() == run_matches(v).len()
    &&& r.requested == order.len()
    &&& r.names@.len() == order.len()
    &&& forall|j: int|
        0 <= j < order.len() ==> (#[trigger] r.names@[j]).name@ == order[j] && r.names@[j].count
            == match_count(order[j], v.allowed, run_keys(v))
    &&& views(r.not_found@) == unmatched_upto(order, name_counts(r.names@), order.len())
    &&& r.matched_names == matched_upto(name_counts(r.names@), order.len())
    &&& entry_views(r.copied@) == recs.0
    &&& views(r.errors@) == recs.1
    &&& r.copied_count == if v.dry_run {
        v.answers.len() as int
    } else {
        r.copied@.len() - count_action(r.copied@, CopyAction::Skipped)
    }
    &&& r.skipped_count == count_action(r.copied@, CopyAction::Skipped)
    &&& r.total_bytes == if v.dry_run {
        0
    } else {
        unskipped_bytes(r.copied@)
    }
    &&& r.dry_run == v.dry_run
    &&& v.reports == progress_reports(v.answers.len(), v.dry_run, v.answers.len())
}

/// A run of a request, driven by its caller: each call hands in what the
/// caller did last and gives back the next thing to do (`RunAction`).
pub struct Run {
    stage: Stage,
    dry_run: bool,
    recursive: bool,
    policy: ConflictPolicy,
    style: PathStyle,
    order: Vec<String>,
    allowed: Option<Vec<String>>,
    files: Vec<String>,
    matched: Vec<usize>,
    counts: Vec<usize>,
    tally: CopyTally,
    pos: usize,
    size: u64,
    rel_path: String,
    action: CopyAction,
    target: String,
    log: Ghost<RunView>,
}

impl View for Run {
    type V = RunView;

    closed spec fn view(&self) -> RunView {
        self.log@
    }
}

impl Run {
    /// The run's fields agree with its view.
    pub closed spec fn wf(&self) -> bool {
        let v = self.log@;
        &&& v.stage == self.stage
        &&& v.dry_run == self.dry_run
        &&& v.recursive == self.recursive
        &&& v.policy == self.policy
        &&& v.style == self.style
        &&& opt_views(self.allowed) == v.allowed
        &&& views(self.order@) == run_order(v)
        &&& distinct(views(self.order@))
        &&& (self.stage == Stage::Dest || self.stage == Stage::Scan) ==> {
            &&& v.files.len() == 0
            &&& v.scan_errors.len() == 0
            &&& v.answers.len() == 0
            &&& v.reports.len() == 0
        }
        &&& (self.stage != Stage::Dest && self.stage != Stage::Scan && self.stage != Stage::Done)
            ==> self.scanned_wf()
    }

    /// After the scan: the matches agree with the scanned files, the tally
    /// with the answers, and the reports sent with the files handled.
    pub closed spec fn scanned_wf(&self) -> bool {
        let v = self.log@;
        &&& views(self.files@) == v.files
        &&& self.counts@.len() == self.order@.len()
        &&& forall|j: int|
            0 <= j < self.order@.len() ==> self.counts@[j] == match_count(
                self.order@[j]@,
                v.allowed,
                run_keys(v),
            )
        &&& self.matched@.map_values(|i: usize| i as int) == run_matched(v)
        &&& self.pos == v.answers.len()
        &&& self.pos <= self.matched@.len()
        &&& self.tally.wf()
        &&& self.tally.dry_run == self.dry_run
        &&& entry_views(self.tally.copied@) == run_records(v).0
        &&& views(self.tally.errors@) == run_records(v).1
        &&& v.reports == progress_reports(self.matched@.len() as nat, self.dry_run, self.pos as nat)
        &&& (self.stage == Stage::Inspection || self.stage == Stage::FreeName || self.stage
            == Stage::CopyResult) ==> self.pos < self.matched@.len()
        &&& self.stage == Stage::FreeName ==> self.action == CopyAction::Renamed
        &&& (self.stage == Stage::FreeName || self.stage == Stage::CopyResult) ==> {
            &&& v.current.size == self.size
            &&& v.current.rel_path == self.rel_path@
            &&& plan_for(self.dry_run, self.policy, v.current.exists) == CopyPlan::Write(self.action)
            &&& self.stage == Stage::CopyResult ==> self.target@ == written_name(
                self.action,
                run_matches(v)[self.pos as int],
                v.current,
            )
        }
    }
}

/// The answers about a file before any is given.
pub open spec fn no_answer() -> FileAnswer {
    FileAnswer {
        size: 0,
        rel_path: Seq::empty(),
        exists: false,
        free_name: Seq::empty(),
        copy: Ok(()),
    }
}

/// A run of `req` at `stage`, before anything is scanned.
pub open spec fn initial_view(req: FilterRequest, style: PathStyle, stage: Stage) -> RunView {
    RunView {
        stage,
        dry_run: req.dry_run,
        recursive: req.recursive,
        policy: policy_of(req.on_conflict@),
        style,
        lines: views(req.names@),
        allowed: ext_policy(req.ext_mode@, views(req.custom_exts@)),
        files: Seq::empty(),
        scan_errors: Seq::empty(),
        answers: Seq::empty(),
        current: no_answer(),
        reports: Seq::empty(),
    }
}

/// Once the destination is ready: a run with no usable name is refused,
/// else the source folder is walked, to any depth when subfolders are
/// included and else only its own entries.
pub open spec fn after_checks(v: RunView, a: RunAction) -> bool {
    if run_order(v).len() == 0 {
        v.stage == Stage::Done && a == RunAction::Finish(Err(FilterError::EmptyNames))
    } else {
        v.stage == Stage::Scan && a == (RunAction::Scan {
            depth: if v.recursive {
                usize::MAX
            } else {
                1
            },
        })
    }
}

impl Run {
    /// Moves on once the destination is ready.
    fn checked(self) -> (r: (Run, RunAction))
        requires
            self.wf(),
            self.stage == Stage::Dest || self.stage == Stage::Scan,
        ensures
            r.0.wf(),
            r.0@ == (RunView { stage: r.0@.stage, ..self@ }),
            after_checks(r.0@, r.1),
    {
        let mut run = self;
        if run.order.len() == 0 {
            run.stage = Stage::Done;
            run.log = Ghost(RunView { stage: Stage::Done, ..run.log@ });
            (run, RunAction::Finish(Err(FilterError::EmptyNames)))
        } else {
            let depth = scan_depth(run.recursive);
            run.stage = Stage::Scan;
            run.log = Ghost(RunView { stage: Stage::Scan, ..run.log@ });
            (run, RunAction::Scan { depth })
        }
    }

    /// Starts a run of `req`, whose source folder is a folder when
    /// `source_is_dir`, with the path rules `style`. A request the checks
    /// refuse ends at once with their error; a real run then asks for the
    /// destination folder; a dry run goes on as `after_checks` says.
    pub fn start(req: &FilterRequest, source_is_dir: bool, style: PathStyle) -> (r: (Run, RunAction))
        ensures
            r.0.wf(),
            r.0@ == initial_view(*req, style, r.0@.stage),
            match request_check(req.source@, req.dest@, req.dry_run, source_is_dir) {
                Err(e) => r.0@.stage == Stage::Done && r.1 == RunAction::Finish(Err(e)),
                Ok(_) => if !req.dry_run {
                    r.0@.stage == Stage::Dest && r.1 is PrepareDest
                } else {
                    after_checks(r.0@, r.1)
                },
            },
    {
        let checked = check_request(req, source_is_dir);
        let order = match collect_requested(&req.names, style) {
            Ok(o) => o,
            Err(_) => {
                let empty: Vec<String> = Vec::new();
                assert(views(empty@) =~= requested_stems(views(req.names@), style));
                empty
            },
        };
        let run = Run {
            stage: Stage::Dest,
            dry_run: req.dry_run,
            recursive: req.recursive,
            policy: conflict_policy(req.on_conflict.as_str()),
            style,
            order,
            allowed: allowed_exts(req),
            files: Vec::new(),
            matched: Vec::new(),
            counts: Vec::new(),
            tally: CopyTally::new(req.dry_run),
            pos: 0,
            size: 0,
            rel_path: String::new(),
            action: CopyAction::Copied,
            target: String::new(),
            log: Ghost(initial_view(*req, style, Stage::Dest)),
        };
        match checked {
            Err(e) => {
                let mut run = run;
                run.stage = Stage::Done;
                run.log = Ghost(initial_view(*req, style, Stage::Done));
                (run, RunAction::Finish(Err(e)))
            },
            Ok(()) => {
                if !req.dry_run {
                    (run, RunAction::PrepareDest)
                } else {
                    run.checked()
                }
            },
        }
    }

    /// The destination folder is ready (`Ok`), or could not be created (with
    /// the system's reason): the run is then refused with `CreateDest`, else
    /// goes on as `after_checks` says.
    pub fn dest_prepared(self, result: Result<(), String>) -> (r: (Run, RunAction))
        requires
            self.wf(),
            self@.stage == Stage::Dest,
        ensures
            r.0.wf(),
            r.0@ == (RunView { stage: r.0@.stage, ..self@ }),
            match result {
                Err(reason) => r.0@.stage == Stage::Done && r.1 == RunAction::Finish(
                    Err(FilterError::CreateDest(reason)),
                ),
                Ok(_) => after_checks(r.0@, r.1),
            },
    {
        match result {
            Err(reason) => {
                let mut run = self;
                run.stage = Stage::Done;
                run.log = Ghost(RunView { stage: Stage::Done, ..run.log@ });
                (run, RunAction::Finish(Err(FilterError::CreateDest(reason))))
            },
            Ok(()) => self.checked(),
        }
    }
}

/// What follows once a matched file is done with (or the scan is reported):
/// the next matched file is inspected (its destination name is looked at on
/// real runs only), or, when all are handled, the run finishes with its
/// report.
pub open spec fn next_step(v: RunView, w: RunView, a: RunAction) -> bool {
    if v.answers.len() < run_matches(v).len() {
        &&& w == RunView { stage: Stage::Inspection, ..v }
        &&& a == (RunAction::Inspect {
            file: run_matched(v)[v.answers.len() as int] as usize,
            check_target: !v.dry_run,
        })
    } else {
        &&& w == RunView { stage: Stage::Done, ..v }
        &&& a matches RunAction::Finish(Ok(res)) && run_report(v, res)
    }
}

/// The progress report sent once the `done`-th of `total` matched files is
/// handled on a real run.
pub open spec fn copy_report(done: nat, total: nat) -> ProgressEvent {
    ProgressEvent { phase: Phase::Copy, done: done as usize, total: total as usize }
}

/// The characters of a copy's result.
pub open spec fn result_view(r: Result<(), String>) -> Result<(), Seq<char>> {
    match r {
        Ok(_) => Ok(()),
        Err(e) => Err(e@),
    }
}

proof fn lemma_record_bytes(s: Seq<CopiedFile>)
    ensures
        record_bytes(entry_views(s)) == unskipped_bytes(s),
    decreases s.len(),
{
    if s.len() > 0 {
        lemma_record_bytes(s.drop_last());
        assert(entry_views(s).drop_last() =~= entry_views(s.drop_last()));
    }
}

impl Run {
    /// The walk is done: `entries` are what it reported, in walk order. The
    /// regular files are matched against the requested names, the unreadable
    /// entries give errors, and the scan's progress report is to be sent.
    pub fn scanned(self, entries: Vec<ScanEntry>) -> (r: (Run, RunAction))
        requires
            self.wf(),
            self@.stage == Stage::Scan,
        ensures
            r.0.wf(),
            r.0@ == (RunView {
                stage: Stage::Report,
                files: scanned_files(entries@),
                scan_errors: scanned_errors(entries@),
                reports: seq![r.0@.reports[0]],
                ..self@
            }),
            r.0@.reports[0] == (ProgressEvent {
                phase: Phase::Scan,
                done: run_matches(r.0@).len() as usize,
                total: run_matches(r.0@).len() as usize,
            }),
            r.1 == RunAction::Report(r.0@.reports[0]),
    {
        let mut run = self;
        let ghost v0 = run.log@;
        let mut files: Vec<String> = Vec::new();
        let mut tally = CopyTally::new(run.dry_run);
        let mut i: usize = 0;
        while i < entries.len()
            invariant
                i <= entries@.len(),
                views(files@) == scanned_files(entries@.take(i as int)),
                views(tally.errors@) == scan_messages(scanned_errors(entries@.take(i as int))),
                tally.wf(),
                tally.dry_run == run.dry_run,
                tally.copied@.len() == 0,
            decreases entries@.len() - i,
        {
            let ghost seen = entries@.take(i + 1);
            assert(seen.drop_last() =~= entries@.take(i as int));
            match &entries[i] {
                ScanEntry::File(name) => {
                    let ghost before = files@;
                    files.push(name.clone());
                    assert(views(files@) =~= views(before).push(name@));
                },
                ScanEntry::Unreadable(reason) => {
                    let ghost before = tally.errors@;
                    tally.record_scan_error(reason.clone());
                    assert(views(tally.errors@) =~= views(before).push(scan_error_message(reason@)));
                    assert(scan_messages(scanned_errors(seen)) =~= scan_messages(
                        scanned_errors(entries@.take(i as int)),
                    ).push(scan_error_message(reason@)));
                },
            }
            i += 1;
        }
        assert(entries@.take(entries@.len() as int) =~= entries@);
        let found = match_files(&run.order, &run.allowed, &files, run.style);
        let total = found.matched.len();
        let report = scan_finished(total);
        run.files = files;
        run.matched = found.matched;
        run.counts = found.counts;
        run.tally = tally;
        run.pos = 0;
        run.stage = Stage::Report;
        run.log = Ghost(
            RunView {
                stage: Stage::Report,
                files: scanned_files(entries@),
                scan_errors: scanned_errors(entries@),
                reports: seq![report],
                ..v0
            },
        );
        proof {
            let v = run.log@;
            assert(run.matched@.map_values(|i: usize| i as int).len() == run.matched@.len());
            assert(entry_views(run.tally.copied@) =~= run_records(v).0);
            assert(v.reports =~= progress_reports(total as nat, run.dry_run, 0));
        }
        (run, RunAction::Report(report))
    }

    /// The last progress report was sent: see `next_step`.
    pub fn reported(self) -> (r: (Run, RunAction))
        requires
            self.wf(),
            self@.stage == Stage::Report,
        ensures
            r.0.wf(),
            next_step(self@, r.0@, r.1),
    {
        let ghost v = self.log@;
        let total = self.matched.len();
        proof {
            assert(run_matched(v).len() == total);
        }
        if self.pos < total {
            let mut run = self;
            let file = run.matched[run.pos];
            run.stage = Stage::Inspection;
            run.log = Ghost(RunView { stage: Stage::Inspection, ..v });
            let check_target = !run.dry_run;
            (run, RunAction::Inspect { file, check_target })
        } else {
            let Run {
                stage: _,
                dry_run,
                recursive,
                policy,
                style,
                order,
                allowed,
                files,
                matched,
                counts,
                tally,
                pos,
                size,
                rel_path,
                action,
                target,
                log,
            } = self;
            let ghost copied = tally.copied@;
            let result = summarize(&order, &counts, tally, total);
            proof {
                assert(name_counts(result.names@) =~= counts@);
            }
            let run = Run {
                stage: Stage::Done,
                dry_run,
                recursive,
                policy,
                style,
                order,
                allowed,
                files,
                matched,
                counts,
                tally: CopyTally::new(dry_run),
                pos,
                size,
                rel_path,
                action,
                target,
                log: Ghost(RunView { stage: Stage::Done, ..v }),
            };
            (run, RunAction::Finish(Ok(result)))
        }
    }
}

impl Run {
    /// The `file`-th scanned file (see `RunAction::Inspect`) has `size`
    /// bytes and the path `rel_path` relative to the source folder, and its
    /// name is taken in the destination when `exists`. Its plan
    /// (`plan_for`) decides: a dry run records it and goes on as `next_step`
    /// says; a skipped file is recorded and its progress report is to be
    /// sent; a renamed one waits for a free name; any other is to be copied
    /// under its own name.
    pub fn inspected(self, size: u64, rel_path: String, exists: bool) -> (r: (Run, RunAction))
        requires
            self.wf(),
            self@.stage == Stage::Inspection,
        ensures
            r.0.wf(),
            ({
                let v = self@;
                let j = v.answers.len();
                let total = run_matches(v).len();
                let file = run_matched(v)[j as int] as usize;
                let a = FileAnswer { size, rel_path: rel_path@, exists, ..no_answer() };
                match plan_for(v.dry_run, v.policy, exists) {
                    CopyPlan::Preview => next_step(
                        RunView { stage: Stage::Report, answers: v.answers.push(a), ..v },
                        r.0@,
                        r.1,
                    ),
                    CopyPlan::Skip => {
                        &&& r.0@ == RunView {
                            stage: Stage::Report,
                            answers: v.answers.push(a),
                            reports: v.reports.push(copy_report(j + 1, total)),
                            ..v
                        }
                        &&& r.1 == RunAction::Report(copy_report(j + 1, total))
                    },
                    CopyPlan::Write(CopyAction::Renamed) => {
                        &&& r.0@ == RunView { stage: Stage::FreeName, current: a, ..v }
                        &&& r.1 == RunAction::FindFreeName { file }
                    },
                    CopyPlan::Write(_) => {
                        &&& r.0@ == RunView { stage: Stage::CopyResult, current: a, ..v }
                        &&& r.1 matches RunAction::Copy { file: f, name: n } && f == file && n@
                            == run_matches(v)[j as int]
                    },
                }
            }),
    {
        let mut run = self;
        let ghost v = run.log@;
        let ghost a = FileAnswer { size, rel_path: rel_path@, exists, ..no_answer() };
        let total = run.matched.len();
        let file = run.matched[run.pos];
        proof {
            crate::laws::lemma_matched_indices_below(run_order(v), v.allowed, run_keys(v));
            assert(run.matched@.map_values(|i: usize| i as int)[run.pos as int] == run.matched@[run.pos as int] as int);
            assert(run_keys(v).len() == v.files.len());
        }
        let name = run.files[file].clone();
        assert(name@ == run_matches(v)[run.pos as int]);
        let plan = decide_action(run.dry_run, run.policy, exists);
        match plan {
            CopyPlan::Write(action) => {
                run.size = size;
                run.rel_path = rel_path;
                run.action = action;
                if action == CopyAction::Renamed {
                    run.stage = Stage::FreeName;
                    run.log = Ghost(RunView { stage: Stage::FreeName, current: a, ..v });
                    (run, RunAction::FindFreeName { file })
                } else {
                    run.target = name.clone();
                    run.stage = Stage::CopyResult;
                    run.log = Ghost(RunView { stage: Stage::CopyResult, current: a, ..v });
                    (run, RunAction::Copy { file, name })
                }
            },
            _ => {
                let outcome = if run.dry_run {
                    FileOutcome::Previewed
                } else {
                    FileOutcome::Skipped
                };
                let ghost before = run.tally.copied@;
                let ghost answers = v.answers.push(a);
                let report = run.tally.record_file(run.pos, total, name, rel_path, size, outcome);
                proof {
                    assert(answers.drop_last() =~= v.answers);
                    assert(entry_views(run.tally.copied@) =~= entry_views(before).push(
                        entry_view(run.tally.copied@.last()),
                    ));
                }
                run.pos = run.pos + 1;
                match report {
                    None => {
                        run.stage = Stage::Report;
                        run.log = Ghost(RunView { stage: Stage::Report, answers, ..v });
                        proof {
                            assert(run.log@.reports =~= progress_reports(
                                total as nat,
                                run.dry_run,
                                run.pos as nat,
                            ));
                        }
                        run.reported()
                    },
                    Some(e) => {
                        run.stage = Stage::Report;
                        run.log = Ghost(
                            RunView {
                                stage: Stage::Report,
                                answers,
                                reports: v.reports.push(e),
                                ..v
                            },
                        );
                        proof {
                            assert(run.log@.reports =~= progress_reports(
                                total as nat,
                                run.dry_run,
                                run.pos as nat,
                            ));
                        }
                        (run, RunAction::Report(e))
                    },
                }
            },
        }
    }

    /// The free name found for the file in hand (see `unique_dest`): it is
    /// to be copied under that name.
    pub fn free_name(self, name: String) -> (r: (Run, RunAction))
        requires
            self.wf(),
            self@.stage == Stage::FreeName,
        ensures
            r.0.wf(),
            r.0@ == (RunView {
                stage: Stage::CopyResult,
                current: FileAnswer { free_name: name@, ..self@.current },
                ..self@
            }),
            r.1 matches RunAction::Copy { file: f, name: n } && f == run_matched(
                self@,
            )[self@.answers.len() as int] as usize && n@ == name@,
    {
        let mut run = self;
        let ghost v = run.log@;
        let file = run.matched[run.pos];
        proof {
            assert(run.matched@.map_values(|i: usize| i as int)[run.pos as int] == run.matched@[run.pos as int] as int);
        }
        run.target = name.clone();
        run.stage = Stage::CopyResult;
        run.log = Ghost(
            RunView {
                stage: Stage::CopyResult,
                current: FileAnswer { free_name: name@, ..v.current },
                ..v
            },
        );
        (run, RunAction::Copy { file, name })
    }

    /// How many bytes the files written so far hold.
    pub fn bytes_written(&self) -> (b: u64)
        requires
            self.wf(),
            self@.stage == Stage::CopyResult,
        ensures
            b == record_bytes(run_records(self@).0),
    {
        proof {
            lemma_record_bytes(self.tally.copied@);
        }
        self.tally.total_bytes
    }

    /// The copy of the file in hand succeeded (`Ok`) or failed (with the
    /// system's reason): it is recorded (see `records`) and its progress
    /// report is to be sent. A successful copy must not take the byte total
    /// past `u64::MAX`.
    pub fn copy_done(self, result: Result<(), String>) -> (r: (Run, RunAction))
        requires
            self.wf(),
            self@.stage == Stage::CopyResult,
            result is Ok ==> record_bytes(run_records(self@).0) + self@.current.size <= u64::MAX,
        ensures
            r.0.wf(),
            ({
                let v = self@;
                let j = v.answers.len();
                let total = run_matches(v).len();
                let a = FileAnswer { copy: result_view(result), ..v.current };
                &&& r.0@ == RunView {
                    stage: Stage::Report,
                    answers: v.answers.push(a),
                    reports: v.reports.push(copy_report(j + 1, total)),
                    ..v
                }
                &&& r.1 == RunAction::Report(copy_report(j + 1, total))
            }),
    {
        let mut run = self;
        let ghost v = run.log@;
        let ghost a = FileAnswer { copy: result_view(result), ..v.current };
        let ghost answers = v.answers.push(a);
        let total = run.matched.len();
        let file = run.matched[run.pos];
        proof {
            crate::laws::lemma_matched_indices_below(run_order(v), v.allowed, run_keys(v));
            assert(run.matched@.map_values(|i: usize| i as int)[run.pos as int] == run.matched@[run.pos as int] as int);
            assert(run_keys(v).len() == v.files.len());
            lemma_record_bytes(run.tally.copied@);
            assert(answers.drop_last() =~= v.answers);
        }
        let name = run.files[file].clone();
        assert(name@ == run_matches(v)[run.pos as int]);
        let ghost rv = result_view(result);
        let outcome = match result {
            Ok(()) => FileOutcome::Written { final_name: run.target.clone(), action: run.action },
            Err(reason) => FileOutcome::Failed { reason },
        };
        let ghost before = run.tally.copied@;
        let ghost errs = run.tally.errors@;
        let rel_path = run.rel_path.clone();
        let report = run.tally.record_file(run.pos, total, name, rel_path, run.size, outcome);
        proof {
            let prev = run_records(v);
            let recs = records(v.dry_run, v.policy, run_matches(v), v.scan_errors, answers);
            match rv {
                Ok(_) => {
                    assert(entry_views(run.tally.copied@) =~= entry_views(before).push(
                        entry_view(run.tally.copied@.last()),
                    ));
                    assert(entry_views(run.tally.copied@) == recs.0);
                    assert(views(run.tally.errors@) == recs.1);
                },
                Err(reason) => {
                    assert(entry_views(run.tally.copied@) =~= entry_views(before));
                    assert(views(run.tally.errors@) =~= views(errs).push(
                        copy_error_message(run_matches(v)[run.pos as int], reason),
                    ));
                    assert(entry_views(run.tally.copied@) == recs.0);
                    assert(views(run.tally.errors@) == recs.1);
                },
            }
        }
        run.pos = run.pos + 1;
        let e = report.unwrap();
        run.stage = Stage::Report;
        run.log = Ghost(RunView { stage: Stage::Report, answers, reports: v.reports.push(e), ..v });
        proof {
            assert(run.log@.reports =~= progress_reports(total as nat, run.dry_run, run.pos as nat));
        }
        (run, RunAction::Report(e))
    }
}

/// A dry run records every matched file once, in order, as copied, under
/// its own name with its relative path and size, and no error but the walk's.
pub proof fn law_dry_run_records_every_match(
    policy: ConflictPolicy,
    names: Seq<Seq<char>>,
    scan_errors: Seq<Seq<char>>,
    answers: Seq<FileAnswer>,
)
    requires
        answers.len() <= names.len(),
    ensures
        records(true, policy, names, scan_errors, answers).0 == Seq::new(
            answers.len(),
            |i: int| (names[i], answers[i].rel_path, answers[i].size, CopyAction::Copied),
        ),
        records(true, policy, names, scan_errors, answers).1 == scan_messages(scan_errors),
    decreases answers.len(),
{
    if answers.len() > 0 {
        law_dry_run_records_every_match(policy, names, scan_errors, answers.drop_last());
        assert(records(true, policy, names, scan_errors, answers).0 =~= Seq::new(
            answers.len(),
            |i: int| (names[i], answers[i].rel_path, answers[i].size, CopyAction::Copied),
        ));
    } else {
        assert(records(true, policy, names, scan_errors, answers).0 =~= Seq::new(
            answers.len(),
            |i: int| (names[i], answers[i].rel_path, answers[i].size, CopyAction::Copied),
        ));
    }
}

/// Every handled file of a run is accounted for exactly once: it is recorded
/// or its failed copy left an error message after the walk's.
pub proof fn law_every_file_accounted_for(
    dry_run: bool,
    policy: ConflictPolicy,
    names: Seq<Seq<char>>,
    scan_errors: Seq<Seq<char>>,
    answers: Seq<FileAnswer>,
)
    ensures
        records(dry_run, policy, names, scan_errors, answers).0.len() + records(
            dry_run,
            policy,
            names,
            scan_errors,
            answers,
        ).1.len() == answers.len() + scan_errors.len(),
        records(dry_run, policy, names, scan_errors, answers).1.len() >= scan_errors.len(),
        records(dry_run, policy, names, scan_errors, answers).1.take(scan_errors.len() as int)
            == scan_messages(scan_errors),
    decreases answers.len(),
{
    if answers.len() > 0 {
        law_every_file_accounted_for(dry_run, policy, names, scan_errors, answers.drop_last());
        let prev = records(dry_run, policy, names, scan_errors, answers.drop_last()).1;
        let now = records(dry_run, policy, names, scan_errors, answers).1;
        if now.len() > prev.len() {
            assert(now =~= prev.push(now.last()));
            assert(now.take(scan_errors.len() as int) =~= prev.take(scan_errors.len() as int));
        }
    } else {
        assert(scan_messages(scan_errors).take(scan_errors.len() as int) =~= scan_messages(
            scan_errors,
        ));
    }
}

/// The name of a file entry, or the reason of an unreadable one.
pub open spec fn entry_text(e: ScanEntry) -> Seq<char> {
    match e {
        ScanEntry::File(name) => name@,
        ScanEntry::Unreadable(reason) => reason@,
    }
}

/// The walk's entries are all kept, in walk order: the scanned files are the
/// names of every file entry, one per entry (files of the same name in
/// different folders included), and the scan errors the reasons of every
/// unreadable entry; together they are as many as the entries.
pub proof fn law_scan_keeps_every_entry(es: Seq<ScanEntry>)
    ensures
        scanned_files(es) == es.filter(|e: ScanEntry| e is File).map_values(
            |e: ScanEntry| entry_text(e),
        ),
        scanned_errors(es) == es.filter(|e: ScanEntry| e is Unreadable).map_values(
            |e: ScanEntry| entry_text(e),
        ),
        scanned_files(es).len() + scanned_errors(es).len() == es.len(),
    decreases es.len(),
{
    reveal(Seq::filter);
    let pf = |e: ScanEntry| e is File;
    let pu = |e: ScanEntry| e is Unreadable;
    let t = |e: ScanEntry| entry_text(e);
    if es.len() == 0 {
        assert(es.filter(pf).map_values(t) =~= Seq::<Seq<char>>::empty());
        assert(es.filter(pu).map_values(t) =~= Seq::<Seq<char>>::empty());
    } else {
        law_scan_keeps_every_entry(es.drop_last());
        let rest = es.drop_last();
        match es.last() {
            ScanEntry::File(name) => {
                assert(es.filter(pf) == rest.filter(pf).push(es.last()));
                assert(es.filter(pu) == rest.filter(pu));
                assert(rest.filter(pf).push(es.last()).map_values(t) =~= rest.filter(pf).map_values(
                    t,
                ).push(name@));
            },
            ScanEntry::Unreadable(reason) => {
                assert(es.filter(pu) == rest.filter(pu).push(es.last()));
                assert(es.filter(pf) == rest.filter(pf));
                assert(rest.filter(pu).push(es.last()).map_values(t) =~= rest.filter(pu).map_values(
                    t,
                ).push(reason@));
            },
        }
    }
}

} // verus!
