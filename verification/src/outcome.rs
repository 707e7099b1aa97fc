use vstd::prelude::*;

use crate::text::same_text;

verus! {

/// What was done with one matched file, as the report names it.
#[derive(PartialEq, Eq, Structural, Clone, Copy, Debug)]
pub enum CopyAction {
    /// Copied under its own name (on a dry run: would be, nothing is written).
    Copied,
    /// Copied under a new name, its own being taken.
    Renamed,
    /// Not copied, its name being taken.
    Skipped,
    /// Copied over the file that had its name.
    Overwritten,
}

/// The word the report uses for an action.
pub open spec fn action_label(a: CopyAction) -> Seq<char> {
    match a {
        CopyAction::Copied => "copied"@,
        CopyAction::Renamed => "renamed"@,
        CopyAction::Skipped => "skipped"@,
        CopyAction::Overwritten => "overwritten"@,
    }
}

impl CopyAction {
    pub fn label(&self) -> (r: String)
        ensures
            r@ == action_label(*self),
    {
        match self {
            CopyAction::Copied => "copied".to_owned(),
            CopyAction::Renamed => "renamed".to_owned(),
            CopyAction::Skipped => "skipped".to_owned(),
            CopyAction::Overwritten => "overwritten".to_owned(),
        }
    }
}

/// What to do when the destination already has a file of the same name.
#[derive(PartialEq, Eq, Structural, Clone, Copy, Debug)]
pub enum ConflictPolicy {
    Skip,
    Rename,
    Overwrite,
}

/// "skip" and "overwrite" name their policies; anything else renames.
pub open spec fn policy_of(mode: Seq<char>) -> ConflictPolicy {
    if mode == "skip"@ {
        ConflictPolicy::Skip
    } else if mode == "overwrite"@ {
        ConflictPolicy::Overwrite
    } else {
        ConflictPolicy::Rename
    }
}

/// Reads the request's `on_conflict` setting.
pub fn conflict_policy(on_conflict: &str) -> (r: ConflictPolicy)
    ensures
        r == policy_of(on_conflict@),
{
    if same_text(on_conflict, "skip") {
        ConflictPolicy::Skip
    } else if same_text(on_conflict, "overwrite") {
        ConflictPolicy::Overwrite
    } else {
        ConflictPolicy::Rename
    }
}

/// What to do with one matched file.
#[derive(PartialEq, Eq, Structural, Clone, Copy, Debug)]
pub enum CopyPlan {
    /// Dry run: record the match, write nothing.
    Preview,
    /// Leave it: its name is taken and the policy says skip.
    Skip,
    /// Copy it; `Renamed` means under the first free name.
    Write(CopyAction),
}

/// The plan for a matched file: a dry run only records it; a free name is
/// copied to; a taken name is skipped, overwritten or renamed as the policy
/// says.
pub open spec fn plan_for(dry_run: bool, policy: ConflictPolicy, target_exists: bool) -> CopyPlan {
    if dry_run {
        CopyPlan::Preview
    } else if !target_exists {
        CopyPlan::Write(CopyAction::Copied)
    } else {
        match policy {
            ConflictPolicy::Skip => CopyPlan::Skip,
            ConflictPolicy::Overwrite => CopyPlan::Write(CopyAction::Overwritten),
            ConflictPolicy::Rename => CopyPlan::Write(CopyAction::Renamed),
        }
    }
}

/// Decides what to do with one matched file. `target_exists` says whether the
/// destination already has a file of its name (it is not looked at on a dry
/// run).
pub fn decide_action(dry_run: bool, policy: ConflictPolicy, target_exists: bool) -> (r: CopyPlan)
    ensures
        r == plan_for(dry_run, policy, target_exists),
{
    if dry_run {
        CopyPlan::Preview
    } else if !target_exists {
        CopyPlan::Write(CopyAction::Copied)
    } else {
        match policy {
            ConflictPolicy::Skip => CopyPlan::Skip,
            ConflictPolicy::Overwrite => CopyPlan::Write(CopyAction::Overwritten),
            ConflictPolicy::Rename => CopyPlan::Write(CopyAction::Renamed),
        }
    }
}

/// One matched file and what was done with it.
pub struct CopiedFile {
    /// The name it has in the destination (its own, or the new one).
    pub file_name: String,
    /// Its path relative to the source folder, for display.
    pub rel_path: String,
    pub size: u64,
    pub action: CopyAction,
}

/// How many files matched one requested name.
pub struct NameResult {
    pub name: String,
    pub count: usize,
}

/// The report of a run.
pub struct FilterResult {
    pub requested: usize,
    pub matched_names: usize,
    pub copied_count: usize,
    pub skipped_count: usize,
    pub total_bytes: u64,
    pub names: Vec<NameResult>,
    pub copied: Vec<CopiedFile>,
    pub not_found: Vec<String>,
    pub errors: Vec<String>,
    pub dry_run: bool,
}

/// The stage a progress report is about.
#[derive(PartialEq, Eq, Structural, Clone, Copy, Debug)]
pub enum Phase {
    Scan,
    Copy,
}

pub open spec fn phase_label(p: Phase) -> Seq<char> {
    match p {
        Phase::Scan => "scan"@,
        Phase::Copy => "copy"@,
    }
}

impl Phase {
    pub fn label(&self) -> (r: String)
        ensures
            r@ == phase_label(*self),
    {
        match self {
            Phase::Scan => "scan".to_owned(),
            Phase::Copy => "copy".to_owned(),
        }
    }
}

/// A progress report: `done` of `total` files handled in `phase`.
#[derive(PartialEq, Eq, Structural, Clone, Copy, Debug)]
pub struct ProgressEvent {
    pub phase: Phase,
    pub done: usize,
    pub total: usize,
}

/// The report sent once the scan has found `total` matching files.
pub fn scan_finished(total: usize) -> (e: ProgressEvent)
    ensures
        e == (ProgressEvent { phase: Phase::Scan, done: total, total }),
{
    ProgressEvent { phase: Phase::Scan, done: total, total }
}

/// How the handling of one matched file ended.
pub enum FileOutcome {
    /// Dry run: recorded, nothing written.
    Previewed,
    /// Left alone, its name being taken.
    Skipped,
    /// Copied, with the name it got and the action (copied, renamed or
    /// overwritten).
    Written { final_name: String, action: CopyAction },
    /// The copy failed, for the given reason.
    Failed { reason: String },
}

/// The running record of the copy phase.
pub struct CopyTally {
    pub dry_run: bool,
    pub copied: Vec<CopiedFile>,
    pub skipped_count: usize,
    pub total_bytes: u64,
    pub errors: Vec<String>,
}

/// How many recorded files have the given action.
pub open spec fn count_action(entries: Seq<CopiedFile>, a: CopyAction) -> nat
    decreases entries.len(),
{
    if entries.len() == 0 {
        0
    } else {
        count_action(entries.drop_last(), a) + if entries.last().action == a {
            1nat
        } else {
            0nat
        }
    }
}

/// Total size of the recorded files that were not skipped.
pub open spec fn unskipped_bytes(entries: Seq<CopiedFile>) -> nat
    decreases entries.len(),
{
    if entries.len() == 0 {
        0
    } else {
        unskipped_bytes(entries.drop_last()) + if entries.last().action is Skipped {
            0nat
        } else {
            entries.last().size as nat
        }
    }
}

pub proof fn lemma_count_action_bound(entries: Seq<CopiedFile>, a: CopyAction)
    ensures
        count_action(entries, a) <= entries.len(),
    decreases entries.len(),
{
    if entries.len() > 0 {
        lemma_count_action_bound(entries.drop_last(), a);
    }
}

/// The message recorded for a failed copy.
pub open spec fn copy_error_message(file_name: Seq<char>, reason: Seq<char>) -> Seq<char> {
    "Lỗi chép "@ + file_name + ": "@ + reason
}

/// The message recorded for a folder entry that could not be read.
pub open spec fn scan_error_message(reason: Seq<char>) -> Seq<char> {
    "Lỗi đọc: "@ + reason
}

impl CopyTally {
    /// The counters agree with the recorded files: skipped files are counted,
    /// a real run adds up the sizes of the files not skipped, and a dry run
    /// writes nothing, records every match as copied and counts no bytes.
    pub open spec fn wf(&self) -> bool {
        &&& self.skipped_count == count_action(self.copied@, CopyAction::Skipped)
        &&& self.total_bytes == if self.dry_run {
            0
        } else {
            unskipped_bytes(self.copied@)
        }
        &&& self.dry_run ==> forall|i: int|
            0 <= i < self.copied@.len() ==> (#[trigger] self.copied@[i]).action is Copied
    }

    pub fn new(dry_run: bool) -> (t: CopyTally)
        ensures
            t.wf(),
            t.dry_run == dry_run,
            t.copied@.len() == 0,
            t.errors@.len() == 0,
    {
        CopyTally {
            dry_run,
            copied: Vec::new(),
            skipped_count: 0,
            total_bytes: 0,
            errors: Vec::new(),
        }
    }

    /// Records how the handling of the `index`-th of `total` matched files
    /// ended, and gives the progress report to send, if any: none on a dry
    /// run, else `index + 1` of `total` copied.
    ///
    /// A previewed file is recorded as copied (nothing written, no bytes); a
    /// skipped one as skipped; a written one under the name it got, adding its
    /// size; a failed copy records an error and no file.
    pub fn record_file(
        &mut self,
        index: usize,
        total: usize,
        file_name: String,
        rel_path: String,
        size: u64,
        outcome: FileOutcome,
    ) -> (p: Option<ProgressEvent>)
        requires
            old(self).wf(),
            index < total,
            (outcome is Previewed) == old(self).dry_run,
            outcome matches FileOutcome::Written { action, .. } ==> !(action is Skipped)
                && old(self).total_bytes + size <= u64::MAX,
        ensures
            final(self).wf(),
            final(self).dry_run == old(self).dry_run,
            p == if old(self).dry_run {
                None
            } else {
                Some(ProgressEvent { phase: Phase::Copy, done: (index + 1) as usize, total })
            },
            match outcome {
                FileOutcome::Previewed => {
                    &&& final(self).copied@ == old(self).copied@.push(
                        CopiedFile { file_name, rel_path, size, action: CopyAction::Copied },
                    )
                    &&& final(self).errors@ == old(self).errors@
                },
                FileOutcome::Skipped => {
                    &&& final(self).copied@ == old(self).copied@.push(
                        CopiedFile { file_name, rel_path, size, action: CopyAction::Skipped },
                    )
                    &&& final(self).errors@ == old(self).errors@
                },
                FileOutcome::Written { final_name, action } => {
                    &&& final(self).copied@ == old(self).copied@.push(
                        CopiedFile { file_name: final_name, rel_path, size, action },
                    )
                    &&& final(self).errors@ == old(self).errors@
                },
                FileOutcome::Failed { reason } => {
                    &&& final(self).copied@ == old(self).copied@
                    &&& final(self).errors@.len() == old(self).errors@.len() + 1
                    &&& final(self).errors@.drop_last() == old(self).errors@
                    &&& final(self).errors@.last()@ == copy_error_message(file_name@, reason@)
                },
            },
    {
        let ghost before = self.copied@;
        let entry = match outcome {
            FileOutcome::Previewed => CopiedFile {
                file_name,
                rel_path,
                size,
                action: CopyAction::Copied,
            },
            FileOutcome::Skipped => CopiedFile {
                file_name,
                rel_path,
                size,
                action: CopyAction::Skipped,
            },
            FileOutcome::Written { final_name, action } => CopiedFile {
                file_name: final_name,
                rel_path,
                size,
                action,
            },
            FileOutcome::Failed { reason } => {
                let mut m = "Lỗi chép ".to_owned();
                m.append(file_name.as_str());
                m.append(": ");
                m.append(reason.as_str());
                let ghost eb = self.errors@;
                self.errors.push(m);
                assert(self.errors@.drop_last() =~= eb);
                return Some(ProgressEvent { phase: Phase::Copy, done: index + 1, total });
            },
        };
        let action = entry.action;
        let size = entry.size;
        self.copied.push(entry);
        // The length of a vector fits in `usize`: this bounds the skip count.
        let _ = self.copied.len();
        assert(self.copied@.drop_last() =~= before);
        proof {
            lemma_count_action_bound(before, CopyAction::Skipped);
        }
        if action == CopyAction::Skipped {
            self.skipped_count = self.skipped_count + 1;
        } else if !self.dry_run {
            self.total_bytes = self.total_bytes + size;
        }
        assert forall|i: int| self.dry_run && 0 <= i < self.copied@.len() implies (
        #[trigger] self.copied@[i]).action is Copied by {
            if i < before.len() {
                assert(self.copied@[i] == before[i]);
            }
        }
        if self.dry_run {
            None
        } else {
            Some(ProgressEvent { phase: Phase::Copy, done: index + 1, total })
        }
    }

    /// Records a folder entry that could not be read.
    pub fn record_scan_error(&mut self, reason: String)
        ensures
            final(self).dry_run == old(self).dry_run,
            final(self).copied@ == old(self).copied@,
            final(self).skipped_count == old(self).skipped_count,
            final(self).total_bytes == old(self).total_bytes,
            final(self).errors@.len() == old(self).errors@.len() + 1,
            final(self).errors@.drop_last() == old(self).errors@,
            final(self).errors@.last()@ == scan_error_message(reason@),
    {
        let mut m = "Lỗi đọc: ".to_owned();
        m.append(reason.as_str());
        let ghost eb = self.errors@;
        self.errors.push(m);
        assert(self.errors@.drop_last() =~= eb);
    }
}

/// The requested names that no file matched, in request order.
pub open spec fn unmatched_upto(names: Seq<Seq<char>>, counts: Seq<usize>, n: nat) -> Seq<Seq<char>>
    decreases n,
{
    if n == 0 {
        Seq::empty()
    } else {
        let prev = unmatched_upto(names, counts, (n - 1) as nat);
        if counts[n - 1] == 0 {
            prev.push(names[n - 1])
        } else {
            prev
        }
    }
}

/// How many of the first `n` requested names some file matched.
pub open spec fn matched_upto(counts: Seq<usize>, n: nat) -> nat
    decreases n,
{
    if n == 0 {
        0
    } else {
        matched_upto(counts, (n - 1) as nat) + if counts[n - 1] > 0 {
            1nat
        } else {
            0nat
        }
    }
}

pub proof fn lemma_matched_upto_bound(counts: Seq<usize>, n: nat)
    ensures
        matched_upto(counts, n) <= n,
    decreases n,
{
    if n > 0 {
        lemma_matched_upto_bound(counts, (n - 1) as nat);
    }
}

/// Puts the report together: one line per requested name with its count,
/// the names nothing matched, how many names matched, and how many files
/// were copied (every match on a dry run, else every file not skipped).
/// `total` is the number of matched files.
pub fn summarize(
    order: &Vec<String>,
    counts: &Vec<usize>,
    tally: CopyTally,
    total: usize,
) -> (r: FilterResult)
    requires
        counts@.len() == order@.len(),
        tally.wf(),
    ensures
        r.requested == order@.len(),
        r.names@.len() == order@.len(),
        forall|j: int|
            0 <= j < order@.len() ==> (#[trigger] r.names@[j]).name@ == order@[j]@
                && r.names@[j].count == counts@[j],
        crate::request::views(r.not_found@) == unmatched_upto(
            crate::request::views(order@),
            counts@,
            order@.len() as nat,
        ),
        r.matched_names == matched_upto(counts@, order@.len() as nat),
        r.copied_count == if tally.dry_run {
            total as int
        } else {
            tally.copied@.len() - count_action(tally.copied@, CopyAction::Skipped)
        },
        r.skipped_count == tally.skipped_count,
        r.total_bytes == tally.total_bytes,
        r.skipped_count == count_action(r.copied@, CopyAction::Skipped),
        r.total_bytes == if tally.dry_run {
            0
        } else {
            unskipped_bytes(r.copied@)
        },
        tally.dry_run ==> forall|i: int|
            0 <= i < r.copied@.len() ==> (#[trigger] r.copied@[i]).action is Copied,
        r.copied@ == tally.copied@,
        r.errors@ == tally.errors@,
        r.dry_run == tally.dry_run,
{
    let ghost ord = crate::request::views(order@);
    let mut names: Vec<NameResult> = Vec::new();
    let mut not_found: Vec<String> = Vec::new();
    let mut matched_names: usize = 0;
    let mut j: usize = 0;
    while j < order.len()
        invariant
            j <= order@.len(),
            counts@.len() == order@.len(),
            ord == crate::request::views(order@),
            names@.len() == j,
            forall|k: int|
                0 <= k < j ==> (#[trigger] names@[k]).name@ == order@[k]@ && names@[k].count
                    == counts@[k],
            crate::request::views(not_found@) == unmatched_upto(ord, counts@, j as nat),
            matched_names == matched_upto(counts@, j as nat),
        decreases order@.len() - j,
    {
        proof {
            lemma_matched_upto_bound(counts@, j as nat);
        }
        let count = counts[j];
        if count > 0 {
            matched_names = matched_names + 1;
        } else {
            let ghost before = not_found@;
            not_found.push(order[j].clone());
            assert(crate::request::views(not_found@) =~= crate::request::views(before).push(
                ord[j as int],
            ));
        }
        names.push(NameResult { name: order[j].clone(), count });
        j += 1;
    }
    proof {
        lemma_count_action_bound(tally.copied@, CopyAction::Skipped);
    }
    let dry_run = tally.dry_run;
    let copied_count = if dry_run {
        total
    } else {
        tally.copied.len() - tally.skipped_count
    };
    FilterResult {
        requested: order.len(),
        matched_names,
        copied_count,
        skipped_count: tally.skipped_count,
        total_bytes: tally.total_bytes,
        names,
        copied: tally.copied,
        not_found,
        errors: tally.errors,
        dry_run,
    }
}

} // verus!
