//! The decisions of one reconciliation run, as a state machine: the caller
//! performs the action of the current phase and reports how it went.
//!
//! Snapshots are numbered in merge order, `0..=conflicts`, the canonical
//! database among them. Every snapshot file is copied into the backup folder
//! before it is deleted, nothing is written before the merged records were
//! imported into a fresh location, and any failure ends the run at once.

use vstd::prelude::*;

verus! {

#[derive(Clone, Copy, Debug, PartialEq, Eq)]
pub enum Phase {
    Scanning,
    Extracting { next: usize },
    Reimporting,
    CreatingBackupDir,
    BackingUp { next: usize },
    Deleting { next: usize },
    Replacing,
    Pruning,
    Finished,
    Aborted,
}

#[derive(Clone, Copy, Debug, PartialEq, Eq)]
pub enum Event {
    /// The scan found this many conflict snapshots.
    Scanned { conflicts: usize },
    /// The action succeeded.
    Done,
    /// The action failed.
    Failed,
}

#[derive(Clone, Copy, Debug, PartialEq, Eq)]
pub enum Action {
    /// List the data directory for conflict snapshots.
    Scan,
    /// Read the records of this snapshot into the history.
    Extract(usize),
    /// Merge the history and import the result into a fresh location.
    Reimport,
    /// Create a new backup folder named by the current time.
    CreateBackupDir,
    /// Copy this snapshot's file into the backup folder.
    Backup(usize),
    /// Delete this snapshot's file from the data directory.
    Delete(usize),
    /// Copy the imported database over the canonical one.
    ReplaceCanonical,
    /// Delete the oldest backup folders beyond the retention count.
    Prune,
    /// Nothing more to do.
    Stop,
}

#[derive(Clone, Copy, Debug, PartialEq, Eq)]
pub struct Run {
    pub phase: Phase,
    /// Conflict snapshots found; the canonical database makes one more.
    pub conflicts: usize,
    /// Only scan, extract and merge: write and delete nothing.
    pub dry_run: bool,
}

/// The phase that follows `r` on event `e`.
pub open spec fn next_phase(r: Run, e: Event) -> Phase {
    match (r.phase, e) {
        (Phase::Finished, _) => Phase::Finished,
        (Phase::Aborted, _) => Phase::Aborted,
        (_, Event::Failed) => Phase::Aborted,
        (Phase::Scanning, Event::Scanned { conflicts }) => if conflicts == 0 {
            if r.dry_run {
                Phase::Finished
            } else {
                Phase::Pruning
            }
        } else {
            Phase::Extracting { next: 0 }
        },
        (_, Event::Scanned { .. }) => Phase::Aborted,
        (Phase::Scanning, Event::Done) => Phase::Aborted,
        (Phase::Extracting { next }, Event::Done) => if next < r.conflicts {
            Phase::Extracting { next: (next + 1) as usize }
        } else if r.dry_run {
            Phase::Finished
        } else {
            Phase::Reimporting
        },
        (Phase::Reimporting, Event::Done) => Phase::CreatingBackupDir,
        (Phase::CreatingBackupDir, Event::Done) => Phase::BackingUp { next: 0 },
        (Phase::BackingUp { next }, Event::Done) => Phase::Deleting { next },
        (Phase::Deleting { next }, Event::Done) => if next < r.conflicts {
            Phase::BackingUp { next: (next + 1) as usize }
        } else {
            Phase::Replacing
        },
        (Phase::Replacing, Event::Done) => Phase::Pruning,
        (Phase::Pruning, Event::Done) => Phase::Finished,
    }
}

/// The run after event `e`.
pub open spec fn next_run(r: Run, e: Event) -> Run {
    Run {
        phase: next_phase(r, e),
        conflicts: match (r.phase, e) {
            (Phase::Scanning, Event::Scanned { conflicts }) => conflicts,
            _ => r.conflicts,
        },
        dry_run: r.dry_run,
    }
}

/// The run after the events of `es`, in order.
pub open spec fn run_after(r: Run, es: Seq<Event>) -> Run
    decreases es.len(),
{
    if es.len() == 0 {
        r
    } else {
        next_run(run_after(r, es.drop_last()), es.last())
    }
}

/// The action the caller performs in phase `p`.
pub open spec fn action_of(p: Phase) -> Action {
    match p {
        Phase::Scanning => Action::Scan,
        Phase::Extracting { next } => Action::Extract(next),
        Phase::Reimporting => Action::Reimport,
        Phase::CreatingBackupDir => Action::CreateBackupDir,
        Phase::BackingUp { next } => Action::Backup(next),
        Phase::Deleting { next } => Action::Delete(next),
        Phase::Replacing => Action::ReplaceCanonical,
        Phase::Pruning => Action::Prune,
        Phase::Finished => Action::Stop,
        Phase::Aborted => Action::Stop,
    }
}

/// Phases whose action imports, backs up, deletes or replaces.
pub open spec fn is_merge_work(p: Phase) -> bool {
    match p {
        Phase::Reimporting | Phase::CreatingBackupDir | Phase::BackingUp { .. }
        | Phase::Deleting { .. } | Phase::Replacing => true,
        _ => false,
    }
}

/// Phases whose action changes a file or folder.
pub open spec fn writes(p: Phase) -> bool {
    is_merge_work(p) || p == Phase::Pruning
}

impl Run {
    /// A run that has not scanned yet.
    pub fn new(dry_run: bool) -> (r: Self)
        ensures
            r.phase == Phase::Scanning,
            r.conflicts == 0,
            r.dry_run == dry_run,
    {
        Run { phase: Phase::Scanning, conflicts: 0, dry_run }
    }

    pub open spec fn wf(self) -> bool {
        match self.phase {
            Phase::Extracting { next } | Phase::BackingUp { next } | Phase::Deleting { next } => next
                <= self.conflicts,
            _ => true,
        }
    }

    /// What the caller does now.
    pub fn action(&self) -> (a: Action)
        ensures
            a == action_of(self.phase),
    {
        match self.phase {
            Phase::Scanning => Action::Scan,
            Phase::Extracting { next } => Action::Extract(next),
            Phase::Reimporting => Action::Reimport,
            Phase::CreatingBackupDir => Action::CreateBackupDir,
            Phase::BackingUp { next } => Action::Backup(next),
            Phase::Deleting { next } => Action::Delete(next),
            Phase::Replacing => Action::ReplaceCanonical,
            Phase::Pruning => Action::Prune,
            Phase::Finished => Action::Stop,
            Phase::Aborted => Action::Stop,
        }
    }

    /// Whether the run is over.
    pub fn is_over(&self) -> (b: bool)
        ensures
            b == (self.phase == Phase::Finished || self.phase == Phase::Aborted),
    {
        match self.phase {
            Phase::Finished | Phase::Aborted => true,
            _ => false,
        }
    }

    /// The run after the caller reports event `e`.
    pub fn step(&self, e: Event) -> (r: Run)
        requires
            self.wf(),
        ensures
            r == next_run(*self, e),
            r.wf(),
    {
        let conflicts = match (self.phase, e) {
            (Phase::Scanning, Event::Scanned { conflicts }) => conflicts,
            _ => self.conflicts,
        };
        let phase = match (self.phase, e) {
            (Phase::Finished, _) => Phase::Finished,
            (Phase::Aborted, _) => Phase::Aborted,
            (_, Event::Failed) => Phase::Aborted,
            (Phase::Scanning, Event::Scanned { conflicts }) => if conflicts == 0 {
                if self.dry_run {
                    Phase::Finished
                } else {
                    Phase::Pruning
                }
            } else {
                Phase::Extracting { next: 0 }
            },
            (_, Event::Scanned { .. }) => Phase::Aborted,
            (Phase::Scanning, Event::Done) => Phase::Aborted,
            (Phase::Extracting { next }, Event::Done) => if next < self.conflicts {
                Phase::Extracting { next: next + 1 }
            } else if self.dry_run {
                Phase::Finished
            } else {
                Phase::Reimporting
            },
            (Phase::Reimporting, Event::Done) => Phase::CreatingBackupDir,
            (Phase::CreatingBackupDir, Event::Done) => Phase::BackingUp { next: 0 },
            (Phase::BackingUp { next }, Event::Done) => Phase::Deleting { next },
            (Phase::Deleting { next }, Event::Done) => if next < self.conflicts {
                Phase::BackingUp { next: next + 1 }
            } else {
                Phase::Replacing
            },
            (Phase::Replacing, Event::Done) => Phase::Pruning,
            (Phase::Pruning, Event::Done) => Phase::Finished,
        };
        Run { phase, conflicts, dry_run: self.dry_run }
    }
}

/// Once finished or aborted, a run stays so whatever is reported.
pub proof fn lemma_end_is_final(r: Run, es: Seq<Event>)
    requires
        r.phase == Phase::Finished || r.phase == Phase::Aborted,
    ensures
        run_after(r, es).phase == r.phase,
    decreases es.len(),
{
    if es.len() > 0 {
        lemma_end_is_final(r, es.drop_last());
    }
}

proof fn lemma_quiet_stays_quiet(r: Run, es: Seq<Event>)
    requires
        r.phase == Phase::Pruning || r.phase == Phase::Finished || r.phase == Phase::Aborted,
    ensures
        !is_merge_work(run_after(r, es).phase),
        run_after(r, es).phase == Phase::Pruning || run_after(r, es).phase == Phase::Finished
            || run_after(r, es).phase == Phase::Aborted,
    decreases es.len(),
{
    if es.len() > 0 {
        lemma_quiet_stays_quiet(r, es.drop_last());
    }
}

/// A scan that finds no conflict leads to no import, backup, deletion or
/// replacement, whatever follows; a dry run then writes nothing at all.
pub proof fn lemma_no_conflicts_no_merge_work(dry_run: bool, es: Seq<Event>)
    ensures
        ({
            let r = next_run(Run { phase: Phase::Scanning, conflicts: 0, dry_run }, Event::Scanned { conflicts: 0 });
            &&& !is_merge_work(run_after(r, es).phase)
            &&& dry_run ==> !writes(run_after(r, es).phase)
        }),
{
    let r = next_run(Run { phase: Phase::Scanning, conflicts: 0, dry_run }, Event::Scanned { conflicts: 0 });
    lemma_quiet_stays_quiet(r, es);
    if dry_run {
        lemma_end_is_final(r, es);
    }
}

/// A snapshot is deleted only right after its backup copy succeeded.
pub proof fn lemma_delete_follows_backup(r: Run, e: Event, i: usize)
    requires
        next_run(r, e).phase == (Phase::Deleting { next: i }),
    ensures
        r.phase == (Phase::BackingUp { next: i }),
        e == Event::Done,
{
}

/// A failed backup ends the run: nothing is deleted or replaced afterwards,
/// so the snapshot and the canonical database stay where they were.
pub proof fn lemma_backup_failure_keeps_files(r: Run, i: usize, es: Seq<Event>)
    requires
        r.phase == (Phase::BackingUp { next: i }),
    ensures
        ({
            let after = run_after(next_run(r, Event::Failed), es);
            &&& after.phase == Phase::Aborted
            &&& !writes(after.phase)
        }),
{
    lemma_end_is_final(next_run(r, Event::Failed), es);
}

/// Any failure ends the run.
pub proof fn lemma_failure_aborts(r: Run)
    requires
        r.phase != Phase::Finished,
    ensures
        next_run(r, Event::Failed).phase == Phase::Aborted,
{
}

/// Files are written only after the merged records were imported: from the
/// start, a run reaches a backup, deletion or replacement only through a
/// successful import.
pub proof fn lemma_writes_after_import(r: Run, e: Event)
    requires
        next_run(r, e).phase == Phase::CreatingBackupDir,
    ensures
        r.phase == Phase::Reimporting,
        e == Event::Done,
{
}

proof fn lemma_dry_run_stays_read_only(r: Run, es: Seq<Event>)
    requires
        r.dry_run,
        match r.phase {
            Phase::Scanning | Phase::Extracting { .. } | Phase::Finished | Phase::Aborted => true,
            _ => false,
        },
    ensures
        !writes(run_after(r, es).phase),
        run_after(r, es).dry_run,
        match run_after(r, es).phase {
            Phase::Scanning | Phase::Extracting { .. } | Phase::Finished | Phase::Aborted => true,
            _ => false,
        },
    decreases es.len(),
{
    if es.len() > 0 {
        lemma_dry_run_stays_read_only(r, es.drop_last());
    }
}

/// A dry run, whatever is reported to it, never imports, backs up, deletes,
/// replaces or prunes.
pub proof fn lemma_dry_run_writes_nothing(es: Seq<Event>)
    ensures
        !writes(run_after(Run { phase: Phase::Scanning, conflicts: 0, dry_run: true }, es).phase),
{
    lemma_dry_run_stays_read_only(Run { phase: Phase::Scanning, conflicts: 0, dry_run: true }, es);
}

} // verus!
