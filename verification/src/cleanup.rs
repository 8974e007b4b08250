//! The decisions of a cleanup run, as a session that says what to do next and is told
//! what happened.
//!
//! The caller performs each [`CleanupAction`] on the file system and answers with the
//! matching [`CleanupEvent`]. Selected Recycle Bin items are handled together by
//! emptying the system Recycle Bin once, and only when it holds something; every other
//! selected item is checked and deleted (with one retry after a permission failure).

use vstd::prelude::*;
use crate::model::{CleanupItem, CleanupPlan, CleanupProgress, CleanupReport, item_views};
use crate::progress::{cleanup_percent, percent_of, lemma_percent_monotone};
use crate::text::{chars_of, chars_eq};

verus! {

/// The kind of a failed file system operation.
#[derive(Debug, Clone, Copy, PartialEq, Eq, Structural)]
pub enum IoFailureKind {
    NotFound,
    PermissionDenied,
    Other,
}

/// A failed file system operation, as values.
#[derive(Debug, Clone)]
pub struct IoFailure {
    pub kind: IoFailureKind,
    /// The operating system's error code, when there is one.
    pub raw_os_error: Option<i32>,
    /// The error as text.
    pub message: String,
}

/// The failure is a sharing violation: another program holds the file open.
pub open spec fn locked(e: IoFailure) -> bool {
    e.raw_os_error == Some(32i32)
}

/// Whether the failure is a sharing violation (Windows error 32).
pub fn is_locked_error(e: &IoFailure) -> (r: bool)
    ensures
        r == locked(*e),
{
    match e.raw_os_error {
        Some(code) => code == 32,
        None => false,
    }
}

/// What the caller should do next.
#[derive(Debug, Clone)]
pub enum CleanupAction {
    /// Measure how many bytes the system Recycle Bins hold.
    MeasureRecycleBin,
    /// Empty the system Recycle Bin.
    EmptyRecycleBin,
    /// Tell whether the path exists.
    CheckExists(String),
    /// Delete the path.
    Delete(String),
    /// Clear read-only flags under the path, grant administrators the right to delete
    /// it, and delete it again.
    RetryDelete(String),
    /// Nothing is left to do.
    Finished,
}

/// What happened.
#[derive(Debug)]
pub enum CleanupEvent {
    RecycleBinMeasured(u64),
    RecycleBinEmptied(Result<(), IoFailure>),
    Exists(bool),
    Deleted(Result<(), IoFailure>),
}

/// Where a session stands.
#[derive(Debug, Clone, Copy)]
pub enum Pending {
    MeasureRecycleBin,
    EmptyRecycleBin { live: u64 },
    CheckExists { index: usize },
    Delete { index: usize, retried: bool },
    Finished,
}

/// A cleanup report as values.
pub struct ReportView {
    pub freed: int,
    pub deleted: int,
    pub skipped: int,
    pub locked: int,
    pub permission_failed: int,
    pub failed: int,
    pub errors: Seq<Seq<char>>,
}

pub open spec fn report_view(r: CleanupReport) -> ReportView {
    ReportView {
        freed: r.freed_bytes as int,
        deleted: r.deleted_count as int,
        skipped: r.skipped_count as int,
        locked: r.locked_count as int,
        permission_failed: r.permission_failed_count as int,
        failed: r.failed_count as int,
        errors: r.errors.deep_view(),
    }
}

/// The item is one of the system's Recycle Bins.
pub open spec fn is_recycle_item(item: CleanupItem) -> bool {
    item.category@ == "Recycle Bin"@
}

/// The item is selected and deleted one by one.
pub open spec fn deletable(item: CleanupItem) -> bool {
    item.default_selected && !is_recycle_item(item)
}

pub open spec fn count_selected(items: Seq<CleanupItem>) -> nat
    decreases items.len(),
{
    if items.len() == 0 {
        0
    } else {
        count_selected(items.drop_last()) + if items.last().default_selected {
            1nat
        } else {
            0nat
        }
    }
}

pub open spec fn count_recycle(items: Seq<CleanupItem>) -> nat
    decreases items.len(),
{
    if items.len() == 0 {
        0
    } else {
        count_recycle(items.drop_last()) + if items.last().default_selected && is_recycle_item(items.last()) {
            1nat
        } else {
            0nat
        }
    }
}

pub open spec fn count_deletable(items: Seq<CleanupItem>) -> nat
    decreases items.len(),
{
    if items.len() == 0 {
        0
    } else {
        count_deletable(items.drop_last()) + if deletable(items.last()) {
            1nat
        } else {
            0nat
        }
    }
}

/// The first item at or after `from` that is deleted one by one.
pub open spec fn next_deletable(items: Seq<CleanupItem>, from: int) -> Option<int>
    decreases items.len() - from,
{
    if from < 0 || from >= items.len() {
        None
    } else if deletable(items[from]) {
        Some(from)
    } else {
        next_deletable(items, from + 1)
    }
}

/// Where the session goes once the items before `from` are done.
pub open spec fn resume_at(items: Seq<CleanupItem>, from: int) -> Pending {
    match next_deletable(items, from) {
        Some(j) => Pending::CheckExists { index: j as usize },
        None => Pending::Finished,
    }
}

pub open spec fn add_error(r: ReportView, m: Seq<char>) -> ReportView {
    ReportView { errors: r.errors.push(m), ..r }
}

/// The Recycle Bin holds nothing: its items are skipped.
pub open spec fn recycle_skipped(r: ReportView, count: int) -> ReportView {
    add_error(
        ReportView { skipped: r.skipped + count, ..r },
        "All Recycle Bins - skipped: Windows Recycle Bin is already empty"@,
    )
}

/// The Recycle Bin, holding `live` bytes, was emptied (or not).
pub open spec fn recycle_emptied(r: ReportView, count: int, live: int, result: Result<(), IoFailure>) -> ReportView {
    match result {
        Ok(()) => ReportView { deleted: r.deleted + count, freed: r.freed + live, ..r },
        Err(e) => add_error(
            ReportView {
                failed: r.failed + count,
                permission_failed: r.permission_failed + if e.kind == IoFailureKind::PermissionDenied {
                    count
                } else {
                    0
                },
                ..r
            },
            "All Recycle Bins - failed to empty Windows Recycle Bin ("@ + e.message@ + ")"@,
        ),
    }
}

/// The item's file was gone.
pub open spec fn item_missing(r: ReportView, path: Seq<char>) -> ReportView {
    add_error(ReportView { skipped: r.skipped + 1, ..r }, path + " - skipped: file no longer exists"@)
}

/// The last attempt to delete the item ended with `result`.
pub open spec fn item_deleted(r: ReportView, path: Seq<char>, size: u64, result: Result<(), IoFailure>) -> ReportView {
    match result {
        Ok(()) => ReportView { deleted: r.deleted + 1, freed: r.freed + size, ..r },
        Err(e) => if e.kind == IoFailureKind::NotFound {
            item_missing(r, path)
        } else if locked(e) {
            add_error(
                ReportView { skipped: r.skipped + 1, locked: r.locked + 1, ..r },
                path + " - skipped: file is currently in use ("@ + e.message@ + ")"@,
            )
        } else {
            add_error(
                ReportView {
                    failed: r.failed + 1,
                    permission_failed: r.permission_failed + if e.kind == IoFailureKind::PermissionDenied {
                        1int
                    } else {
                        0int
                    },
                    ..r
                },
                path + " - "@ + e.message@,
            )
        },
    }
}

/// The percentages of `events`, in order, never fall.
pub open spec fn cleanup_percents_sorted(events: Seq<CleanupProgress>) -> bool {
    forall|i: int, j: int| 0 <= i <= j < events.len() ==> events[i].percent <= events[j].percent
}

/// A progress record as values.
pub struct RecordView {
    pub percent: int,
    pub phase: Seq<char>,
    pub current_path: Seq<char>,
    pub processed: int,
    pub total: int,
}

pub open spec fn record_view(p: CleanupProgress) -> RecordView {
    RecordView {
        percent: p.percent as int,
        phase: p.phase@,
        current_path: p.current_path@,
        processed: p.processed_items as int,
        total: p.total_items as int,
    }
}

/// The progress records as values.
pub open spec fn records(ps: Seq<CleanupProgress>) -> Seq<RecordView> {
    ps.map_values(|p: CleanupProgress| record_view(p))
}

/// The record of an outcome under `phase` for `path`, once `processed` of `total`
/// items are done.
pub open spec fn outcome_record(phase: Seq<char>, path: Seq<char>, processed: int, total: int) -> RecordView {
    RecordView { percent: percent_of(processed, total), phase, current_path: path, processed, total }
}

/// The record that opens what comes after the items before `from`: the deletion of the
/// next item deleted one by one, or the completion at 100 percent.
pub open spec fn resume_record(items: Seq<CleanupItem>, from: int, processed: int, total: int) -> RecordView {
    match next_deletable(items, from) {
        Some(j) => outcome_record("Deleting"@, items[j].path@, processed, total),
        None => RecordView { percent: 100, phase: "Complete"@, current_path: Seq::empty(), processed, total },
    }
}

/// The phase that the emptying of the Recycle Bin is reported under.
pub open spec fn recycle_phase(result: Result<(), IoFailure>) -> Seq<char> {
    match result {
        Ok(()) => "Deleted"@,
        Err(_) => "Failed"@,
    }
}

/// The phase that the last deletion attempt of an item is reported under.
pub open spec fn outcome_phase(result: Result<(), IoFailure>) -> Seq<char> {
    match result {
        Ok(()) => "Deleted"@,
        Err(e) => if e.kind == IoFailureKind::NotFound || locked(e) {
            "Skipped"@
        } else {
            "Failed"@
        },
    }
}

/// A cleanup run in progress.
pub struct CleanupSession {
    pub items: Vec<CleanupItem>,
    pub report: CleanupReport,
    pub processed: u64,
    pub total: u64,
    pub recycle_count: usize,
    pub pending: Pending,
    pub progress: Vec<CleanupProgress>,
}

impl CleanupSession {
    /// The session's books balance: every processed item was deleted, skipped or failed
    /// once; the Recycle Bin is handled before any other item; the item the session
    /// waits on is selected and not a Recycle Bin; the progress records start at 0 and
    /// never fall, and the last one says 100 once the session is finished.
    pub open spec fn wf(self) -> bool {
        let items = self.items@;
        let r = report_view(self.report);
        &&& self.total == count_selected(items)
        &&& self.recycle_count == count_recycle(items)
        &&& count_selected(items) == count_recycle(items) + count_deletable(items)
        &&& self.total * 100 <= u64::MAX
        &&& self.processed <= self.total
        &&& r.deleted + r.skipped + r.failed == self.processed
        &&& r.locked <= r.skipped
        &&& r.permission_failed <= r.failed
        &&& self.report.log_path is None
        &&& self.progress@.len() >= 1
        &&& self.progress@[0].percent == 0
        &&& self.progress@[0].phase@ == "Preparing cleanup"@
        &&& cleanup_percents_sorted(self.progress@)
        &&& match self.pending {
            Pending::MeasureRecycleBin => self.processed == 0 && self.recycle_count > 0,
            Pending::EmptyRecycleBin { live } => self.processed == 0 && self.recycle_count > 0 && live > 0,
            Pending::CheckExists { index } => index < items.len() && deletable(items[index as int])
                && self.processed == self.recycle_count + count_deletable(items.take(index as int)),
            Pending::Delete { index, retried } => index < items.len() && deletable(items[index as int])
                && self.processed == self.recycle_count + count_deletable(items.take(index as int)),
            Pending::Finished => self.processed == self.total,
        }
        &&& match self.pending {
            Pending::Finished => self.progress@.last().percent == 100 && self.progress@.last().phase@ == "Complete"@,
            _ => forall|i: int| 0 <= i < self.progress@.len() ==> #[trigger] self.progress@[i].percent
                <= percent_of(self.processed as int, self.total as int),
        }
    }

    /// The action the session waits for.
    pub open spec fn action_of(self) -> CleanupActionKind {
        match self.pending {
            Pending::MeasureRecycleBin => CleanupActionKind::MeasureRecycleBin,
            Pending::EmptyRecycleBin { .. } => CleanupActionKind::EmptyRecycleBin,
            Pending::CheckExists { index } => CleanupActionKind::CheckExists(self.items@[index as int].path@),
            Pending::Delete { index, retried } => if retried {
                CleanupActionKind::RetryDelete(self.items@[index as int].path@)
            } else {
                CleanupActionKind::Delete(self.items@[index as int].path@)
            },
            Pending::Finished => CleanupActionKind::Finished,
        }
    }

    /// The session can take `event`: it answers the pending action, and the bytes it
    /// frees still fit in the report.
    pub open spec fn accepts(self, event: CleanupEvent) -> bool {
        match (self.pending, event) {
            (Pending::MeasureRecycleBin, CleanupEvent::RecycleBinMeasured(_)) => true,
            (Pending::EmptyRecycleBin { live }, CleanupEvent::RecycleBinEmptied(result)) => result is Ok
                ==> self.report.freed_bytes + live <= u64::MAX,
            (Pending::CheckExists { .. }, CleanupEvent::Exists(_)) => true,
            (Pending::Delete { index, .. }, CleanupEvent::Deleted(result)) => result is Ok
                ==> self.report.freed_bytes + self.items@[index as int].size_bytes <= u64::MAX,
            _ => false,
        }
    }
}

/// An action as values.
pub enum CleanupActionKind {
    MeasureRecycleBin,
    EmptyRecycleBin,
    CheckExists(Seq<char>),
    Delete(Seq<char>),
    RetryDelete(Seq<char>),
    Finished,
}

pub open spec fn action_view(a: CleanupAction) -> CleanupActionKind {
    match a {
        CleanupAction::MeasureRecycleBin => CleanupActionKind::MeasureRecycleBin,
        CleanupAction::EmptyRecycleBin => CleanupActionKind::EmptyRecycleBin,
        CleanupAction::CheckExists(p) => CleanupActionKind::CheckExists(p@),
        CleanupAction::Delete(p) => CleanupActionKind::Delete(p@),
        CleanupAction::RetryDelete(p) => CleanupActionKind::RetryDelete(p@),
        CleanupAction::Finished => CleanupActionKind::Finished,
    }
}

/// Whether a plan item is one of the system's Recycle Bins.
pub fn is_recycle_bin_item(item: &CleanupItem) -> (r: bool)
    ensures
        r == is_recycle_item(*item),
{
    let c = chars_of(item.category.as_str());
    let rb = chars_of("Recycle Bin");
    chars_eq(&c, &rb)
}

proof fn lemma_counts_split(items: Seq<CleanupItem>)
    ensures
        count_selected(items) == count_recycle(items) + count_deletable(items),
    decreases items.len(),
{
    if items.len() > 0 {
        lemma_counts_split(items.drop_last());
    }
}

proof fn lemma_count_deletable_step(items: Seq<CleanupItem>, k: int)
    requires
        0 <= k < items.len(),
    ensures
        count_deletable(items.take(k + 1)) == count_deletable(items.take(k)) + if deletable(items[k]) {
            1nat
        } else {
            0nat
        },
{
    assert(items.take(k + 1).drop_last() =~= items.take(k));
}

proof fn lemma_count_deletable_le(items: Seq<CleanupItem>, k: int)
    requires
        0 <= k <= items.len(),
    ensures
        count_deletable(items.take(k)) <= count_deletable(items),
    decreases items.len() - k,
{
    if k < items.len() {
        lemma_count_deletable_step(items, k);
        lemma_count_deletable_le(items, k + 1);
    } else {
        assert(items.take(k) =~= items);
    }
}

/// A cleanup progress record.
fn record(percent: u8, phase: &str, current_path: &str, processed_items: u64, total_items: u64) -> (p: CleanupProgress)
    ensures
        p.percent == percent,
        p.phase@ == phase@,
        p.current_path@ == current_path@,
        p.processed_items == processed_items,
        p.total_items == total_items,
{
    CleanupProgress {
        percent,
        phase: String::from_str(phase),
        current_path: String::from_str(current_path),
        processed_items,
        total_items,
    }
}

impl CleanupSession {
    /// Starts the cleanup of the selected items of `plan`.
    pub fn start(plan: CleanupPlan) -> (s: Self)
        requires
            count_selected(plan.items@) * 100 <= u64::MAX,
        ensures
            s.wf(),
            s.items@ == plan.items@,
            s.processed == 0,
            report_view(s.report) == (ReportView { freed: 0, deleted: 0, skipped: 0, locked: 0, permission_failed: 0, failed: 0, errors: Seq::empty() }),
            s.pending == if count_recycle(plan.items@) > 0 {
                Pending::MeasureRecycleBin
            } else {
                resume_at(plan.items@, 0)
            },
            records(s.progress@) == seq![
                RecordView {
                    percent: 0,
                    phase: "Preparing cleanup"@,
                    current_path: Seq::empty(),
                    processed: 0,
                    total: count_selected(plan.items@) as int,
                },
                if count_recycle(plan.items@) > 0 {
                    outcome_record("Emptying recycle bin"@, "All Recycle Bins"@, 0, count_selected(plan.items@) as int)
                } else {
                    resume_record(plan.items@, 0, 0, count_selected(plan.items@) as int)
                },
            ],
    {
        let items = plan.items;
        let mut total: u64 = 0;
        let mut recycle: usize = 0;
        proof {
            lemma_counts_split(items@);
        }
        for i in 0..items.len()
            invariant
                total == count_selected(items@.take(i as int)),
                recycle == count_recycle(items@.take(i as int)),
                count_selected(items@) * 100 <= u64::MAX,
                recycle <= i,
                total <= i,
        {
            proof {
                assert(items@.take(i + 1).drop_last() =~= items@.take(i as int));
                lemma_count_selected_prefix(items@, i + 1);
            }
            if items[i].default_selected {
                total = total + 1;
                if is_recycle_bin_item(&items[i]) {
                    recycle = recycle + 1;
                }
            }
        }
        assert(items@.take(items.len() as int) =~= items@);
        let mut progress: Vec<CleanupProgress> = Vec::new();
        progress.push(record(0, "Preparing cleanup", "", 0, total));
        proof {
            reveal_strlit("");
        }
        assert(progress@[0].current_path@ =~= Seq::<char>::empty());
        assert(records(progress@) =~= seq![record_view(progress@[0])]);
        let report = CleanupReport::default();
        let mut s = CleanupSession { items, report, processed: 0, total, recycle_count: recycle, pending: Pending::Finished, progress };
        proof {
            lemma_percent_monotone(0, 0, total as int);
        }
        assert(report_view(s.report).errors =~= Seq::<Seq<char>>::empty());
        if recycle > 0 {
            let p = cleanup_percent(0, total);
            let ghost first = records(s.progress@);
            let rec = record(p, "Emptying recycle bin", "All Recycle Bins", 0, total);
            s.progress.push(rec);
            s.pending = Pending::MeasureRecycleBin;
            assert(records(s.progress@) =~= first.push(record_view(rec)));
        } else {
            assert(items@.take(0) =~= Seq::<CleanupItem>::empty());
            s.resume(0);
        }
        s
    }

    /// Moves on to the first item at or after `from` that is deleted one by one, or
    /// finishes.
    fn resume(&mut self, from: usize)
        requires
            from <= old(self).items.len(),
            old(self).processed == old(self).recycle_count + count_deletable(old(self).items@.take(from as int)),
            ({
                let s = *old(self);
                let r = report_view(s.report);
                &&& s.total == count_selected(s.items@)
                &&& s.recycle_count == count_recycle(s.items@)
                &&& count_selected(s.items@) == count_recycle(s.items@) + count_deletable(s.items@)
                &&& s.total * 100 <= u64::MAX
                &&& r.deleted + r.skipped + r.failed == s.processed
                &&& r.locked <= r.skipped
                &&& r.permission_failed <= r.failed
                &&& s.report.log_path is None
                &&& s.progress@.len() >= 1
                &&& s.progress@[0].percent == 0
                &&& s.progress@[0].phase@ == "Preparing cleanup"@
                &&& cleanup_percents_sorted(s.progress@)
                &&& forall|i: int| 0 <= i < s.progress@.len() ==> #[trigger] s.progress@[i].percent
                    <= percent_of(s.processed as int, s.total as int)
            }),
        ensures
            final(self).wf(),
            final(self).items == old(self).items,
            final(self).report == old(self).report,
            final(self).processed == old(self).processed,
            final(self).pending == resume_at(old(self).items@, from as int),
            records(final(self).progress@) == records(old(self).progress@).push(
                resume_record(old(self).items@, from as int, old(self).processed as int, old(self).total as int),
            ),
    {
        let ghost items = self.items@;
        let ghost before_records = self.progress@;
        let mut j = from;
        proof {
            lemma_count_deletable_le(items, from as int);
        }
        while j < self.items.len() && !(self.items[j].default_selected && !is_recycle_bin_item(&self.items[j]))
            invariant
                from <= j <= self.items.len(),
                items == self.items@,
                count_deletable(items.take(j as int)) == count_deletable(items.take(from as int)),
                next_deletable(items, from as int) == next_deletable(items, j as int),
            decreases self.items.len() - j,
        {
            proof {
                lemma_count_deletable_step(items, j as int);
            }
            j = j + 1;
        }
        proof {
            lemma_count_deletable_le(items, j as int);
        }
        if j < self.items.len() {
            let p = cleanup_percent(self.processed, self.total);
            let rec = record(p, "Deleting", self.items[j].path.as_str(), self.processed, self.total);
            self.progress.push(rec);
            self.pending = Pending::CheckExists { index: j };
            assert(records(self.progress@) =~= records(before_records).push(record_view(rec)));
        } else {
            assert(items.take(j as int) =~= items);
            proof {
                lemma_percent_monotone(0, self.total as int, self.total as int);
                if self.total > 0 {
                    crate::progress::lemma_percent_full(self.total as int, self.total as int);
                }
            }
            let rec = record(100, "Complete", "", self.processed, self.total);
            self.progress.push(rec);
            self.pending = Pending::Finished;
            proof {
                reveal_strlit("");
            }
            assert(rec.current_path@ =~= Seq::<char>::empty());
            assert(records(self.progress@) =~= records(before_records).push(record_view(rec)));
        }
    }

    /// What to do next.
    pub fn next_action(&self) -> (a: CleanupAction)
        requires
            self.wf(),
        ensures
            action_view(a) == self.action_of(),
    {
        match self.pending {
            Pending::MeasureRecycleBin => CleanupAction::MeasureRecycleBin,
            Pending::EmptyRecycleBin { .. } => CleanupAction::EmptyRecycleBin,
            Pending::CheckExists { index } => CleanupAction::CheckExists(self.items[index].path.clone()),
            Pending::Delete { index, retried } => if retried {
                CleanupAction::RetryDelete(self.items[index].path.clone())
            } else {
                CleanupAction::Delete(self.items[index].path.clone())
            },
            Pending::Finished => CleanupAction::Finished,
        }
    }

    /// Whether the session can take `event` (see [`CleanupSession::accepts`]).
    pub fn can_accept(&self, event: &CleanupEvent) -> (r: bool)
        requires
            self.wf(),
        ensures
            r == self.accepts(*event),
    {
        match (self.pending, event) {
            (Pending::MeasureRecycleBin, CleanupEvent::RecycleBinMeasured(_)) => true,
            (Pending::EmptyRecycleBin { live }, CleanupEvent::RecycleBinEmptied(result)) => match result {
                Ok(()) => live <= u64::MAX - self.report.freed_bytes,
                Err(_) => true,
            },
            (Pending::CheckExists { .. }, CleanupEvent::Exists(_)) => true,
            (Pending::Delete { index, .. }, CleanupEvent::Deleted(result)) => match result {
                Ok(()) => self.items[index].size_bytes <= u64::MAX - self.report.freed_bytes,
                Err(_) => true,
            },
            _ => false,
        }
    }

    /// Whether the session is over.
    pub fn is_finished(&self) -> (r: bool)
        ensures
            r == (self.pending is Finished),
    {
        match self.pending {
            Pending::Finished => true,
            _ => false,
        }
    }
}

proof fn lemma_count_selected_prefix(items: Seq<CleanupItem>, k: int)
    requires
        0 <= k <= items.len(),
    ensures
        count_selected(items.take(k)) <= count_selected(items),
        count_recycle(items.take(k)) <= count_selected(items.take(k)),
    decreases items.len() - k,
{
    if k < items.len() {
        lemma_count_selected_prefix(items, k + 1);
        assert(items.take(k + 1).drop_last() =~= items.take(k));
    } else {
        assert(items.take(k) =~= items);
    }
    lemma_recycle_le_selected(items.take(k));
}

proof fn lemma_recycle_le_selected(items: Seq<CleanupItem>)
    ensures
        count_recycle(items) <= count_selected(items),
    decreases items.len(),
{
    if items.len() > 0 {
        lemma_recycle_le_selected(items.drop_last());
    }
}


/// What taking `event` does to a session `a`, giving `b`.
pub open spec fn step_spec(a: CleanupSession, event: CleanupEvent, b: CleanupSession) -> bool {
    let items = a.items@;
    let r = report_view(a.report);
    let rc = a.recycle_count as int;
    let t = a.total as int;
    let bin = "All Recycle Bins"@;
    match (a.pending, event) {
        (Pending::MeasureRecycleBin, CleanupEvent::RecycleBinMeasured(live)) => if live == 0 {
            &&& report_view(b.report) == recycle_skipped(r, rc)
            &&& b.processed == a.processed + rc
            &&& b.pending == resume_at(items, 0)
            &&& records(b.progress@) == records(a.progress@) + seq![
                outcome_record("Skipped"@, bin, b.processed as int, t),
                resume_record(items, 0, b.processed as int, t),
            ]
        } else {
            &&& b.report == a.report
            &&& b.processed == a.processed
            &&& b.pending == Pending::EmptyRecycleBin { live }
            &&& b.progress == a.progress
        },
        (Pending::EmptyRecycleBin { live }, CleanupEvent::RecycleBinEmptied(result)) => {
            &&& report_view(b.report) == recycle_emptied(r, rc, live as int, result)
            &&& b.processed == a.processed + rc
            &&& b.pending == resume_at(items, 0)
            &&& records(b.progress@) == records(a.progress@) + seq![
                outcome_record(recycle_phase(result), bin, b.processed as int, t),
                resume_record(items, 0, b.processed as int, t),
            ]
        },
        (Pending::CheckExists { index }, CleanupEvent::Exists(exists)) => if !exists {
            &&& report_view(b.report) == item_missing(r, items[index as int].path@)
            &&& b.processed == a.processed + 1
            &&& b.pending == resume_at(items, index + 1)
            &&& records(b.progress@) == records(a.progress@) + seq![
                outcome_record("Skipped"@, items[index as int].path@, b.processed as int, t),
                resume_record(items, index + 1, b.processed as int, t),
            ]
        } else {
            &&& b.report == a.report
            &&& b.processed == a.processed
            &&& b.pending == Pending::Delete { index, retried: false }
            &&& b.progress == a.progress
        },
        (Pending::Delete { index, retried }, CleanupEvent::Deleted(result)) => if !retried && (result matches Err(e)
            && e.kind == IoFailureKind::PermissionDenied) {
            &&& b.report == a.report
            &&& b.processed == a.processed
            &&& b.pending == Pending::Delete { index, retried: true }
            &&& b.progress == a.progress
        } else {
            &&& report_view(b.report) == item_deleted(r, items[index as int].path@, items[index as int].size_bytes, result)
            &&& b.processed == a.processed + 1
            &&& b.pending == resume_at(items, index + 1)
            &&& records(b.progress@) == records(a.progress@) + seq![
                outcome_record(outcome_phase(result), items[index as int].path@, b.processed as int, t),
                resume_record(items, index + 1, b.processed as int, t),
            ]
        },
        _ => false,
    }
}

proof fn lemma_two_records(a: Seq<RecordView>, m: Seq<RecordView>, f: Seq<RecordView>, x: RecordView, y: RecordView)
    requires
        m == a.push(x),
        f == m.push(y),
    ensures
        f == a + seq![x, y],
{
    assert(f =~= a + seq![x, y]);
}

proof fn lemma_count_selected_le_len(items: Seq<CleanupItem>)
    ensures
        count_selected(items) <= items.len(),
    decreases items.len(),
{
    if items.len() > 0 {
        lemma_count_selected_le_len(items.drop_last());
    }
}

fn push_error(report: &mut CleanupReport, m: String)
    ensures
        report_view(*final(report)) == add_error(report_view(*old(report)), m@),
        final(report).log_path == old(report).log_path,
{
    report.errors.push(m);
    assert(report_view(*report).errors =~= report_view(*old(report)).errors.push(m@));
}

impl CleanupSession {
    fn record_outcome(&mut self, phase: &str, path: &str, Ghost(before): Ghost<CleanupSession>)
        requires
            old(self).processed >= before.processed,
            old(self).total == before.total,
            old(self).processed <= old(self).total,
            old(self).total * 100 <= u64::MAX,
            old(self).progress == before.progress,
            before.progress@.len() >= 1,
            before.progress@[0].percent == 0,
            before.progress@[0].phase@ == "Preparing cleanup"@,
            cleanup_percents_sorted(before.progress@),
            forall|i: int| 0 <= i < before.progress@.len() ==> #[trigger] before.progress@[i].percent
                <= percent_of(before.processed as int, before.total as int),
        ensures
            *final(self) == (CleanupSession { progress: final(self).progress, ..*old(self) }),
            final(self).progress@.len() == old(self).progress@.len() + 1,
            final(self).progress@[0] == old(self).progress@[0],
            cleanup_percents_sorted(final(self).progress@),
            forall|i: int| 0 <= i < final(self).progress@.len() ==> #[trigger] final(self).progress@[i].percent
                <= percent_of(final(self).processed as int, final(self).total as int),
            records(final(self).progress@) == records(old(self).progress@).push(
                outcome_record(phase@, path@, old(self).processed as int, old(self).total as int),
            ),
    {
        proof {
            lemma_percent_monotone(before.processed as int, self.processed as int, self.total as int);
            assert(self.processed * 100 <= self.total * 100) by (nonlinear_arith)
                requires
                    self.processed <= self.total,
            ;
        }
        let p = cleanup_percent(self.processed, self.total);
        let rec = record(p, phase, path, self.processed, self.total);
        let ghost before_records = self.progress@;
        self.progress.push(rec);
        assert(records(self.progress@) =~= records(before_records).push(record_view(rec)));
    }

    /// Takes what happened in answer to the pending action and moves on.
    pub fn step(&mut self, event: CleanupEvent)
        requires
            old(self).wf(),
            old(self).accepts(event),
        ensures
            final(self).wf(),
            final(self).items == old(self).items,
            final(self).total == old(self).total,
            final(self).recycle_count == old(self).recycle_count,
            step_spec(*old(self), event, *final(self)),
    {
        let ghost a = *self;
        proof {
            lemma_count_selected_le_len(self.items@);
            lemma_recycle_le_selected(self.items@);
            lemma_count_deletable_le(self.items@, 0);
            assert(self.items@.take(0) =~= Seq::<CleanupItem>::empty());
        }
        match (self.pending, event) {
            (Pending::MeasureRecycleBin, CleanupEvent::RecycleBinMeasured(live)) => {
                if live == 0 {
                    let rc = self.recycle_count;
                    self.report.skipped_count = self.report.skipped_count + rc;
                    push_error(&mut self.report, String::from_str("All Recycle Bins - skipped: Windows Recycle Bin is already empty"));
                    self.processed = self.processed + rc as u64;
                    self.record_outcome("Skipped", "All Recycle Bins", Ghost(a));
                    let ghost mid = records(self.progress@);
                    self.resume(0);
                    proof {
                        lemma_two_records(records(a.progress@), mid, records(self.progress@),
                            outcome_record("Skipped"@, "All Recycle Bins"@, self.processed as int, a.total as int),
                            resume_record(a.items@, 0, self.processed as int, a.total as int));
                    }
                } else {
                    self.pending = Pending::EmptyRecycleBin { live };
                }
            },
            (Pending::EmptyRecycleBin { live }, CleanupEvent::RecycleBinEmptied(result)) => {
                let rc = self.recycle_count;
                let phase = match result {
                    Ok(()) => {
                        self.report.deleted_count = self.report.deleted_count + rc;
                        self.report.freed_bytes = self.report.freed_bytes + live;
                        "Deleted"
                    },
                    Err(e) => {
                        self.report.failed_count = self.report.failed_count + rc;
                        if e.kind == IoFailureKind::PermissionDenied {
                            self.report.permission_failed_count = self.report.permission_failed_count + rc;
                        }
                        let mut m = String::from_str("All Recycle Bins - failed to empty Windows Recycle Bin (");
                        m.append(e.message.as_str());
                        m.append(")");
                        push_error(&mut self.report, m);
                        "Failed"
                    },
                };
                self.processed = self.processed + rc as u64;
                self.record_outcome(phase, "All Recycle Bins", Ghost(a));
                let ghost mid = records(self.progress@);
                self.resume(0);
                proof {
                    lemma_two_records(records(a.progress@), mid, records(self.progress@),
                        outcome_record(phase@, "All Recycle Bins"@, self.processed as int, a.total as int),
                        resume_record(a.items@, 0, self.processed as int, a.total as int));
                }
            },
            (Pending::CheckExists { index }, CleanupEvent::Exists(exists)) => {
                if !exists {
                    proof {
                        lemma_count_deletable_step(self.items@, index as int);
                        lemma_count_deletable_le(self.items@, index + 1);
                        assert(a.processed + 1 <= a.total);
                        assert(a.total <= self.items.len());
                        assert(self.report.skipped_count + 1 <= usize::MAX);
                        assert(self.report.deleted_count + 1 <= usize::MAX);
                        assert(self.report.failed_count + 1 <= usize::MAX);
                    }
                    let path = self.items[index].path.clone();
                    self.report.skipped_count = self.report.skipped_count + 1;
                    let mut m = path.clone();
                    m.append(" - skipped: file no longer exists");
                    push_error(&mut self.report, m);
                    self.processed = self.processed + 1;
                    self.record_outcome("Skipped", path.as_str(), Ghost(a));
                    let ghost mid = records(self.progress@);
                    self.resume(index + 1);
                    proof {
                        lemma_two_records(records(a.progress@), mid, records(self.progress@),
                            outcome_record("Skipped"@, path@, self.processed as int, a.total as int),
                            resume_record(a.items@, index + 1, self.processed as int, a.total as int));
                    }
                } else {
                    self.pending = Pending::Delete { index, retried: false };
                }
            },
            (Pending::Delete { index, retried }, CleanupEvent::Deleted(result)) => {
                let permission = match &result {
                    Err(e) => e.kind == IoFailureKind::PermissionDenied,
                    Ok(()) => false,
                };
                if !retried && permission {
                    self.pending = Pending::Delete { index, retried: true };
                } else {
                    proof {
                        lemma_count_deletable_step(self.items@, index as int);
                        lemma_count_deletable_le(self.items@, index + 1);
                        assert(a.processed + 1 <= a.total);
                        assert(a.total <= self.items.len());
                        assert(self.report.skipped_count + 1 <= usize::MAX);
                        assert(self.report.deleted_count + 1 <= usize::MAX);
                        assert(self.report.failed_count + 1 <= usize::MAX);
                    }
                    let path = self.items[index].path.clone();
                    let size = self.items[index].size_bytes;
                    let phase = match result {
                        Ok(()) => {
                            self.report.deleted_count = self.report.deleted_count + 1;
                            self.report.freed_bytes = self.report.freed_bytes + size;
                            "Deleted"
                        },
                        Err(e) => {
                            if e.kind == IoFailureKind::NotFound {
                                self.report.skipped_count = self.report.skipped_count + 1;
                                let mut m = path.clone();
                                m.append(" - skipped: file no longer exists");
                                push_error(&mut self.report, m);
                                "Skipped"
                            } else if is_locked_error(&e) {
                                self.report.skipped_count = self.report.skipped_count + 1;
                                self.report.locked_count = self.report.locked_count + 1;
                                let mut m = path.clone();
                                m.append(" - skipped: file is currently in use (");
                                m.append(e.message.as_str());
                                m.append(")");
                                push_error(&mut self.report, m);
                                "Skipped"
                            } else {
                                self.report.failed_count = self.report.failed_count + 1;
                                if e.kind == IoFailureKind::PermissionDenied {
                                    self.report.permission_failed_count = self.report.permission_failed_count + 1;
                                }
                                let mut m = path.clone();
                                m.append(" - ");
                                m.append(e.message.as_str());
                                push_error(&mut self.report, m);
                                "Failed"
                            }
                        },
                    };
                    self.processed = self.processed + 1;
                    self.record_outcome(phase, path.as_str(), Ghost(a));
                    let ghost mid = records(self.progress@);
                    self.resume(index + 1);
                    proof {
                        lemma_two_records(records(a.progress@), mid, records(self.progress@),
                            outcome_record(phase@, path@, self.processed as int, a.total as int),
                            resume_record(a.items@, index + 1, self.processed as int, a.total as int));
                    }
                }
            },
            _ => {},
        }
    }

    /// The report of the cleanup.
    pub fn into_report(self) -> (r: CleanupReport)
        ensures
            r == self.report,
    {
        self.report
    }
}


/// When a cleanup is finished, every selected item of the plan has been counted once
/// as deleted, skipped or failed.
pub proof fn lemma_finished_accounts_for_every_selected_item(s: CleanupSession)
    requires
        s.wf(),
        s.pending is Finished,
    ensures
        s.report.deleted_count + s.report.skipped_count + s.report.failed_count == count_selected(s.items@),
        s.report.locked_count <= s.report.skipped_count,
        s.report.permission_failed_count <= s.report.failed_count,
        s.report.log_path is None,
{
}

/// A cleanup reports progress until it completes: its records start at 0 percent with
/// "Preparing cleanup", never fall, and once it is finished the last one is "Complete"
/// at 100 percent.
pub proof fn lemma_cleanup_progress_until_complete(s: CleanupSession)
    requires
        s.wf(),
    ensures
        s.progress@[0].percent == 0,
        s.progress@[0].phase@ == "Preparing cleanup"@,
        forall|i: int, j: int| 0 <= i <= j < s.progress@.len() ==> s.progress@[i].percent <= s.progress@[j].percent,
        s.pending is Finished ==> s.progress@.last().percent == 100 && s.progress@.last().phase@ == "Complete"@,
{
}

/// The Recycle Bin is emptied at most once, and only after a measure found data in it:
/// a session asks to empty it only right after a positive measure, and once past the
/// Recycle Bin it never asks to measure or empty it again.
pub proof fn lemma_recycle_bin_emptied_at_most_once(a: CleanupSession, e: CleanupEvent, b: CleanupSession)
    requires
        step_spec(a, e, b),
    ensures
        b.pending is EmptyRecycleBin ==> (a.pending is MeasureRecycleBin && (e matches CleanupEvent::RecycleBinMeasured(live) && live > 0)),
        !(a.pending is MeasureRecycleBin) ==> !(b.pending is MeasureRecycleBin) && !(b.pending is EmptyRecycleBin),
{
}

/// A session never asks to check or delete a Recycle Bin item or an item that is not
/// selected: those paths are only ever items deleted one by one.
pub proof fn lemma_only_selected_files_are_deleted(s: CleanupSession)
    requires
        s.wf(),
    ensures
        match s.pending {
            Pending::CheckExists { index } => deletable(s.items@[index as int]),
            Pending::Delete { index, .. } => deletable(s.items@[index as int]),
            _ => true,
        },
{
}

/// Every successful deletion frees exactly the item's size and counts one deletion,
/// whether it is the first attempt or the retry after a permission failure; and an item
/// whose first attempt was refused for permission and whose retry succeeds ends up freed
/// in full, as if the first attempt had succeeded (`step` keeps the items).
pub proof fn lemma_successful_delete_frees_item_size(
    a: CleanupSession,
    m: CleanupSession,
    b: CleanupSession,
    index: usize,
    retried: bool,
    denied: IoFailure,
)
    ensures
        a.pending == (Pending::Delete { index, retried }) && step_spec(
            a,
            CleanupEvent::Deleted(Ok(())),
            b,
        ) ==> report_view(b.report).freed == report_view(a.report).freed
            + a.items@[index as int].size_bytes && report_view(b.report).deleted
            == report_view(a.report).deleted + 1,
        (a.pending == (Pending::Delete { index, retried: false })
            && denied.kind == IoFailureKind::PermissionDenied && step_spec(
            a,
            CleanupEvent::Deleted(Err(denied)),
            m,
        ) && m.items == a.items && step_spec(m, CleanupEvent::Deleted(Ok(())), b)) ==> report_view(b.report).freed
            == report_view(a.report).freed + a.items@[index as int].size_bytes
            && report_view(b.report).deleted == report_view(a.report).deleted + 1,
{
}

/// A deletion that fails frees nothing and deletes nothing. A first refusal for
/// permission is retried without being counted; any other failure counts the item once:
/// a file already gone as skipped, a file held open by another program as skipped and
/// locked, and anything else as failed (and as a permission failure when access was
/// denied on the retry).
pub proof fn lemma_failed_delete_frees_nothing(
    a: CleanupSession,
    b: CleanupSession,
    index: usize,
    retried: bool,
    err: IoFailure,
)
    requires
        a.pending == (Pending::Delete { index, retried }),
        step_spec(a, CleanupEvent::Deleted(Err(err)), b),
    ensures
        report_view(b.report).freed == report_view(a.report).freed,
        report_view(b.report).deleted == report_view(a.report).deleted,
        !retried && err.kind == IoFailureKind::PermissionDenied ==> b.report == a.report
            && b.pending == (Pending::Delete { index, retried: true }) && b.processed == a.processed,
        (retried || err.kind != IoFailureKind::PermissionDenied) ==> {
            let (x, y) = (report_view(a.report), report_view(b.report));
            &&& b.processed == a.processed + 1
            &&& y.skipped + y.failed == x.skipped + x.failed + 1
            &&& err.kind == IoFailureKind::NotFound ==> y.skipped == x.skipped + 1 && y.locked == x.locked
            &&& (err.kind != IoFailureKind::NotFound && locked(err)) ==> y.skipped == x.skipped + 1
                && y.locked == x.locked + 1
            &&& (err.kind != IoFailureKind::NotFound && !locked(err)) ==> y.failed == x.failed + 1
                && y.permission_failed == x.permission_failed + if err.kind
                == IoFailureKind::PermissionDenied {
                1int
            } else {
                0int
            }
        },
{
}

} // verus!
