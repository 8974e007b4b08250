//! Building a cleanup plan from what directory walks of the scan roots found.
//!
//! The walks are done by the caller: for each root of each category of the rules, a
//! [`RootListing`] records whether the root exists, its canonical form, and every
//! entry and error of a walk of it that does not follow links, in walk order.

use vstd::prelude::*;
use crate::model::{CleanupItem, CleanupPlan, ItemView, PlanView, RiskLevel, Rules, RulesView, ScanProgress, empty_plan, item_views};
use crate::items::{cleanup_item, item_view};
use crate::paths::{
    starts_with_component, within_depth, is_direct_child, is_runtime_protected, is_desktop_ini,
    is_recycle_info_file, path_starts_with, within_suggestion_depth, direct_child, runtime_protected,
    desktop_ini, recycle_info_file, path_ends_with_component,
};
use crate::progress::{
    ScanState, ScanModel, ScanRecord, percents_sorted, scan_model, scan_records, fresh_model, model_emit, model_begin,
    model_seen, model_seen_all, model_finish, model_complete,
};
use crate::rules::is_downloads;
use crate::text::{lower, chars_of, lower_chars, chars_eq};

verus! {

/// A file or folder that a walk found.
#[derive(Debug, Clone)]
pub struct FsEntry {
    pub path: String,
    /// The canonical form of the path, when it could be resolved.
    pub canonical: Option<String>,
    /// How many levels below the walk's root the entry lies (the root is at 0).
    pub depth: usize,
    pub is_file: bool,
    pub is_dir: bool,
    /// The file's length in bytes (0 when unknown or for a folder).
    pub size: u64,
    /// How long ago the entry was last modified, in whole seconds, when known.
    pub age_secs: Option<u64>,
    /// For a folder reached through a link (a symbolic link or a junction), what a walk
    /// of the folder itself finds, following that link: the walk that found the entry
    /// does not go inside it.
    pub linked: Option<Vec<LinkedEntry>>,
}

/// A file or folder that the walk of a linked folder found.
#[derive(Debug, Clone)]
pub struct LinkedEntry {
    pub path: String,
    pub is_file: bool,
    /// The file's length in bytes (0 when unknown or for a folder).
    pub size: u64,
}

/// An error that a walk reported.
#[derive(Debug, Clone)]
pub struct WalkError {
    /// The depth the walk reports for the error.
    pub depth: usize,
    /// The error came from opening a folder for reading (rather than from reading one
    /// of its entries).
    pub opening_directory: bool,
    pub message: String,
}

/// One thing a walk yielded.
#[derive(Debug, Clone)]
pub enum WalkItem {
    Entry(FsEntry),
    Error(WalkError),
}

/// What a walk of one scan root found.
#[derive(Debug, Clone)]
pub struct RootListing {
    pub exists: bool,
    pub canonical: Option<String>,
    pub items: Vec<WalkItem>,
}

/// The walks of all scan roots: one listing per root of each category of the rules,
/// in the same order, and the canonical forms of the excluded folders that resolve.
#[derive(Debug, Clone)]
pub struct FsSnapshot {
    pub temp_dirs: Vec<RootListing>,
    pub enhanced_cache_dirs: Vec<RootListing>,
    pub windows_old_dirs: Vec<RootListing>,
    pub recycle_bin_dirs: Vec<RootListing>,
    pub system_cache_dirs: Vec<RootListing>,
    pub suggest_dirs: Vec<RootListing>,
    pub exclude_roots: Vec<String>,
}

/// How items found under a root are labelled.
pub struct Label {
    pub category: Seq<char>,
    pub risk: RiskLevel,
    pub selected: bool,
    pub reason: Seq<char>,
}

/// How a root is scanned.
pub enum JobKind {
    /// Every file becomes a cleanup item with the label.
    Files(Label),
    /// The Recycle Bin becomes one item when it holds anything.
    RecycleBin,
    /// Large files (and, under a Downloads folder, everything directly in it) become
    /// suggestions.
    Suggestions,
}

/// One root to scan.
pub struct Job {
    pub kind: JobKind,
    pub root: Seq<char>,
    pub listing: RootListing,
}

/// The path lies in an excluded folder (judged by its canonical form; a path that
/// cannot be resolved is not excluded).
pub open spec fn excluded(canonical: Option<String>, excl: Seq<Seq<char>>) -> bool {
    match canonical {
        Some(c) => exists|i: int| 0 <= i < excl.len() && starts_with_component(c@, #[trigger] excl[i]),
        None => false,
    }
}

pub open spec fn push_skipped(p: PlanView, m: Seq<char>) -> PlanView {
    PlanView { skipped: p.skipped.push(m), ..p }
}

pub open spec fn push_item(p: PlanView, it: ItemView, bytes: int) -> PlanView {
    PlanView { items: p.items.push(it), reclaimable_bytes: p.reclaimable_bytes + bytes, ..p }
}

pub open spec fn push_suggestion(p: PlanView, it: ItemView, bytes: int) -> PlanView {
    PlanView { suggestions: p.suggestions.push(it), suggested_bytes: p.suggested_bytes + bytes, ..p }
}

pub open spec fn temp_label() -> Label {
    Label {
        category: "Low risk cache"@,
        risk: RiskLevel::Low,
        selected: true,
        reason: "Temporary or system cache file. Permanent deletion requires confirmation."@,
    }
}

pub open spec fn enhanced_label() -> Label {
    Label {
        category: "Enhanced cache"@,
        risk: RiskLevel::Medium,
        selected: true,
        reason: "Third-party cache selected by enhanced mode. Permanent deletion requires confirmation."@,
    }
}

pub open spec fn windows_old_label() -> Label {
    Label {
        category: "Windows.old"@,
        risk: RiskLevel::Medium,
        selected: true,
        reason: "Previous Windows installation files. Clean only after confirming rollback is not needed."@,
    }
}

pub open spec fn system_cache_label() -> Label {
    Label {
        category: "System update cache"@,
        risk: RiskLevel::Medium,
        selected: false,
        reason: "Windows update, error report, or shader cache file. Permanent deletion requires confirmation."@,
    }
}

pub open spec fn recycle_reason() -> Seq<char> {
    "Recycle Bin contents. Uses Windows Recycle Bin emptying to keep Explorer in sync."@
}

pub open spec fn download_reason() -> Seq<char> {
    "Downloaded file or folder. Review manually before permanent deletion."@
}

pub open spec fn large_reason() -> Seq<char> {
    "Large file candidate. Review manually before permanent deletion."@
}

// ---------------------------------------------------------------------------------
// Files under temporary, cache and previous-installation folders.

/// One walk item of a folder whose files are all cleanup candidates.
pub open spec fn file_step(p: PlanView, it: WalkItem, excl: Seq<Seq<char>>, lab: Label) -> PlanView {
    match it {
        WalkItem::Error(e) => push_skipped(p, e.message@),
        WalkItem::Entry(e) => if !e.is_file || excluded(e.canonical, excl) {
            p
        } else if is_runtime_protected(e.path@) {
            push_skipped(p, e.path@ + " - runtime protected file skipped"@)
        } else {
            push_item(
                p,
                item_view(e.path@, e.size, lab.category, lab.risk, lab.selected, lab.reason),
                e.size as int,
            )
        },
    }
}

pub open spec fn file_fold(p: PlanView, its: Seq<WalkItem>, excl: Seq<Seq<char>>, lab: Label) -> PlanView
    decreases its.len(),
{
    if its.len() == 0 {
        p
    } else {
        file_step(file_fold(p, its.drop_last(), excl, lab), its.last(), excl, lab)
    }
}

// ---------------------------------------------------------------------------------
// Sizes of files found by a walk.

/// Which files a byte count takes.
pub enum Pick {
    /// Files at or under a folder.
    Under(Seq<char>),
    /// Files at or under a folder that are neither `desktop.ini` nor `$I` records.
    CountedUnder(Seq<char>),
    /// Files that are neither `desktop.ini` nor `$I` records.
    Counted,
}

/// A Recycle Bin file that holds deleted data (not a settings file or a name record).
pub open spec fn counted_file(e: FsEntry) -> bool {
    e.is_file && !is_desktop_ini(e.path@) && !is_recycle_info_file(e.path@)
}

pub open spec fn picks(pick: Pick, e: FsEntry) -> bool {
    match pick {
        Pick::Under(d) => e.is_file && starts_with_component(e.path@, d),
        Pick::CountedUnder(d) => counted_file(e) && starts_with_component(e.path@, d),
        Pick::Counted => counted_file(e),
    }
}

pub open spec fn item_bytes(it: WalkItem, pick: Pick) -> int {
    match it {
        WalkItem::Entry(e) => if picks(pick, e) {
            e.size as int
        } else {
            0
        },
        WalkItem::Error(_) => 0,
    }
}

/// The total size of the picked files among `its`.
pub open spec fn picked_bytes(its: Seq<WalkItem>, pick: Pick) -> int
    decreases its.len(),
{
    if its.len() == 0 {
        0
    } else {
        picked_bytes(its.drop_last(), pick) + item_bytes(its.last(), pick)
    }
}

/// The total size of the files among `c`; with `counted`, only of those that are
/// neither `desktop.ini` nor `$I` records.
pub open spec fn linked_bytes(c: Seq<LinkedEntry>, counted: bool) -> int
    decreases c.len(),
{
    if c.len() == 0 {
        0
    } else {
        let e = c.last();
        linked_bytes(c.drop_last(), counted) + if e.is_file && (!counted || (!is_desktop_ini(e.path@)
            && !is_recycle_info_file(e.path@))) {
            e.size as int
        } else {
            0
        }
    }
}

/// The total size of the files in the folder `e`, as a walk of the folder itself finds
/// them: for a linked folder its own walk, otherwise the files under it in the walk
/// `all` that found it. With `counted`, only files that are neither `desktop.ini` nor
/// `$I` records count.
pub open spec fn folder_bytes(e: FsEntry, all: Seq<WalkItem>, counted: bool) -> int {
    match e.linked {
        Some(c) => linked_bytes(c@, counted),
        None => if counted {
            picked_bytes(all, Pick::CountedUnder(e.path@))
        } else {
            picked_bytes(all, Pick::Under(e.path@))
        },
    }
}

proof fn lemma_linked_bytes_nonneg(c: Seq<LinkedEntry>, counted: bool)
    ensures
        linked_bytes(c, counted) >= 0,
    decreases c.len(),
{
    if c.len() > 0 {
        lemma_linked_bytes_nonneg(c.drop_last(), counted);
    }
}

pub proof fn lemma_folder_bytes_nonneg(e: FsEntry, all: Seq<WalkItem>, counted: bool)
    ensures
        folder_bytes(e, all, counted) >= 0,
{
    match e.linked {
        Some(c) => lemma_linked_bytes_nonneg(c@, counted),
        None => {
            lemma_picked_bytes_nonneg(all, Pick::CountedUnder(e.path@));
            lemma_picked_bytes_nonneg(all, Pick::Under(e.path@));
        },
    }
}

/// A folder's size is the total of every file at any depth below it: a file whose
/// path is the folder's, a separator and any rest (`folder\a\b\f`, however deep)
/// adds its whole size once the walk has found it, while an entry that is not a file, a
/// walk error, or a file whose path does not begin with the folder's adds nothing.
pub proof fn lemma_folder_size_counts_files_at_any_depth(
    e: FsEntry,
    all: Seq<WalkItem>,
    f: FsEntry,
    rest: Seq<char>,
    err: WalkError,
)
    requires
        e.linked is None,
    ensures
        f.is_file && f.path@ == e.path@ + seq!['\\'] + rest ==> folder_bytes(
            e,
            all.push(WalkItem::Entry(f)),
            false,
        ) == folder_bytes(e, all, false) + f.size,
        !f.is_file ==> folder_bytes(e, all.push(WalkItem::Entry(f)), false) == folder_bytes(
            e,
            all,
            false,
        ),
        (e.path@.len() > 0 && (f.path@.len() < e.path@.len() || f.path@.subrange(
            0,
            e.path@.len() as int,
        ) != e.path@)) ==> folder_bytes(e, all.push(WalkItem::Entry(f)), false) == folder_bytes(
            e,
            all,
            false,
        ),
        folder_bytes(e, all.push(WalkItem::Error(err)), false) == folder_bytes(e, all, false),
{
    let d = e.path@;
    assert(all.push(WalkItem::Entry(f)).drop_last() =~= all);
    assert(all.push(WalkItem::Error(err)).drop_last() =~= all);
    if f.is_file && f.path@ == d + seq!['\\'] + rest {
        assert(f.path@.subrange(0, d.len() as int) =~= d);
        assert(f.path@[d.len() as int] == '\\');
        assert(starts_with_component(f.path@, d));
    }
}

/// What a Recycle Bin folder holds is the total of every deleted file at any depth below
/// it: such a file (neither `desktop.ini` nor a `$I` record) adds its whole size, while
/// a settings file, a `$I` record, an entry that is not a file, or a walk error adds
/// nothing.
pub proof fn lemma_bin_folder_size_counts_deleted_files_at_any_depth(
    e: FsEntry,
    all: Seq<WalkItem>,
    f: FsEntry,
    rest: Seq<char>,
    err: WalkError,
)
    requires
        e.linked is None,
    ensures
        f.is_file && f.path@ == e.path@ + seq!['\\'] + rest && !is_desktop_ini(f.path@)
            && !is_recycle_info_file(f.path@) ==> folder_bytes(e, all.push(WalkItem::Entry(f)), true)
            == folder_bytes(e, all, true) + f.size,
        (!f.is_file || is_desktop_ini(f.path@) || is_recycle_info_file(f.path@)) ==> folder_bytes(
            e,
            all.push(WalkItem::Entry(f)),
            true,
        ) == folder_bytes(e, all, true),
        folder_bytes(e, all.push(WalkItem::Error(err)), true) == folder_bytes(e, all, true),
{
    let d = e.path@;
    assert(all.push(WalkItem::Entry(f)).drop_last() =~= all);
    assert(all.push(WalkItem::Error(err)).drop_last() =~= all);
    if f.path@ == d + seq!['\\'] + rest {
        assert(f.path@.subrange(0, d.len() as int) =~= d);
        assert(f.path@[d.len() as int] == '\\');
        assert(starts_with_component(f.path@, d));
    }
}

/// A folder reached through a link is weighed by its own walk alone: what the walk that
/// found it holds does not matter, and each file that its own walk finds adds its whole
/// size (for a Recycle Bin count, unless it is `desktop.ini` or a `$I` record).
pub proof fn lemma_linked_folder_size_is_its_own_walk(
    e: FsEntry,
    all1: Seq<WalkItem>,
    all2: Seq<WalkItem>,
    c: Vec<LinkedEntry>,
    x: LinkedEntry,
    counted: bool,
)
    requires
        e.linked == Some(c),
    ensures
        folder_bytes(e, all1, counted) == folder_bytes(e, all2, counted),
        folder_bytes(e, all1, counted) == linked_bytes(c@, counted),
        x.is_file && (!counted || (!is_desktop_ini(x.path@) && !is_recycle_info_file(x.path@)))
            ==> linked_bytes(c@.push(x), counted) == linked_bytes(c@, counted) + x.size,
        !x.is_file ==> linked_bytes(c@.push(x), counted) == linked_bytes(c@, counted),
{
    assert(c@.push(x).drop_last() =~= c@);
}

// ---------------------------------------------------------------------------------
// Recycle Bins.

/// An entry inside a Recycle Bin that shows the bin holds something: a deleted file,
/// or a deleted folder (not a per-user folder directly in the bin) with data in it.
pub open spec fn countable(root: Seq<char>, e: FsEntry, its: Seq<WalkItem>) -> bool {
    if is_desktop_ini(e.path@) || is_recycle_info_file(e.path@) || (is_direct_child(root, e.path@)
        && e.is_dir) {
        false
    } else if e.is_file {
        true
    } else {
        e.is_dir && folder_bytes(e, its, true) > 0
    }
}

/// The bin holds something below its root.
pub open spec fn has_recycle_content(root: Seq<char>, its: Seq<WalkItem>) -> bool {
    exists|k: int|
        0 <= k < its.len() && (#[trigger] its[k] matches WalkItem::Entry(e) && e.depth >= 1
            && countable(root, e, its))
}

/// The messages of the errors among `its`, in order.
pub open spec fn error_messages(its: Seq<WalkItem>) -> Seq<Seq<char>>
    decreases its.len(),
{
    if its.len() == 0 {
        Seq::empty()
    } else {
        error_messages(its.drop_last()) + match its.last() {
            WalkItem::Error(e) => seq![e.message@],
            WalkItem::Entry(_) => Seq::empty(),
        }
    }
}

/// A Recycle Bin's scan: its walk errors are skipped; when it holds something it
/// becomes one item (not selected) sized by its deleted data.
pub open spec fn recycle_scan(p: PlanView, root: Seq<char>, its: Seq<WalkItem>) -> PlanView {
    let p1 = PlanView { skipped: p.skipped + error_messages(its), ..p };
    if has_recycle_content(root, its) {
        let bytes = picked_bytes(its, Pick::Counted);
        push_item(
            p1,
            item_view(root, bytes as u64, "Recycle Bin"@, RiskLevel::Medium, false, recycle_reason()),
            bytes,
        )
    } else {
        p1
    }
}

// ---------------------------------------------------------------------------------
// User folders.

/// The walk, limited to `max` levels, reports this error.
pub open spec fn error_reported(e: WalkError, max: usize) -> bool {
    if e.opening_directory {
        e.depth < max
    } else {
        e.depth <= max
    }
}

/// The entry was last modified at least `days` days ago.
pub open spec fn is_old(age_secs: Option<u64>, days: u64) -> bool {
    match age_secs {
        Some(a) => a >= days * 86400,
        None => false,
    }
}

pub open spec fn download_category(large: bool, old: bool) -> Seq<char> {
    if large {
        "Large file suggestion"@
    } else if old {
        "Old download suggestion"@
    } else {
        "Download item suggestion"@
    }
}

/// One walk item of a user folder.
pub open spec fn suggest_step(
    p: PlanView,
    root: Seq<char>,
    all: Seq<WalkItem>,
    it: WalkItem,
    rules: RulesView,
    excl: Seq<Seq<char>>,
) -> PlanView {
    let max = rules.max_suggestion_depth;
    match it {
        WalkItem::Error(e) => if error_reported(e, max) {
            push_skipped(p, e.message@)
        } else {
            p
        },
        WalkItem::Entry(e) => if e.depth > max || e.path@ == root || !within_depth(
            root,
            e.path@,
            max as nat,
        ) || excluded(e.canonical, excl) {
            p
        } else if is_downloads(root) {
            if !is_direct_child(root, e.path@) || (!e.is_file && !e.is_dir) {
                p
            } else {
                let size: int = if e.is_dir {
                    folder_bytes(e, all, false)
                } else {
                    e.size as int
                };
                let large = size >= rules.large_file_bytes;
                let old = e.is_file && is_old(e.age_secs, rules.old_file_days);
                push_suggestion(
                    p,
                    item_view(
                        e.path@,
                        size as u64,
                        download_category(large, old),
                        if large {
                            RiskLevel::Medium
                        } else {
                            RiskLevel::High
                        },
                        false,
                        download_reason(),
                    ),
                    size,
                )
            }
        } else if !e.is_file || e.size < rules.large_file_bytes {
            p
        } else {
            push_suggestion(
                p,
                item_view(
                    e.path@,
                    e.size,
                    "Large file suggestion"@,
                    RiskLevel::Medium,
                    false,
                    large_reason(),
                ),
                e.size as int,
            )
        },
    }
}

pub open spec fn suggest_fold(
    p: PlanView,
    root: Seq<char>,
    all: Seq<WalkItem>,
    its: Seq<WalkItem>,
    rules: RulesView,
    excl: Seq<Seq<char>>,
) -> PlanView
    decreases its.len(),
{
    if its.len() == 0 {
        p
    } else {
        suggest_step(suggest_fold(p, root, all, its.drop_last(), rules, excl), root, all, its.last(), rules, excl)
    }
}

// ---------------------------------------------------------------------------------
// The whole scan.

/// The scan of one root: nothing when it does not exist or is excluded.
pub open spec fn run_job(p: PlanView, j: Job, rules: RulesView, excl: Seq<Seq<char>>) -> PlanView {
    if !j.listing.exists || excluded(j.listing.canonical, excl) {
        p
    } else {
        match j.kind {
            JobKind::Files(lab) => file_fold(p, j.listing.items@, excl, lab),
            JobKind::RecycleBin => recycle_scan(p, j.root, j.listing.items@),
            JobKind::Suggestions => suggest_fold(p, j.root, j.listing.items@, j.listing.items@, rules, excl),
        }
    }
}

pub open spec fn run_jobs(p: PlanView, js: Seq<Job>, rules: RulesView, excl: Seq<Seq<char>>) -> PlanView
    decreases js.len(),
{
    if js.len() == 0 {
        p
    } else {
        run_jobs(run_job(p, js[0], rules, excl), js.drop_first(), rules, excl)
    }
}

// ---------------------------------------------------------------------------------
// Progress of the whole scan.

/// The paths of the files that a folder's scan takes as items, in order.
pub open spec fn files_seen(its: Seq<WalkItem>, excl: Seq<Seq<char>>) -> Seq<Seq<char>>
    decreases its.len(),
{
    if its.len() == 0 {
        Seq::empty()
    } else {
        let prev = files_seen(its.drop_last(), excl);
        match its.last() {
            WalkItem::Entry(e) => if e.is_file && !excluded(e.canonical, excl) && !is_runtime_protected(e.path@) {
                prev.push(e.path@)
            } else {
                prev
            },
            WalkItem::Error(_) => prev,
        }
    }
}

/// The paths of the entries that show that a Recycle Bin holds something, in order.
pub open spec fn recycle_seen(root: Seq<char>, all: Seq<WalkItem>, its: Seq<WalkItem>) -> Seq<Seq<char>>
    decreases its.len(),
{
    if its.len() == 0 {
        Seq::empty()
    } else {
        let prev = recycle_seen(root, all, its.drop_last());
        match its.last() {
            WalkItem::Entry(e) => if e.depth >= 1 && countable(root, e, all) {
                prev.push(e.path@)
            } else {
                prev
            },
            WalkItem::Error(_) => prev,
        }
    }
}

/// The paths of the entries of a user folder that its scan weighs, in order.
pub open spec fn suggest_seen(
    root: Seq<char>,
    its: Seq<WalkItem>,
    rules: RulesView,
    excl: Seq<Seq<char>>,
) -> Seq<Seq<char>>
    decreases its.len(),
{
    if its.len() == 0 {
        Seq::empty()
    } else {
        let prev = suggest_seen(root, its.drop_last(), rules, excl);
        let max = rules.max_suggestion_depth;
        match its.last() {
            WalkItem::Entry(e) => if e.depth > max || e.path@ == root || !within_depth(root, e.path@, max as nat)
                || excluded(e.canonical, excl) {
                prev
            } else if is_downloads(root) {
                if !is_direct_child(root, e.path@) || (!e.is_file && !e.is_dir) {
                    prev
                } else {
                    prev.push(e.path@)
                }
            } else if !e.is_file {
                prev
            } else {
                prev.push(e.path@)
            },
            WalkItem::Error(_) => prev,
        }
    }
}

/// The paths that the scan of one root counts as seen.
pub open spec fn job_seen(j: Job, rules: RulesView, excl: Seq<Seq<char>>) -> Seq<Seq<char>> {
    let its = j.listing.items@;
    if !j.listing.exists || excluded(j.listing.canonical, excl) {
        Seq::empty()
    } else {
        match j.kind {
            JobKind::Files(_) => files_seen(its, excl),
            JobKind::RecycleBin => recycle_seen(j.root, its, its),
            JobKind::Suggestions => suggest_seen(j.root, its, rules, excl),
        }
    }
}

/// The progress of the scan of one root: it begins, sees its files, and is over.
pub open spec fn model_job(m: ScanModel, j: Job, rules: RulesView, excl: Seq<Seq<char>>) -> ScanModel {
    model_finish(model_seen_all(model_begin(m, j.root), job_seen(j, rules, excl)), j.root)
}

pub open spec fn model_jobs(m: ScanModel, js: Seq<Job>, rules: RulesView, excl: Seq<Seq<char>>) -> ScanModel
    decreases js.len(),
{
    if js.len() == 0 {
        m
    } else {
        model_jobs(model_job(m, js[0], rules, excl), js.drop_first(), rules, excl)
    }
}

/// The progress records of the scan of `rules` over `fs`: "Preparing scan", then for
/// each root a "Scanning" record, a "Scanning" record each time the count of files seen
/// reaches the next mark (every 250 files), and a "Scanned" record; then "Complete".
pub open spec fn planned_progress(rules: RulesView, fs: FsSnapshot) -> Seq<ScanRecord> {
    let js = scan_jobs(rules, fs);
    model_complete(
        model_jobs(
            model_emit(fresh_model(js.len() as int), "Preparing scan"@, Seq::empty()),
            js,
            rules,
            fs.exclude_roots.deep_view(),
        ),
    ).records
}

/// The key under which two roots count as the same: the lower-cased canonical form,
/// or the lower-cased path when it cannot be resolved.
pub open spec fn root_key(path: Seq<char>, l: RootListing) -> Seq<char> {
    lower(
        match l.canonical {
            Some(c) => c@,
            None => path,
        },
    )
}

/// The positions of the first occurrence of each key, in order.
pub open spec fn first_occurrences(keys: Seq<Seq<char>>) -> Seq<int>
    decreases keys.len(),
{
    if keys.len() == 0 {
        Seq::empty()
    } else {
        let prev = first_occurrences(keys.drop_last());
        if exists|j: int| 0 <= j < keys.len() - 1 && keys[j] == keys.last() {
            prev
        } else {
            prev.push(keys.len() - 1)
        }
    }
}

pub open spec fn root_keys(paths: Seq<Seq<char>>, listings: Seq<RootListing>) -> Seq<Seq<char>> {
    Seq::new(paths.len(), |i: int| root_key(paths[i], listings[i]))
}

/// The roots of one category, each scanned once.
pub open spec fn category_jobs(paths: Seq<Seq<char>>, listings: Seq<RootListing>, kind: JobKind) -> Seq<Job> {
    first_occurrences(root_keys(paths, listings)).map_values(
        |i: int| Job { kind, root: paths[i], listing: listings[i] },
    )
}

/// Every root the scan visits, in order: temporary folders, third-party caches (when
/// enabled), previous installations, Recycle Bins, system caches, user folders.
pub open spec fn scan_jobs(rules: RulesView, fs: FsSnapshot) -> Seq<Job> {
    category_jobs(rules.temp_dirs, fs.temp_dirs@, JobKind::Files(temp_label())) + (if rules.enable_third_party_cache {
        category_jobs(rules.enhanced_cache_dirs, fs.enhanced_cache_dirs@, JobKind::Files(enhanced_label()))
    } else {
        Seq::empty()
    }) + category_jobs(rules.windows_old_dirs, fs.windows_old_dirs@, JobKind::Files(windows_old_label()))
        + category_jobs(rules.recycle_bin_dirs, fs.recycle_bin_dirs@, JobKind::RecycleBin)
        + category_jobs(rules.system_cache_dirs, fs.system_cache_dirs@, JobKind::Files(system_cache_label()))
        + category_jobs(rules.suggest_dirs, fs.suggest_dirs@, JobKind::Suggestions)
}

/// The plan a scan builds.
pub open spec fn planned(rules: RulesView, fs: FsSnapshot) -> PlanView {
    run_jobs(empty_plan(), scan_jobs(rules, fs), rules, fs.exclude_roots.deep_view())
}

/// How many walk items the scan reads.
pub open spec fn jobs_items(js: Seq<Job>) -> int
    decreases js.len(),
{
    if js.len() == 0 {
        0
    } else {
        js[0].listing.items@.len() + jobs_items(js.drop_first())
    }
}

/// The snapshot has one listing per root of each category of the rules.
pub open spec fn snapshot_matches(rules: RulesView, fs: FsSnapshot) -> bool {
    &&& fs.temp_dirs@.len() == rules.temp_dirs.len()
    &&& fs.enhanced_cache_dirs@.len() == rules.enhanced_cache_dirs.len()
    &&& fs.windows_old_dirs@.len() == rules.windows_old_dirs.len()
    &&& fs.recycle_bin_dirs@.len() == rules.recycle_bin_dirs.len()
    &&& fs.system_cache_dirs@.len() == rules.system_cache_dirs.len()
    &&& fs.suggest_dirs@.len() == rules.suggest_dirs.len()
}


// ---------------------------------------------------------------------------------
// Byte totals only grow.

/// Both byte totals of `a` are at most those of `b`.
pub open spec fn bytes_le(a: PlanView, b: PlanView) -> bool {
    a.reclaimable_bytes <= b.reclaimable_bytes && a.suggested_bytes <= b.suggested_bytes
}

pub proof fn lemma_picked_bytes_prefix(its: Seq<WalkItem>, pick: Pick, k: int)
    requires
        0 <= k <= its.len(),
    ensures
        0 <= picked_bytes(its.take(k), pick) <= picked_bytes(its, pick),
    decreases its.len() - k,
{
    if k == its.len() {
        assert(its.take(k) =~= its);
        lemma_picked_bytes_nonneg(its, pick);
    } else {
        lemma_picked_bytes_prefix(its, pick, k + 1);
        assert(its.take(k + 1).drop_last() =~= its.take(k));
        lemma_picked_bytes_nonneg(its.take(k), pick);
    }
}

pub proof fn lemma_picked_bytes_nonneg(its: Seq<WalkItem>, pick: Pick)
    ensures
        picked_bytes(its, pick) >= 0,
    decreases its.len(),
{
    if its.len() > 0 {
        lemma_picked_bytes_nonneg(its.drop_last(), pick);
    }
}

/// The picked files weigh something exactly when one of them does.
pub proof fn lemma_picked_bytes_positive(its: Seq<WalkItem>, pick: Pick)
    ensures
        picked_bytes(its, pick) > 0 <==> exists|k: int|
            0 <= k < its.len() && #[trigger] item_bytes(its[k], pick) > 0,
    decreases its.len(),
{
    if its.len() > 0 {
        let prev = its.drop_last();
        lemma_picked_bytes_positive(prev, pick);
        lemma_picked_bytes_nonneg(prev, pick);
        if picked_bytes(its, pick) > 0 {
            if picked_bytes(prev, pick) > 0 {
                let k = choose|k: int| 0 <= k < prev.len() && #[trigger] item_bytes(prev[k], pick) > 0;
                assert(its[k] == prev[k]);
            } else {
                assert(item_bytes(its[its.len() - 1], pick) > 0);
            }
        }
        if exists|k: int| 0 <= k < its.len() && #[trigger] item_bytes(its[k], pick) > 0 {
            let k = choose|k: int| 0 <= k < its.len() && #[trigger] item_bytes(its[k], pick) > 0;
            if k < its.len() - 1 {
                assert(prev[k] == its[k]);
            }
            assert(item_bytes(its.last(), pick) >= 0);
        }
    }
}

pub proof fn lemma_file_fold_prefix(p: PlanView, its: Seq<WalkItem>, excl: Seq<Seq<char>>, lab: Label, k: int)
    requires
        0 <= k <= its.len(),
    ensures
        bytes_le(p, file_fold(p, its.take(k), excl, lab)),
        bytes_le(file_fold(p, its.take(k), excl, lab), file_fold(p, its, excl, lab)),
    decreases its.len() - k,
{
    if k == its.len() {
        assert(its.take(k) =~= its);
        lemma_file_fold_grows(p, its, excl, lab);
    } else {
        lemma_file_fold_prefix(p, its, excl, lab, k + 1);
        assert(its.take(k + 1).drop_last() =~= its.take(k));
        lemma_file_fold_grows(p, its.take(k), excl, lab);
    }
}

pub proof fn lemma_file_fold_grows(p: PlanView, its: Seq<WalkItem>, excl: Seq<Seq<char>>, lab: Label)
    ensures
        bytes_le(p, file_fold(p, its, excl, lab)),
    decreases its.len(),
{
    if its.len() > 0 {
        lemma_file_fold_grows(p, its.drop_last(), excl, lab);
    }
}

pub proof fn lemma_suggest_fold_grows(
    p: PlanView,
    root: Seq<char>,
    all: Seq<WalkItem>,
    its: Seq<WalkItem>,
    rules: RulesView,
    excl: Seq<Seq<char>>,
)
    ensures
        bytes_le(p, suggest_fold(p, root, all, its, rules, excl)),
    decreases its.len(),
{
    if its.len() > 0 {
        lemma_suggest_fold_grows(p, root, all, its.drop_last(), rules, excl);
        let q = suggest_fold(p, root, all, its.drop_last(), rules, excl);
        match its.last() {
            WalkItem::Entry(e) => {
                if e.is_dir {
                    lemma_folder_bytes_nonneg(e, all, false);
                }
            },
            _ => {},
        }
    }
}

pub proof fn lemma_suggest_fold_prefix(
    p: PlanView,
    root: Seq<char>,
    all: Seq<WalkItem>,
    its: Seq<WalkItem>,
    rules: RulesView,
    excl: Seq<Seq<char>>,
    k: int,
)
    requires
        0 <= k <= its.len(),
    ensures
        bytes_le(p, suggest_fold(p, root, all, its.take(k), rules, excl)),
        bytes_le(suggest_fold(p, root, all, its.take(k), rules, excl), suggest_fold(p, root, all, its, rules, excl)),
    decreases its.len() - k,
{
    if k == its.len() {
        assert(its.take(k) =~= its);
        lemma_suggest_fold_grows(p, root, all, its, rules, excl);
    } else {
        lemma_suggest_fold_prefix(p, root, all, its, rules, excl, k + 1);
        assert(its.take(k + 1).drop_last() =~= its.take(k));
        lemma_suggest_fold_grows(p, root, all, its.take(k), rules, excl);
        let q = suggest_fold(p, root, all, its.take(k), rules, excl);
        match its[k] {
            WalkItem::Entry(e) => {
                if e.is_dir {
                    lemma_folder_bytes_nonneg(e, all, false);
                }
            },
            _ => {},
        }
    }
}

pub proof fn lemma_run_job_grows(p: PlanView, j: Job, rules: RulesView, excl: Seq<Seq<char>>)
    ensures
        bytes_le(p, run_job(p, j, rules, excl)),
{
    let its = j.listing.items@;
    match j.kind {
        JobKind::Files(lab) => lemma_file_fold_grows(p, its, excl, lab),
        JobKind::RecycleBin => lemma_picked_bytes_nonneg(its, Pick::Counted),
        JobKind::Suggestions => lemma_suggest_fold_grows(p, j.root, its, its, rules, excl),
    }
}

pub proof fn lemma_run_jobs_grows(p: PlanView, js: Seq<Job>, rules: RulesView, excl: Seq<Seq<char>>)
    ensures
        bytes_le(p, run_jobs(p, js, rules, excl)),
    decreases js.len(),
{
    if js.len() > 0 {
        lemma_run_job_grows(p, js[0], rules, excl);
        lemma_run_jobs_grows(run_job(p, js[0], rules, excl), js.drop_first(), rules, excl);
    }
}

pub proof fn lemma_jobs_items_nonneg(js: Seq<Job>)
    ensures
        jobs_items(js) >= 0,
    decreases js.len(),
{
    if js.len() > 0 {
        lemma_jobs_items_nonneg(js.drop_first());
    }
}

pub proof fn lemma_run_jobs_append(p: PlanView, a: Seq<Job>, b: Seq<Job>, rules: RulesView, excl: Seq<Seq<char>>)
    ensures
        run_jobs(p, a + b, rules, excl) == run_jobs(run_jobs(p, a, rules, excl), b, rules, excl),
        jobs_items(a + b) == jobs_items(a) + jobs_items(b),
    decreases a.len(),
{
    if a.len() == 0 {
        assert(a + b =~= b);
    } else {
        assert((a + b).drop_first() =~= a.drop_first() + b);
        assert((a + b)[0] == a[0]);
        lemma_run_jobs_append(run_job(p, a[0], rules, excl), a.drop_first(), b, rules, excl);
    }
}

// ---------------------------------------------------------------------------------
// Each root once.

pub proof fn lemma_first_occurrences_order(keys: Seq<Seq<char>>)
    ensures
        first_occurrences(keys).len() <= keys.len(),
        forall|i: int| 0 <= i < first_occurrences(keys).len() ==> 0 <= #[trigger] first_occurrences(keys)[i] < keys.len(),
        forall|i: int, j: int| 0 <= i < j < first_occurrences(keys).len() ==> first_occurrences(keys)[i] < first_occurrences(keys)[j],
    decreases keys.len(),
{
    if keys.len() > 0 {
        lemma_first_occurrences_order(keys.drop_last());
    }
}

pub proof fn lemma_first_occurrences_distinct(keys: Seq<Seq<char>>)
    ensures
        forall|i: int, j: int| 0 <= i < j < first_occurrences(keys).len() ==> keys[first_occurrences(keys)[i]] != keys[first_occurrences(keys)[j]],
    decreases keys.len(),
{
    if keys.len() > 0 {
        let prev = keys.drop_last();
        lemma_first_occurrences_distinct(prev);
        lemma_first_occurrences_order(prev);
        let fp = first_occurrences(prev);
        let f = first_occurrences(keys);
        assert forall|i: int, j: int| 0 <= i < j < f.len() implies keys[f[i]] != keys[f[j]] by {
            assert(keys[fp[i]] == prev[fp[i]]);
            if j < fp.len() {
                assert(keys[fp[j]] == prev[fp[j]]);
            } else {
                assert(f[j] == keys.len() - 1);
                assert(f[i] == fp[i]);
                if keys[f[i]] == keys[f[j]] {
                    assert(0 <= fp[i] < keys.len() - 1 && keys[fp[i]] == keys.last());
                }
            }
        }
    }
}

pub proof fn lemma_first_occurrence_of(keys: Seq<Seq<char>>, j: int) -> (i: int)
    requires
        0 <= j < keys.len(),
    ensures
        0 <= i < first_occurrences(keys).len(),
        keys[first_occurrences(keys)[i]] === keys[j],
    decreases keys.len(),
{
    let n = keys.len() as int;
    let prev = keys.drop_last();
    lemma_first_occurrences_order(prev);
    let fp = first_occurrences(prev);
    let f = first_occurrences(keys);
    let dup = exists|w: int| 0 <= w < n - 1 && keys[w] == keys.last();
    if dup {
        assert(f == fp);
    } else {
        assert(f == fp.push(n - 1));
    }
    if j == n - 1 {
        if dup {
            let w = choose|w: int| 0 <= w < n - 1 && keys[w] == keys.last();
            assert(prev[w] == keys[w]);
            let i = lemma_first_occurrence_of(prev, w);
            assert(keys[fp[i]] == prev[fp[i]]);
            i
        } else {
            f.len() - 1
        }
    } else {
        assert(prev[j] == keys[j]);
        let i = lemma_first_occurrence_of(prev, j);
        assert(f[i] == fp[i]);
        assert(keys[fp[i]] == prev[fp[i]]);
        i
    }
}

/// The keys at the positions `kept`, in order.
pub open spec fn keys_at(keys: Seq<Seq<char>>, kept: Seq<int>) -> Seq<Seq<char>> {
    Seq::new(kept.len(), |i: int| keys[kept[i]])
}

/// No root is scanned twice under one category: the roots kept have pairwise different
/// keys, every root's key is among them, and they keep their order.
pub proof fn lemma_duplicate_roots_scanned_once(paths: Seq<Seq<char>>, listings: Seq<RootListing>)
    requires
        paths.len() == listings.len(),
    ensures
        ({
            let keys = root_keys(paths, listings);
            let kept = first_occurrences(keys);
            &&& kept.len() <= paths.len()
            &&& forall|i: int, j: int| 0 <= i < j < kept.len() ==> kept[i] < kept[j] && keys[kept[i]] != keys[kept[j]]
            &&& forall|j: int| 0 <= j < keys.len() ==> keys_at(keys, kept).contains(#[trigger] keys[j])
        }),
{
    let keys = root_keys(paths, listings);
    assert(keys.len() == paths.len());
    lemma_first_occurrences_order(keys);
    lemma_first_occurrences_distinct(keys);
    let kept = first_occurrences(keys);
    assert forall|j: int| 0 <= j < keys.len() implies keys_at(keys, kept).contains(#[trigger] keys[j]) by {
        let i = lemma_first_occurrence_of(keys, j);
        assert(keys_at(keys, kept)[i] == keys[j]);
    }
}


// ---------------------------------------------------------------------------------
// Running the scan.

/// Both byte totals fit in 64 bits.
pub open spec fn fits(p: PlanView) -> bool {
    p.reclaimable_bytes <= u64::MAX && p.suggested_bytes <= u64::MAX
}

/// `v` holds the character sequences `s`.
pub open spec fn char_vecs_match(v: Seq<Vec<char>>, s: Seq<Seq<char>>) -> bool {
    v.len() == s.len() && forall|i: int| 0 <= i < v.len() ==> #[trigger] v[i]@ == s[i]
}

/// `paths` holds the path of each entry among `items`.
pub open spec fn paths_match(paths: Seq<Vec<char>>, items: Seq<WalkItem>) -> bool {
    paths.len() == items.len() && forall|i: int|
        0 <= i < items.len() ==> (#[trigger] items[i] matches WalkItem::Entry(e) ==> paths[i]@ == e.path@)
}

/// The progress state after one root: one more root done, at most `n` more files seen,
/// at least two more records, the earlier ones unchanged.
pub open spec fn advanced(a: ScanState, b: ScanState, n: int) -> bool {
    &&& b.wf()
    &&& b.total_roots == a.total_roots
    &&& b.completed_roots == a.completed_roots + 1
    &&& a.scanned_files <= b.scanned_files <= a.scanned_files + n
    &&& b.events@.len() >= a.events@.len() + 2
    &&& b.events@.subrange(0, a.events@.len() as int) == a.events@
}

fn entry_paths(items: &Vec<WalkItem>) -> (paths: Vec<Vec<char>>)
    ensures
        paths_match(paths@, items@),
{
    let mut paths: Vec<Vec<char>> = Vec::new();
    for i in 0..items.len()
        invariant
            paths.len() == i,
            forall|k: int|
                0 <= k < i ==> (#[trigger] items@[k] matches WalkItem::Entry(e) ==> paths@[k]@ == e.path@),
    {
        match &items[i] {
            WalkItem::Entry(e) => paths.push(chars_of(e.path.as_str())),
            WalkItem::Error(_) => paths.push(Vec::new()),
        }
    }
    paths
}

fn is_excluded(canonical: &Option<String>, excl: &Vec<Vec<char>>, Ghost(ev): Ghost<Seq<Seq<char>>>) -> (r: bool)
    requires
        char_vecs_match(excl@, ev),
    ensures
        r == excluded(*canonical, ev),
{
    match canonical {
        Some(c) => {
            let cv = chars_of(c.as_str());
            for i in 0..excl.len()
                invariant
                    char_vecs_match(excl@, ev),
                    cv@ == c@,
                    *canonical == Some(*c),
                    forall|k: int| 0 <= k < i ==> !starts_with_component(c@, #[trigger] ev[k]),
            {
                if path_starts_with(&cv, &excl[i]) {
                    assert(starts_with_component(c@, ev[i as int]));
                    return true;
                }
            }
            false
        },
        None => false,
    }
}

fn is_counted_file(e: &FsEntry, path: &Vec<char>) -> (r: bool)
    requires
        path@ == e.path@,
    ensures
        r == counted_file(*e),
{
    e.is_file && !desktop_ini(path) && !recycle_info_file(path)
}

/// Whether some counted file at or under `dir` has a positive size.
fn counted_data_under(items: &Vec<WalkItem>, paths: &Vec<Vec<char>>, dir: &Vec<char>) -> (r: bool)
    requires
        paths_match(paths@, items@),
    ensures
        r == (picked_bytes(items@, Pick::CountedUnder(dir@)) > 0),
{
    proof {
        lemma_picked_bytes_positive(items@, Pick::CountedUnder(dir@));
    }
    for i in 0..items.len()
        invariant
            paths_match(paths@, items@),
            forall|k: int| 0 <= k < i ==> #[trigger] item_bytes(items@[k], Pick::CountedUnder(dir@)) <= 0,
    {
        match &items[i] {
            WalkItem::Entry(e) => {
                if e.size > 0 && path_starts_with(&paths[i], dir) && is_counted_file(e, &paths[i]) {
                    assert(item_bytes(items@[i as int], Pick::CountedUnder(dir@)) > 0);
                    proof {
                        lemma_picked_bytes_positive(items@, Pick::CountedUnder(dir@));
                    }
                    return true;
                }
            },
            WalkItem::Error(_) => {},
        }
    }
    proof {
        lemma_picked_bytes_positive(items@, Pick::CountedUnder(dir@));
    }
    false
}

/// The total size of the files at or under `dir`, when it fits in 64 bits.
fn bytes_under(items: &Vec<WalkItem>, paths: &Vec<Vec<char>>, dir: &Vec<char>) -> (r: Option<u64>)
    requires
        paths_match(paths@, items@),
    ensures
        match r {
            Some(b) => b == picked_bytes(items@, Pick::Under(dir@)),
            None => picked_bytes(items@, Pick::Under(dir@)) > u64::MAX,
        },
{
    let mut total: u64 = 0;
    for i in 0..items.len()
        invariant
            paths_match(paths@, items@),
            total == picked_bytes(items@.take(i as int), Pick::Under(dir@)),
    {
        proof {
            lemma_picked_bytes_prefix(items@, Pick::Under(dir@), i + 1);
            assert(items@.take(i + 1).drop_last() =~= items@.take(i as int));
        }
        match &items[i] {
            WalkItem::Entry(e) => {
                if e.is_file && path_starts_with(&paths[i], dir) {
                    match total.checked_add(e.size) {
                        Some(t) => {
                            total = t;
                        },
                        None => {
                            return None;
                        },
                    }
                }
            },
            WalkItem::Error(_) => {},
        }
    }
    assert(items@.take(items.len() as int) =~= items@);
    Some(total)
}

/// The total size of the counted files of a Recycle Bin, when it fits in 64 bits.
fn counted_bytes(items: &Vec<WalkItem>, paths: &Vec<Vec<char>>) -> (r: Option<u64>)
    requires
        paths_match(paths@, items@),
    ensures
        match r {
            Some(b) => b == picked_bytes(items@, Pick::Counted),
            None => picked_bytes(items@, Pick::Counted) > u64::MAX,
        },
{
    let mut total: u64 = 0;
    for i in 0..items.len()
        invariant
            paths_match(paths@, items@),
            total == picked_bytes(items@.take(i as int), Pick::Counted),
    {
        proof {
            lemma_picked_bytes_prefix(items@, Pick::Counted, i + 1);
            assert(items@.take(i + 1).drop_last() =~= items@.take(i as int));
        }
        match &items[i] {
            WalkItem::Entry(e) => {
                if is_counted_file(e, &paths[i]) {
                    match total.checked_add(e.size) {
                        Some(t) => {
                            total = t;
                        },
                        None => {
                            return None;
                        },
                    }
                }
            },
            WalkItem::Error(_) => {},
        }
    }
    assert(items@.take(items.len() as int) =~= items@);
    Some(total)
}

fn is_countable(root: &Vec<char>, e: &FsEntry, path: &Vec<char>, items: &Vec<WalkItem>, paths: &Vec<Vec<char>>) -> (r: bool)
    requires
        path@ == e.path@,
        paths_match(paths@, items@),
    ensures
        r == countable(root@, *e, items@),
{
    if desktop_ini(path) || recycle_info_file(path) || (direct_child(root, path) && e.is_dir) {
        return false;
    }
    if e.is_file {
        return true;
    }
    if !e.is_dir {
        return false;
    }
    match &e.linked {
        Some(c) => match linked_total(c, true) {
            Some(t) => t > 0,
            None => true,
        },
        None => counted_data_under(items, paths, path),
    }
}

/// The total size of the files among `c` (with `counted`, only those that are neither
/// `desktop.ini` nor `$I` records), when it fits in 64 bits.
fn linked_total(c: &Vec<LinkedEntry>, counted: bool) -> (r: Option<u64>)
    ensures
        match r {
            Some(b) => b == linked_bytes(c@, counted),
            None => linked_bytes(c@, counted) > u64::MAX,
        },
{
    let mut total: u64 = 0;
    for i in 0..c.len()
        invariant
            total == linked_bytes(c@.take(i as int), counted),
    {
        proof {
            assert(c@.take(i + 1).drop_last() =~= c@.take(i as int));
            lemma_linked_prefix(c@, counted, i + 1);
        }
        let e = &c[i];
        let path = chars_of(e.path.as_str());
        if e.is_file && (!counted || (!desktop_ini(&path) && !recycle_info_file(&path))) {
            match total.checked_add(e.size) {
                Some(t) => {
                    total = t;
                },
                None => {
                    return None;
                },
            }
        }
    }
    assert(c@.take(c.len() as int) =~= c@);
    Some(total)
}

proof fn lemma_linked_prefix(c: Seq<LinkedEntry>, counted: bool, k: int)
    requires
        0 <= k <= c.len(),
    ensures
        0 <= linked_bytes(c.take(k), counted) <= linked_bytes(c, counted),
    decreases c.len() - k,
{
    lemma_linked_bytes_nonneg(c.take(k), counted);
    if k < c.len() {
        lemma_linked_prefix(c, counted, k + 1);
        assert(c.take(k + 1).drop_last() =~= c.take(k));
    } else {
        assert(c.take(k) =~= c);
    }
}

fn push_message(plan: &mut CleanupPlan, m: String)
    ensures
        final(plan)@ == push_skipped(old(plan)@, m@),
{
    plan.skipped.push(m);
    assert(plan@ =~= push_skipped(old(plan)@, m@));
}

/// Scans a folder whose files are all cleanup candidates; fails only when the plan's
/// byte total would not fit in 64 bits.
fn scan_default_dir(
    plan: &mut CleanupPlan,
    state: &mut ScanState,
    root: &String,
    listing: &RootListing,
    excl: &Vec<Vec<char>>,
    category: &str,
    risk: RiskLevel,
    selected: bool,
    reason: &str,
    Ghost(ev): Ghost<Seq<Seq<char>>>,
    Ghost(rules): Ghost<RulesView>,
) -> (ok: bool)
    requires
        char_vecs_match(excl@, ev),
        old(state).wf(),
        (old(state).completed_roots + 1) * 100 <= usize::MAX,
        old(state).scanned_files + listing.items@.len() + 251 <= u64::MAX,
    ensures
        ok == fits(
            run_job(
                old(plan)@,
                Job {
                    kind: JobKind::Files(Label { category: category@, risk, selected, reason: reason@ }),
                    root: root@,
                    listing: *listing,
                },
                rules,
                ev,
            ),
        ),
        ok ==> final(plan)@ == run_job(
            old(plan)@,
            Job {
                kind: JobKind::Files(Label { category: category@, risk, selected, reason: reason@ }),
                root: root@,
                listing: *listing,
            },
            rules,
            ev,
        ),
        ok ==> advanced(*old(state), *final(state), listing.items@.len() as int),
        ok ==> scan_model(*final(state)) == model_job(
            scan_model(*old(state)),
            Job {
                kind: JobKind::Files(Label { category: category@, risk, selected, reason: reason@ }),
                root: root@,
                listing: *listing,
            },
            rules,
            ev,
        ),
{
    let ghost lab = Label { category: category@, risk, selected, reason: reason@ };
    let ghost s0 = *state;
    state.begin_root(root.as_str());
    let ghost mb = scan_model(*state);
    if !listing.exists || is_excluded(&listing.canonical, excl, Ghost(ev)) {
        state.finish_root(root.as_str());
        assert(state.events@.subrange(0, s0.events@.len() as int) =~= s0.events@);
        return true;
    }
    let items = &listing.items;
    let ghost start = plan@;
    let ghost s1 = *state;
    let ghost target = run_job(
        old(plan)@,
        Job { kind: JobKind::Files(lab), root: root@, listing: *listing },
        rules,
        ev,
    );
    assert(target == file_fold(start, items@, ev, lab));
    assert(items@.take(0) =~= Seq::<WalkItem>::empty());
    for i in 0..items.len()
        invariant
            char_vecs_match(excl@, ev),
            items@ == listing.items@,
            target == file_fold(start, items@, ev, lab),
            scan_model(*state) == model_seen_all(mb, files_seen(items@.take(i as int), ev)),
            target == run_job(
                old(plan)@,
                Job {
                    kind: JobKind::Files(Label { category: category@, risk, selected, reason: reason@ }),
                    root: root@,
                    listing: *listing,
                },
                rules,
                ev,
            ),
            plan@ == file_fold(start, items@.take(i as int), ev, lab),
            lab == (Label { category: category@, risk, selected, reason: reason@ }),
            state.wf(),
            state.total_roots == s1.total_roots,
            state.completed_roots == s1.completed_roots,
            s1.scanned_files <= state.scanned_files <= s1.scanned_files + i,
            s1.scanned_files + items@.len() + 251 <= u64::MAX,
            state.events@.len() >= s1.events@.len(),
            state.events@.subrange(0, s1.events@.len() as int) == s1.events@,
    {
        proof {
            assert(items@.take(i + 1).drop_last() =~= items@.take(i as int));
            assert(items@.take(i + 1).last() == items@[i as int]);
            lemma_file_fold_prefix(start, items@, ev, lab, i + 1);
        }
        let ghost seen_before = files_seen(items@.take(i as int), ev);
        match &items[i] {
            WalkItem::Error(e) => {
                push_message(plan, e.message.clone());
            },
            WalkItem::Entry(e) => {
                if !e.is_file || is_excluded(&e.canonical, excl, Ghost(ev)) {
                } else {
                    let path = chars_of(e.path.as_str());
                    if runtime_protected(&path) {
                        let mut m = e.path.clone();
                        m.append(" - runtime protected file skipped");
                        push_message(plan, m);
                    } else {
                        state.file_seen(e.path.as_str());
                        assert(files_seen(items@.take(i + 1), ev) == seen_before.push(e.path@));
                        assert(files_seen(items@.take(i + 1), ev).drop_last() =~= seen_before);
                        let item = cleanup_item(e.path.as_str(), e.size, category, risk, selected, reason);
                        let ghost p0 = plan@;
                        assert(file_fold(start, items@.take(i + 1), ev, lab) == push_item(p0, item@, e.size as int));
                        match plan.reclaimable_bytes.checked_add(e.size) {
                            Some(total) => {
                                plan.items.push(item);
                                plan.reclaimable_bytes = total;
                                assert(plan@ =~= push_item(p0, item@, e.size as int));
                            },
                            None => {
                                return false;
                            },
                        }
                    }
                }
            },
        }
        assert(state.events@.subrange(0, s1.events@.len() as int) =~= s1.events@);
    }
    assert(items@.take(items.len() as int) =~= items@);
    state.finish_root(root.as_str());
    assert(state.events@.subrange(0, s0.events@.len() as int) =~= s0.events@);
    true
}



/// Scans a Recycle Bin.
fn scan_recycle_bin_dir(
    plan: &mut CleanupPlan,
    state: &mut ScanState,
    root: &String,
    listing: &RootListing,
    excl: &Vec<Vec<char>>,
    Ghost(ev): Ghost<Seq<Seq<char>>>,
    Ghost(rules): Ghost<RulesView>,
) -> (ok: bool)
    requires
        char_vecs_match(excl@, ev),
        old(state).wf(),
        (old(state).completed_roots + 1) * 100 <= usize::MAX,
        old(state).scanned_files + listing.items@.len() + 251 <= u64::MAX,
    ensures
        ok == fits(run_job(old(plan)@, Job { kind: JobKind::RecycleBin, root: root@, listing: *listing }, rules, ev)),
        ok ==> final(plan)@ == run_job(old(plan)@, Job { kind: JobKind::RecycleBin, root: root@, listing: *listing }, rules, ev),
        ok ==> advanced(*old(state), *final(state), listing.items@.len() as int),
        ok ==> scan_model(*final(state)) == model_job(
            scan_model(*old(state)),
            Job { kind: JobKind::RecycleBin, root: root@, listing: *listing },
            rules,
            ev,
        ),
{
    let ghost s0 = *state;
    state.begin_root(root.as_str());
    let ghost mb = scan_model(*state);
    if !listing.exists || is_excluded(&listing.canonical, excl, Ghost(ev)) {
        state.finish_root(root.as_str());
        assert(state.events@.subrange(0, s0.events@.len() as int) =~= s0.events@);
        return true;
    }
    let items = &listing.items;
    let paths = entry_paths(items);
    let rootc = chars_of(root.as_str());
    let ghost start = plan@;
    let ghost s1 = *state;
    let mut has_content = false;
    assert(items@.take(0) =~= Seq::<WalkItem>::empty());
    assert(plan@ =~= PlanView { skipped: start.skipped + error_messages(items@.take(0)), ..start });
    for i in 0..items.len()
        invariant
            items@ == listing.items@,
            paths_match(paths@, items@),
            rootc@ == root@,
            plan@ == (PlanView { skipped: start.skipped + error_messages(items@.take(i as int)), ..start }),
            has_content <==> exists|k: int|
                0 <= k < i && (#[trigger] items@[k] matches WalkItem::Entry(e) && e.depth >= 1 && countable(root@, e, items@)),
            scan_model(*state) == model_seen_all(mb, recycle_seen(root@, items@, items@.take(i as int))),
            state.wf(),
            state.total_roots == s1.total_roots,
            state.completed_roots == s1.completed_roots,
            s1.scanned_files <= state.scanned_files <= s1.scanned_files + i,
            s1.scanned_files + items@.len() + 251 <= u64::MAX,
            state.events@.len() >= s1.events@.len(),
            state.events@.subrange(0, s1.events@.len() as int) == s1.events@,
    {
        assert(items@.take(i + 1).drop_last() =~= items@.take(i as int));
        assert(items@.take(i + 1).last() == items@[i as int]);
        let ghost seen_before = recycle_seen(root@, items@, items@.take(i as int));
        match &items[i] {
            WalkItem::Error(e) => {
                let ghost p0 = plan@;
                plan.skipped.push(e.message.clone());
                assert(error_messages(items@.take(i + 1)) == error_messages(items@.take(i as int)) + seq![e.message@]);
                assert(plan@.skipped =~= p0.skipped.push(e.message@));
                assert(start.skipped + error_messages(items@.take(i + 1)) =~= (start.skipped + error_messages(items@.take(i as int))).push(e.message@));
                assert(plan@ =~= (PlanView { skipped: start.skipped + error_messages(items@.take(i + 1)), ..start }));
            },
            WalkItem::Entry(e) => {
                if e.depth >= 1 && is_countable(&rootc, e, &paths[i], items, &paths) {
                    has_content = true;
                    state.file_seen(e.path.as_str());
                    assert(recycle_seen(root@, items@, items@.take(i + 1)).drop_last() =~= seen_before);
                }
                assert(error_messages(items@.take(i + 1)) =~= error_messages(items@.take(i as int)));
            },
        }
        assert(state.events@.subrange(0, s1.events@.len() as int) =~= s1.events@);
    }
    assert(items@.take(items.len() as int) =~= items@);
    if has_content {
        proof {
            lemma_picked_bytes_nonneg(items@, Pick::Counted);
        }
        let size = match counted_bytes(items, &paths) {
            Some(b) => b,
            None => {
                return false;
            },
        };
        let item = cleanup_item(
            root.as_str(),
            size,
            "Recycle Bin",
            RiskLevel::Medium,
            false,
            "Recycle Bin contents. Uses Windows Recycle Bin emptying to keep Explorer in sync.",
        );
        let ghost p0 = plan@;
        match plan.reclaimable_bytes.checked_add(size) {
            Some(total) => {
                plan.items.push(item);
                plan.reclaimable_bytes = total;
                assert(plan@ =~= push_item(p0, item@, size as int));
            },
            None => {
                return false;
            },
        }
    }
    state.finish_root(root.as_str());
    assert(state.events@.subrange(0, s0.events@.len() as int) =~= s0.events@);
    true
}

fn is_old_exec(age_secs: Option<u64>, days: u64) -> (r: bool)
    ensures
        r == is_old(age_secs, days),
{
    match age_secs {
        Some(a) => {
            let r = a / 86400 >= days;
            assert(r == (a >= days * 86400)) by (nonlinear_arith)
                requires
                    r == (a / 86400 >= days),
            ;
            r
        },
        None => false,
    }
}

/// Scans a user folder for suggestions.
fn scan_suggestion_dir(
    plan: &mut CleanupPlan,
    state: &mut ScanState,
    root: &String,
    listing: &RootListing,
    excl: &Vec<Vec<char>>,
    rules: &Rules,
    Ghost(ev): Ghost<Seq<Seq<char>>>,
) -> (ok: bool)
    requires
        char_vecs_match(excl@, ev),
        old(state).wf(),
        (old(state).completed_roots + 1) * 100 <= usize::MAX,
        old(state).scanned_files + listing.items@.len() + 251 <= u64::MAX,
    ensures
        ok == fits(run_job(old(plan)@, Job { kind: JobKind::Suggestions, root: root@, listing: *listing }, rules@, ev)),
        ok ==> final(plan)@ == run_job(old(plan)@, Job { kind: JobKind::Suggestions, root: root@, listing: *listing }, rules@, ev),
        ok ==> advanced(*old(state), *final(state), listing.items@.len() as int),
        ok ==> scan_model(*final(state)) == model_job(
            scan_model(*old(state)),
            Job { kind: JobKind::Suggestions, root: root@, listing: *listing },
            rules@,
            ev,
        ),
{
    let ghost s0 = *state;
    state.begin_root(root.as_str());
    let ghost mb = scan_model(*state);
    if !listing.exists || is_excluded(&listing.canonical, excl, Ghost(ev)) {
        state.finish_root(root.as_str());
        assert(state.events@.subrange(0, s0.events@.len() as int) =~= s0.events@);
        return true;
    }
    let downloads = path_ends_with_component(root.as_str(), "Downloads");
    let items = &listing.items;
    let paths = entry_paths(items);
    let rootc = chars_of(root.as_str());
    let max = rules.max_suggestion_depth;
    let ghost start = plan@;
    let ghost rv = rules@;
    let ghost all = items@;
    let ghost s1 = *state;
    let ghost target = run_job(old(plan)@, Job { kind: JobKind::Suggestions, root: root@, listing: *listing }, rules@, ev);
    assert(target == suggest_fold(start, root@, all, items@, rv, ev));
    assert(items@.take(0) =~= Seq::<WalkItem>::empty());
    for i in 0..items.len()
        invariant
            char_vecs_match(excl@, ev),
            items@ == listing.items@,
            all == items@,
            target == suggest_fold(start, root@, all, items@, rv, ev),
            target == run_job(old(plan)@, Job { kind: JobKind::Suggestions, root: root@, listing: *listing }, rules@, ev),
            rv == rules@,
            max == rules.max_suggestion_depth,
            downloads == is_downloads(root@),
            paths_match(paths@, items@),
            rootc@ == root@,
            plan@ == suggest_fold(start, root@, all, items@.take(i as int), rv, ev),
            scan_model(*state) == model_seen_all(mb, suggest_seen(root@, items@.take(i as int), rv, ev)),
            state.wf(),
            state.total_roots == s1.total_roots,
            state.completed_roots == s1.completed_roots,
            s1.scanned_files <= state.scanned_files <= s1.scanned_files + i,
            s1.scanned_files + items@.len() + 251 <= u64::MAX,
            state.events@.len() >= s1.events@.len(),
            state.events@.subrange(0, s1.events@.len() as int) == s1.events@,
    {
        proof {
            assert(items@.take(i + 1).drop_last() =~= items@.take(i as int));
            assert(items@.take(i + 1).last() == items@[i as int]);
            lemma_suggest_fold_prefix(start, root@, all, items@, rv, ev, i + 1);
        }
        let ghost seen_before = suggest_seen(root@, items@.take(i as int), rv, ev);
        match &items[i] {
            WalkItem::Error(e) => {
                let reported = if e.opening_directory {
                    e.depth < max
                } else {
                    e.depth <= max
                };
                if reported {
                    push_message(plan, e.message.clone());
                }
            },
            WalkItem::Entry(e) => {
                let path = &paths[i];
                if e.depth > max || chars_eq(path, &rootc) || !within_suggestion_depth(&rootc, path, max)
                    || is_excluded(&e.canonical, excl, Ghost(ev)) {
                } else if downloads {
                    if !direct_child(&rootc, path) || (!e.is_file && !e.is_dir) {
                    } else {
                        state.file_seen(e.path.as_str());
                        assert(suggest_seen(root@, items@.take(i + 1), rv, ev).drop_last() =~= seen_before);
                        let size = if e.is_dir {
                            proof {
                                lemma_folder_bytes_nonneg(*e, all, false);
                            }
                            let found = match &e.linked {
                                Some(c) => linked_total(c, false),
                                None => bytes_under(items, &paths, path),
                            };
                            match found {
                                Some(b) => b,
                                None => {
                                    assert(suggest_fold(start, root@, all, items@.take(i + 1), rv, ev).suggested_bytes
                                        > u64::MAX);
                                    return false;
                                },
                            }
                        } else {
                            e.size
                        };
                        let large = size >= rules.large_file_bytes;
                        let old = e.is_file && is_old_exec(e.age_secs, rules.old_file_days);
                        let category = if large {
                            "Large file suggestion"
                        } else if old {
                            "Old download suggestion"
                        } else {
                            "Download item suggestion"
                        };
                        let risk = if large {
                            RiskLevel::Medium
                        } else {
                            RiskLevel::High
                        };
                        let item = cleanup_item(
                            e.path.as_str(),
                            size,
                            category,
                            risk,
                            false,
                            "Downloaded file or folder. Review manually before permanent deletion.",
                        );
                        assert(category@ == download_category(large, old));
                        let ghost p0 = plan@;
                        assert(suggest_fold(start, root@, all, items@.take(i + 1), rv, ev) == push_suggestion(p0, item@, size as int));
                        match plan.suggested_bytes.checked_add(size) {
                            Some(total) => {
                                plan.suggestions.push(item);
                                plan.suggested_bytes = total;
                                assert(plan@ =~= push_suggestion(p0, item@, size as int));
                            },
                            None => {
                                return false;
                            },
                        }
                    }
                } else if !e.is_file {
                } else {
                    state.file_seen(e.path.as_str());
                    assert(suggest_seen(root@, items@.take(i + 1), rv, ev).drop_last() =~= seen_before);
                    if e.size >= rules.large_file_bytes {
                        let item = cleanup_item(
                            e.path.as_str(),
                            e.size,
                            "Large file suggestion",
                            RiskLevel::Medium,
                            false,
                            "Large file candidate. Review manually before permanent deletion.",
                        );
                        let ghost p0 = plan@;
                        assert(suggest_fold(start, root@, all, items@.take(i + 1), rv, ev) == push_suggestion(p0, item@, e.size as int));
                        match plan.suggested_bytes.checked_add(e.size) {
                            Some(total) => {
                                plan.suggestions.push(item);
                                plan.suggested_bytes = total;
                                assert(plan@ =~= push_suggestion(p0, item@, e.size as int));
                            },
                            None => {
                                return false;
                            },
                        }
                    }
                }
            },
        }
        assert(state.events@.subrange(0, s1.events@.len() as int) =~= s1.events@);
    }
    assert(items@.take(items.len() as int) =~= items@);
    state.finish_root(root.as_str());
    assert(state.events@.subrange(0, s0.events@.len() as int) =~= s0.events@);
    true
}


/// The positions as integers.
pub open spec fn as_ints(v: Seq<usize>) -> Seq<int> {
    v.map_values(|x: usize| x as int)
}

fn root_key_of(path: &String, l: &RootListing) -> (k: Vec<char>)
    ensures
        k@ == root_key(path@, *l),
{
    match &l.canonical {
        Some(c) => lower_chars(&chars_of(c.as_str())),
        None => lower_chars(&chars_of(path.as_str())),
    }
}

proof fn lemma_seen_key(keys: Seq<Seq<char>>, i: int, x: Seq<char>)
    requires
        0 <= i <= keys.len(),
    ensures
        (exists|j: int| 0 <= j < i && keys[j] == x) <==> keys_at(keys.take(i), first_occurrences(keys.take(i))).contains(x),
{
    let t = keys.take(i);
    let f = first_occurrences(t);
    lemma_first_occurrences_order(t);
    if exists|j: int| 0 <= j < i && keys[j] == x {
        let j = choose|j: int| 0 <= j < i && keys[j] == x;
        assert(t[j] == keys[j]);
        let m = lemma_first_occurrence_of(t, j);
        assert(keys_at(t, f)[m] == t[f[m]]);
    }
    if keys_at(t, f).contains(x) {
        let m = choose|m: int| 0 <= m < keys_at(t, f).len() && keys_at(t, f)[m] == x;
        assert(keys_at(t, f)[m] == t[f[m]]);
        assert(keys[f[m]] == t[f[m]]);
    }
}

/// The positions of the roots of one category that are scanned: the first root with
/// each key.
pub fn first_occurrence_indices(paths: &Vec<String>, listings: &Vec<RootListing>) -> (kept: Vec<usize>)
    requires
        paths.len() == listings.len(),
    ensures
        as_ints(kept@) == first_occurrences(root_keys(paths.deep_view(), listings@)),
        kept.len() <= paths.len(),
{
    let ghost keys = root_keys(paths.deep_view(), listings@);
    let mut kept: Vec<usize> = Vec::new();
    let mut seen: Vec<Vec<char>> = Vec::new();
    assert(keys.take(0) =~= Seq::<Seq<char>>::empty());
    assert(as_ints(kept@) =~= Seq::<int>::empty());
    for i in 0..paths.len()
        invariant
            paths.len() == listings.len(),
            keys == root_keys(paths.deep_view(), listings@),
            as_ints(kept@) == first_occurrences(keys.take(i as int)),
            char_vecs_match(seen@, keys_at(keys.take(i as int), first_occurrences(keys.take(i as int)))),
    {
        let k = root_key_of(&paths[i], &listings[i]);
        assert(k@ == keys[i as int]);
        let ghost t = keys.take(i as int);
        let ghost kk = keys_at(t, first_occurrences(t));
        let mut found = false;
        for m in 0..seen.len()
            invariant
                char_vecs_match(seen@, kk),
                found <==> exists|mm: int| 0 <= mm < m && kk[mm] == k@,
        {
            if chars_eq(&seen[m], &k) {
                found = true;
            }
        }
        proof {
            lemma_seen_key(keys, i as int, k@);
            assert(found <==> kk.contains(k@));
            let t1 = keys.take(i + 1);
            assert(t1.drop_last() =~= t);
            assert(t1.last() == keys[i as int]);
            assert((exists|j: int| 0 <= j < t1.len() - 1 && t1[j] == t1.last()) <==> (exists|j: int| 0 <= j < i && keys[j] == keys[i as int])) by {
                if exists|j: int| 0 <= j < t1.len() - 1 && t1[j] == t1.last() {
                    let j = choose|j: int| 0 <= j < t1.len() - 1 && t1[j] == t1.last();
                    assert(keys[j] == t1[j]);
                }
                if exists|j: int| 0 <= j < i && keys[j] == keys[i as int] {
                    let j = choose|j: int| 0 <= j < i && keys[j] == keys[i as int];
                    assert(keys[j] == t1[j]);
                }
            }
            lemma_first_occurrences_order(t);
        }
        if !found {
            let ghost f0 = first_occurrences(t);
            kept.push(i);
            seen.push(k);
            proof {
                let t1 = keys.take(i + 1);
                assert(as_ints(kept@) =~= f0.push(i as int));
                assert(first_occurrences(t1) == f0.push(i as int));
                assert forall|m: int| 0 <= m < seen.len() implies #[trigger] seen@[m]@ == keys_at(t1, first_occurrences(t1))[m] by {
                    if m < seen.len() - 1 {
                        assert(seen@[m]@ == keys_at(t, f0)[m]);
                        assert(t1[f0[m]] == t[f0[m]]);
                    }
                }
            }
        } else {
            proof {
                let t1 = keys.take(i + 1);
                let f0 = first_occurrences(t);
                assert(first_occurrences(t1) == f0);
                assert forall|m: int| 0 <= m < seen.len() implies #[trigger] seen@[m]@ == keys_at(t1, first_occurrences(t1))[m] by {
                    assert(seen@[m]@ == keys_at(t, f0)[m]);
                    assert(t1[f0[m]] == t[f0[m]]);
                }
            }
        }
    }
    assert(keys.take(paths.len() as int) =~= keys);
    proof {
        lemma_first_occurrences_order(keys);
    }
    kept
}

/// How the roots of a category are scanned.
pub enum ScanKind {
    Files { category: &'static str, risk: RiskLevel, selected: bool, reason: &'static str },
    RecycleBin,
    Suggestions,
}

pub open spec fn kind_spec(k: ScanKind) -> JobKind {
    match k {
        ScanKind::Files { category, risk, selected, reason } => JobKind::Files(
            Label { category: category@, risk, selected, reason: reason@ },
        ),
        ScanKind::RecycleBin => JobKind::RecycleBin,
        ScanKind::Suggestions => JobKind::Suggestions,
    }
}

/// Scans the kept roots of one category, in order.
fn scan_category(
    plan: &mut CleanupPlan,
    state: &mut ScanState,
    paths: &Vec<String>,
    listings: &Vec<RootListing>,
    kept: &Vec<usize>,
    kind: &ScanKind,
    rules: &Rules,
    excl: &Vec<Vec<char>>,
    Ghost(ev): Ghost<Seq<Seq<char>>>,
    Ghost(later): Ghost<Seq<Job>>,
    Ghost(goal): Ghost<PlanView>,
    Ghost(mgoal): Ghost<ScanModel>,
) -> (ok: bool)
    requires
        paths.len() == listings.len(),
        as_ints(kept@) == first_occurrences(root_keys(paths.deep_view(), listings@)),
        char_vecs_match(excl@, ev),
        run_jobs(old(plan)@, category_jobs(paths.deep_view(), listings@, kind_spec(*kind)) + later, rules@, ev) == goal,
        model_jobs(scan_model(*old(state)), category_jobs(paths.deep_view(), listings@, kind_spec(*kind)) + later, rules@, ev)
            == mgoal,
        old(state).wf(),
        (old(state).completed_roots + kept.len()) * 100 <= usize::MAX,
        old(state).scanned_files + jobs_items(category_jobs(paths.deep_view(), listings@, kind_spec(*kind)) + later) + 251 <= u64::MAX,
    ensures
        !ok ==> !fits(goal),
        ok ==> run_jobs(final(plan)@, later, rules@, ev) == goal,
        ok ==> model_jobs(scan_model(*final(state)), later, rules@, ev) == mgoal,
        ok ==> final(state).wf(),
        ok ==> final(state).total_roots == old(state).total_roots,
        ok ==> final(state).completed_roots == old(state).completed_roots + kept.len(),
        ok ==> final(state).scanned_files + jobs_items(later) + 251 <= u64::MAX,
        ok ==> final(state).events@.len() >= old(state).events@.len() + 2 * kept.len(),
        ok ==> final(state).events@.subrange(0, old(state).events@.len() as int) == old(state).events@,
{
    let ghost cj = category_jobs(paths.deep_view(), listings@, kind_spec(*kind));
    let ghost s0 = *state;
    proof {
        let keys = root_keys(paths.deep_view(), listings@);
        lemma_first_occurrences_order(keys);
        assert(cj.skip(0) =~= cj);
        assert(keys.len() == paths.len());
        assert forall|m: int| 0 <= m < kept.len() implies (#[trigger] kept@[m]) < paths.len() by {
            assert(as_ints(kept@)[m] == kept@[m] as int);
        }
    }
    for k in 0..kept.len()
        invariant
            paths.len() == listings.len(),
            as_ints(kept@) == first_occurrences(root_keys(paths.deep_view(), listings@)),
            forall|m: int| 0 <= m < kept.len() ==> (#[trigger] kept@[m]) < paths.len(),
            cj == category_jobs(paths.deep_view(), listings@, kind_spec(*kind)),
            cj.len() == kept.len(),
            char_vecs_match(excl@, ev),
            run_jobs(plan@, cj.skip(k as int) + later, rules@, ev) == goal,
            model_jobs(scan_model(*state), cj.skip(k as int) + later, rules@, ev) == mgoal,
            state.wf(),
            state.total_roots == s0.total_roots,
            state.completed_roots == s0.completed_roots + k,
            (s0.completed_roots + kept.len()) * 100 <= usize::MAX,
            state.scanned_files + jobs_items(cj.skip(k as int) + later) + 251 <= u64::MAX,
            state.events@.len() >= s0.events@.len() + 2 * k,
            state.events@.subrange(0, s0.events@.len() as int) == s0.events@,
    {
        let idx = kept[k];
        let ghost rest = cj.skip(k as int) + later;
        let ghost job = cj[k as int];
        proof {
            assert(as_ints(kept@)[k as int] == idx as int);
            assert(job == Job { kind: kind_spec(*kind), root: paths.deep_view()[idx as int], listing: listings@[idx as int] });
            assert(rest[0] == job);
            assert(rest.drop_first() =~= cj.skip(k + 1) + later);
            lemma_run_jobs_grows(run_job(plan@, job, rules@, ev), rest.drop_first(), rules@, ev);
            lemma_jobs_items_nonneg(rest.drop_first());
        }
        let ghost se = *state;
        let ok = match kind {
            ScanKind::Files { category, risk, selected, reason } => {
                scan_default_dir(plan, state, &paths[idx], &listings[idx], excl, category, *risk, *selected, reason, Ghost(ev), Ghost(rules@))
            },
            ScanKind::RecycleBin => {
                scan_recycle_bin_dir(plan, state, &paths[idx], &listings[idx], excl, Ghost(ev), Ghost(rules@))
            },
            ScanKind::Suggestions => {
                scan_suggestion_dir(plan, state, &paths[idx], &listings[idx], excl, rules, Ghost(ev))
            },
        };
        if !ok {
            return false;
        }
        assert(state.events@.subrange(0, s0.events@.len() as int) =~= s0.events@) by {
            assert(state.events@.subrange(0, se.events@.len() as int) == se.events@);
            assert forall|m: int| 0 <= m < s0.events@.len() implies state.events@[m] == s0.events@[m] by {
                assert(state.events@.subrange(0, se.events@.len() as int)[m] == se.events@[m]);
                assert(se.events@.subrange(0, s0.events@.len() as int)[m] == s0.events@[m]);
            }
        }
    }
    assert(cj.skip(kept.len() as int) + later =~= later);
    true
}


fn exclude_chars(roots: &Vec<String>) -> (v: Vec<Vec<char>>)
    ensures
        char_vecs_match(v@, roots.deep_view()),
{
    let mut v: Vec<Vec<char>> = Vec::new();
    for i in 0..roots.len()
        invariant
            v.len() == i,
            forall|k: int| 0 <= k < i ==> #[trigger] v@[k]@ == roots.deep_view()[k],
    {
        v.push(chars_of(roots[i].as_str()));
    }
    v
}

/// The progress records of a scan of `roots` roots: they start with "Preparing scan"
/// (at 0 percent, or 100 when there is no root), end with "Complete" at 100 percent,
/// never fall, and hold a start and an end record for every root.
pub open spec fn scan_progress_ok(events: Seq<ScanProgress>, roots: nat) -> bool {
    &&& events.len() >= 2 + 2 * roots
    &&& events[0].phase@ == "Preparing scan"@
    &&& events[0].percent == if roots == 0 {
        100u8
    } else {
        0u8
    }
    &&& events.last().phase@ == "Complete"@
    &&& events.last().percent == 100
    &&& percents_sorted(events)
}

/// The scan of the roots of `rules` over the walks in `fs`: the plan and the progress
/// records, or nothing when a byte total of the plan would not fit in 64 bits.
#[verifier::rlimit(60)]
fn scan_plan(rules: &Rules, fs: &FsSnapshot) -> (r: Option<(CleanupPlan, Vec<ScanProgress>)>)
    requires
        snapshot_matches(rules@, *fs),
        (rules.temp_dirs.len() + rules.enhanced_cache_dirs.len() + rules.windows_old_dirs.len()
            + rules.recycle_bin_dirs.len() + rules.system_cache_dirs.len() + rules.suggest_dirs.len()) * 100 <= usize::MAX,
        jobs_items(scan_jobs(rules@, *fs)) + 251 <= u64::MAX,
    ensures
        r is Some <==> fits(planned(rules@, *fs)),
        r matches Some(x) ==> x.0@ == planned(rules@, *fs) && scan_progress_ok(x.1@, scan_jobs(rules@, *fs).len())
            && scan_records(x.1@) == planned_progress(rules@, *fs),
{
    let ghost rv = rules@;
    let ghost evv = fs.exclude_roots.deep_view();
    let excl = exclude_chars(&fs.exclude_roots);
    let kt = first_occurrence_indices(&rules.temp_dirs, &fs.temp_dirs);
    let ke = if rules.enable_third_party_cache {
        first_occurrence_indices(&rules.enhanced_cache_dirs, &fs.enhanced_cache_dirs)
    } else {
        Vec::new()
    };
    let kw = first_occurrence_indices(&rules.windows_old_dirs, &fs.windows_old_dirs);
    let kr = first_occurrence_indices(&rules.recycle_bin_dirs, &fs.recycle_bin_dirs);
    let ks = first_occurrence_indices(&rules.system_cache_dirs, &fs.system_cache_dirs);
    let ku = first_occurrence_indices(&rules.suggest_dirs, &fs.suggest_dirs);
    let total = kt.len() + ke.len() + kw.len() + kr.len() + ks.len() + ku.len();

    let temp_kind = ScanKind::Files {
        category: "Low risk cache",
        risk: RiskLevel::Low,
        selected: true,
        reason: "Temporary or system cache file. Permanent deletion requires confirmation.",
    };
    let enhanced_kind = ScanKind::Files {
        category: "Enhanced cache",
        risk: RiskLevel::Medium,
        selected: true,
        reason: "Third-party cache selected by enhanced mode. Permanent deletion requires confirmation.",
    };
    let windows_old_kind = ScanKind::Files {
        category: "Windows.old",
        risk: RiskLevel::Medium,
        selected: true,
        reason: "Previous Windows installation files. Clean only after confirming rollback is not needed.",
    };
    let system_cache_kind = ScanKind::Files {
        category: "System update cache",
        risk: RiskLevel::Medium,
        selected: false,
        reason: "Windows update, error report, or shader cache file. Permanent deletion requires confirmation.",
    };
    let recycle_kind = ScanKind::RecycleBin;
    let suggest_kind = ScanKind::Suggestions;

    let ghost ja = category_jobs(rv.temp_dirs, fs.temp_dirs@, kind_spec(temp_kind));
    let ghost je = if rv.enable_third_party_cache {
        category_jobs(rv.enhanced_cache_dirs, fs.enhanced_cache_dirs@, kind_spec(enhanced_kind))
    } else {
        Seq::<Job>::empty()
    };
    let ghost jw = category_jobs(rv.windows_old_dirs, fs.windows_old_dirs@, kind_spec(windows_old_kind));
    let ghost jr = category_jobs(rv.recycle_bin_dirs, fs.recycle_bin_dirs@, kind_spec(recycle_kind));
    let ghost js = category_jobs(rv.system_cache_dirs, fs.system_cache_dirs@, kind_spec(system_cache_kind));
    let ghost ju = category_jobs(rv.suggest_dirs, fs.suggest_dirs@, kind_spec(suggest_kind));
    let ghost all = scan_jobs(rv, *fs);
    let ghost goal = planned(rv, *fs);
    proof {
        assert(all =~= ja + (je + (jw + (jr + (js + ju)))));
        assert(je.len() == ke.len());
        assert(total == all.len());
    }

    let mut state = ScanState::new(total);
    proof {
        vstd::arithmetic::div_mod::lemma_div_basics_1(total as int);
    }
    state.emit("Preparing scan", "");
    proof {
        reveal_strlit("");
        assert(""@ =~= Seq::<char>::empty());
    }
    assert(scan_model(state) == model_emit(fresh_model(all.len() as int), "Preparing scan"@, Seq::empty()));
    let ghost mgoal = model_jobs(scan_model(state), all, rv, evv);
    let ghost first = state.events@[0];
    assert(first.percent == if all.len() == 0 { 100u8 } else { 0u8 });
    let mut plan = CleanupPlan::default();
    proof {
        lemma_run_jobs_append(empty_plan(), ja, je + (jw + (jr + (js + ju))), rv, evv);
        lemma_run_jobs_append(empty_plan(), je, jw + (jr + (js + ju)), rv, evv);
        lemma_run_jobs_append(empty_plan(), jw, jr + (js + ju), rv, evv);
        lemma_run_jobs_append(empty_plan(), jr, js + ju, rv, evv);
        lemma_run_jobs_append(empty_plan(), js, ju, rv, evv);
        lemma_jobs_items_nonneg(ja);
        lemma_jobs_items_nonneg(je);
        lemma_jobs_items_nonneg(jw);
        lemma_jobs_items_nonneg(jr);
        lemma_jobs_items_nonneg(js);
        lemma_jobs_items_nonneg(ju);
    }
    if !scan_category(&mut plan, &mut state, &rules.temp_dirs, &fs.temp_dirs, &kt, &temp_kind, rules, &excl,
        Ghost(evv), Ghost(je + (jw + (jr + (js + ju)))), Ghost(goal), Ghost(mgoal)) {
        return None;
    }
    if rules.enable_third_party_cache {
        if !scan_category(&mut plan, &mut state, &rules.enhanced_cache_dirs, &fs.enhanced_cache_dirs, &ke,
            &enhanced_kind, rules, &excl, Ghost(evv), Ghost(jw + (jr + (js + ju))), Ghost(goal), Ghost(mgoal)) {
            return None;
        }
    } else {
        assert(je + (jw + (jr + (js + ju))) =~= jw + (jr + (js + ju)));
    }
    if !scan_category(&mut plan, &mut state, &rules.windows_old_dirs, &fs.windows_old_dirs, &kw,
        &windows_old_kind, rules, &excl, Ghost(evv), Ghost(jr + (js + ju)), Ghost(goal), Ghost(mgoal)) {
        return None;
    }
    if !scan_category(&mut plan, &mut state, &rules.recycle_bin_dirs, &fs.recycle_bin_dirs, &kr,
        &recycle_kind, rules, &excl, Ghost(evv), Ghost(js + ju), Ghost(goal), Ghost(mgoal)) {
        return None;
    }
    if !scan_category(&mut plan, &mut state, &rules.system_cache_dirs, &fs.system_cache_dirs, &ks,
        &system_cache_kind, rules, &excl, Ghost(evv), Ghost(ju), Ghost(goal), Ghost(mgoal)) {
        return None;
    }
    assert(ju =~= ju + Seq::<Job>::empty());
    if !scan_category(&mut plan, &mut state, &rules.suggest_dirs, &fs.suggest_dirs, &ku,
        &suggest_kind, rules, &excl, Ghost(evv), Ghost(Seq::<Job>::empty()), Ghost(goal), Ghost(mgoal)) {
        return None;
    }
    let ghost before_complete = state.events@;
    assert(before_complete[0] == first) by {
        assert(before_complete.subrange(0, 1)[0] == before_complete[0]);
    }
    assert(scan_model(state) == mgoal);
    state.complete();
    assert(state.events@[0] == state.events@.drop_last()[0]);
    Some((plan, state.events))
}

/// Builds the cleanup plan for the roots of `rules` from the walks in `fs`, with the
/// progress records of the scan.
///
/// Each root is scanned once per category (the first of the roots that share a key).
/// Files under temporary, cache and previous-installation folders become cleanup
/// items (runtime-protected drivers and modules are skipped); a Recycle Bin that holds
/// data becomes one item; user folders give suggestions. The byte totals are what the
/// items and the suggestions add up to. The progress records are those of
/// [`planned_progress`].
pub fn build_plan_for_roots_with_progress(rules: &Rules, fs: &FsSnapshot) -> (r: (CleanupPlan, Vec<ScanProgress>))
    requires
        snapshot_matches(rules@, *fs),
        (rules.temp_dirs.len() + rules.enhanced_cache_dirs.len() + rules.windows_old_dirs.len()
            + rules.recycle_bin_dirs.len() + rules.system_cache_dirs.len() + rules.suggest_dirs.len()) * 100 <= usize::MAX,
        fits(planned(rules@, *fs)),
        jobs_items(scan_jobs(rules@, *fs)) + 251 <= u64::MAX,
    ensures
        r.0@ == planned(rules@, *fs),
        scan_records(r.1@) == planned_progress(rules@, *fs),
        scan_progress_ok(r.1@, scan_jobs(rules@, *fs).len()),
{
    match scan_plan(rules, fs) {
        Some(r) => r,
        None => {
            proof {
                assert(false);
            }
            (CleanupPlan::default(), Vec::new())
        },
    }
}

/// Builds the cleanup plan for the roots of `rules` from the walks in `fs`.
pub fn build_plan_for_roots(rules: &Rules, fs: &FsSnapshot) -> (plan: CleanupPlan)
    requires
        snapshot_matches(rules@, *fs),
        (rules.temp_dirs.len() + rules.enhanced_cache_dirs.len() + rules.windows_old_dirs.len()
            + rules.recycle_bin_dirs.len() + rules.system_cache_dirs.len() + rules.suggest_dirs.len()) * 100 <= usize::MAX,
        fits(planned(rules@, *fs)),
        jobs_items(scan_jobs(rules@, *fs)) + 251 <= u64::MAX,
    ensures
        plan@ == planned(rules@, *fs),
{
    let (plan, _progress) = build_plan_for_roots_with_progress(rules, fs);
    plan
}


/// How deep a walk of the user folder `root` has to go for its scan: to the suggestion
/// depth, except for a Downloads folder, whose subfolders are weighed whole.
pub fn suggestion_walk_depth(rules: &Rules, root: &str) -> (r: Option<usize>)
    ensures
        r == if is_downloads(root@) {
            None
        } else {
            Some(rules.max_suggestion_depth)
        },
{
    if path_ends_with_component(root, "Downloads") {
        None
    } else {
        Some(rules.max_suggestion_depth)
    }
}

/// The item is one that a walk limited to `max` levels yields: an entry at most `max`
/// levels down, or an error that such a walk reports.
pub open spec fn within_walk_limit(it: WalkItem, max: usize) -> bool {
    match it {
        WalkItem::Entry(e) => e.depth <= max,
        WalkItem::Error(e) => error_reported(e, max),
    }
}

/// The items of a walk that a walk limited to `max` levels also yields, in order.
pub open spec fn limited_walk(its: Seq<WalkItem>, max: usize) -> Seq<WalkItem>
    decreases its.len(),
{
    if its.len() == 0 {
        Seq::empty()
    } else {
        let prev = limited_walk(its.drop_last(), max);
        if within_walk_limit(its.last(), max) {
            prev.push(its.last())
        } else {
            prev
        }
    }
}

proof fn lemma_suggest_fold_limited(
    p: PlanView,
    root: Seq<char>,
    all: Seq<WalkItem>,
    all2: Seq<WalkItem>,
    its: Seq<WalkItem>,
    rules: RulesView,
    excl: Seq<Seq<char>>,
)
    requires
        !is_downloads(root),
    ensures
        suggest_fold(p, root, all, its, rules, excl) == suggest_fold(
            p,
            root,
            all2,
            limited_walk(its, rules.max_suggestion_depth),
            rules,
            excl,
        ),
        suggest_seen(root, its, rules, excl) == suggest_seen(root, limited_walk(its, rules.max_suggestion_depth), rules, excl),
    decreases its.len(),
{
    let max = rules.max_suggestion_depth;
    if its.len() > 0 {
        let prev = its.drop_last();
        lemma_suggest_fold_limited(p, root, all, all2, prev, rules, excl);
        let lim = limited_walk(its, max);
        if within_walk_limit(its.last(), max) {
            assert(lim.drop_last() =~= limited_walk(prev, max));
            assert(lim.last() == its.last());
        }
    }
}

/// Outside a Downloads folder, the scan of a user folder reads nothing beyond the
/// suggestion depth: two walks of it that agree on what a walk limited to that depth
/// yields give the same plan and the same progress.
pub proof fn lemma_user_folder_scan_reads_within_depth(
    p: PlanView,
    m: ScanModel,
    root: Seq<char>,
    l1: RootListing,
    l2: RootListing,
    rules: RulesView,
    excl: Seq<Seq<char>>,
)
    requires
        !is_downloads(root),
        l1.exists == l2.exists,
        l1.canonical == l2.canonical,
        limited_walk(l1.items@, rules.max_suggestion_depth) == limited_walk(l2.items@, rules.max_suggestion_depth),
    ensures
        run_job(p, Job { kind: JobKind::Suggestions, root, listing: l1 }, rules, excl) == run_job(
            p,
            Job { kind: JobKind::Suggestions, root, listing: l2 },
            rules,
            excl,
        ),
        model_job(m, Job { kind: JobKind::Suggestions, root, listing: l1 }, rules, excl) == model_job(
            m,
            Job { kind: JobKind::Suggestions, root, listing: l2 },
            rules,
            excl,
        ),
{
    let lim = limited_walk(l1.items@, rules.max_suggestion_depth);
    lemma_suggest_fold_limited(p, root, l1.items@, lim, l1.items@, rules, excl);
    lemma_suggest_fold_limited(p, root, l2.items@, lim, l2.items@, rules, excl);
}

/// One of the six root lists of the rules.
#[derive(Debug, Clone, Copy, PartialEq, Eq, Structural)]
pub enum RootList {
    Temp,
    EnhancedCache,
    WindowsOld,
    RecycleBin,
    SystemCache,
    Suggest,
}

pub open spec fn rule_roots(r: RulesView, w: RootList) -> Seq<Seq<char>> {
    match w {
        RootList::Temp => r.temp_dirs,
        RootList::EnhancedCache => r.enhanced_cache_dirs,
        RootList::WindowsOld => r.windows_old_dirs,
        RootList::RecycleBin => r.recycle_bin_dirs,
        RootList::SystemCache => r.system_cache_dirs,
        RootList::Suggest => r.suggest_dirs,
    }
}

pub open spec fn root_walks(fs: FsSnapshot, w: RootList) -> Seq<RootListing> {
    match w {
        RootList::Temp => fs.temp_dirs@,
        RootList::EnhancedCache => fs.enhanced_cache_dirs@,
        RootList::WindowsOld => fs.windows_old_dirs@,
        RootList::RecycleBin => fs.recycle_bin_dirs@,
        RootList::SystemCache => fs.system_cache_dirs@,
        RootList::Suggest => fs.suggest_dirs@,
    }
}

/// The first `k` of the job sequences `parts`, one after another.
pub open spec fn concat_first(parts: Seq<Seq<Job>>, k: int) -> Seq<Job>
    decreases k,
{
    if k <= 0 {
        Seq::empty()
    } else {
        concat_first(parts, k - 1) + parts[k - 1]
    }
}

/// How the roots of the list `w` are scanned.
pub open spec fn list_kind(w: RootList) -> JobKind {
    match w {
        RootList::Temp => JobKind::Files(temp_label()),
        RootList::EnhancedCache => JobKind::Files(enhanced_label()),
        RootList::WindowsOld => JobKind::Files(windows_old_label()),
        RootList::RecycleBin => JobKind::RecycleBin,
        RootList::SystemCache => JobKind::Files(system_cache_label()),
        RootList::Suggest => JobKind::Suggestions,
    }
}

/// The job for the root at `idx` of the list `w`.
pub open spec fn job_at(rules: RulesView, fs: FsSnapshot, w: RootList, idx: int) -> Job {
    Job { kind: list_kind(w), root: rule_roots(rules, w)[idx], listing: root_walks(fs, w)[idx] }
}

/// The roots a scan visits, in order, each as its list and its position there. Only the
/// existence and the canonical form of each walk are read, so walks that hold no items
/// yet give the order of the whole scan.
pub fn scan_order(rules: &Rules, fs: &FsSnapshot) -> (r: Vec<(RootList, usize)>)
    requires
        snapshot_matches(rules@, *fs),
    ensures
        r@.len() == scan_jobs(rules@, *fs).len(),
        forall|i: int|
            0 <= i < r@.len() ==> (#[trigger] r@[i]).1 < rule_roots(rules@, r@[i].0).len()
                && scan_jobs(rules@, *fs)[i] == job_at(rules@, *fs, r@[i].0, r@[i].1 as int),
{
    let mut r: Vec<(RootList, usize)> = Vec::new();
    let ghost mut done: Seq<Job> = Seq::empty();
    let lists = [RootList::Temp, RootList::EnhancedCache, RootList::WindowsOld, RootList::RecycleBin, RootList::SystemCache, RootList::Suggest];
    let ghost rv = rules@;
    let ghost parts = seq![
        category_jobs(rv.temp_dirs, fs.temp_dirs@, list_kind(RootList::Temp)),
        if rv.enable_third_party_cache {
            category_jobs(rv.enhanced_cache_dirs, fs.enhanced_cache_dirs@, list_kind(RootList::EnhancedCache))
        } else {
            Seq::empty()
        },
        category_jobs(rv.windows_old_dirs, fs.windows_old_dirs@, list_kind(RootList::WindowsOld)),
        category_jobs(rv.recycle_bin_dirs, fs.recycle_bin_dirs@, list_kind(RootList::RecycleBin)),
        category_jobs(rv.system_cache_dirs, fs.system_cache_dirs@, list_kind(RootList::SystemCache)),
        category_jobs(rv.suggest_dirs, fs.suggest_dirs@, list_kind(RootList::Suggest)),
    ];
    assert(scan_jobs(rv, *fs) =~= parts[0] + parts[1] + parts[2] + parts[3] + parts[4] + parts[5]);
    assert(concat_first(parts, 0) =~= Seq::<Job>::empty());
    for k in 0..6
        invariant
            rv == rules@,
            snapshot_matches(rv, *fs),
            lists@ == seq![RootList::Temp, RootList::EnhancedCache, RootList::WindowsOld, RootList::RecycleBin, RootList::SystemCache, RootList::Suggest],
            parts.len() == 6,
            forall|q: int| 0 <= q < 6 ==> #[trigger] parts[q] == (if lists@[q] == RootList::EnhancedCache && !rv.enable_third_party_cache {
                Seq::<Job>::empty()
            } else {
                category_jobs(rule_roots(rv, lists@[q]), root_walks(*fs, lists@[q]), list_kind(lists@[q]))
            }),
            done == concat_first(parts, k as int),
            r@.len() == done.len(),
            forall|i: int|
                0 <= i < r@.len() ==> (#[trigger] r@[i]).1 < rule_roots(rv, r@[i].0).len()
                    && done[i] == job_at(rv, *fs, r@[i].0, r@[i].1 as int),
    {
        let w = lists[k];
        let ghost before = done;
        if !(k == 1 && !rules.enable_third_party_cache) {
            let (paths, walks) = match w {
                RootList::Temp => (&rules.temp_dirs, &fs.temp_dirs),
                RootList::EnhancedCache => (&rules.enhanced_cache_dirs, &fs.enhanced_cache_dirs),
                RootList::WindowsOld => (&rules.windows_old_dirs, &fs.windows_old_dirs),
                RootList::RecycleBin => (&rules.recycle_bin_dirs, &fs.recycle_bin_dirs),
                RootList::SystemCache => (&rules.system_cache_dirs, &fs.system_cache_dirs),
                RootList::Suggest => (&rules.suggest_dirs, &fs.suggest_dirs),
            };
            assert(paths.deep_view() == rule_roots(rv, w) && walks@ == root_walks(*fs, w));
            let kept = first_occurrence_indices(paths, walks);
            let ghost cj = category_jobs(rule_roots(rv, w), root_walks(*fs, w), list_kind(w));
            proof {
                lemma_first_occurrences_order(root_keys(paths.deep_view(), walks@));
                assert(parts[k as int] == cj);
                assert forall|q: int| 0 <= q < kept.len() implies 0 <= #[trigger] kept@[q] < paths.len() by {
                    assert(as_ints(kept@)[q] == kept@[q] as int);
                }
            }
            for m in 0..kept.len()
                invariant
                    r@.len() == before.len() + m,
                    forall|i: int|
                        0 <= i < before.len() ==> (#[trigger] r@[i]).1 < rule_roots(rv, r@[i].0).len()
                            && before[i] == job_at(rv, *fs, r@[i].0, r@[i].1 as int),
                    forall|i: int|
                        before.len() <= i < r@.len() ==> (#[trigger] r@[i]).0 == w && r@[i].1 < rule_roots(rv, w).len()
                            && cj[i - before.len()] == job_at(rv, *fs, w, r@[i].1 as int),
                    as_ints(kept@) == first_occurrences(root_keys(paths.deep_view(), walks@)),
                    forall|q: int| 0 <= q < kept.len() ==> 0 <= #[trigger] kept@[q] < paths.len(),
                    cj == category_jobs(rule_roots(rv, w), root_walks(*fs, w), list_kind(w)),
                    paths.deep_view() == rule_roots(rv, w),
                    walks@ == root_walks(*fs, w),
            {
                proof {
                    assert(as_ints(kept@)[m as int] == kept@[m as int] as int);
                }
                r.push((w, kept[m]));
            }
            proof {
                done = before + cj;
            }
        } else {
            assert(parts[1] == Seq::<Job>::empty());
        }
        assert(done =~= concat_first(parts, k + 1));
    }
    assert(concat_first(parts, 6) =~= scan_jobs(rv, *fs)) by {
        assert(concat_first(parts, 1) =~= parts[0]);
        assert(concat_first(parts, 2) == parts[0] + parts[1]);
        assert(concat_first(parts, 3) == parts[0] + parts[1] + parts[2]);
        assert(concat_first(parts, 4) == parts[0] + parts[1] + parts[2] + parts[3]);
        assert(concat_first(parts, 5) == parts[0] + parts[1] + parts[2] + parts[3] + parts[4]);
        assert(concat_first(parts, 6) == parts[0] + parts[1] + parts[2] + parts[3] + parts[4] + parts[5]);
    }
    r
}

/// Scans one root of the list `w`, `root`, from its walk `listing`, after the roots
/// scanned before it: what the root gives is added to `plan`, and its progress records
/// to `state`. It fails only when a byte total of the plan would not fit in 64 bits.
/// [`planned`] and [`planned_progress`] are this step taken for each job of
/// [`scan_jobs`] in turn (the roots that [`scan_order`] lists), from an empty plan and a
/// fresh state that has given its "Preparing scan" record, and closed by
/// [`ScanState::complete`].
pub fn scan_root(
    plan: &mut CleanupPlan,
    state: &mut ScanState,
    rules: &Rules,
    exclude_roots: &Vec<String>,
    w: RootList,
    root: &String,
    listing: &RootListing,
) -> (ok: bool)
    requires
        old(state).wf(),
        (old(state).completed_roots + 1) * 100 <= usize::MAX,
        old(state).scanned_files + listing.items@.len() + 251 <= u64::MAX,
    ensures
        ok == fits(
            run_job(old(plan)@, Job { kind: list_kind(w), root: root@, listing: *listing }, rules@, exclude_roots.deep_view()),
        ),
        ok ==> final(plan)@ == run_job(
            old(plan)@,
            Job { kind: list_kind(w), root: root@, listing: *listing },
            rules@,
            exclude_roots.deep_view(),
        ),
        ok ==> scan_model(*final(state)) == model_job(
            scan_model(*old(state)),
            Job { kind: list_kind(w), root: root@, listing: *listing },
            rules@,
            exclude_roots.deep_view(),
        ),
        ok ==> final(state).wf() && final(state).total_roots == old(state).total_roots
            && final(state).completed_roots == old(state).completed_roots + 1,
{
    let ghost ev = exclude_roots.deep_view();
    let excl = exclude_chars(exclude_roots);
    match w {
        RootList::Temp => scan_default_dir(
            plan,
            state,
            root,
            listing,
            &excl,
            "Low risk cache",
            RiskLevel::Low,
            true,
            "Temporary or system cache file. Permanent deletion requires confirmation.",
            Ghost(ev),
            Ghost(rules@),
        ),
        RootList::EnhancedCache => scan_default_dir(
            plan,
            state,
            root,
            listing,
            &excl,
            "Enhanced cache",
            RiskLevel::Medium,
            true,
            "Third-party cache selected by enhanced mode. Permanent deletion requires confirmation.",
            Ghost(ev),
            Ghost(rules@),
        ),
        RootList::WindowsOld => scan_default_dir(
            plan,
            state,
            root,
            listing,
            &excl,
            "Windows.old",
            RiskLevel::Medium,
            true,
            "Previous Windows installation files. Clean only after confirming rollback is not needed.",
            Ghost(ev),
            Ghost(rules@),
        ),
        RootList::RecycleBin => scan_recycle_bin_dir(plan, state, root, listing, &excl, Ghost(ev), Ghost(rules@)),
        RootList::SystemCache => scan_default_dir(
            plan,
            state,
            root,
            listing,
            &excl,
            "System update cache",
            RiskLevel::Medium,
            false,
            "Windows update, error report, or shader cache file. Permanent deletion requires confirmation.",
            Ghost(ev),
            Ghost(rules@),
        ),
        RootList::Suggest => scan_suggestion_dir(plan, state, root, listing, &excl, rules, Ghost(ev)),
    }
}

/// The bytes of deleted data a Recycle Bin holds (none when it does not exist).
pub open spec fn listing_recycle_bytes(l: RootListing) -> int {
    if l.exists {
        picked_bytes(l.items@, Pick::Counted)
    } else {
        0
    }
}

/// The bytes of deleted data all the Recycle Bins hold.
pub open spec fn live_recycle_bytes(ls: Seq<RootListing>) -> int
    decreases ls.len(),
{
    if ls.len() == 0 {
        0
    } else {
        live_recycle_bytes(ls.drop_last()) + listing_recycle_bytes(ls.last())
    }
}

proof fn lemma_live_recycle_prefix(ls: Seq<RootListing>, k: int)
    requires
        0 <= k <= ls.len(),
    ensures
        0 <= live_recycle_bytes(ls.take(k)) <= live_recycle_bytes(ls),
    decreases ls.len() - k,
{
    if k < ls.len() {
        lemma_live_recycle_prefix(ls, k + 1);
        assert(ls.take(k + 1).drop_last() =~= ls.take(k));
        assert(ls.take(k + 1).last() == ls[k]);
        lemma_picked_bytes_nonneg(ls[k].items@, Pick::Counted);
        lemma_live_recycle_nonneg(ls.take(k));
    } else {
        assert(ls.take(k) =~= ls);
        lemma_live_recycle_nonneg(ls);
    }
}

proof fn lemma_live_recycle_nonneg(ls: Seq<RootListing>)
    ensures
        live_recycle_bytes(ls) >= 0,
    decreases ls.len(),
{
    if ls.len() > 0 {
        lemma_live_recycle_nonneg(ls.drop_last());
        lemma_picked_bytes_nonneg(ls.last().items@, Pick::Counted);
    }
}

/// The bytes of deleted data in one Recycle Bin.
pub fn recycle_bin_content_size(listing: &RootListing) -> (r: u64)
    requires
        listing_recycle_bytes(*listing) <= u64::MAX,
    ensures
        r == listing_recycle_bytes(*listing),
{
    if !listing.exists {
        return 0;
    }
    let paths = entry_paths(&listing.items);
    match counted_bytes(&listing.items, &paths) {
        Some(b) => b,
        None => 0,
    }
}

/// The bytes of deleted data in all the Recycle Bins (the walks of each drive's bin).
pub fn live_recycle_bin_content_size(listings: &Vec<RootListing>) -> (r: u64)
    requires
        live_recycle_bytes(listings@) <= u64::MAX,
    ensures
        r == live_recycle_bytes(listings@),
{
    let mut total: u64 = 0;
    for i in 0..listings.len()
        invariant
            live_recycle_bytes(listings@) <= u64::MAX,
            total == live_recycle_bytes(listings@.take(i as int)),
    {
        proof {
            lemma_live_recycle_prefix(listings@, i + 1);
            assert(listings@.take(i + 1).drop_last() =~= listings@.take(i as int));
            lemma_picked_bytes_nonneg(listings@[i as int].items@, Pick::Counted);
        }
        let size = recycle_bin_content_size(&listings[i]);
        total = total + size;
    }
    assert(listings@.take(listings.len() as int) =~= listings@);
    total
}

/// The bytes of deleted data in all the Recycle Bins, or nothing when the total does
/// not fit in 64 bits.
pub fn try_live_recycle_bin_content_size(listings: &Vec<RootListing>) -> (r: Option<u64>)
    ensures
        match r {
            Some(b) => b == live_recycle_bytes(listings@),
            None => live_recycle_bytes(listings@) > u64::MAX,
        },
{
    let mut total: u64 = 0;
    for i in 0..listings.len()
        invariant
            total == live_recycle_bytes(listings@.take(i as int)),
    {
        proof {
            assert(listings@.take(i + 1).drop_last() =~= listings@.take(i as int));
            lemma_live_recycle_prefix(listings@, i + 1);
            lemma_live_recycle_prefix(listings@.take(i + 1), i as int);
            assert(listings@.take(i + 1).take(i as int) =~= listings@.take(i as int));
            lemma_picked_bytes_nonneg(listings@[i as int].items@, Pick::Counted);
        }
        let size = if listings[i].exists {
            let paths = entry_paths(&listings[i].items);
            match counted_bytes(&listings[i].items, &paths) {
                Some(b) => b,
                None => {
                    return None;
                },
            }
        } else {
            0
        };
        match total.checked_add(size) {
            Some(t) => {
                total = t;
            },
            None => {
                return None;
            },
        }
    }
    assert(listings@.take(listings.len() as int) =~= listings@);
    Some(total)
}

// ---------------------------------------------------------------------------------
// Scanning within the machine's counters.

/// How many walk items the listings hold.
pub open spec fn listings_items(ls: Seq<RootListing>) -> int
    decreases ls.len(),
{
    if ls.len() == 0 {
        0
    } else {
        listings_items(ls.drop_last()) + ls.last().items@.len()
    }
}

/// How many walk items the whole snapshot holds.
pub open spec fn snapshot_items(fs: FsSnapshot) -> int {
    listings_items(fs.temp_dirs@) + listings_items(fs.enhanced_cache_dirs@) + listings_items(fs.windows_old_dirs@)
        + listings_items(fs.recycle_bin_dirs@) + listings_items(fs.system_cache_dirs@) + listings_items(fs.suggest_dirs@)
}

/// How many roots the rules name.
pub open spec fn root_count(rules: RulesView) -> int {
    (rules.temp_dirs.len() + rules.enhanced_cache_dirs.len() + rules.windows_old_dirs.len()
        + rules.recycle_bin_dirs.len() + rules.system_cache_dirs.len() + rules.suggest_dirs.len()) as int
}

/// The scan stays within the machine's counters: there is one listing per root, the
/// number of roots can be turned into percentages, and the count of files seen cannot
/// overflow.
pub open spec fn scan_within_limits(rules: RulesView, fs: FsSnapshot) -> bool {
    &&& snapshot_matches(rules, fs)
    &&& root_count(rules) * 100 <= usize::MAX
    &&& snapshot_items(fs) + 251 <= u64::MAX
}

/// The jobs for the roots at positions `idx`.
pub open spec fn jobs_at(idx: Seq<int>, paths: Seq<Seq<char>>, ls: Seq<RootListing>, kind: JobKind) -> Seq<Job> {
    idx.map_values(|i: int| Job { kind, root: paths[i], listing: ls[i] })
}

proof fn lemma_listings_items_nonneg(ls: Seq<RootListing>)
    ensures
        listings_items(ls) >= 0,
    decreases ls.len(),
{
    if ls.len() > 0 {
        lemma_listings_items_nonneg(ls.drop_last());
    }
}

proof fn lemma_jobs_items_last(js: Seq<Job>)
    requires
        js.len() > 0,
    ensures
        jobs_items(js) == jobs_items(js.drop_last()) + js.last().listing.items@.len(),
{
    lemma_run_jobs_append(empty_plan(), js.drop_last(), seq![js.last()], RulesView {
        temp_dirs: Seq::empty(),
        enhanced_cache_dirs: Seq::empty(),
        windows_old_dirs: Seq::empty(),
        recycle_bin_dirs: Seq::empty(),
        system_cache_dirs: Seq::empty(),
        suggest_dirs: Seq::empty(),
        exclude_dirs: Seq::empty(),
        old_file_days: 0,
        large_file_bytes: 0,
        max_suggestion_depth: 0,
        enable_third_party_cache: false,
    }, Seq::empty());
    assert(js.drop_last() + seq![js.last()] =~= js);
    assert(seq![js.last()].drop_first() =~= Seq::<Job>::empty());
    assert(jobs_items(Seq::<Job>::empty()) == 0);
    assert(jobs_items(seq![js.last()]) == js.last().listing.items@.len() + jobs_items(Seq::<Job>::empty()));
}

proof fn lemma_jobs_at_items(idx: Seq<int>, paths: Seq<Seq<char>>, ls: Seq<RootListing>, kind: JobKind, n: int)
    requires
        0 <= n <= ls.len(),
        paths.len() == ls.len(),
        forall|k: int| 0 <= k < idx.len() ==> 0 <= #[trigger] idx[k] < n,
        forall|k: int, j: int| 0 <= k < j < idx.len() ==> idx[k] < idx[j],
    ensures
        jobs_items(jobs_at(idx, paths, ls, kind)) <= listings_items(ls.take(n)),
    decreases n,
{
    let js = jobs_at(idx, paths, ls, kind);
    if n == 0 {
        if idx.len() > 0 {
            assert(0 <= idx[0] < 0);
        }
        assert(js =~= Seq::<Job>::empty());
    } else {
        assert(ls.take(n).drop_last() =~= ls.take(n - 1));
        assert(ls.take(n).last() == ls[n - 1]);
        if idx.len() > 0 && idx.last() == n - 1 {
            let idx2 = idx.drop_last();
            assert forall|k: int| 0 <= k < idx2.len() implies 0 <= #[trigger] idx2[k] < n - 1 by {
                assert(idx[k] < idx[idx.len() - 1]);
            }
            lemma_jobs_at_items(idx2, paths, ls, kind, n - 1);
            assert(js.drop_last() =~= jobs_at(idx2, paths, ls, kind));
            lemma_jobs_items_last(js);
        } else {
            assert forall|k: int| 0 <= k < idx.len() implies 0 <= #[trigger] idx[k] < n - 1 by {
                if k < idx.len() - 1 {
                    assert(idx[k] < idx[idx.len() - 1]);
                }
            }
            lemma_jobs_at_items(idx, paths, ls, kind, n - 1);
        }
    }
}

proof fn lemma_category_jobs_items(paths: Seq<Seq<char>>, ls: Seq<RootListing>, kind: JobKind)
    requires
        paths.len() == ls.len(),
    ensures
        0 <= jobs_items(category_jobs(paths, ls, kind)) <= listings_items(ls),
{
    let keys = root_keys(paths, ls);
    let idx = first_occurrences(keys);
    lemma_first_occurrences_order(keys);
    lemma_jobs_at_items(idx, paths, ls, kind, ls.len() as int);
    assert(category_jobs(paths, ls, kind) =~= jobs_at(idx, paths, ls, kind));
    assert(ls.take(ls.len() as int) =~= ls);
    lemma_jobs_items_nonneg(category_jobs(paths, ls, kind));
}

/// The scan reads no more walk items than the snapshot holds.
proof fn lemma_scan_items_bounded(rules: RulesView, fs: FsSnapshot)
    requires
        snapshot_matches(rules, fs),
    ensures
        jobs_items(scan_jobs(rules, fs)) <= snapshot_items(fs),
{
    let ja = category_jobs(rules.temp_dirs, fs.temp_dirs@, JobKind::Files(temp_label()));
    let je = if rules.enable_third_party_cache {
        category_jobs(rules.enhanced_cache_dirs, fs.enhanced_cache_dirs@, JobKind::Files(enhanced_label()))
    } else {
        Seq::empty()
    };
    let jw = category_jobs(rules.windows_old_dirs, fs.windows_old_dirs@, JobKind::Files(windows_old_label()));
    let jr = category_jobs(rules.recycle_bin_dirs, fs.recycle_bin_dirs@, JobKind::RecycleBin);
    let js = category_jobs(rules.system_cache_dirs, fs.system_cache_dirs@, JobKind::Files(system_cache_label()));
    let ju = category_jobs(rules.suggest_dirs, fs.suggest_dirs@, JobKind::Suggestions);
    lemma_category_jobs_items(rules.temp_dirs, fs.temp_dirs@, JobKind::Files(temp_label()));
    lemma_category_jobs_items(rules.enhanced_cache_dirs, fs.enhanced_cache_dirs@, JobKind::Files(enhanced_label()));
    lemma_category_jobs_items(rules.windows_old_dirs, fs.windows_old_dirs@, JobKind::Files(windows_old_label()));
    lemma_category_jobs_items(rules.recycle_bin_dirs, fs.recycle_bin_dirs@, JobKind::RecycleBin);
    lemma_category_jobs_items(rules.system_cache_dirs, fs.system_cache_dirs@, JobKind::Files(system_cache_label()));
    lemma_category_jobs_items(rules.suggest_dirs, fs.suggest_dirs@, JobKind::Suggestions);
    lemma_listings_items_nonneg(fs.enhanced_cache_dirs@);
    let ev = fs.exclude_roots.deep_view();
    lemma_run_jobs_append(empty_plan(), ja, je, rules, ev);
    lemma_run_jobs_append(empty_plan(), ja + je, jw, rules, ev);
    lemma_run_jobs_append(empty_plan(), ja + je + jw, jr, rules, ev);
    lemma_run_jobs_append(empty_plan(), ja + je + jw + jr, js, rules, ev);
    lemma_run_jobs_append(empty_plan(), ja + je + jw + jr + js, ju, rules, ev);
    assert(scan_jobs(rules, fs) == ja + je + jw + jr + js + ju);
}

fn listings_item_count(ls: &Vec<RootListing>) -> (r: Option<u64>)
    ensures
        match r {
            Some(c) => c == listings_items(ls@),
            None => listings_items(ls@) > u64::MAX,
        },
{
    let mut total: u64 = 0;
    for i in 0..ls.len()
        invariant
            total == listings_items(ls@.take(i as int)),
    {
        assert(ls@.take(i + 1).drop_last() =~= ls@.take(i as int));
        proof {
            lemma_listings_items_prefix(ls@, i + 1);
        }
        let n = ls[i].items.len();
        if n as u64 > u64::MAX - total {
            return None;
        }
        total = total + n as u64;
    }
    assert(ls@.take(ls.len() as int) =~= ls@);
    Some(total)
}

proof fn lemma_listings_items_prefix(ls: Seq<RootListing>, k: int)
    requires
        0 <= k <= ls.len(),
    ensures
        listings_items(ls.take(k)) <= listings_items(ls),
    decreases ls.len() - k,
{
    if k < ls.len() {
        lemma_listings_items_prefix(ls, k + 1);
        assert(ls.take(k + 1).drop_last() =~= ls.take(k));
    } else {
        assert(ls.take(k) =~= ls);
    }
}

proof fn lemma_percent_limit(count: int, limit: int)
    requires
        limit == usize::MAX / 100,
        count >= 0,
    ensures
        count <= limit <==> count * 100 <= usize::MAX,
{
    assert(count <= limit ==> count * 100 <= usize::MAX) by (nonlinear_arith)
        requires
            limit == usize::MAX / 100,
            count >= 0,
    ;
    assert(count > limit ==> count * 100 > usize::MAX) by (nonlinear_arith)
        requires
            limit == usize::MAX / 100,
            count >= 0,
    ;
}

/// Whether the scan of `rules` over `fs` stays within the machine's counters.
fn within_limits(rules: &Rules, fs: &FsSnapshot) -> (r: bool)
    ensures
        r == scan_within_limits(rules@, *fs),
{
    if fs.temp_dirs.len() != rules.temp_dirs.len() || fs.enhanced_cache_dirs.len() != rules.enhanced_cache_dirs.len()
        || fs.windows_old_dirs.len() != rules.windows_old_dirs.len()
        || fs.recycle_bin_dirs.len() != rules.recycle_bin_dirs.len()
        || fs.system_cache_dirs.len() != rules.system_cache_dirs.len()
        || fs.suggest_dirs.len() != rules.suggest_dirs.len() {
        return false;
    }
    let limit: usize = usize::MAX / 100;
    proof {
        lemma_percent_limit(root_count(rules@), limit as int);
    }
    let mut roots: usize = rules.temp_dirs.len();
    if roots > limit {
        return false;
    }
    if rules.enhanced_cache_dirs.len() > limit - roots {
        return false;
    }
    roots = roots + rules.enhanced_cache_dirs.len();
    if rules.windows_old_dirs.len() > limit - roots {
        return false;
    }
    roots = roots + rules.windows_old_dirs.len();
    if rules.recycle_bin_dirs.len() > limit - roots {
        return false;
    }
    roots = roots + rules.recycle_bin_dirs.len();
    if rules.system_cache_dirs.len() > limit - roots {
        return false;
    }
    roots = roots + rules.system_cache_dirs.len();
    if rules.suggest_dirs.len() > limit - roots {
        return false;
    }
    proof {
        lemma_listings_items_nonneg(fs.temp_dirs@);
        lemma_listings_items_nonneg(fs.enhanced_cache_dirs@);
        lemma_listings_items_nonneg(fs.windows_old_dirs@);
        lemma_listings_items_nonneg(fs.recycle_bin_dirs@);
        lemma_listings_items_nonneg(fs.system_cache_dirs@);
        lemma_listings_items_nonneg(fs.suggest_dirs@);
    }
    let room: u64 = u64::MAX - 251;
    let mut items: u64 = match listings_item_count(&fs.temp_dirs) {
        Some(c) => c,
        None => {
            return false;
        },
    };
    if items > room {
        return false;
    }
    match listings_item_count(&fs.enhanced_cache_dirs) {
        Some(c) => {
            if c > room - items {
                return false;
            }
            items = items + c;
        },
        None => {
            return false;
        },
    }
    match listings_item_count(&fs.windows_old_dirs) {
        Some(c) => {
            if c > room - items {
                return false;
            }
            items = items + c;
        },
        None => {
            return false;
        },
    }
    match listings_item_count(&fs.recycle_bin_dirs) {
        Some(c) => {
            if c > room - items {
                return false;
            }
            items = items + c;
        },
        None => {
            return false;
        },
    }
    match listings_item_count(&fs.system_cache_dirs) {
        Some(c) => {
            if c > room - items {
                return false;
            }
            items = items + c;
        },
        None => {
            return false;
        },
    }
    match listings_item_count(&fs.suggest_dirs) {
        Some(c) => {
            if c > room - items {
                return false;
            }
        },
        None => {
            return false;
        },
    }
    true
}

/// Builds the cleanup plan and the progress records, as
/// [`build_plan_for_roots_with_progress`] does, when the scan stays within the
/// machine's counters and the plan's byte totals fit in 64 bits; nothing otherwise.
pub fn try_build_plan_for_roots_with_progress(rules: &Rules, fs: &FsSnapshot) -> (r: Option<(CleanupPlan, Vec<ScanProgress>)>)
    ensures
        r is Some <==> scan_within_limits(rules@, *fs) && fits(planned(rules@, *fs)),
        r matches Some(x) ==> x.0@ == planned(rules@, *fs) && scan_records(x.1@) == planned_progress(rules@, *fs)
            && scan_progress_ok(x.1@, scan_jobs(rules@, *fs).len()),
{
    if !within_limits(rules, fs) {
        return None;
    }
    proof {
        lemma_scan_items_bounded(rules@, *fs);
    }
    scan_plan(rules, fs)
}

} // verus!
