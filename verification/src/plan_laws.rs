//! What every plan a scan builds satisfies.

use vstd::prelude::*;
use crate::model::{ItemView, PlanView, empty_plan};
use crate::items::item_id;
use crate::scan::{
    model_job, model_jobs, job_seen, suggest_seen, planned_progress, root_key, RootList, rule_roots, root_walks,
    WalkItem, Label, Job, JobKind, Pick, FsSnapshot, RootListing, push_item, push_suggestion, file_fold, suggest_fold,
    run_job, run_jobs, planned, scan_jobs, fits, excluded, error_messages, has_recycle_content, picked_bytes,
    recycle_reason, lemma_suggest_fold_prefix, lemma_suggest_fold_grows, lemma_picked_bytes_nonneg, lemma_run_jobs_grows,
    category_jobs, root_keys, first_occurrences, lemma_first_occurrences_order, snapshot_matches, temp_label,
    enhanced_label, windows_old_label, system_cache_label,
};
use crate::model::RulesView;
use crate::paths::is_runtime_protected;
use crate::text::lower;

verus! {

/// The total size of a sequence of items.
pub open spec fn total_size(items: Seq<ItemView>) -> int
    decreases items.len(),
{
    if items.len() == 0 {
        0
    } else {
        total_size(items.drop_last()) + items.last().size_bytes
    }
}

/// The plan lists no system backups, its byte totals are the sizes of its items and of
/// its suggestions, no suggestion is selected for cleanup, and every item is either a Recycle Bin or a
/// file that no running program is expected to hold (not a `.sys` or `.node` file).
pub open spec fn plan_consistent(p: PlanView) -> bool {
    &&& p.system_backups.len() == 0
    &&& p.reclaimable_bytes == total_size(p.items)
    &&& p.suggested_bytes == total_size(p.suggestions)
    &&& forall|i: int| 0 <= i < p.suggestions.len() ==> !(#[trigger] p.suggestions[i]).default_selected
    &&& forall|i: int| 0 <= i < p.items.len() ==> (#[trigger] p.items[i]).category == "Recycle Bin"@
        || !is_runtime_protected(p.items[i].path)
}

proof fn lemma_total_size_nonneg(items: Seq<ItemView>)
    ensures
        total_size(items) >= 0,
    decreases items.len(),
{
    if items.len() > 0 {
        lemma_total_size_nonneg(items.drop_last());
    }
}

proof fn lemma_push_item(p: PlanView, it: ItemView, bytes: int)
    requires
        plan_consistent(p),
        it.size_bytes == bytes,
        it.category == "Recycle Bin"@ || !is_runtime_protected(it.path),
    ensures
        plan_consistent(push_item(p, it, bytes)),
{
    let q = push_item(p, it, bytes);
    assert(q.items.drop_last() =~= p.items);
}

proof fn lemma_push_suggestion(p: PlanView, it: ItemView, bytes: int)
    requires
        plan_consistent(p),
        it.size_bytes == bytes,
        !it.default_selected,
    ensures
        plan_consistent(push_suggestion(p, it, bytes)),
{
    let q = push_suggestion(p, it, bytes);
    assert(q.suggestions.drop_last() =~= p.suggestions);
}

proof fn lemma_file_fold_consistent(p: PlanView, its: Seq<WalkItem>, excl: Seq<Seq<char>>, lab: Label)
    requires
        plan_consistent(p),
    ensures
        plan_consistent(file_fold(p, its, excl, lab)),
    decreases its.len(),
{
    if its.len() > 0 {
        lemma_file_fold_consistent(p, its.drop_last(), excl, lab);
        let q = file_fold(p, its.drop_last(), excl, lab);
        match its.last() {
            WalkItem::Error(e) => {},
            WalkItem::Entry(e) => {
                if e.is_file && !excluded(e.canonical, excl) && !is_runtime_protected(e.path@) {
                    lemma_push_item(q, crate::items::item_view(e.path@, e.size, lab.category, lab.risk, lab.selected, lab.reason), e.size as int);
                }
            },
        }
    }
}

proof fn lemma_suggest_fold_consistent(
    p: PlanView,
    root: Seq<char>,
    all: Seq<WalkItem>,
    its: Seq<WalkItem>,
    rules: RulesView,
    excl: Seq<Seq<char>>,
)
    requires
        plan_consistent(p),
        fits(suggest_fold(p, root, all, its, rules, excl)),
    ensures
        plan_consistent(suggest_fold(p, root, all, its, rules, excl)),
    decreases its.len(),
{
    if its.len() > 0 {
        let prev = its.drop_last();
        lemma_suggest_fold_prefix(p, root, all, its, rules, excl, its.len() - 1);
        assert(its.take(its.len() - 1) =~= prev);
        lemma_suggest_fold_consistent(p, root, all, prev, rules, excl);
        let q = suggest_fold(p, root, all, prev, rules, excl);
        lemma_total_size_nonneg(q.suggestions);
        let max = rules.max_suggestion_depth;
        match its.last() {
            WalkItem::Entry(e) => {
                if e.is_dir {
                    crate::scan::lemma_folder_bytes_nonneg(e, all, false);
                }
                if e.depth > max || e.path@ == root || !crate::paths::within_depth(root, e.path@, max as nat) || excluded(e.canonical, excl) {
                } else if crate::rules::is_downloads(root) {
                    if !crate::paths::is_direct_child(root, e.path@) || (!e.is_file && !e.is_dir) {
                    } else {
                        let size: int = if e.is_dir {
                            crate::scan::folder_bytes(e, all, false)
                        } else {
                            e.size as int
                        };
                        let large = size >= rules.large_file_bytes;
                        let old = e.is_file && crate::scan::is_old(e.age_secs, rules.old_file_days);
                        lemma_push_suggestion(
                            q,
                            crate::items::item_view(
                                e.path@,
                                size as u64,
                                crate::scan::download_category(large, old),
                                if large {
                                    crate::model::RiskLevel::Medium
                                } else {
                                    crate::model::RiskLevel::High
                                },
                                false,
                                crate::scan::download_reason(),
                            ),
                            size,
                        );
                    }
                } else if !e.is_file || e.size < rules.large_file_bytes {
                } else {
                    lemma_push_suggestion(
                        q,
                        crate::items::item_view(
                            e.path@,
                            e.size,
                            "Large file suggestion"@,
                            crate::model::RiskLevel::Medium,
                            false,
                            crate::scan::large_reason(),
                        ),
                        e.size as int,
                    );
                }
            },
            _ => {},
        }
    }
}

proof fn lemma_run_job_consistent(p: PlanView, j: Job, rules: RulesView, excl: Seq<Seq<char>>)
    requires
        plan_consistent(p),
        fits(run_job(p, j, rules, excl)),
    ensures
        plan_consistent(run_job(p, j, rules, excl)),
{
    if j.listing.exists && !excluded(j.listing.canonical, excl) {
        let its = j.listing.items@;
        match j.kind {
            JobKind::Files(lab) => lemma_file_fold_consistent(p, its, excl, lab),
            JobKind::RecycleBin => {
                let p1 = PlanView { skipped: p.skipped + error_messages(its), ..p };
                if has_recycle_content(j.root, its) {
                    let bytes = picked_bytes(its, Pick::Counted);
                    lemma_picked_bytes_nonneg(its, Pick::Counted);
                    lemma_total_size_nonneg(p.items);
                    lemma_push_item(
                        p1,
                        crate::items::item_view(j.root, bytes as u64, "Recycle Bin"@, crate::model::RiskLevel::Medium, false, recycle_reason()),
                        bytes,
                    );
                }
            },
            JobKind::Suggestions => lemma_suggest_fold_consistent(p, j.root, its, its, rules, excl),
        }
    }
}

proof fn lemma_run_jobs_consistent(p: PlanView, js: Seq<Job>, rules: RulesView, excl: Seq<Seq<char>>)
    requires
        plan_consistent(p),
        fits(run_jobs(p, js, rules, excl)),
    ensures
        plan_consistent(run_jobs(p, js, rules, excl)),
    decreases js.len(),
{
    if js.len() > 0 {
        let q = run_job(p, js[0], rules, excl);
        lemma_run_jobs_grows(q, js.drop_first(), rules, excl);
        lemma_run_job_consistent(p, js[0], rules, excl);
        lemma_run_jobs_consistent(q, js.drop_first(), rules, excl);
    }
}

/// Every plan a scan builds is consistent: it lists no system backups, its byte totals
/// are what its items and its suggestions add up to, no suggestion is selected for
/// cleanup, and no item other than a Recycle Bin is a runtime-protected file.
pub proof fn lemma_planned_consistent(rules: RulesView, fs: FsSnapshot)
    requires
        fits(planned(rules, fs)),
    ensures
        plan_consistent(planned(rules, fs)),
{
    lemma_run_jobs_consistent(empty_plan(), scan_jobs(rules, fs), rules, fs.exclude_roots.deep_view());
}

/// An item's id depends only on its path (up to ASCII case), its size and its category.
pub proof fn lemma_item_ids_stable(p1: Seq<char>, p2: Seq<char>, size: u64, category: Seq<char>)
    requires
        lower(p1) == lower(p2),
    ensures
        item_id(p1, size, category) == item_id(p2, size, category),
        item_id(p1, size, category).len() == 16,
{
    lemma_hex_len(crate::items::item_key_hash(lower(p1), size, category) as nat, 16);
}

proof fn lemma_hex_len(x: nat, n: nat)
    ensures
        crate::text::hex_digits(x, n).len() == n,
    decreases n,
{
    if n > 0 {
        lemma_hex_len(x / 16, (n - 1) as nat);
    }
}

// ---------------------------------------------------------------------------------
// Excluded folders.

/// The walk `l` yields at position `k` an entry at `path` that lies outside the
/// excluded folders `excl`.
pub open spec fn found_at(l: RootListing, k: int, path: Seq<char>, excl: Seq<Seq<char>>) -> bool {
    &&& 0 <= k < l.items@.len()
    &&& l.items@[k] matches WalkItem::Entry(e) && e.path@ == path && !excluded(e.canonical, excl)
}

/// `l` is one of the walks of the snapshot.
pub open spec fn in_snapshot(fs: FsSnapshot, l: RootListing) -> bool {
    ||| fs.temp_dirs@.contains(l)
    ||| fs.enhanced_cache_dirs@.contains(l)
    ||| fs.windows_old_dirs@.contains(l)
    ||| fs.recycle_bin_dirs@.contains(l)
    ||| fs.system_cache_dirs@.contains(l)
    ||| fs.suggest_dirs@.contains(l)
}

/// The walks of `fs` found an entry at `path` outside the excluded folders.
pub open spec fn found_outside_exclusions(fs: FsSnapshot, path: Seq<char>) -> bool {
    exists|l: RootListing, k: int| in_snapshot(fs, l) && #[trigger] found_at(l, k, path, fs.exclude_roots.deep_view())
}

/// Every cleanup item other than a Recycle Bin, and every suggestion, is an entry that
/// the walks of `fs` found outside the excluded folders.
pub open spec fn proposes_only_found_entries(p: PlanView, fs: FsSnapshot) -> bool {
    &&& forall|i: int| 0 <= i < p.items.len() && (#[trigger] p.items[i]).category != "Recycle Bin"@
        ==> found_outside_exclusions(fs, p.items[i].path)
    &&& forall|i: int| 0 <= i < p.suggestions.len() ==> found_outside_exclusions(fs, (#[trigger] p.suggestions[i]).path)
}

proof fn lemma_push_found_item(p: PlanView, fs: FsSnapshot, it: ItemView, bytes: int, l: RootListing, k: int)
    requires
        proposes_only_found_entries(p, fs),
        in_snapshot(fs, l),
        found_at(l, k, it.path, fs.exclude_roots.deep_view()),
    ensures
        proposes_only_found_entries(push_item(p, it, bytes), fs),
        proposes_only_found_entries(push_suggestion(p, it, bytes), fs),
{
    assert(found_outside_exclusions(fs, it.path));
    let q = push_item(p, it, bytes);
    assert forall|i: int| 0 <= i < q.items.len() && (#[trigger] q.items[i]).category != "Recycle Bin"@ implies found_outside_exclusions(fs, q.items[i].path) by {
        if i < p.items.len() {
            assert(q.items[i] == p.items[i]);
        }
    }
    let r = push_suggestion(p, it, bytes);
    assert forall|i: int| 0 <= i < r.suggestions.len() implies found_outside_exclusions(fs, (#[trigger] r.suggestions[i]).path) by {
        if i < p.suggestions.len() {
            assert(r.suggestions[i] == p.suggestions[i]);
        }
    }
}

proof fn lemma_file_fold_found(p: PlanView, fs: FsSnapshot, l: RootListing, n: int, lab: Label)
    requires
        proposes_only_found_entries(p, fs),
        in_snapshot(fs, l),
        0 <= n <= l.items@.len(),
    ensures
        proposes_only_found_entries(file_fold(p, l.items@.take(n), fs.exclude_roots.deep_view(), lab), fs),
    decreases n,
{
    let excl = fs.exclude_roots.deep_view();
    if n > 0 {
        let its = l.items@.take(n);
        assert(its.drop_last() =~= l.items@.take(n - 1));
        lemma_file_fold_found(p, fs, l, n - 1, lab);
        let q = file_fold(p, l.items@.take(n - 1), excl, lab);
        match its.last() {
            WalkItem::Error(e) => {},
            WalkItem::Entry(e) => {
                if e.is_file && !excluded(e.canonical, excl) && !is_runtime_protected(e.path@) {
                    let it = crate::items::item_view(e.path@, e.size, lab.category, lab.risk, lab.selected, lab.reason);
                    assert(found_at(l, n - 1, it.path, excl));
                    lemma_push_found_item(q, fs, it, e.size as int, l, n - 1);
                }
            },
        }
    }
}

proof fn lemma_suggest_fold_found(
    p: PlanView,
    fs: FsSnapshot,
    root: Seq<char>,
    all: Seq<WalkItem>,
    l: RootListing,
    n: int,
    rules: RulesView,
)
    requires
        proposes_only_found_entries(p, fs),
        in_snapshot(fs, l),
        0 <= n <= l.items@.len(),
    ensures
        proposes_only_found_entries(suggest_fold(p, root, all, l.items@.take(n), rules, fs.exclude_roots.deep_view()), fs),
    decreases n,
{
    let excl = fs.exclude_roots.deep_view();
    if n > 0 {
        let its = l.items@.take(n);
        assert(its.drop_last() =~= l.items@.take(n - 1));
        lemma_suggest_fold_found(p, fs, root, all, l, n - 1, rules);
        let q = suggest_fold(p, root, all, l.items@.take(n - 1), rules, excl);
        let max = rules.max_suggestion_depth;
        match its.last() {
            WalkItem::Entry(e) => {
                if e.depth > max || e.path@ == root || !crate::paths::within_depth(root, e.path@, max as nat) || excluded(e.canonical, excl) {
                } else if crate::rules::is_downloads(root) {
                    if !crate::paths::is_direct_child(root, e.path@) || (!e.is_file && !e.is_dir) {
                    } else {
                        let size: int = if e.is_dir {
                            crate::scan::folder_bytes(e, all, false)
                        } else {
                            e.size as int
                        };
                        let large = size >= rules.large_file_bytes;
                        let old = e.is_file && crate::scan::is_old(e.age_secs, rules.old_file_days);
                        let it = crate::items::item_view(
                            e.path@,
                            size as u64,
                            crate::scan::download_category(large, old),
                            if large {
                                crate::model::RiskLevel::Medium
                            } else {
                                crate::model::RiskLevel::High
                            },
                            false,
                            crate::scan::download_reason(),
                        );
                        assert(found_at(l, n - 1, it.path, excl));
                        lemma_push_found_item(q, fs, it, size, l, n - 1);
                    }
                } else if !e.is_file || e.size < rules.large_file_bytes {
                } else {
                    let it = crate::items::item_view(
                        e.path@,
                        e.size,
                        "Large file suggestion"@,
                        crate::model::RiskLevel::Medium,
                        false,
                        crate::scan::large_reason(),
                    );
                    assert(found_at(l, n - 1, it.path, excl));
                    lemma_push_found_item(q, fs, it, e.size as int, l, n - 1);
                }
            },
            _ => {},
        }
    }
}

proof fn lemma_run_job_found(p: PlanView, fs: FsSnapshot, j: Job, rules: RulesView)
    requires
        proposes_only_found_entries(p, fs),
        in_snapshot(fs, j.listing),
    ensures
        proposes_only_found_entries(run_job(p, j, rules, fs.exclude_roots.deep_view()), fs),
{
    let excl = fs.exclude_roots.deep_view();
    let l = j.listing;
    if l.exists && !excluded(l.canonical, excl) {
        assert(l.items@.take(l.items@.len() as int) =~= l.items@);
        match j.kind {
            JobKind::Files(lab) => lemma_file_fold_found(p, fs, l, l.items@.len() as int, lab),
            JobKind::RecycleBin => {
                let p1 = PlanView { skipped: p.skipped + error_messages(l.items@), ..p };
                assert(proposes_only_found_entries(p1, fs));
                if has_recycle_content(j.root, l.items@) {
                    let bytes = picked_bytes(l.items@, Pick::Counted);
                    let q = push_item(
                        p1,
                        crate::items::item_view(j.root, bytes as u64, "Recycle Bin"@, crate::model::RiskLevel::Medium, false, recycle_reason()),
                        bytes,
                    );
                    assert forall|i: int| 0 <= i < q.items.len() && (#[trigger] q.items[i]).category != "Recycle Bin"@ implies found_outside_exclusions(fs, q.items[i].path) by {
                        assert(q.items[i] == p1.items[i]);
                    }
                }
            },
            JobKind::Suggestions => lemma_suggest_fold_found(p, fs, j.root, l.items@, l, l.items@.len() as int, rules),
        }
    }
}

proof fn lemma_run_jobs_found(p: PlanView, fs: FsSnapshot, js: Seq<Job>, rules: RulesView)
    requires
        proposes_only_found_entries(p, fs),
        forall|m: int| 0 <= m < js.len() ==> in_snapshot(fs, (#[trigger] js[m]).listing),
    ensures
        proposes_only_found_entries(run_jobs(p, js, rules, fs.exclude_roots.deep_view()), fs),
    decreases js.len(),
{
    if js.len() > 0 {
        assert(in_snapshot(fs, js[0].listing));
        lemma_run_job_found(p, fs, js[0], rules);
        let rest = js.drop_first();
        assert forall|m: int| 0 <= m < rest.len() implies in_snapshot(fs, (#[trigger] rest[m]).listing) by {
            assert(rest[m] == js[m + 1]);
        }
        lemma_run_jobs_found(run_job(p, js[0], rules, fs.exclude_roots.deep_view()), fs, rest, rules);
    }
}

proof fn lemma_category_jobs_listed(paths: Seq<Seq<char>>, listings: Seq<RootListing>, kind: JobKind)
    requires
        paths.len() == listings.len(),
    ensures
        forall|m: int| 0 <= m < category_jobs(paths, listings, kind).len()
            ==> listings.contains((#[trigger] category_jobs(paths, listings, kind)[m]).listing),
{
    let keys = root_keys(paths, listings);
    let idx = first_occurrences(keys);
    lemma_first_occurrences_order(keys);
    let cj = category_jobs(paths, listings, kind);
    assert forall|m: int| 0 <= m < cj.len() implies listings.contains((#[trigger] cj[m]).listing) by {
        assert(cj[m].listing == listings[idx[m]]);
        assert(0 <= idx[m] < listings.len());
    }
}

/// Nothing a scan proposes lies in an excluded folder: every cleanup item other than a
/// Recycle Bin, and every suggestion, is an entry that the walks found and whose
/// canonical form is not in any excluded folder.
pub proof fn lemma_excluded_folders_never_proposed(rules: RulesView, fs: FsSnapshot)
    requires
        snapshot_matches(rules, fs),
    ensures
        proposes_only_found_entries(planned(rules, fs), fs),
{
    lemma_category_jobs_listed(rules.temp_dirs, fs.temp_dirs@, JobKind::Files(temp_label()));
    lemma_category_jobs_listed(rules.enhanced_cache_dirs, fs.enhanced_cache_dirs@, JobKind::Files(enhanced_label()));
    lemma_category_jobs_listed(rules.windows_old_dirs, fs.windows_old_dirs@, JobKind::Files(windows_old_label()));
    lemma_category_jobs_listed(rules.recycle_bin_dirs, fs.recycle_bin_dirs@, JobKind::RecycleBin);
    lemma_category_jobs_listed(rules.system_cache_dirs, fs.system_cache_dirs@, JobKind::Files(system_cache_label()));
    lemma_category_jobs_listed(rules.suggest_dirs, fs.suggest_dirs@, JobKind::Suggestions);
    let js = scan_jobs(rules, fs);
    assert forall|m: int| 0 <= m < js.len() implies in_snapshot(fs, (#[trigger] js[m]).listing) by {
        let ja = category_jobs(rules.temp_dirs, fs.temp_dirs@, JobKind::Files(temp_label()));
        let je = if rules.enable_third_party_cache {
            category_jobs(rules.enhanced_cache_dirs, fs.enhanced_cache_dirs@, JobKind::Files(enhanced_label()))
        } else {
            Seq::empty()
        };
        let jw = category_jobs(rules.windows_old_dirs, fs.windows_old_dirs@, JobKind::Files(windows_old_label()));
        let jr = category_jobs(rules.recycle_bin_dirs, fs.recycle_bin_dirs@, JobKind::RecycleBin);
        let jc = category_jobs(rules.system_cache_dirs, fs.system_cache_dirs@, JobKind::Files(system_cache_label()));
        let ju = category_jobs(rules.suggest_dirs, fs.suggest_dirs@, JobKind::Suggestions);
        let a = ja.len() as int;
        let e = a + je.len();
        let w = e + jw.len();
        let r = w + jr.len();
        let c = r + jc.len();
        assert(js == ja + je + jw + jr + jc + ju);
        if m < a {
            assert(js[m] == ja[m]);
        } else if m < e {
            assert(js[m] == je[m - a]);
        } else if m < w {
            assert(js[m] == jw[m - e]);
        } else if m < r {
            assert(js[m] == jr[m - w]);
        } else if m < c {
            assert(js[m] == jc[m - r]);
        } else {
            assert(js[m] == ju[m - c]);
        }
    }
    assert(proposes_only_found_entries(empty_plan(), fs));
    lemma_run_jobs_found(empty_plan(), fs, js, rules);
}

// ---------------------------------------------------------------------------------
// What a scan leaves alone.

proof fn lemma_file_fold_keeps_backups(p: PlanView, its: Seq<WalkItem>, excl: Seq<Seq<char>>, lab: Label)
    ensures
        file_fold(p, its, excl, lab).system_backups == p.system_backups,
    decreases its.len(),
{
    if its.len() > 0 {
        lemma_file_fold_keeps_backups(p, its.drop_last(), excl, lab);
    }
}

proof fn lemma_suggest_fold_keeps_backups(
    p: PlanView,
    root: Seq<char>,
    all: Seq<WalkItem>,
    its: Seq<WalkItem>,
    rules: RulesView,
    excl: Seq<Seq<char>>,
)
    ensures
        suggest_fold(p, root, all, its, rules, excl).system_backups == p.system_backups,
    decreases its.len(),
{
    if its.len() > 0 {
        lemma_suggest_fold_keeps_backups(p, root, all, its.drop_last(), rules, excl);
    }
}

proof fn lemma_run_jobs_keep_backups(p: PlanView, js: Seq<Job>, rules: RulesView, excl: Seq<Seq<char>>)
    ensures
        run_jobs(p, js, rules, excl).system_backups == p.system_backups,
    decreases js.len(),
{
    if js.len() > 0 {
        let j = js[0];
        let its = j.listing.items@;
        match j.kind {
            JobKind::Files(lab) => lemma_file_fold_keeps_backups(p, its, excl, lab),
            JobKind::RecycleBin => {},
            JobKind::Suggestions => lemma_suggest_fold_keeps_backups(p, j.root, its, its, rules, excl),
        }
        lemma_run_jobs_keep_backups(run_job(p, j, rules, excl), js.drop_first(), rules, excl);
    }
}

/// A scan lists no system backups: they are added to a plan only from the restore
/// point listing, never by the scan of the roots.
pub proof fn lemma_scan_lists_no_backups(rules: RulesView, fs: FsSnapshot)
    ensures
        planned(rules, fs).system_backups.len() == 0,
{
    lemma_run_jobs_keep_backups(empty_plan(), scan_jobs(rules, fs), rules, fs.exclude_roots.deep_view());
}

// ---------------------------------------------------------------------------------
// Scans of equivalent rules.

/// The two rules have the same thresholds, which are all that a scan reads of the
/// rules beyond their root lists.
pub open spec fn same_thresholds(a: RulesView, b: RulesView) -> bool {
    &&& a.old_file_days == b.old_file_days
    &&& a.large_file_bytes == b.large_file_bytes
    &&& a.max_suggestion_depth == b.max_suggestion_depth
}

proof fn lemma_suggest_fold_thresholds(
    p: PlanView,
    root: Seq<char>,
    all: Seq<WalkItem>,
    its: Seq<WalkItem>,
    a: RulesView,
    b: RulesView,
    excl: Seq<Seq<char>>,
)
    requires
        same_thresholds(a, b),
    ensures
        suggest_fold(p, root, all, its, a, excl) == suggest_fold(p, root, all, its, b, excl),
        suggest_seen(root, its, a, excl) == suggest_seen(root, its, b, excl),
    decreases its.len(),
{
    if its.len() > 0 {
        lemma_suggest_fold_thresholds(p, root, all, its.drop_last(), a, b, excl);
    }
}

proof fn lemma_jobs_thresholds(p: PlanView, m: crate::progress::ScanModel, js: Seq<Job>, a: RulesView, b: RulesView, excl: Seq<Seq<char>>)
    requires
        same_thresholds(a, b),
    ensures
        run_jobs(p, js, a, excl) == run_jobs(p, js, b, excl),
        model_jobs(m, js, a, excl) == model_jobs(m, js, b, excl),
    decreases js.len(),
{
    if js.len() > 0 {
        let j = js[0];
        let its = j.listing.items@;
        lemma_suggest_fold_thresholds(p, j.root, its, its, a, b, excl);
        assert(run_job(p, j, a, excl) == run_job(p, j, b, excl));
        assert(job_seen(j, a, excl) == job_seen(j, b, excl));
        lemma_jobs_thresholds(run_job(p, j, a, excl), model_job(m, j, a, excl), js.drop_first(), a, b, excl);
    }
}

/// A scan with the same roots, walks and thresholds builds the same plan and reports
/// the same progress.
proof fn lemma_same_jobs_same_scan(r1: RulesView, f1: FsSnapshot, r2: RulesView, f2: FsSnapshot)
    requires
        same_thresholds(r1, r2),
        scan_jobs(r1, f1) == scan_jobs(r2, f2),
        f1.exclude_roots.deep_view() == f2.exclude_roots.deep_view(),
    ensures
        planned(r1, f1) == planned(r2, f2),
        planned_progress(r1, f1) == planned_progress(r2, f2),
{
    let js = scan_jobs(r1, f1);
    let m0 = crate::progress::model_emit(crate::progress::fresh_model(js.len() as int), "Preparing scan"@, Seq::empty());
    lemma_jobs_thresholds(empty_plan(), m0, js, r1, r2, f1.exclude_roots.deep_view());
}

/// While third-party caches are off, the scan ignores the enhanced-cache folders: rules
/// and walks that differ only there give the same plan and the same progress.
pub proof fn lemma_enhanced_caches_ignored_when_off(r1: RulesView, f1: FsSnapshot, r2: RulesView, f2: FsSnapshot)
    requires
        !r1.enable_third_party_cache,
        r2 == (RulesView { enhanced_cache_dirs: r2.enhanced_cache_dirs, ..r1 }),
        f2.temp_dirs@ == f1.temp_dirs@,
        f2.windows_old_dirs@ == f1.windows_old_dirs@,
        f2.recycle_bin_dirs@ == f1.recycle_bin_dirs@,
        f2.system_cache_dirs@ == f1.system_cache_dirs@,
        f2.suggest_dirs@ == f1.suggest_dirs@,
        f2.exclude_roots.deep_view() == f1.exclude_roots.deep_view(),
    ensures
        planned(r2, f2) == planned(r1, f1),
        planned_progress(r2, f2) == planned_progress(r1, f1),
{
    assert(scan_jobs(r1, f1) =~= scan_jobs(r2, f2));
    lemma_same_jobs_same_scan(r1, f1, r2, f2);
}

/// The rules with the list `w` replaced by `roots`.
pub open spec fn with_roots(r: RulesView, w: RootList, roots: Seq<Seq<char>>) -> RulesView {
    match w {
        RootList::Temp => RulesView { temp_dirs: roots, ..r },
        RootList::EnhancedCache => RulesView { enhanced_cache_dirs: roots, ..r },
        RootList::WindowsOld => RulesView { windows_old_dirs: roots, ..r },
        RootList::RecycleBin => RulesView { recycle_bin_dirs: roots, ..r },
        RootList::SystemCache => RulesView { system_cache_dirs: roots, ..r },
        RootList::Suggest => RulesView { suggest_dirs: roots, ..r },
    }
}

proof fn lemma_category_jobs_repeat(paths: Seq<Seq<char>>, ls: Seq<RootListing>, path: Seq<char>, l: RootListing, kind: JobKind)
    requires
        paths.len() == ls.len(),
        exists|j: int| 0 <= j < paths.len() && root_key(paths[j], ls[j]) == root_key(path, l),
    ensures
        category_jobs(paths.push(path), ls.push(l), kind) == category_jobs(paths, ls, kind),
{
    let keys = root_keys(paths, ls);
    let keys2 = root_keys(paths.push(path), ls.push(l));
    assert(keys2.drop_last() =~= keys);
    let j = choose|j: int| 0 <= j < paths.len() && root_key(paths[j], ls[j]) == root_key(path, l);
    assert(keys2[j] == keys2.last());
    assert(first_occurrences(keys2) == first_occurrences(keys));
    lemma_first_occurrences_order(keys);
    let idx = first_occurrences(keys);
    assert(category_jobs(paths.push(path), ls.push(l), kind) =~= category_jobs(paths, ls, kind)) by {
        assert forall|m: int| 0 <= m < idx.len() implies 0 <= #[trigger] idx[m] < paths.len() by {}
    }
}

/// A root named again, or one with the same key (the same canonical form, ignoring
/// ASCII case), is scanned once: adding it at the end of one of the root lists, with
/// any walk of it, gives the same plan and the same progress.
pub proof fn lemma_repeated_root_changes_nothing(
    rules: RulesView,
    fs: FsSnapshot,
    w: RootList,
    path: Seq<char>,
    l: RootListing,
    fs2: FsSnapshot,
)
    requires
        snapshot_matches(rules, fs),
        exists|j: int| 0 <= j < rule_roots(rules, w).len() && root_key(rule_roots(rules, w)[j], root_walks(fs, w)[j]) == root_key(path, l),
        root_walks(fs2, w) == root_walks(fs, w).push(l),
        forall|v: RootList| v != w ==> root_walks(fs2, v) == root_walks(fs, v),
        fs2.exclude_roots.deep_view() == fs.exclude_roots.deep_view(),
    ensures
        planned(with_roots(rules, w, rule_roots(rules, w).push(path)), fs2) == planned(rules, fs),
        planned_progress(with_roots(rules, w, rule_roots(rules, w).push(path)), fs2) == planned_progress(rules, fs),
{
    let rules2 = with_roots(rules, w, rule_roots(rules, w).push(path));
    match w {
        RootList::Temp => {
            lemma_category_jobs_repeat(rules.temp_dirs, fs.temp_dirs@, path, l, JobKind::Files(temp_label()));
            assert(root_walks(fs2, RootList::EnhancedCache) == root_walks(fs, RootList::EnhancedCache));
            assert(root_walks(fs2, RootList::WindowsOld) == root_walks(fs, RootList::WindowsOld));
            assert(root_walks(fs2, RootList::RecycleBin) == root_walks(fs, RootList::RecycleBin));
            assert(root_walks(fs2, RootList::SystemCache) == root_walks(fs, RootList::SystemCache));
            assert(root_walks(fs2, RootList::Suggest) == root_walks(fs, RootList::Suggest));
        },
        RootList::EnhancedCache => {
            lemma_category_jobs_repeat(rules.enhanced_cache_dirs, fs.enhanced_cache_dirs@, path, l, JobKind::Files(enhanced_label()));
            assert(root_walks(fs2, RootList::Temp) == root_walks(fs, RootList::Temp));
            assert(root_walks(fs2, RootList::WindowsOld) == root_walks(fs, RootList::WindowsOld));
            assert(root_walks(fs2, RootList::RecycleBin) == root_walks(fs, RootList::RecycleBin));
            assert(root_walks(fs2, RootList::SystemCache) == root_walks(fs, RootList::SystemCache));
            assert(root_walks(fs2, RootList::Suggest) == root_walks(fs, RootList::Suggest));
        },
        RootList::WindowsOld => {
            lemma_category_jobs_repeat(rules.windows_old_dirs, fs.windows_old_dirs@, path, l, JobKind::Files(windows_old_label()));
            assert(root_walks(fs2, RootList::Temp) == root_walks(fs, RootList::Temp));
            assert(root_walks(fs2, RootList::EnhancedCache) == root_walks(fs, RootList::EnhancedCache));
            assert(root_walks(fs2, RootList::RecycleBin) == root_walks(fs, RootList::RecycleBin));
            assert(root_walks(fs2, RootList::SystemCache) == root_walks(fs, RootList::SystemCache));
            assert(root_walks(fs2, RootList::Suggest) == root_walks(fs, RootList::Suggest));
        },
        RootList::RecycleBin => {
            lemma_category_jobs_repeat(rules.recycle_bin_dirs, fs.recycle_bin_dirs@, path, l, JobKind::RecycleBin);
            assert(root_walks(fs2, RootList::Temp) == root_walks(fs, RootList::Temp));
            assert(root_walks(fs2, RootList::EnhancedCache) == root_walks(fs, RootList::EnhancedCache));
            assert(root_walks(fs2, RootList::WindowsOld) == root_walks(fs, RootList::WindowsOld));
            assert(root_walks(fs2, RootList::SystemCache) == root_walks(fs, RootList::SystemCache));
            assert(root_walks(fs2, RootList::Suggest) == root_walks(fs, RootList::Suggest));
        },
        RootList::SystemCache => {
            lemma_category_jobs_repeat(rules.system_cache_dirs, fs.system_cache_dirs@, path, l, JobKind::Files(system_cache_label()));
            assert(root_walks(fs2, RootList::Temp) == root_walks(fs, RootList::Temp));
            assert(root_walks(fs2, RootList::EnhancedCache) == root_walks(fs, RootList::EnhancedCache));
            assert(root_walks(fs2, RootList::WindowsOld) == root_walks(fs, RootList::WindowsOld));
            assert(root_walks(fs2, RootList::RecycleBin) == root_walks(fs, RootList::RecycleBin));
            assert(root_walks(fs2, RootList::Suggest) == root_walks(fs, RootList::Suggest));
        },
        RootList::Suggest => {
            lemma_category_jobs_repeat(rules.suggest_dirs, fs.suggest_dirs@, path, l, JobKind::Suggestions);
            assert(root_walks(fs2, RootList::Temp) == root_walks(fs, RootList::Temp));
            assert(root_walks(fs2, RootList::EnhancedCache) == root_walks(fs, RootList::EnhancedCache));
            assert(root_walks(fs2, RootList::WindowsOld) == root_walks(fs, RootList::WindowsOld));
            assert(root_walks(fs2, RootList::RecycleBin) == root_walks(fs, RootList::RecycleBin));
            assert(root_walks(fs2, RootList::SystemCache) == root_walks(fs, RootList::SystemCache));
        },
    }
    assert(scan_jobs(rules2, fs2) =~= scan_jobs(rules, fs));
    lemma_same_jobs_same_scan(rules2, fs2, rules, fs);
}

} // verus!
