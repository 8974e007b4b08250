use disk_cleaner::cleanup::{CleanupAction, CleanupEvent, CleanupSession, IoFailure, IoFailureKind};
use disk_cleaner::items::selected_items_from_plan;
use disk_cleaner::model::{CleanStrength, CleanupItem, CleanupPlan, CleanupReport, RiskLevel, Rules};
use disk_cleaner::restore_points::parse_restore_point_count;
use disk_cleaner::rules::{recycle_bin_roots_for_drive_roots, rules_for_strength, SystemLocations};
use disk_cleaner::scan::{
    build_plan_for_roots, build_plan_for_roots_with_progress, FsEntry, FsSnapshot, RootListing, WalkItem,
};

// ---------------------------------------------------------------------------------
// Helpers: rules, walks of folders, and a file system that a cleanup runs against.

fn empty_rules() -> Rules {
    Rules {
        temp_dirs: Vec::new(),
        enhanced_cache_dirs: Vec::new(),
        windows_old_dirs: Vec::new(),
        recycle_bin_dirs: Vec::new(),
        system_cache_dirs: Vec::new(),
        suggest_dirs: Vec::new(),
        exclude_dirs: Vec::new(),
        old_file_days: 30,
        large_file_bytes: 10_000,
        max_suggestion_depth: 3,
        enable_third_party_cache: false,
    }
}

fn join(base: &str, name: &str) -> String {
    format!("{base}\\{name}")
}

fn dir(path: &str, depth: usize) -> WalkItem {
    WalkItem::Entry(FsEntry {
        path: path.to_string(),
        canonical: Some(path.to_string()),
        depth,
        is_file: false,
        is_dir: true,
        size: 0,
        age_secs: Some(0),
        linked: None,
    })
}

fn file(path: &str, depth: usize, size: u64) -> WalkItem {
    WalkItem::Entry(FsEntry {
        path: path.to_string(),
        canonical: Some(path.to_string()),
        depth,
        is_file: true,
        is_dir: false,
        size,
        age_secs: Some(0),
        linked: None,
    })
}

/// The walk of an existing folder: the folder itself, then what lies in it.
fn listing(root: &str, entries: Vec<WalkItem>) -> RootListing {
    let mut items = vec![dir(root, 0)];
    items.extend(entries);
    RootListing { exists: true, canonical: Some(root.to_string()), items }
}

fn no_walks() -> FsSnapshot {
    FsSnapshot {
        temp_dirs: Vec::new(),
        enhanced_cache_dirs: Vec::new(),
        windows_old_dirs: Vec::new(),
        recycle_bin_dirs: Vec::new(),
        system_cache_dirs: Vec::new(),
        suggest_dirs: Vec::new(),
        exclude_roots: Vec::new(),
    }
}

const WORK: &str = "C:\\Users\\tester\\AppData\\Local\\Temp\\work";

/// Files by path and size; read-only ones refuse a first deletion.
struct FakeDisk {
    files: Vec<(String, u64)>,
    readonly: Vec<String>,
    recycle_live: u64,
    recycle_empty_calls: usize,
}

impl FakeDisk {
    fn new(files: &[(&str, u64)]) -> FakeDisk {
        FakeDisk {
            files: files.iter().map(|(p, s)| (p.to_string(), *s)).collect(),
            readonly: Vec::new(),
            recycle_live: 0,
            recycle_empty_calls: 0,
        }
    }

    fn holds(&self, path: &str) -> bool {
        self.files.iter().any(|(p, _)| p == path)
    }

    fn delete(&mut self, path: &str) -> Result<(), IoFailure> {
        if !self.holds(path) {
            return Err(IoFailure {
                kind: IoFailureKind::NotFound,
                raw_os_error: Some(2),
                message: "The system cannot find the file specified. (os error 2)".to_string(),
            });
        }
        if self.readonly.iter().any(|p| p == path) {
            return Err(IoFailure {
                kind: IoFailureKind::PermissionDenied,
                raw_os_error: Some(5),
                message: "Access is denied. (os error 5)".to_string(),
            });
        }
        self.files.retain(|(p, _)| p != path);
        Ok(())
    }
}

/// Runs a cleanup of `plan` against `disk`, the way the application does, and returns
/// the report with the percent of every progress record.
fn run_cleanup(plan: &CleanupPlan, disk: &mut FakeDisk) -> (CleanupReport, Vec<u8>) {
    let mut session = CleanupSession::start(plan.clone());
    loop {
        let event = match session.next_action() {
            CleanupAction::Finished => break,
            CleanupAction::MeasureRecycleBin => CleanupEvent::RecycleBinMeasured(disk.recycle_live),
            CleanupAction::EmptyRecycleBin => {
                disk.recycle_empty_calls += 1;
                CleanupEvent::RecycleBinEmptied(Ok(()))
            }
            CleanupAction::CheckExists(path) => CleanupEvent::Exists(disk.holds(&path)),
            CleanupAction::Delete(path) => CleanupEvent::Deleted(disk.delete(&path)),
            CleanupAction::RetryDelete(path) => {
                disk.readonly.retain(|p| p != &path);
                CleanupEvent::Deleted(disk.delete(&path))
            }
        };
        assert!(session.can_accept(&event));
        session.step(event);
    }
    let percents = session.progress.iter().map(|p| p.percent).collect();
    (session.into_report(), percents)
}

fn item(id: &str, path: &str, size: u64, category: &str, risk: RiskLevel, reason: &str) -> CleanupItem {
    CleanupItem {
        id: id.to_string(),
        path: path.to_string(),
        size_bytes: size,
        category: category.to_string(),
        risk,
        default_selected: true,
        reason: reason.to_string(),
    }
}

fn plan_of(items: Vec<CleanupItem>, reclaimable_bytes: u64) -> CleanupPlan {
    CleanupPlan {
        items,
        suggestions: Vec::new(),
        system_backups: Vec::new(),
        skipped: Vec::new(),
        reclaimable_bytes,
        suggested_bytes: 0,
    }
}

fn locations() -> SystemLocations {
    SystemLocations {
        system_drive: Some("C:".to_string()),
        temp: Some("C:\\Users\\tester\\AppData\\Local\\Temp".to_string()),
        local_app_data: Some("C:\\Users\\tester\\AppData\\Local".to_string()),
        app_data: Some("C:\\Users\\tester\\AppData\\Roaming".to_string()),
        user_profile: Some("C:\\Users\\tester".to_string()),
        program_data: Some("C:\\ProgramData".to_string()),
        logical_drives: Some(0b1100),
    }
}

// ---------------------------------------------------------------------------------
// Scans.

fn temp_scan_plan(file_name: &str) -> CleanupPlan {
    let temp_dir = join(WORK, "Temp");
    let rules = Rules { temp_dirs: vec![temp_dir.clone()], ..empty_rules() };
    let fs = FsSnapshot {
        temp_dirs: vec![listing(&temp_dir, vec![file(&join(&temp_dir, file_name), 1, 1024)])],
        ..no_walks()
    };
    build_plan_for_roots(&rules, &fs)
}

#[test]
fn cleaner_tests_low_risk_temp_files_are_selected_by_default() {
    let plan = temp_scan_plan("cache.tmp");

    assert_eq!(plan.items.len(), 1);
    assert_eq!(plan.items[0].risk, RiskLevel::Low);
    assert!(plan.items[0].default_selected);
    assert_eq!(plan.reclaimable_bytes, 1024);
}

#[test]
fn low_risk_temp_files_are_selected_by_default() {
    let temp_dir = join(WORK, "Temp");
    let rules = Rules {
        temp_dirs: vec![temp_dir.clone()],
        old_file_days: 30,
        large_file_bytes: 10_000,
        ..empty_rules()
    };
    let fs = FsSnapshot {
        temp_dirs: vec![listing(&temp_dir, vec![file(&join(&temp_dir, "cache.tmp"), 1, 1024)])],
        ..no_walks()
    };

    let plan = build_plan_for_roots(&rules, &fs);

    assert_eq!(plan.items.len(), 1);
    assert_eq!(plan.items[0].risk, RiskLevel::Low);
    assert!(plan.items[0].default_selected);
    assert_eq!(plan.reclaimable_bytes, 1024);
}

#[test]
fn duplicate_scan_roots_do_not_duplicate_cleanup_items() {
    let temp_dir = join(WORK, "Temp");
    let walk = listing(&temp_dir, vec![file(&join(&temp_dir, "cache.tmp"), 1, 1024)]);
    let rules = Rules { temp_dirs: vec![temp_dir.clone(), temp_dir.clone()], ..empty_rules() };
    let fs = FsSnapshot { temp_dirs: vec![walk.clone(), walk], ..no_walks() };

    let plan = build_plan_for_roots(&rules, &fs);

    assert_eq!(plan.items.len(), 1);
    assert_eq!(plan.reclaimable_bytes, 1024);
}

#[test]
fn runtime_driver_files_are_skipped_from_default_temp_cleanup() {
    let plan = temp_scan_plan("active.sys");

    assert!(plan.items.is_empty());
    assert_eq!(plan.reclaimable_bytes, 0);
    assert!(plan.skipped.iter().any(|entry| entry.contains("active.sys")));
}

fn downloads_large_file_plan() -> CleanupPlan {
    let downloads = join(WORK, "Downloads");
    let rules = Rules {
        suggest_dirs: vec![downloads.clone()],
        old_file_days: 3650,
        large_file_bytes: 1024,
        ..empty_rules()
    };
    let fs = FsSnapshot {
        suggest_dirs: vec![listing(&downloads, vec![file(&join(&downloads, "large.zip"), 1, 2048)])],
        ..no_walks()
    };
    build_plan_for_roots(&rules, &fs)
}

#[test]
fn cleaner_tests_large_files_are_suggestions_not_selected() {
    let plan = downloads_large_file_plan();

    assert_eq!(plan.suggestions.len(), 1);
    assert_eq!(plan.suggestions[0].risk, RiskLevel::Medium);
    assert!(!plan.suggestions[0].default_selected);
    assert_eq!(plan.reclaimable_bytes, 0);
}

#[test]
fn large_files_are_suggestions_not_selected() {
    let plan = downloads_large_file_plan();

    assert_eq!(plan.suggestions.len(), 1);
    assert_eq!(plan.suggestions[0].risk, RiskLevel::Medium);
    assert!(!plan.suggestions[0].default_selected);
    assert_eq!(plan.reclaimable_bytes, 0);
}

#[test]
fn downloads_scan_includes_recent_small_files_and_directories() {
    let downloads = join(WORK, "Downloads");
    let folder = join(&downloads, "bank-statement");
    let rules = Rules {
        suggest_dirs: vec![downloads.clone()],
        old_file_days: 3650,
        large_file_bytes: 10_000,
        max_suggestion_depth: 3,
        ..empty_rules()
    };
    let fs = FsSnapshot {
        suggest_dirs: vec![listing(
            &downloads,
            vec![
                dir(&folder, 1),
                file(&join(&folder, "statement.csv"), 2, 1024),
                file(&join(&downloads, "recent.png"), 1, 512),
            ],
        )],
        ..no_walks()
    };

    let plan = build_plan_for_roots(&rules, &fs);

    assert_eq!(plan.suggestions.len(), 2);
    assert!(plan.suggestions.iter().any(|item| item.path.ends_with("recent.png")));
    assert!(plan.suggestions.iter().any(|item| item.path.ends_with("bank-statement")));
    assert_eq!(plan.suggested_bytes, 1536);
    assert!(plan.suggestions.iter().all(|item| !item.default_selected));
}

fn enhanced_cache_plan() -> CleanupPlan {
    let cache = join(WORK, "ChromeCache");
    let rules = Rules {
        enhanced_cache_dirs: vec![cache.clone()],
        enable_third_party_cache: true,
        old_file_days: 30,
        large_file_bytes: 10_000,
        ..empty_rules()
    };
    let fs = FsSnapshot {
        enhanced_cache_dirs: vec![listing(&cache, vec![file(&join(&cache, "data_0"), 1, 4096)])],
        ..no_walks()
    };
    build_plan_for_roots(&rules, &fs)
}

#[test]
fn cleaner_tests_enhanced_cache_dirs_are_selected_by_default() {
    let plan = enhanced_cache_plan();

    assert_eq!(plan.items.len(), 1);
    assert_eq!(plan.items[0].risk, RiskLevel::Medium);
    assert!(plan.items[0].default_selected);
    assert_eq!(plan.reclaimable_bytes, 4096);
}

#[test]
fn enhanced_cache_dirs_are_selected_by_default() {
    let plan = enhanced_cache_plan();

    assert_eq!(plan.items.len(), 1);
    assert_eq!(plan.items[0].risk, RiskLevel::Medium);
    assert!(plan.items[0].default_selected);
    assert_eq!(plan.reclaimable_bytes, 4096);
}

fn windows_old_plan() -> CleanupPlan {
    let windows_old = join(WORK, "Windows.old");
    let rules = Rules {
        windows_old_dirs: vec![windows_old.clone()],
        enable_third_party_cache: true,
        ..empty_rules()
    };
    let fs = FsSnapshot {
        windows_old_dirs: vec![listing(&windows_old, vec![file(&join(&windows_old, "setup.log"), 1, 8192)])],
        ..no_walks()
    };
    build_plan_for_roots(&rules, &fs)
}

#[test]
fn cleaner_tests_windows_old_files_are_selected_by_default() {
    let plan = windows_old_plan();

    assert_eq!(plan.items.len(), 1);
    assert_eq!(plan.items[0].category, "Windows.old");
    assert_eq!(plan.items[0].risk, RiskLevel::Medium);
    assert!(plan.items[0].default_selected);
    assert_eq!(plan.reclaimable_bytes, 8192);
}

#[test]
fn windows_old_files_are_selected_by_default() {
    let plan = windows_old_plan();

    assert_eq!(plan.items.len(), 1);
    assert_eq!(plan.items[0].category, "Windows.old");
    assert_eq!(plan.items[0].risk, RiskLevel::Medium);
    assert!(plan.items[0].default_selected);
    assert_eq!(plan.reclaimable_bytes, 8192);
}

fn recycle_plan(recycle_bin: &str, entries: Vec<WalkItem>) -> CleanupPlan {
    let rules = Rules { recycle_bin_dirs: vec![recycle_bin.to_string()], ..empty_rules() };
    let fs = FsSnapshot { recycle_bin_dirs: vec![listing(recycle_bin, entries)], ..no_walks() };
    build_plan_for_roots(&rules, &fs)
}

#[test]
fn recycle_bin_files_are_counted_as_cleanup_candidates() {
    let recycle_bin = join(WORK, "$Recycle.Bin");
    let plan = recycle_plan(&recycle_bin, vec![file(&join(&recycle_bin, "$R123.tmp"), 1, 2048)]);

    assert_eq!(plan.items.len(), 1);
    assert_eq!(plan.items[0].category, "Recycle Bin");
    assert_eq!(plan.items[0].risk, RiskLevel::Medium);
    assert!(!plan.items[0].default_selected);
    assert_eq!(plan.reclaimable_bytes, 2048);
}

#[test]
fn recycle_bin_roots_are_created_for_every_drive_root() {
    let roots = recycle_bin_roots_for_drive_roots(&vec!["C:\\".to_string(), "D:\\".to_string()]);

    assert_eq!(roots, vec!["C:\\$Recycle.Bin".to_string(), "D:\\$Recycle.Bin".to_string()]);
}

#[test]
fn recycle_bin_directories_create_cleanup_candidate() {
    let recycle_bin = join(WORK, "$Recycle.Bin");
    let sid = join(&recycle_bin, "S-1-5-21-test");
    let deleted = join(&sid, "$RDELETED");
    let plan = recycle_plan(
        &recycle_bin,
        vec![dir(&sid, 1), dir(&deleted, 2), file(&join(&deleted, "nested.txt"), 3, 2048)],
    );

    assert_eq!(plan.items.len(), 1);
    assert_eq!(plan.items[0].category, "Recycle Bin");
    assert_eq!(plan.items[0].path, recycle_bin);
    assert_eq!(plan.items[0].size_bytes, 2048);
    assert!(!plan.items[0].default_selected);
    assert_eq!(plan.reclaimable_bytes, 2048);
}

#[test]
fn recycle_bin_metadata_only_is_not_counted() {
    let recycle_bin = join(WORK, "$Recycle.Bin");
    let sid = join(&recycle_bin, "S-1-5-21-test");
    let plan = recycle_plan(&recycle_bin, vec![dir(&sid, 1), file(&join(&sid, "desktop.ini"), 2, 256)]);

    assert!(plan.items.is_empty());
    assert_eq!(plan.reclaimable_bytes, 0);
}

#[test]
fn recycle_bin_orphan_shell_metadata_is_not_counted() {
    let recycle_bin = join(WORK, "$Recycle.Bin");
    let sid = join(&recycle_bin, "S-1-5-21-test");
    let plan = recycle_plan(
        &recycle_bin,
        vec![
            dir(&sid, 1),
            dir(&join(&sid, "$REMPTY"), 2),
            file(&join(&sid, "$IABCDE.exe"), 2, 170),
            file(&join(&sid, "$IIMAGE.png"), 2, 130),
        ],
    );

    assert!(plan.items.is_empty());
    assert_eq!(plan.reclaimable_bytes, 0);
}

#[test]
fn recycle_bin_scan_handles_unicode_names_without_panicking() {
    let recycle_bin = join(WORK, "$Recycle.Bin");
    let sid = join(&recycle_bin, "S-1-5-21-test");
    let plan = recycle_plan(&recycle_bin, vec![dir(&sid, 1), file(&join(&sid, "测试文件.tmp"), 2, 512)]);

    assert_eq!(plan.items.len(), 1);
    assert_eq!(plan.items[0].category, "Recycle Bin");
    assert_eq!(plan.reclaimable_bytes, 512);
}

#[test]
fn system_cache_files_are_counted_as_cleanup_candidates() {
    let update_cache = join(&join(WORK, "SoftwareDistribution"), "Download");
    let rules = Rules { system_cache_dirs: vec![update_cache.clone()], ..empty_rules() };
    let fs = FsSnapshot {
        system_cache_dirs: vec![listing(&update_cache, vec![file(&join(&update_cache, "update.cab"), 1, 4096)])],
        ..no_walks()
    };

    let plan = build_plan_for_roots(&rules, &fs);

    assert_eq!(plan.items.len(), 1);
    assert_eq!(plan.items[0].category, "System update cache");
    assert_eq!(plan.items[0].risk, RiskLevel::Medium);
    assert!(!plan.items[0].default_selected);
    assert_eq!(plan.reclaimable_bytes, 4096);
}

#[test]
fn cleaner_tests_suggestion_scan_uses_fast_depth_limit() {
    let documents = join(WORK, "Documents");
    let a = join(&documents, "a");
    let b = join(&a, "b");
    let c = join(&b, "c");
    let d = join(&c, "d");
    let rules = Rules {
        suggest_dirs: vec![documents.clone()],
        old_file_days: 3650,
        large_file_bytes: 1024,
        max_suggestion_depth: 3,
        enable_third_party_cache: true,
        ..empty_rules()
    };
    let fs = FsSnapshot {
        suggest_dirs: vec![listing(
            &documents,
            vec![dir(&a, 1), dir(&b, 2), dir(&c, 3), dir(&d, 4), file(&join(&d, "too-deep.zip"), 5, 2048)],
        )],
        ..no_walks()
    };

    let plan = build_plan_for_roots(&rules, &fs);

    assert!(plan.suggestions.is_empty());
}

fn progress_scan() -> (CleanupPlan, Vec<u8>) {
    let temp_dir = join(WORK, "Temp");
    let downloads = join(WORK, "Downloads");
    let rules = Rules {
        temp_dirs: vec![temp_dir.clone()],
        suggest_dirs: vec![downloads.clone()],
        old_file_days: 3650,
        large_file_bytes: 1024,
        enable_third_party_cache: true,
        ..empty_rules()
    };
    let fs = FsSnapshot {
        temp_dirs: vec![listing(&temp_dir, vec![file(&join(&temp_dir, "cache.tmp"), 1, 1024)])],
        suggest_dirs: vec![listing(&downloads, vec![file(&join(&downloads, "large.zip"), 1, 2048)])],
        ..no_walks()
    };
    let (plan, progress) = build_plan_for_roots_with_progress(&rules, &fs);
    (plan, progress.iter().map(|p| p.percent).collect())
}

#[test]
fn cleaner_tests_scan_reports_progress_until_complete() {
    let (plan, percents) = progress_scan();

    assert_eq!(plan.items.len(), 1);
    assert_eq!(plan.suggestions.len(), 1);
    assert!(percents.len() >= 3);
    assert_eq!(percents.first().copied(), Some(0));
    assert_eq!(percents.last().copied(), Some(100));
    assert!(percents.windows(2).all(|pair| pair[0] <= pair[1]));
}

#[test]
fn scan_reports_progress_until_complete() {
    let (plan, percents) = progress_scan();

    assert_eq!(plan.items.len(), 1);
    assert_eq!(plan.suggestions.len(), 1);
    assert!(percents.len() >= 3);
    assert_eq!(percents.first().copied(), Some(0));
    assert_eq!(percents.last().copied(), Some(100));
    assert!(percents.windows(2).all(|pair| pair[0] <= pair[1]));
}

#[test]
fn scanned_cleanup_items_have_stable_ids() {
    let plan = temp_scan_plan("cache.tmp");

    assert_eq!(plan.items.len(), 1);
    assert!(!plan.items[0].id.is_empty());
}

// ---------------------------------------------------------------------------------
// Cleanups.

#[test]
fn cleanup_empties_recycle_bin_once_instead_of_deleting_raw_items() {
    let recycle_file = join(&join(WORK, "$Recycle.Bin"), "$R123.tmp");
    let cache_file = join(WORK, "cache.tmp");
    let mut disk = FakeDisk::new(&[(recycle_file.as_str(), 1024), (cache_file.as_str(), 512)]);
    disk.recycle_live = 1024;
    let plan = plan_of(
        vec![
            item("recycle", &recycle_file, 1024, "Recycle Bin", RiskLevel::Medium, "test recycle bin cleanup"),
            item("cache", &cache_file, 512, "Low risk cache", RiskLevel::Low, "test cache cleanup"),
        ],
        1536,
    );

    let (report, _) = run_cleanup(&plan, &mut disk);

    assert_eq!(disk.recycle_empty_calls, 1);
    assert!(disk.holds(&recycle_file), "test hook should replace raw deletion");
    assert!(!disk.holds(&cache_file));
    assert_eq!(report.deleted_count, 2);
    assert_eq!(report.freed_bytes, 1536);
    assert_eq!(report.failed_count, 0);
}

#[test]
fn cleaner_tests_cleanup_deletes_selected_files_and_reports_failures() {
    let doomed = join(WORK, "delete.log");
    let missing = join(WORK, "missing.tmp");
    let mut disk = FakeDisk::new(&[(doomed.as_str(), 512)]);
    let plan = plan_of(
        vec![
            item("doomed", &doomed, 512, "测试", RiskLevel::Low, "测试清理"),
            item("missing", &missing, 128, "测试", RiskLevel::Low, "测试缺失文件"),
        ],
        640,
    );

    let (report, _) = run_cleanup(&plan, &mut disk);

    assert_eq!(report.deleted_count, 1);
    assert_eq!(report.failed_count, 0);
    assert_eq!(report.skipped_count, 1);
    assert_eq!(report.freed_bytes, 512);
    assert!(!disk.holds(&doomed));
}

#[test]
fn cleanup_does_not_write_log_file_by_default() {
    let mut disk = FakeDisk::new(&[]);

    let (report, _) = run_cleanup(&CleanupPlan::default(), &mut disk);

    assert!(report.log_path.is_none(), "cleanup should not create logs beside the portable exe");
}

#[test]
fn cleanup_does_not_report_stale_recycle_bytes_when_live_recycle_bin_is_empty() {
    let mut disk = FakeDisk::new(&[]);
    disk.recycle_live = 0;
    let plan = plan_of(
        vec![item("stale-recycle", "D:\\$Recycle.Bin", 4096, "Recycle Bin", RiskLevel::Medium, "stale scan")],
        4096,
    );

    let (report, _) = run_cleanup(&plan, &mut disk);

    assert_eq!(disk.recycle_empty_calls, 0);
    assert_eq!(report.freed_bytes, 0);
    assert_eq!(report.deleted_count, 0);
    assert_eq!(report.skipped_count, 1);
    assert_eq!(report.failed_count, 0);
}

#[test]
fn cleanup_clears_readonly_attribute_before_deleting_file() {
    let readonly = join(WORK, "readonly.tmp");
    let mut disk = FakeDisk::new(&[(readonly.as_str(), 256)]);
    disk.readonly.push(readonly.clone());
    let plan = plan_of(vec![item("readonly", &readonly, 256, "test", RiskLevel::Low, "test cleanup")], 256);

    let (report, _) = run_cleanup(&plan, &mut disk);

    assert_eq!(report.deleted_count, 1);
    assert_eq!(report.failed_count, 0);
    assert!(!disk.holds(&readonly));
}

fn two_file_cleanup() -> (CleanupReport, Vec<u8>) {
    let first = join(WORK, "first.tmp");
    let second = join(WORK, "second.tmp");
    let mut disk = FakeDisk::new(&[(first.as_str(), 128), (second.as_str(), 256)]);
    let plan = plan_of(
        vec![
            item("first", &first, 128, "test", RiskLevel::Low, "test cleanup"),
            item("second", &second, 256, "test", RiskLevel::Low, "test cleanup"),
        ],
        384,
    );
    run_cleanup(&plan, &mut disk)
}

#[test]
fn cleaner_tests_cleanup_reports_progress_until_complete() {
    let (report, percents) = two_file_cleanup();

    assert_eq!(report.deleted_count, 2);
    assert_eq!(percents.first().copied(), Some(0));
    assert_eq!(percents.last().copied(), Some(100));
    assert!(percents.windows(2).all(|pair| pair[0] <= pair[1]));
}

#[test]
fn cleanup_reports_progress_until_complete() {
    let (report, percents) = two_file_cleanup();

    assert_eq!(report.deleted_count, 2);
    assert_eq!(percents.first().copied(), Some(0));
    assert_eq!(percents.last().copied(), Some(100));
    assert!(percents.windows(2).all(|pair| pair[0] <= pair[1]));
}

// ---------------------------------------------------------------------------------
// Rules, restore points and item selection.

fn check_strength_scaling() {
    let light = rules_for_strength(CleanStrength::Light, &locations());
    let standard = rules_for_strength(CleanStrength::Standard, &locations());
    let deep = rules_for_strength(CleanStrength::Deep, &locations());

    assert!(light.enhanced_cache_dirs.is_empty());
    assert!(light.windows_old_dirs.is_empty());
    assert!(light.suggest_dirs.is_empty());
    assert!(!standard.windows_old_dirs.is_empty());
    assert!(standard.suggest_dirs.len() <= deep.suggest_dirs.len());
    assert!(deep.large_file_bytes < standard.large_file_bytes);
}

#[test]
fn cleaner_tests_strength_rules_scale_scan_scope() {
    check_strength_scaling();
}

#[test]
fn strength_rules_scale_scan_scope() {
    check_strength_scaling();
}

const ENGLISH_SHADOWS: &str = r#"
Shadow Copy ID: {11111111-1111-1111-1111-111111111111}
Shadow Copy ID: {22222222-2222-2222-2222-222222222222}
"#;

const CHINESE_SHADOWS: &str = r#"
卷影复制 ID: {aaaaaaaa-aaaa-aaaa-aaaa-aaaaaaaaaaaa}
卷影复制 ID: {bbbbbbbb-bbbb-bbbb-bbbb-bbbbbbbbbbbb}
"#;

#[test]
fn cleaner_tests_restore_point_parser_counts_english_and_chinese_output() {
    assert_eq!(parse_restore_point_count(ENGLISH_SHADOWS), 2);
    assert_eq!(parse_restore_point_count(CHINESE_SHADOWS), 2);
}

#[test]
fn restore_point_parser_counts_english_and_chinese_output() {
    assert_eq!(parse_restore_point_count(ENGLISH_SHADOWS), 2);
    assert_eq!(parse_restore_point_count(CHINESE_SHADOWS), 2);
}

#[test]
fn selected_items_from_plan_resolves_items_and_suggestions_by_id() {
    let mut selected_file = item("cache-1", "cache.tmp", 512, "Low risk cache", RiskLevel::Low, "test cleanup");
    selected_file.default_selected = false;
    let mut suggested_file =
        item("large-1", "large.zip", 2048, "Large file suggestion", RiskLevel::Medium, "review manually");
    suggested_file.default_selected = false;
    let plan = CleanupPlan {
        items: vec![selected_file],
        suggestions: vec![suggested_file],
        system_backups: Vec::new(),
        skipped: Vec::new(),
        reclaimable_bytes: 512,
        suggested_bytes: 2048,
    };

    let selected = selected_items_from_plan(&plan, &vec!["large-1".to_string(), "cache-1".to_string()])
        .expect("resolve selected items");

    assert_eq!(selected.len(), 2);
    assert_eq!(selected[0].id, "large-1");
    assert_eq!(selected[1].id, "cache-1");
    assert!(selected.iter().all(|item| item.default_selected));
}

#[test]
fn selected_items_from_plan_rejects_unknown_ids() {
    let mut known = item("known", "cache.tmp", 512, "Low risk cache", RiskLevel::Low, "test cleanup");
    known.default_selected = false;
    let plan = plan_of(vec![known], 512);

    let error = selected_items_from_plan(&plan, &vec!["unknown".to_string()])
        .expect_err("unknown ids should be rejected");

    assert!(error.contains("unknown"));
}
