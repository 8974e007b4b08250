use disk_cleaner::cleanup::{
    is_locked_error, CleanupAction, CleanupEvent, CleanupSession, IoFailure, IoFailureKind,
};
use disk_cleaner::items::{cleanup_item, cleanup_item_id, confirmed_cleanup_plan, selected_items_from_plan};
use disk_cleaner::model::{CleanStrength, CleanupItem, CleanupPlan, CleanupReport, RiskLevel, Rules, ScanOptions};
use disk_cleaner::paths::{drive_root_path, join_path, path_ends_with_component};
use disk_cleaner::progress::{cleanup_percent, ScanState};
use disk_cleaner::restore_points::{append_system_backups, parse_restore_point_count};
use disk_cleaner::rules::{
    default_rules, drive_roots_from_mask, drive_roots_of, rules_for_strength, system_drive_letter,
    system_drive_root, SystemLocations,
};
use disk_cleaner::scan::{
    build_plan_for_roots, build_plan_for_roots_with_progress, live_recycle_bin_content_size,
    recycle_bin_content_size, scan_order, scan_root, suggestion_walk_depth, try_build_plan_for_roots_with_progress,
    RootList,
    try_live_recycle_bin_content_size, FsEntry, FsSnapshot, LinkedEntry, RootListing, WalkError, WalkItem,
};
use disk_cleaner::text::{ascii_lowercase, decimal_string, hex16, is_blank};

// ---------------------------------------------------------------------------------
// Helpers.

fn empty_rules() -> Rules {
    Rules {
        temp_dirs: Vec::new(),
        enhanced_cache_dirs: Vec::new(),
        windows_old_dirs: Vec::new(),
        recycle_bin_dirs: Vec::new(),
        system_cache_dirs: Vec::new(),
        suggest_dirs: Vec::new(),
        exclude_dirs: Vec::new(),
        old_file_days: 30,
        large_file_bytes: 10_000,
        max_suggestion_depth: 3,
        enable_third_party_cache: false,
    }
}

fn join(base: &str, name: &str) -> String {
    format!("{base}\\{name}")
}

fn entry(path: &str, depth: usize, is_file: bool, size: u64, age_secs: Option<u64>) -> WalkItem {
    WalkItem::Entry(FsEntry {
        path: path.to_string(),
        canonical: Some(path.to_string()),
        depth,
        is_file,
        is_dir: !is_file,
        size,
        age_secs,
        linked: None,
    })
}

fn dir(path: &str, depth: usize) -> WalkItem {
    entry(path, depth, false, 0, Some(0))
}

fn file(path: &str, depth: usize, size: u64) -> WalkItem {
    entry(path, depth, true, size, Some(0))
}

fn walk_error(depth: usize, opening_directory: bool, message: &str) -> WalkItem {
    WalkItem::Error(WalkError { depth, opening_directory, message: message.to_string() })
}

fn listing(root: &str, entries: Vec<WalkItem>) -> RootListing {
    let mut items = vec![dir(root, 0)];
    items.extend(entries);
    RootListing { exists: true, canonical: Some(root.to_string()), items }
}

fn missing_root() -> RootListing {
    RootListing { exists: false, canonical: None, items: Vec::new() }
}

fn no_walks() -> FsSnapshot {
    FsSnapshot {
        temp_dirs: Vec::new(),
        enhanced_cache_dirs: Vec::new(),
        windows_old_dirs: Vec::new(),
        recycle_bin_dirs: Vec::new(),
        system_cache_dirs: Vec::new(),
        suggest_dirs: Vec::new(),
        exclude_roots: Vec::new(),
    }
}

const WORK: &str = "D:\\scratch";

fn item(id: &str, path: &str, size: u64, category: &str, selected: bool) -> CleanupItem {
    CleanupItem {
        id: id.to_string(),
        path: path.to_string(),
        size_bytes: size,
        category: category.to_string(),
        risk: RiskLevel::Low,
        default_selected: selected,
        reason: "test".to_string(),
    }
}

fn plan_of(items: Vec<CleanupItem>) -> CleanupPlan {
    let reclaimable_bytes = items.iter().map(|i| i.size_bytes).sum();
    CleanupPlan {
        items,
        suggestions: Vec::new(),
        system_backups: Vec::new(),
        skipped: Vec::new(),
        reclaimable_bytes,
        suggested_bytes: 0,
    }
}

fn failure(kind: IoFailureKind, raw_os_error: Option<i32>, message: &str) -> IoFailure {
    IoFailure { kind, raw_os_error, message: message.to_string() }
}

/// Runs a cleanup whose file operations are answered by `present` and `delete`; returns
/// the report, every action asked for, and the progress percents.
fn drive_cleanup(
    plan: &CleanupPlan,
    live_recycle: u64,
    mut empty: impl FnMut() -> Result<(), IoFailure>,
    present: impl Fn(&str) -> bool,
    mut delete: impl FnMut(&str, bool) -> Result<(), IoFailure>,
) -> (CleanupReport, Vec<String>, Vec<u8>) {
    let mut session = CleanupSession::start(plan.clone());
    let mut actions = Vec::new();
    loop {
        let action = session.next_action();
        actions.push(format!("{action:?}"));
        let event = match action {
            CleanupAction::Finished => break,
            CleanupAction::MeasureRecycleBin => CleanupEvent::RecycleBinMeasured(live_recycle),
            CleanupAction::EmptyRecycleBin => CleanupEvent::RecycleBinEmptied(empty()),
            CleanupAction::CheckExists(path) => CleanupEvent::Exists(present(&path)),
            CleanupAction::Delete(path) => CleanupEvent::Deleted(delete(&path, false)),
            CleanupAction::RetryDelete(path) => CleanupEvent::Deleted(delete(&path, true)),
        };
        assert!(session.can_accept(&event));
        session.step(event);
        assert!(!session.is_finished() || matches!(session.next_action(), CleanupAction::Finished));
    }
    let percents = session.progress.iter().map(|p| p.percent).collect();
    (session.into_report(), actions, percents)
}

fn locations() -> SystemLocations {
    SystemLocations {
        system_drive: Some("C:".to_string()),
        temp: Some("C:\\Users\\me\\AppData\\Local\\Temp".to_string()),
        local_app_data: Some("C:\\Users\\me\\AppData\\Local".to_string()),
        app_data: Some("C:\\Users\\me\\AppData\\Roaming".to_string()),
        user_profile: Some("C:\\Users\\me".to_string()),
        program_data: Some("C:\\ProgramData".to_string()),
        logical_drives: Some(0b1100),
    }
}

fn bare_locations() -> SystemLocations {
    SystemLocations {
        system_drive: None,
        temp: None,
        local_app_data: None,
        app_data: None,
        user_profile: None,
        program_data: None,
        logical_drives: None,
    }
}

// ---------------------------------------------------------------------------------
// Formulas and text.

#[test]
fn cleanup_percent_is_the_floor_of_the_share_done() {
    assert_eq!(cleanup_percent(0, 3), 0);
    assert_eq!(cleanup_percent(1, 3), 33);
    assert_eq!(cleanup_percent(2, 3), 66);
    assert_eq!(cleanup_percent(3, 3), 100);
    assert_eq!(cleanup_percent(0, 0), 100);
}

#[test]
fn hex_and_decimal_digits() {
    assert_eq!(hex16(255), "00000000000000ff");
    assert_eq!(hex16(u64::MAX), "ffffffffffffffff");
    assert_eq!(decimal_string(0), "0");
    assert_eq!(decimal_string(1234), "1234");
}

#[test]
fn text_helpers() {
    assert_eq!(ascii_lowercase("C:\\Temp\\ÄBC.TMP"), "c:\\temp\\Äbc.tmp");
    assert!(is_blank(" \t\u{3000}"));
    assert!(is_blank(""));
    assert!(!is_blank(" x "));
}

#[test]
fn paths_join_with_one_separator() {
    assert_eq!(join_path("C:\\", "Windows"), "C:\\Windows");
    assert_eq!(join_path("C:\\Users", "Temp"), "C:\\Users\\Temp");
    assert_eq!(join_path("", "Temp"), "Temp");
    assert_eq!(drive_root_path("C:"), "C:\\");
    assert_eq!(drive_root_path("D:\\"), "D:\\");
    assert!(path_ends_with_component("C:\\Users\\me\\Downloads", "Downloads"));
    assert!(path_ends_with_component("C:\\Users\\me\\Downloads\\", "Downloads"));
    assert!(!path_ends_with_component("C:\\Users\\me\\MyDownloads", "Downloads"));
}

// ---------------------------------------------------------------------------------
// Rules.

#[test]
fn drive_roots_follow_the_mask_in_letter_order() {
    let roots = drive_roots_from_mask(0b101, &"C:\\".to_string());
    assert_eq!(roots, vec!["A:\\".to_string(), "C:\\".to_string()]);

    let none = drive_roots_from_mask(0, &"E:\\".to_string());
    assert_eq!(none, vec!["E:\\".to_string()]);

    assert_eq!(drive_roots_of(&locations()), vec!["C:\\".to_string(), "D:\\".to_string()]);
    assert_eq!(drive_roots_of(&bare_locations()), vec!["C:\\".to_string()]);
}

#[test]
fn system_drive_defaults_to_c() {
    assert_eq!(system_drive_root(&bare_locations()), "C:\\");
    assert_eq!(system_drive_letter(&bare_locations()), "C:");
    let mut l = bare_locations();
    l.system_drive = Some("E:".to_string());
    assert_eq!(system_drive_root(&l), "E:\\");
    assert_eq!(system_drive_letter(&l), "E:");
}

#[test]
fn standard_rules_cover_the_system_folders() {
    let rules = rules_for_strength(CleanStrength::Standard, &locations());

    assert_eq!(
        rules.temp_dirs,
        vec![
            "C:\\Users\\me\\AppData\\Local\\Temp".to_string(),
            "C:\\Users\\me\\AppData\\Local\\Temp".to_string(),
            "C:\\Windows\\Temp".to_string(),
            "C:\\Users\\me\\AppData\\Local\\CrashDumps".to_string(),
            "C:\\Users\\me\\AppData\\Local\\Microsoft\\Windows\\Explorer".to_string(),
        ]
    );
    assert_eq!(rules.enhanced_cache_dirs.len(), 16);
    assert_eq!(rules.windows_old_dirs, vec!["C:\\Windows.old".to_string()]);
    assert_eq!(rules.recycle_bin_dirs, vec!["C:\\$Recycle.Bin".to_string(), "D:\\$Recycle.Bin".to_string()]);
    assert_eq!(rules.system_cache_dirs[0], "C:\\Windows\\SoftwareDistribution\\Download");
    assert_eq!(rules.system_cache_dirs.len(), 5);
    assert_eq!(rules.suggest_dirs, vec!["C:\\Users\\me\\Downloads".to_string()]);
    assert_eq!(
        rules.exclude_dirs,
        vec![
            "C:\\Windows\\System32".to_string(),
            "C:\\Windows\\WinSxS".to_string(),
            "C:\\Program Files".to_string(),
            "C:\\Program Files (x86)".to_string(),
        ]
    );
    assert_eq!(rules.old_file_days, 30);
    assert_eq!(rules.large_file_bytes, 500 * 1024 * 1024);
    assert_eq!(rules.max_suggestion_depth, 3);
    assert!(rules.enable_third_party_cache);
}

#[test]
fn default_rules_are_the_standard_rules() {
    let default = default_rules(&locations());
    let standard = rules_for_strength(ScanOptions::default().strength, &locations());
    assert_eq!(default.temp_dirs, standard.temp_dirs);
    assert_eq!(default.suggest_dirs, standard.suggest_dirs);
    assert_eq!(default.large_file_bytes, standard.large_file_bytes);
    assert_eq!(CleanStrength::default(), CleanStrength::Standard);
}

#[test]
fn stronger_scans_reach_further() {
    let light = rules_for_strength(CleanStrength::Light, &locations());
    let standard = rules_for_strength(CleanStrength::Standard, &locations());
    let deep = rules_for_strength(CleanStrength::Deep, &locations());

    assert!(light.recycle_bin_dirs.is_empty() && light.system_cache_dirs.is_empty());
    assert!(!light.enable_third_party_cache);
    assert!(standard.suggest_dirs.iter().all(|p| deep.suggest_dirs.contains(p)));
    assert_eq!(deep.suggest_dirs.len(), 5);
    assert!(deep.old_file_days < standard.old_file_days && standard.old_file_days < light.old_file_days);
    assert!(light.max_suggestion_depth < standard.max_suggestion_depth);
    assert!(standard.max_suggestion_depth < deep.max_suggestion_depth);
    assert_eq!(light.temp_dirs, deep.temp_dirs);
    assert_eq!(light.exclude_dirs, deep.exclude_dirs);
}

#[test]
fn rules_without_environment_keep_system_folders() {
    let rules = rules_for_strength(CleanStrength::Deep, &bare_locations());
    assert_eq!(rules.temp_dirs, vec!["C:\\Windows\\Temp".to_string()]);
    assert!(rules.enhanced_cache_dirs.is_empty());
    assert_eq!(rules.recycle_bin_dirs, vec!["C:\\$Recycle.Bin".to_string()]);
    assert!(rules.suggest_dirs.is_empty());
}

// ---------------------------------------------------------------------------------
// Scans.

#[test]
fn plan_totals_are_the_sizes_of_its_items() {
    let temp = join(WORK, "Temp");
    let cache = join(WORK, "SysCache");
    let rules = Rules { temp_dirs: vec![temp.clone()], system_cache_dirs: vec![cache.clone()], ..empty_rules() };
    let fs = FsSnapshot {
        temp_dirs: vec![listing(&temp, vec![file(&join(&temp, "a.tmp"), 1, 100), file(&join(&temp, "b.log"), 1, 23)])],
        system_cache_dirs: vec![listing(&cache, vec![file(&join(&cache, "c.cab"), 1, 7)])],
        ..no_walks()
    };

    let plan = build_plan_for_roots(&rules, &fs);

    assert_eq!(plan.items.len(), 3);
    assert_eq!(plan.reclaimable_bytes, plan.items.iter().map(|i| i.size_bytes).sum::<u64>());
    assert_eq!(plan.reclaimable_bytes, 130);
    assert!(plan.suggestions.is_empty() && plan.suggested_bytes == 0);
    assert_eq!(plan.items[2].category, "System update cache");
}

#[test]
fn scanned_item_ids_depend_on_lowercase_path_size_and_category() {
    let a = cleanup_item_id("C:\\Temp\\A.TMP", 10, "Low risk cache");
    let b = cleanup_item_id("c:\\temp\\a.tmp", 10, "Low risk cache");
    let c = cleanup_item_id("c:\\temp\\a.tmp", 11, "Low risk cache");
    let d = cleanup_item_id("c:\\temp\\a.tmp", 10, "Enhanced cache");

    assert_eq!(a, b);
    assert_ne!(a, c);
    assert_ne!(a, d);
    assert_eq!(a.len(), 16);
    assert!(a.chars().all(|ch| ch.is_ascii_hexdigit() && !ch.is_ascii_uppercase()));

    let built = cleanup_item("C:\\Temp\\A.TMP", 10, "Low risk cache", RiskLevel::Low, true, "why");
    assert_eq!(built.id, a);
    assert_eq!(built.path, "C:\\Temp\\A.TMP");

    let temp = join(WORK, "Temp");
    let rules = Rules { temp_dirs: vec![temp.clone()], ..empty_rules() };
    let fs = FsSnapshot { temp_dirs: vec![listing(&temp, vec![file(&join(&temp, "x.tmp"), 1, 5)])], ..no_walks() };
    let first = build_plan_for_roots(&rules, &fs);
    let second = build_plan_for_roots(&rules, &fs);
    assert_eq!(first.items[0].id, second.items[0].id);
    assert_eq!(first.items[0].id, cleanup_item_id(&join(&temp, "x.tmp"), 5, "Low risk cache"));
}

#[test]
fn excluded_and_missing_roots_give_nothing() {
    let temp = join(WORK, "Temp");
    let kept = join(&temp, "keep");
    let gone = join(WORK, "Gone");
    let rules = Rules { temp_dirs: vec![temp.clone(), gone.clone()], ..empty_rules() };
    let fs = FsSnapshot {
        temp_dirs: vec![
            listing(&temp, vec![dir(&kept, 1), file(&join(&kept, "k.tmp"), 2, 9), file(&join(&temp, "t.tmp"), 1, 4)]),
            missing_root(),
        ],
        exclude_roots: vec![kept.clone()],
        ..no_walks()
    };

    let (plan, progress) = build_plan_for_roots_with_progress(&rules, &fs);

    assert_eq!(plan.items.len(), 1);
    assert!(plan.items[0].path.ends_with("t.tmp"));
    assert_eq!(plan.reclaimable_bytes, 4);
    assert!(progress.iter().any(|p| p.phase == "Scanned" && p.current_path == gone));

    let whole = FsSnapshot { exclude_roots: vec![temp.clone()], ..fs.clone() };
    let none = build_plan_for_roots(&rules, &whole);
    assert!(none.items.is_empty());
}

#[test]
fn walk_errors_are_recorded_as_skipped() {
    let temp = join(WORK, "Temp");
    let rules = Rules { temp_dirs: vec![temp.clone()], ..empty_rules() };
    let fs = FsSnapshot {
        temp_dirs: vec![listing(&temp, vec![walk_error(1, true, "IO error for operation on D:\\scratch\\Temp\\locked: Access is denied.")])],
        ..no_walks()
    };

    let plan = build_plan_for_roots(&rules, &fs);

    assert!(plan.items.is_empty());
    assert_eq!(plan.skipped, vec!["IO error for operation on D:\\scratch\\Temp\\locked: Access is denied.".to_string()]);
}

#[test]
fn enhanced_caches_are_scanned_only_when_enabled() {
    let cache = join(WORK, "Cache");
    let rules = Rules { enhanced_cache_dirs: vec![cache.clone()], enable_third_party_cache: false, ..empty_rules() };
    let fs = FsSnapshot { enhanced_cache_dirs: vec![listing(&cache, vec![file(&join(&cache, "f"), 1, 50)])], ..no_walks() };

    let (plan, progress) = build_plan_for_roots_with_progress(&rules, &fs);

    assert!(plan.items.is_empty());
    assert_eq!(progress.len(), 2);
    assert_eq!(progress[0].phase, "Preparing scan");
    assert_eq!(progress[0].percent, 100);
    assert_eq!(progress[1].phase, "Complete");
}

#[test]
fn downloads_suggestions_are_labelled_by_size_and_age() {
    let downloads = join(WORK, "Downloads");
    let rules = Rules {
        suggest_dirs: vec![downloads.clone()],
        old_file_days: 10,
        large_file_bytes: 1000,
        max_suggestion_depth: 2,
        ..empty_rules()
    };
    let fs = FsSnapshot {
        suggest_dirs: vec![listing(
            &downloads,
            vec![
                entry(&join(&downloads, "old.txt"), 1, true, 10, Some(10 * 86_400)),
                entry(&join(&downloads, "new.txt"), 1, true, 10, Some(10 * 86_400 - 1)),
                entry(&join(&downloads, "big.iso"), 1, true, 5000, Some(999 * 86_400)),
                walk_error(3, true, "too deep to report"),
                walk_error(2, false, "reported"),
            ],
        )],
        ..no_walks()
    };

    let plan = build_plan_for_roots(&rules, &fs);

    let categories: Vec<&str> = plan.suggestions.iter().map(|s| s.category.as_str()).collect();
    assert_eq!(categories, vec!["Old download suggestion", "Download item suggestion", "Large file suggestion"]);
    assert_eq!(plan.suggestions[0].risk, RiskLevel::High);
    assert_eq!(plan.suggestions[2].risk, RiskLevel::Medium);
    assert_eq!(plan.suggested_bytes, 5020);
    assert_eq!(plan.skipped, vec!["reported".to_string()]);
}

#[test]
fn other_user_folders_suggest_only_large_files() {
    let pictures = join(WORK, "Pictures");
    let rules = Rules { suggest_dirs: vec![pictures.clone()], large_file_bytes: 100, ..empty_rules() };
    let fs = FsSnapshot {
        suggest_dirs: vec![listing(
            &pictures,
            vec![
                file(&join(&pictures, "small.jpg"), 1, 99),
                dir(&join(&pictures, "trip"), 1),
                file(&join(&join(&pictures, "trip"), "video.mp4"), 2, 100),
            ],
        )],
        ..no_walks()
    };

    let plan = build_plan_for_roots(&rules, &fs);

    assert_eq!(plan.suggestions.len(), 1);
    assert!(plan.suggestions[0].path.ends_with("video.mp4"));
    assert_eq!(plan.suggestions[0].reason, "Large file candidate. Review manually before permanent deletion.");
    assert_eq!(plan.suggested_bytes, 100);
}

#[test]
fn recycle_bin_sizes_count_only_deleted_data() {
    let bin = join(WORK, "$Recycle.Bin");
    let sid = join(&bin, "S-1-5-21-x");
    let walk = listing(
        &bin,
        vec![
            dir(&sid, 1),
            file(&join(&sid, "desktop.ini"), 2, 100),
            file(&join(&sid, "$IAB12.txt"), 2, 10),
            file(&join(&sid, "$RAB12.txt"), 2, 1000),
        ],
    );

    assert_eq!(recycle_bin_content_size(&walk), 1000);
    assert_eq!(recycle_bin_content_size(&missing_root()), 0);
    assert_eq!(live_recycle_bin_content_size(&vec![walk.clone(), missing_root(), walk]), 2000);
}

// ---------------------------------------------------------------------------------
// Restore points.

#[test]
fn restore_point_count_prefers_english_records() {
    assert_eq!(parse_restore_point_count("SHADOW COPY ID: {1}\r\nshadow copy id: {2}\n卷影副本 ID: {3}"), 2);
    assert_eq!(parse_restore_point_count("  卷影副本 ID: {a}\n影子副本 ID: {b}\n卷影复制 ID: {c}"), 3);
    assert_eq!(parse_restore_point_count("No items found that satisfy the query."), 0);
    assert_eq!(parse_restore_point_count(""), 0);
}

#[test]
fn system_backups_are_listed_when_restore_points_exist() {
    let mut plan = CleanupPlan::default();
    append_system_backups(&mut plan, true, "Shadow Copy ID: {1}\nShadow Copy ID: {2}\n");

    assert_eq!(plan.system_backups.len(), 1);
    let backup = &plan.system_backups[0];
    assert_eq!(backup.path, "system-restore-points");
    assert_eq!(backup.category, "System restore points");
    assert_eq!(backup.risk, RiskLevel::High);
    assert_eq!(backup.size_bytes, 0);
    assert!(!backup.default_selected);
    assert_eq!(
        backup.reason,
        "Detected 2 system restore point or shadow copy record. Review carefully before using Windows Disk Cleanup or System Protection settings."
    );
    assert!(plan.items.is_empty());

    let mut failed = CleanupPlan::default();
    append_system_backups(&mut failed, false, "Shadow Copy ID: {1}");
    assert!(failed.system_backups.is_empty());

    let mut none = CleanupPlan::default();
    append_system_backups(&mut none, true, "No items found that satisfy the query.");
    assert!(none.system_backups.is_empty());
}

// ---------------------------------------------------------------------------------
// Choosing items.

#[test]
fn blank_and_unknown_ids_are_refused_with_messages() {
    let plan = plan_of(vec![item("a", "a.tmp", 1, "c", false)]);

    assert_eq!(
        selected_items_from_plan(&plan, &vec!["a".to_string(), " \t".to_string()]).unwrap_err(),
        "cleanup item id cannot be empty"
    );
    assert_eq!(
        selected_items_from_plan(&plan, &vec!["nope".to_string()]).unwrap_err(),
        "unknown cleanup item id: nope"
    );
    assert!(selected_items_from_plan(&plan, &Vec::new()).unwrap().is_empty());
}

#[test]
fn plan_items_win_over_suggestions_with_the_same_id() {
    let mut plan = plan_of(vec![item("same", "from-items", 1, "c", false)]);
    plan.suggestions.push(item("same", "from-suggestions", 2, "c", false));

    let chosen = selected_items_from_plan(&plan, &vec!["same".to_string(), "same".to_string()]).unwrap();

    assert_eq!(chosen.len(), 2);
    assert!(chosen.iter().all(|c| c.path == "from-items" && c.default_selected));
}

// ---------------------------------------------------------------------------------
// Cleanups.

#[test]
fn locked_missing_and_failed_deletions_are_told_apart() {
    let plan = plan_of(vec![
        item("1", "locked.tmp", 1, "c", true),
        item("2", "vanished.tmp", 2, "c", true),
        item("3", "broken.tmp", 4, "c", true),
        item("4", "denied.tmp", 8, "c", true),
        item("5", "unselected.tmp", 16, "c", false),
    ]);

    let (report, actions, percents) = drive_cleanup(
        &plan,
        0,
        || Ok(()),
        |_| true,
        |path, _| match path {
            "locked.tmp" => Err(failure(IoFailureKind::Other, Some(32), "in use")),
            "vanished.tmp" => Err(failure(IoFailureKind::NotFound, Some(2), "gone")),
            "broken.tmp" => Err(failure(IoFailureKind::Other, None, "bad sector")),
            _ => Err(failure(IoFailureKind::PermissionDenied, Some(5), "denied")),
        },
    );

    assert_eq!(report.deleted_count, 0);
    assert_eq!(report.skipped_count, 2);
    assert_eq!(report.locked_count, 1);
    assert_eq!(report.failed_count, 2);
    assert_eq!(report.permission_failed_count, 1);
    assert_eq!(report.freed_bytes, 0);
    assert_eq!(
        report.errors,
        vec![
            "locked.tmp - skipped: file is currently in use (in use)".to_string(),
            "vanished.tmp - skipped: file no longer exists".to_string(),
            "broken.tmp - bad sector".to_string(),
            "denied.tmp - denied".to_string(),
        ]
    );
    assert!(actions.iter().any(|a| a.contains("RetryDelete") && a.contains("denied.tmp")));
    assert!(!actions.iter().any(|a| a.contains("unselected.tmp")));
    assert!(!actions.iter().any(|a| a.contains("Recycle")));
    assert_eq!(percents, vec![0, 0, 25, 25, 50, 50, 75, 75, 100, 100]);
}

#[test]
fn a_failed_recycle_bin_emptying_fails_every_recycle_item() {
    let plan = plan_of(vec![
        item("r1", "C:\\$Recycle.Bin", 10, "Recycle Bin", true),
        item("r2", "D:\\$Recycle.Bin", 20, "Recycle Bin", true),
        item("x", "x.tmp", 5, "c", true),
    ]);
    let mut calls = 0;

    let (report, actions, _) = drive_cleanup(
        &plan,
        30,
        || {
            calls += 1;
            Err(failure(IoFailureKind::PermissionDenied, Some(5), "no rights"))
        },
        |_| true,
        |_, _| Ok(()),
    );

    assert_eq!(calls, 1);
    assert_eq!(report.failed_count, 2);
    assert_eq!(report.permission_failed_count, 2);
    assert_eq!(report.deleted_count, 1);
    assert_eq!(report.freed_bytes, 5);
    assert_eq!(report.errors, vec!["All Recycle Bins - failed to empty Windows Recycle Bin (no rights)".to_string()]);
    assert_eq!(actions.iter().filter(|a| a.contains("EmptyRecycleBin")).count(), 1);
    assert!(!actions.iter().any(|a| a.contains("$Recycle.Bin")));
}

#[test]
fn emptying_the_recycle_bin_frees_what_it_held_now() {
    let plan = plan_of(vec![item("r", "C:\\$Recycle.Bin", 10, "Recycle Bin", true)]);

    let (report, _, percents) = drive_cleanup(&plan, 777, || Ok(()), |_| true, |_, _| Ok(()));

    assert_eq!(report.deleted_count, 1);
    assert_eq!(report.freed_bytes, 777);
    assert_eq!(percents, vec![0, 0, 100, 100]);
}

#[test]
fn a_finished_cleanup_accounts_for_every_selected_item() {
    let plan = plan_of(vec![
        item("a", "a", 1, "c", true),
        item("b", "b", 2, "c", false),
        item("r", "bin", 3, "Recycle Bin", true),
        item("d", "d", 4, "c", true),
    ]);

    let (report, _, _) = drive_cleanup(&plan, 0, || Ok(()), |p| p != "d", |_, _| Ok(()));

    assert_eq!(report.deleted_count + report.skipped_count + report.failed_count, 3);
    assert_eq!(report.deleted_count, 1);
    assert_eq!(report.skipped_count, 2);
    assert!(report.log_path.is_none());
}

#[test]
fn io_errors_with_code_32_are_locks() {
    assert!(is_locked_error(&failure(IoFailureKind::Other, Some(32), "in use")));
    assert!(!is_locked_error(&failure(IoFailureKind::PermissionDenied, Some(5), "denied")));
    assert!(!is_locked_error(&failure(IoFailureKind::Other, None, "x")));
}

// ---------------------------------------------------------------------------------
// Machine limits.

#[test]
fn checked_scan_matches_the_plain_scan_within_limits() {
    let temp = join(WORK, "Temp");
    let rules = Rules { temp_dirs: vec![temp.clone()], ..empty_rules() };
    let fs = FsSnapshot { temp_dirs: vec![listing(&temp, vec![file(&join(&temp, "a.tmp"), 1, 42)])], ..no_walks() };

    let (checked, checked_progress) = try_build_plan_for_roots_with_progress(&rules, &fs).expect("within limits");
    let (plain, plain_progress) = build_plan_for_roots_with_progress(&rules, &fs);

    assert_eq!(checked.items.len(), 1);
    assert_eq!(checked.items[0].id, plain.items[0].id);
    assert_eq!(checked.reclaimable_bytes, plain.reclaimable_bytes);
    assert_eq!(checked_progress.len(), plain_progress.len());
}

#[test]
fn checked_scan_refuses_totals_beyond_64_bits() {
    let temp = join(WORK, "Temp");
    let rules = Rules { temp_dirs: vec![temp.clone()], ..empty_rules() };
    let fs = FsSnapshot {
        temp_dirs: vec![listing(
            &temp,
            vec![file(&join(&temp, "a.bin"), 1, u64::MAX), file(&join(&temp, "b.bin"), 1, 1)],
        )],
        ..no_walks()
    };

    assert!(try_build_plan_for_roots_with_progress(&rules, &fs).is_none());

    let downloads = join(WORK, "Downloads");
    let folder = join(&downloads, "huge");
    let rules = Rules { suggest_dirs: vec![downloads.clone()], ..empty_rules() };
    let fs = FsSnapshot {
        suggest_dirs: vec![listing(
            &downloads,
            vec![dir(&folder, 1), file(&join(&folder, "x"), 2, u64::MAX), file(&join(&folder, "y"), 2, u64::MAX)],
        )],
        ..no_walks()
    };
    assert!(try_build_plan_for_roots_with_progress(&rules, &fs).is_none());
}

#[test]
fn checked_scan_needs_one_walk_per_root() {
    let temp = join(WORK, "Temp");
    let rules = Rules { temp_dirs: vec![temp.clone(), join(WORK, "Other")], ..empty_rules() };
    let fs = FsSnapshot { temp_dirs: vec![listing(&temp, Vec::new())], ..no_walks() };

    assert!(try_build_plan_for_roots_with_progress(&rules, &fs).is_none());
}

#[test]
fn checked_recycle_size_refuses_totals_beyond_64_bits() {
    let bin = join(WORK, "$Recycle.Bin");
    let walk = listing(&bin, vec![file(&join(&bin, "$R1"), 1, u64::MAX - 5)]);
    assert_eq!(try_live_recycle_bin_content_size(&vec![walk.clone()]), Some(u64::MAX - 5));
    assert_eq!(try_live_recycle_bin_content_size(&vec![walk.clone(), walk]), None);
    assert_eq!(try_live_recycle_bin_content_size(&Vec::new()), Some(0));
}

#[test]
fn confirmed_items_are_all_selected() {
    let plan = confirmed_cleanup_plan(vec![item("a", "a.tmp", 3, "c", false), item("b", "b.tmp", 4, "c", true)]);

    assert_eq!(plan.items.len(), 2);
    assert!(plan.items.iter().all(|i| i.default_selected));
    assert_eq!(plan.items[0].path, "a.tmp");
    assert_eq!(plan.items[1].id, "b");
    assert_eq!(plan.reclaimable_bytes, 0);
    assert!(plan.suggestions.is_empty() && plan.system_backups.is_empty() && plan.skipped.is_empty());
}

#[test]
fn scan_progress_records_follow_roots_and_files() {
    let temp = join(WORK, "Temp");
    let downloads = join(WORK, "Downloads");
    let rules = Rules {
        temp_dirs: vec![temp.clone()],
        suggest_dirs: vec![downloads.clone()],
        old_file_days: 3650,
        large_file_bytes: 1024,
        ..empty_rules()
    };
    let fs = FsSnapshot {
        temp_dirs: vec![listing(&temp, vec![file(&join(&temp, "cache.tmp"), 1, 1024)])],
        suggest_dirs: vec![listing(&downloads, vec![file(&join(&downloads, "large.zip"), 1, 2048)])],
        ..no_walks()
    };

    let (_, progress) = build_plan_for_roots_with_progress(&rules, &fs);

    let seen: Vec<(u8, &str, &str)> =
        progress.iter().map(|p| (p.percent, p.phase.as_str(), p.current_path.as_str())).collect();
    let cache = join(&temp, "cache.tmp");
    assert_eq!(
        seen,
        vec![
            (0, "Preparing scan", ""),
            (0, "Scanning", temp.as_str()),
            (0, "Scanning", cache.as_str()),
            (50, "Scanned", temp.as_str()),
            (50, "Scanning", downloads.as_str()),
            (100, "Scanned", downloads.as_str()),
            (100, "Complete", ""),
        ]
    );
    assert_eq!(progress.last().unwrap().scanned_files, 2);
}

#[test]
fn cleanup_progress_records_name_each_step() {
    let plan = plan_of(vec![item("r", "C:\\$Recycle.Bin", 1, "Recycle Bin", true), item("a", "a.tmp", 1, "c", true)]);
    let mut session = CleanupSession::start(plan);
    session.step(CleanupEvent::RecycleBinMeasured(0));
    session.step(CleanupEvent::Exists(true));
    session.step(CleanupEvent::Deleted(Ok(())));
    assert!(session.is_finished());

    let seen: Vec<(u8, &str, &str, u64)> = session
        .progress
        .iter()
        .map(|p| (p.percent, p.phase.as_str(), p.current_path.as_str(), p.processed_items))
        .collect();
    assert_eq!(
        seen,
        vec![
            (0, "Preparing cleanup", "", 0),
            (0, "Emptying recycle bin", "All Recycle Bins", 0),
            (50, "Skipped", "All Recycle Bins", 1),
            (50, "Deleting", "a.tmp", 1),
            (100, "Deleted", "a.tmp", 2),
            (100, "Complete", "", 2),
        ]
    );
}

#[test]
fn user_folders_are_walked_to_the_suggestion_depth_except_downloads() {
    let rules = Rules { max_suggestion_depth: 4, ..empty_rules() };
    assert_eq!(suggestion_walk_depth(&rules, "C:\\Users\\me\\Downloads"), None);
    assert_eq!(suggestion_walk_depth(&rules, "C:\\Users\\me\\Documents"), Some(4));

    let documents = join(WORK, "Documents");
    let a = join(&documents, "a");
    let deep = join(&join(&a, "b"), "c");
    let rules = Rules { suggest_dirs: vec![documents.clone()], large_file_bytes: 10, max_suggestion_depth: 2, ..empty_rules() };
    let full = listing(
        &documents,
        vec![
            dir(&a, 1),
            file(&join(&a, "big.iso"), 2, 50),
            dir(&join(&a, "b"), 2),
            walk_error(2, true, "cannot open b"),
            dir(&deep, 3),
            file(&join(&deep, "huge.iso"), 4, 500),
        ],
    );
    let limited = listing(&documents, vec![dir(&a, 1), file(&join(&a, "big.iso"), 2, 50), dir(&join(&a, "b"), 2)]);

    let (from_full, full_progress) =
        build_plan_for_roots_with_progress(&rules, &FsSnapshot { suggest_dirs: vec![full], ..no_walks() });
    let (from_limited, limited_progress) =
        build_plan_for_roots_with_progress(&rules, &FsSnapshot { suggest_dirs: vec![limited], ..no_walks() });

    assert_eq!(from_full.suggestions.len(), 1);
    assert_eq!(from_full.suggestions[0].path, from_limited.suggestions[0].path);
    assert_eq!(from_full.suggested_bytes, from_limited.suggested_bytes);
    assert_eq!(from_full.skipped, from_limited.skipped);
    assert_eq!(full_progress.len(), limited_progress.len());
}

#[test]
fn paths_join_like_windows_prefixes() {
    assert_eq!(join_path("C:", "Temp"), "C:Temp");
    assert_eq!(join_path("C:\\", "Temp"), "C:\\Temp");
    assert_eq!(join_path("\\\\server\\share", "Temp"), "\\\\server\\share\\Temp");
    assert_eq!(join_path("\\\\?\\C:\\Users\\\\me\\", "Temp"), "\\\\?\\C:\\Users\\me\\Temp");
    assert_eq!(join_path("\\\\?\\C:", "Code\\Cache"), "\\\\?\\C:\\Code\\Cache");
    assert_eq!(join_path("\\\\?\\C:\\a/", "Temp"), "\\\\?\\C:\\a/\\Temp");
    assert_eq!(drive_root_path("X"), "\\");
    assert_eq!(drive_root_path(""), "\\");
    assert_eq!(drive_root_path("C:\\Windows"), "C:\\");
    assert_eq!(drive_root_path("\\\\server\\share\\dir"), "\\\\server\\share\\");
    assert_eq!(drive_root_path("\\\\?\\C:\\dir"), "\\\\?\\C:\\");
    assert_eq!(drive_root_path("\\\\?\\UNC\\srv\\sh\\dir"), "\\\\?\\UNC\\srv\\sh\\");
    assert_eq!(drive_root_path("\\\\?\\Volume{1}\\dir"), "\\\\?\\Volume{1}\\");
    assert_eq!(drive_root_path("\\\\.\\COM1"), "\\\\.\\COM1\\");

    let mut l = bare_locations();
    l.system_drive = Some("X".to_string());
    assert_eq!(system_drive_root(&l), "\\");
    let rules = rules_for_strength(CleanStrength::Standard, &l);
    assert_eq!(rules.windows_old_dirs, vec!["\\Windows.old".to_string()]);
    l.local_app_data = Some("D:".to_string());
    let rules = rules_for_strength(CleanStrength::Light, &l);
    assert!(rules.temp_dirs.contains(&"D:Temp".to_string()));
}

#[test]
fn scans_list_no_system_backups() {
    let temp = join(WORK, "Temp");
    let rules = Rules { temp_dirs: vec![temp.clone()], ..empty_rules() };
    let fs = FsSnapshot { temp_dirs: vec![listing(&temp, vec![file(&join(&temp, "a"), 1, 3)])], ..no_walks() };

    assert!(build_plan_for_roots(&rules, &fs).system_backups.is_empty());
}

#[test]
fn a_root_with_the_same_key_is_scanned_once() {
    let temp = join(WORK, "Temp");
    let walk = listing(&temp, vec![file(&join(&temp, "a.tmp"), 1, 7)]);
    let alias = "D:\\SCRATCH\\temp\\".to_string();
    let alias_walk = RootListing { exists: true, canonical: Some("d:\\scratch\\TEMP".to_string()), items: Vec::new() };
    let once = build_plan_for_roots(&Rules { temp_dirs: vec![temp.clone()], ..empty_rules() }, &FsSnapshot {
        temp_dirs: vec![walk.clone()],
        ..no_walks()
    });
    let twice = build_plan_for_roots(&Rules { temp_dirs: vec![temp.clone(), alias], ..empty_rules() }, &FsSnapshot {
        temp_dirs: vec![walk, alias_walk],
        ..no_walks()
    });

    assert_eq!(once.items.len(), 1);
    assert_eq!(twice.items.len(), 1);
    assert_eq!(once.items[0].id, twice.items[0].id);
    assert_eq!(once.reclaimable_bytes, twice.reclaimable_bytes);
}

#[test]
fn enhanced_cache_folders_are_ignored_while_off() {
    let cache = join(WORK, "Cache");
    let temp = join(WORK, "Temp");
    let base = Rules { temp_dirs: vec![temp.clone()], enable_third_party_cache: false, ..empty_rules() };
    let temp_walk = listing(&temp, vec![file(&join(&temp, "t"), 1, 2)]);
    let without = build_plan_for_roots(&base, &FsSnapshot { temp_dirs: vec![temp_walk.clone()], ..no_walks() });
    let with = build_plan_for_roots(
        &Rules { enhanced_cache_dirs: vec![cache.clone()], ..base.clone() },
        &FsSnapshot {
            temp_dirs: vec![temp_walk],
            enhanced_cache_dirs: vec![listing(&cache, vec![file(&join(&cache, "f"), 1, 50)])],
            ..no_walks()
        },
    );

    assert_eq!(with.items.len(), without.items.len());
    assert!(with.items.iter().all(|i| i.category != "Enhanced cache"));
    assert_eq!(with.reclaimable_bytes, without.reclaimable_bytes);
    assert_eq!(with.skipped, without.skipped);
}

#[test]
fn scanning_root_by_root_matches_the_whole_scan() {
    let temp = join(WORK, "Temp");
    let bin = join(WORK, "$Recycle.Bin");
    let downloads = join(WORK, "Downloads");
    let rules = Rules {
        temp_dirs: vec![temp.clone(), temp.clone()],
        recycle_bin_dirs: vec![bin.clone()],
        suggest_dirs: vec![downloads.clone()],
        large_file_bytes: 100,
        ..empty_rules()
    };
    let walks = FsSnapshot {
        temp_dirs: vec![
            listing(&temp, vec![file(&join(&temp, "a"), 1, 5)]),
            listing(&temp, vec![file(&join(&temp, "a"), 1, 5)]),
        ],
        recycle_bin_dirs: vec![listing(&bin, vec![file(&join(&bin, "$R1"), 1, 9)])],
        suggest_dirs: vec![listing(&downloads, vec![file(&join(&downloads, "big"), 1, 500)])],
        ..no_walks()
    };
    let (whole, whole_progress) = build_plan_for_roots_with_progress(&rules, &walks);

    let order = scan_order(&rules, &walks);
    assert_eq!(order, vec![(RootList::Temp, 0), (RootList::RecycleBin, 0), (RootList::Suggest, 0)]);
    let mut plan = CleanupPlan::default();
    let mut state = ScanState::new(order.len());
    state.emit("Preparing scan", "");
    for (list, index) in order {
        let (root, walk) = match list {
            RootList::Temp => (&rules.temp_dirs[index], &walks.temp_dirs[index]),
            RootList::RecycleBin => (&rules.recycle_bin_dirs[index], &walks.recycle_bin_dirs[index]),
            _ => (&rules.suggest_dirs[index], &walks.suggest_dirs[index]),
        };
        assert!(scan_root(&mut plan, &mut state, &rules, &walks.exclude_roots, list, root, walk));
    }
    state.complete();

    assert_eq!(plan.items.len(), whole.items.len());
    assert_eq!(plan.suggestions.len(), whole.suggestions.len());
    assert_eq!(plan.reclaimable_bytes, whole.reclaimable_bytes);
    assert_eq!(plan.suggested_bytes, whole.suggested_bytes);
    let records = |events: &Vec<disk_cleaner::model::ScanProgress>| -> Vec<(u8, String, String)> {
        events.iter().map(|p| (p.percent, p.phase.clone(), p.current_path.clone())).collect()
    };
    assert_eq!(records(&state.events), records(&whole_progress));
}

fn linked_dir(path: &str, depth: usize, contents: Vec<LinkedEntry>) -> WalkItem {
    WalkItem::Entry(FsEntry {
        path: path.to_string(),
        canonical: Some("E:\\elsewhere".to_string()),
        depth,
        is_file: false,
        is_dir: true,
        size: 0,
        age_secs: Some(0),
        linked: Some(contents),
    })
}

fn linked_file(path: &str, size: u64) -> LinkedEntry {
    LinkedEntry { path: path.to_string(), is_file: true, size }
}

#[test]
fn linked_folders_in_downloads_are_weighed_by_their_own_walk() {
    let downloads = join(WORK, "Downloads");
    let link = join(&downloads, "photos");
    let rules = Rules { suggest_dirs: vec![downloads.clone()], large_file_bytes: 1000, ..empty_rules() };
    let fs = FsSnapshot {
        suggest_dirs: vec![listing(
            &downloads,
            vec![linked_dir(
                &link,
                1,
                vec![
                    LinkedEntry { path: link.clone(), is_file: false, size: 0 },
                    linked_file(&join(&link, "a.jpg"), 700),
                    linked_file(&join(&link, "b.jpg"), 800),
                ],
            )],
        )],
        ..no_walks()
    };

    let plan = build_plan_for_roots(&rules, &fs);

    assert_eq!(plan.suggestions.len(), 1);
    assert_eq!(plan.suggestions[0].size_bytes, 1500);
    assert_eq!(plan.suggestions[0].category, "Large file suggestion");
    assert_eq!(plan.suggestions[0].risk, RiskLevel::Medium);
    assert_eq!(plan.suggested_bytes, 1500);
}

#[test]
fn a_deleted_linked_folder_with_data_shows_the_bin_holds_something() {
    let bin = join(WORK, "$Recycle.Bin");
    let sid = join(&bin, "S-1-5-21-x");
    let link = join(&sid, "$RLINK");
    let rules = Rules { recycle_bin_dirs: vec![bin.clone()], ..empty_rules() };
    let with_data = FsSnapshot {
        recycle_bin_dirs: vec![listing(
            &bin,
            vec![dir(&sid, 1), linked_dir(&link, 2, vec![linked_file(&join(&link, "desktop.ini"), 5), linked_file(&join(&link, "x"), 9)])],
        )],
        ..no_walks()
    };
    let only_meta = FsSnapshot {
        recycle_bin_dirs: vec![listing(&bin, vec![dir(&sid, 1), linked_dir(&link, 2, vec![linked_file(&join(&link, "desktop.ini"), 5)])])],
        ..no_walks()
    };

    let plan = build_plan_for_roots(&rules, &with_data);
    assert_eq!(plan.items.len(), 1);
    assert_eq!(plan.items[0].category, "Recycle Bin");
    assert_eq!(plan.items[0].size_bytes, 0);
    assert!(build_plan_for_roots(&rules, &only_meta).items.is_empty());
}
