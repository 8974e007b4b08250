//! The cleaner's data: risk levels, scan strengths, cleanup items and plans,
//! reports and progress records, and the scan rules; with their views.

use vstd::prelude::*;

verus! {

/// How risky it is to delete an item.
#[derive(Debug, Clone, Copy, PartialEq, Eq, Structural)]
pub enum RiskLevel {
    Low,
    Medium,
    High,
}

/// How far a scan reaches.
#[derive(Debug, Clone, Copy, PartialEq, Eq, Structural)]
pub enum CleanStrength {
    Light,
    Standard,
    Deep,
}

impl Default for CleanStrength {
    fn default() -> (r: Self)
        ensures
            r == CleanStrength::Standard,
    {
        CleanStrength::Standard
    }
}

/// What the user asked the scan to cover.
#[derive(Debug, Clone, Copy, PartialEq, Eq, Structural)]
pub struct ScanOptions {
    pub strength: CleanStrength,
}

impl Default for ScanOptions {
    fn default() -> (r: Self)
        ensures
            r.strength == CleanStrength::Standard,
    {
        ScanOptions { strength: CleanStrength::Standard }
    }
}

/// One file or folder that may be deleted.
#[derive(Debug, Clone)]
pub struct CleanupItem {
    pub id: String,
    pub path: String,
    pub size_bytes: u64,
    pub category: String,
    pub risk: RiskLevel,
    pub default_selected: bool,
    pub reason: String,
}

/// A cleanup item as values.
pub struct ItemView {
    pub id: Seq<char>,
    pub path: Seq<char>,
    pub size_bytes: u64,
    pub category: Seq<char>,
    pub risk: RiskLevel,
    pub default_selected: bool,
    pub reason: Seq<char>,
}

impl View for CleanupItem {
    type V = ItemView;

    open spec fn view(&self) -> ItemView {
        ItemView {
            id: self.id@,
            path: self.path@,
            size_bytes: self.size_bytes,
            category: self.category@,
            risk: self.risk,
            default_selected: self.default_selected,
            reason: self.reason@,
        }
    }
}

/// The views of a sequence of items.
pub open spec fn item_views(items: Seq<CleanupItem>) -> Seq<ItemView> {
    items.map_values(|i: CleanupItem| i@)
}

impl CleanupItem {
    /// A copy of this item.
    pub fn duplicate(&self) -> (r: CleanupItem)
        ensures
            r@ == self@,
    {
        CleanupItem {
            id: self.id.clone(),
            path: self.path.clone(),
            size_bytes: self.size_bytes,
            category: self.category.clone(),
            risk: self.risk,
            default_selected: self.default_selected,
            reason: self.reason.clone(),
        }
    }
}

/// The result of a scan: what may be deleted, what is only suggested, what was skipped.
#[derive(Debug, Clone)]
pub struct CleanupPlan {
    pub items: Vec<CleanupItem>,
    pub suggestions: Vec<CleanupItem>,
    pub system_backups: Vec<CleanupItem>,
    pub skipped: Vec<String>,
    pub reclaimable_bytes: u64,
    pub suggested_bytes: u64,
}

/// A plan as values; the byte totals are mathematical integers.
#[verifier::ext_equal]
pub struct PlanView {
    pub items: Seq<ItemView>,
    pub suggestions: Seq<ItemView>,
    pub system_backups: Seq<ItemView>,
    pub skipped: Seq<Seq<char>>,
    pub reclaimable_bytes: int,
    pub suggested_bytes: int,
}

impl View for CleanupPlan {
    type V = PlanView;

    open spec fn view(&self) -> PlanView {
        PlanView {
            items: item_views(self.items@),
            suggestions: item_views(self.suggestions@),
            system_backups: item_views(self.system_backups@),
            skipped: self.skipped.deep_view(),
            reclaimable_bytes: self.reclaimable_bytes as int,
            suggested_bytes: self.suggested_bytes as int,
        }
    }
}

/// The plan with nothing in it.
pub open spec fn empty_plan() -> PlanView {
    PlanView {
        items: Seq::empty(),
        suggestions: Seq::empty(),
        system_backups: Seq::empty(),
        skipped: Seq::empty(),
        reclaimable_bytes: 0,
        suggested_bytes: 0,
    }
}

impl Default for CleanupPlan {
    fn default() -> (r: Self)
        ensures
            r@ == empty_plan(),
    {
        let r = CleanupPlan {
            items: Vec::new(),
            suggestions: Vec::new(),
            system_backups: Vec::new(),
            skipped: Vec::new(),
            reclaimable_bytes: 0,
            suggested_bytes: 0,
        };
        assert(r@.items =~= Seq::<ItemView>::empty());
        assert(r@.suggestions =~= Seq::<ItemView>::empty());
        assert(r@.system_backups =~= Seq::<ItemView>::empty());
        assert(r@.skipped =~= Seq::<Seq<char>>::empty());
        r
    }
}

/// The space of a drive.
#[derive(Debug, Clone, Copy, Default)]
pub struct DriveSpace {
    pub total_bytes: u64,
    pub free_bytes: u64,
    pub available_bytes: u64,
}

/// A scan of the system drive.
#[derive(Debug, Clone)]
pub struct ScanResult {
    pub system_drive: String,
    pub drive_space: Option<DriveSpace>,
    pub plan: CleanupPlan,
}

/// What a cleanup did.
#[derive(Debug, Clone)]
pub struct CleanupReport {
    pub freed_bytes: u64,
    pub deleted_count: usize,
    pub skipped_count: usize,
    pub locked_count: usize,
    pub permission_failed_count: usize,
    pub failed_count: usize,
    pub errors: Vec<String>,
    pub log_path: Option<String>,
}

impl Default for CleanupReport {
    fn default() -> (r: Self)
        ensures
            r.freed_bytes == 0,
            r.deleted_count == 0,
            r.skipped_count == 0,
            r.locked_count == 0,
            r.permission_failed_count == 0,
            r.failed_count == 0,
            r.errors@.len() == 0,
            r.log_path is None,
    {
        CleanupReport {
            freed_bytes: 0,
            deleted_count: 0,
            skipped_count: 0,
            locked_count: 0,
            permission_failed_count: 0,
            failed_count: 0,
            errors: Vec::new(),
            log_path: None,
        }
    }
}

/// One progress record of a scan.
#[derive(Debug, Clone)]
pub struct ScanProgress {
    pub percent: u8,
    pub phase: String,
    pub current_path: String,
    pub scanned_files: u64,
}

/// One progress record of a cleanup.
#[derive(Debug, Clone)]
pub struct CleanupProgress {
    pub percent: u8,
    pub phase: String,
    pub current_path: String,
    pub processed_items: u64,
    pub total_items: u64,
}

/// Where a scan looks, and its thresholds.
#[derive(Debug, Clone)]
pub struct Rules {
    pub temp_dirs: Vec<String>,
    pub enhanced_cache_dirs: Vec<String>,
    pub windows_old_dirs: Vec<String>,
    pub recycle_bin_dirs: Vec<String>,
    pub system_cache_dirs: Vec<String>,
    pub suggest_dirs: Vec<String>,
    pub exclude_dirs: Vec<String>,
    pub old_file_days: u64,
    pub large_file_bytes: u64,
    pub max_suggestion_depth: usize,
    pub enable_third_party_cache: bool,
}

/// Rules as values.
pub struct RulesView {
    pub temp_dirs: Seq<Seq<char>>,
    pub enhanced_cache_dirs: Seq<Seq<char>>,
    pub windows_old_dirs: Seq<Seq<char>>,
    pub recycle_bin_dirs: Seq<Seq<char>>,
    pub system_cache_dirs: Seq<Seq<char>>,
    pub suggest_dirs: Seq<Seq<char>>,
    pub exclude_dirs: Seq<Seq<char>>,
    pub old_file_days: u64,
    pub large_file_bytes: u64,
    pub max_suggestion_depth: usize,
    pub enable_third_party_cache: bool,
}

impl View for Rules {
    type V = RulesView;

    open spec fn view(&self) -> RulesView {
        RulesView {
            temp_dirs: self.temp_dirs.deep_view(),
            enhanced_cache_dirs: self.enhanced_cache_dirs.deep_view(),
            windows_old_dirs: self.windows_old_dirs.deep_view(),
            recycle_bin_dirs: self.recycle_bin_dirs.deep_view(),
            system_cache_dirs: self.system_cache_dirs.deep_view(),
            suggest_dirs: self.suggest_dirs.deep_view(),
            exclude_dirs: self.exclude_dirs.deep_view(),
            old_file_days: self.old_file_days,
            large_file_bytes: self.large_file_bytes,
            max_suggestion_depth: self.max_suggestion_depth,
            enable_third_party_cache: self.enable_third_party_cache,
        }
    }
}

} // verus!
