//! The scan rules for each strength, built from where the system keeps things.

use vstd::prelude::*;
use crate::model::{CleanStrength, Rules, RulesView};
use crate::paths::{join, drive_root, ends_with_component, join_path, drive_root_path, path_ends_with_component};

verus! {

/// Where the system and the user keep their files, as the environment reports it.
#[derive(Debug, Clone)]
pub struct SystemLocations {
    /// `%SystemDrive%`, such as `C:`.
    pub system_drive: Option<String>,
    /// `%TEMP%`.
    pub temp: Option<String>,
    /// `%LOCALAPPDATA%`.
    pub local_app_data: Option<String>,
    /// `%APPDATA%`.
    pub app_data: Option<String>,
    /// `%USERPROFILE%`.
    pub user_profile: Option<String>,
    /// `%ProgramData%`.
    pub program_data: Option<String>,
    /// The mask of drive letters in use (bit 0 is `A:`), where the system reports one.
    pub logical_drives: Option<u32>,
}

pub open spec fn opt_view(o: Option<String>) -> Option<Seq<char>> {
    match o {
        Some(s) => Some(s@),
        None => None,
    }
}

/// A location that is set and not empty.
pub open spec fn present(o: Option<Seq<char>>) -> Option<Seq<char>> {
    match o {
        Some(s) => if s.len() > 0 {
            Some(s)
        } else {
            None
        },
        None => None,
    }
}

/// `suffix` under `base`, when `base` is present.
pub open spec fn joined(base: Option<Seq<char>>, suffix: Seq<char>) -> Seq<Seq<char>> {
    match present(base) {
        Some(b) => seq![join(b, suffix)],
        None => Seq::empty(),
    }
}

/// The root of the system drive (`C:\` when `%SystemDrive%` is not set).
pub open spec fn system_root(l: SystemLocations) -> Seq<char> {
    match l.system_drive {
        Some(d) => drive_root(d@),
        None => drive_root("C:"@),
    }
}

/// The root directory of drive letter number `i` (0 is `A:`).
pub open spec fn letter_root(i: nat) -> Seq<char> {
    seq![(('A' as nat) + i) as char, ':', '\\']
}

/// The roots of the drives among the first `n` bits of `mask`, in letter order.
pub open spec fn mask_roots(mask: u32, n: nat) -> Seq<Seq<char>>
    decreases n,
{
    if n == 0 {
        Seq::empty()
    } else {
        let prev = mask_roots(mask, (n - 1) as nat);
        if mask & (1u32 << ((n - 1) as u32)) != 0 {
            prev.push(letter_root((n - 1) as nat))
        } else {
            prev
        }
    }
}

/// The roots of all drives in use; the system drive's root when none is reported.
pub open spec fn drive_roots(l: SystemLocations) -> Seq<Seq<char>> {
    match l.logical_drives {
        Some(mask) => if mask_roots(mask, 26).len() > 0 {
            mask_roots(mask, 26)
        } else {
            seq![system_root(l)]
        },
        None => seq![system_root(l)],
    }
}

pub open spec fn temp_dirs_of(l: SystemLocations) -> Seq<Seq<char>> {
    let lad = opt_view(l.local_app_data);
    let root = system_root(l);
    (match present(opt_view(l.temp)) {
        Some(t) => seq![t],
        None => Seq::empty(),
    }) + joined(lad, "Temp"@) + seq![join(join(root, "Windows"@), "Temp"@)] + joined(
        lad,
        "CrashDumps"@,
    ) + joined(lad, "Microsoft\\Windows\\Explorer"@)
}

pub open spec fn enhanced_cache_dirs_of(l: SystemLocations) -> Seq<Seq<char>> {
    let lad = opt_view(l.local_app_data);
    let ad = opt_view(l.app_data);
    joined(lad, "Google\\Chrome\\User Data\\Default\\Cache"@) + joined(
        lad,
        "Google\\Chrome\\User Data\\Default\\Code Cache"@,
    ) + joined(lad, "Microsoft\\Edge\\User Data\\Default\\Cache"@) + joined(
        lad,
        "Microsoft\\Edge\\User Data\\Default\\Code Cache"@,
    ) + joined(ad, "Code\\Cache"@) + joined(ad, "Code\\CachedData"@) + joined(
        ad,
        "Code\\GPUCache"@,
    ) + joined(ad, "npm-cache"@) + joined(lad, "pnpm-cache"@) + joined(lad, "Yarn\\Cache"@)
        + joined(ad, "Tencent\\WeChat\\Cache"@) + joined(ad, "Tencent\\WeChat\\XPlugin\\Cache"@)
        + joined(ad, "Tencent\\QQ\\Temp"@) + joined(ad, "Tencent\\WeMeet\\cache"@) + joined(
        ad,
        "Kingsoft\\office6\\cache"@,
    ) + joined(lad, "JetBrains\\Transient"@)
}

pub open spec fn windows_old_dirs_of(l: SystemLocations) -> Seq<Seq<char>> {
    seq![join(system_root(l), "Windows.old"@)]
}

pub open spec fn recycle_bin_dirs_of(l: SystemLocations) -> Seq<Seq<char>> {
    recycle_roots(drive_roots(l))
}

/// The Recycle Bin folder of each drive root.
pub open spec fn recycle_roots(roots: Seq<Seq<char>>) -> Seq<Seq<char>> {
    roots.map_values(|r: Seq<char>| join(r, "$Recycle.Bin"@))
}

pub open spec fn system_cache_dirs_of(l: SystemLocations) -> Seq<Seq<char>> {
    let lad = opt_view(l.local_app_data);
    let pd = opt_view(l.program_data);
    seq![join(join(join(system_root(l), "Windows"@), "SoftwareDistribution"@), "Download"@)]
        + joined(pd, "Microsoft\\Windows\\WER\\ReportArchive"@) + joined(
        pd,
        "Microsoft\\Windows\\WER\\ReportQueue"@,
    ) + joined(lad, "Microsoft\\Windows\\INetCache"@) + joined(lad, "D3DSCache"@)
}

/// The user folders that may hold large or forgotten files.
pub open spec fn user_dirs_of(l: SystemLocations) -> Seq<Seq<char>> {
    let up = opt_view(l.user_profile);
    joined(up, "Downloads"@) + joined(up, "Desktop"@) + joined(up, "Documents"@) + joined(
        up,
        "Pictures"@,
    ) + joined(up, "Videos"@)
}

pub open spec fn is_downloads(p: Seq<char>) -> bool {
    ends_with_component(p, "Downloads"@)
}

pub open spec fn exclude_dirs_of(l: SystemLocations) -> Seq<Seq<char>> {
    let root = system_root(l);
    seq![
        join(join(root, "Windows"@), "System32"@),
        join(join(root, "Windows"@), "WinSxS"@),
        join(root, "Program Files"@),
        join(root, "Program Files (x86)"@),
    ]
}

/// The rules for a strength: light scans only temporary folders; standard adds
/// caches, the previous Windows installation, the Recycle Bins and the Downloads
/// folder; deep adds the other user folders. Thresholds tighten as strength grows.
pub open spec fn rules_spec(strength: CleanStrength, l: SystemLocations) -> RulesView {
    let light = strength == CleanStrength::Light;
    RulesView {
        temp_dirs: temp_dirs_of(l),
        enhanced_cache_dirs: if light {
            Seq::empty()
        } else {
            enhanced_cache_dirs_of(l)
        },
        windows_old_dirs: if light {
            Seq::empty()
        } else {
            windows_old_dirs_of(l)
        },
        recycle_bin_dirs: if light {
            Seq::empty()
        } else {
            recycle_bin_dirs_of(l)
        },
        system_cache_dirs: if light {
            Seq::empty()
        } else {
            system_cache_dirs_of(l)
        },
        suggest_dirs: match strength {
            CleanStrength::Light => Seq::empty(),
            CleanStrength::Standard => user_dirs_of(l).filter(|p: Seq<char>| is_downloads(p)),
            CleanStrength::Deep => user_dirs_of(l),
        },
        exclude_dirs: exclude_dirs_of(l),
        old_file_days: match strength {
            CleanStrength::Light => 60u64,
            CleanStrength::Standard => 30u64,
            CleanStrength::Deep => 14u64,
        },
        large_file_bytes: match strength {
            CleanStrength::Light => 1073741824u64,
            CleanStrength::Standard => 524288000u64,
            CleanStrength::Deep => 209715200u64,
        },
        max_suggestion_depth: match strength {
            CleanStrength::Light => 2usize,
            CleanStrength::Standard => 3usize,
            CleanStrength::Deep => 4usize,
        },
        enable_third_party_cache: !light,
    }
}

/// Appends `suffix` under `base` to `paths` when `base` is present.
fn push_join(paths: &mut Vec<String>, base: &Option<String>, suffix: &str)
    ensures
        final(paths).deep_view() == old(paths).deep_view() + joined(opt_view(*base), suffix@),
{
    let ghost before = paths.deep_view();
    match base {
        Some(b) => {
            if !b.as_str().is_empty() {
                let p = join_path(b.as_str(), suffix);
                paths.push(p);
                assert(paths.deep_view() =~= before + joined(opt_view(*base), suffix@));
            } else {
                assert(paths.deep_view() =~= before + joined(opt_view(*base), suffix@));
            }
        },
        None => {
            assert(paths.deep_view() =~= before + joined(opt_view(*base), suffix@));
        },
    }
}

/// The root of the system drive.
pub fn system_drive_root(l: &SystemLocations) -> (r: String)
    ensures
        r@ == system_root(*l),
{
    match &l.system_drive {
        Some(d) => drive_root_path(d.as_str()),
        None => drive_root_path("C:"),
    }
}

/// The system drive as named by the environment (`C:` when not set).
pub fn system_drive_letter(l: &SystemLocations) -> (r: String)
    ensures
        r@ == match l.system_drive {
            Some(d) => d@,
            None => "C:"@,
        },
{
    match &l.system_drive {
        Some(d) => d.clone(),
        None => String::from_str("C:"),
    }
}

fn letter_root_string(i: u32) -> (r: String)
    requires
        i < 26,
    ensures
        r@ == letter_root(i as nat),
{
    let mut r = String::new();
    let b: u8 = i as u8;
    crate::text::push_char(&mut r, (b + 65) as char);
    crate::text::push_char(&mut r, ':');
    crate::text::push_char(&mut r, '\\');
    assert(r@ =~= letter_root(i as nat));
    r
}

/// The roots of the drives whose bits are set in `mask`, in letter order; the system
/// drive's root when no bit is set.
pub fn drive_roots_from_mask(mask: u32, system_root_path: &String) -> (r: Vec<String>)
    ensures
        r.deep_view() == if mask_roots(mask, 26).len() > 0 {
            mask_roots(mask, 26)
        } else {
            seq![system_root_path@]
        },
{
    let mut roots: Vec<String> = Vec::new();
    let mut index: u32 = 0;
    while index < 26
        invariant
            index <= 26,
            roots.deep_view() == mask_roots(mask, index as nat),
        decreases 26 - index,
    {
        let ghost before = roots.deep_view();
        if mask & (1u32 << index) != 0 {
            roots.push(letter_root_string(index));
        }
        assert(roots.deep_view() =~= mask_roots(mask, (index + 1) as nat));
        index = index + 1;
    }
    if roots.len() == 0 {
        roots.push(system_root_path.clone());
        assert(roots.deep_view() =~= seq![system_root_path@]);
    }
    roots
}

/// The roots of all drives in use.
pub fn drive_roots_of(l: &SystemLocations) -> (r: Vec<String>)
    ensures
        r.deep_view() == drive_roots(*l),
{
    let root = system_drive_root(l);
    match l.logical_drives {
        Some(mask) => drive_roots_from_mask(mask, &root),
        None => {
            let mut v: Vec<String> = Vec::new();
            v.push(root);
            assert(v.deep_view() =~= seq![system_root(*l)]);
            v
        },
    }
}

/// The Recycle Bin folder of each drive root, in order.
pub fn recycle_bin_roots_for_drive_roots(roots: &Vec<String>) -> (r: Vec<String>)
    ensures
        r.deep_view() == recycle_roots(roots.deep_view()),
{
    let mut out: Vec<String> = Vec::new();
    for i in 0..roots.len()
        invariant
            out.deep_view() == recycle_roots(roots.deep_view().take(i as int)),
    {
        let p = join_path(roots[i].as_str(), "$Recycle.Bin");
        out.push(p);
        assert(recycle_roots(roots.deep_view().take(i + 1)) =~= recycle_roots(
            roots.deep_view().take(i as int),
        ).push(join(roots[i as int]@, "$Recycle.Bin"@)));
    }
    assert(roots.deep_view().take(roots.len() as int) =~= roots.deep_view());
    out
}

fn temp_dirs_for(l: &SystemLocations, root: &String) -> (r: Vec<String>)
    requires
        root@ == system_root(*l),
    ensures
        r.deep_view() == temp_dirs_of(*l),
{
    let mut v: Vec<String> = Vec::new();
    match &l.temp {
        Some(t) => {
            if !t.as_str().is_empty() {
                v.push(t.clone());
            }
        },
        None => {},
    }
    assert(v.deep_view() =~= match present(opt_view(l.temp)) {
        Some(t) => seq![t],
        None => Seq::<Seq<char>>::empty(),
    });
    push_join(&mut v, &l.local_app_data, "Temp");
    let w = join_path(root.as_str(), "Windows");
    let wt = join_path(w.as_str(), "Temp");
    let ghost before = v.deep_view();
    v.push(wt);
    assert(v.deep_view() =~= before + seq![join(join(system_root(*l), "Windows"@), "Temp"@)]);
    push_join(&mut v, &l.local_app_data, "CrashDumps");
    push_join(&mut v, &l.local_app_data, "Microsoft\\Windows\\Explorer");
    v
}

fn enhanced_cache_dirs_for(l: &SystemLocations) -> (r: Vec<String>)
    ensures
        r.deep_view() == enhanced_cache_dirs_of(*l),
{
    let lad = &l.local_app_data;
    let ad = &l.app_data;
    let mut v: Vec<String> = Vec::new();
    assert(v.deep_view() =~= Seq::<Seq<char>>::empty());
    push_join(&mut v, lad, "Google\\Chrome\\User Data\\Default\\Cache");
    push_join(&mut v, lad, "Google\\Chrome\\User Data\\Default\\Code Cache");
    push_join(&mut v, lad, "Microsoft\\Edge\\User Data\\Default\\Cache");
    push_join(&mut v, lad, "Microsoft\\Edge\\User Data\\Default\\Code Cache");
    push_join(&mut v, ad, "Code\\Cache");
    push_join(&mut v, ad, "Code\\CachedData");
    push_join(&mut v, ad, "Code\\GPUCache");
    push_join(&mut v, ad, "npm-cache");
    push_join(&mut v, lad, "pnpm-cache");
    push_join(&mut v, lad, "Yarn\\Cache");
    push_join(&mut v, ad, "Tencent\\WeChat\\Cache");
    push_join(&mut v, ad, "Tencent\\WeChat\\XPlugin\\Cache");
    push_join(&mut v, ad, "Tencent\\QQ\\Temp");
    push_join(&mut v, ad, "Tencent\\WeMeet\\cache");
    push_join(&mut v, ad, "Kingsoft\\office6\\cache");
    push_join(&mut v, lad, "JetBrains\\Transient");
    assert(v.deep_view() =~= enhanced_cache_dirs_of(*l));
    v
}

fn system_cache_dirs_for(l: &SystemLocations, root: &String) -> (r: Vec<String>)
    requires
        root@ == system_root(*l),
    ensures
        r.deep_view() == system_cache_dirs_of(*l),
{
    let w = join_path(root.as_str(), "Windows");
    let sd = join_path(w.as_str(), "SoftwareDistribution");
    let dl = join_path(sd.as_str(), "Download");
    let mut v: Vec<String> = Vec::new();
    v.push(dl);
    push_join(&mut v, &l.program_data, "Microsoft\\Windows\\WER\\ReportArchive");
    push_join(&mut v, &l.program_data, "Microsoft\\Windows\\WER\\ReportQueue");
    push_join(&mut v, &l.local_app_data, "Microsoft\\Windows\\INetCache");
    push_join(&mut v, &l.local_app_data, "D3DSCache");
    assert(v.deep_view() =~= system_cache_dirs_of(*l));
    v
}

fn user_dirs_for(l: &SystemLocations) -> (r: Vec<String>)
    ensures
        r.deep_view() == user_dirs_of(*l),
{
    let up = &l.user_profile;
    let mut v: Vec<String> = Vec::new();
    assert(v.deep_view() =~= Seq::<Seq<char>>::empty());
    push_join(&mut v, up, "Downloads");
    push_join(&mut v, up, "Desktop");
    push_join(&mut v, up, "Documents");
    push_join(&mut v, up, "Pictures");
    push_join(&mut v, up, "Videos");
    assert(v.deep_view() =~= user_dirs_of(*l));
    v
}

fn downloads_only(dirs: Vec<String>) -> (r: Vec<String>)
    ensures
        r.deep_view() == dirs.deep_view().filter(|p: Seq<char>| is_downloads(p)),
{
    let ghost all = dirs.deep_view();
    let mut out: Vec<String> = Vec::new();
    for i in 0..dirs.len()
        invariant
            all == dirs.deep_view(),
            out.deep_view() == all.take(i as int).filter(|p: Seq<char>| is_downloads(p)),
    {
        reveal_with_fuel(Seq::<_>::filter, 1);
        assert(all.take(i + 1).drop_last() =~= all.take(i as int));
        if path_ends_with_component(dirs[i].as_str(), "Downloads") {
            out.push(dirs[i].clone());
            assert(out.deep_view() =~= all.take(i + 1).filter(|p: Seq<char>| is_downloads(p)));
        } else {
            assert(out.deep_view() =~= all.take(i + 1).filter(|p: Seq<char>| is_downloads(p)));
        }
    }
    assert(all.take(dirs.len() as int) =~= all);
    out
}

fn exclude_dirs_for(root: &String) -> (r: Vec<String>)
    ensures
        forall|l: SystemLocations| system_root(l) == root@ ==> r.deep_view() == exclude_dirs_of(l),
{
    let w = join_path(root.as_str(), "Windows");
    let mut v: Vec<String> = Vec::new();
    v.push(join_path(w.as_str(), "System32"));
    v.push(join_path(w.as_str(), "WinSxS"));
    v.push(join_path(root.as_str(), "Program Files"));
    v.push(join_path(root.as_str(), "Program Files (x86)"));
    assert(v.deep_view() =~= seq![
        join(join(root@, "Windows"@), "System32"@),
        join(join(root@, "Windows"@), "WinSxS"@),
        join(root@, "Program Files"@),
        join(root@, "Program Files (x86)"@),
    ]);
    v
}

/// The scan rules for `strength` on a system whose locations are `l`.
pub fn rules_for_strength(strength: CleanStrength, l: &SystemLocations) -> (r: Rules)
    ensures
        r@ == rules_spec(strength, *l),
{
    let root = system_drive_root(l);
    let light = match strength {
        CleanStrength::Light => true,
        _ => false,
    };
    let temp_dirs = temp_dirs_for(l, &root);
    let enhanced = if light {
        Vec::new()
    } else {
        enhanced_cache_dirs_for(l)
    };
    let mut windows_old: Vec<String> = Vec::new();
    if !light {
        windows_old.push(join_path(root.as_str(), "Windows.old"));
    }
    let recycle = if light {
        Vec::new()
    } else {
        let drives = drive_roots_of(l);
        recycle_bin_roots_for_drive_roots(&drives)
    };
    let system_cache = if light {
        Vec::new()
    } else {
        system_cache_dirs_for(l, &root)
    };
    let suggest = match strength {
        CleanStrength::Light => Vec::new(),
        CleanStrength::Standard => downloads_only(user_dirs_for(l)),
        CleanStrength::Deep => user_dirs_for(l),
    };
    let exclude = exclude_dirs_for(&root);
    let r = Rules {
        temp_dirs,
        enhanced_cache_dirs: enhanced,
        windows_old_dirs: windows_old,
        recycle_bin_dirs: recycle,
        system_cache_dirs: system_cache,
        suggest_dirs: suggest,
        exclude_dirs: exclude,
        old_file_days: match strength {
            CleanStrength::Light => 60,
            CleanStrength::Standard => 30,
            CleanStrength::Deep => 14,
        },
        large_file_bytes: match strength {
            CleanStrength::Light => 1024 * 1024 * 1024,
            CleanStrength::Standard => 500 * 1024 * 1024,
            CleanStrength::Deep => 200 * 1024 * 1024,
        },
        max_suggestion_depth: match strength {
            CleanStrength::Light => 2,
            CleanStrength::Standard => 3,
            CleanStrength::Deep => 4,
        },
        enable_third_party_cache: !light,
    };
    assert(r@.enhanced_cache_dirs =~= rules_spec(strength, *l).enhanced_cache_dirs);
    assert(r@.windows_old_dirs =~= rules_spec(strength, *l).windows_old_dirs);
    assert(r@.recycle_bin_dirs =~= rules_spec(strength, *l).recycle_bin_dirs);
    assert(r@.system_cache_dirs =~= rules_spec(strength, *l).system_cache_dirs);
    assert(r@.suggest_dirs =~= rules_spec(strength, *l).suggest_dirs);
    r
}

/// The rules of a standard scan.
pub fn default_rules(l: &SystemLocations) -> (r: Rules)
    ensures
        r@ == rules_spec(CleanStrength::Standard, *l),
{
    rules_for_strength(CleanStrength::Standard, l)
}

/// A stronger scan covers at least what a weaker one covers, and with lower
/// thresholds: a light scan looks only at temporary folders; the suggestion folders
/// of a standard scan are among those of a deep one; the large-file threshold and
/// the age of an old download fall, and the suggestion depth grows, from light to
/// standard to deep; temporary and excluded folders are the same at every strength.
pub proof fn lemma_strength_scales_scope(l: SystemLocations)
    ensures
        ({
            let light = rules_spec(CleanStrength::Light, l);
            let standard = rules_spec(CleanStrength::Standard, l);
            let deep = rules_spec(CleanStrength::Deep, l);
            &&& light.enhanced_cache_dirs.len() == 0
            &&& light.windows_old_dirs.len() == 0
            &&& light.recycle_bin_dirs.len() == 0
            &&& light.system_cache_dirs.len() == 0
            &&& light.suggest_dirs.len() == 0
            &&& !light.enable_third_party_cache
            &&& standard.windows_old_dirs.len() > 0
            &&& standard.suggest_dirs.len() <= deep.suggest_dirs.len()
            &&& forall|p: Seq<char>| standard.suggest_dirs.contains(p) ==> deep.suggest_dirs.contains(p)
            &&& deep.large_file_bytes < standard.large_file_bytes < light.large_file_bytes
            &&& deep.old_file_days < standard.old_file_days < light.old_file_days
            &&& light.max_suggestion_depth < standard.max_suggestion_depth < deep.max_suggestion_depth
            &&& light.temp_dirs == standard.temp_dirs && standard.temp_dirs == deep.temp_dirs
            &&& light.exclude_dirs == standard.exclude_dirs && standard.exclude_dirs == deep.exclude_dirs
        }),
{
    let all = user_dirs_of(l);
    all.lemma_filter_len(|p: Seq<char>| is_downloads(p));
    assert forall|p: Seq<char>|
        rules_spec(CleanStrength::Standard, l).suggest_dirs.contains(p) implies rules_spec(
        CleanStrength::Deep,
        l,
    ).suggest_dirs.contains(p) by {
        all.lemma_filter_contains_rev(|p: Seq<char>| is_downloads(p), p);
    }
}

/// Each stronger scan covers every root of a weaker one: every folder that a light scan
/// looks at, a standard scan looks at too, and every folder of a standard scan (its
/// temporary folders, caches, previous Windows installation, Recycle Bins and suggestion
/// folders) a deep scan looks at too. Both standard and deep scans look at the previous
/// Windows installation, `Windows.old` on the system drive.
pub proof fn lemma_stronger_scan_covers_weaker(l: SystemLocations)
    ensures
        ({
            let light = rules_spec(CleanStrength::Light, l);
            let standard = rules_spec(CleanStrength::Standard, l);
            let deep = rules_spec(CleanStrength::Deep, l);
            let old = seq![join(system_root(l), "Windows.old"@)];
            &&& standard.windows_old_dirs == old
            &&& deep.windows_old_dirs == old
            &&& forall|p: Seq<char>| standard.temp_dirs.contains(p) ==> deep.temp_dirs.contains(p)
            &&& forall|p: Seq<char>| standard.enhanced_cache_dirs.contains(p) ==> deep.enhanced_cache_dirs.contains(p)
            &&& forall|p: Seq<char>| standard.windows_old_dirs.contains(p) ==> deep.windows_old_dirs.contains(p)
            &&& forall|p: Seq<char>| standard.recycle_bin_dirs.contains(p) ==> deep.recycle_bin_dirs.contains(p)
            &&& forall|p: Seq<char>| standard.system_cache_dirs.contains(p) ==> deep.system_cache_dirs.contains(p)
            &&& forall|p: Seq<char>| standard.suggest_dirs.contains(p) ==> deep.suggest_dirs.contains(p)
            &&& forall|p: Seq<char>| light.temp_dirs.contains(p) ==> standard.temp_dirs.contains(p)
            &&& forall|p: Seq<char>| light.enhanced_cache_dirs.contains(p) ==> standard.enhanced_cache_dirs.contains(p)
            &&& forall|p: Seq<char>| light.windows_old_dirs.contains(p) ==> standard.windows_old_dirs.contains(p)
            &&& forall|p: Seq<char>| light.recycle_bin_dirs.contains(p) ==> standard.recycle_bin_dirs.contains(p)
            &&& forall|p: Seq<char>| light.system_cache_dirs.contains(p) ==> standard.system_cache_dirs.contains(p)
            &&& forall|p: Seq<char>| light.suggest_dirs.contains(p) ==> standard.suggest_dirs.contains(p)
            &&& deep.enable_third_party_cache && standard.enable_third_party_cache
        }),
{
    lemma_strength_scales_scope(l);
}

} // verus!
