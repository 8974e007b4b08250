//! Windows-style path text: joining, components, file names and extensions.
//!
//! A path is its text. A separator is `\` or `/`; a component is a maximal run of
//! characters that are not separators.

use vstd::prelude::*;
use crate::text::{lower, lower_char, eq_ignore_case, chars_of, lower_chars, chars_eq, push_char, string_of};

verus! {

pub open spec fn is_sep(c: char) -> bool {
    c == '\\' || c == '/'
}

pub open spec fn is_ascii_letter(c: char) -> bool {
    ('a' <= c && c <= 'z') || ('A' <= c && c <= 'Z')
}

/// A drive prefix (an ASCII letter and a colon, such as `C:`) starts at `at`.
pub open spec fn has_drive(s: Seq<char>, at: int) -> bool {
    0 <= at && at + 2 <= s.len() && is_ascii_letter(s[at]) && s[at + 1] == ':'
}

/// The position of the first separator at or after `from` (in a verbatim prefix only a
/// backslash separates), or the end of `s`.
pub open spec fn next_sep(s: Seq<char>, from: int, verbatim: bool) -> int
    decreases s.len() - from,
{
    if from < 0 || from >= s.len() {
        s.len() as int
    } else if (if verbatim {
        s[from] == '\\'
    } else {
        is_sep(s[from])
    }) {
        from
    } else {
        next_sep(s, from + 1, verbatim)
    }
}

/// The length of the Windows prefix that `s` starts with (0 when there is none):
/// `\\?\UNC\server\share`, `\\?\C:`, `\\?\name`, `\\.\device`, `\\server\share` or `C:`.
pub open spec fn prefix_len(s: Seq<char>) -> int {
    if s.len() >= 2 && is_sep(s[0]) && is_sep(s[1]) {
        if s.len() >= 4 && s[0] == '\\' && s[1] == '\\' && s[2] == '?' && s[3] == '\\' {
            if s.len() >= 8 && s[4] == 'U' && s[5] == 'N' && s[6] == 'C' && is_sep(s[7]) {
                let server_end = next_sep(s, 8, true);
                if server_end < s.len() && next_sep(s, server_end + 1, true) > server_end + 1 {
                    next_sep(s, server_end + 1, true)
                } else {
                    server_end
                }
            } else if has_drive(s, 4) && (s.len() == 6 || s[6] == '\\') {
                6
            } else {
                next_sep(s, 4, true)
            }
        } else if s.len() >= 4 && s[2] == '.' && is_sep(s[3]) {
            next_sep(s, 4, false)
        } else {
            let server_end = next_sep(s, 2, false);
            if server_end > 2 && server_end < s.len() && next_sep(s, server_end + 1, false) > server_end + 1 {
                next_sep(s, server_end + 1, false)
            } else {
                0
            }
        }
    } else if has_drive(s, 0) {
        2
    } else {
        0
    }
}

/// The path starts with a verbatim prefix (`\\?\`).
pub open spec fn is_verbatim(s: Seq<char>) -> bool {
    s.len() >= 4 && s[0] == '\\' && s[1] == '\\' && s[2] == '?' && s[3] == '\\'
}

/// `s` with each slash turned into a backslash.
pub open spec fn backslashed(s: Seq<char>) -> Seq<char> {
    s.map_values(|c: char| if c == '/' { '\\' } else { c })
}

/// `s` without backslashes at the start, and with each run of backslashes elsewhere cut
/// to one.
pub open spec fn squeezed(s: Seq<char>) -> Seq<char>
    decreases s.len(),
{
    if s.len() == 0 {
        Seq::empty()
    } else {
        let prev = squeezed(s.drop_last());
        if s.last() == '\\' {
            if prev.len() == 0 || prev.last() == '\\' {
                prev
            } else {
                prev.push('\\')
            }
        } else {
            prev.push(s.last())
        }
    }
}

/// `s` without one backslash at its end.
pub open spec fn trim_backslash(s: Seq<char>) -> Seq<char> {
    if s.len() > 0 && s.last() == '\\' {
        s.drop_last()
    } else {
        s
    }
}

/// `base` joined with the relative path `child` (plain names, as the scan rules use),
/// as Windows joins paths. A backslash is put between the two unless `base` is empty,
/// already ends with a separator, or is a bare drive such as `C:` (which gives
/// `C:child`, relative to that drive). Under a verbatim prefix (`\\?\`) the path is
/// rebuilt from its names: the prefix, a backslash, and the names of `base` (split at
/// backslashes only) and of `child`, joined by single backslashes.
pub open spec fn join(base: Seq<char>, child: Seq<char>) -> Seq<char> {
    if is_verbatim(base) {
        let pl = prefix_len(base);
        base.subrange(0, pl) + seq!['\\'] + trim_backslash(
            squeezed(base.subrange(pl, base.len() as int) + seq!['\\'] + backslashed(child)),
        )
    } else if base.len() == 0 || is_sep(base.last()) || (base.len() == 2 && has_drive(base, 0)) {
        base + child
    } else {
        base + seq!['\\'] + child
    }
}

/// `drive` joined with `\`: the root of the drive that `drive` names. Everything after
/// its prefix is replaced by a backslash (`C:` gives `C:\`, a text without a prefix gives
/// `\`).
pub open spec fn drive_root(drive: Seq<char>) -> Seq<char> {
    drive.subrange(0, prefix_len(drive)).push('\\')
}

/// The end of the first `k` characters of `s` once trailing separators are dropped.
pub open spec fn trimmed_end(s: Seq<char>, k: int) -> int
    decreases k,
{
    if k > 0 && is_sep(s[k - 1]) {
        trimmed_end(s, k - 1)
    } else {
        k
    }
}

/// The start of the component that ends at position `k` of `s`.
pub open spec fn component_start(s: Seq<char>, k: int) -> int
    decreases k,
{
    if k > 0 && !is_sep(s[k - 1]) {
        component_start(s, k - 1)
    } else {
        k
    }
}

/// The last component of a path (empty when the path has none).
pub open spec fn last_component(s: Seq<char>) -> Seq<char> {
    let e = trimmed_end(s, s.len() as int);
    s.subrange(component_start(s, e), e)
}

/// The position just after the last `.` among the first `k` characters (0 when none).
pub open spec fn after_last_dot(s: Seq<char>, k: int) -> int
    decreases k,
{
    if k > 0 && s[k - 1] != '.' {
        after_last_dot(s, k - 1)
    } else {
        k
    }
}

/// The extension of a file name: what follows its last `.`, unless that dot is the
/// name's first character or there is none.
pub open spec fn extension(name: Seq<char>) -> Option<Seq<char>> {
    let d = after_last_dot(name, name.len() as int);
    if d <= 1 {
        None
    } else {
        Some(name.subrange(d, name.len() as int))
    }
}

/// The path's last component is `name`.
pub open spec fn ends_with_component(path: Seq<char>, name: Seq<char>) -> bool {
    last_component(path) == name
}

/// `path` lies at or under `base`: `base` is a prefix of it that ends at a component
/// boundary.
pub open spec fn starts_with_component(path: Seq<char>, base: Seq<char>) -> bool {
    ||| base.len() == 0
    ||| {
        &&& base.len() <= path.len()
        &&& path.subrange(0, base.len() as int) == base
        &&& (path.len() == base.len() || is_sep(base.last()) || is_sep(path[base.len() as int]))
    }
}

/// The number of components among the first `k` characters of `s`.
pub open spec fn component_count(s: Seq<char>, k: int) -> nat
    decreases k,
{
    if k <= 0 {
        0
    } else {
        component_count(s, k - 1) + if !is_sep(s[k - 1]) && (k == 1 || is_sep(s[k - 2])) {
            1nat
        } else {
            0nat
        }
    }
}

/// How many components `path` has below `root`, when it lies under it.
pub open spec fn relative_depth(root: Seq<char>, path: Seq<char>) -> Option<nat> {
    if starts_with_component(path, root) {
        let rest = path.subrange(root.len() as int, path.len() as int);
        Some(component_count(rest, rest.len() as int))
    } else {
        None
    }
}

/// `path` is an entry directly inside `root`.
pub open spec fn is_direct_child(root: Seq<char>, path: Seq<char>) -> bool {
    relative_depth(root, path) == Some(1nat)
}

/// `path` is at most `max_depth` components below `root` (or not under it at all).
pub open spec fn within_depth(root: Seq<char>, path: Seq<char>, max_depth: nat) -> bool {
    match relative_depth(root, path) {
        Some(d) => d <= max_depth,
        None => true,
    }
}

/// The file is a driver or native module that a running program may hold open
/// (extension `sys` or `node`, in any ASCII case).
pub open spec fn is_runtime_protected(path: Seq<char>) -> bool {
    match extension(last_component(path)) {
        Some(e) => lower(e) == "node"@ || lower(e) == "sys"@,
        None => false,
    }
}

/// The file is a folder-settings file (`desktop.ini` in any ASCII case).
pub open spec fn is_desktop_ini(path: Seq<char>) -> bool {
    eq_ignore_case(last_component(path), "desktop.ini"@)
}

/// The file is a Recycle Bin record of where a deleted item came from (`$I...`).
pub open spec fn is_recycle_info_file(path: Seq<char>) -> bool {
    let name = last_component(path);
    name.len() >= 2 && name[0] == '$' && lower_char(name[1]) == 'i'
}

pub fn char_is_sep(c: char) -> (r: bool)
    ensures
        r == is_sep(c),
{
    c == '\\' || c == '/'
}

fn is_ascii_letter_char(c: char) -> (r: bool)
    ensures
        r == is_ascii_letter(c),
{
    ('a' <= c && c <= 'z') || ('A' <= c && c <= 'Z')
}

fn has_drive_at(s: &Vec<char>, at: usize) -> (r: bool)
    ensures
        r == has_drive(s@, at as int),
{
    at < s.len() && s.len() - at >= 2 && is_ascii_letter_char(s[at]) && s[at + 1] == ':'
}

fn separates(c: char, verbatim: bool) -> (r: bool)
    ensures
        r == if verbatim {
            c == '\\'
        } else {
            is_sep(c)
        },
{
    if verbatim {
        c == '\\'
    } else {
        char_is_sep(c)
    }
}

fn next_sep_index(s: &Vec<char>, from: usize, verbatim: bool) -> (r: usize)
    ensures
        r == next_sep(s@, from as int, verbatim),
        r <= s.len() || r == from,
{
    if from >= s.len() {
        return s.len();
    }
    let mut k = from;
    while k < s.len() && !separates(s[k], verbatim)
        invariant
            from <= k <= s.len(),
            next_sep(s@, from as int, verbatim) == next_sep(s@, k as int, verbatim),
        decreases s.len() - k,
    {
        k = k + 1;
    }
    k
}

/// The length of the Windows prefix that `s` starts with.
fn prefix_length(s: &Vec<char>) -> (r: usize)
    ensures
        r == prefix_len(s@),
        r <= s.len(),
{
    let n = s.len();
    if n >= 2 && char_is_sep(s[0]) && char_is_sep(s[1]) {
        if n >= 4 && s[0] == '\\' && s[1] == '\\' && s[2] == '?' && s[3] == '\\' {
            if n >= 8 && s[4] == 'U' && s[5] == 'N' && s[6] == 'C' && char_is_sep(s[7]) {
                let server_end = next_sep_index(s, 8, true);
                if server_end < n {
                    let share_end = next_sep_index(s, server_end + 1, true);
                    if share_end > server_end + 1 {
                        return share_end;
                    }
                }
                server_end
            } else if has_drive_at(s, 4) && (n == 6 || s[6] == '\\') {
                6
            } else {
                next_sep_index(s, 4, true)
            }
        } else if n >= 4 && s[2] == '.' && char_is_sep(s[3]) {
            next_sep_index(s, 4, false)
        } else {
            let server_end = next_sep_index(s, 2, false);
            if server_end > 2 && server_end < n {
                let share_end = next_sep_index(s, server_end + 1, false);
                if share_end > server_end + 1 {
                    return share_end;
                }
            }
            0
        }
    } else if has_drive_at(s, 0) {
        2
    } else {
        0
    }
}

/// `base` joined with the relative path `child`.
pub fn join_path(base: &str, child: &str) -> (r: String)
    ensures
        r@ == join(base@, child@),
{
    let b = chars_of(base);
    let n = b.len();
    if n >= 4 && b[0] == '\\' && b[1] == '\\' && b[2] == '?' && b[3] == '\\' {
        return verbatim_join(&b, &chars_of(child));
    }
    let mut r = String::from_str(base);
    if n == 0 {
        return String::from_str(child);
    }
    if !char_is_sep(b[n - 1]) && !(n == 2 && has_drive_at(&b, 0)) {
        push_char(&mut r, '\\');
    }
    r.append(child);
    r
}

/// Appends `c` to the squeezed text `out`.
fn squeeze_push(out: &mut Vec<char>, c: char, Ghost(before): Ghost<Seq<char>>)
    requires
        old(out)@ == squeezed(before),
    ensures
        final(out)@ == squeezed(before.push(c)),
{
    assert(before.push(c).drop_last() =~= before);
    if c == '\\' {
        if out.len() == 0 || out[out.len() - 1] == '\\' {
        } else {
            out.push('\\');
        }
    } else {
        out.push(c);
    }
}

fn verbatim_join(b: &Vec<char>, c: &Vec<char>) -> (r: String)
    requires
        is_verbatim(b@),
    ensures
        r@ == join(b@, c@),
{
    let pl = prefix_length(b);
    let ghost input = b@.subrange(pl as int, b.len() as int) + seq!['\\'] + backslashed(c@);
    let mut out: Vec<char> = Vec::new();
    let ghost mut seen: Seq<char> = Seq::empty();
    assert(squeezed(seen) =~= Seq::<char>::empty());
    let mut i = pl;
    while i < b.len()
        invariant
            pl <= i <= b.len(),
            seen == b@.subrange(pl as int, i as int),
            out@ == squeezed(seen),
        decreases b.len() - i,
    {
        squeeze_push(&mut out, b[i], Ghost(seen));
        proof {
            seen = seen.push(b@[i as int]);
            assert(seen =~= b@.subrange(pl as int, i + 1));
        }
        i = i + 1;
    }
    squeeze_push(&mut out, '\\', Ghost(seen));
    proof {
        seen = seen.push('\\');
    }
    let ghost mid = seen;
    let mut k: usize = 0;
    while k < c.len()
        invariant
            k <= c.len(),
            seen == mid + backslashed(c@).take(k as int),
            out@ == squeezed(seen),
        decreases c.len() - k,
    {
        let ch = if c[k] == '/' {
            '\\'
        } else {
            c[k]
        };
        squeeze_push(&mut out, ch, Ghost(seen));
        proof {
            seen = seen.push(ch);
            assert(seen =~= mid + backslashed(c@).take(k + 1));
        }
        k = k + 1;
    }
    assert(backslashed(c@).take(c.len() as int) =~= backslashed(c@));
    assert(seen =~= input);
    if out.len() > 0 && out[out.len() - 1] == '\\' {
        out.pop();
    }
    let mut r = String::new();
    let mut j: usize = 0;
    while j < pl
        invariant
            pl <= b.len(),
            j <= pl,
            r@ == b@.subrange(0, j as int),
        decreases pl - j,
    {
        push_char(&mut r, b[j]);
        assert(b@.subrange(0, j + 1) =~= b@.subrange(0, j as int).push(b@[j as int]));
        j = j + 1;
    }
    push_char(&mut r, '\\');
    let tail = string_of(&out);
    r.append(tail.as_str());
    assert(r@ =~= join(b@, c@));
    r
}

/// The root of the drive that `drive` names (`drive` joined with `\`).
pub fn drive_root_path(drive: &str) -> (r: String)
    ensures
        r@ == drive_root(drive@),
{
    let b = chars_of(drive);
    let n = prefix_length(&b);
    let mut r = String::new();
    let mut i: usize = 0;
    while i < n
        invariant
            n == prefix_len(b@),
            n <= b.len(),
            i <= n,
            r@ == b@.subrange(0, i as int),
        decreases n - i,
    {
        push_char(&mut r, b[i]);
        assert(b@.subrange(0, i + 1) =~= b@.subrange(0, i as int).push(b@[i as int]));
        i = i + 1;
    }
    push_char(&mut r, '\\');
    r
}

fn trimmed_end_of(s: &Vec<char>) -> (e: usize)
    ensures
        e == trimmed_end(s@, s.len() as int),
        e <= s.len(),
{
    let mut k = s.len();
    while k > 0 && char_is_sep(s[k - 1])
        invariant
            k <= s.len(),
            trimmed_end(s@, k as int) == trimmed_end(s@, s.len() as int),
        decreases k,
    {
        k = k - 1;
    }
    k
}

fn component_start_of(s: &Vec<char>, e: usize) -> (b: usize)
    requires
        e <= s.len(),
    ensures
        b == component_start(s@, e as int),
        b <= e,
{
    let mut k = e;
    while k > 0 && !char_is_sep(s[k - 1])
        invariant
            k <= e <= s.len(),
            component_start(s@, k as int) == component_start(s@, e as int),
        decreases k,
    {
        k = k - 1;
    }
    k
}

fn slice_chars(s: &Vec<char>, from: usize, to: usize) -> (r: Vec<char>)
    requires
        from <= to <= s.len(),
    ensures
        r@ == s@.subrange(from as int, to as int),
{
    let mut r: Vec<char> = Vec::new();
    let mut i = from;
    while i < to
        invariant
            from <= i <= to <= s.len(),
            r@ == s@.subrange(from as int, i as int),
        decreases to - i,
    {
        r.push(s[i]);
        assert(s@.subrange(from as int, i + 1) =~= s@.subrange(from as int, i as int).push(s@[i as int]));
        i = i + 1;
    }
    r
}

/// The last component of a path.
pub fn last_component_of(s: &Vec<char>) -> (r: Vec<char>)
    ensures
        r@ == last_component(s@),
{
    let e = trimmed_end_of(s);
    let b = component_start_of(s, e);
    slice_chars(s, b, e)
}

/// The extension of a file name.
pub fn extension_of(name: &Vec<char>) -> (r: Option<Vec<char>>)
    ensures
        match r {
            Some(v) => extension(name@) == Some(v@),
            None => extension(name@) is None,
        },
{
    let mut k = name.len();
    while k > 0 && name[k - 1] != '.'
        invariant
            k <= name.len(),
            after_last_dot(name@, k as int) == after_last_dot(name@, name.len() as int),
        decreases k,
    {
        k = k - 1;
    }
    if k <= 1 {
        None
    } else {
        Some(slice_chars(name, k, name.len()))
    }
}

/// Whether the path's last component is `name`.
pub fn path_ends_with_component(path: &str, name: &str) -> (r: bool)
    ensures
        r == ends_with_component(path@, name@),
{
    let p = chars_of(path);
    let n = chars_of(name);
    let last = last_component_of(&p);
    chars_eq(&last, &n)
}

/// Whether `path` lies at or under `base`.
pub fn path_starts_with(path: &Vec<char>, base: &Vec<char>) -> (r: bool)
    ensures
        r == starts_with_component(path@, base@),
{
    if base.len() == 0 {
        return true;
    }
    if base.len() > path.len() {
        return false;
    }
    for i in 0..base.len()
        invariant
            0 < base.len() <= path.len(),
            forall|j: int| 0 <= j < i ==> #[trigger] path@[j] == base@[j],
    {
        if path[i] != base[i] {
            assert(path@.subrange(0, base.len() as int)[i as int] != base@[i as int]);
            return false;
        }
    }
    assert(path@.subrange(0, base.len() as int) =~= base@);
    path.len() == base.len() || char_is_sep(base[base.len() - 1]) || char_is_sep(path[base.len()])
}

fn count_components(s: &Vec<char>) -> (n: usize)
    ensures
        n == component_count(s@, s.len() as int),
{
    let mut n: usize = 0;
    for k in 0..s.len()
        invariant
            n == component_count(s@, k as int),
            n <= k,
    {
        if !char_is_sep(s[k]) && (k == 0 || char_is_sep(s[k - 1])) {
            n = n + 1;
        }
    }
    n
}

/// How many components `path` has below `root`.
pub fn relative_depth_of(root: &Vec<char>, path: &Vec<char>) -> (r: Option<usize>)
    ensures
        match r {
            Some(d) => relative_depth(root@, path@) == Some(d as nat),
            None => relative_depth(root@, path@) is None,
        },
{
    if !path_starts_with(path, root) {
        return None;
    }
    let rest = slice_chars(path, root.len(), path.len());
    Some(count_components(&rest))
}

/// Whether `path` is directly inside `root`.
pub fn direct_child(root: &Vec<char>, path: &Vec<char>) -> (r: bool)
    ensures
        r == is_direct_child(root@, path@),
{
    match relative_depth_of(root, path) {
        Some(d) => d == 1,
        None => false,
    }
}

/// Whether `path` is at most `max_depth` components below `root`.
pub fn within_suggestion_depth(root: &Vec<char>, path: &Vec<char>, max_depth: usize) -> (r: bool)
    ensures
        r == within_depth(root@, path@, max_depth as nat),
{
    match relative_depth_of(root, path) {
        Some(d) => d <= max_depth,
        None => true,
    }
}

/// Whether the file is a driver or native module that must not be deleted while in use.
pub fn runtime_protected(path: &Vec<char>) -> (r: bool)
    ensures
        r == is_runtime_protected(path@),
{
    let name = last_component_of(path);
    match extension_of(&name) {
        Some(e) => {
            let l = lower_chars(&e);
            let node = chars_of("node");
            let sys = chars_of("sys");
            chars_eq(&l, &node) || chars_eq(&l, &sys)
        },
        None => false,
    }
}

/// Whether the file is a `desktop.ini` settings file.
pub fn desktop_ini(path: &Vec<char>) -> (r: bool)
    ensures
        r == is_desktop_ini(path@),
{
    let name = last_component_of(path);
    let ini = chars_of("desktop.ini");
    crate::text::chars_eq_ignore_case(&name, &ini)
}

/// Whether the file is a Recycle Bin `$I` record.
pub fn recycle_info_file(path: &Vec<char>) -> (r: bool)
    ensures
        r == is_recycle_info_file(path@),
{
    let name = last_component_of(path);
    name.len() >= 2 && name[0] == '$' && crate::text::to_lower_char(name[1]) == 'i'
}

proof fn lemma_component_start_bounds(s: Seq<char>, k: int)
    requires
        0 <= k <= s.len(),
    ensures
        0 <= component_start(s, k) <= k,
        component_start(s, k) == 0 || is_sep(s[component_start(s, k) - 1]),
    decreases k,
{
    if k > 0 && !is_sep(s[k - 1]) {
        lemma_component_start_bounds(s, k - 1);
    }
}

/// When no separator stands in `[m, k)` the component ending at `k` starts at or before `m`.
proof fn lemma_component_start_before(s: Seq<char>, k: int, m: int)
    requires
        0 <= m <= k <= s.len(),
        forall|j: int| m <= j < k ==> !is_sep(#[trigger] s[j]),
    ensures
        component_start(s, k) <= m,
    decreases k,
{
    if k > m {
        assert(!is_sep(s[k - 1]));
        lemma_component_start_before(s, k - 1, m);
    } else {
        lemma_component_start_bounds(s, k);
    }
}

/// The dot at `m - 1` is the last one among the first `k` characters.
proof fn lemma_after_last_dot_at(s: Seq<char>, k: int, m: int)
    requires
        1 <= m <= k <= s.len(),
        s[m - 1] == '.',
        forall|j: int| m <= j < k ==> #[trigger] s[j] != '.',
    ensures
        after_last_dot(s, k) == m,
    decreases k,
{
    if k > m {
        lemma_after_last_dot_at(s, k - 1, m);
    }
}

/// A file named `stem.ext` has the extension `ext`, whatever the folders before it,
/// when `ext` holds no dot or separator and the name has a character before the dot.
pub proof fn lemma_extension_of_dotted_name(stem: Seq<char>, ext: Seq<char>)
    requires
        stem.len() > 0,
        !is_sep(stem.last()),
        ext.len() > 0,
        forall|i: int| 0 <= i < ext.len() ==> #[trigger] ext[i] != '.' && !is_sep(ext[i]),
    ensures
        extension(last_component(stem + seq!['.'] + ext)) == Some(ext),
{
    let s = stem + seq!['.'] + ext;
    let n = s.len() as int;
    let sl = stem.len() as int;
    assert(s[n - 1] == ext[ext.len() - 1]);
    assert(trimmed_end(s, n) == n);
    assert forall|j: int| sl - 1 <= j < n implies !is_sep(#[trigger] s[j]) by {
        if j == sl - 1 {
            assert(s[j] == stem.last());
        } else if j == sl {
            assert(s[j] == '.');
        } else {
            assert(s[j] == ext[j - sl - 1]);
        }
    }
    lemma_component_start_before(s, n, sl - 1);
    lemma_component_start_bounds(s, n);
    let cs = component_start(s, n);
    let name = s.subrange(cs, n);
    assert(last_component(s) == name);
    let m = sl - cs + 1;
    assert(name[m - 1] == '.');
    assert forall|j: int| m <= j < name.len() implies #[trigger] name[j] != '.' by {
        assert(name[j] == ext[j - m]);
    }
    lemma_after_last_dot_at(name, name.len() as int, m);
    assert(name.subrange(m, name.len() as int) =~= ext);
}

/// A file is runtime protected exactly when its extension is `node` or `sys` in any
/// ASCII case: for a file `stem.ext`, protection depends on `ext` alone, and both a
/// native module (`addon.node`, `ADDON.NODE`) and a driver (`x.sys`) are protected.
pub proof fn lemma_runtime_protected_by_extension(stem: Seq<char>, ext: Seq<char>)
    requires
        stem.len() > 0,
        !is_sep(stem.last()),
        ext.len() > 0,
        forall|i: int| 0 <= i < ext.len() ==> #[trigger] ext[i] != '.' && !is_sep(ext[i]),
    ensures
        is_runtime_protected(stem + seq!['.'] + ext) <==> (lower(ext) == seq!['n', 'o', 'd', 'e']
            || lower(ext) == seq!['s', 'y', 's']),
        lower(ext) == seq!['n', 'o', 'd', 'e'] ==> is_runtime_protected(stem + seq!['.'] + ext),
{
    reveal_strlit("node");
    reveal_strlit("sys");
    lemma_extension_of_dotted_name(stem, ext);
    assert("node"@ =~= seq!['n', 'o', 'd', 'e']);
    assert("sys"@ =~= seq!['s', 'y', 's']);
}

/// The last component of `dir\name` is `name`, for a name without separators.
pub proof fn lemma_last_component_of_child(dir: Seq<char>, name: Seq<char>)
    requires
        name.len() > 0,
        forall|i: int| 0 <= i < name.len() ==> !is_sep(#[trigger] name[i]),
    ensures
        last_component(dir + seq!['\\'] + name) == name,
{
    let s = dir + seq!['\\'] + name;
    let n = s.len() as int;
    let dl = dir.len() as int;
    assert(s[n - 1] == name[name.len() - 1]);
    assert(trimmed_end(s, n) == n);
    assert forall|j: int| dl + 1 <= j < n implies !is_sep(#[trigger] s[j]) by {
        assert(s[j] == name[j - dl - 1]);
    }
    lemma_component_start_before(s, n, dl + 1);
    lemma_component_start_bounds(s, n);
    let cs = component_start(s, n);
    if cs < dl + 1 {
        lemma_component_start_stops(s, n, dl);
        assert(s[dl] == '\\');
    }
    assert(cs == dl + 1);
    assert(s.subrange(dl + 1, n) =~= name);
}

/// The component ending at `k` spans only non-separators.
proof fn lemma_component_start_stops(s: Seq<char>, k: int, j: int)
    requires
        0 <= k <= s.len(),
        component_start(s, k) <= j < k,
    ensures
        !is_sep(s[j]),
    decreases k,
{
    if k > 0 && !is_sep(s[k - 1]) {
        if j < k - 1 {
            lemma_component_start_stops(s, k - 1, j);
        }
    }
}

/// A file directly in any folder is the folder-settings file exactly when its name is
/// `desktop.ini` in any ASCII case, and a Recycle Bin name record exactly when its name
/// starts with `$I` or `$i`.
pub proof fn lemma_bin_bookkeeping_files_by_name(dir: Seq<char>, name: Seq<char>)
    requires
        name.len() > 0,
        forall|i: int| 0 <= i < name.len() ==> !is_sep(#[trigger] name[i]),
    ensures
        is_desktop_ini(dir + seq!['\\'] + name) <==> lower(name) == lower("desktop.ini"@),
        is_recycle_info_file(dir + seq!['\\'] + name) <==> (name.len() >= 2 && name[0] == '$' && (
        name[1] == 'i' || name[1] == 'I')),
{
    lemma_last_component_of_child(dir, name);
    if name.len() >= 2 {
        let c = name[1];
        if 'A' <= c && c <= 'Z' {
            assert((c as u32) + 32 == ('i' as u32) <==> (c as u32) == ('I' as u32));
        }
        assert(lower_char(c) == 'i' <==> (c == 'i' || c == 'I'));
    }
}

} // verus!
