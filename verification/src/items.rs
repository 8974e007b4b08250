//! Building cleanup items, with their stable ids, and choosing items of a plan by id.

use std::hash::BuildHasher;
use vstd::prelude::*;
use crate::model::{CleanupItem, CleanupPlan, ItemView, PlanView, RiskLevel, item_views};
use crate::text::{lower, hex_digits, hex16, ascii_lowercase, blank, is_blank};

verus! {

/// What std's `DefaultHasher` makes of the lower-cased path, the size and the
/// category, hashed in that order.
pub uninterp spec fn item_key_hash(lower_path: Seq<char>, size_bytes: u64, category: Seq<char>) -> u64;

/// Hashes `(lower_path, size_bytes, category)` with std's `DefaultHasher` (through
/// `BuildHasher::hash_one` on a default-built hasher, which hashes the three fields in
/// order, as successive `Hash::hash` calls do). The contract names the result: the
/// same values give the same hash in a given build. The hash algorithm itself is not
/// stated.
#[verifier::external_body]
fn hash_item_key(lower_path: &str, size_bytes: u64, category: &str) -> (h: u64)
    ensures
        h == item_key_hash(lower_path@, size_bytes, category@),
{
    std::hash::BuildHasherDefault::<std::hash::DefaultHasher>::default().hash_one(
        (lower_path, size_bytes, category),
    )
}

/// The id of an item: sixteen hexadecimal digits of the hash of its lower-cased path,
/// its size and its category.
pub open spec fn item_id(path: Seq<char>, size_bytes: u64, category: Seq<char>) -> Seq<char> {
    hex_digits(item_key_hash(lower(path), size_bytes, category) as nat, 16)
}

/// The item a scan records for `path`.
pub open spec fn item_view(
    path: Seq<char>,
    size_bytes: u64,
    category: Seq<char>,
    risk: RiskLevel,
    default_selected: bool,
    reason: Seq<char>,
) -> ItemView {
    ItemView {
        id: item_id(path, size_bytes, category),
        path,
        size_bytes,
        category,
        risk,
        default_selected,
        reason,
    }
}

/// The id of the item for `path`, `size_bytes` and `category`.
pub fn cleanup_item_id(path: &str, size_bytes: u64, category: &str) -> (id: String)
    ensures
        id@ == item_id(path@, size_bytes, category@),
{
    let lower_path = ascii_lowercase(path);
    let h = hash_item_key(lower_path.as_str(), size_bytes, category);
    hex16(h)
}

/// A cleanup item with its id.
pub fn cleanup_item(
    path: &str,
    size_bytes: u64,
    category: &str,
    risk: RiskLevel,
    default_selected: bool,
    reason: &str,
) -> (item: CleanupItem)
    ensures
        item@ == item_view(path@, size_bytes, category@, risk, default_selected, reason@),
{
    CleanupItem {
        id: cleanup_item_id(path, size_bytes, category),
        path: String::from_str(path),
        size_bytes,
        category: String::from_str(category),
        risk,
        default_selected,
        reason: String::from_str(reason),
    }
}

/// The first position at or after `from` of an item with this id.
pub open spec fn first_with_id(items: Seq<ItemView>, id: Seq<char>, from: int) -> Option<int>
    decreases items.len() - from,
{
    if from < 0 || from >= items.len() {
        None
    } else if items[from].id == id {
        Some(from)
    } else {
        first_with_id(items, id, from + 1)
    }
}

/// The item with this id: the first among the plan's items, else the first among its
/// suggestions.
pub open spec fn resolve_id(plan: PlanView, id: Seq<char>) -> Option<ItemView> {
    match first_with_id(plan.items, id, 0) {
        Some(i) => Some(plan.items[i]),
        None => match first_with_id(plan.suggestions, id, 0) {
            Some(i) => Some(plan.suggestions[i]),
            None => None,
        },
    }
}

/// The item as chosen for cleanup.
pub open spec fn selected(item: ItemView) -> ItemView {
    ItemView { default_selected: true, ..item }
}

/// What one requested id gives: the chosen item, or the error that stops the choice.
pub open spec fn select_one(plan: PlanView, id: Seq<char>) -> Result<ItemView, Seq<char>> {
    if blank(id) {
        Err("cleanup item id cannot be empty"@)
    } else {
        match resolve_id(plan, id) {
            Some(item) => Ok(selected(item)),
            None => Err("unknown cleanup item id: "@ + id),
        }
    }
}

/// The items chosen by `ids`, in the order asked; the first bad id stops the choice.
pub open spec fn selection(plan: PlanView, ids: Seq<Seq<char>>) -> Result<Seq<ItemView>, Seq<char>>
    decreases ids.len(),
{
    if ids.len() == 0 {
        Ok(Seq::empty())
    } else {
        match selection(plan, ids.drop_last()) {
            Err(e) => Err(e),
            Ok(prev) => match select_one(plan, ids.last()) {
                Err(e) => Err(e),
                Ok(item) => Ok(prev.push(item)),
            },
        }
    }
}

proof fn lemma_selection_error_stays(plan: PlanView, ids: Seq<Seq<char>>, k: int, e: Seq<char>)
    requires
        0 <= k <= ids.len(),
        selection(plan, ids.take(k)) == Err::<Seq<ItemView>, Seq<char>>(e),
    ensures
        selection(plan, ids) == Err::<Seq<ItemView>, Seq<char>>(e),
    decreases ids.len() - k,
{
    if k < ids.len() {
        assert(ids.take(k + 1).drop_last() =~= ids.take(k));
        lemma_selection_error_stays(plan, ids, k + 1, e);
    } else {
        assert(ids.take(k) =~= ids);
    }
}

fn find_by_id(items: &Vec<CleanupItem>, id: &String) -> (r: Option<usize>)
    ensures
        match r {
            Some(i) => first_with_id(item_views(items@), id@, 0) == Some(i as int) && i
                < items.len(),
            None => first_with_id(item_views(items@), id@, 0) is None,
        },
{
    let ghost views = item_views(items@);
    let mut i: usize = 0;
    while i < items.len()
        invariant
            views == item_views(items@),
            i <= items.len(),
            first_with_id(views, id@, 0) == first_with_id(views, id@, i as int),
        decreases items.len() - i,
    {
        if items[i].id == *id {
            return Some(i);
        }
        i = i + 1;
    }
    None
}

/// The items of `plan` (or else its suggestions) with the ids asked for, in the order
/// asked, each marked as selected. An empty or blank id, or one that the plan does not
/// hold, is refused with a message.
pub fn selected_items_from_plan(plan: &CleanupPlan, item_ids: &Vec<String>) -> (r: Result<
    Vec<CleanupItem>,
    String,
>)
    ensures
        match r {
            Ok(items) => selection(plan@, item_ids.deep_view()) == Ok::<Seq<ItemView>, Seq<char>>(
                item_views(items@),
            ),
            Err(e) => selection(plan@, item_ids.deep_view()) == Err::<Seq<ItemView>, Seq<char>>(
                e@,
            ),
        },
{
    let ghost ids = item_ids.deep_view();
    let mut chosen: Vec<CleanupItem> = Vec::new();
    assert(ids.take(0) =~= Seq::<Seq<char>>::empty());
    assert(item_views(chosen@) =~= Seq::<ItemView>::empty());
    for i in 0..item_ids.len()
        invariant
            ids == item_ids.deep_view(),
            selection(plan@, ids.take(i as int)) == Ok::<Seq<ItemView>, Seq<char>>(
                item_views(chosen@),
            ),
    {
        let id = &item_ids[i];
        assert(ids.take(i + 1).drop_last() =~= ids.take(i as int));
        assert(ids.take(i + 1).last() == id@);
        if is_blank(id.as_str()) {
            let e = String::from_str("cleanup item id cannot be empty");
            proof {
                lemma_selection_error_stays(plan@, ids, i + 1, e@);
            }
            return Err(e);
        }
        let found = match find_by_id(&plan.items, id) {
            Some(k) => Some(&plan.items[k]),
            None => match find_by_id(&plan.suggestions, id) {
                Some(k) => Some(&plan.suggestions[k]),
                None => None,
            },
        };
        match found {
            Some(item) => {
                let mut item = item.duplicate();
                item.default_selected = true;
                let ghost before = chosen@;
                chosen.push(item);
                assert(item_views(chosen@) =~= item_views(before).push(item@));
            },
            None => {
                let mut e = String::from_str("unknown cleanup item id: ");
                e.append(id.as_str());
                proof {
                    lemma_selection_error_stays(plan@, ids, i + 1, e@);
                }
                return Err(e);
            },
        }
    }
    assert(ids.take(item_ids.len() as int) =~= ids);
    Ok(chosen)
}

proof fn lemma_first_with_id_found(items: Seq<ItemView>, id: Seq<char>, from: int)
    requires
        first_with_id(items, id, from) is Some,
    ensures
        ({
            let i = first_with_id(items, id, from)->0;
            &&& 0 <= from <= i < items.len()
            &&& items[i].id == id
        }),
    decreases items.len() - from,
{
    if 0 <= from < items.len() && items[from].id != id {
        lemma_first_with_id_found(items, id, from + 1);
    }
}

/// The item chosen for `id` comes from the plan: it is one of the plan's items or one of
/// its suggestions, with this id, marked as selected.
pub open spec fn chosen_from(plan: PlanView, id: Seq<char>, item: ItemView) -> bool {
    &&& item.id == id
    &&& item.default_selected
    &&& ((exists|i: int| 0 <= i < plan.items.len() && item == selected(#[trigger] plan.items[i]))
        || (exists|i: int| 0 <= i < plan.suggestions.len() && item == selected(#[trigger] plan.suggestions[i])))
}

/// Only items that a scan put in the plan can be chosen for cleanup: a choice that
/// succeeds gives one item per requested id, in the order asked, each taken from the
/// plan's items or suggestions and marked as selected; a choice fails only when some
/// requested id is blank or names nothing in the plan.
pub proof fn lemma_selection_only_known_items(plan: PlanView, ids: Seq<Seq<char>>)
    ensures
        match selection(plan, ids) {
            Ok(s) => s.len() == ids.len() && forall|k: int| 0 <= k < s.len() ==> chosen_from(plan, ids[k], #[trigger] s[k]),
            Err(_) => exists|k: int| 0 <= k < ids.len() && (blank(#[trigger] ids[k]) || resolve_id(plan, ids[k]) is None),
        },
    decreases ids.len(),
{
    if ids.len() > 0 {
        let prev_ids = ids.drop_last();
        let id = ids.last();
        lemma_selection_only_known_items(plan, prev_ids);
        match selection(plan, prev_ids) {
            Err(_) => {
                let k = choose|k: int| 0 <= k < prev_ids.len() && (blank(#[trigger] prev_ids[k]) || resolve_id(plan, prev_ids[k]) is None);
                assert(ids[k] == prev_ids[k]);
            },
            Ok(prev) => {
                match select_one(plan, id) {
                    Err(_) => {
                        assert(ids[ids.len() - 1] == id);
                    },
                    Ok(item) => {
                        let s = prev.push(item);
                        match first_with_id(plan.items, id, 0) {
                            Some(i) => {
                                lemma_first_with_id_found(plan.items, id, 0);
                                assert(item == selected(plan.items[i]));
                            },
                            None => {
                                lemma_first_with_id_found(plan.suggestions, id, 0);
                                let i = first_with_id(plan.suggestions, id, 0)->0;
                                assert(item == selected(plan.suggestions[i]));
                            },
                        }
                        assert(chosen_from(plan, id, item));
                        assert forall|k: int| 0 <= k < s.len() implies chosen_from(plan, ids[k], #[trigger] s[k]) by {
                            if k < prev.len() {
                                assert(s[k] == prev[k]);
                                assert(ids[k] == prev_ids[k]);
                            } else {
                                assert(s[k] == item);
                            }
                        }
                    },
                }
            },
        }
    }
}

/// The plan that cleans exactly `items`, in order, each marked as selected (the items a
/// user confirmed); it has no suggestions, backups or skipped entries, and no byte
/// totals.
pub fn confirmed_cleanup_plan(items: Vec<CleanupItem>) -> (plan: CleanupPlan)
    ensures
        plan@.items == item_views(items@).map_values(|v: ItemView| selected(v)),
        plan@.suggestions.len() == 0,
        plan@.system_backups.len() == 0,
        plan@.skipped.len() == 0,
        plan@.reclaimable_bytes == 0,
        plan@.suggested_bytes == 0,
{
    let mut chosen: Vec<CleanupItem> = Vec::new();
    let ghost all = items@;
    let n = items.len();
    for k in 0..n
        invariant
            n == items.len(),
            items@ == all,
            chosen@.len() == k,
            forall|j: int| 0 <= j < k ==> #[trigger] chosen@[j]@ == selected(all[j]@),
    {
        let mut item = items[k].duplicate();
        item.default_selected = true;
        chosen.push(item);
    }
    let plan = CleanupPlan {
        items: chosen,
        suggestions: Vec::new(),
        system_backups: Vec::new(),
        skipped: Vec::new(),
        reclaimable_bytes: 0,
        suggested_bytes: 0,
    };
    assert(plan@.items =~= item_views(all).map_values(|v: ItemView| selected(v)));
    plan
}

} // verus!
