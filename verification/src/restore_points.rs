//! System restore points, as the volume shadow copy tool lists them.

use vstd::prelude::*;
use crate::model::{CleanupPlan, RiskLevel, item_views};
use crate::items::{cleanup_item, item_view};
use crate::text::{lower, contains, decimal, chars_of, lower_chars, contains_chars, decimal_string};

verus! {

/// The text cut at each line feed (the last piece may be empty). A piece holds a
/// non-empty pattern without line breaks exactly when the line that std's
/// `str::lines` gives for it does.
pub open spec fn line_pieces(s: Seq<char>) -> Seq<Seq<char>>
    decreases s.len(),
{
    if s.len() == 0 {
        seq![Seq::empty()]
    } else {
        let prev = line_pieces(s.drop_last());
        if s.last() == '\n' {
            prev.push(Seq::empty())
        } else {
            prev.update(prev.len() - 1, prev.last().push(s.last()))
        }
    }
}

proof fn lemma_line_pieces_nonempty(s: Seq<char>)
    ensures
        line_pieces(s).len() >= 1,
    decreases s.len(),
{
    if s.len() > 0 {
        lemma_line_pieces_nonempty(s.drop_last());
    }
}

/// A line of the English listing names a shadow copy.
pub open spec fn english_record(line: Seq<char>) -> bool {
    contains(lower(line), "shadow copy id"@)
}

/// A line of the Chinese listing names a shadow copy (any of its three wordings).
pub open spec fn chinese_record(line: Seq<char>) -> bool {
    ||| contains(line, "卷影复制 ID"@)
    ||| contains(line, "卷影副本 ID"@)
    ||| contains(line, "影子副本 ID"@)
}

/// How many of `lines` name a shadow copy, in English or in Chinese.
pub open spec fn count_records(lines: Seq<Seq<char>>, english: bool) -> nat
    decreases lines.len(),
{
    if lines.len() == 0 {
        0
    } else {
        count_records(lines.drop_last(), english) + if (english && english_record(lines.last())) || (
        !english && chinese_record(lines.last())) {
            1nat
        } else {
            0nat
        }
    }
}

/// The number of restore points in a listing: its English records, or, when there are
/// none, its Chinese ones.
pub open spec fn restore_point_count(output: Seq<char>) -> nat {
    let lines = line_pieces(output);
    if count_records(lines, true) > 0 {
        count_records(lines, true)
    } else {
        count_records(lines, false)
    }
}

/// Counts the restore points in the listing `output` of `vssadmin list shadows`.
pub fn parse_restore_point_count(output: &str) -> (n: usize)
    ensures
        n == restore_point_count(output@),
{
    let s = chars_of(output);
    let english_pat = chars_of("shadow copy id");
    let zh1 = chars_of("卷影复制 ID");
    let zh2 = chars_of("卷影副本 ID");
    let zh3 = chars_of("影子副本 ID");
    let ghost mut done: Seq<Seq<char>> = Seq::empty();
    let mut cur: Vec<char> = Vec::new();
    let mut english: usize = 0;
    let mut chinese: usize = 0;
    assert(s@.take(0) =~= Seq::<char>::empty());
    for i in 0..s.len()
        invariant
            s@ == output@,
            english_pat@ == "shadow copy id"@,
            zh1@ == "卷影复制 ID"@,
            zh2@ == "卷影副本 ID"@,
            zh3@ == "影子副本 ID"@,
            line_pieces(s@.take(i as int)) == done.push(cur@),
            english == count_records(done, true),
            chinese == count_records(done, false),
            english <= done.len(),
            chinese <= done.len(),
            done.len() + cur@.len() <= i,
    {
        assert(s@.take(i + 1).drop_last() =~= s@.take(i as int));
        let c = s[i];
        if c == '\n' {
            let l = lower_chars(&cur);
            let is_en = contains_chars(&l, &english_pat);
            let is_zh = contains_chars(&cur, &zh1) || contains_chars(&cur, &zh2) || contains_chars(
                &cur,
                &zh3,
            );
            proof {
                assert(done.push(cur@).drop_last() =~= done);
                done = done.push(cur@);
            }
            if is_en {
                english = english + 1;
            }
            if is_zh {
                chinese = chinese + 1;
            }
            cur = Vec::new();
            assert(line_pieces(s@.take(i + 1)) =~= done.push(cur@));
        } else {
            let ghost old_cur = cur@;
            cur.push(c);
            assert(line_pieces(s@.take(i + 1)) =~= done.push(cur@));
        }
    }
    assert(s@.take(s.len() as int) =~= s@);
    let l = lower_chars(&cur);
    let ghost all = done.push(cur@);
    proof {
        reveal_strlit("shadow copy id");
        reveal_strlit("卷影复制 ID");
        reveal_strlit("卷影副本 ID");
        reveal_strlit("影子副本 ID");
        if contains(l@, english_pat@) {
            let k = choose|k: int| crate::text::occurs_at(l@, english_pat@, k);
            assert(l@.len() >= 1);
        }
        if contains(cur@, zh1@) {
            let k = choose|k: int| crate::text::occurs_at(cur@, zh1@, k);
        }
        if contains(cur@, zh2@) {
            let k = choose|k: int| crate::text::occurs_at(cur@, zh2@, k);
        }
        if contains(cur@, zh3@) {
            let k = choose|k: int| crate::text::occurs_at(cur@, zh3@, k);
        }
    }
    assert(all.drop_last() =~= done);
    if contains_chars(&l, &english_pat) {
        english = english + 1;
    }
    if contains_chars(&cur, &zh1) || contains_chars(&cur, &zh2) || contains_chars(&cur, &zh3) {
        chinese = chinese + 1;
    }
    if english > 0 {
        english
    } else {
        chinese
    }
}

/// What a listing makes of the plan's system backups: one entry telling how many
/// restore points exist, when the listing succeeded and names any.
pub open spec fn backup_entries(succeeded: bool, output: Seq<char>) -> Seq<crate::model::ItemView> {
    let count = restore_point_count(output);
    if !succeeded || count == 0 {
        Seq::empty()
    } else {
        seq![
            item_view(
                "system-restore-points"@,
                0,
                "System restore points"@,
                RiskLevel::High,
                false,
                "Detected "@ + decimal(count)
                    + " system restore point or shadow copy record. Review carefully before using Windows Disk Cleanup or System Protection settings."@,
            ),
        ]
    }
}

/// Adds to the plan what the restore point listing `output` shows; `succeeded` tells
/// whether the listing tool ran and reported success.
pub fn append_system_backups(plan: &mut CleanupPlan, succeeded: bool, output: &str)
    ensures
        final(plan)@.system_backups == old(plan)@.system_backups + backup_entries(
            succeeded,
            output@,
        ),
        final(plan)@.items == old(plan)@.items,
        final(plan)@.suggestions == old(plan)@.suggestions,
        final(plan)@.skipped == old(plan)@.skipped,
        final(plan)@.reclaimable_bytes == old(plan)@.reclaimable_bytes,
        final(plan)@.suggested_bytes == old(plan)@.suggested_bytes,
{
    if !succeeded {
        assert(old(plan)@.system_backups + backup_entries(succeeded, output@) =~= old(
            plan,
        )@.system_backups);
        return;
    }
    let count = parse_restore_point_count(output);
    if count == 0 {
        assert(old(plan)@.system_backups + backup_entries(succeeded, output@) =~= old(
            plan,
        )@.system_backups);
        return;
    }
    let mut reason = String::from_str("Detected ");
    let digits = decimal_string(count);
    reason.append(digits.as_str());
    reason.append(
        " system restore point or shadow copy record. Review carefully before using Windows Disk Cleanup or System Protection settings.",
    );
    let item = cleanup_item(
        "system-restore-points",
        0,
        "System restore points",
        RiskLevel::High,
        false,
        reason.as_str(),
    );
    let ghost before = plan.system_backups@;
    plan.system_backups.push(item);
    assert(item_views(plan.system_backups@) =~= item_views(before).push(item@));
    assert(plan@.system_backups =~= old(plan)@.system_backups + backup_entries(succeeded, output@));
}

/// After a text that ends at a line break (or is empty), a last line `l` without line
/// breaks becomes one more piece.
proof fn lemma_line_pieces_append_line(t: Seq<char>, l: Seq<char>)
    requires
        t.len() == 0 || t.last() == '\n',
        forall|i: int| 0 <= i < l.len() ==> #[trigger] l[i] != '\n',
    ensures
        line_pieces(t).len() >= 1,
        line_pieces(t).last() == Seq::<char>::empty(),
        line_pieces(t + l) == line_pieces(t).drop_last().push(l),
    decreases l.len(),
{
    lemma_line_pieces_nonempty(t);
    if t.len() > 0 {
        lemma_line_pieces_nonempty(t.drop_last());
        assert(line_pieces(t) == line_pieces(t.drop_last()).push(Seq::<char>::empty()));
    } else {
        assert(line_pieces(t) == seq![Seq::<char>::empty()]);
    }
    assert(line_pieces(t).last() == Seq::<char>::empty());
    if l.len() == 0 {
        assert(t + l =~= t);
        assert(l =~= Seq::<char>::empty());
        assert(line_pieces(t).drop_last().push(l) =~= line_pieces(t));
    } else {
        let l0 = l.drop_last();
        assert forall|i: int| 0 <= i < l0.len() implies #[trigger] l0[i] != '\n' by {
            assert(l0[i] == l[i]);
        }
        lemma_line_pieces_append_line(t, l0);
        assert((t + l).drop_last() =~= t + l0);
        assert((t + l).last() == l.last());
        assert(l0.push(l.last()) =~= l);
        let prev = line_pieces(t + l0);
        assert(prev.update(prev.len() - 1, prev.last().push(l.last())) =~= line_pieces(t).drop_last().push(l));
    }
}

/// Each line of the English listing that names a shadow copy id counts as one restore
/// point, and no other line does: after a listing `t` that ends at a line break, a
/// further line `l` adds one to the English count exactly when its ASCII-lower-cased
/// text contains the phrase `shadow copy id` (so a `Shadow Copy Volume: ...` or
/// `Contents of shadow copy set ID: ...` line adds nothing). Once the listing holds an
/// English record, the restore point count is that English count.
pub proof fn lemma_english_count_adds_shadow_copy_id_lines(t: Seq<char>, l: Seq<char>)
    requires
        t.len() == 0 || t.last() == '\n',
        forall|i: int| 0 <= i < l.len() ==> #[trigger] l[i] != '\n',
    ensures
        count_records(line_pieces(t + l), true) == count_records(line_pieces(t), true) + if contains(
            lower(l),
            "shadow copy id"@,
        ) {
            1nat
        } else {
            0nat
        },
        count_records(line_pieces(t), true) > 0 ==> restore_point_count(t + l) == count_records(
            line_pieces(t),
            true,
        ) + if contains(lower(l), "shadow copy id"@) {
            1nat
        } else {
            0nat
        },
{
    reveal_strlit("shadow copy id");
    lemma_line_pieces_append_line(t, l);
    let pieces = line_pieces(t);
    let front = pieces.drop_last();
    assert(front.push(l).drop_last() =~= front);
    assert(pieces.drop_last() =~= front);
    let e = Seq::<char>::empty();
    assert(lower(e) =~= e);
    if contains(lower(e), "shadow copy id"@) {
        let k = choose|k: int| crate::text::occurs_at(lower(e), "shadow copy id"@, k);
        assert(false);
    }
    assert(!english_record(pieces.last()));
}

/// The same holds of a Chinese listing: after a listing `t` that ends at a line break,
/// a further line `l` adds one to the Chinese count exactly when it contains one of the
/// three wordings of "shadow copy ID"; and while no line is an English record, the
/// restore point count is the Chinese count.
pub proof fn lemma_chinese_count_adds_shadow_copy_id_lines(t: Seq<char>, l: Seq<char>)
    requires
        t.len() == 0 || t.last() == '\n',
        forall|i: int| 0 <= i < l.len() ==> #[trigger] l[i] != '\n',
    ensures
        count_records(line_pieces(t + l), false) == count_records(line_pieces(t), false) + if contains(
            l,
            "卷影复制 ID"@,
        ) || contains(l, "卷影副本 ID"@) || contains(l, "影子副本 ID"@) {
            1nat
        } else {
            0nat
        },
        count_records(line_pieces(t + l), true) == 0 ==> restore_point_count(t + l) == count_records(
            line_pieces(t + l),
            false,
        ),
{
    reveal_strlit("卷影复制 ID");
    reveal_strlit("卷影副本 ID");
    reveal_strlit("影子副本 ID");
    lemma_line_pieces_append_line(t, l);
    let pieces = line_pieces(t);
    let front = pieces.drop_last();
    assert(front.push(l).drop_last() =~= front);
    let e = Seq::<char>::empty();
    if contains(e, "卷影复制 ID"@) {
        let k = choose|k: int| crate::text::occurs_at(e, "卷影复制 ID"@, k);
        assert(false);
    }
    if contains(e, "卷影副本 ID"@) {
        let k = choose|k: int| crate::text::occurs_at(e, "卷影副本 ID"@, k);
        assert(false);
    }
    if contains(e, "影子副本 ID"@) {
        let k = choose|k: int| crate::text::occurs_at(e, "影子副本 ID"@, k);
        assert(false);
    }
    assert(!chinese_record(pieces.last()));
}

} // verus!
