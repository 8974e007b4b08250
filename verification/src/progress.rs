//! Progress percentages of a scan and of a cleanup.

use vstd::prelude::*;
use vstd::arithmetic::div_mod::{lemma_div_is_ordered, lemma_div_by_multiple};
use vstd::arithmetic::mul::lemma_mul_inequality;
use crate::model::ScanProgress;

verus! {

/// `a` capped at `cap`.
pub open spec fn min_int(a: int, cap: int) -> int {
    if a < cap {
        a
    } else {
        cap
    }
}

/// The share of `total` that `done` represents, in percent, at most 100; 100 when
/// there is nothing to do.
pub open spec fn percent_of(done: int, total: int) -> int {
    if total == 0 {
        100
    } else {
        min_int((done * 100) / total, 100)
    }
}

/// The percentage of a cleanup that has processed `processed_items` of `total_items`.
pub fn cleanup_percent(processed_items: u64, total_items: u64) -> (p: u8)
    requires
        processed_items * 100 <= u64::MAX,
    ensures
        p == percent_of(processed_items as int, total_items as int),
{
    if total_items == 0 {
        return 100;
    }
    let q = (processed_items * 100) / total_items;
    if q < 100 {
        q as u8
    } else {
        100
    }
}

pub proof fn lemma_percent_monotone(a: int, b: int, total: int)
    requires
        0 <= a <= b,
        0 <= total,
    ensures
        percent_of(a, total) <= percent_of(b, total),
        0 <= percent_of(a, total) <= 100,
{
    if total > 0 {
        lemma_mul_inequality(a, b, 100);
        lemma_div_is_ordered(a * 100, b * 100, total);
        assert(0 <= a * 100) by (nonlinear_arith)
            requires
                0 <= a,
        ;
        lemma_div_is_ordered(0, a * 100, total);
    }
}

pub proof fn lemma_percent_full(a: int, total: int)
    requires
        0 < total <= a,
    ensures
        percent_of(a, total) == 100,
{
    lemma_mul_inequality(total, a, 100);
    assert(total * 100 == 100 * total) by (nonlinear_arith);
    lemma_div_by_multiple(100, total);
    lemma_div_is_ordered(100 * total, a * 100, total);
}

/// The running state of a scan's progress reporting, with the records it has
/// produced so far.
pub struct ScanState {
    pub total_roots: usize,
    pub completed_roots: usize,
    pub scanned_files: u64,
    pub last_percent: u8,
    pub next_file_emit: u64,
    pub events: Vec<ScanProgress>,
}

/// The percentage reached when `roots` of the roots are done.
pub open spec fn root_percent_spec(total: usize, roots: int) -> int {
    percent_of(roots, total as int)
}

/// A scan progress record as values.
pub struct ScanRecord {
    pub percent: int,
    pub phase: Seq<char>,
    pub current_path: Seq<char>,
    pub scanned_files: int,
}

/// The progress state of a scan as values: the roots, the roots done, the files seen,
/// the last percentage, the file count at which the next record is due, and the
/// records so far.
pub struct ScanModel {
    pub total: int,
    pub completed: int,
    pub scanned: int,
    pub last: int,
    pub next_emit: int,
    pub records: Seq<ScanRecord>,
}

pub open spec fn scan_record(p: ScanProgress) -> ScanRecord {
    ScanRecord {
        percent: p.percent as int,
        phase: p.phase@,
        current_path: p.current_path@,
        scanned_files: p.scanned_files as int,
    }
}

/// The records as values.
pub open spec fn scan_records(events: Seq<ScanProgress>) -> Seq<ScanRecord> {
    events.map_values(|p: ScanProgress| scan_record(p))
}

pub open spec fn scan_model(s: ScanState) -> ScanModel {
    ScanModel {
        total: s.total_roots as int,
        completed: s.completed_roots as int,
        scanned: s.scanned_files as int,
        last: s.last_percent as int,
        next_emit: s.next_file_emit as int,
        records: scan_records(s.events@),
    }
}

/// The progress state of a scan of `total` roots before anything is reported.
pub open spec fn fresh_model(total: int) -> ScanModel {
    ScanModel { total, completed: 0, scanned: 0, last: 0, next_emit: 1, records: Seq::empty() }
}

/// Where the percentage stands inside the root being scanned: it climbs with every
/// 250 files seen (cycling every 2500), staying below the next root's percentage.
pub open spec fn percent_now(m: ScanModel) -> int {
    if m.total == 0 {
        100
    } else {
        let start = percent_of(m.completed, m.total);
        let end = percent_of(min_int(m.completed + 1, m.total), m.total);
        let span = if end > start {
            end - start
        } else {
            0
        };
        let within = (m.scanned % 2500) / 250;
        let room = if span > 1 {
            span - 1
        } else {
            0
        };
        start + min_int(within, room)
    }
}

pub open spec fn current_percent_spec(s: ScanState) -> int {
    percent_now(scan_model(s))
}

/// A record under `phase` for `path`, at the current percentage unless an earlier
/// record was higher.
pub open spec fn model_emit(m: ScanModel, phase: Seq<char>, path: Seq<char>) -> ScanModel {
    let p = if percent_now(m) < m.last {
        m.last
    } else {
        percent_now(m)
    };
    ScanModel {
        last: p,
        records: m.records.push(ScanRecord { percent: p, phase, current_path: path, scanned_files: m.scanned }),
        ..m
    }
}

/// A root's scan begins.
pub open spec fn model_begin(m: ScanModel, root: Seq<char>) -> ScanModel {
    model_emit(m, "Scanning"@, root)
}

/// One more file is seen at `path`.
pub open spec fn model_seen(m: ScanModel, path: Seq<char>) -> ScanModel {
    let n = m.scanned + 1;
    if n >= m.next_emit {
        model_emit(ScanModel { scanned: n, next_emit: n + 250, ..m }, "Scanning"@, path)
    } else {
        ScanModel { scanned: n, ..m }
    }
}

/// Files are seen at `paths`, in order.
pub open spec fn model_seen_all(m: ScanModel, paths: Seq<Seq<char>>) -> ScanModel
    decreases paths.len(),
{
    if paths.len() == 0 {
        m
    } else {
        model_seen(model_seen_all(m, paths.drop_last()), paths.last())
    }
}

/// A root's scan is over.
pub open spec fn model_finish(m: ScanModel, root: Seq<char>) -> ScanModel {
    let c = m.completed + 1;
    model_emit(ScanModel { completed: c, last: percent_of(c, m.total), ..m }, "Scanned"@, root)
}

/// The scan is over.
pub open spec fn model_complete(m: ScanModel) -> ScanModel {
    ScanModel {
        last: 100,
        records: m.records.push(
            ScanRecord { percent: 100, phase: "Complete"@, current_path: Seq::empty(), scanned_files: m.scanned },
        ),
        ..m
    }
}

/// The percentages of `events`, in order, never fall.
pub open spec fn percents_sorted(events: Seq<ScanProgress>) -> bool {
    forall|i: int, j: int| 0 <= i <= j < events.len() ==> events[i].percent <= events[j].percent
}

impl ScanState {
    /// The state keeps its own bounds, and every record so far is at or below the
    /// current percentage, which the records of this root cannot exceed.
    pub open spec fn wf(self) -> bool {
        &&& self.total_roots * 100 <= usize::MAX
        &&& self.completed_roots * 100 <= usize::MAX
        &&& self.records_ok()
        &&& self.total_roots > 0 ==> self.last_percent <= root_percent_spec(
            self.total_roots,
            min_int(self.completed_roots + 1, self.total_roots as int),
        )
    }

    /// The records so far never fall and none is above the current percentage.
    pub open spec fn records_ok(self) -> bool {
        &&& self.last_percent <= 100
        &&& percents_sorted(self.events@)
        &&& forall|i: int| 0 <= i < self.events@.len() ==> #[trigger] self.events@[i].percent
            <= self.last_percent
    }

    /// A fresh state for a scan of `total_roots` roots.
    pub fn new(total_roots: usize) -> (s: Self)
        requires
            total_roots * 100 <= usize::MAX,
        ensures
            s.wf(),
            s.total_roots == total_roots,
            s.completed_roots == 0,
            s.scanned_files == 0,
            s.last_percent == 0,
            s.next_file_emit == 1,
            s.events@.len() == 0,
            scan_model(s) == fresh_model(total_roots as int),
    {
        let s = ScanState {
            total_roots,
            completed_roots: 0,
            scanned_files: 0,
            last_percent: 0,
            next_file_emit: 1,
            events: Vec::new(),
        };
        assert(scan_records(s.events@) =~= Seq::<ScanRecord>::empty());
        s
    }

    fn root_percent(&self, roots: usize) -> (p: u8)
        requires
            roots * 100 <= usize::MAX,
        ensures
            p == root_percent_spec(self.total_roots, roots as int),
    {
        if self.total_roots == 0 {
            100
        } else {
            let q = (roots * 100) / self.total_roots;
            if q < 100 {
                q as u8
            } else {
                100
            }
        }
    }

    fn current_percent(&self) -> (p: u8)
        requires
            self.wf(),
        ensures
            p == current_percent_spec(*self),
            self.total_roots > 0 ==> p <= root_percent_spec(
                self.total_roots,
                min_int(self.completed_roots + 1, self.total_roots as int),
            ),
            p <= 100,
    {
        if self.total_roots == 0 {
            return 100;
        }
        let start = self.root_percent(self.completed_roots);
        let next = if self.completed_roots + 1 < self.total_roots {
            self.completed_roots + 1
        } else {
            self.total_roots
        };
        let end = self.root_percent(next);
        proof {
            lemma_percent_monotone(0, self.completed_roots as int, self.total_roots as int);
            lemma_percent_monotone(0, next as int, self.total_roots as int);
            if self.completed_roots <= next {
                lemma_percent_monotone(self.completed_roots as int, next as int, self.total_roots as int);
            } else {
                lemma_percent_full(self.completed_roots as int, self.total_roots as int);
                lemma_percent_full(next as int, self.total_roots as int);
            }
        }
        let span = end.saturating_sub(start);
        let within = ((self.scanned_files % 2500) / 250) as u8;
        let room = span.saturating_sub(1);
        let add = if within < room {
            within
        } else {
            room
        };
        start + add
    }

    pub fn emit(&mut self, phase: &str, current_path: &str)
        requires
            old(self).wf(),
        ensures
            final(self).wf(),
            final(self).total_roots == old(self).total_roots,
            final(self).completed_roots == old(self).completed_roots,
            final(self).scanned_files == old(self).scanned_files,
            final(self).next_file_emit == old(self).next_file_emit,
            final(self).events@.len() == old(self).events@.len() + 1,
            final(self).events@.drop_last() == old(self).events@,
            final(self).events@.last().percent == final(self).last_percent,
            final(self).last_percent as int == if current_percent_spec(*old(self))
                < old(self).last_percent {
                old(self).last_percent as int
            } else {
                current_percent_spec(*old(self))
            },
            final(self).events@.last().phase@ == phase@,
            final(self).events@.last().current_path@ == current_path@,
            final(self).events@.last().scanned_files == old(self).scanned_files,
            scan_model(*final(self)) == model_emit(scan_model(*old(self)), phase@, current_path@),
    {
        let current = self.current_percent();
        let percent = if current < self.last_percent {
            self.last_percent
        } else {
            current
        };
        self.last_percent = percent;
        let record = ScanProgress {
            percent,
            phase: String::from_str(phase),
            current_path: String::from_str(current_path),
            scanned_files: self.scanned_files,
        };
        self.events.push(record);
        assert(self.events@.drop_last() =~= old(self).events@);
        assert(scan_records(self.events@) =~= scan_records(old(self).events@).push(scan_record(record)));
    }

    /// A root's scan begins.
    pub fn begin_root(&mut self, root: &str)
        requires
            old(self).wf(),
        ensures
            final(self).wf(),
            final(self).total_roots == old(self).total_roots,
            final(self).completed_roots == old(self).completed_roots,
            final(self).scanned_files == old(self).scanned_files,
            final(self).events@.len() == old(self).events@.len() + 1,
            final(self).events@.drop_last() == old(self).events@,
            final(self).events@.last().phase@ == "Scanning"@,
            final(self).events@.last().current_path@ == root@,
            scan_model(*final(self)) == model_begin(scan_model(*old(self)), root@),
    {
        self.emit("Scanning", root);
    }

    /// One more file was seen; a "Scanning" record is produced once the count reaches the
    /// next mark, which then moves 250 files further.
    pub fn file_seen(&mut self, path: &str)
        requires
            old(self).wf(),
            old(self).scanned_files < u64::MAX - 250,
        ensures
            final(self).wf(),
            final(self).total_roots == old(self).total_roots,
            final(self).completed_roots == old(self).completed_roots,
            final(self).scanned_files == old(self).scanned_files + 1,
            old(self).events@.len() <= final(self).events@.len() <= old(self).events@.len() + 1,
            final(self).events@.subrange(0, old(self).events@.len() as int) == old(self).events@,
            if final(self).scanned_files >= old(self).next_file_emit {
                &&& final(self).next_file_emit == final(self).scanned_files + 250
                &&& final(self).events@.len() == old(self).events@.len() + 1
                &&& final(self).events@.last().phase@ == "Scanning"@
                &&& final(self).events@.last().current_path@ == path@
                &&& final(self).events@.last().scanned_files == final(self).scanned_files
            } else {
                &&& final(self).next_file_emit == old(self).next_file_emit
                &&& final(self).events@ == old(self).events@
            },
            scan_model(*final(self)) == model_seen(scan_model(*old(self)), path@),
    {
        self.scanned_files = self.scanned_files + 1;
        if self.scanned_files >= self.next_file_emit {
            self.next_file_emit = self.scanned_files + 250;
            let ghost mid = self.events@;
            self.emit("Scanning", path);
            assert(self.events@.subrange(0, mid.len() as int) =~= mid);
        } else {
            assert(self.events@.subrange(0, old(self).events@.len() as int) =~= self.events@);
        }
    }

    /// A root's scan is over.
    pub fn finish_root(&mut self, root: &str)
        requires
            old(self).wf(),
            (old(self).completed_roots + 1) * 100 <= usize::MAX,
        ensures
            final(self).wf(),
            final(self).total_roots == old(self).total_roots,
            final(self).completed_roots == old(self).completed_roots + 1,
            final(self).scanned_files == old(self).scanned_files,
            final(self).events@.len() == old(self).events@.len() + 1,
            final(self).events@.drop_last() == old(self).events@,
            final(self).events@.last().phase@ == "Scanned"@,
            final(self).events@.last().current_path@ == root@,
            scan_model(*final(self)) == model_finish(scan_model(*old(self)), root@),
    {
        let ghost c = self.completed_roots as int;
        let ghost t = self.total_roots as int;
        self.completed_roots = self.completed_roots.saturating_add(1);
        let p = self.root_percent(self.completed_roots);
        proof {
            if t > 0 {
                let next = min_int(c + 1, t);
                let after = min_int(c + 2, t);
                lemma_percent_monotone(0, c + 1, t);
                if c + 1 <= t {
                    lemma_percent_monotone(c + 1, after, t);
                } else {
                    lemma_percent_full(c + 1, t);
                    lemma_percent_full(after, t);
                    lemma_percent_monotone(0, next, t);
                }
                lemma_percent_monotone(next, c + 1, t);
            }
        }
        self.last_percent = p;
        self.emit("Scanned", root);
    }

    /// The scan is over: the last record says 100 percent.
    pub fn complete(&mut self)
        requires
            old(self).wf(),
        ensures
            final(self).records_ok(),
            final(self).events@.len() == old(self).events@.len() + 1,
            final(self).events@.drop_last() == old(self).events@,
            final(self).events@.last().percent == 100,
            final(self).events@.last().phase@ == "Complete"@,
            final(self).last_percent == 100,
            scan_model(*final(self)) == model_complete(scan_model(*old(self))),
    {
        let record = ScanProgress {
            percent: 100,
            phase: String::from_str("Complete"),
            current_path: String::new(),
            scanned_files: self.scanned_files,
        };
        self.last_percent = 100;
        self.events.push(record);
        assert(self.events@.drop_last() =~= old(self).events@);
        assert(record.current_path@ =~= Seq::<char>::empty());
        assert(scan_records(self.events@) =~= scan_records(old(self).events@).push(scan_record(record)));
    }
}

} // verus!
