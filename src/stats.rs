//! The history of solves and the statistics derived from it.
use vstd::prelude::*;
use crate::store::{lines_view, parse_history, parsed_times, saved_lines, saved_text, LoadError};

verus! {

/// Sum of a sequence of times.
pub open spec fn seq_sum(s: Seq<u64>) -> int
    decreases s.len(),
{
    if s.len() == 0 {
        0
    } else {
        seq_sum(s.drop_last()) + s.last()
    }
}

/// Smallest element of a non-empty sequence.
pub open spec fn seq_min(s: Seq<u64>) -> int
    decreases s.len(),
{
    if s.len() <= 1 {
        s[0] as int
    } else if (s.last() as int) < seq_min(s.drop_last()) {
        s.last() as int
    } else {
        seq_min(s.drop_last())
    }
}

/// Largest element of a non-empty sequence.
pub open spec fn seq_max(s: Seq<u64>) -> int
    decreases s.len(),
{
    if s.len() <= 1 {
        s[0] as int
    } else if (s.last() as int) > seq_max(s.drop_last()) {
        s.last() as int
    } else {
        seq_max(s.drop_last())
    }
}

/// Mean of a window once its single best and single worst entries are
/// discarded, rounded down to the millisecond.
pub open spec fn trimmed_mean(w: Seq<u64>) -> int {
    (seq_sum(w) - seq_min(w) - seq_max(w)) / (w.len() - 2)
}

/// The average of `n` ending at position `end` of `times`: defined once at
/// least `n` solves exist up to and including `end`.
pub open spec fn trailing_avg(times: Seq<u64>, end: int, n: int) -> Option<int> {
    if 3 <= n && n <= end + 1 && end < times.len() {
        Some(trimmed_mean(times.subrange(end + 1 - n, end + 1)))
    } else {
        None
    }
}

pub proof fn lemma_sum_bounds(s: Seq<u64>)
    requires
        s.len() >= 1,
    ensures
        seq_min(s) >= 0,
        seq_max(s) <= u64::MAX,
        seq_max(s) <= seq_sum(s),
        seq_sum(s) <= s.len() * seq_max(s),
        s.len() >= 2 ==> seq_sum(s) - seq_min(s) - seq_max(s) >= 0,
        s.len() >= 2 ==> seq_sum(s) - seq_min(s) - seq_max(s) <= (s.len() - 2) * seq_max(s),
    decreases s.len(),
{
    if s.len() > 1 {
        let t = s.drop_last();
        lemma_sum_bounds(t);
        let x = s.last() as int;
        let l = t.len() as int;
        let m = seq_max(s);
        if t.len() >= 2 {
            assert((l - 2) * seq_max(t) + seq_max(t) == (l - 1) * seq_max(t)) by (nonlinear_arith);
            if x > seq_max(t) {
                assert((l - 1) * seq_max(t) <= (l - 1) * x) by (nonlinear_arith)
                    requires l >= 2, x >= seq_max(t);
            }
        } else {
            assert(t.drop_last().len() == 0);
            assert(seq_sum(t.drop_last()) == 0);
        }
        assert(x <= m);
        assert(l * seq_max(t) + x <= (l + 1) * m) by (nonlinear_arith)
            requires l >= 1, seq_max(t) <= m, x <= m;
        assert(s.len() == l + 1);
    } else {
        assert(s.drop_last().len() == 0);
        assert(seq_sum(s.drop_last()) == 0);
    }
}


/// An optional millisecond value read as an optional integer.
pub open spec fn opt_int(o: Option<u64>) -> Option<int> {
    match o {
        Some(v) => Some(v as int),
        None => None,
    }
}

/// One timed solve, with the averages of five and of twelve that end at it.
#[derive(Clone, Copy, Debug, PartialEq, Eq)]
pub struct SolveRecord {
    pub time: u64,
    pub ao5: Option<u64>,
    pub ao12: Option<u64>,
}

/// The solve times of a sequence of records, oldest first.
pub open spec fn times_of(recs: Seq<SolveRecord>) -> Seq<u64> {
    recs.map_values(|r: SolveRecord| r.time)
}

/// Sum, smallest and largest time of the records in `start..end`.
fn span_totals(recs: &Vec<SolveRecord>, start: usize, end: usize) -> (r: (u128, u64, u64))
    requires
        start < end <= recs.len(),
    ensures
        r.0 == seq_sum(times_of(recs@).subrange(start as int, end as int)),
        r.1 == seq_min(times_of(recs@).subrange(start as int, end as int)),
        r.2 == seq_max(times_of(recs@).subrange(start as int, end as int)),
{
    let ghost times = times_of(recs@);
    let first = recs[start].time;
    let mut sum: u128 = first as u128;
    let mut lo: u64 = first;
    let mut hi: u64 = first;
    let mut i: usize = start + 1;
    proof {
        let w = times.subrange(start as int, i as int);
        assert(w.drop_last().len() == 0);
        assert(seq_sum(w.drop_last()) == 0);
    }
    while i < end
        invariant
            start < i <= end,
            end <= recs.len(),
            times == times_of(recs@),
            sum == seq_sum(times.subrange(start as int, i as int)),
            lo == seq_min(times.subrange(start as int, i as int)),
            hi == seq_max(times.subrange(start as int, i as int)),
            sum <= (i - start) * 0xFFFF_FFFF_FFFF_FFFFint,
        decreases end - i,
    {
        let x = recs[i].time;
        proof {
            let w = times.subrange(start as int, i as int + 1);
            assert(w.drop_last() =~= times.subrange(start as int, i as int));
            assert(w.last() == x);
        }
        sum = sum + x as u128;
        if x < lo {
            lo = x;
        }
        if x > hi {
            hi = x;
        }
        i = i + 1;
    }
    (sum, lo, hi)
}

/// Trimmed mean of the `n` times ending at `end`, if there are that many.
pub fn window_avg(recs: &Vec<SolveRecord>, end: usize, n: usize) -> (r: Option<u64>)
    requires
        end < recs.len(),
    ensures
        opt_int(r) == trailing_avg(times_of(recs@), end as int, n as int),
{
    if n < 3 || n > end + 1 {
        return None;
    }
    let start: usize = end + 1 - n;
    let (sum, lo, hi) = span_totals(recs, start, end + 1);
    let ghost w = times_of(recs@).subrange(start as int, end as int + 1);
    proof {
        lemma_sum_bounds(w);
    }
    let total: u128 = sum - lo as u128 - hi as u128;
    let k: u128 = (n - 2) as u128;
    proof {
        let t = total as int;
        let kk = k as int;
        let h = hi as int;
        assert(t / kk <= h) by (nonlinear_arith)
            requires t <= kk * h, kk >= 1, t >= 0;
    }
    Some((total / k) as u64)
}

/// Smallest defined value of a sequence of optional values.
pub open spec fn opt_min(s: Seq<Option<int>>) -> Option<int>
    decreases s.len(),
{
    if s.len() == 0 {
        None
    } else {
        match (opt_min(s.drop_last()), s.last()) {
            (None, x) => x,
            (Some(a), None) => Some(a),
            (Some(a), Some(b)) => Some(if b < a { b } else { a }),
        }
    }
}

/// The averages of `n` ending at each position of `times`.
pub open spec fn trailing_avgs(times: Seq<u64>, n: int) -> Seq<Option<int>> {
    Seq::new(times.len(), |i: int| trailing_avg(times, i, n))
}

/// Every record carries the averages of five and of twelve that end at it.
pub open spec fn records_consistent(recs: Seq<SolveRecord>) -> bool {
    forall|i: int|
        0 <= i < recs.len() ==> {
            &&& opt_int(#[trigger] recs[i].ao5) == trailing_avg(times_of(recs), i, 5)
            &&& opt_int(recs[i].ao12) == trailing_avg(times_of(recs), i, 12)
        }
}

/// The session-level statistics, as integers.
pub struct StatsView {
    pub pb_single: Option<int>,
    pub pb_ao5: Option<int>,
    pub pb_ao12: Option<int>,
    pub ao100: Option<int>,
    pub ao1k: Option<int>,
    pub mean: Option<int>,
    pub worst: Option<int>,
}

/// The statistics of a history, computed from its times alone.
pub open spec fn aggregate(times: Seq<u64>) -> StatsView {
    let n = times.len() as int;
    StatsView {
        pb_single: if n > 0 { Some(seq_min(times)) } else { None },
        pb_ao5: opt_min(trailing_avgs(times, 5)),
        pb_ao12: opt_min(trailing_avgs(times, 12)),
        ao100: trailing_avg(times, n - 1, 100),
        ao1k: trailing_avg(times, n - 1, 1000),
        mean: if n > 0 { Some(seq_sum(times) / n) } else { None },
        worst: if n > 0 { Some(seq_max(times)) } else { None },
    }
}

/// Personal bests, averages of a hundred and of a thousand, the mean of
/// every single and the worst single, in milliseconds.
#[derive(Clone, Copy, Debug, PartialEq, Eq)]
pub struct Aggregates {
    pub pb_single: Option<u64>,
    pub pb_ao5: Option<u64>,
    pub pb_ao12: Option<u64>,
    pub ao100: Option<u64>,
    pub ao1k: Option<u64>,
    pub mean: Option<u64>,
    pub worst: Option<u64>,
}

impl View for Aggregates {
    type V = StatsView;

    open spec fn view(&self) -> StatsView {
        StatsView {
            pb_single: opt_int(self.pb_single),
            pb_ao5: opt_int(self.pb_ao5),
            pb_ao12: opt_int(self.pb_ao12),
            ao100: opt_int(self.ao100),
            ao1k: opt_int(self.ao1k),
            mean: opt_int(self.mean),
            worst: opt_int(self.worst),
        }
    }
}

/// The smaller of two optional values, ignoring a missing one.
fn min_defined(a: Option<u64>, b: Option<u64>) -> (r: Option<u64>)
    ensures
        opt_int(r) == (match (opt_int(a), opt_int(b)) {
            (None, x) => x,
            (Some(x), None) => Some(x),
            (Some(x), Some(y)) => Some(if y < x { y } else { x }),
        }),
{
    match (a, b) {
        (None, x) => x,
        (Some(x), None) => Some(x),
        (Some(x), Some(y)) => Some(if y < x { y } else { x }),
    }
}

/// Computes every aggregate from a consistent sequence of records.
pub fn compute_aggregates(recs: &Vec<SolveRecord>) -> (r: Aggregates)
    requires
        records_consistent(recs@),
    ensures
        r@ == aggregate(times_of(recs@)),
{
    let ghost times = times_of(recs@);
    let n = recs.len();
    let mut best5: Option<u64> = None;
    let mut best12: Option<u64> = None;
    let mut i: usize = 0;
    while i < n
        invariant
            i <= n,
            n == recs.len(),
            times == times_of(recs@),
            records_consistent(recs@),
            opt_int(best5) == opt_min(trailing_avgs(times, 5).subrange(0, i as int)),
            opt_int(best12) == opt_min(trailing_avgs(times, 12).subrange(0, i as int)),
        decreases n - i,
    {
        proof {
            assert(trailing_avgs(times, 5).subrange(0, i as int + 1).drop_last()
                =~= trailing_avgs(times, 5).subrange(0, i as int));
            assert(trailing_avgs(times, 12).subrange(0, i as int + 1).drop_last()
                =~= trailing_avgs(times, 12).subrange(0, i as int));
            assert(opt_int(recs@[i as int].ao5) == trailing_avg(times, i as int, 5));
        }
        best5 = min_defined(best5, recs[i].ao5);
        best12 = min_defined(best12, recs[i].ao12);
        i = i + 1;
    }
    proof {
        assert(trailing_avgs(times, 5).subrange(0, n as int) =~= trailing_avgs(times, 5));
        assert(trailing_avgs(times, 12).subrange(0, n as int) =~= trailing_avgs(times, 12));
    }
    if n == 0 {
        return Aggregates {
            pb_single: None,
            pb_ao5: best5,
            pb_ao12: best12,
            ao100: None,
            ao1k: None,
            mean: None,
            worst: None,
        };
    }
    let (sum, lo, hi) = span_totals(recs, 0, n);
    proof {
        assert(times.subrange(0, n as int) =~= times);
        lemma_sum_bounds(times);
        let t = sum as int;
        let kk = n as int;
        let h = hi as int;
        assert(t / kk <= h) by (nonlinear_arith)
            requires t <= kk * h, kk >= 1, t >= 0;
    }
    Aggregates {
        pb_single: Some(lo),
        pb_ao5: best5,
        pb_ao12: best12,
        ao100: window_avg(recs, n - 1, 100),
        ao1k: window_avg(recs, n - 1, 1000),
        mean: Some((sum / n as u128) as u64),
        worst: Some(hi),
    }
}


/// An average that ends inside a prefix of the times depends on that prefix
/// alone.
pub proof fn lemma_trailing_prefix(times: Seq<u64>, ext: Seq<u64>, i: int, n: int)
    requires
        times.len() <= ext.len(),
        ext.subrange(0, times.len() as int) == times,
        0 <= i < times.len(),
    ensures
        trailing_avg(ext, i, n) == trailing_avg(times, i, n),
{
    if 3 <= n && n <= i + 1 {
        assert(ext.subrange(i + 1 - n, i + 1) =~= times.subrange(i + 1 - n, i + 1));
    }
}

/// Builds records for the times of `src`: the first `keep` records are
/// taken as they are, the averages of the rest are recomputed.
fn rebuild(src: &Vec<SolveRecord>, keep: usize) -> (r: Vec<SolveRecord>)
    requires
        keep <= src.len(),
        forall|k: int|
            0 <= k < keep ==> {
                &&& opt_int(#[trigger] src@[k].ao5) == trailing_avg(times_of(src@), k, 5)
                &&& opt_int(src@[k].ao12) == trailing_avg(times_of(src@), k, 12)
            },
    ensures
        times_of(r@) == times_of(src@),
        records_consistent(r@),
        forall|k: int| 0 <= k < keep ==> r@[k] == src@[k],
{
    let ghost times = times_of(src@);
    let mut out: Vec<SolveRecord> = Vec::new();
    let mut j: usize = 0;
    while j < src.len()
        invariant
            keep <= src.len(),
            j <= src.len(),
            times == times_of(src@),
            out@.len() == j,
            forall|k: int| 0 <= k < j && k < keep ==> out@[k] == src@[k],
            forall|k: int|
                0 <= k < keep ==> {
                    &&& opt_int(#[trigger] src@[k].ao5) == trailing_avg(times, k, 5)
                    &&& opt_int(src@[k].ao12) == trailing_avg(times, k, 12)
                },
            forall|k: int|
                0 <= k < j ==> {
                    &&& (#[trigger] out@[k]).time == times[k]
                    &&& opt_int(out@[k].ao5) == trailing_avg(times, k, 5)
                    &&& opt_int(out@[k].ao12) == trailing_avg(times, k, 12)
                },
        decreases src.len() - j,
    {
        let rec = if j < keep {
            src[j]
        } else {
            SolveRecord { time: src[j].time, ao5: window_avg(src, j, 5), ao12: window_avg(src, j, 12) }
        };
        out.push(rec);
        j = j + 1;
    }
    assert(times_of(out@) =~= times);
    out
}

/// The ordered history of solves, oldest first, with its statistics.
pub struct History {
    records: Vec<SolveRecord>,
    stats: Aggregates,
}

impl History {
    /// The solve times, oldest first.
    pub open spec fn times(&self) -> Seq<u64> {
        times_of(self.records_view())
    }

    /// The stored records, oldest first.
    pub closed spec fn records_view(&self) -> Seq<SolveRecord> {
        self.records@
    }

    /// The statistics as kept.
    pub closed spec fn stats_view(&self) -> StatsView {
        self.stats@
    }

    /// Each record carries the averages that end at it, and the statistics
    /// are those of the current times.
    pub open spec fn wf(&self) -> bool {
        &&& records_consistent(self.records_view())
        &&& self.stats_view() == aggregate(self.times())
    }

    /// An empty history.
    pub fn new() -> (h: History)
        ensures
            h.wf(),
            h.times() == Seq::<u64>::empty(),
    {
        let records: Vec<SolveRecord> = Vec::new();
        let stats = compute_aggregates(&records);
        History { records, stats }
    }

    /// A history holding the given times, oldest first.
    pub fn from_times(times: &Vec<u64>) -> (h: History)
        ensures
            h.wf(),
            h.times() == times@,
    {
        let mut src: Vec<SolveRecord> = Vec::new();
        let mut i: usize = 0;
        while i < times.len()
            invariant
                i <= times.len(),
                times_of(src@) == times@.subrange(0, i as int),
            decreases times.len() - i,
        {
            let ghost prev = src@;
            src.push(SolveRecord { time: times[i], ao5: None, ao12: None });
            proof {
                assert(times_of(src@) =~= times_of(prev).push(times@[i as int]));
                assert(times@.subrange(0, i as int + 1) =~= times@.subrange(0, i as int).push(
                    times@[i as int],
                ));
            }
            i = i + 1;
        }
        assert(times@.subrange(0, i as int) =~= times@);
        let records = rebuild(&src, 0);
        let stats = compute_aggregates(&records);
        History { records, stats }
    }

    /// Appends a solve, attaching the averages of five and of twelve that end
    /// at it, and recomputes the statistics.
    pub fn insert(&mut self, time: u64) -> (r: SolveRecord)
        requires
            old(self).wf(),
        ensures
            final(self).wf(),
            final(self).times() == old(self).times().push(time),
            final(self).records_view() == old(self).records_view().push(r),
            r.time == time,
            opt_int(r.ao5) == trailing_avg(final(self).times(), old(self).times().len() as int, 5),
            opt_int(r.ao12) == trailing_avg(final(self).times(), old(self).times().len() as int, 12),
    {
        let ghost old_recs = self.records@;
        let ghost old_times = times_of(old_recs);
        self.records.push(SolveRecord { time, ao5: None, ao12: None });
        let ghost draft = self.records@;
        let end = self.records.len() - 1;
        let ao5 = window_avg(&self.records, end, 5);
        let ao12 = window_avg(&self.records, end, 12);
        let _ = self.records.pop();
        let rec = SolveRecord { time, ao5, ao12 };
        self.records.push(rec);
        proof {
            let new_times = times_of(self.records@);
            assert(new_times =~= old_times.push(time));
            assert(times_of(draft) =~= new_times);
            assert(new_times.subrange(0, old_times.len() as int) =~= old_times);
            assert forall|i: int| 0 <= i < self.records@.len() implies {
                &&& opt_int(#[trigger] self.records@[i].ao5) == trailing_avg(new_times, i, 5)
                &&& opt_int(self.records@[i].ao12) == trailing_avg(new_times, i, 12)
            } by {
                if i < old_times.len() {
                    lemma_trailing_prefix(old_times, new_times, i, 5);
                    lemma_trailing_prefix(old_times, new_times, i, 12);
                    assert(self.records@[i] == old_recs[i]);
                }
            }
        }
        self.stats = compute_aggregates(&self.records);
        rec
    }

    /// Removes the record shown at `row` of the newest-first table, that is
    /// the record at position `len - 1 - row`, recomputing every average and
    /// statistic. Returns the removed record, or `None` when there is no
    /// such row.
    pub fn delete(&mut self, row: usize) -> (r: Option<SolveRecord>)
        requires
            old(self).wf(),
        ensures
            final(self).wf(),
            row < old(self).times().len() ==> {
                let idx = old(self).times().len() - 1 - row;
                &&& r == Some(old(self).records_view()[idx])
                &&& final(self).times() == old(self).times().remove(idx)
                &&& forall|k: int|
                    0 <= k < idx ==> #[trigger] final(self).records_view()[k]
                        == old(self).records_view()[k]
            },
            row >= old(self).times().len() ==> r.is_none() && final(self).times() == old(self).times(),
    {
        let n = self.records.len();
        if row >= n {
            return None;
        }
        let idx = n - 1 - row;
        let removed = self.records.remove(idx);
        proof {
            let old_times = times_of(old(self).records@);
            let new_times = times_of(self.records@);
            assert(new_times =~= old_times.remove(idx as int));
            let head = old_times.subrange(0, idx as int);
            assert(new_times.subrange(0, idx as int) =~= head);
            assert(old_times.subrange(0, idx as int) =~= head);
            assert forall|k: int| 0 <= k < idx implies {
                &&& opt_int(#[trigger] self.records@[k].ao5) == trailing_avg(new_times, k, 5)
                &&& opt_int(self.records@[k].ao12) == trailing_avg(new_times, k, 12)
            } by {
                assert(self.records@[k] == old(self).records@[k]);
                lemma_trailing_prefix(head, new_times, k, 5);
                lemma_trailing_prefix(head, old_times, k, 5);
                lemma_trailing_prefix(head, new_times, k, 12);
                lemma_trailing_prefix(head, old_times, k, 12);
            }
        }
        // Records before the removed one keep their windows; later ones
        // are recomputed.
        self.records = rebuild(&self.records, idx);
        self.stats = compute_aggregates(&self.records);
        Some(removed)
    }

    /// Replaces the history with a saved one, all or nothing: on any
    /// malformed line the history is left empty.
    pub fn load(&mut self, lines: &Vec<Vec<u8>>) -> (r: Result<(), LoadError>)
        ensures
            final(self).wf(),
            match parsed_times(lines_view(lines@)) {
                Some(ts) => r.is_ok() && final(self).times() == ts,
                None => r == Err::<(), LoadError>(LoadError::MalformedRecord) && final(self).times()
                    == Seq::<u64>::empty(),
            },
    {
        match parse_history(lines) {
            Ok(times) => {
                *self = History::from_times(&times);
                Ok(())
            },
            Err(e) => {
                *self = History::new();
                Err(e)
            },
        }
    }

    /// The saved form of the history, one line per solve, oldest first.
    pub fn save(&self) -> (r: Vec<Vec<u8>>)
        ensures
            lines_view(r@) == saved_text(self.times()),
    {
        let mut times: Vec<u64> = Vec::new();
        let mut i: usize = 0;
        while i < self.records.len()
            invariant
                i <= self.records.len(),
                times@ == times_of(self.records@).subrange(0, i as int),
            decreases self.records.len() - i,
        {
            times.push(self.records[i].time);
            i = i + 1;
            assert(times@ =~= times_of(self.records@).subrange(0, i as int));
        }
        assert(times@ =~= times_of(self.records@));
        saved_lines(&times)
    }

    /// Number of solves.
    pub fn len(&self) -> (r: usize)
        ensures
            r == self.times().len(),
    {
        self.records.len()
    }

    /// The record at position `i`, oldest first.
    pub fn get(&self, i: usize) -> (r: Option<SolveRecord>)
        ensures
            i < self.records_view().len() ==> r == Some(self.records_view()[i as int]),
            i >= self.records_view().len() ==> r.is_none(),
    {
        if i < self.records.len() {
            Some(self.records[i])
        } else {
            None
        }
    }

    /// The records, oldest first.
    pub fn records(&self) -> (r: &Vec<SolveRecord>)
        ensures
            r@ == self.records_view(),
    {
        &self.records
    }

    /// The current statistics.
    pub fn stats(&self) -> (r: Aggregates)
        ensures
            r@ == self.stats_view(),
    {
        self.stats
    }
}

/// A history maintained by inserts and deletes holds exactly the records and
/// statistics of a history built from scratch from the same times.
pub proof fn lemma_incremental_matches_scratch(kept: History, fresh: History)
    requires
        kept.wf(),
        fresh.wf(),
        kept.times() == fresh.times(),
    ensures
        kept.records_view() == fresh.records_view(),
        kept.stats_view() == fresh.stats_view(),
{
    let a = kept.records_view();
    let b = fresh.records_view();
    assert(times_of(a).len() == times_of(b).len());
    assert forall|i: int| 0 <= i < a.len() implies a[i] == b[i] by {
        assert(times_of(a)[i] == times_of(b)[i]);
        assert(opt_int(a[i].ao5) == opt_int(b[i].ao5));
        assert(opt_int(a[i].ao12) == opt_int(b[i].ao12));
    }
    assert(a =~= b);
}

/// In a consistent history the average of five is missing exactly on the
/// first four records and the average of twelve exactly on the first eleven.
pub proof fn lemma_averages_defined(h: History, i: int)
    requires
        h.wf(),
        0 <= i < h.times().len(),
    ensures
        h.records_view()[i].ao5.is_none() <==> i < 4,
        h.records_view()[i].ao12.is_none() <==> i < 11,
{
    assert(h.records_view().len() == h.times().len());
    assert(opt_int(h.records_view()[i].ao5) == trailing_avg(h.times(), i, 5));
}

} // verus!
