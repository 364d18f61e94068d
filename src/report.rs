//! The pass over a parsed history that counts the matching commits, sums
//! their line deltas per calendar day and estimates the time worked.
use vstd::prelude::*;

use crate::commit::{net_total, Commit};
use crate::date::day_of;
use crate::filter::Filter;

verus! {

/// The totals of one calendar day.
#[derive(Debug, Clone, Copy, PartialEq, Eq, Structural)]
pub struct DayTotal {
    /// The day, counted from 1970-01-01, in the commits' own offsets.
    pub day: i64,
    /// The number of matching commits on that day.
    pub commits: usize,
    /// The net line delta of those commits' counted diff rows.
    pub loc: i128,
}

/// What a pass over a history yields.
#[derive(Debug)]
pub struct Summary {
    /// The estimated time worked, in seconds.
    pub seconds: i128,
    /// The number of matching commits.
    pub matched: usize,
    /// The per-day totals, by ascending day.
    pub days: Vec<DayTotal>,
}

/// The commits among `cs` that `f` accepts, in their order.
pub open spec fn matched(cs: Seq<Commit>, f: Filter) -> Seq<Commit>
    decreases cs.len(),
{
    if cs.len() == 0 {
        Seq::<Commit>::empty()
    } else {
        let m = matched(cs.drop_last(), f);
        if f.accepts(cs.last()@) {
            m.push(cs.last())
        } else {
            m
        }
    }
}

/// The calendar day of a commit in its own offset.
pub open spec fn commit_day(c: Commit) -> int {
    day_of(c.date.timestamp as int, c.date.offset as int)
}

/// The number of commits among `q` on day `d`.
pub open spec fn day_count(q: Seq<Commit>, d: int) -> nat
    decreases q.len(),
{
    if q.len() == 0 {
        0
    } else {
        day_count(q.drop_last(), d) + if commit_day(q.last()) == d {
            1nat
        } else {
            0nat
        }
    }
}

/// The net line delta that `f` counts of the commits among `q` on day `d`.
pub open spec fn day_loc(q: Seq<Commit>, d: int, f: Filter) -> int
    decreases q.len(),
{
    if q.len() == 0 {
        0
    } else {
        day_loc(q.drop_last(), d, f) + if commit_day(q.last()) == d {
            net_total(q.last().locs@, f)
        } else {
            0
        }
    }
}

/// Whether a gap of `d` seconds between two commits counts as work: its
/// magnitude in whole hours is at most `max_hours`.
pub open spec fn gap_counts(d: int, max_hours: int) -> bool {
    (if d < 0 {
        -d
    } else {
        d
    }) / 3600 <= max_hours
}

/// The time worked over `q`, oldest first: the sum of the gaps between
/// consecutive commits that count as work.
pub open spec fn worked(q: Seq<Commit>, max_hours: int) -> int
    decreases q.len(),
{
    if q.len() < 2 {
        0
    } else {
        let d = q.last().date.timestamp - q[q.len() - 2].date.timestamp;
        worked(q.drop_last(), max_hours) + if gap_counts(d, max_hours) {
            d
        } else {
            0
        }
    }
}

/// Whether `days` is the per-day table of `q`: one entry for each day that a
/// commit of `q` falls on, by ascending day, with that day's count and delta.
pub open spec fn is_day_table(days: Seq<DayTotal>, q: Seq<Commit>, f: Filter) -> bool {
    &&& forall|i: int, j: int| 0 <= i < j < days.len() ==> days[i].day < days[j].day
    &&& forall|i: int|
        0 <= i < days.len() ==> {
            &&& #[trigger] days[i].commits == day_count(q, days[i].day as int)
            &&& days[i].commits > 0
            &&& days[i].loc == day_loc(q, days[i].day as int, f)
        }
    &&& forall|k: int|
        0 <= k < q.len() ==> exists|i: int|
            0 <= i < days.len() && days[i].day == commit_day(#[trigger] q[k])
}

/// The number of diff rows of the commits of `cs` from index `i` on.
pub open spec fn rows_from(cs: Seq<Commit>, i: int) -> nat
    decreases cs.len() - i,
{
    if i < 0 || i >= cs.len() {
        0
    } else {
        cs[i].locs@.len() + rows_from(cs, i + 1)
    }
}

/// The rows from any index on are no more than all rows.
proof fn lemma_rows_from_le(cs: Seq<Commit>, i: int)
    requires
        0 <= i,
    ensures
        rows_from(cs, i) <= rows_from(cs, 0),
    decreases i,
{
    if i > 0 {
        lemma_rows_from_le(cs, i - 1);
    }
}

/// The newest-first commits from index `i` on, oldest first.
pub open spec fn oldest_first_from(cs: Seq<Commit>, i: int) -> Seq<Commit> {
    cs.subrange(i, cs.len() as int).reverse()
}

/// Counts the commits of `commits`, given newest first as a history dump
/// lists them, that `filter` accepts; sums per day the net line delta of
/// their diff rows that `filter` counts; and adds up, oldest first, the gaps
/// between consecutive accepted commits that are at most `max_hours` whole
/// hours long.
///
/// The diff rows of all commits together must be countable in a `usize`, so
/// that every per-day sum fits in an `i128`.
pub fn aggregate(commits: &Vec<Commit>, filter: &Filter, max_hours: u32) -> (r: Summary)
    requires
        rows_from(commits@, 0) <= usize::MAX,
    ensures
        r.matched == matched(commits@.reverse(), *filter).len(),
        r.seconds == worked(matched(commits@.reverse(), *filter), max_hours as int),
        is_day_table(r.days@, matched(commits@.reverse(), *filter), *filter),
{
    let n = commits.len();
    let mut i: usize = n;
    let mut seconds: i128 = 0;
    let mut count: usize = 0;
    let mut last: Option<i64> = None;
    let mut days: Vec<DayTotal> = Vec::new();
    assert(oldest_first_from(commits@, n as int) =~= Seq::<Commit>::empty());
    while i > 0
        invariant
            i <= n == commits.len(),
            rows_from(commits@, 0) <= usize::MAX,
            count == matched(oldest_first_from(commits@, i as int), *filter).len(),
            count <= n - i,
            seconds == worked(matched(oldest_first_from(commits@, i as int), *filter), max_hours as int),
            -((n - i) as int) * 0x1000_0000_0000 <= seconds <= ((n - i) as int) * 0x1000_0000_0000,
            match last {
                Some(t) => {
                    let q = matched(oldest_first_from(commits@, i as int), *filter);
                    q.len() > 0 && t == q.last().date.timestamp
                },
                None => count == 0,
            },
            is_day_table(days@, matched(oldest_first_from(commits@, i as int), *filter), *filter),
            forall|k: int| 0 <= k < days@.len() ==> #[trigger] days@[k].commits <= count,
            forall|k: int|
                0 <= k < days@.len() ==> -(rows_from(commits@, i as int) as int) * 0xffff_ffff
                    <= #[trigger] days@[k].loc <= (rows_from(commits@, i as int) as int)
                    * 0xffff_ffff,
        decreases i,
    {
        let ghost before = oldest_first_from(commits@, i as int);
        let ghost q = matched(before, *filter);
        i = i - 1;
        let c = &commits[i];
        proof {
            assert(oldest_first_from(commits@, i as int) =~= before.push(*c));
            assert(oldest_first_from(commits@, i as int).drop_last() =~= before);
            lemma_rows_from_le(commits@, i as int);
        }
        if filter.matches(c) {
            let ghost q2 = q.push(*c);
            proof {
                assert(q2.drop_last() =~= q);
                assert(matched(oldest_first_from(commits@, i as int), *filter) == q2);
                if q.len() > 0 {
                    assert(q2[q2.len() - 2] == q.last());
                }
            }
            let w = c.net_loc_wide(filter);
            proof {
                assert(rows_from(commits@, i as int) == c.locs@.len() + rows_from(commits@, i + 1));
            }
            add_day(&mut days, c, w, filter, Ghost(q), Ghost(rows_from(commits@, i + 1) as int), count);
            if let Some(t) = last {
                let d: i128 = c.date.timestamp as i128 - t as i128;
                let a: i128 = if d < 0 {
                    -d
                } else {
                    d
                };
                if a / 3600 <= max_hours as i128 {
                    seconds = seconds + d;
                }
            }
            last = Some(c.date.timestamp);
            count = count + 1;
        }
    }
    assert(oldest_first_from(commits@, 0) =~= commits@.reverse());
    Summary { seconds, matched: count, days }
}

/// Adds an accepted commit, whose counted delta is `w`, to the per-day table
/// of the accepted commits `q` before it.
fn add_day(
    days: &mut Vec<DayTotal>,
    c: &Commit,
    w: i128,
    f: &Filter,
    Ghost(q): Ghost<Seq<Commit>>,
    Ghost(bound): Ghost<int>,
    count: usize,
)
    requires
        is_day_table(old(days)@, q, *f),
        w == net_total(c.locs@, *f),
        -(c.locs@.len() as int) * 0xffff_ffff <= w <= (c.locs@.len() as int) * 0xffff_ffff,
        0 <= bound,
        bound + c.locs@.len() <= usize::MAX,
        count < usize::MAX,
        forall|k: int| 0 <= k < old(days)@.len() ==> #[trigger] old(days)@[k].commits <= count,
        forall|k: int|
            0 <= k < old(days)@.len() ==> -bound * 0xffff_ffff <= #[trigger] old(days)@[k].loc
                <= bound * 0xffff_ffff,
    ensures
        is_day_table(final(days)@, q.push(*c), *f),
        forall|k: int|
            0 <= k < final(days)@.len() ==> #[trigger] final(days)@[k].commits <= count + 1,
        forall|k: int|
            0 <= k < final(days)@.len() ==> -(bound + c.locs@.len()) * 0xffff_ffff
                <= #[trigger] final(days)@[k].loc <= (bound + c.locs@.len()) * 0xffff_ffff,
{
    let ghost q2 = q.push(*c);
    assert(q2.drop_last() =~= q);
    let day = c.date.day();
    let mut j: usize = 0;
    while j < days.len() && days[j].day < day
        invariant
            0 <= j <= days.len(),
            forall|k: int| 0 <= k < j ==> #[trigger] days@[k].day < day,
        decreases days.len() - j,
    {
        j = j + 1;
    }
    let ghost old_days = days@;
    if j < days.len() && days[j].day == day {
        let e = DayTotal { day, commits: days[j].commits + 1, loc: days[j].loc + w };
        days.set(j, e);
        proof {
            assert forall|k: int| 0 <= k < days@.len() implies {
                &&& #[trigger] days@[k].commits == day_count(q2, days@[k].day as int)
                &&& days@[k].commits > 0
                &&& days@[k].loc == day_loc(q2, days@[k].day as int, *f)
            } by {
                if k != j {
                    assert(old_days[k].day != day);
                }
            }
            assert forall|k: int| 0 <= k < q2.len() implies exists|x: int|
                0 <= x < days@.len() && days@[x].day == commit_day(#[trigger] q2[k]) by {
                if k < q.len() {
                    assert(q2[k] == q[k]);
                    let x = choose|x: int|
                        0 <= x < old_days.len() && old_days[x].day == commit_day(q[k]);
                    assert(days@[x].day == old_days[x].day);
                } else {
                    assert(days@[j as int].day == commit_day(q2[k]));
                }
            }
        }
    } else {
        let e = DayTotal { day, commits: 1, loc: w };
        days.insert(j, e);
        proof {
            assert forall|k: int| j < k < days@.len() implies #[trigger] days@[k].day
                > day by {
                assert(days@[k] == old_days[k - 1]);
                assert(old_days[j as int].day >= day);
                if k - 1 > j {
                    assert(old_days[j as int].day < old_days[k - 1].day);
                }
            }
            assert forall|k: int| 0 <= k < days@.len() implies {
                &&& #[trigger] days@[k].commits == day_count(q2, days@[k].day as int)
                &&& days@[k].commits > 0
                &&& days@[k].loc == day_loc(q2, days@[k].day as int, *f)
            } by {
                if k < j {
                    assert(days@[k] == old_days[k]);
                } else if k > j {
                    assert(days@[k] == old_days[k - 1]);
                } else {
                    assert(day_count(q, day as int) == 0) by {
                        if day_count(q, day as int) != 0 {
                            lemma_day_count_witness(q, day as int);
                            let m = choose|m: int|
                                0 <= m < q.len() && commit_day(q[m]) == day;
                            let x = choose|x: int|
                                0 <= x < old_days.len() && old_days[x].day == commit_day(
                                    q[m],
                                );
                            if x < j {
                            } else {
                                assert(old_days[j as int].day <= old_days[x].day);
                            }
                        }
                    }
                    lemma_day_loc_absent(q, day as int, *f);
                }
            }
            assert forall|a: int, b: int| 0 <= a < b < days@.len() implies days@[a].day
                < days@[b].day by {
                if b < j {
                } else if b == j {
                } else if a < j {
                    assert(days@[b].day > day);
                } else if a == j {
                } else {
                    assert(days@[a] == old_days[a - 1]);
                    assert(days@[b] == old_days[b - 1]);
                }
            }
            assert forall|k: int| 0 <= k < q2.len() implies exists|x: int|
                0 <= x < days@.len() && days@[x].day == commit_day(#[trigger] q2[k]) by {
                if k < q.len() {
                    assert(q2[k] == q[k]);
                    let x = choose|x: int|
                        0 <= x < old_days.len() && old_days[x].day == commit_day(q[k]);
                    if x < j {
                        assert(days@[x] == old_days[x]);
                    } else {
                        assert(days@[x + 1] == old_days[x]);
                    }
                } else {
                    assert(days@[j as int].day == commit_day(q2[k]));
                }
            }
        }
    }
}

/// A day with a positive count has a commit on it.
proof fn lemma_day_count_witness(q: Seq<Commit>, d: int)
    requires
        day_count(q, d) > 0,
    ensures
        exists|m: int| 0 <= m < q.len() && commit_day(q[m]) == d,
    decreases q.len(),
{
    if commit_day(q.last()) != d {
        lemma_day_count_witness(q.drop_last(), d);
        let m = choose|m: int| 0 <= m < q.drop_last().len() && commit_day(q.drop_last()[m]) == d;
        assert(q[m] == q.drop_last()[m]);
    }
}

/// A day without commits has no line delta.
proof fn lemma_day_loc_absent(q: Seq<Commit>, d: int, f: Filter)
    requires
        day_count(q, d) == 0,
    ensures
        day_loc(q, d, f) == 0,
    decreases q.len(),
{
    if q.len() > 0 {
        lemma_day_loc_absent(q.drop_last(), d, f);
    }
}

impl Summary {
    /// The estimated time worked in whole hours, rounded down.
    pub fn hours(&self) -> (r: i128)
        ensures
            r == self.seconds / 3600,
    {
        if self.seconds >= 0 {
            self.seconds / 3600
        } else {
            let q: i128 = (-(self.seconds + 1)) / 3600;
            assert(-q - 1 == (self.seconds as int) / 3600);
            -q - 1
        }
    }
}

} // verus!
