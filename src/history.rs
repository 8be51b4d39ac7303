//! Calendar history: tasks and worked time grouped by local day and ISO
//! week, newest first, with meeting time from the daily log.
use vstd::prelude::*;
use crate::task::{Task, TaskState, TimeLog, cap, add_capped, log_wf};
use crate::time::{
    MAX_DAY, span_secs, elapsed_secs, day_of, local_day, valid_offset, iso_week_of,
    iso_week, date_text, date_label, weekday_of, weekday_name, weekday_label,
};
use crate::score::{estimate_text, estimate_value, estimate_value_of};
use crate::date_phrase::{date_text_day, parse_date_text};

verus! {

/// Seconds of meetings on one local day, as the daily log records them.
#[derive(Clone, Copy, Debug, PartialEq, Eq, Structural)]
pub struct DayMeetings {
    pub day: i64,
    pub secs: u64,
}

/// One day of archived totals, as the archive of old tasks keeps them: its
/// date as `YYYY-MM-DD` text and seconds of estimated work, worked time and
/// meetings.
#[derive(Clone, Debug, PartialEq)]
pub struct ArchivedDay {
    pub date: String,
    pub est_secs: u64,
    pub act_secs: u64,
    pub mtg_secs: u64,
}

/// Archived totals of a day whose date could be read.
#[derive(Clone, Copy, Debug, PartialEq, Eq, Structural)]
pub struct DayTotals {
    pub day: i64,
    pub est: u64,
    pub act: u64,
    pub mtg: u64,
}

/// The archived days whose date reads as a supported day, in order; the
/// others are dropped.
pub open spec fn archive_view(archived: Seq<ArchivedDay>) -> Seq<DayTotals>
    decreases archived.len(),
{
    if archived.len() == 0 {
        Seq::empty()
    } else {
        let a = archived.last();
        match date_text_day(a.date@) {
            Some(d) => if -MAX_DAY <= d <= MAX_DAY {
                archive_view(archived.drop_last()).push(
                    DayTotals { day: d as i64, est: a.est_secs, act: a.act_secs, mtg: a.mtg_secs },
                )
            } else {
                archive_view(archived.drop_last())
            },
            None => archive_view(archived.drop_last()),
        }
    }
}

/// Archived estimated seconds of `day`.
pub open spec fn arch_est(ts: Seq<DayTotals>, day: int) -> int
    decreases ts.len(),
{
    if ts.len() == 0 {
        0
    } else {
        arch_est(ts.drop_last(), day) + if ts.last().day == day {
            ts.last().est as int
        } else {
            0
        }
    }
}

/// Archived worked seconds of `day`.
pub open spec fn arch_act(ts: Seq<DayTotals>, day: int) -> int
    decreases ts.len(),
{
    if ts.len() == 0 {
        0
    } else {
        arch_act(ts.drop_last(), day) + if ts.last().day == day {
            ts.last().act as int
        } else {
            0
        }
    }
}

/// Archived meeting seconds of `day`.
pub open spec fn arch_mtg(ts: Seq<DayTotals>, day: int) -> int
    decreases ts.len(),
{
    if ts.len() == 0 {
        0
    } else {
        arch_mtg(ts.drop_last(), day) + if ts.last().day == day {
            ts.last().mtg as int
        } else {
            0
        }
    }
}

/// The days that archived totals bring into history.
pub open spec fn archive_days(ts: Seq<DayTotals>) -> Set<int> {
    Set::new(|d: int| exists|k: int| 0 <= k < ts.len() && ts[k].day == d)
}

/// The days of history: those the tasks bring and those of the archive.
pub open spec fn all_days(tasks: Seq<Task>, offset: i32, ts: Seq<DayTotals>) -> Set<int> {
    history_days(tasks, offset).union(archive_days(ts))
}

/// Seconds of estimated work, worked time and meetings.
#[derive(Clone, Copy, Debug, PartialEq, Eq, Structural, Default)]
pub struct HistoryStats {
    pub total_est_secs: u64,
    pub total_act_secs: u64,
    pub meeting_secs: u64,
}

/// One local day of history.
#[derive(Clone, Debug, PartialEq)]
pub struct DailyHistory {
    /// Days since 1970-01-01.
    pub day: i64,
    /// `YYYY-MM-DD`.
    pub date: String,
    /// `Mon` to `Sun`.
    pub day_of_week: String,
    /// Positions, in the task list that the history was built from, of the
    /// tasks attributed to the day, ordered by task id and then position.
    pub tasks: Vec<usize>,
    pub stats: HistoryStats,
}

/// One ISO week of history.
#[derive(Clone, Debug, PartialEq)]
pub struct WeeklyHistory {
    pub year: i32,
    pub week: u32,
    /// Newest day first.
    pub days: Vec<DailyHistory>,
    /// Sums over the days.
    pub stats: HistoryStats,
}

/// The estimate of a task in seconds (see `estimate_value`); 0 when the
/// task has no estimate, so a missing, unreadable or negative estimate adds
/// nothing to any total.
pub open spec fn estimate_secs(t: Task) -> int {
    match estimate_value(estimate_text(t)) {
        Some(s) => s,
        None => 0,
    }
}

/// A completed task, or a pending one with logged time, takes part in history.
pub open spec fn eligible(t: Task) -> bool {
    t.state is Completed || (t.state is Pending && t.state.logs().len() > 0)
}

/// The days that one log brings into history: for a pending task, the days
/// it starts and ends on; for a completed task, its start day if it is closed
/// and lasted at least a second.
pub open spec fn log_days(t: Task, l: TimeLog, offset: i32) -> Set<int> {
    if t.state is Pending {
        match l.end {
            Some(e) => set![day_of(l.start, offset), day_of(e, offset)],
            None => set![day_of(l.start, offset)],
        }
    } else if t.state is Completed {
        match l.end {
            Some(e) => if span_secs(l.start, e) > 0 {
                set![day_of(l.start, offset)]
            } else {
                Set::empty()
            },
            None => Set::empty(),
        }
    } else {
        Set::empty()
    }
}

/// The days that the logs bring into history.
pub open spec fn logs_days(t: Task, logs: Seq<TimeLog>, offset: i32) -> Set<int>
    decreases logs.len(),
{
    if logs.len() == 0 {
        Set::empty()
    } else {
        logs_days(t, logs.drop_last(), offset).union(log_days(t, logs.last(), offset))
    }
}

/// The days a task brings into history: the day it was completed, and the
/// days of its logs.
pub open spec fn task_days(t: Task, offset: i32) -> Set<int> {
    match t.state {
        TaskState::Completed { completed_at, .. } => set![day_of(completed_at, offset)].union(
            logs_days(t, t.state.logs(), offset),
        ),
        TaskState::Pending { .. } => logs_days(t, t.state.logs(), offset),
        TaskState::Deleted => Set::empty(),
    }
}

/// The days that the tasks bring into history.
pub open spec fn history_days(tasks: Seq<Task>, offset: i32) -> Set<int>
    decreases tasks.len(),
{
    if tasks.len() == 0 {
        Set::empty()
    } else {
        history_days(tasks.drop_last(), offset).union(task_days(tasks.last(), offset))
    }
}

/// Whether a task is listed on a day: a completed task on the day it was
/// completed, a pending task on every day that its logs start or end on.
pub open spec fn listed_on(t: Task, day: int, offset: i32) -> bool {
    match t.state {
        TaskState::Completed { completed_at, .. } => day_of(completed_at, offset) == day,
        TaskState::Pending { .. } => logs_days(t, t.state.logs(), offset).contains(day),
        TaskState::Deleted => false,
    }
}

/// Seconds of the closed logs that started on `day`.
pub open spec fn logs_act_on(logs: Seq<TimeLog>, day: int, offset: i32) -> int
    decreases logs.len(),
{
    if logs.len() == 0 {
        0
    } else {
        logs_act_on(logs.drop_last(), day, offset) + match logs.last().end {
            Some(e) => if day_of(logs.last().start, offset) == day {
                span_secs(logs.last().start, e) as int
            } else {
                0
            },
            None => 0,
        }
    }
}

/// Seconds a task worked on `day`: its closed logs by their start day; a
/// completed task without logs, its recorded duration on its completion day.
pub open spec fn task_act_on(t: Task, day: int, offset: i32) -> int {
    match t.state {
        TaskState::Completed { completed_at, time_logs, actual_duration } => {
            if time_logs@.len() == 0 {
                if day_of(completed_at, offset) == day {
                    match actual_duration {
                        Some(d) => d as int,
                        None => 0,
                    }
                } else {
                    0
                }
            } else {
                logs_act_on(time_logs@, day, offset)
            }
        },
        TaskState::Pending { time_logs } => logs_act_on(time_logs@, day, offset),
        TaskState::Deleted => 0,
    }
}

/// Estimated seconds a task puts on `day`: its estimate, on the day it was completed.
pub open spec fn task_est_on(t: Task, day: int, offset: i32) -> int {
    match t.state {
        TaskState::Completed { completed_at, .. } => if day_of(completed_at, offset) == day {
            estimate_secs(t)
        } else {
            0
        },
        _ => 0,
    }
}

/// Worked seconds on `day` over all tasks.
pub open spec fn act_on_day(tasks: Seq<Task>, day: int, offset: i32) -> int
    decreases tasks.len(),
{
    if tasks.len() == 0 {
        0
    } else {
        act_on_day(tasks.drop_last(), day, offset) + task_act_on(tasks.last(), day, offset)
    }
}

/// Estimated seconds on `day` over all tasks.
pub open spec fn est_on_day(tasks: Seq<Task>, day: int, offset: i32) -> int
    decreases tasks.len(),
{
    if tasks.len() == 0 {
        0
    } else {
        est_on_day(tasks.drop_last(), day, offset) + task_est_on(tasks.last(), day, offset)
    }
}

/// Meeting seconds that the daily log gives for `day`: its first entry for
/// that day, or 0.
pub open spec fn meeting_lookup(meetings: Seq<DayMeetings>, day: int) -> int
    decreases meetings.len(),
{
    if meetings.len() == 0 {
        0
    } else if meetings[0].day == day {
        meetings[0].secs as int
    } else {
        meeting_lookup(meetings.drop_first(), day)
    }
}

/// Strictly decreasing.
pub open spec fn strictly_desc(s: Seq<i64>) -> bool {
    forall|a: int, b: int| 0 <= a < b < s.len() ==> s[a] > s[b]
}

/// Whether day `x` is in the list.
pub open spec fn has_day(s: Seq<i64>, x: int) -> bool {
    exists|m: int| 0 <= m < s.len() && s[m] == x
}

/// Every day lies within the supported range.
pub open spec fn in_day_range(s: Seq<i64>) -> bool {
    forall|m: int| 0 <= m < s.len() ==> -MAX_DAY <= #[trigger] s[m] <= MAX_DAY
}

/// Inserts `d` into a strictly decreasing list, unless it is there.
fn insert_day(days: &mut Vec<i64>, d: i64)
    requires
        strictly_desc(old(days)@),
        in_day_range(old(days)@),
        -MAX_DAY <= d <= MAX_DAY,
    ensures
        strictly_desc(final(days)@),
        in_day_range(final(days)@),
        forall|x: int| has_day(final(days)@, x) <==> has_day(old(days)@, x) || x == d,
{
    let ghost s0 = days@;
    let mut j: usize = 0;
    while j < days.len() && days[j] > d
        invariant
            days@ == s0,
            j <= days@.len(),
            forall|m: int| 0 <= m < j ==> days@[m] > d,
        decreases days@.len() - j,
    {
        j = j + 1;
    }
    if j < days.len() && days[j] == d {
        assert(has_day(s0, d as int));
        return;
    }
    days.insert(j, d);
    proof {
        s0.insert_ensures(j as int, d);
        assert(strictly_desc(days@)) by {
            assert forall|a: int, b: int| 0 <= a < b < days@.len() implies days@[a] > days@[b] by {
                if b < j {
                } else if b == j {
                } else if a < j {
                    assert(days@[b] == s0[b - 1]);
                } else if a == j {
                    assert(days@[b] == s0[b - 1]);
                    assert(s0[j as int] < d);
                } else {
                    assert(days@[b] == s0[b - 1]);
                    assert(days@[a] == s0[a - 1]);
                }
            }
        }
        assert(in_day_range(days@)) by {
            assert forall|m: int| 0 <= m < days@.len() implies -MAX_DAY <= #[trigger] days@[m] <= MAX_DAY by {
                if m > j {
                    assert(days@[m] == s0[m - 1]);
                }
            }
        }
        assert forall|x: int| has_day(days@, x) <==> has_day(s0, x) || x == d by {
            if has_day(days@, x) {
                let m = choose|m: int| 0 <= m < days@.len() && days@[m] == x;
                if m < j {
                } else if m > j {
                    assert(days@[m] == s0[m - 1]);
                }
            }
            if has_day(s0, x) {
                let m = choose|m: int| 0 <= m < s0.len() && s0[m] == x;
                if m < j {
                    assert(days@[m] == s0[m]);
                } else {
                    assert(days@[m + 1] == s0[m]);
                }
            }
            if x == d {
                assert(days@[j as int] == d);
            }
        }
    }
}

/// Adds to `days` the days that the logs `logs[..]` of task `t` bring in.
fn add_log_days(days0: Vec<i64>, t: &Task, logs: &Vec<TimeLog>, offset: i32) -> (days: Vec<i64>)
    requires
        strictly_desc(days0@),
        in_day_range(days0@),
        forall|k: int| 0 <= k < logs@.len() ==> #[trigger] log_wf(logs@[k]),
        valid_offset(offset),
    ensures
        strictly_desc(days@),
        in_day_range(days@),
        forall|x: int| has_day(days@, x) <==> has_day(days0@, x) || logs_days(*t, logs@, offset).contains(x),
{
    let ghost d0 = days0@;
    let mut days = days0;
    let mut j: usize = 0;
    let ghost mut acc: Set<int> = Set::empty();
    assert(logs@.subrange(0, 0) =~= Seq::<TimeLog>::empty());
    while j < logs.len()
        invariant
            j <= logs@.len(),
            strictly_desc(days@),
            in_day_range(days@),
            forall|k: int| 0 <= k < logs@.len() ==> #[trigger] log_wf(logs@[k]),
            valid_offset(offset),
            acc == logs_days(*t, logs@.subrange(0, j as int), offset),
            forall|x: int| #[trigger] has_day(days@, x) <==> has_day(d0, x) || acc.contains(x),
        decreases logs@.len() - j,
    {
        let l = logs[j];
        assert(log_wf(logs@[j as int]));
        let ghost before = days@;
        match &t.state {
            TaskState::Pending { .. } => {
                insert_day(&mut days, local_day(l.start, offset));
                if let Some(e) = l.end {
                    insert_day(&mut days, local_day(e, offset));
                }
            },
            TaskState::Completed { .. } => {
                if let Some(e) = l.end {
                    if elapsed_secs(l.start, e) > 0 {
                        insert_day(&mut days, local_day(l.start, offset));
                    }
                }
            },
            TaskState::Deleted => {},
        }
        let ghost jj = j as int;
        j = j + 1;
        assert(logs@.subrange(0, j as int).drop_last() == logs@.subrange(0, jj));
        assert(logs@.subrange(0, j as int).last() == l);
        let ghost acc0 = acc;
        proof {
            acc = logs_days(*t, logs@.subrange(0, j as int), offset);
        }
        assert(acc == acc0.union(log_days(*t, l, offset)));
        assert forall|x: int| #[trigger] has_day(days@, x) <==> has_day(d0, x) || acc.contains(x) by {
            assert(has_day(before, x) <==> has_day(d0, x) || acc0.contains(x));
            assert(has_day(days@, x) <==> has_day(before, x) || log_days(*t, l, offset).contains(x));
        }
    }
    assert(logs@.subrange(0, logs@.len() as int) == logs@);
    days
}

/// Adds to `days0` the days that task `t` brings into history.
fn add_task_days(days0: Vec<i64>, t: &Task, offset: i32) -> (days: Vec<i64>)
    requires
        strictly_desc(days0@),
        in_day_range(days0@),
        t.wf(),
        valid_offset(offset),
    ensures
        strictly_desc(days@),
        in_day_range(days@),
        forall|x: int| has_day(days@, x) <==> has_day(days0@, x) || task_days(*t, offset).contains(x),
{
    match &t.state {
        TaskState::Pending { time_logs } => {
            assert forall|k: int| 0 <= k < time_logs@.len() implies #[trigger] log_wf(time_logs@[k]) by {}
            add_log_days(days0, t, time_logs, offset)
        },
        TaskState::Completed { completed_at, time_logs, .. } => {
            assert forall|k: int| 0 <= k < time_logs@.len() implies #[trigger] log_wf(time_logs@[k]) by {}
            let mut days = days0;
            insert_day(&mut days, local_day(*completed_at, offset));
            add_log_days(days, t, time_logs, offset)
        },
        TaskState::Deleted => days0,
    }
}

/// The days of history, newest first.
fn collect_days(tasks: &Vec<Task>, offset: i32, ts: &Vec<DayTotals>) -> (r: Vec<i64>)
    requires
        forall|i: int| 0 <= i < tasks@.len() ==> (#[trigger] tasks@[i]).wf(),
        valid_offset(offset),
        forall|k: int| 0 <= k < ts@.len() ==> -MAX_DAY <= #[trigger] ts@[k].day <= MAX_DAY,
    ensures
        strictly_desc(r@),
        in_day_range(r@),
        forall|x: int| has_day(r@, x) <==> all_days(tasks@, offset, ts@).contains(x),
{
    let mut days: Vec<i64> = Vec::new();
    let mut i: usize = 0;
    while i < tasks.len()
        invariant
            i <= tasks@.len(),
            strictly_desc(days@),
            in_day_range(days@),
            forall|k: int| 0 <= k < tasks@.len() ==> (#[trigger] tasks@[k]).wf(),
            valid_offset(offset),
            forall|x: int| has_day(days@, x) <==> history_days(tasks@.subrange(0, i as int), offset).contains(x),
        decreases tasks@.len() - i,
    {
        assert(tasks@.subrange(0, i + 1).drop_last() == tasks@.subrange(0, i as int));
        assert(tasks@.subrange(0, i + 1).last() == tasks@[i as int]);
        days = add_task_days(days, &tasks[i], offset);
        i = i + 1;
    }
    assert(tasks@.subrange(0, tasks@.len() as int) == tasks@);
    let ghost d0 = days@;
    let mut k: usize = 0;
    let ghost mut acc: Set<int> = Set::empty();
    assert(archive_days(ts@.subrange(0, 0)) =~= Set::<int>::empty());
    while k < ts.len()
        invariant
            k <= ts@.len(),
            strictly_desc(days@),
            in_day_range(days@),
            forall|q: int| 0 <= q < ts@.len() ==> -MAX_DAY <= #[trigger] ts@[q].day <= MAX_DAY,
            acc == archive_days(ts@.subrange(0, k as int)),
            forall|x: int| #[trigger] has_day(days@, x) <==> has_day(d0, x) || acc.contains(x),
        decreases ts@.len() - k,
    {
        let d = ts[k].day;
        assert(-MAX_DAY <= ts@[k as int].day <= MAX_DAY);
        let ghost before = days@;
        let ghost acc0 = acc;
        insert_day(&mut days, d);
        proof {
            let sub1 = ts@.subrange(0, k + 1);
            let sub0 = ts@.subrange(0, k as int);
            acc = archive_days(sub1);
            assert(acc =~= acc0.insert(d as int)) by {
                assert forall|x: int| acc.contains(x) <==> acc0.contains(x) || x == d by {
                    if acc.contains(x) {
                        let q = choose|q: int| 0 <= q < sub1.len() && (#[trigger] sub1[q]).day == x;
                        if q < k {
                            assert(sub0[q].day == x);
                        }
                    }
                    if acc0.contains(x) {
                        let q = choose|q: int| 0 <= q < sub0.len() && (#[trigger] sub0[q]).day == x;
                        assert(sub1[q].day == x);
                    }
                    if x == d {
                        assert(sub1[k as int].day == x);
                    }
                }
            }
            assert forall|x: int| #[trigger] has_day(days@, x) <==> has_day(d0, x) || acc.contains(x) by {
                assert(has_day(before, x) <==> has_day(d0, x) || acc0.contains(x));
            }
        }
        k = k + 1;
    }
    assert(ts@.subrange(0, ts@.len() as int) == ts@);
    assert forall|x: int| has_day(days@, x) <==> all_days(tasks@, offset, ts@).contains(x) by {
        assert(has_day(days@, x) <==> has_day(d0, x) || acc.contains(x));
    }
    days
}

/// Reads the archived days, dropping those whose date cannot be read or lies
/// outside the supported range.
pub fn parse_archive(archived: &Vec<ArchivedDay>) -> (r: Vec<DayTotals>)
    ensures
        r@ == archive_view(archived@),
        forall|k: int| 0 <= k < r@.len() ==> -MAX_DAY <= #[trigger] r@[k].day <= MAX_DAY,
{
    let mut r: Vec<DayTotals> = Vec::new();
    let mut i: usize = 0;
    while i < archived.len()
        invariant
            i <= archived@.len(),
            r@ == archive_view(archived@.subrange(0, i as int)),
            forall|k: int| 0 <= k < r@.len() ==> -MAX_DAY <= #[trigger] r@[k].day <= MAX_DAY,
        decreases archived@.len() - i,
    {
        let a = &archived[i];
        assert(archived@.subrange(0, i + 1).drop_last() == archived@.subrange(0, i as int));
        assert(archived@.subrange(0, i + 1).last() == *a);
        match parse_date_text(a.date.as_str()) {
            Some(d) => {
                if -MAX_DAY <= d as i64 && d as i64 <= MAX_DAY {
                    r.push(DayTotals { day: d as i64, est: a.est_secs, act: a.act_secs, mtg: a.mtg_secs });
                }
            },
            None => {},
        }
        i = i + 1;
    }
    assert(archived@.subrange(0, archived@.len() as int) == archived@);
    r
}

/// The history entry of a day is complete and correct: its date texts, the
/// tasks listed on it, and its estimated, worked and meeting seconds, the
/// archived totals of the day included.
pub open spec fn day_entry_ok(
    tasks: Seq<Task>,
    offset: i32,
    meetings: Seq<DayMeetings>,
    ts: Seq<DayTotals>,
    e: DailyHistory,
) -> bool {
    &&& -MAX_DAY <= e.day <= MAX_DAY
    &&& e.date@ == date_text(e.day as int)
    &&& e.day_of_week@ == weekday_name(weekday_of(e.day as int))
    &&& listing_ok(tasks, offset, e.day as int, e.tasks@)
    &&& e.stats.total_est_secs == cap(est_on_day(tasks, e.day as int, offset) + arch_est(ts, e.day as int))
    &&& e.stats.total_act_secs == cap(act_on_day(tasks, e.day as int, offset) + arch_act(ts, e.day as int))
    &&& e.stats.meeting_secs == cap(meeting_lookup(meetings, e.day as int) + arch_mtg(ts, e.day as int))
}

/// Task `a` comes before task `b` in a day's list: by id, then by position.
pub open spec fn listed_before(tasks: Seq<Task>, a: int, b: int) -> bool {
    tasks[a].id < tasks[b].id || (tasks[a].id == tasks[b].id && a < b)
}

/// `list` holds, in order of id and then position, the positions of the
/// tasks listed on `day`.
pub open spec fn listing_ok(tasks: Seq<Task>, offset: i32, day: int, list: Seq<usize>) -> bool {
    &&& forall|q: int| 0 <= q < list.len() ==> #[trigger] list[q] < tasks.len()
    &&& forall|a: int, b: int|
        0 <= a < b < list.len() ==> listed_before(tasks, #[trigger] list[a] as int, #[trigger] list[b] as int)
    &&& forall|i: int|
        0 <= i < tasks.len() ==> (listed_on(tasks[i], day, offset) <==> exists|q: int|
            0 <= q < list.len() && list[q] == i)
}

/// Whether task `t` is listed on `day`.
fn is_listed_on(t: &Task, day: i64, offset: i32) -> (r: bool)
    requires
        t.wf(),
        valid_offset(offset),
    ensures
        r == listed_on(*t, day as int, offset),
{
    match &t.state {
        TaskState::Completed { completed_at, .. } => local_day(*completed_at, offset) == day,
        TaskState::Pending { time_logs } => {
            let mut found = false;
            let mut j: usize = 0;
            let ghost mut acc: Set<int> = Set::empty();
            assert(time_logs@.subrange(0, 0) =~= Seq::<TimeLog>::empty());
            while j < time_logs.len()
                invariant
                    j <= time_logs@.len(),
                    t.wf(),
                    t.state is Pending,
                    t.state->Pending_time_logs == *time_logs,
                    valid_offset(offset),
                    acc == logs_days(*t, time_logs@.subrange(0, j as int), offset),
                    found == acc.contains(day as int),
                decreases time_logs@.len() - j,
            {
                let l = time_logs[j];
                assert(log_wf(time_logs@[j as int]));
                if local_day(l.start, offset) == day {
                    found = true;
                }
                if let Some(e) = l.end {
                    if local_day(e, offset) == day {
                        found = true;
                    }
                }
                let ghost acc0 = acc;
                let ghost jj = j as int;
                j = j + 1;
                assert(time_logs@.subrange(0, j as int).drop_last() == time_logs@.subrange(0, jj));
                assert(time_logs@.subrange(0, j as int).last() == l);
                proof {
                    acc = logs_days(*t, time_logs@.subrange(0, j as int), offset);
                }
                assert(acc == acc0.union(log_days(*t, l, offset)));
            }
            assert(time_logs@.subrange(0, time_logs@.len() as int) == time_logs@);
            found
        },
        TaskState::Deleted => false,
    }
}

/// The estimate of `t` in seconds, 0 when it has none.
pub fn estimate_seconds(t: &Task) -> (r: u64)
    ensures
        r == estimate_secs(*t),
{
    match estimate_value_of(&t.estimate) {
        Some(s) => s,
        None => 0,
    }
}

/// Seconds of the closed logs of `logs` that started on `day`, added to `acc0`.
fn add_logs_act_on(acc0: u64, base: Ghost<int>, logs: &Vec<TimeLog>, day: i64, offset: i32) -> (r: u64)
    requires
        forall|k: int| 0 <= k < logs@.len() ==> #[trigger] log_wf(logs@[k]),
        valid_offset(offset),
        base@ >= 0,
        acc0 == cap(base@),
    ensures
        r == cap(base@ + logs_act_on(logs@, day as int, offset)),
        logs_act_on(logs@, day as int, offset) >= 0,
{
    let mut acc = acc0;
    let mut j: usize = 0;
    assert(logs@.subrange(0, 0) =~= Seq::<TimeLog>::empty());
    while j < logs.len()
        invariant
            j <= logs@.len(),
            forall|k: int| 0 <= k < logs@.len() ==> #[trigger] log_wf(logs@[k]),
            valid_offset(offset),
            base@ >= 0,
            logs_act_on(logs@.subrange(0, j as int), day as int, offset) >= 0,
            acc == cap(base@ + logs_act_on(logs@.subrange(0, j as int), day as int, offset)),
        decreases logs@.len() - j,
    {
        let l = logs[j];
        assert(log_wf(logs@[j as int]));
        assert(logs@.subrange(0, j + 1).drop_last() == logs@.subrange(0, j as int));
        assert(logs@.subrange(0, j + 1).last() == l);
        if let Some(e) = l.end {
            if local_day(l.start, offset) == day {
                let secs = elapsed_secs(l.start, e);
                acc = add_capped(acc, secs);
            }
        }
        j = j + 1;
    }
    assert(logs@.subrange(0, logs@.len() as int) == logs@);
    acc
}

/// Seconds that `t` worked on `day`, added to `acc0`.
fn add_task_act_on(acc0: u64, base: Ghost<int>, t: &Task, day: i64, offset: i32) -> (r: u64)
    requires
        t.wf(),
        valid_offset(offset),
        base@ >= 0,
        acc0 == cap(base@),
    ensures
        r == cap(base@ + task_act_on(*t, day as int, offset)),
        task_act_on(*t, day as int, offset) >= 0,
{
    match &t.state {
        TaskState::Completed { completed_at, time_logs, actual_duration } => {
            if time_logs.len() == 0 {
                if local_day(*completed_at, offset) == day {
                    match actual_duration {
                        Some(d) => add_capped(acc0, *d),
                        None => acc0,
                    }
                } else {
                    acc0
                }
            } else {
                assert forall|k: int| 0 <= k < time_logs@.len() implies #[trigger] log_wf(time_logs@[k]) by {}
                add_logs_act_on(acc0, base, time_logs, day, offset)
            }
        },
        TaskState::Pending { time_logs } => {
            assert forall|k: int| 0 <= k < time_logs@.len() implies #[trigger] log_wf(time_logs@[k]) by {}
            add_logs_act_on(acc0, base, time_logs, day, offset)
        },
        TaskState::Deleted => acc0,
    }
}

/// Seconds of meetings that the daily log gives for `day`.
pub fn meeting_secs_on(meetings: &Vec<DayMeetings>, day: i64) -> (r: u64)
    ensures
        r == meeting_lookup(meetings@, day as int),
{
    let mut i: usize = 0;
    assert(meetings@.subrange(0, meetings@.len() as int) == meetings@);
    while i < meetings.len()
        invariant
            i <= meetings@.len(),
            meeting_lookup(meetings@, day as int) == meeting_lookup(meetings@.subrange(i as int, meetings@.len() as int), day as int),
        decreases meetings@.len() - i,
    {
        let ghost rest = meetings@.subrange(i as int, meetings@.len() as int);
        if meetings[i].day == day {
            return meetings[i].secs;
        }
        assert(rest.drop_first() == meetings@.subrange(i + 1, meetings@.len() as int));
        i = i + 1;
    }
    0
}

/// The history entry of one day.
#[verifier::rlimit(60)]
fn build_day(
    tasks: &Vec<Task>,
    offset: i32,
    meetings: &Vec<DayMeetings>,
    ts: &Vec<DayTotals>,
    day: i64,
) -> (r: DailyHistory)
    requires
        forall|i: int| 0 <= i < tasks@.len() ==> (#[trigger] tasks@[i]).wf(),
        valid_offset(offset),
        -MAX_DAY <= day <= MAX_DAY,
    ensures
        day_entry_ok(tasks@, offset, meetings@, ts@, r),
        r.day == day,
{
    let mut list: Vec<usize> = Vec::new();
    let mut est: u64 = 0;
    let mut act: u64 = 0;
    let mut i: usize = 0;
    while i < tasks.len()
        invariant
            i <= tasks@.len(),
            forall|k: int| 0 <= k < tasks@.len() ==> (#[trigger] tasks@[k]).wf(),
            valid_offset(offset),
            forall|q: int| 0 <= q < list@.len() ==> #[trigger] list@[q] < i,
            forall|a: int, b: int|
                0 <= a < b < list@.len() ==> listed_before(tasks@, #[trigger] list@[a] as int, #[trigger] list@[b] as int),
            forall|k: int|
                0 <= k < i ==> (listed_on(tasks@[k], day as int, offset) <==> exists|q: int|
                    0 <= q < list@.len() && list@[q] == k),
            est_on_day(tasks@.subrange(0, i as int), day as int, offset) >= 0,
            act_on_day(tasks@.subrange(0, i as int), day as int, offset) >= 0,
            est == cap(est_on_day(tasks@.subrange(0, i as int), day as int, offset)),
            act == cap(act_on_day(tasks@.subrange(0, i as int), day as int, offset)),
        decreases tasks@.len() - i,
    {
        let t = &tasks[i];
        assert(tasks@.subrange(0, i + 1).drop_last() == tasks@.subrange(0, i as int));
        assert(tasks@.subrange(0, i + 1).last() == tasks@[i as int]);
        if is_listed_on(t, day, offset) {
            let mut q: usize = 0;
            while q < list.len() && tasks[list[q]].id <= t.id
                invariant
                    q <= list@.len(),
                    i < tasks@.len(),
                    *t == tasks@[i as int],
                    forall|m: int| 0 <= m < list@.len() ==> #[trigger] list@[m] < i,
                    forall|m: int| 0 <= m < q ==> tasks@[#[trigger] list@[m] as int].id <= t.id,
                decreases list@.len() - q,
            {
                q = q + 1;
            }
            let ghost l0 = list@;
            list.insert(q, i);
            proof {
                l0.insert_ensures(q as int, i);
                assert forall|a: int, b: int| 0 <= a < b < list@.len() implies listed_before(
                    tasks@,
                    #[trigger] list@[a] as int,
                    #[trigger] list@[b] as int,
                ) by {
                    if b < q {
                    } else if b == q {
                    } else if a < q {
                        assert(list@[b] == l0[b - 1]);
                        assert(tasks@[l0[b - 1] as int].id > t.id || !(q <= b - 1));
                        if q < l0.len() {
                            assert(tasks@[l0[q as int] as int].id > t.id);
                            assert(listed_before(tasks@, l0[q as int] as int, l0[b - 1] as int) || q == b - 1);
                        }
                    } else if a == q {
                        assert(list@[b] == l0[b - 1]);
                        assert(tasks@[l0[q as int] as int].id > t.id);
                        assert(listed_before(tasks@, l0[q as int] as int, l0[b - 1] as int) || q == b - 1);
                    } else {
                        assert(list@[b] == l0[b - 1]);
                        assert(list@[a] == l0[a - 1]);
                    }
                }
                assert forall|k: int| 0 <= k < i + 1 implies (listed_on(tasks@[k], day as int, offset)
                    <==> exists|q2: int| 0 <= q2 < list@.len() && list@[q2] == k) by {
                    if k < i {
                        if exists|q2: int| 0 <= q2 < l0.len() && l0[q2] == k {
                            let q2 = choose|q2: int| 0 <= q2 < l0.len() && l0[q2] == k;
                            if q2 < q {
                                assert(list@[q2] == k);
                            } else {
                                assert(list@[q2 + 1] == k);
                            }
                        }
                        if exists|q2: int| 0 <= q2 < list@.len() && list@[q2] == k {
                            let q2 = choose|q2: int| 0 <= q2 < list@.len() && list@[q2] == k;
                            if q2 < q {
                                assert(l0[q2] == k);
                            } else if q2 > q {
                                assert(l0[q2 - 1] == k);
                            }
                        }
                    } else {
                        assert(list@[q as int] == k);
                    }
                }
            }
        } else {
            assert forall|k: int| 0 <= k < i + 1 implies (listed_on(tasks@[k], day as int, offset)
                <==> exists|q2: int| 0 <= q2 < list@.len() && list@[q2] == k) by {
                if k == i {
                    if exists|q2: int| 0 <= q2 < list@.len() && list@[q2] == k {
                        let q2 = choose|q2: int| 0 <= q2 < list@.len() && list@[q2] == k;
                        assert(list@[q2] < i);
                    }
                }
            }
        }
        if let TaskState::Completed { completed_at, .. } = &t.state {
            if local_day(*completed_at, offset) == day {
                est = add_capped(est, estimate_seconds(t));
            }
        }
        act = add_task_act_on(act, Ghost(act_on_day(tasks@.subrange(0, i as int), day as int, offset)), t, day, offset);
        i = i + 1;
    }
    assert(tasks@.subrange(0, tasks@.len() as int) == tasks@);
    let ghost est_base = est_on_day(tasks@, day as int, offset);
    let ghost act_base = act_on_day(tasks@, day as int, offset);
    let mut mtg = meeting_secs_on(meetings, day);
    let ghost mtg_base = meeting_lookup(meetings@, day as int);
    let mut k: usize = 0;
    assert(ts@.subrange(0, 0) =~= Seq::<DayTotals>::empty());
    while k < ts.len()
        invariant
            k <= ts@.len(),
            est_base >= 0,
            act_base >= 0,
            mtg_base >= 0,
            arch_est(ts@.subrange(0, k as int), day as int) >= 0,
            arch_act(ts@.subrange(0, k as int), day as int) >= 0,
            arch_mtg(ts@.subrange(0, k as int), day as int) >= 0,
            est == cap(est_base + arch_est(ts@.subrange(0, k as int), day as int)),
            act == cap(act_base + arch_act(ts@.subrange(0, k as int), day as int)),
            mtg == cap(mtg_base + arch_mtg(ts@.subrange(0, k as int), day as int)),
        decreases ts@.len() - k,
    {
        assert(ts@.subrange(0, k + 1).drop_last() == ts@.subrange(0, k as int));
        assert(ts@.subrange(0, k + 1).last() == ts@[k as int]);
        if ts[k].day == day {
            est = add_capped(est, ts[k].est);
            act = add_capped(act, ts[k].act);
            mtg = add_capped(mtg, ts[k].mtg);
        }
        k = k + 1;
    }
    assert(ts@.subrange(0, ts@.len() as int) == ts@);
    let date = date_label(day);
    let day_of_week = weekday_label(day);
    DailyHistory {
        day,
        date,
        day_of_week,
        tasks: list,
        stats: HistoryStats { total_est_secs: est, total_act_secs: act, meeting_secs: mtg },
    }
}

/// ISO (year, week) `a` comes after `b`.
pub open spec fn week_after(a: (i32, u32), b: (i32, u32)) -> bool {
    a.0 > b.0 || (a.0 == b.0 && a.1 > b.1)
}

/// The ISO week of a day, as the machine integers that a history holds.
pub open spec fn week_key(day: int) -> (i32, u32) {
    (iso_week_of(day).0 as i32, iso_week_of(day).1 as u32)
}

/// Whether the week is in the list.
pub open spec fn has_week(s: Seq<(i32, u32)>, w: (i32, u32)) -> bool {
    exists|m: int| 0 <= m < s.len() && s[m] == w
}

/// Newest week first, each once.
pub open spec fn weeks_desc(s: Seq<(i32, u32)>) -> bool {
    forall|a: int, b: int| 0 <= a < b < s.len() ==> week_after(s[a], s[b])
}

/// Inserts `w` into a list of weeks, newest first, unless it is there.
#[verifier::rlimit(40)]
fn insert_week(weeks: &mut Vec<(i32, u32)>, w: (i32, u32))
    requires
        weeks_desc(old(weeks)@),
    ensures
        weeks_desc(final(weeks)@),
        forall|x: (i32, u32)| has_week(final(weeks)@, x) <==> has_week(old(weeks)@, x) || x == w,
{
    let ghost s0 = weeks@;
    let mut j: usize = 0;
    while j < weeks.len() && (weeks[j].0 > w.0 || (weeks[j].0 == w.0 && weeks[j].1 > w.1))
        invariant
            weeks@ == s0,
            j <= weeks@.len(),
            forall|m: int| 0 <= m < j ==> week_after(#[trigger] weeks@[m], w),
        decreases weeks@.len() - j,
    {
        j = j + 1;
    }
    if j < weeks.len() && weeks[j].0 == w.0 && weeks[j].1 == w.1 {
        assert(weeks@[j as int] == w);
        assert(has_week(s0, w));
        return;
    }
    weeks.insert(j, w);
    proof {
        s0.insert_ensures(j as int, w);
        assert forall|a: int, b: int| 0 <= a < b < weeks@.len() implies week_after(weeks@[a], weeks@[b]) by {
            if b < j {
            } else if b == j {
            } else if a < j {
                assert(weeks@[b] == s0[b - 1]);
                assert(weeks@[a] == s0[a]);
                assert(week_after(s0[a], s0[b - 1]));
            } else if a == j {
                assert(weeks@[b] == s0[b - 1]);
                assert(!week_after(s0[j as int], w));
                assert(s0[j as int] != w);
                if b - 1 > j {
                    assert(week_after(s0[j as int], s0[b - 1]));
                }
            } else {
                assert(weeks@[b] == s0[b - 1]);
                assert(weeks@[a] == s0[a - 1]);
            }
        }
        assert forall|x: (i32, u32)| has_week(weeks@, x) <==> has_week(s0, x) || x == w by {
            if has_week(weeks@, x) {
                let m = choose|m: int| 0 <= m < weeks@.len() && weeks@[m] == x;
                if m < j {
                } else if m > j {
                    assert(weeks@[m] == s0[m - 1]);
                }
            }
            if has_week(s0, x) {
                let m = choose|m: int| 0 <= m < s0.len() && s0[m] == x;
                if m < j {
                    assert(weeks@[m] == s0[m]);
                } else {
                    assert(weeks@[m + 1] == s0[m]);
                }
            }
            if x == w {
                assert(weeks@[j as int] == w);
            }
        }
    }
}

/// Estimated seconds over the days.
pub open spec fn days_est(days: Seq<DailyHistory>) -> int
    decreases days.len(),
{
    if days.len() == 0 {
        0
    } else {
        days_est(days.drop_last()) + days.last().stats.total_est_secs
    }
}

/// Worked seconds over the days.
pub open spec fn days_act(days: Seq<DailyHistory>) -> int
    decreases days.len(),
{
    if days.len() == 0 {
        0
    } else {
        days_act(days.drop_last()) + days.last().stats.total_act_secs
    }
}

/// Meeting seconds over the days.
pub open spec fn days_mtg(days: Seq<DailyHistory>) -> int
    decreases days.len(),
{
    if days.len() == 0 {
        0
    } else {
        days_mtg(days.drop_last()) + days.last().stats.meeting_secs
    }
}

/// One week of history is complete and correct: its days are history days
/// of that week, newest first, each entry correct, and its totals are the
/// sums over its days.
pub open spec fn week_ok(
    tasks: Seq<Task>,
    offset: i32,
    meetings: Seq<DayMeetings>,
    ts: Seq<DayTotals>,
    w: WeeklyHistory,
) -> bool {
    let days = w.days@;
    &&& days.len() > 0
    &&& forall|k: int|
        0 <= k < days.len() ==> {
            &&& day_entry_ok(tasks, offset, meetings, ts, #[trigger] days[k])
            &&& week_key(days[k].day as int) == (w.year, w.week)
            &&& all_days(tasks, offset, ts).contains(days[k].day as int)
        }
    &&& forall|a: int, b: int| 0 <= a < b < days.len() ==> (#[trigger] days[a]).day > (#[trigger] days[b]).day
    &&& w.stats.total_est_secs == cap(days_est(days))
    &&& w.stats.total_act_secs == cap(days_act(days))
    &&& w.stats.meeting_secs == cap(days_mtg(days))
}

/// The weekly history of `tasks` and the archive is complete and correct:
/// weeks newest first, each once and correct, and every day that the tasks
/// or the readable archived days bring into history is in one of them.
pub open spec fn history_ok(
    tasks: Seq<Task>,
    offset: i32,
    meetings: Seq<DayMeetings>,
    archived: Seq<ArchivedDay>,
    r: Seq<WeeklyHistory>,
) -> bool {
    &&& forall|a: int| 0 <= a < r.len() ==> week_ok(tasks, offset, meetings, archive_view(archived), #[trigger] r[a])
    &&& forall|a: int, b: int|
        0 <= a < b < r.len() ==> week_after(((#[trigger] r[a]).year, r[a].week), ((#[trigger] r[b]).year, r[b].week))
    &&& forall|d: int|
        #[trigger] all_days(tasks, offset, archive_view(archived)).contains(d) ==> exists|a: int, k: int|
            0 <= a < r.len() && 0 <= k < r[a].days@.len() && r[a].days@[k].day == d
}

/// Builds the history of one week from the days of history, newest first,
/// and their weeks.
fn build_week(
    tasks: &Vec<Task>,
    offset: i32,
    meetings: &Vec<DayMeetings>,
    ts: &Vec<DayTotals>,
    days: &Vec<i64>,
    dw: &Vec<(i32, u32)>,
    w: (i32, u32),
) -> (r: WeeklyHistory)
    requires
        forall|i: int| 0 <= i < tasks@.len() ==> (#[trigger] tasks@[i]).wf(),
        valid_offset(offset),
        strictly_desc(days@),
        in_day_range(days@),
        forall|x: int| has_day(days@, x) ==> all_days(tasks@, offset, ts@).contains(x),
        dw@.len() == days@.len(),
        forall|m: int| 0 <= m < days@.len() ==> #[trigger] dw@[m] == week_key(days@[m] as int),
        has_week(dw@, w),
    ensures
        week_ok(tasks@, offset, meetings@, ts@, r),
        (r.year, r.week) == w,
        forall|m: int|
            0 <= m < days@.len() && #[trigger] dw@[m] == w ==> exists|k: int|
                0 <= k < r.days@.len() && r.days@[k].day == days@[m],
{
    let mut out: Vec<DailyHistory> = Vec::new();
    let ghost mut src: Seq<int> = Seq::empty();
    let mut est: u64 = 0;
    let mut act: u64 = 0;
    let mut mtg: u64 = 0;
    let mut m: usize = 0;
    while m < days.len()
        invariant
            m <= days@.len(),
            forall|i: int| 0 <= i < tasks@.len() ==> (#[trigger] tasks@[i]).wf(),
            valid_offset(offset),
            strictly_desc(days@),
            in_day_range(days@),
            forall|x: int| has_day(days@, x) ==> all_days(tasks@, offset, ts@).contains(x),
            dw@.len() == days@.len(),
            forall|q: int| 0 <= q < days@.len() ==> #[trigger] dw@[q] == week_key(days@[q] as int),
            src.len() == out@.len(),
            forall|q: int| 0 <= q < out@.len() ==> 0 <= #[trigger] src[q] < m,
            forall|q: int| 0 <= q < out@.len() ==> (#[trigger] out@[q]).day == days@[src[q]],
            forall|q: int| 0 <= q < out@.len() ==> dw@[#[trigger] src[q]] == w,
            forall|q: int| 0 <= q < out@.len() ==> day_entry_ok(tasks@, offset, meetings@, ts@, #[trigger] out@[q]),
            forall|a: int, b: int| 0 <= a < b < out@.len() ==> #[trigger] src[a] < #[trigger] src[b],
            forall|q: int|
                0 <= q < m && #[trigger] dw@[q] == w ==> exists|k: int| 0 <= k < out@.len() && src[k] == q,
            days_est(out@) >= 0,
            days_act(out@) >= 0,
            days_mtg(out@) >= 0,
            est == cap(days_est(out@)),
            act == cap(days_act(out@)),
            mtg == cap(days_mtg(out@)),
        decreases days@.len() - m,
    {
        if dw[m].0 == w.0 && dw[m].1 == w.1 {
            let e = build_day(tasks, offset, meetings, ts, days[m]);
            est = add_capped(est, e.stats.total_est_secs);
            act = add_capped(act, e.stats.total_act_secs);
            mtg = add_capped(mtg, e.stats.meeting_secs);
            let ghost o0 = out@;
            let ghost src0 = src;
            out.push(e);
            proof {
                src = src.push(m as int);
                assert(out@.drop_last() == o0);
                assert forall|q: int| 0 <= q < m + 1 && #[trigger] dw@[q] == w implies exists|k: int|
                    0 <= k < out@.len() && src[k] == q by {
                    if q == m {
                        assert(src[out@.len() - 1] == q);
                    } else {
                        let k = choose|k: int| 0 <= k < o0.len() && src0[k] == q;
                        assert(src[k] == q);
                    }
                }
            }
        }
        m = m + 1;
    }
    proof {
        assert(has_week(dw@, w));
        let q = choose|q: int| 0 <= q < dw@.len() && dw@[q] == w;
        assert(exists|k: int| 0 <= k < out@.len() && src[k] == q);
        assert forall|k: int| 0 <= k < out@.len() implies {
            &&& day_entry_ok(tasks@, offset, meetings@, ts@, #[trigger] out@[k])
            &&& week_key(out@[k].day as int) == w
            &&& all_days(tasks@, offset, ts@).contains(out@[k].day as int)
        } by {
            assert(dw@[src[k]] == w);
            assert(has_day(days@, out@[k].day as int));
        }
        assert forall|a: int, b: int| 0 <= a < b < out@.len() implies (#[trigger] out@[a]).day > (#[trigger] out@[b]).day by {
            assert(src[a] < src[b]);
        }
        assert forall|q: int| 0 <= q < days@.len() && #[trigger] dw@[q] == w implies exists|k: int|
            0 <= k < out@.len() && out@[k].day == days@[q] by {
            let k = choose|k: int| 0 <= k < out@.len() && src[k] == q;
            assert(out@[k].day == days@[q]);
        }
    }
    WeeklyHistory {
        year: w.0,
        week: w.1,
        days: out,
        stats: HistoryStats { total_est_secs: est, total_act_secs: act, meeting_secs: mtg },
    }
}

/// The history of `tasks` seen at UTC offset `offset`: ISO weeks newest
/// first, each with its days newest first. A day is in history when a task
/// is listed on it or worked on it (see `history_days`), or when the archive
/// holds totals for it; meeting time comes from `meetings`, and archived
/// totals add to their day.
pub fn weekly_history(
    tasks: &Vec<Task>,
    offset: i32,
    meetings: &Vec<DayMeetings>,
    archived: &Vec<ArchivedDay>,
) -> (r: Vec<WeeklyHistory>)
    requires
        forall|i: int| 0 <= i < tasks@.len() ==> (#[trigger] tasks@[i]).wf(),
        valid_offset(offset),
    ensures
        history_ok(tasks@, offset, meetings@, archived@, r@),
{
    let ts = parse_archive(archived);
    let days = collect_days(tasks, offset, &ts);
    let mut dw: Vec<(i32, u32)> = Vec::new();
    let mut weeks: Vec<(i32, u32)> = Vec::new();
    let mut m: usize = 0;
    while m < days.len()
        invariant
            m <= days@.len(),
            in_day_range(days@),
            dw@.len() == m,
            forall|q: int| 0 <= q < m ==> #[trigger] dw@[q] == week_key(days@[q] as int),
            weeks_desc(weeks@),
            forall|x: (i32, u32)| has_week(weeks@, x) <==> has_week(dw@, x),
        decreases days@.len() - m,
    {
        let wk = iso_week(days[m]);
        let ghost d0 = dw@;
        dw.push(wk);
        insert_week(&mut weeks, wk);
        proof {
            assert forall|x: (i32, u32)| has_week(dw@, x) <==> has_week(d0, x) || x == wk by {
                if has_week(dw@, x) {
                    let q = choose|q: int| 0 <= q < dw@.len() && dw@[q] == x;
                    if q < m {
                        assert(d0[q] == x);
                    }
                }
                if has_week(d0, x) {
                    let q = choose|q: int| 0 <= q < d0.len() && d0[q] == x;
                    assert(dw@[q] == x);
                }
                if x == wk {
                    assert(dw@[m as int] == x);
                }
            }
        }
        m = m + 1;
    }
    let mut r: Vec<WeeklyHistory> = Vec::new();
    let mut a: usize = 0;
    while a < weeks.len()
        invariant
            a <= weeks@.len(),
            forall|i: int| 0 <= i < tasks@.len() ==> (#[trigger] tasks@[i]).wf(),
            valid_offset(offset),
            strictly_desc(days@),
            in_day_range(days@),
            forall|x: int| has_day(days@, x) <==> all_days(tasks@, offset, ts@).contains(x),
            ts@ == archive_view(archived@),
            dw@.len() == days@.len(),
            forall|q: int| 0 <= q < days@.len() ==> #[trigger] dw@[q] == week_key(days@[q] as int),
            weeks_desc(weeks@),
            forall|x: (i32, u32)| has_week(weeks@, x) <==> has_week(dw@, x),
            r@.len() == a,
            forall|b: int| 0 <= b < a ==> week_ok(tasks@, offset, meetings@, ts@, #[trigger] r@[b]),
            forall|b: int| 0 <= b < a ==> ((#[trigger] r@[b]).year, r@[b].week) == weeks@[b],
            forall|b: int, q: int|
                0 <= b < a && 0 <= q < days@.len() && #[trigger] dw@[q] == #[trigger] weeks@[b] ==> exists|k: int|
                    0 <= k < r@[b].days@.len() && r@[b].days@[k].day == days@[q],
        decreases weeks@.len() - a,
    {
        let w = weeks[a];
        assert(has_week(weeks@, w)) by {
            assert(weeks@[a as int] == w);
        }
        let wh = build_week(tasks, offset, meetings, &ts, &days, &dw, w);
        let ghost r0 = r@;
        r.push(wh);
        proof {
            assert forall|b: int, q: int|
                0 <= b < a + 1 && 0 <= q < days@.len() && #[trigger] dw@[q] == #[trigger] weeks@[b] implies exists|k: int|
                    0 <= k < r@[b].days@.len() && r@[b].days@[k].day == days@[q] by {
                if b < a {
                    assert(r@[b] == r0[b]);
                } else {
                    assert(r@[b] == wh);
                }
            }
        }
        a = a + 1;
    }
    proof {
        assert forall|b: int, c: int| 0 <= b < c < r@.len() implies week_after(
            ((#[trigger] r@[b]).year, r@[b].week),
            ((#[trigger] r@[c]).year, r@[c].week),
        ) by {
            assert(week_after(weeks@[b], weeks@[c]));
        }
        assert forall|d: int| #[trigger] all_days(tasks@, offset, ts@).contains(d) implies exists|b: int, k: int|
            0 <= b < r@.len() && 0 <= k < r@[b].days@.len() && r@[b].days@[k].day == d by {
            assert(has_day(days@, d));
            let q = choose|q: int| 0 <= q < days@.len() && days@[q] == d;
            assert(has_week(dw@, dw@[q]));
            assert(has_week(weeks@, dw@[q]));
            let b = choose|b: int| 0 <= b < weeks@.len() && weeks@[b] == dw@[q];
            assert(dw@[q] == weeks@[b]);
            let k = choose|k: int| 0 <= k < r@[b].days@.len() && r@[b].days@[k].day == days@[q];
            assert(r@[b].days@[k].day == d);
        }
    }
    r
}

/// The history of `tasks` in the local time zone, as its UTC offset stands
/// now; meeting time comes from `meetings`.
pub fn get_weekly_history(
    tasks: &Vec<Task>,
    meetings: &Vec<DayMeetings>,
    archived: &Vec<ArchivedDay>,
) -> (r: Vec<WeeklyHistory>)
    requires
        forall|i: int| 0 <= i < tasks@.len() ==> (#[trigger] tasks@[i]).wf(),
    ensures
        exists|offset: i32| valid_offset(offset) && history_ok(tasks@, offset, meetings@, archived@, r@),
{
    let offset = crate::time::local_offset_at(crate::time::now());
    weekly_history(tasks, offset, meetings, archived)
}

/// Whether a day's entry lists the task at position `i`.
pub open spec fn lists(e: DailyHistory, i: int) -> bool {
    exists|q: int| 0 <= q < e.tasks@.len() && e.tasks@[q] == i
}

/// Every day a task brings in is a day of history.
proof fn lemma_task_days_in_history(tasks: Seq<Task>, offset: i32, i: int, d: int)
    requires
        0 <= i < tasks.len(),
        task_days(tasks[i], offset).contains(d),
    ensures
        history_days(tasks, offset).contains(d),
    decreases tasks.len(),
{
    if i < tasks.len() - 1 {
        assert(tasks.drop_last()[i] == tasks[i]);
        lemma_task_days_in_history(tasks.drop_last(), offset, i, d);
    }
}

/// Two tasks completed on different local days are listed in different day
/// entries, each on the day it was completed; when those days fall in
/// different ISO weeks, they are listed in different weeks as well.
pub proof fn lemma_completed_days_apart(
    tasks: Seq<Task>,
    offset: i32,
    meetings: Seq<DayMeetings>,
    archived: Seq<ArchivedDay>,
    r: Seq<WeeklyHistory>,
    i: int,
    j: int,
)
    requires
        history_ok(tasks, offset, meetings, archived, r),
        0 <= i < tasks.len(),
        0 <= j < tasks.len(),
        tasks[i].state is Completed,
        tasks[j].state is Completed,
        day_of(tasks[i].state->Completed_completed_at, offset) != day_of(
            tasks[j].state->Completed_completed_at,
            offset,
        ),
    ensures
        exists|a: int, k: int| 0 <= a < r.len() && 0 <= k < r[a].days@.len() && lists(r[a].days@[k], i),
        exists|a: int, k: int| 0 <= a < r.len() && 0 <= k < r[a].days@.len() && lists(r[a].days@[k], j),
        forall|a: int, k: int|
            0 <= a < r.len() && 0 <= k < r[a].days@.len() && lists(#[trigger] r[a].days@[k], i) ==> r[a].days@[k].day
                == day_of(tasks[i].state->Completed_completed_at, offset),
        forall|a: int, k: int|
            0 <= a < r.len() && 0 <= k < r[a].days@.len() ==> !(lists(#[trigger] r[a].days@[k], i) && lists(
                r[a].days@[k],
                j,
            )),
        week_key(day_of(tasks[i].state->Completed_completed_at, offset)) != week_key(
            day_of(tasks[j].state->Completed_completed_at, offset),
        ) ==> forall|a: int, k1: int, k2: int|
            0 <= a < r.len() && 0 <= k1 < r[a].days@.len() && 0 <= k2 < r[a].days@.len() ==> !(lists(
                #[trigger] r[a].days@[k1],
                i,
            ) && lists(#[trigger] r[a].days@[k2], j)),
{
    let di = day_of(tasks[i].state->Completed_completed_at, offset);
    let dj = day_of(tasks[j].state->Completed_completed_at, offset);
    assert forall|a: int, k: int| 0 <= a < r.len() && 0 <= k < r[a].days@.len() && lists(
        #[trigger] r[a].days@[k],
        i,
    ) implies r[a].days@[k].day == di by {
        assert(week_ok(tasks, offset, meetings, archive_view(archived), r[a]));
        assert(day_entry_ok(tasks, offset, meetings, archive_view(archived), r[a].days@[k]));
    }
    assert forall|a: int, k: int| 0 <= a < r.len() && 0 <= k < r[a].days@.len() && lists(
        #[trigger] r[a].days@[k],
        j,
    ) implies r[a].days@[k].day == dj by {
        assert(week_ok(tasks, offset, meetings, archive_view(archived), r[a]));
        assert(day_entry_ok(tasks, offset, meetings, archive_view(archived), r[a].days@[k]));
    }
    assert(task_days(tasks[i], offset).contains(di));
    assert(task_days(tasks[j], offset).contains(dj));
    lemma_task_days_in_history(tasks, offset, i, di);
    lemma_task_days_in_history(tasks, offset, j, dj);
    assert(all_days(tasks, offset, archive_view(archived)).contains(di));
    assert(all_days(tasks, offset, archive_view(archived)).contains(dj));
    let (ai, ki) = choose|a: int, k: int| 0 <= a < r.len() && 0 <= k < r[a].days@.len() && r[a].days@[k].day == di;
    assert(week_ok(tasks, offset, meetings, archive_view(archived), r[ai]));
    assert(day_entry_ok(tasks, offset, meetings, archive_view(archived), r[ai].days@[ki]));
    assert(listed_on(tasks[i], di, offset));
    assert(lists(r[ai].days@[ki], i));
    let (aj, kj) = choose|a: int, k: int| 0 <= a < r.len() && 0 <= k < r[a].days@.len() && r[a].days@[k].day == dj;
    assert(week_ok(tasks, offset, meetings, archive_view(archived), r[aj]));
    assert(day_entry_ok(tasks, offset, meetings, archive_view(archived), r[aj].days@[kj]));
    assert(listed_on(tasks[j], dj, offset));
    assert(lists(r[aj].days@[kj], j));
    if week_key(di) != week_key(dj) {
        assert forall|a: int, k1: int, k2: int|
            0 <= a < r.len() && 0 <= k1 < r[a].days@.len() && 0 <= k2 < r[a].days@.len() implies !(lists(
                #[trigger] r[a].days@[k1],
                i,
            ) && lists(#[trigger] r[a].days@[k2], j)) by {
            assert(week_ok(tasks, offset, meetings, archive_view(archived), r[a]));
            if lists(r[a].days@[k1], i) && lists(r[a].days@[k2], j) {
                assert(week_key(r[a].days@[k1].day as int) == (r[a].year, r[a].week));
                assert(week_key(r[a].days@[k2].day as int) == (r[a].year, r[a].week));
            }
        }
    }
}

} // verus!
