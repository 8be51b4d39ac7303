//! Daily capacity planning: how much working time is left today, and which
//! pending tasks fit into it.
use vstd::prelude::*;
use crate::task::{cap, add_capped};
use crate::dto::{TaskDto, TaskStatus};

verus! {

/// Working time available in a day, in seconds (eight hours).
pub const TOTAL_CAPACITY_SECS: u64 = 28_800;

/// Today's capacity, in seconds.
#[derive(Clone, Copy, Debug, PartialEq, Eq, Structural, Default)]
pub struct DailyPlanStats {
    pub total_capacity: u64,
    pub meeting_time: u64,
    pub work_done_today: u64,
    pub remaining_active_capacity: u64,
}

/// Seconds worked today over the tasks.
pub open spec fn work_done(tasks: Seq<TaskDto>) -> int
    decreases tasks.len(),
{
    if tasks.len() == 0 {
        0
    } else {
        work_done(tasks.drop_last()) + tasks.last().today_accumulated_time
    }
}

/// `x - y`, or 0 when `y` is larger.
pub open spec fn minus_floor(x: int, y: int) -> int {
    if x > y {
        x - y
    } else {
        0
    }
}

/// Capacity left today: the day's capacity less meetings, less work done,
/// never below zero.
pub open spec fn remaining_capacity(meeting: int, done: int) -> int {
    minus_floor(minus_floor(TOTAL_CAPACITY_SECS as int, meeting), done)
}

/// Whether a task fits into `remaining` seconds: asked only of a pending
/// task that is not tracking and has estimated work left.
pub open spec fn fit_of(d: TaskDto, remaining: int) -> Option<bool> {
    if d.status == TaskStatus::Pending && !d.is_tracking && d.remaining_estimate > 0 {
        Some(d.remaining_estimate <= remaining)
    } else {
        None
    }
}

/// The same view but for its fit.
pub open spec fn same_but_fit(a: TaskDto, b: TaskDto) -> bool {
    &&& a.id == b.id
    &&& a.name == b.name
    &&& a.priority == b.priority
    &&& a.due == b.due
    &&& a.project == b.project
    &&& a.estimate == b.estimate
    &&& a.description == b.description
    &&& a.status == b.status
    &&& a.is_tracking == b.is_tracking
    &&& a.accumulated_time == b.accumulated_time
    &&& a.today_accumulated_time == b.today_accumulated_time
    &&& a.remaining_estimate == b.remaining_estimate
    &&& a.created_at == b.created_at
    &&& a.completed_at == b.completed_at
    &&& a.score == b.score
}

/// Works out today's capacity from `meeting_secs` of meetings and the work
/// done today over all `tasks`, and marks each task with whether it fits.
pub fn apply_daily_plan(tasks: &mut Vec<TaskDto>, meeting_secs: u64) -> (r: DailyPlanStats)
    ensures
        r.total_capacity == TOTAL_CAPACITY_SECS,
        r.meeting_time == meeting_secs,
        r.work_done_today == cap(work_done(old(tasks)@)),
        r.remaining_active_capacity == remaining_capacity(meeting_secs as int, r.work_done_today as int),
        final(tasks)@.len() == old(tasks)@.len(),
        forall|k: int|
            0 <= k < final(tasks)@.len() ==> same_but_fit(#[trigger] final(tasks)@[k], old(tasks)@[k])
                && final(tasks)@[k].fit == fit_of(old(tasks)@[k], r.remaining_active_capacity as int),
{
    let ghost t0 = tasks@;
    let mut done: u64 = 0;
    let mut i: usize = 0;
    while i < tasks.len()
        invariant
            tasks@ == t0,
            i <= t0.len(),
            work_done(t0.subrange(0, i as int)) >= 0,
            done == cap(work_done(t0.subrange(0, i as int))),
        decreases t0.len() - i,
    {
        assert(t0.subrange(0, i + 1).drop_last() == t0.subrange(0, i as int));
        done = add_capped(done, tasks[i].today_accumulated_time);
        i = i + 1;
    }
    assert(t0.subrange(0, t0.len() as int) == t0);
    let effective: u64 = if TOTAL_CAPACITY_SECS > meeting_secs {
        TOTAL_CAPACITY_SECS - meeting_secs
    } else {
        0
    };
    let remaining: u64 = if effective > done {
        effective - done
    } else {
        0
    };
    let mut out: Vec<TaskDto> = Vec::new();
    let n = tasks.len();
    while tasks.len() > 0
        invariant
            out@.len() + tasks@.len() == n,
            n == t0.len(),
            forall|k: int| 0 <= k < tasks@.len() ==> #[trigger] tasks@[k] == t0[out@.len() + k],
            forall|k: int|
                0 <= k < out@.len() ==> same_but_fit(#[trigger] out@[k], t0[k]) && out@[k].fit == fit_of(
                    t0[k],
                    remaining as int,
                ),
        decreases tasks@.len(),
    {
        let ghost o0 = out@;
        let mut d = tasks.remove(0);
        if d.status == TaskStatus::Pending && !d.is_tracking && d.remaining_estimate > 0 {
            d.fit = Some(d.remaining_estimate <= remaining);
        } else {
            d.fit = None;
        }
        out.push(d);
        assert(out@[o0.len() as int] == d);
    }
    *tasks = out;
    DailyPlanStats {
        total_capacity: TOTAL_CAPACITY_SECS,
        meeting_time: meeting_secs,
        work_done_today: done,
        remaining_active_capacity: remaining,
    }
}

} // verus!
