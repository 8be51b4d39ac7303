//! Compaction of old tasks: which tasks leave the live list, and the daily
//! totals they leave behind for history.
use vstd::prelude::*;
use crate::task::{Task, TaskState, cap};
use crate::time::{Instant, MAX_SECS, day_of, local_day, valid_offset, date_text, date_label};
use crate::history::{ArchivedDay, estimate_secs, estimate_seconds};

verus! {

/// A task old enough to archive: completed before `cutoff`, or deleted and
/// created before it. Pending tasks stay.
pub open spec fn archivable(t: Task, cutoff: Instant) -> bool {
    match t.state {
        TaskState::Completed { completed_at, .. } => completed_at.at() < cutoff.at(),
        TaskState::Deleted => t.created_at.at() < cutoff.at(),
        TaskState::Pending { .. } => false,
    }
}

/// The tasks to archive, in order.
pub open spec fn to_archive(tasks: Seq<Task>, cutoff: Instant) -> Seq<Task>
    decreases tasks.len(),
{
    if tasks.len() == 0 {
        Seq::empty()
    } else if archivable(tasks.last(), cutoff) {
        to_archive(tasks.drop_last(), cutoff).push(tasks.last())
    } else {
        to_archive(tasks.drop_last(), cutoff)
    }
}

/// The tasks to keep, in order.
pub open spec fn to_keep(tasks: Seq<Task>, cutoff: Instant) -> Seq<Task>
    decreases tasks.len(),
{
    if tasks.len() == 0 {
        Seq::empty()
    } else if archivable(tasks.last(), cutoff) {
        to_keep(tasks.drop_last(), cutoff)
    } else {
        to_keep(tasks.drop_last(), cutoff).push(tasks.last())
    }
}

/// The instant `days` whole days before `now`, if it is supported.
pub open spec fn cutoff_of(now: Instant, days: int) -> Option<Instant> {
    let secs = now.secs - days * 86_400;
    if -MAX_SECS <= secs <= MAX_SECS {
        Some(Instant { secs: secs as i64, nanos: now.nanos })
    } else {
        None
    }
}

/// The instant `days` whole days before `now`; none outside the supported
/// range.
pub fn archive_cutoff(now: Instant, days: i64) -> (r: Option<Instant>)
    requires
        now.wf(),
    ensures
        r == cutoff_of(now, days as int),
{
    let secs: i128 = now.secs as i128 - days as i128 * 86_400;
    if -(MAX_SECS as i128) <= secs && secs <= MAX_SECS as i128 {
        Some(Instant { secs: secs as i64, nanos: now.nanos })
    } else {
        None
    }
}

/// Whether `t` is old enough to archive at `cutoff`.
pub fn should_archive(t: &Task, cutoff: Instant) -> (r: bool)
    requires
        t.wf(),
        cutoff.wf(),
    ensures
        r == archivable(*t, cutoff),
{
    match &t.state {
        TaskState::Completed { completed_at, .. } => completed_at.is_before(&cutoff),
        TaskState::Deleted => t.created_at.is_before(&cutoff),
        TaskState::Pending { .. } => false,
    }
}

/// Splits `tasks` into those to archive and those to keep, each in order.
pub fn split_archivable(tasks: Vec<Task>, cutoff: Instant) -> (r: (Vec<Task>, Vec<Task>))
    requires
        forall|k: int| 0 <= k < tasks@.len() ==> (#[trigger] tasks@[k]).wf(),
        cutoff.wf(),
    ensures
        r.0@ == to_archive(tasks@, cutoff),
        r.1@ == to_keep(tasks@, cutoff),
{
    let ghost t0 = tasks@;
    let mut rest = tasks;
    let mut archive: Vec<Task> = Vec::new();
    let mut keep: Vec<Task> = Vec::new();
    let n = rest.len();
    while rest.len() > 0
        invariant
            n == t0.len(),
            rest@.len() <= n,
            cutoff.wf(),
            forall|k: int| 0 <= k < t0.len() ==> (#[trigger] t0[k]).wf(),
            forall|k: int| 0 <= k < rest@.len() ==> #[trigger] rest@[k] == t0[n - rest@.len() + k],
            archive@ == to_archive(t0.subrange(0, n - rest@.len()), cutoff),
            keep@ == to_keep(t0.subrange(0, n - rest@.len()), cutoff),
        decreases rest@.len(),
    {
        let ghost done = n - rest@.len();
        let t = rest.remove(0);
        assert(t == t0[done]);
        assert(t0.subrange(0, done + 1).drop_last() == t0.subrange(0, done));
        assert(t0.subrange(0, done + 1).last() == t);
        if should_archive(&t, cutoff) {
            archive.push(t);
        } else {
            keep.push(t);
        }
    }
    assert(t0.subrange(0, n as int) == t0);
    (archive, keep)
}

/// The archived totals that the tasks leave behind: one entry per completed
/// task, on its local completion day, with its estimate and its worked time.
pub open spec fn totals_of(tasks: Seq<Task>, offset: i32) -> Seq<(int, int, int)>
    decreases tasks.len(),
{
    if tasks.len() == 0 {
        Seq::empty()
    } else {
        let t = tasks.last();
        match t.state {
            TaskState::Completed { completed_at, .. } => totals_of(tasks.drop_last(), offset).push(
                (day_of(completed_at, offset), estimate_secs(t), cap(t.state.total_secs(completed_at))),
            ),
            _ => totals_of(tasks.drop_last(), offset),
        }
    }
}

/// The archived totals that `tasks` leave behind, at UTC offset `offset`:
/// for each completed task, its completion date with its estimate and worked
/// seconds, and no meeting time.
pub fn archive_totals(tasks: &Vec<Task>, offset: i32) -> (r: Vec<ArchivedDay>)
    requires
        forall|k: int| 0 <= k < tasks@.len() ==> (#[trigger] tasks@[k]).wf(),
        valid_offset(offset),
    ensures
        r@.len() == totals_of(tasks@, offset).len(),
        forall|q: int|
            0 <= q < r@.len() ==> {
                &&& (#[trigger] r@[q]).date@ == date_text(totals_of(tasks@, offset)[q].0)
                &&& r@[q].est_secs == totals_of(tasks@, offset)[q].1
                &&& r@[q].act_secs == totals_of(tasks@, offset)[q].2
                &&& r@[q].mtg_secs == 0
            },
{
    let mut r: Vec<ArchivedDay> = Vec::new();
    let mut i: usize = 0;
    while i < tasks.len()
        invariant
            i <= tasks@.len(),
            valid_offset(offset),
            forall|k: int| 0 <= k < tasks@.len() ==> (#[trigger] tasks@[k]).wf(),
            r@.len() == totals_of(tasks@.subrange(0, i as int), offset).len(),
            forall|q: int|
                0 <= q < r@.len() ==> {
                    &&& (#[trigger] r@[q]).date@ == date_text(totals_of(tasks@.subrange(0, i as int), offset)[q].0)
                    &&& r@[q].est_secs == totals_of(tasks@.subrange(0, i as int), offset)[q].1
                    &&& r@[q].act_secs == totals_of(tasks@.subrange(0, i as int), offset)[q].2
                    &&& r@[q].mtg_secs == 0
                },
        decreases tasks@.len() - i,
    {
        let t = &tasks[i];
        let ghost pre = tasks@.subrange(0, i as int);
        assert(tasks@.subrange(0, i + 1).drop_last() == pre);
        assert(tasks@.subrange(0, i + 1).last() == *t);
        if let TaskState::Completed { completed_at, .. } = &t.state {
            let day = local_day(*completed_at, offset);
            let date = date_label(day);
            let est = estimate_seconds(t);
            let act = t.elapsed_total_at(*completed_at);
            r.push(ArchivedDay { date, est_secs: est, act_secs: act, mtg_secs: 0 });
        }
        i = i + 1;
    }
    assert(tasks@.subrange(0, tasks@.len() as int) == tasks@);
    r
}

} // verus!
