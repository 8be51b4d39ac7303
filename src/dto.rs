//! A flat view of a task for display and planning.
use vstd::prelude::*;
use crate::task::{Task, TaskState, Priority, cap};
use crate::time::{Instant, day_of, local_day, valid_offset};
use crate::history::{estimate_secs, estimate_seconds};
use crate::score::{SortStrategy, score_of, sorted_by_score, sort_tasks_at};

verus! {

/// Where a task stands, without its data.
#[derive(Clone, Copy, Debug, PartialEq, Eq, Structural)]
pub enum TaskStatus {
    Pending,
    Completed,
    Deleted,
}

/// A task as shown to the user: its record with its time accounting
/// worked out. Times are in seconds.
#[derive(Clone, Debug, PartialEq)]
pub struct TaskDto {
    pub id: u128,
    pub name: String,
    pub priority: Priority,
    pub due: Option<Instant>,
    pub project: Option<String>,
    pub estimate: Option<String>,
    pub description: Option<String>,
    pub status: TaskStatus,
    pub is_tracking: bool,
    /// Seconds worked in all.
    pub accumulated_time: u64,
    /// Seconds worked today.
    pub today_accumulated_time: u64,
    /// Seconds of the estimate not yet worked; 0 without an estimate (a
    /// missing, unreadable or negative one).
    pub remaining_estimate: u64,
    pub created_at: Instant,
    pub completed_at: Option<Instant>,
    /// The score the task was ranked by, in hundredths of a point.
    pub score: i64,
    /// Whether the rest of the estimate fits into today's remaining
    /// capacity; none when that is not asked.
    pub fit: Option<bool>,
}

/// The status of a state.
pub open spec fn status_of(s: TaskState) -> TaskStatus {
    match s {
        TaskState::Pending { .. } => TaskStatus::Pending,
        TaskState::Completed { .. } => TaskStatus::Completed,
        TaskState::Deleted => TaskStatus::Deleted,
    }
}

/// The view of `t` ranked by `score`, at `now` in a zone at UTC offset `offset`.
pub open spec fn dto_of(t: Task, score: i64, now: Instant, offset: i32, d: TaskDto) -> bool {
    let total = cap(t.state.total_secs(now));
    &&& d.id == t.id
    &&& d.name == t.name
    &&& d.priority == t.priority
    &&& d.due == t.due
    &&& d.project == t.project
    &&& d.estimate == t.estimate
    &&& d.description == t.description
    &&& d.created_at == t.created_at
    &&& d.status == status_of(t.state)
    &&& d.is_tracking == t.state.tracking()
    &&& d.accumulated_time == total
    &&& d.today_accumulated_time == cap(t.state.day_secs(day_of(now, offset), offset, now))
    &&& d.remaining_estimate == (if estimate_secs(t) > total {
        estimate_secs(t) - total
    } else {
        0
    })
    &&& d.completed_at == match t.state {
        TaskState::Completed { completed_at, .. } => Some(completed_at),
        _ => None,
    }
    &&& d.score == score
    &&& d.fit is None
}

impl TaskDto {
    /// The view of `task` ranked by `score`, as of `now` in a zone at UTC
    /// offset `offset`.
    pub fn from_entity_at(task: Task, score: i64, now: Instant, offset: i32) -> (r: TaskDto)
        requires
            task.wf(),
            now.wf(),
            valid_offset(offset),
        ensures
            dto_of(task, score, now, offset, r),
    {
        let today = local_day(now, offset);
        let total = task.elapsed_total_at(now);
        let today_total = task.elapsed_today_at(today, offset, now);
        let is_tracking = task.is_tracking();
        let est = estimate_seconds(&task);
        let remaining = if est > total {
            est - total
        } else {
            0
        };
        let (status, completed_at) = match &task.state {
            TaskState::Pending { .. } => (TaskStatus::Pending, None),
            TaskState::Completed { completed_at, .. } => (TaskStatus::Completed, Some(*completed_at)),
            TaskState::Deleted => (TaskStatus::Deleted, None),
        };
        TaskDto {
            id: task.id,
            name: task.name,
            priority: task.priority,
            due: task.due,
            project: task.project,
            estimate: task.estimate,
            description: task.description,
            status,
            is_tracking,
            accumulated_time: total,
            today_accumulated_time: today_total,
            remaining_estimate: remaining,
            created_at: task.created_at,
            completed_at,
            score,
            fit: None,
        }
    }

    /// The view of `task` ranked by `score`, as of now in the local zone.
    pub fn from_entity(task: Task, score: i64) -> (r: TaskDto)
        requires
            task.wf(),
        ensures
            exists|now: Instant, offset: i32|
                now.wf() && valid_offset(offset) && dto_of(task, score, now, offset, r),
    {
        let now = crate::time::now();
        let offset = crate::time::local_offset_at(now);
        TaskDto::from_entity_at(task, score, now, offset)
    }
}

/// The views of `tasks`, sorted by descending score under `strategy` at
/// `now` (stably), each carrying its score; days are local at UTC offset
/// `offset`.
pub fn sorted_views(tasks: Vec<Task>, strategy: SortStrategy, now: Instant, offset: i32) -> (r: Vec<TaskDto>)
    requires
        forall|k: int| 0 <= k < tasks@.len() ==> (#[trigger] tasks@[k]).wf(),
        now.wf(),
        valid_offset(offset),
    ensures
        exists|after: Seq<Task>|
            {
                &&& sorted_by_score(tasks@, after, strategy, now)
                &&& r@.len() == after.len()
                &&& forall|k: int|
                    0 <= k < after.len() ==> dto_of(
                        #[trigger] after[k],
                        score_of(after[k], strategy, now) as i64,
                        now,
                        offset,
                        r@[k],
                    )
            },
{
    let mut sorted = tasks;
    sort_tasks_at(&mut sorted, strategy, now);
    let ghost after = sorted@;
    assert(forall|k: int| 0 <= k < after.len() ==> (#[trigger] after[k]).wf()) by {
        let p = choose|p: Seq<int>| crate::score::stable_order(tasks@, after, p, strategy, now);
        assert forall|k: int| 0 <= k < after.len() implies (#[trigger] after[k]).wf() by {
            assert(after[k] == tasks@[p[k]]);
        }
    }
    let mut r: Vec<TaskDto> = Vec::new();
    let n = sorted.len();
    while sorted.len() > 0
        invariant
            n == after.len(),
            r@.len() + sorted@.len() == n,
            now.wf(),
            valid_offset(offset),
            forall|k: int| 0 <= k < after.len() ==> (#[trigger] after[k]).wf(),
            forall|k: int| 0 <= k < sorted@.len() ==> #[trigger] sorted@[k] == after[r@.len() + k],
            forall|k: int|
                0 <= k < r@.len() ==> dto_of(
                    #[trigger] after[k],
                    score_of(after[k], strategy, now) as i64,
                    now,
                    offset,
                    r@[k],
                ),
        decreases sorted@.len(),
    {
        let ghost k0 = r@.len() as int;
        let t = sorted.remove(0);
        assert(t == after[k0]);
        let sc = t.score_at(strategy, now);
        let d = TaskDto::from_entity_at(t, sc, now, offset);
        r.push(d);
        assert(r@[k0] == d);
    }
    r
}

} // verus!
