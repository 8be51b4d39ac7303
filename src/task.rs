//! Tasks and their time ledger: the intervals of tracked work and the
//! lifecycle that opens, closes and carries them.
use vstd::prelude::*;
use crate::time::{Instant, span_secs, elapsed_secs, day_of, local_day, valid_offset};

verus! {

/// How important a task is.
#[derive(Clone, Copy, Debug, PartialEq, Eq, Structural, Hash)]
pub enum Priority {
    Low,
    Medium,
    High,
}

impl Default for Priority {
    fn default() -> (r: Priority)
        ensures
            r == Priority::Medium,
    {
        Priority::Medium
    }
}

/// One tracked interval of work; no end means it is still running.
#[derive(Clone, Copy, Debug, PartialEq, Eq, Structural)]
pub struct TimeLog {
    pub start: Instant,
    pub end: Option<Instant>,
}

/// Where a task stands in its lifecycle, with the time logged on it.
#[derive(Clone, Debug, PartialEq)]
pub enum TaskState {
    Pending { time_logs: Vec<TimeLog> },
    Completed {
        completed_at: Instant,
        time_logs: Vec<TimeLog>,
        /// Seconds of work recorded by older data that kept no time logs.
        actual_duration: Option<u64>,
    },
    Deleted,
}

impl Default for TaskState {
    fn default() -> (r: TaskState)
        ensures
            r is Pending,
            r->Pending_time_logs@.len() == 0,
    {
        TaskState::Pending { time_logs: Vec::new() }
    }
}

/// The largest count of seconds that a total reports; larger totals stop there.
pub open spec fn cap(x: int) -> int {
    if x > u64::MAX {
        u64::MAX as int
    } else {
        x
    }
}

/// `a + b`, stopping at the largest `u64`.
pub fn add_capped(a: u64, b: u64) -> (r: u64)
    ensures
        r == cap(a + b),
{
    if a > u64::MAX - b {
        u64::MAX
    } else {
        a + b
    }
}

/// A log whose instants are within the supported range.
pub open spec fn log_wf(l: TimeLog) -> bool {
    l.start.wf() && (l.end matches Some(e) ==> e.wf())
}

/// Every log is well formed and every log but the last is closed: at most
/// one interval is open, and it is the latest.
pub open spec fn logs_wf(logs: Seq<TimeLog>) -> bool {
    forall|i: int| 0 <= i < logs.len() ==> #[trigger] log_wf(logs[i]) && (i < logs.len() - 1 ==> logs[i].end is Some)
}

/// No log is open.
pub open spec fn all_closed(logs: Seq<TimeLog>) -> bool {
    forall|i: int| 0 <= i < logs.len() ==> (#[trigger] logs[i]).end is Some
}

/// The latest log exists and is open.
pub open spec fn open_at_end(logs: Seq<TimeLog>) -> bool {
    logs.len() > 0 && logs.last().end is None
}

/// The logs, with the open one, if any, closed at `now`.
pub open spec fn closed_at(logs: Seq<TimeLog>, now: Instant) -> Seq<TimeLog> {
    if open_at_end(logs) {
        logs.update(logs.len() - 1, TimeLog { start: logs.last().start, end: Some(now) })
    } else {
        logs
    }
}

/// Seconds that one log accounts for: up to its end, or up to `now` while open.
pub open spec fn log_secs(l: TimeLog, now: Instant) -> int {
    match l.end {
        Some(e) => span_secs(l.start, e) as int,
        None => span_secs(l.start, now) as int,
    }
}

/// Seconds over all logs.
pub open spec fn logs_total(logs: Seq<TimeLog>, now: Instant) -> int
    decreases logs.len(),
{
    if logs.len() == 0 {
        0
    } else {
        logs_total(logs.drop_last(), now) + log_secs(logs.last(), now)
    }
}

/// Seconds over the logs that started on local day `today`.
pub open spec fn logs_on_day(logs: Seq<TimeLog>, today: int, offset: i32, now: Instant) -> int
    decreases logs.len(),
{
    if logs.len() == 0 {
        0
    } else {
        logs_on_day(logs.drop_last(), today, offset, now) + if day_of(logs.last().start, offset) == today {
            log_secs(logs.last(), now)
        } else {
            0
        }
    }
}

impl TaskState {
    /// The logs that this state carries.
    pub open spec fn logs(self) -> Seq<TimeLog> {
        match self {
            TaskState::Pending { time_logs } => time_logs@,
            TaskState::Completed { time_logs, .. } => time_logs@,
            TaskState::Deleted => Seq::empty(),
        }
    }

    /// Pending logs keep at most one open interval, at the end; a completed
    /// task keeps none open.
    pub open spec fn wf(self) -> bool {
        match self {
            TaskState::Pending { time_logs } => logs_wf(time_logs@),
            TaskState::Completed { completed_at, time_logs, .. } => {
                logs_wf(time_logs@) && all_closed(time_logs@) && completed_at.wf()
            },
            TaskState::Deleted => true,
        }
    }

    /// A pending state whose latest log is open.
    pub open spec fn tracking(self) -> bool {
        self is Pending && open_at_end(self->Pending_time_logs@)
    }

    /// Seconds worked, as of `now`; a completed task without logs reports
    /// its recorded duration.
    pub open spec fn total_secs(self, now: Instant) -> int {
        match self {
            TaskState::Pending { time_logs } => logs_total(time_logs@, now),
            TaskState::Completed { time_logs, actual_duration, .. } => {
                if time_logs@.len() == 0 {
                    match actual_duration {
                        Some(d) => d as int,
                        None => 0,
                    }
                } else {
                    logs_total(time_logs@, now)
                }
            },
            TaskState::Deleted => 0,
        }
    }

    /// Seconds worked on local day `today`, as of `now`: each log counts in
    /// full on the day it started; a completed task without logs counts its
    /// recorded duration on the day it was completed.
    pub open spec fn day_secs(self, today: int, offset: i32, now: Instant) -> int {
        match self {
            TaskState::Pending { time_logs } => logs_on_day(time_logs@, today, offset, now),
            TaskState::Completed { completed_at, time_logs, actual_duration } => {
                if time_logs@.len() == 0 {
                    if day_of(completed_at, offset) == today {
                        match actual_duration {
                            Some(d) => d as int,
                            None => 0,
                        }
                    } else {
                        0
                    }
                } else {
                    logs_on_day(time_logs@, today, offset, now)
                }
            },
            TaskState::Deleted => 0,
        }
    }
}

/// What `start_tracking` does to a state: a pending task that is not
/// tracking gains an open log starting at `now`; any other state stays.
pub open spec fn started(old: TaskState, new: TaskState, now: Instant) -> bool {
    if old is Pending && !old.tracking() {
        new is Pending && new->Pending_time_logs@ == old->Pending_time_logs@.push(
            TimeLog { start: now, end: None },
        )
    } else {
        new == old
    }
}

/// What `stop_tracking` does to a state: a tracking task has its open log
/// closed at `now`; any other state stays.
pub open spec fn stopped(old: TaskState, new: TaskState, now: Instant) -> bool {
    if old.tracking() {
        new is Pending && new->Pending_time_logs@ == closed_at(old->Pending_time_logs@, now)
    } else {
        new == old
    }
}

/// What `complete` does to a state: a completed task stays as it is; any
/// other becomes completed at `now`, carrying its logs with the open one
/// closed at `now` (a deleted task has none), and no recorded duration.
pub open spec fn completed(old: TaskState, new: TaskState, now: Instant) -> bool {
    if old is Completed {
        new == old
    } else {
        &&& new is Completed
        &&& new->Completed_completed_at == now
        &&& new->Completed_actual_duration is None
        &&& new->Completed_time_logs@ == closed_at(old.logs(), now)
    }
}

/// A unit of work to be done.
#[derive(Clone, Debug, PartialEq)]
pub struct Task {
    /// Opaque unique key (the 128 bits of a UUID).
    pub id: u128,
    pub name: String,
    pub priority: Priority,
    pub state: TaskState,
    pub due: Option<Instant>,
    pub description: Option<String>,
    pub project: Option<String>,
    /// Estimated effort, as a duration such as `30m`, `2h`, `1d` or `1w`; a
    /// negative or unreadable text counts as no estimate.
    pub estimate: Option<String>,
    pub created_at: Instant,
}

/// Relies on uuid::Uuid::new_v4 (and Uuid::as_u128): a fresh random task key.
/// Nothing is promised of it.
#[verifier::external_body]
fn random_id() -> (r: u128) {
    uuid::Uuid::new_v4().as_u128()
}

impl Task {
    /// All instants are supported and the state keeps its log discipline.
    pub open spec fn wf(self) -> bool {
        &&& self.state.wf()
        &&& self.created_at.wf()
        &&& (self.due matches Some(d) ==> d.wf())
    }

    /// The same record in every field but `state`.
    pub open spec fn same_record(self, other: Task) -> bool {
        &&& self.id == other.id
        &&& self.name == other.name
        &&& self.priority == other.priority
        &&& self.due == other.due
        &&& self.description == other.description
        &&& self.project == other.project
        &&& self.estimate == other.estimate
        &&& self.created_at == other.created_at
    }

    /// A new pending task with no logs, created at `created_at` under key `id`.
    pub fn new_at(id: u128, name: String, due: Option<Instant>, created_at: Instant) -> (r: Task)
        ensures
            r.id == id,
            r.name == name,
            r.due == due,
            r.created_at == created_at,
            r.priority == Priority::Medium,
            r.state is Pending,
            r.state.logs().len() == 0,
            r.description is None,
            r.project is None,
            r.estimate is None,
    {
        Task {
            id,
            name,
            priority: Priority::default(),
            state: TaskState::default(),
            due,
            description: None,
            project: None,
            estimate: None,
            created_at,
        }
    }

    /// A new pending task with no logs, under a fresh random key, created now.
    pub fn new(name: String, due: Option<Instant>) -> (r: Task)
        requires
            due matches Some(d) ==> d.wf(),
        ensures
            r.wf(),
            r.name == name,
            r.due == due,
            r.priority == Priority::Medium,
            r.state is Pending,
            r.state.logs().len() == 0,
            r.description is None,
            r.project is None,
            r.estimate is None,
    {
        let id = random_id();
        let at = crate::time::now();
        Task::new_at(id, name, due, at)
    }

    /// Whether the task is pending with an open log.
    pub fn is_tracking(&self) -> (r: bool)
        ensures
            r == self.state.tracking(),
    {
        match &self.state {
            TaskState::Pending { time_logs } => {
                let n = time_logs.len();
                n > 0 && time_logs[n - 1].end.is_none()
            },
            _ => false,
        }
    }

    /// Opens a log at `now`, unless the task is not pending or already tracking.
    pub fn start_tracking_at(&mut self, now: Instant)
        requires
            old(self).wf(),
            now.wf(),
        ensures
            final(self).wf(),
            final(self).same_record(*old(self)),
            started(old(self).state, final(self).state, now),
    {
        let tracking = self.is_tracking();
        if !tracking {
            match &mut self.state {
                TaskState::Pending { time_logs } => {
                    time_logs.push(TimeLog { start: now, end: None });
                },
                _ => {},
            }
        }
    }

    /// Opens a log now, unless the task is not pending or already tracking.
    pub fn start_tracking(&mut self)
        requires
            old(self).wf(),
        ensures
            final(self).wf(),
            final(self).same_record(*old(self)),
            exists|now: Instant| now.wf() && started(old(self).state, final(self).state, now),
    {
        let now = crate::time::now();
        self.start_tracking_at(now);
    }

    /// Closes the open log at `now`, if the task is tracking.
    pub fn stop_tracking_at(&mut self, now: Instant)
        requires
            old(self).wf(),
            now.wf(),
        ensures
            final(self).wf(),
            final(self).same_record(*old(self)),
            stopped(old(self).state, final(self).state, now),
    {
        if !self.is_tracking() {
            return;
        }
        match &mut self.state {
            TaskState::Pending { time_logs } => {
                close_open_log(time_logs, now);
            },
            _ => {},
        }
    }

    /// Closes the open log now, if the task is tracking.
    pub fn stop_tracking(&mut self)
        requires
            old(self).wf(),
        ensures
            final(self).wf(),
            final(self).same_record(*old(self)),
            exists|now: Instant| now.wf() && stopped(old(self).state, final(self).state, now),
    {
        let now = crate::time::now();
        self.stop_tracking_at(now);
    }

    /// Completes the task at `now`, closing its open log first; a completed
    /// task is left as it is.
    pub fn complete_at(&mut self, now: Instant)
        requires
            old(self).wf(),
            now.wf(),
        ensures
            final(self).wf(),
            final(self).same_record(*old(self)),
            completed(old(self).state, final(self).state, now),
    {
        if let TaskState::Completed { .. } = &self.state {
            return;
        }
        let mut logs: Vec<TimeLog> = Vec::new();
        match &mut self.state {
            TaskState::Pending { time_logs } => {
                close_open_log(time_logs, now);
                std::mem::swap(time_logs, &mut logs);
            },
            _ => {},
        }
        self.state = TaskState::Completed { completed_at: now, time_logs: logs, actual_duration: None };
    }

    /// Completes the task now, closing its open log first; a completed task
    /// is left as it is.
    pub fn complete(&mut self)
        requires
            old(self).wf(),
        ensures
            final(self).wf(),
            final(self).same_record(*old(self)),
            exists|now: Instant| now.wf() && completed(old(self).state, final(self).state, now),
    {
        let now = crate::time::now();
        self.complete_at(now);
    }

    /// Puts a completed or deleted task back to pending with no logs; its
    /// earlier logs are discarded. A pending task is left as it is.
    pub fn reopen(&mut self)
        requires
            old(self).wf(),
        ensures
            final(self).wf(),
            final(self).same_record(*old(self)),
            old(self).state is Pending ==> final(self).state == old(self).state,
            !(old(self).state is Pending) ==> final(self).state is Pending && final(self).state.logs().len() == 0,
    {
        if let TaskState::Pending { .. } = &self.state {
            return;
        }
        self.state = TaskState::default();
    }

    /// Reopens a completed task; completes any other at `now`.
    pub fn toggle_status_at(&mut self, now: Instant)
        requires
            old(self).wf(),
            now.wf(),
        ensures
            final(self).wf(),
            final(self).same_record(*old(self)),
            old(self).state is Completed ==> final(self).state is Pending && final(self).state.logs().len() == 0,
            !(old(self).state is Completed) ==> completed(old(self).state, final(self).state, now),
    {
        if let TaskState::Completed { .. } = &self.state {
            self.reopen();
        } else {
            self.complete_at(now);
        }
    }

    /// Marks the task deleted, discarding its logs.
    pub fn delete(&mut self)
        requires
            old(self).wf(),
        ensures
            final(self).wf(),
            final(self).same_record(*old(self)),
            final(self).state is Deleted,
    {
        self.state = TaskState::Deleted;
    }
}

/// Whether an instant is within the supported range.
pub fn instant_ok(t: Instant) -> (r: bool)
    ensures
        r == t.wf(),
{
    -crate::time::MAX_SECS <= t.secs && t.secs <= crate::time::MAX_SECS && t.nanos < crate::time::NANOS_PER_SEC
}

/// Log `k` is well formed and, unless it is the latest, closed.
pub open spec fn log_ok_at(logs: Seq<TimeLog>, k: int) -> bool {
    log_wf(logs[k]) && (k < logs.len() - 1 ==> logs[k].end is Some)
}

/// Whether the logs keep their discipline.
fn logs_well_formed(logs: &Vec<TimeLog>) -> (r: bool)
    ensures
        r == logs_wf(logs@),
{
    let n = logs.len();
    let mut i: usize = 0;
    while i < n
        invariant
            n == logs@.len(),
            i <= n,
            forall|k: int| 0 <= k < i ==> #[trigger] log_ok_at(logs@, k),
        decreases n - i,
    {
        let l = logs[i];
        let good = instant_ok(l.start) && match l.end {
            Some(e) => instant_ok(e),
            None => true,
        };
        let shaped = i + 1 == n || l.end.is_some();
        assert(l == logs@[i as int]);
        if !(good && shaped) {
            assert(!log_ok_at(logs@, i as int));
            assert(!(log_wf(logs@[i as int]) && (i < logs@.len() - 1 ==> logs@[i as int].end is Some)));
            return false;
        }
        assert(log_ok_at(logs@, i as int));
        i = i + 1;
    }
    assert forall|k: int| 0 <= k < logs@.len() implies #[trigger] log_wf(logs@[k]) && (k < logs@.len() - 1
        ==> logs@[k].end is Some) by {
        assert(log_ok_at(logs@, k));
    }
    true
}

/// Whether no log is open.
fn logs_all_closed(logs: &Vec<TimeLog>) -> (r: bool)
    ensures
        r == all_closed(logs@),
{
    let n = logs.len();
    let mut i: usize = 0;
    while i < n
        invariant
            n == logs@.len(),
            i <= n,
            forall|k: int| 0 <= k < i ==> (#[trigger] logs@[k]).end is Some,
        decreases n - i,
    {
        if logs[i].end.is_none() {
            assert(logs@[i as int].end is None);
            return false;
        }
        i = i + 1;
    }
    true
}

impl Task {
    /// Whether the task's instants are supported and its logs keep their
    /// discipline.
    pub fn is_well_formed(&self) -> (r: bool)
        ensures
            r == self.wf(),
    {
        let state_ok = match &self.state {
            TaskState::Pending { time_logs } => logs_well_formed(time_logs),
            TaskState::Completed { completed_at, time_logs, .. } => {
                logs_well_formed(time_logs) && logs_all_closed(time_logs) && instant_ok(*completed_at)
            },
            TaskState::Deleted => true,
        };
        let due_ok = match self.due {
            Some(d) => instant_ok(d),
            None => true,
        };
        state_ok && instant_ok(self.created_at) && due_ok
    }
}

/// Closes the latest log at `now` if it is open.
fn close_open_log(logs: &mut Vec<TimeLog>, now: Instant)
    requires
        logs_wf(old(logs)@),
        now.wf(),
    ensures
        final(logs)@ == closed_at(old(logs)@, now),
        logs_wf(final(logs)@),
        all_closed(final(logs)@),
{
    let n = logs.len();
    if n > 0 && logs[n - 1].end.is_none() {
        assert(log_wf(logs@[n - 1]));
        let start = logs[n - 1].start;
        logs.set(n - 1, TimeLog { start, end: Some(now) });
        assert(log_wf(logs@[n - 1]));
    }
    assert forall|i: int| 0 <= i < logs@.len() implies (#[trigger] logs@[i]).end is Some by {
        assert(log_wf(old(logs)@[i]));
    }
}

/// How many logs are open.
pub open spec fn open_count(logs: Seq<TimeLog>) -> nat
    decreases logs.len(),
{
    if logs.len() == 0 {
        0
    } else {
        open_count(logs.drop_last()) + if logs.last().end is None {
            1nat
        } else {
            0nat
        }
    }
}

/// Seconds of the logs of `logs`.
fn sum_logs(logs: &Vec<TimeLog>, now: Instant) -> (r: u64)
    requires
        forall|i: int| 0 <= i < logs@.len() ==> #[trigger] log_wf(logs@[i]),
        now.wf(),
    ensures
        r == cap(logs_total(logs@, now)),
{
    let mut acc: u64 = 0;
    let mut i: usize = 0;
    while i < logs.len()
        invariant
            0 <= i <= logs@.len(),
            forall|k: int| 0 <= k < logs@.len() ==> #[trigger] log_wf(logs@[k]),
            now.wf(),
            acc == cap(logs_total(logs@.subrange(0, i as int), now)),
            logs_total(logs@.subrange(0, i as int), now) >= 0,
        decreases logs@.len() - i,
    {
        let l = logs[i];
        assert(log_wf(logs@[i as int]));
        let secs = match l.end {
            Some(e) => elapsed_secs(l.start, e),
            None => elapsed_secs(l.start, now),
        };
        assert(logs@.subrange(0, i + 1).drop_last() == logs@.subrange(0, i as int));
        acc = add_capped(acc, secs);
        i = i + 1;
    }
    assert(logs@.subrange(0, logs@.len() as int) == logs@);
    acc
}

/// Seconds of the logs of `logs` that started on local day `today`.
fn sum_logs_on_day(logs: &Vec<TimeLog>, today: i64, offset: i32, now: Instant) -> (r: u64)
    requires
        forall|i: int| 0 <= i < logs@.len() ==> #[trigger] log_wf(logs@[i]),
        now.wf(),
        valid_offset(offset),
    ensures
        r == cap(logs_on_day(logs@, today as int, offset, now)),
{
    let mut acc: u64 = 0;
    let mut i: usize = 0;
    while i < logs.len()
        invariant
            0 <= i <= logs@.len(),
            forall|k: int| 0 <= k < logs@.len() ==> #[trigger] log_wf(logs@[k]),
            now.wf(),
            valid_offset(offset),
            acc == cap(logs_on_day(logs@.subrange(0, i as int), today as int, offset, now)),
            logs_on_day(logs@.subrange(0, i as int), today as int, offset, now) >= 0,
        decreases logs@.len() - i,
    {
        let l = logs[i];
        assert(log_wf(logs@[i as int]));
        assert(logs@.subrange(0, i + 1).drop_last() == logs@.subrange(0, i as int));
        if local_day(l.start, offset) == today {
            let secs = match l.end {
                Some(e) => elapsed_secs(l.start, e),
                None => elapsed_secs(l.start, now),
            };
            acc = add_capped(acc, secs);
        }
        i = i + 1;
    }
    assert(logs@.subrange(0, logs@.len() as int) == logs@);
    acc
}

impl Task {
    /// Seconds worked on the task as of `now`: every log up to its end, the
    /// open one up to `now`; a completed task without logs reports its
    /// recorded duration.
    pub fn elapsed_total_at(&self, now: Instant) -> (r: u64)
        requires
            self.wf(),
            now.wf(),
        ensures
            r == cap(self.state.total_secs(now)),
    {
        match &self.state {
            TaskState::Pending { time_logs } => {
                assert forall|i: int| 0 <= i < time_logs@.len() implies #[trigger] log_wf(time_logs@[i]) by {}
                sum_logs(time_logs, now)
            },
            TaskState::Completed { time_logs, actual_duration, .. } => {
                if time_logs.len() == 0 {
                    match actual_duration {
                        Some(d) => *d,
                        None => 0,
                    }
                } else {
                    assert forall|i: int| 0 <= i < time_logs@.len() implies #[trigger] log_wf(time_logs@[i]) by {}
                    sum_logs(time_logs, now)
                }
            },
            TaskState::Deleted => 0,
        }
    }

    /// Seconds worked on the task up to now.
    pub fn elapsed_total(&self) -> (r: u64)
        requires
            self.wf(),
        ensures
            exists|now: Instant| now.wf() && r == cap(self.state.total_secs(now)),
    {
        let now = crate::time::now();
        self.elapsed_total_at(now)
    }

    /// Seconds worked on local day `today` (at UTC offset `offset`) as of
    /// `now`. Each log counts in full on the day it started, an open log up
    /// to `now`; a completed task without logs counts its recorded duration
    /// on the day it was completed.
    pub fn elapsed_today_at(&self, today: i64, offset: i32, now: Instant) -> (r: u64)
        requires
            self.wf(),
            now.wf(),
            valid_offset(offset),
        ensures
            r == cap(self.state.day_secs(today as int, offset, now)),
    {
        match &self.state {
            TaskState::Pending { time_logs } => {
                assert forall|i: int| 0 <= i < time_logs@.len() implies #[trigger] log_wf(time_logs@[i]) by {}
                sum_logs_on_day(time_logs, today, offset, now)
            },
            TaskState::Completed { completed_at, time_logs, actual_duration } => {
                if time_logs.len() == 0 {
                    if local_day(*completed_at, offset) == today {
                        match actual_duration {
                            Some(d) => *d,
                            None => 0,
                        }
                    } else {
                        0
                    }
                } else {
                    assert forall|i: int| 0 <= i < time_logs@.len() implies #[trigger] log_wf(time_logs@[i]) by {}
                    sum_logs_on_day(time_logs, today, offset, now)
                }
            },
            TaskState::Deleted => 0,
        }
    }
}

/// Logs with no open entry count no open log.
proof fn lemma_closed_count(logs: Seq<TimeLog>)
    requires
        all_closed(logs),
    ensures
        open_count(logs) == 0,
    decreases logs.len(),
{
    if logs.len() > 0 {
        assert(all_closed(logs.drop_last())) by {
            assert forall|i: int| 0 <= i < logs.drop_last().len() implies (#[trigger] logs.drop_last()[i]).end is Some by {
                assert(logs[i].end is Some);
            }
        }
        lemma_closed_count(logs.drop_last());
        assert(logs[logs.len() - 1].end is Some);
    }
}

/// Well-formed logs hold one open log when the latest is open, else none.
proof fn lemma_wf_count(logs: Seq<TimeLog>)
    requires
        logs_wf(logs),
    ensures
        open_count(logs) == (if open_at_end(logs) { 1nat } else { 0nat }),
{
    if logs.len() > 0 {
        assert(all_closed(logs.drop_last())) by {
            assert forall|i: int| 0 <= i < logs.drop_last().len() implies (#[trigger] logs.drop_last()[i]).end is Some by {
                assert(log_wf(logs[i]));
            }
        }
        lemma_closed_count(logs.drop_last());
    }
}

/// For a pending task, tracking is exactly having a latest log without an end.
pub proof fn lemma_tracking_iff_last_open(t: Task)
    requires
        t.state is Pending,
    ensures
        t.state.tracking() <==> (t.state.logs().len() > 0 && t.state.logs().last().end is None),
{
}

/// Starting to track twice in a row on a pending task leaves exactly one
/// open log.
pub proof fn lemma_start_twice_one_open(t: Task, mid: TaskState, fin: TaskState, first: Instant, second: Instant)
    requires
        t.wf(),
        t.state is Pending,
        started(t.state, mid, first),
        started(mid, fin, second),
    ensures
        open_count(fin.logs()) == 1,
        fin.tracking(),
{
    let logs = t.state.logs();
    if t.state.tracking() {
        lemma_wf_count(logs);
    } else {
        let l1 = mid.logs();
        assert(l1 == logs.push(TimeLog { start: first, end: None }));
        assert(l1.drop_last() == logs);
        assert(all_closed(logs)) by {
            assert forall|i: int| 0 <= i < logs.len() implies (#[trigger] logs[i]).end is Some by {
                assert(log_wf(logs[i]));
                if i == logs.len() - 1 {
                    assert(!open_at_end(logs));
                }
            }
        }
        lemma_closed_count(logs);
        assert(mid.tracking());
        assert(fin == mid);
    }
}

/// After completing, a task is not tracking and no log is open.
pub proof fn lemma_complete_closes_all(t: Task, fin: TaskState, now: Instant)
    requires
        t.wf(),
        now.wf(),
        completed(t.state, fin, now),
    ensures
        !fin.tracking(),
        open_count(fin.logs()) == 0,
{
    let logs = t.state.logs();
    if t.state is Completed {
        lemma_closed_count(logs);
    } else {
        let c = closed_at(logs, now);
        assert(all_closed(c)) by {
            assert forall|i: int| 0 <= i < c.len() implies (#[trigger] c[i]).end is Some by {
                if i < logs.len() - 1 {
                    assert(log_wf(logs[i]));
                } else if !open_at_end(logs) {
                    assert(log_wf(logs[i]));
                }
            }
        }
        lemma_closed_count(c);
    }
}

} // verus!
