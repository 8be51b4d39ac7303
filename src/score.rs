//! Scores that order tasks for display, and the stable sort by score.
use vstd::prelude::*;
use crate::task::{Task, TaskState, Priority};
use crate::time::{Instant, span_secs, elapsed_secs, duration_of, parse_duration};

verus! {

/// How tasks are ranked.
#[derive(Clone, Copy, Debug, PartialEq, Eq, Structural)]
pub enum SortStrategy {
    Urgency,
    Priority,
    DueDate,
}

impl Default for SortStrategy {
    fn default() -> (r: SortStrategy)
        ensures
            r == SortStrategy::Urgency,
    {
        SortStrategy::Urgency
    }
}

// Scores are counted in hundredths of a point.

/// Weight of the due date in the urgency score.
pub const COEFFICIENT_DUE: i64 = 1200;
/// Weight of the priority in the urgency score.
pub const COEFFICIENT_PRIORITY: i64 = 600;
/// Weight of the task's age in the urgency score.
pub const COEFFICIENT_AGE: i64 = 200;
/// Weight of a short estimate in the urgency score.
pub const COEFFICIENT_ESTIMATE: i64 = 500;
/// Urgency of a task that is not pending: below every pending task.
pub const NOT_PENDING_SCORE: i64 = -10_000;

/// The due-date part of urgency: overdue counts double; within a week, the
/// full weight plus half a point per day short of seven; within two weeks,
/// half; later, a fifth; no due date, nothing.
pub open spec fn due_term(due: Option<Instant>, now: Instant) -> int {
    match due {
        None => 0,
        Some(d) => {
            if d.at() < now.at() {
                COEFFICIENT_DUE * 2
            } else {
                let days: int = span_secs(now, d) as int / 86_400;
                if days < 7 {
                    COEFFICIENT_DUE + (7 - days) * 50
                } else if days < 14 {
                    COEFFICIENT_DUE / 2
                } else {
                    COEFFICIENT_DUE / 5
                }
            }
        },
    }
}

/// The priority part of urgency: all of the weight for High, half for
/// Medium, a tenth for Low.
pub open spec fn priority_term(p: Priority) -> int {
    match p {
        Priority::High => COEFFICIENT_PRIORITY as int,
        Priority::Medium => COEFFICIENT_PRIORITY / 2,
        Priority::Low => COEFFICIENT_PRIORITY / 10,
    }
}

/// The age part of urgency: a fiftieth of a point per whole day since
/// creation, up to the full weight.
pub open spec fn age_term(created_at: Instant, now: Instant) -> int {
    let days: int = span_secs(created_at, now) as int / 86_400;
    if days * 2 > COEFFICIENT_AGE {
        COEFFICIENT_AGE as int
    } else {
        days * 2
    }
}

/// What an estimate text stands for, in seconds: a duration that is not
/// negative. A missing or unreadable text, or a negative duration such as
/// `-1h`, is no estimate.
pub open spec fn estimate_value(estimate: Option<Seq<char>>) -> Option<int> {
    match estimate {
        None => None,
        Some(e) => match duration_of(e) {
            Ok(secs) => if secs >= 0 {
                Some(secs)
            } else {
                None
            },
            Err(_) => None,
        },
    }
}

/// The seconds an estimate text stands for, if it is an estimate.
pub fn estimate_value_of(estimate: &Option<String>) -> (r: Option<u64>)
    ensures
        estimate_value(
            match estimate {
                Some(e) => Some(e@),
                None => None,
            },
        ) == match r {
            Some(v) => Some(v as int),
            None => None::<int>,
        },
{
    match estimate {
        None => None,
        Some(e) => match parse_duration(e.as_str()) {
            Ok(secs) => if secs >= 0 {
                Some(secs as u64)
            } else {
                None
            },
            Err(_) => None,
        },
    }
}

/// The estimate part of urgency: the full weight for at most half an hour,
/// half for at most an hour, a fifth for at most two hours; nothing for a
/// longer estimate or for no estimate (missing, unreadable or negative).
pub open spec fn estimate_term(estimate: Option<Seq<char>>) -> int {
    match estimate_value(estimate) {
        None => 0,
        Some(secs) => {
            let m = secs / 60;
            if m <= 30 {
                COEFFICIENT_ESTIMATE as int
            } else if m <= 60 {
                COEFFICIENT_ESTIMATE / 2
            } else if m <= 120 {
                COEFFICIENT_ESTIMATE / 5
            } else {
                0
            }
        },
    }
}

/// The estimate text of a task, as characters.
pub open spec fn estimate_text(t: Task) -> Option<Seq<char>> {
    match t.estimate {
        Some(e) => Some(e@),
        None => None,
    }
}

/// How urgent a task is at `now`.
pub open spec fn urgency(t: Task, now: Instant) -> int {
    if !(t.state is Pending) {
        NOT_PENDING_SCORE as int
    } else {
        due_term(t.due, now) + priority_term(t.priority) + age_term(t.created_at, now)
            + estimate_term(estimate_text(t))
    }
}

/// The score of a priority: 3 points for High, 2 for Medium, 1 for Low.
pub open spec fn priority_score(p: Priority) -> int {
    match p {
        Priority::High => 300,
        Priority::Medium => 200,
        Priority::Low => 100,
    }
}

/// The due-date score: the earlier the due date the higher (minus its
/// seconds since the epoch, in points); without one, the lowest score.
pub open spec fn due_score(due: Option<Instant>) -> int {
    match due {
        Some(d) => -100 * d.secs,
        None => i64::MIN as int,
    }
}

/// The score of a task under a strategy at `now`.
pub open spec fn score_of(t: Task, strategy: SortStrategy, now: Instant) -> int {
    match strategy {
        SortStrategy::Urgency => urgency(t, now),
        SortStrategy::Priority => priority_score(t.priority),
        SortStrategy::DueDate => due_score(t.due),
    }
}

fn due_points(due: Option<Instant>, now: Instant) -> (r: i64)
    requires
        now.wf(),
        due matches Some(d) ==> d.wf(),
    ensures
        r == due_term(due, now),
{
    match due {
        None => 0,
        Some(d) => {
            if d.is_before(&now) {
                COEFFICIENT_DUE * 2
            } else {
                let days = elapsed_secs(now, d) / 86_400;
                if days < 7 {
                    COEFFICIENT_DUE + (7 - days as i64) * 50
                } else if days < 14 {
                    COEFFICIENT_DUE / 2
                } else {
                    COEFFICIENT_DUE / 5
                }
            }
        },
    }
}

fn priority_points(p: Priority) -> (r: i64)
    ensures
        r == priority_term(p),
{
    match p {
        Priority::High => COEFFICIENT_PRIORITY,
        Priority::Medium => COEFFICIENT_PRIORITY / 2,
        Priority::Low => COEFFICIENT_PRIORITY / 10,
    }
}

fn age_points(created_at: Instant, now: Instant) -> (r: i64)
    requires
        created_at.wf(),
        now.wf(),
    ensures
        r == age_term(created_at, now),
{
    let days = elapsed_secs(created_at, now) / 86_400;
    if days > 100 {
        COEFFICIENT_AGE
    } else {
        (days * 2) as i64
    }
}

fn estimate_points(estimate: &Option<String>) -> (r: i64)
    ensures
        r == estimate_term(
            match estimate {
                Some(e) => Some(e@),
                None => None,
            },
        ),
{
    match estimate_value_of(estimate) {
        None => 0,
        Some(secs) => {
            if secs < 1860 {
                COEFFICIENT_ESTIMATE
            } else if secs < 3660 {
                COEFFICIENT_ESTIMATE / 2
            } else if secs < 7260 {
                COEFFICIENT_ESTIMATE / 5
            } else {
                0
            }
        },
    }
}

impl Task {
    /// The score of the task under `strategy` at `now`, in hundredths of a
    /// point; higher scores rank first.
    pub fn score_at(&self, strategy: SortStrategy, now: Instant) -> (r: i64)
        requires
            self.wf(),
            now.wf(),
        ensures
            r == score_of(*self, strategy, now),
    {
        match strategy {
            SortStrategy::Urgency => {
                if let TaskState::Pending { .. } = &self.state {
                    due_points(self.due, now) + priority_points(self.priority) + age_points(
                        self.created_at,
                        now,
                    ) + estimate_points(&self.estimate)
                } else {
                    NOT_PENDING_SCORE
                }
            },
            SortStrategy::Priority => match self.priority {
                Priority::High => 300,
                Priority::Medium => 200,
                Priority::Low => 100,
            },
            SortStrategy::DueDate => match self.due {
                Some(d) => {
                    assert(d.wf());
                    let scaled: i64 = d.secs * 100;
                    -scaled
                },
                None => i64::MIN,
            },
        }
    }

    /// The score of the task under `strategy` now.
    pub fn score(&self, strategy: SortStrategy) -> (r: i64)
        requires
            self.wf(),
        ensures
            exists|now: Instant| now.wf() && r == score_of(*self, strategy, now),
    {
        let now = crate::time::now();
        self.score_at(strategy, now)
    }
}

/// The score of `task` under `strategy` now.
pub fn calculate_score(task: &Task, strategy: SortStrategy) -> (r: i64)
    requires
        task.wf(),
    ensures
        exists|now: Instant| now.wf() && r == score_of(*task, strategy, now),
{
    task.score(strategy)
}

/// Every pending task is at least this urgent.
pub proof fn lemma_pending_urgency_floor(t: Task, now: Instant)
    requires
        t.state is Pending,
    ensures
        urgency(t, now) >= 60,
{
}

/// A task that is not pending scores exactly -100 points of urgency, below
/// every pending task.
pub proof fn lemma_not_pending_ranks_last(a: Task, b: Task, now: Instant)
    requires
        !(a.state is Pending),
        b.state is Pending,
    ensures
        urgency(a, now) == NOT_PENDING_SCORE,
        urgency(a, now) < urgency(b, now),
{
    lemma_pending_urgency_floor(b, now);
}

/// `p` lists each of `0..n` exactly once.
pub open spec fn is_permutation(p: Seq<int>, n: nat) -> bool {
    &&& p.len() == n
    &&& forall|k: int| 0 <= k < n ==> 0 <= #[trigger] p[k] < n
    &&& forall|a: int, b: int| 0 <= a < b < n ==> p[a] != p[b]
}

/// `after` places task `before[p[k]]` at position `k`, in descending order
/// of score at `now`, tasks of equal score keeping their order in `before`.
pub open spec fn stable_order(
    before: Seq<Task>,
    after: Seq<Task>,
    p: Seq<int>,
    strategy: SortStrategy,
    now: Instant,
) -> bool {
    &&& after.len() == before.len()
    &&& is_permutation(p, before.len())
    &&& forall|k: int| 0 <= k < after.len() ==> #[trigger] after[k] == before[p[k]]
    &&& forall|a: int, b: int|
        0 <= a < b < after.len() ==> score_of(#[trigger] after[a], strategy, now) > score_of(
            #[trigger] after[b],
            strategy,
            now,
        ) || (score_of(after[a], strategy, now) == score_of(after[b], strategy, now) && p[a] < p[b])
}

/// `after` is `before` sorted by descending score at `now`, and sorted
/// stably: tasks of equal score keep their relative order.
pub open spec fn sorted_by_score(
    before: Seq<Task>,
    after: Seq<Task>,
    strategy: SortStrategy,
    now: Instant,
) -> bool {
    exists|p: Seq<int>| stable_order(before, after, p, strategy, now)
}

/// Moving the element at `i` to position `j <= i` shifts those between right.
proof fn lemma_move<A>(s: Seq<A>, i: int, j: int)
    requires
        0 <= j <= i < s.len(),
    ensures
        s.remove(i).insert(j, s[i]).len() == s.len(),
        forall|m: int|
            0 <= m < s.len() ==> #[trigger] s.remove(i).insert(j, s[i])[m] == if m < j {
                s[m]
            } else if m == j {
                s[i]
            } else if m <= i {
                s[m - 1]
            } else {
                s[m]
            },
{
    s.remove_ensures(i);
    s.remove(i).insert_ensures(j, s[i]);
    assert forall|m: int| 0 <= m < s.len() implies #[trigger] s.remove(i).insert(j, s[i])[m] == if m < j {
        s[m]
    } else if m == j {
        s[i]
    } else if m <= i {
        s[m - 1]
    } else {
        s[m]
    } by {
        if m > j {
            assert(s.remove(i).insert(j, s[i])[(m - 1) + 1] == s.remove(i)[m - 1]);
        }
    }
}

/// Sorts `tasks` by descending score under `strategy` at `now`; tasks of
/// equal score keep their relative order.
pub fn sort_tasks_at(tasks: &mut Vec<Task>, strategy: SortStrategy, now: Instant)
    requires
        forall|k: int| 0 <= k < old(tasks)@.len() ==> (#[trigger] old(tasks)@[k]).wf(),
        now.wf(),
    ensures
        sorted_by_score(old(tasks)@, final(tasks)@, strategy, now),
{
    let ghost t0 = tasks@;
    let n = tasks.len();
    let mut keys: Vec<i64> = Vec::new();
    let mut k: usize = 0;
    while k < n
        invariant
            tasks@ == t0,
            n == t0.len(),
            k <= n,
            now.wf(),
            forall|m: int| 0 <= m < t0.len() ==> (#[trigger] t0[m]).wf(),
            keys@.len() == k,
            forall|m: int| 0 <= m < k ==> keys@[m] == score_of(#[trigger] t0[m], strategy, now),
        decreases n - k,
    {
        let sc = tasks[k].score_at(strategy, now);
        keys.push(sc);
        k = k + 1;
    }
    let ghost mut p: Seq<int> = Seq::new(n as nat, |m: int| m);
    let mut i: usize = 0;
    while i < n
        invariant
            n == t0.len(),
            i <= n,
            tasks@.len() == n,
            keys@.len() == n,
            p.len() == n,
            forall|m: int| 0 <= m < n ==> #[trigger] tasks@[m] == t0[p[m]],
            forall|m: int| 0 <= m < n ==> keys@[m] == score_of(#[trigger] tasks@[m], strategy, now),
            forall|m: int| i <= m < n ==> #[trigger] p[m] == m,
            forall|m: int| 0 <= m < i ==> 0 <= #[trigger] p[m] < i,
            forall|a: int, b: int| 0 <= a < b < i ==> p[a] != p[b],
            forall|a: int, b: int|
                0 <= a < b < i ==> #[trigger] keys@[a] > #[trigger] keys@[b] || (keys@[a] == keys@[b]
                    && p[a] < p[b]),
        decreases n - i,
    {
        let ghost tk = tasks@;
        let ghost kk = keys@;
        let ghost pp = p;
        let x = tasks.remove(i);
        let kx = keys.remove(i);
        assert(keys@ == kk.remove(i as int));
        proof {
            kk.remove_ensures(i as int);
        }
        let mut j: usize = i;
        while j > 0 && keys[j - 1] < kx
            invariant
                j <= i < n,
                keys@ == kk.remove(i as int),
                kk.remove(i as int).len() == n - 1,
                forall|m: int| j <= m < i ==> kk[m] < kx,
                forall|m: int| 0 <= m < i ==> #[trigger] kk.remove(i as int)[m] == kk[m],
            decreases j,
        {
            j = j - 1;
        }
        tasks.insert(j, x);
        keys.insert(j, kx);
        proof {
            lemma_move(tk, i as int, j as int);
            lemma_move(kk, i as int, j as int);
            lemma_move(pp, i as int, j as int);
            p = pp.remove(i as int).insert(j as int, pp[i as int]);
            assert(tasks@ == tk.remove(i as int).insert(j as int, tk[i as int]));
            assert(keys@ == kk.remove(i as int).insert(j as int, kk[i as int]));
            assert forall|m: int| 0 <= m < n implies #[trigger] tasks@[m] == t0[p[m]] by {
                if m < j {
                } else if m == j {
                } else if m <= i {
                    assert(tk[m - 1] == t0[pp[m - 1]]);
                } else {
                }
            }
            assert forall|m: int| 0 <= m < n implies keys@[m] == score_of(#[trigger] tasks@[m], strategy, now) by {
                if m < j {
                } else if m == j {
                } else if m <= i {
                    assert(kk[m - 1] == score_of(tk[m - 1], strategy, now));
                } else {
                }
            }
            assert forall|a: int, b: int| 0 <= a < b < i + 1 implies p[a] != p[b] by {
                let pa = if a < j { pp[a] } else if a == j { pp[i as int] } else { pp[a - 1] };
                let pb = if b < j { pp[b] } else if b == j { pp[i as int] } else { pp[b - 1] };
                assert(p[a] == pa);
                assert(p[b] == pb);
            }
            assert forall|m: int| 0 <= m < i + 1 implies 0 <= #[trigger] p[m] < i + 1 by {
                if m < j {
                } else if m == j {
                } else {
                    assert(0 <= pp[m - 1] < i);
                }
            }
            assert forall|a: int, b: int|
                0 <= a < b < i + 1 implies #[trigger] keys@[a] > #[trigger] keys@[b] || (keys@[a]
                == keys@[b] && p[a] < p[b]) by {
                if b < j {
                } else if b == j {
                    if a < j - 1 {
                        assert(kk[a] > kk[j - 1] || (kk[a] == kk[j - 1] && pp[a] < pp[j - 1]));
                    }
                    assert(kk[j - 1] >= kx);
                    assert(0 <= pp[a] < i);
                } else if a < j {
                    assert(kk[a] > kk[b - 1] || (kk[a] == kk[b - 1] && pp[a] < pp[b - 1]));
                } else if a == j {
                    assert(kk[b - 1] < kx);
                } else {
                    assert(kk[a - 1] > kk[b - 1] || (kk[a - 1] == kk[b - 1] && pp[a - 1] < pp[b - 1]));
                }
            }
        }
        i = i + 1;
    }
    assert(stable_order(t0, tasks@, p, strategy, now));
}

/// Sorts `tasks` by descending score under `strategy` now; tasks of equal
/// score keep their relative order.
pub fn sort_tasks(tasks: &mut Vec<Task>, strategy: SortStrategy)
    requires
        forall|k: int| 0 <= k < old(tasks)@.len() ==> (#[trigger] old(tasks)@[k]).wf(),
    ensures
        exists|now: Instant| now.wf() && sorted_by_score(old(tasks)@, final(tasks)@, strategy, now),
{
    let now = crate::time::now();
    sort_tasks_at(tasks, strategy, now);
}

/// Sorted by priority, High tasks come before Medium ones and Medium before
/// Low; tasks of the same priority keep their relative order.
pub proof fn lemma_priority_sort_order(before: Seq<Task>, after: Seq<Task>, now: Instant)
    requires
        sorted_by_score(before, after, SortStrategy::Priority, now),
    ensures
        forall|a: int, b: int|
            0 <= a < b < after.len() ==> priority_score((#[trigger] after[a]).priority) >= priority_score(
                (#[trigger] after[b]).priority,
            ),
        exists|p: Seq<int>|
            {
                &&& is_permutation(p, before.len())
                &&& forall|k: int| 0 <= k < after.len() ==> #[trigger] after[k] == before[p[k]]
                &&& forall|a: int, b: int|
                    0 <= a < b < after.len() && (#[trigger] after[a]).priority == (
                    #[trigger] after[b]).priority ==> p[a] < p[b]
            },
{
    let p = choose|p: Seq<int>| stable_order(before, after, p, SortStrategy::Priority, now);
    assert forall|a: int, b: int| 0 <= a < b < after.len() && (#[trigger] after[a]).priority == (
        #[trigger] after[b]).priority implies p[a] < p[b] by {
        assert(score_of(after[a], SortStrategy::Priority, now) > score_of(after[b], SortStrategy::Priority, now)
            || (score_of(after[a], SortStrategy::Priority, now) == score_of(after[b], SortStrategy::Priority, now)
            && p[a] < p[b]));
    }
    assert forall|a: int, b: int| 0 <= a < b < after.len() implies priority_score((#[trigger] after[a]).priority)
        >= priority_score((#[trigger] after[b]).priority) by {
        assert(score_of(after[a], SortStrategy::Priority, now) > score_of(after[b], SortStrategy::Priority, now)
            || (score_of(after[a], SortStrategy::Priority, now) == score_of(after[b], SortStrategy::Priority, now)
            && p[a] < p[b]));
    }
}

} // verus!
