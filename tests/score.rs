use todoism::score::{calculate_score, sort_tasks, sort_tasks_at, SortStrategy};
use todoism::task::{Priority, Task, TaskState};
use todoism::time::Instant;

const DAY: i64 = 86_400;
const NOW: i64 = 1_709_640_000;

fn at(secs: i64) -> Instant {
    Instant::new(secs, 0)
}

fn task(id: u128, priority: Priority, due: Option<i64>, age_days: i64, estimate: Option<&str>) -> Task {
    let mut t = Task::new_at(id, format!("task {}", id), due.map(at), at(NOW - age_days * DAY));
    t.priority = priority;
    t.estimate = estimate.map(|e| e.to_string());
    t
}

fn ids(tasks: &[Task]) -> Vec<u128> {
    tasks.iter().map(|t| t.id).collect()
}

#[test]
fn urgency_of_plain_medium_task() {
    let t = task(1, Priority::Medium, None, 0, None);
    assert_eq!(t.score_at(SortStrategy::Urgency, at(NOW)), 300);
}

#[test]
fn urgency_adds_all_terms() {
    // Due in three days: 12 + 4 * 0.5; High: 6; fifty days old: 1; thirty minutes: 5.
    let t = task(1, Priority::High, Some(NOW + 3 * DAY + 100), 50, Some("30m"));
    assert_eq!(t.score_at(SortStrategy::Urgency, at(NOW)), 2600);
}

#[test]
fn urgency_due_date_bands() {
    let now = at(NOW);
    assert_eq!(task(1, Priority::Low, Some(NOW - 1), 0, None).score_at(SortStrategy::Urgency, now), 2400 + 60);
    assert_eq!(task(1, Priority::Low, Some(NOW), 0, None).score_at(SortStrategy::Urgency, now), 1550 + 60);
    assert_eq!(task(1, Priority::Low, Some(NOW + 10 * DAY), 0, None).score_at(SortStrategy::Urgency, now), 600 + 60);
    assert_eq!(task(1, Priority::Low, Some(NOW + 20 * DAY), 0, None).score_at(SortStrategy::Urgency, now), 240 + 60);
}

#[test]
fn urgency_age_is_capped() {
    assert_eq!(task(1, Priority::Low, None, 150, None).score_at(SortStrategy::Urgency, at(NOW)), 200 + 60);
    assert_eq!(task(1, Priority::Low, None, 1, None).score_at(SortStrategy::Urgency, at(NOW)), 2 + 60);
}

#[test]
fn urgency_estimate_bands() {
    let now = at(NOW);
    let score = |e: &str| task(1, Priority::Low, None, 0, Some(e)).score_at(SortStrategy::Urgency, now) - 60;
    assert_eq!(score("0m"), 500);
    assert_eq!(score("45m"), 250);
    assert_eq!(score("2h"), 100);
    assert_eq!(score("3h"), 0);
    assert_eq!(score("lots"), 0);
    assert_eq!(score("-1h"), 0);
    assert_eq!(score("-5m"), 0);
}

#[test]
fn not_pending_tasks_score_minus_one_hundred() {
    let mut done = task(1, Priority::High, Some(NOW - 1), 200, Some("10m"));
    done.complete_at(at(NOW));
    assert_eq!(done.score_at(SortStrategy::Urgency, at(NOW)), -10_000);
    let mut gone = task(2, Priority::High, None, 0, None);
    gone.delete();
    assert_eq!(gone.score_at(SortStrategy::Urgency, at(NOW)), -10_000);
    let lowest = task(3, Priority::Low, None, 0, None);
    assert!(gone.score_at(SortStrategy::Urgency, at(NOW)) < lowest.score_at(SortStrategy::Urgency, at(NOW)));
}

#[test]
fn priority_and_due_scores() {
    assert_eq!(calculate_score(&task(1, Priority::High, None, 0, None), SortStrategy::Priority), 300);
    assert_eq!(calculate_score(&task(1, Priority::Medium, None, 0, None), SortStrategy::Priority), 200);
    assert_eq!(calculate_score(&task(1, Priority::Low, None, 0, None), SortStrategy::Priority), 100);
    assert_eq!(calculate_score(&task(1, Priority::Low, Some(1000), 0, None), SortStrategy::DueDate), -100_000);
    assert_eq!(calculate_score(&task(1, Priority::Low, None, 0, None), SortStrategy::DueDate), i64::MIN);
}

#[test]
fn priority_sort_is_stable() {
    let mut tasks = vec![
        task(1, Priority::Low, None, 0, None),
        task(2, Priority::High, None, 0, None),
        task(3, Priority::Medium, None, 0, None),
        task(4, Priority::High, None, 0, None),
        task(5, Priority::Low, None, 0, None),
        task(6, Priority::Medium, None, 0, None),
    ];
    sort_tasks(&mut tasks, SortStrategy::Priority);
    assert_eq!(ids(&tasks), vec![2, 4, 3, 6, 1, 5]);
}

#[test]
fn due_date_sort_puts_earliest_first_and_missing_last() {
    let mut tasks = vec![
        task(1, Priority::Low, None, 0, None),
        task(2, Priority::Low, Some(NOW + 5 * DAY), 0, None),
        task(3, Priority::Low, Some(NOW + DAY), 0, None),
        task(4, Priority::Low, None, 0, None),
    ];
    sort_tasks_at(&mut tasks, SortStrategy::DueDate, at(NOW));
    assert_eq!(ids(&tasks), vec![3, 2, 1, 4]);
}

#[test]
fn urgency_sort_puts_finished_tasks_last() {
    let mut done = task(1, Priority::High, Some(NOW - 1), 0, None);
    done.complete_at(at(NOW));
    let mut tasks = vec![done, task(2, Priority::Low, None, 0, None), task(3, Priority::High, None, 0, None)];
    sort_tasks_at(&mut tasks, SortStrategy::Urgency, at(NOW));
    assert_eq!(ids(&tasks), vec![3, 2, 1]);
    assert!(matches!(tasks[2].state, TaskState::Completed { .. }));
}
