use todoism::dto::{TaskDto, TaskStatus};
use todoism::plan::apply_daily_plan;
use todoism::task::{Task, TaskState, TimeLog};
use todoism::time::Instant;

const NOW: i64 = 1_709_640_000; // 2024-03-05 12:00 UTC

fn at(secs: i64) -> Instant {
    Instant::new(secs, 0)
}

fn dto(id: u128, status: TaskStatus, tracking: bool, today: u64, remaining: u64) -> TaskDto {
    let mut d = TaskDto::from_entity_at(Task::new_at(id, "t".to_string(), None, at(NOW)), 0, at(NOW), 0);
    d.status = status;
    d.is_tracking = tracking;
    d.today_accumulated_time = today;
    d.remaining_estimate = remaining;
    d
}

#[test]
fn capacity_with_meetings_and_work_done() {
    let mut tasks = vec![
        dto(1, TaskStatus::Pending, false, 3 * 3600, 9000),
        dto(2, TaskStatus::Pending, false, 0, 4 * 3600),
        dto(3, TaskStatus::Pending, false, 0, 0),
        dto(4, TaskStatus::Pending, true, 0, 600),
        dto(5, TaskStatus::Completed, false, 0, 600),
    ];
    let stats = apply_daily_plan(&mut tasks, 2 * 3600);
    assert_eq!(stats.total_capacity, 8 * 3600);
    assert_eq!(stats.meeting_time, 2 * 3600);
    assert_eq!(stats.work_done_today, 3 * 3600);
    assert_eq!(stats.remaining_active_capacity, 3 * 3600);
    let fits: Vec<Option<bool>> = tasks.iter().map(|t| t.fit).collect();
    assert_eq!(fits, vec![Some(true), Some(false), None, None, None]);
    assert_eq!(tasks[0].id, 1);
}

#[test]
fn capacity_never_goes_below_zero() {
    let mut tasks = vec![dto(1, TaskStatus::Pending, false, 3600, 60)];
    let stats = apply_daily_plan(&mut tasks, 9 * 3600);
    assert_eq!(stats.remaining_active_capacity, 0);
    assert_eq!(tasks[0].fit, Some(false));
}

#[test]
fn dto_of_tracked_pending_task() {
    let mut t = Task::new_at(5, "write".to_string(), None, at(NOW - 86_400));
    t.estimate = Some("2h".to_string());
    t.state = TaskState::Pending {
        time_logs: vec![
            TimeLog { start: at(NOW - 86_400), end: Some(at(NOW - 86_400 + 1800)) },
            TimeLog { start: at(NOW - 600), end: None },
        ],
    };
    let d = TaskDto::from_entity_at(t, 123, at(NOW), 0);
    assert_eq!(d.status, TaskStatus::Pending);
    assert!(d.is_tracking);
    assert_eq!(d.accumulated_time, 2400);
    assert_eq!(d.today_accumulated_time, 600);
    assert_eq!(d.remaining_estimate, 7200 - 2400);
    assert_eq!(d.score, 123);
    assert_eq!(d.completed_at, None);
    assert_eq!(d.fit, None);
}

#[test]
fn dto_of_completed_task() {
    let mut t = Task::new_at(6, "done".to_string(), None, at(NOW - 86_400));
    t.estimate = Some("30m".to_string());
    t.state = TaskState::Completed {
        completed_at: at(NOW - 60),
        time_logs: vec![TimeLog { start: at(NOW - 3600), end: Some(at(NOW - 60)) }],
        actual_duration: None,
    };
    let d = TaskDto::from_entity(t, 0);
    assert_eq!(d.status, TaskStatus::Completed);
    assert!(!d.is_tracking);
    assert_eq!(d.accumulated_time, 3540);
    assert_eq!(d.remaining_estimate, 0);
    assert_eq!(d.completed_at, Some(at(NOW - 60)));
}

#[test]
fn negative_estimate_leaves_nothing_remaining() {
    let mut t = Task::new_at(7, "neg".to_string(), None, at(NOW));
    t.estimate = Some("-2h".to_string());
    let d = TaskDto::from_entity_at(t, 0, at(NOW), 0);
    assert_eq!(d.remaining_estimate, 0);
    let mut views = vec![d];
    apply_daily_plan(&mut views, 0);
    assert_eq!(views[0].fit, None);
}
