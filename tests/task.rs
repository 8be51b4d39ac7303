use todoism::task::{Priority, Task, TaskState, TimeLog};
use todoism::time::Instant;

fn at(secs: i64) -> Instant {
    Instant::new(secs, 0)
}

fn pending_with(logs: Vec<TimeLog>) -> Task {
    let mut t = Task::new_at(7, "Logged".to_string(), None, at(1_709_550_000));
    t.state = TaskState::Pending { time_logs: logs };
    t
}

#[test]
fn test_task_tracking_lifecycle() {
    let mut task = Task::new("Test Task".to_string(), None);

    task.start_tracking();
    assert!(task.is_tracking());

    if let TaskState::Pending { time_logs } = &task.state {
        assert_eq!(time_logs.len(), 1);
        assert!(time_logs[0].end.is_none());
    } else {
        panic!("Task should be Pending");
    }

    task.stop_tracking();
    assert!(!task.is_tracking());

    if let TaskState::Pending { time_logs } = &task.state {
        assert!(time_logs[0].end.is_some());
    }

    task.start_tracking();
    if let TaskState::Pending { time_logs } = &task.state {
        assert_eq!(time_logs.len(), 2);
    }

    task.complete();

    if let TaskState::Completed { time_logs, actual_duration, completed_at: _ } = &task.state {
        assert!(!time_logs.is_empty(), "Time logs should be preserved");
        assert_eq!(time_logs.len(), 2);
        assert!(actual_duration.is_none(), "New completions should not set actual_duration");
    } else {
        panic!("Task should be Completed");
    }
}

#[test]
fn new_task_defaults() {
    let t = Task::new_at(42, "Write".to_string(), Some(at(100)), at(50));
    assert_eq!(t.id, 42);
    assert_eq!(t.priority, Priority::Medium);
    assert_eq!(t.state, TaskState::Pending { time_logs: vec![] });
    assert_eq!(t.due, Some(at(100)));
    assert_eq!(t.created_at, at(50));
    assert!(t.description.is_none() && t.project.is_none() && t.estimate.is_none());
}

#[test]
fn elapsed_total_of_two_closed_logs_is_exact() {
    let t = pending_with(vec![
        TimeLog { start: at(1_709_629_200), end: Some(at(1_709_632_800)) },
        TimeLog { start: at(1_709_636_400), end: Some(at(1_709_638_200)) },
    ]);
    assert_eq!(t.elapsed_total_at(at(1_709_700_000)), 5400);
}

#[test]
fn elapsed_total_counts_open_log_up_to_now() {
    let t = pending_with(vec![
        TimeLog { start: at(1000), end: Some(at(1600)) },
        TimeLog { start: at(2000), end: None },
    ]);
    assert_eq!(t.elapsed_total_at(at(2090)), 690);
}

#[test]
fn elapsed_total_drops_partial_seconds_and_backward_logs() {
    let t = pending_with(vec![
        TimeLog { start: Instant::new(10, 900_000_000), end: Some(Instant::new(12, 100_000_000)) },
        TimeLog { start: at(500), end: Some(at(400)) },
    ]);
    assert_eq!(t.elapsed_total_at(at(1000)), 1);
}

#[test]
fn elapsed_total_of_legacy_completion() {
    let mut t = pending_with(vec![]);
    t.state = TaskState::Completed { completed_at: at(5000), time_logs: vec![], actual_duration: Some(7200) };
    assert_eq!(t.elapsed_total_at(at(9000)), 7200);
    t.delete();
    assert_eq!(t.elapsed_total_at(at(9000)), 0);
}

#[test]
fn elapsed_today_counts_logs_by_start_day() {
    // A log from 23:00 to 01:00 (UTC) counts in full on the day it started.
    let t = pending_with(vec![
        TimeLog { start: at(1_709_593_200), end: Some(at(1_709_600_400)) },
        TimeLog { start: at(1_709_629_200), end: None },
    ]);
    let now = at(1_709_630_100);
    assert_eq!(t.elapsed_today_at(19786, 0, now), 7200);
    assert_eq!(t.elapsed_today_at(19787, 0, now), 900);
    // Two hours east of UTC, the first log starts on 19787 too.
    assert_eq!(t.elapsed_today_at(19787, 7200, now), 8100);
}

#[test]
fn start_tracking_twice_leaves_one_open_log() {
    let mut t = pending_with(vec![]);
    t.start_tracking_at(at(100));
    t.start_tracking_at(at(200));
    match &t.state {
        TaskState::Pending { time_logs } => {
            assert_eq!(time_logs.len(), 1);
            assert_eq!(time_logs[0], TimeLog { start: at(100), end: None });
        },
        _ => panic!("still pending"),
    }
    assert!(t.is_tracking());
}

#[test]
fn stop_tracking_without_open_log_changes_nothing() {
    let mut t = pending_with(vec![TimeLog { start: at(10), end: Some(at(20)) }]);
    let before = t.clone();
    t.stop_tracking_at(at(30));
    assert_eq!(t, before);
    t.start_tracking_at(at(40));
    t.stop_tracking_at(at(55));
    assert_eq!(
        t.state,
        TaskState::Pending {
            time_logs: vec![
                TimeLog { start: at(10), end: Some(at(20)) },
                TimeLog { start: at(40), end: Some(at(55)) },
            ],
        }
    );
}

#[test]
fn complete_closes_open_log_and_stops_tracking() {
    let mut t = pending_with(vec![TimeLog { start: at(10), end: None }]);
    t.complete_at(at(70));
    assert!(!t.is_tracking());
    assert_eq!(
        t.state,
        TaskState::Completed {
            completed_at: at(70),
            time_logs: vec![TimeLog { start: at(10), end: Some(at(70)) }],
            actual_duration: None,
        }
    );
    // Completing again keeps the first completion.
    t.complete_at(at(90));
    assert!(matches!(t.state, TaskState::Completed { completed_at, .. } if completed_at == at(70)));
}

#[test]
fn reopen_and_delete() {
    let mut t = pending_with(vec![TimeLog { start: at(10), end: Some(at(20)) }]);
    t.reopen();
    assert_eq!(t.state, TaskState::Pending { time_logs: vec![TimeLog { start: at(10), end: Some(at(20)) }] });
    t.complete_at(at(30));
    t.reopen();
    assert_eq!(t.state, TaskState::Pending { time_logs: vec![] });
    t.delete();
    assert_eq!(t.state, TaskState::Deleted);
    t.start_tracking_at(at(40));
    assert_eq!(t.state, TaskState::Deleted);
    t.reopen();
    assert_eq!(t.state, TaskState::Pending { time_logs: vec![] });
}
