use todoism::daily_log::{meeting_days, DailyLog, Meeting};
use todoism::dto::{sorted_views, TaskStatus};
use todoism::history::{weekly_history, DayMeetings};
use todoism::score::SortStrategy;
use todoism::stats_view::StatsApp;
use todoism::task::{Priority, Task, TaskState, TimeLog};
use todoism::time::Instant;

fn at(secs: i64) -> Instant {
    Instant::new(secs, 0)
}

#[test]
fn daily_log_totals() {
    let log = DailyLog::new(19787, 5400);
    assert_eq!(log.meetings, vec![Meeting { name: "all".to_string(), secs: 5400 }]);
    assert_eq!(log.total_secs(), 5400);
    let two = DailyLog {
        date: 19788,
        meetings: vec![Meeting { name: "a".to_string(), secs: 600 }, Meeting { name: "b".to_string(), secs: 900 }],
    };
    assert_eq!(two.total_secs(), 1500);
    assert_eq!(
        meeting_days(&vec![log, two]),
        vec![DayMeetings { day: 19787, secs: 5400 }, DayMeetings { day: 19788, secs: 1500 }]
    );
}

#[test]
fn toggle_status_completes_then_reopens() {
    let mut t = Task::new_at(1, "t".to_string(), None, at(0));
    t.state = TaskState::Pending { time_logs: vec![TimeLog { start: at(10), end: None }] };
    t.toggle_status_at(at(50));
    assert_eq!(
        t.state,
        TaskState::Completed {
            completed_at: at(50),
            time_logs: vec![TimeLog { start: at(10), end: Some(at(50)) }],
            actual_duration: None,
        }
    );
    t.toggle_status_at(at(60));
    assert_eq!(t.state, TaskState::Pending { time_logs: vec![] });
}

#[test]
fn sorted_views_carry_scores_in_order() {
    let now = at(1_709_640_000);
    let mut low = Task::new_at(1, "low".to_string(), None, now);
    low.priority = Priority::Low;
    let mut high = Task::new_at(2, "high".to_string(), None, now);
    high.priority = Priority::High;
    let views = sorted_views(vec![low, high], SortStrategy::Priority, now, 0);
    assert_eq!(views.iter().map(|v| v.id).collect::<Vec<_>>(), vec![2, 1]);
    assert_eq!(views[0].score, 300);
    assert_eq!(views[1].score, 100);
    assert_eq!(views[0].status, TaskStatus::Pending);
}

#[test]
fn stats_app_navigation() {
    let mut tasks = Vec::new();
    for (i, day) in [19787i64, 19780, 19773].iter().enumerate() {
        let mut t = Task::new_at(i as u128, "t".to_string(), None, at(0));
        t.state = TaskState::Completed { completed_at: at(day * 86_400 + 3600), time_logs: vec![], actual_duration: None };
        tasks.push(t);
    }
    let history = weekly_history(&tasks, 0, &vec![], &vec![]);
    assert_eq!(history.len(), 3);
    let mut app = StatsApp::new(history);
    assert_eq!(app.current_data().map(|w| w.week), Some(10));
    app.previous_week();
    assert_eq!(app.current_week_index, 0);
    app.next_week();
    app.next_week();
    app.next_week();
    assert_eq!(app.current_week_index, 2);
    assert_eq!(app.current_data().map(|w| w.week), Some(8));
    app.next_tab();
    assert_eq!(app.current_tab, 1);
    app.next_tab();
    assert_eq!(app.current_tab, 0);
    let empty = StatsApp::new(vec![]);
    assert!(empty.current_data().is_none());
}
