use todoism::history::{get_weekly_history, weekly_history, ArchivedDay, DayMeetings};
use todoism::task::{Task, TaskState, TimeLog};
use todoism::time::{date_label, Instant};

const HOUR: i64 = 3600;
const DAY: i64 = 86_400;

fn at(secs: i64) -> Instant {
    Instant::new(secs, 0)
}

fn completed(id: u128, when: i64, logs: Vec<TimeLog>, estimate: Option<&str>) -> Task {
    let mut t = Task::new_at(id, format!("task {}", id), None, at(when - 10 * DAY));
    t.estimate = estimate.map(|e| e.to_string());
    t.state = TaskState::Completed { completed_at: at(when), time_logs: logs, actual_duration: None };
    t
}

#[test]
fn test_get_weekly_history_split_days() {
    let now: i64 = 1_709_640_000;
    let yesterday = now - DAY;
    let task = completed(
        1,
        now,
        vec![
            TimeLog { start: at(yesterday), end: Some(at(yesterday + HOUR)) },
            TimeLog { start: at(now), end: Some(at(now + 2 * HOUR)) },
        ],
        None,
    );
    let history = weekly_history(&vec![task], 0, &vec![], &vec![]);

    let mut found_yesterday = false;
    let mut found_today = false;
    for week in history {
        for day in week.days {
            if day.date == "2024-03-04" {
                assert_eq!(day.stats.total_act_secs, 3600);
                found_yesterday = true;
            }
            if day.date == "2024-03-05" {
                assert_eq!(day.stats.total_act_secs, 7200);
                found_today = true;
            }
        }
    }
    assert!(found_yesterday, "Should have found stats for yesterday");
    assert!(found_today, "Should have found stats for today");
}

#[test]
fn completions_either_side_of_local_midnight_split_days_and_weeks() {
    // 2024-01-07 23:59 and 2024-01-08 00:01 at UTC+1; ISO weeks 1 and 2.
    let a = completed(1, 1_704_671_940 - HOUR, vec![], Some("1h"));
    let b = completed(2, 1_704_672_060 - HOUR, vec![], Some("2h"));
    let history = weekly_history(&vec![a, b], 3600, &vec![], &vec![]);
    assert_eq!(history.len(), 2);
    assert_eq!((history[0].year, history[0].week), (2024, 2));
    assert_eq!((history[1].year, history[1].week), (2024, 1));
    assert_eq!(history[0].days.len(), 1);
    assert_eq!(history[0].days[0].date, "2024-01-08");
    assert_eq!(history[0].days[0].day_of_week, "Mon");
    assert_eq!(history[0].days[0].tasks, vec![1]);
    assert_eq!(history[0].days[0].stats.total_est_secs, 7200);
    assert_eq!(history[1].days[0].date, "2024-01-07");
    assert_eq!(history[1].days[0].day_of_week, "Sun");
    assert_eq!(history[1].days[0].tasks, vec![0]);
    assert_eq!(history[1].stats.total_est_secs, 3600);
    // At UTC both fall on 2024-01-07, in one bucket.
    let a = completed(1, 1_704_671_940 - HOUR, vec![], Some("1h"));
    let b = completed(2, 1_704_672_060 - HOUR, vec![], Some("2h"));
    let utc = weekly_history(&vec![a, b], 0, &vec![], &vec![]);
    assert_eq!(utc.len(), 1);
    assert_eq!(utc[0].days.len(), 1);
    assert_eq!(utc[0].days[0].tasks, vec![0, 1]);
    assert_eq!(utc[0].days[0].stats.total_est_secs, 10_800);
}

#[test]
fn pending_task_is_listed_on_every_day_it_touches() {
    let mon: i64 = 1_709_510_400; // 2024-03-04 00:00 UTC
    let mut t = Task::new_at(9, "open".to_string(), None, at(mon - DAY));
    t.estimate = Some("5h".to_string());
    t.state = TaskState::Pending {
        time_logs: vec![
            TimeLog { start: at(mon + 23 * HOUR), end: Some(at(mon + 25 * HOUR)) },
            TimeLog { start: at(mon + 2 * DAY + HOUR), end: None },
        ],
    };
    let mut gone = Task::new_at(3, "gone".to_string(), None, at(mon));
    gone.delete();
    let idle = Task::new_at(4, "idle".to_string(), None, at(mon));
    let meetings = vec![DayMeetings { day: 19787, secs: 5400 }, DayMeetings { day: 19787, secs: 60 }];
    let history = weekly_history(&vec![gone, t, idle], 0, &meetings, &vec![]);
    assert_eq!(history.len(), 1);
    let days: Vec<String> = history[0].days.iter().map(|d| d.date.clone()).collect();
    assert_eq!(days, vec!["2024-03-06", "2024-03-05", "2024-03-04"]);
    for d in &history[0].days {
        assert_eq!(d.tasks, vec![1]);
        assert_eq!(d.stats.total_est_secs, 0);
    }
    assert_eq!(history[0].days[2].stats.total_act_secs, 7200);
    assert_eq!(history[0].days[1].stats.total_act_secs, 0);
    assert_eq!(history[0].days[1].stats.meeting_secs, 5400);
    assert_eq!(history[0].stats.total_act_secs, 7200);
    assert_eq!(history[0].stats.meeting_secs, 5400);
}

#[test]
fn tasks_within_a_day_are_ordered_by_id() {
    let when: i64 = 1_709_640_000;
    let tasks = vec![completed(30, when, vec![], None), completed(10, when + 60, vec![], None), completed(20, when, vec![], None)];
    let history = get_weekly_history(&tasks, &vec![], &vec![]);
    let all: Vec<usize> = history.iter().flat_map(|w| w.days.iter().flat_map(|d| d.tasks.clone())).collect();
    let mut sorted = all.clone();
    sorted.sort();
    assert_eq!(sorted, vec![0, 1, 2]);
    let utc = weekly_history(&tasks, 0, &vec![], &vec![]);
    assert_eq!(utc[0].days[0].tasks, vec![1, 2, 0]);
    assert_eq!(utc[0].days[0].date, date_label(19787));
}

#[test]
fn legacy_duration_counts_on_completion_day() {
    let when: i64 = 1_709_640_000;
    let mut t = completed(1, when, vec![], None);
    t.state = TaskState::Completed { completed_at: at(when), time_logs: vec![], actual_duration: Some(5400) };
    let history = weekly_history(&vec![t], 0, &vec![], &vec![]);
    assert_eq!(history[0].days[0].stats.total_act_secs, 5400);
    assert!(weekly_history(&vec![], 0, &vec![], &vec![]).is_empty());
}

#[test]
fn archived_days_join_history_and_unreadable_ones_are_dropped() {
    let when: i64 = 1_709_640_000; // 2024-03-05
    let t = completed(1, when, vec![], Some("1h"));
    let archived = vec![
        ArchivedDay { date: "2024-03-05".to_string(), est_secs: 600, act_secs: 1200, mtg_secs: 300 },
        ArchivedDay { date: "2024-13-45".to_string(), est_secs: 9, act_secs: 9, mtg_secs: 9 },
        ArchivedDay { date: "2024-02-01".to_string(), est_secs: 0, act_secs: 3600, mtg_secs: 0 },
    ];
    let meetings = vec![DayMeetings { day: 19787, secs: 1800 }];
    let history = weekly_history(&vec![t], 0, &meetings, &archived);
    assert_eq!(history.len(), 2);
    let today = &history[0].days[0];
    assert_eq!(today.date, "2024-03-05");
    assert_eq!(today.tasks, vec![0]);
    assert_eq!(today.stats.total_est_secs, 3600 + 600);
    assert_eq!(today.stats.total_act_secs, 1200);
    assert_eq!(today.stats.meeting_secs, 1800 + 300);
    let old = &history[1];
    assert_eq!((old.year, old.week), (2024, 5));
    assert_eq!(old.days[0].date, "2024-02-01");
    assert!(old.days[0].tasks.is_empty());
    assert_eq!(old.stats.total_act_secs, 3600);
}

#[test]
fn negative_estimates_count_as_no_estimate() {
    let when: i64 = 1_709_640_000;
    let a = completed(1, when, vec![], Some("-1h"));
    let b = completed(2, when, vec![], Some("30m"));
    let history = weekly_history(&vec![a, b], 0, &vec![], &vec![]);
    assert_eq!(history[0].days[0].tasks, vec![0, 1]);
    assert_eq!(history[0].days[0].stats.total_est_secs, 1800);
    assert_eq!(history[0].stats.total_est_secs, 1800);
}
