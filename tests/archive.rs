use todoism::archive::{archive_cutoff, archive_totals, should_archive, split_archivable};
use todoism::history::ArchivedDay;
use todoism::task::{Task, TaskState, TimeLog};
use todoism::time::Instant;

const NOW: i64 = 1_709_640_000; // 2024-03-05 12:00 UTC
const DAY: i64 = 86_400;

fn at(secs: i64) -> Instant {
    Instant::new(secs, 0)
}

fn done(id: u128, when: i64) -> Task {
    let mut t = Task::new_at(id, format!("t{}", id), None, at(when - DAY));
    t.state = TaskState::Completed { completed_at: at(when), time_logs: vec![], actual_duration: None };
    t
}

#[test]
fn cutoff_is_whole_days_back() {
    assert_eq!(archive_cutoff(at(NOW), 30), Some(at(NOW - 30 * DAY)));
    assert_eq!(archive_cutoff(at(NOW), i64::MAX), None);
}

#[test]
fn which_tasks_are_archived() {
    let cutoff = at(NOW - 30 * DAY);
    assert!(should_archive(&done(1, NOW - 40 * DAY), cutoff));
    assert!(!should_archive(&done(2, NOW - 10 * DAY), cutoff));
    let mut gone = Task::new_at(3, "gone".to_string(), None, at(NOW - 50 * DAY));
    gone.delete();
    assert!(should_archive(&gone, cutoff));
    let pending = Task::new_at(4, "open".to_string(), None, at(NOW - 90 * DAY));
    assert!(!should_archive(&pending, cutoff));

    let (archive, keep) = split_archivable(vec![done(1, NOW - 40 * DAY), pending, gone, done(2, NOW - 10 * DAY)], cutoff);
    assert_eq!(archive.iter().map(|t| t.id).collect::<Vec<_>>(), vec![1, 3]);
    assert_eq!(keep.iter().map(|t| t.id).collect::<Vec<_>>(), vec![4, 2]);
}

#[test]
fn totals_left_behind() {
    let mut t = done(1, NOW);
    t.estimate = Some("2h".to_string());
    t.state = TaskState::Completed {
        completed_at: at(NOW),
        time_logs: vec![TimeLog { start: at(NOW - 3600), end: Some(at(NOW)) }],
        actual_duration: None,
    };
    let pending = Task::new_at(2, "open".to_string(), None, at(NOW));
    let totals = archive_totals(&vec![pending, t], 0);
    assert_eq!(
        totals,
        vec![ArchivedDay { date: "2024-03-05".to_string(), est_secs: 7200, act_secs: 3600, mtg_secs: 0 }]
    );
}
