use chrono::{DateTime, Duration, Utc};
use wremind::commands::{
    add_reminder, build_schedule, check_timezone, column_widths, current_flags, edit,
    guess_emoji, list_row, logs_start, pause, pause_message, remove, status_next_text,
};
use wremind::model::{ReminderList, RunState};
use wremind::recurrence::{humanize, Daily, Interval, Once, Schedule};
use wremind::time::Timestamp;

fn ts(d: DateTime<Utc>) -> Timestamp {
    Timestamp::from_parts(d.timestamp(), d.timestamp_subsec_nanos()).unwrap()
}

fn with_two() -> ReminderList {
    let mut list = ReminderList::default();
    let now = ts(Utc::now());
    add_reminder(&mut list, "One", Schedule::interval(3600), None, None, "UTC".into(), now);
    add_reminder(&mut list, "Two", Schedule::interval(7200), None, None, "UTC".into(), now);
    list
}

#[test]
fn emoji_guesses() {
    assert_eq!(guess_emoji("Drink water").as_deref(), Some("💧"));
    assert_eq!(guess_emoji("Take a BREAK").as_deref(), Some("☕"));
    assert_eq!(guess_emoji("Call Mom").as_deref(), Some("❤️"));
    assert_eq!(guess_emoji("Go running").as_deref(), Some("🏃"));
    assert_eq!(guess_emoji("Take vitamins").as_deref(), Some("💊"));
    assert_eq!(guess_emoji("Write report"), None);
}

#[test]
fn schedules_from_flags() {
    assert_eq!(
        build_schedule(Some("1h"), None, None, None, None, None, "UTC").unwrap(),
        Schedule::Interval(Interval { seconds: 3600 })
    );
    assert_eq!(
        build_schedule(Some("fast"), None, None, None, None, None, "UTC").unwrap_err(),
        "invalid --every 'fast' (examples: 1h, 45m, 90s)"
    );
    assert_eq!(
        build_schedule(None, None, None, Some("09:00"), None, None, "UTC").unwrap(),
        Schedule::Daily(Daily { time: "09:00".into(), days: vec![], start_date: None, end_date: None })
    );
    assert_eq!(
        build_schedule(None, Some("18:00"), Some("mon,wed,fri"), None, Some("2026-01-01"), None, "UTC")
            .unwrap(),
        Schedule::Daily(Daily {
            time: "18:00".into(),
            days: vec!["mon".into(), "wed".into(), "fri".into()],
            start_date: Some("2026-01-01".into()),
            end_date: None,
        })
    );
    assert_eq!(
        build_schedule(None, Some("2026-09-22 19:00"), None, None, None, None, "America/New_York")
            .unwrap(),
        Schedule::Once(Once { at: "2026-09-22T23:00:00+00:00".into() })
    );
    assert!(build_schedule(None, None, None, None, None, None, "UTC")
        .unwrap_err()
        .starts_with("specify a schedule"));
    assert_eq!(
        build_schedule(None, Some("25:00"), None, None, None, None, "UTC").unwrap_err(),
        "invalid time '25:00' (use HH:MM or H:MMam/pm)"
    );
    assert_eq!(
        build_schedule(None, Some("18:00"), Some("funday"), None, None, None, "UTC").unwrap_err(),
        "invalid --days 'funday' (mon,tue,wed,thu,fri,sat,sun)"
    );
}

#[test]
fn add_assigns_ids_and_guesses_emoji() {
    let mut list = ReminderList::default();
    let now = ts(Utc::now());
    let id = add_reminder(&mut list, "Drink water", Schedule::interval(3600), None, Some(String::new()), "UTC".into(), now);
    assert_eq!(id, 1);
    assert_eq!(list.next_id, 2);
    let r = &list.reminders[0];
    assert_eq!(r.emoji.as_deref(), Some("💧"));
    assert!(r.character.is_none());
    assert!(r.enabled && !r.completed);
    assert_eq!(humanize(&r.schedule), "Every 1 hour");
}

#[test]
fn remove_pause_resume_edit() {
    let mut list = with_two();
    assert_eq!(pause(&mut list, Some(2), false).unwrap(), 1);
    assert!(!list.reminders[1].enabled);
    assert_eq!(pause(&mut list, Some(2), false).unwrap_err(), "nothing to change");
    assert_eq!(pause(&mut list, None, true).unwrap(), 1);
    assert_eq!(pause_message(false, 1), "Paused 1 reminder(s)");
    assert_eq!(pause_message(true, 2), "Resumed 2 reminder(s)");

    let changed = edit(&mut list, 2, Some("90m".into()), None, None, None, Some("Two changed".into()), None, None, "UTC").unwrap();
    assert!(changed);
    assert_eq!(list.reminders[1].title, "Two changed");
    assert_eq!(humanize(&list.reminders[1].schedule), "Every 1 hour 30 minutes");
    assert_eq!(
        edit(&mut list, 9, None, None, None, None, None, None, None, "UTC").unwrap_err(),
        "no reminder with ID 9"
    );

    remove(&mut list, 1).unwrap();
    assert_eq!(list.reminders.len(), 1);
    assert_eq!(remove(&mut list, 1).unwrap_err(), "no reminder with ID 1");
}

#[test]
fn edit_keeps_current_flags() {
    let mut list = ReminderList::default();
    let now = ts(Utc::now());
    let s = build_schedule(None, Some("18:00"), Some("mon,fri"), None, None, None, "UTC").unwrap();
    add_reminder(&mut list, "Run", s, None, None, "UTC".into(), now);
    let flags = current_flags(&list.reminders[0].schedule);
    assert_eq!(flags, (None, Some("18:00".to_string()), Some("mon,fri".to_string())));
    edit(&mut list, 1, None, Some("7pm".into()), None, None, None, None, None, "UTC").unwrap();
    assert_eq!(humanize(&list.reminders[0].schedule), "Mon/Fri 7:00 PM");
    assert_eq!(current_flags(&Schedule::interval(7200)).0.as_deref(), Some("2h"));
    assert_eq!(current_flags(&Schedule::interval(90)).0.as_deref(), Some("1m"));
}

#[test]
fn list_rows_and_widths() {
    let base = Utc::now();
    let mut list = ReminderList::default();
    add_reminder(&mut list, "Drink water", Schedule::interval(3600), None, None, "UTC".into(), ts(base));
    let state = RunState::default();
    let row = list_row(&list.reminders[0], &state, ts(base + Duration::minutes(18)), "footballer");
    assert_eq!(row, vec!["1", "💧 Drink water", "Every 1 hour", "Next: 42m", "●", "footballer"]);
    let due = list_row(&list.reminders[0], &state, ts(base + Duration::hours(2)), "footballer");
    assert_eq!(due[3], "now");
    list.reminders[0].enabled = false;
    let paused_row = list_row(&list.reminders[0], &state, ts(base), "footballer");
    assert_eq!(paused_row[4], "○ paused");
    let w = column_widths(&vec![row.clone(), paused_row]);
    assert_eq!(w, vec![1, 13, 12, 11, 8, 10]);
    assert_eq!(column_widths(&vec![]), vec![1, 1, 1, 1, 1, 1]);
}

#[test]
fn small_command_helpers() {
    assert_eq!(status_next_text(&Some("Water".into()), Some(2530)), "Water in 42m");
    assert_eq!(status_next_text(&None, None), "—");
    assert_eq!(logs_start(100, 30), 70);
    assert_eq!(logs_start(10, 30), 0);
    assert!(check_timezone("Asia/Tokyo").is_ok());
    assert_eq!(check_timezone("Nowhere/Land").unwrap_err(), "unknown timezone 'Nowhere/Land'");
}
