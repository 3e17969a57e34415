use chrono::{DateTime, Duration, Utc};
use wremind::menu::{
    menu_entries, menu_header, menu_line, pause_all_title, toggle_pause_all, toggle_reminder,
    walk_now_message,
};
use wremind::model::{Reminder, ReminderList, RunState};
use wremind::recurrence::Schedule;
use wremind::time::Timestamp;

fn ts(d: DateTime<Utc>) -> Timestamp {
    Timestamp::from_parts(d.timestamp(), d.timestamp_subsec_nanos()).unwrap()
}

fn reminder(id: u64, title: &str, created: Timestamp) -> Reminder {
    Reminder {
        id,
        title: title.into(),
        emoji: Some("💧".into()),
        schedule: Schedule::interval(3600),
        character: None,
        timezone: "UTC".into(),
        enabled: true,
        completed: false,
        created,
    }
}

#[test]
fn header_and_lines() {
    let base = Utc::now();
    let list = ReminderList {
        version: 1,
        next_id: 3,
        reminders: vec![reminder(1, "Water", ts(base)), reminder(2, "Stretch", ts(base))],
    };
    let state = RunState::default();
    let now = ts(base + Duration::minutes(18));
    assert_eq!(menu_header(&list, &state, now), "Dribble — next: Water in 42m");
    assert_eq!(menu_line(&list.reminders[0], &state, now), "● 💧 Water — Every 1 hour · in 42m");
    let entries = menu_entries(&list, &state, now);
    assert_eq!(entries.len(), 2);
    assert_eq!(entries[1].1, 2);
    assert!(entries[1].2);
    let mut done = list.reminders[0].clone();
    done.completed = true;
    assert_eq!(menu_line(&done, &state, now), "✓ 💧 Water — Every 1 hour · done");
    let empty = ReminderList::default();
    assert_eq!(menu_header(&empty, &state, now), "Dribble");
}

#[test]
fn toggles_and_walk_now() {
    let base = ts(Utc::now());
    let mut list = ReminderList {
        version: 1,
        next_id: 3,
        reminders: vec![reminder(1, "Water", base), reminder(2, "Stretch", base)],
    };
    assert_eq!(walk_now_message(&list), "💧 Water!");
    assert_eq!(pause_all_title(&list), "Pause all reminders");
    toggle_pause_all(&mut list);
    assert!(list.reminders.iter().all(|r| !r.enabled));
    assert_eq!(pause_all_title(&list), "Resume all reminders");
    assert_eq!(walk_now_message(&list), "⚽ Hello! 💙");
    toggle_reminder(&mut list, 2);
    assert!(list.reminders[1].enabled && !list.reminders[0].enabled);
    toggle_reminder(&mut list, 99);
    assert!(list.reminders[1].enabled && !list.reminders[0].enabled);
    toggle_pause_all(&mut list);
    assert!(list.reminders.iter().all(|r| !r.enabled));
}
