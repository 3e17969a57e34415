use chrono::{DateTime, Duration, Utc};
use wremind::commands::add_reminder;
use wremind::config::Config;
use wremind::model::{Reminder, ReminderList, RunState};
use wremind::queue::{PendingShow, ShowQueue};
use wremind::recurrence::{interval_field, next_due, Interval, IntervalField, Once, Schedule};
use wremind::runner::schedule_tick;
use wremind::store::finish_reminders;
use wremind::time::Timestamp;
use wremind::util::normalize_time;

fn ts(d: DateTime<Utc>) -> Timestamp {
    Timestamp::from_parts(d.timestamp(), d.timestamp_subsec_nanos()).unwrap()
}

fn reminder(id: u64, schedule: Schedule) -> Reminder {
    Reminder {
        id,
        title: format!("R{id}"),
        emoji: None,
        schedule,
        character: None,
        timezone: "UTC".into(),
        enabled: true,
        completed: false,
        created: ts(Utc::now() - Duration::hours(5)),
    }
}

#[test]
fn second_tick_at_same_instant_is_quiet() {
    let list = ReminderList {
        version: 1,
        next_id: 4,
        reminders: vec![
            reminder(1, Schedule::interval(60)),
            reminder(1, Schedule::interval(3600)),
            reminder(2, Schedule::Once(Once { at: "2020-01-01T00:00:00Z".into() })),
        ],
    };
    let now = ts(Utc::now());
    let mut state = RunState::default();
    let first = schedule_tick(&list, &mut state, now, false);
    assert_eq!(first.len(), 2);
    let after = state.clone();
    let second = schedule_tick(&list, &mut state, now, false);
    assert!(second.is_empty());
    assert_eq!(state.last_fired, after.last_fired);
    assert_eq!(state.last(1), Some(now));
    assert_eq!(state.last(2), Some(now));
}

#[test]
fn interval_never_waits_longer_than_one_period() {
    let r = reminder(1, Schedule::interval(600));
    let now = ts(Utc::now());
    let future = ts(Utc::now() + Duration::days(30));
    let state = RunState::default().fired(1, future);
    let next = next_due(&r, &state, now).unwrap();
    assert_eq!(next.secs(), now.secs() + 600);
}

#[test]
fn queue_keeps_order_and_bound() {
    let mut q = ShowQueue::new(2);
    for i in 0..40 {
        q.push(PendingShow { message: format!("{i}"), character: None, label: format!("{i}") });
    }
    let out = q.take(40);
    assert_eq!(out.len(), 32);
    for (k, item) in out.iter().enumerate() {
        assert_eq!(item.label, format!("{}", k + 8));
    }
}

#[test]
fn interval_shape_reads_back() {
    for secs in [1u64, 59, 60, 90, 3600, 86_400] {
        let back = match interval_field(secs) {
            IntervalField::Minutes(m) => Schedule::from_raw_interval(None, Some(m), None),
            IntervalField::Seconds(s) => Schedule::from_raw_interval(None, None, Some(s)),
        };
        assert_eq!(back.unwrap(), Schedule::Interval(Interval { seconds: secs }));
    }
}

#[test]
fn normalizing_twice_changes_nothing() {
    let once = normalize_time("7:05 pm").unwrap();
    assert_eq!(once, "19:05");
    assert_eq!(normalize_time(&once).unwrap(), once);
    let mut c = Config::default();
    c.character = " ".into();
    c.max_simultaneous = 12;
    c.direction = "UP".into();
    c.normalize();
    let first = c.clone();
    c.normalize();
    assert_eq!(c.character, first.character);
    assert_eq!(c.max_simultaneous, first.max_simultaneous);
    assert_eq!(c.direction, first.direction);
}

#[test]
fn ids_stay_unique() {
    let mut list = finish_reminders(1, 0, vec![reminder(3, Schedule::interval(60))]).unwrap();
    assert_eq!(list.next_id, 4);
    let id = add_reminder(&mut list, "New", Schedule::interval(60), None, None, "UTC".into(), ts(Utc::now()));
    assert_eq!(id, 4);
    assert!(list.reminders.iter().all(|r| r.id < list.next_id));
}
