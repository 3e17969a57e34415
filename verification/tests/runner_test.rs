use chrono::{DateTime, Duration, Utc};
use wremind::ipc::{Request, Response, StatusInfo};
use wremind::model::{Reminder, ReminderList, RunState};
use wremind::queue::ShowQueue;
use wremind::recurrence::{Daily, Interval, Once, Schedule};
use wremind::runner::{
    free_slots, handle_request, pending_for, schedule_tick, status_computable,
    status_info, tick_computable, trigger_log_line, woke_from_sleep, DaemonError,
};
use wremind::time::Timestamp;

fn ts(d: DateTime<Utc>) -> Timestamp {
    Timestamp::from_parts(d.timestamp(), d.timestamp_subsec_nanos()).unwrap()
}

fn reminder(id: u64, schedule: Schedule, created_ago_mins: i64) -> Reminder {
    Reminder {
        id,
        title: format!("R{id}"),
        emoji: None,
        schedule,
        character: None,
        timezone: "UTC".into(),
        enabled: true,
        completed: false,
        created: ts(Utc::now() - Duration::minutes(created_ago_mins)),
    }
}

fn list(rs: Vec<Reminder>) -> ReminderList {
    ReminderList { version: 1, next_id: rs.len() as u64 + 1, reminders: rs }
}

#[test]
fn tick_fires_due_interval_once() {
    let r = reminder(1, Schedule::Interval(Interval { seconds: 60 }), 120);
    let reminders = list(vec![r]);
    let mut state = RunState::default();
    let now = ts(Utc::now());
    assert!(tick_computable(&reminders, &state, now));
    let fired = schedule_tick(&reminders, &mut state, now, false);
    assert_eq!(fired.len(), 1);
    assert_eq!(fired[0].0, 1);
    let fired2 = schedule_tick(&reminders, &mut state, ts(Utc::now()), false);
    assert!(fired2.is_empty());
}

#[test]
fn sleep_three_hours_fires_once() {
    let r = reminder(1, Schedule::Interval(Interval { seconds: 3600 }), 240);
    let reminders = list(vec![r]);
    let now = Utc::now();
    let last = now - Duration::hours(3);
    let mut state = RunState { last_fired: [(1, ts(last))].into_iter().collect() };
    let fired = schedule_tick(&reminders, &mut state, ts(now), true);
    assert_eq!(fired.len(), 1);
    let fired2 = schedule_tick(&reminders, &mut state, ts(now), true);
    assert!(fired2.is_empty());
}

#[test]
fn disabled_and_completed_skipped() {
    let mut r = reminder(1, Schedule::Interval(Interval { seconds: 60 }), 120);
    r.enabled = false;
    let mut state = RunState::default();
    assert!(schedule_tick(&list(vec![r.clone()]), &mut state, ts(Utc::now()), false).is_empty());
    r.enabled = true;
    r.completed = true;
    assert!(schedule_tick(&list(vec![r]), &mut state, ts(Utc::now()), false).is_empty());
}

#[test]
fn once_reminder_completes_after_fire() {
    let r = reminder(
        1,
        Schedule::Once(Once { at: (Utc::now() - Duration::minutes(1)).to_rfc3339() }),
        5,
    );
    let reminders = list(vec![r]);
    let mut state = RunState::default();
    let fired = schedule_tick(&reminders, &mut state, ts(Utc::now()), false);
    assert_eq!(fired.len(), 1);
    let fired2 = schedule_tick(&reminders, &mut state, ts(Utc::now()), false);
    assert!(fired2.is_empty());
}

#[test]
fn daily_not_due_before_time() {
    let tomorrow = (Utc::now() + Duration::days(1)).naive_utc().date();
    let r = reminder(
        1,
        Schedule::Daily(Daily {
            time: "23:59".into(),
            days: vec![],
            start_date: Some(tomorrow.format("%Y-%m-%d").to_string()),
            end_date: None,
        }),
        0,
    );
    let mut state = RunState::default();
    assert!(schedule_tick(&list(vec![r]), &mut state, ts(Utc::now()), false).is_empty());
}

#[test]
fn tick_reports_message_and_character_and_records_firing() {
    let mut r = reminder(7, Schedule::Interval(Interval { seconds: 60 }), 10);
    r.emoji = Some("💧".into());
    r.title = "Drink water".into();
    r.character = Some("ghost".into());
    let reminders = list(vec![r]);
    let mut state = RunState::default();
    let now = ts(Utc::now());
    let fired = schedule_tick(&reminders, &mut state, now, false);
    assert_eq!(fired, vec![(7, "💧 Drink water!".to_string(), Some("ghost".to_string()))]);
    assert_eq!(state.last(7), Some(now));
}

#[test]
fn status_reports_soonest() {
    let base = Utc::now();
    let mut a = reminder(1, Schedule::Interval(Interval { seconds: 1800 }), 0);
    a.created = ts(base);
    let mut b = reminder(2, Schedule::Interval(Interval { seconds: 600 }), 0);
    b.created = ts(base);
    b.enabled = false;
    let reminders = list(vec![a, b]);
    let state = RunState::default();
    let now = ts(base);
    assert!(status_computable(&reminders, &state, now));
    let info = status_info(42, &reminders, &state, "footballer".into(), now);
    assert_eq!(info.pid, 42);
    assert_eq!(info.reminders, 2);
    assert_eq!(info.enabled_reminders, 1);
    assert_eq!(info.character, "footballer");
    assert_eq!(info.next_title.as_deref(), Some("R1"));
    assert_eq!(info.next_in_secs, Some(1800));
}

#[test]
fn status_seconds_round_toward_zero() {
    let base = Timestamp::from_parts(1_700_000_000, 700_000_000).unwrap();
    let mut a = reminder(1, Schedule::Interval(Interval { seconds: 2 }), 0);
    a.created = base;
    let reminders = list(vec![a]);
    let now = Timestamp::from_parts(1_700_000_000, 900_000_000).unwrap();
    let info = status_info(1, &reminders, &RunState::default(), "x".into(), now);
    assert_eq!(info.next_in_secs, Some(1));
}

#[test]
fn loop_choices() {
    assert!(!woke_from_sleep(6, 0));
    assert!(woke_from_sleep(6, 1));
    assert!(woke_from_sleep(60, 0));
    assert_eq!(free_slots(2, 1), 1);
    assert_eq!(free_slots(1, 3), 0);
    assert_eq!(trigger_log_line(1, "⏱ Tick"), "reminder 1 triggered: ⏱ Tick");
    let p = pending_for(12, "hi".into(), None);
    assert_eq!(p.label, "12");
}

#[test]
fn requests_are_answered() {
    let reminders = list(vec![]);
    let state = RunState::default();
    let now = ts(Utc::now());
    let mut q = ShowQueue::new(1);
    let mut stop = false;
    let r = handle_request(Request::Ping, &mut q, &mut stop, 9, &reminders, &state, "x".into(), now);
    assert!(r.ok);
    assert_eq!(r.info.unwrap().pid, 9);
    let r = handle_request(
        Request::Show { message: "hi".into(), character: None },
        &mut q,
        &mut stop,
        9,
        &reminders,
        &state,
        "x".into(),
        now,
    );
    assert!(r.ok && r.info.is_none());
    assert_eq!(q.len(), 1);
    assert_eq!(q.take(1)[0].label, "manual");
    let r = handle_request(Request::Stop, &mut q, &mut stop, 9, &reminders, &state, "x".into(), now);
    assert!(r.ok);
    assert!(stop);
}

#[test]
fn roundtrip_request_response() {
    let req = Request::Show { message: "💧 test".into(), character: Some("footballer".into()) };
    match req {
        Request::Show { message, character } => {
            assert_eq!(message, "💧 test");
            assert_eq!(character.as_deref(), Some("footballer"));
        }
        _ => panic!("wrong variant"),
    }
    let resp = Response::ok(Some(StatusInfo {
        pid: 42,
        reminders: 3,
        enabled_reminders: 2,
        character: "footballer".into(),
        next_title: Some("Drink water".into()),
        next_in_secs: Some(600),
    }));
    assert!(resp.ok);
    assert!(resp.error.is_none());
    assert_eq!(resp.info.unwrap().pid, 42);
    let bad = Response::err("nope");
    assert!(!bad.ok);
    assert_eq!(bad.error.as_deref(), Some("nope"));
}

#[test]
fn daemon_error_messages() {
    assert_eq!(
        DaemonError::AlreadyRunning(12).message(),
        "another daemon is already running (pid 12)"
    );
}

#[test]
fn reminder_message_carries_emoji_and_bang() {
    let mut r = reminder(1, Schedule::Interval(Interval { seconds: 3600 }), 0);
    r.title = "Drink water".into();
    r.emoji = Some("💧".into());
    assert_eq!(r.message(), "💧 Drink water!");
    r.emoji = Some(String::new());
    assert_eq!(r.message(), "Drink water");
    r.emoji = None;
    assert_eq!(r.message(), "Drink water");
}
