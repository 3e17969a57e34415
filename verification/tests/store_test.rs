use wremind::model::{Reminder, ReminderList, RunState};
use wremind::recurrence::{Interval, Schedule};
use wremind::store::{
    backup_path, finish_reminders, load_state_lossy, quarantine_path, recover_reminders,
    state_parse_error, Primary, StoreError,
};
use wremind::time::Timestamp;

fn sample(id: u64) -> Reminder {
    Reminder {
        id,
        title: "Drink water".into(),
        emoji: Some("💧".into()),
        schedule: Schedule::Interval(Interval { seconds: 3600 }),
        character: None,
        timezone: "UTC".into(),
        enabled: true,
        completed: false,
        created: Timestamp::from_parts(1_700_000_000, 0).unwrap(),
    }
}

#[test]
fn finished_documents() {
    let l = finish_reminders(1, 0, vec![sample(4), sample(2)]).unwrap();
    assert_eq!(l.next_id, 5);
    assert_eq!(l.reminders.len(), 2);
    let l2 = finish_reminders(1, 9, vec![sample(4)]).unwrap();
    assert_eq!(l2.next_id, 9);
    assert_eq!(finish_reminders(1, 0, vec![]).unwrap().next_id, 1);
    assert_eq!(finish_reminders(2, 1, vec![]).unwrap_err(), "unsupported version 2");
}

#[test]
fn recovery_uses_backup() {
    let mut good = ReminderList::default();
    good.reminders.push(sample(1));
    let r = recover_reminders(Primary::Failed("parse error".into()), Some(Ok(good)));
    assert_eq!(
        r.note.as_deref(),
        Some("reminders.json was corrupted (parse error); restored from backup")
    );
    assert_eq!(r.list.reminders.len(), 1);
    assert_eq!(r.list.reminders[0].title, "Drink water");
    assert!(r.quarantine && r.restore_backup && !r.refresh_backup);
}

#[test]
fn recovery_without_backup_starts_empty() {
    let r = recover_reminders(Primary::Failed("garbage".into()), None);
    assert!(r.note.is_some());
    assert!(r.list.reminders.is_empty());
    assert!(r.quarantine && !r.restore_backup);
    let r2 = recover_reminders(Primary::Failed("garbage".into()), Some(Err("also bad".into())));
    assert_eq!(
        r2.note.as_deref(),
        Some("reminders.json was corrupted (garbage) and no backup was usable; started empty")
    );
}

#[test]
fn recovery_of_good_and_missing_files() {
    let mut good = ReminderList::default();
    good.reminders.push(sample(1));
    let r = recover_reminders(Primary::Read(good), None);
    assert!(r.note.is_none() && r.refresh_backup && !r.quarantine);
    assert_eq!(r.list.reminders.len(), 1);
    let m = recover_reminders(Primary::Missing, None);
    assert!(m.note.is_none() && !m.refresh_backup && !m.quarantine);
    assert_eq!(m.list.next_id, 1);
}

#[test]
fn side_paths() {
    assert_eq!(backup_path("/h/reminders.json"), "/h/reminders.json.bak");
    assert_eq!(quarantine_path("/h/reminders.json", 1700), "/h/reminders.json.corrupt-1700");
}

#[test]
fn state_corruption_resets() {
    let e = state_parse_error("/h/state.json", "expected value");
    assert_eq!(e.message(), "invalid data in /h/state.json: state.json corrupted, resetting: expected value");
    let st = load_state_lossy(Err(e));
    assert!(st.last_fired.is_empty());
    let kept = load_state_lossy(Ok(RunState::default().fired(7, Timestamp::from_parts(5, 0).unwrap())));
    assert!(kept.last_fired.contains_key(&7));
}

#[test]
fn io_errors_are_described() {
    let e = StoreError::Io(std::io::Error::new(std::io::ErrorKind::Other, "disk gone"));
    assert_eq!(e.message(), "io error: disk gone");
}
