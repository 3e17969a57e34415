use chrono::{DateTime, Duration, TimeZone, Timelike, Utc};
use chrono_tz::Tz;
use wremind::model::{Reminder, RunState};
use wremind::recurrence::{
    humanize, interval_field, is_due, next_due, next_due_computable, next_upcoming, title_case,
    Daily, Interval, IntervalField, Once, Schedule,
};
use wremind::time::Timestamp;

fn ts(d: DateTime<Utc>) -> Timestamp {
    Timestamp::from_parts(d.timestamp(), d.timestamp_subsec_nanos()).unwrap()
}

fn dt(t: Timestamp) -> DateTime<Utc> {
    DateTime::from_timestamp(t.secs(), t.nanos()).unwrap()
}

fn mk(schedule: Schedule, created_minutes_ago: i64) -> Reminder {
    Reminder {
        id: 1,
        title: "Test".into(),
        emoji: None,
        schedule,
        character: None,
        timezone: "UTC".into(),
        enabled: true,
        completed: false,
        created: ts(Utc::now() - Duration::minutes(created_minutes_ago)),
    }
}

fn tz(s: &str) -> Tz {
    s.parse().unwrap()
}

fn daily(time: &str, days: &[&str], start: Option<&str>, end: Option<&str>) -> Schedule {
    Schedule::Daily(Daily {
        time: time.into(),
        days: days.iter().map(|d| d.to_string()).collect(),
        start_date: start.map(String::from),
        end_date: end.map(String::from),
    })
}

#[test]
fn hourly_interval() {
    let r = mk(Schedule::Interval(Interval { seconds: 3600 }), 5);
    let now = ts(Utc::now());
    let next = next_due(&r, &RunState::default(), now).unwrap();
    assert_eq!(dt(next), dt(r.created) + Duration::hours(1));
    let state = RunState::default().fired(1, now);
    let next2 = next_due(&r, &state, now).unwrap();
    assert_eq!(dt(next2), dt(now) + Duration::hours(1));
}

#[test]
fn interval_bare_minutes_and_seconds_roundtrip() {
    let s = Schedule::from_raw_interval(None, Some(60), None).unwrap();
    assert_eq!(s, Schedule::Interval(Interval { seconds: 3600 }));
    let s = Schedule::from_raw_interval(None, None, Some(90)).unwrap();
    assert_eq!(s, Schedule::Interval(Interval { seconds: 90 }));
    assert_eq!(interval_field(3600), IntervalField::Minutes(60));
    assert_eq!(interval_field(90), IntervalField::Seconds(90));
}

#[test]
fn zero_interval_is_refused() {
    assert_eq!(Schedule::from_raw_interval(None, None, None).unwrap_err(), "interval must be > 0");
    assert_eq!(
        Schedule::from_raw_interval(Some(1), Some(1), Some(1)).unwrap(),
        Schedule::Interval(Interval { seconds: 3661 })
    );
}

#[test]
fn daily_at_time() {
    let tz = tz("UTC");
    let r = mk(daily("09:00", &[], None, None), 0);
    let now = ts(Utc::now());
    let next = dt(next_due(&r, &RunState::default(), now).unwrap());
    assert_eq!(next.hour(), 9);
    assert_eq!(next.minute(), 0);
    assert!(next > dt(r.created));
    assert!((next - dt(r.created)).num_hours() <= 24);

    let fire_time = ts(tz.with_ymd_and_hms(2026, 9, 22, 9, 0, 0).unwrap().with_timezone(&Utc));
    let state = RunState::default().fired(1, fire_time);
    let next2 = next_due(&r, &state, fire_time).unwrap();
    assert_eq!(dt(next2), tz.with_ymd_and_hms(2026, 9, 23, 9, 0, 0).unwrap().with_timezone(&Utc));
}

#[test]
fn weekly_days() {
    let tz = tz("UTC");
    let at = |d: u32, h: u32| tz.with_ymd_and_hms(2026, 9, d, h, 0, 0).unwrap().with_timezone(&Utc);
    let created = ts(at(21, 10));
    let mut r = mk(daily("18:00", &["mon", "wed", "fri"], None, None), 0);
    r.created = created;

    let next = next_due(&r, &RunState::default(), created).unwrap();
    assert_eq!(dt(next), at(21, 18));

    let fired = ts(at(21, 18));
    let state = RunState::default().fired(1, fired);
    assert_eq!(dt(next_due(&r, &state, fired).unwrap()), at(23, 18));

    let fired_wed = ts(at(23, 18));
    let state2 = RunState::default().fired(1, fired_wed);
    assert_eq!(dt(next_due(&r, &state2, fired_wed).unwrap()), at(25, 18));

    let fired_fri = ts(at(25, 18));
    let state3 = RunState::default().fired(1, fired_fri);
    assert_eq!(dt(next_due(&r, &state3, fired_fri).unwrap()), at(28, 18));
}

#[test]
fn once_reminder_fires_exactly_once() {
    let at = (Utc::now() + Duration::hours(2)).to_rfc3339();
    let r = mk(Schedule::Once(Once { at }), 0);
    let now = ts(Utc::now());
    let next = next_due(&r, &RunState::default(), now).unwrap();
    assert!(now.is_before(&next));

    let later = ts(dt(now) + Duration::hours(3));
    assert!(is_due(&r, &RunState::default(), later));

    let state = RunState::default().fired(1, later);
    assert!(next_due(&r, &state, later).is_none());
    assert!(!is_due(&r, &state, later));
}

#[test]
fn disabled_never_due() {
    let mut r = mk(Schedule::Interval(Interval { seconds: 60 }), 120);
    r.enabled = false;
    assert!(!is_due(&r, &RunState::default(), ts(Utc::now())));
    assert!(next_due(&r, &RunState::default(), ts(Utc::now())).is_some());
}

#[test]
fn missed_while_sleeping_coalesces_to_once() {
    let r = mk(Schedule::Interval(Interval { seconds: 3600 }), 240);
    let now = ts(Utc::now());
    let last = ts(dt(now) - Duration::hours(3));
    let state = RunState::default().fired(1, last);

    assert!(is_due(&r, &state, now));
    let state2 = state.fired(1, now);
    assert!(!is_due(&r, &state2, now));
    assert_eq!(dt(next_due(&r, &state2, now).unwrap()), dt(now) + Duration::hours(1));
}

#[test]
fn clock_moved_backwards_does_not_wait_forever() {
    let r = mk(Schedule::Interval(Interval { seconds: 3600 }), 0);
    let now = ts(Utc::now());
    let state = RunState { last_fired: [(1, ts(dt(now) + Duration::hours(2)))].into_iter().collect() };
    let next = next_due(&r, &state, now).unwrap();
    assert_eq!(dt(next), dt(now) + Duration::hours(1));
}

#[test]
fn dst_spring_forward_gap_fires_hour_later() {
    let tz = tz("America/New_York");
    let created = ts(tz.with_ymd_and_hms(2027, 3, 13, 12, 0, 0).unwrap().with_timezone(&Utc));
    let mut r = mk(daily("02:30", &[], None, None), 0);
    r.created = created;
    r.timezone = "America/New_York".into();
    let next = next_due(&r, &RunState::default(), created).unwrap();
    assert_eq!(dt(next), tz.with_ymd_and_hms(2027, 3, 14, 3, 30, 0).unwrap().with_timezone(&Utc));
}

#[test]
fn dst_fall_back_still_fires_once() {
    let tz = tz("America/New_York");
    let created = ts(tz.with_ymd_and_hms(2026, 10, 31, 12, 0, 0).unwrap().with_timezone(&Utc));
    let mut r = mk(daily("01:30", &[], None, None), 0);
    r.created = created;
    r.timezone = "America/New_York".into();
    let next = next_due(&r, &RunState::default(), created).unwrap();
    let expected = tz
        .from_local_datetime(
            &chrono::NaiveDate::from_ymd_opt(2026, 11, 1).unwrap().and_hms_opt(1, 30, 0).unwrap(),
        )
        .earliest()
        .unwrap()
        .with_timezone(&Utc);
    assert_eq!(dt(next), expected);
}

#[test]
fn timezone_change_uses_reminder_tz() {
    let tz = tz("Asia/Tokyo");
    let created = ts(tz.with_ymd_and_hms(2026, 9, 21, 9, 0, 0).unwrap().with_timezone(&Utc));
    let mut r = mk(daily("10:00", &[], None, None), 0);
    r.timezone = "Asia/Tokyo".into();
    r.created = created;
    let next = next_due(&r, &RunState::default(), created).unwrap();
    assert_eq!(dt(next), tz.with_ymd_and_hms(2026, 9, 21, 10, 0, 0).unwrap().with_timezone(&Utc));
}

#[test]
fn unknown_timezone_falls_back_to_utc() {
    let utc = tz("UTC");
    let created = ts(utc.with_ymd_and_hms(2026, 9, 21, 8, 0, 0).unwrap().with_timezone(&Utc));
    let mut r = mk(daily("10:00", &[], None, None), 0);
    r.timezone = "Mars/Olympus".into();
    r.created = created;
    assert_eq!(r.tz(), "UTC");
    let next = next_due(&r, &RunState::default(), created).unwrap();
    assert_eq!(dt(next), utc.with_ymd_and_hms(2026, 9, 21, 10, 0, 0).unwrap().with_timezone(&Utc));
}

#[test]
fn start_and_end_dates() {
    let tz = tz("UTC");
    let created = ts(tz.with_ymd_and_hms(2026, 9, 1, 8, 0, 0).unwrap().with_timezone(&Utc));
    let mut r = mk(daily("09:00", &[], Some("2026-09-10"), Some("2026-09-12")), 0);
    r.created = created;
    let next = next_due(&r, &RunState::default(), created).unwrap();
    assert_eq!(dt(next), tz.with_ymd_and_hms(2026, 9, 10, 9, 0, 0).unwrap().with_timezone(&Utc));

    let after_end = ts(tz.with_ymd_and_hms(2026, 9, 13, 9, 0, 0).unwrap().with_timezone(&Utc));
    let state = RunState::default().fired(1, after_end);
    assert!(next_due(&r, &state, after_end).is_none());
}

#[test]
fn next_upcoming_picks_soonest() {
    let tz = tz("UTC");
    let base = ts(tz.with_ymd_and_hms(2026, 9, 21, 10, 0, 0).unwrap().with_timezone(&Utc));
    let mut a = mk(Schedule::Interval(Interval { seconds: 1800 }), 0);
    a.id = 1;
    a.title = "A".into();
    a.created = base;
    let mut b = mk(Schedule::Interval(Interval { seconds: 600 }), 0);
    b.id = 2;
    b.title = "B".into();
    b.created = base;
    let rs = vec![a, b];
    let (winner, _t) = next_upcoming(&rs, &RunState::default(), base).unwrap();
    assert_eq!(winner.title, "B");
}

#[test]
fn next_upcoming_ties_go_to_first_and_skips_past() {
    let tz = tz("UTC");
    let base = ts(tz.with_ymd_and_hms(2026, 9, 21, 10, 0, 0).unwrap().with_timezone(&Utc));
    let mut a = mk(Schedule::Interval(Interval { seconds: 600 }), 0);
    a.title = "A".into();
    a.created = base;
    let mut b = a.clone();
    b.title = "B".into();
    let mut c = a.clone();
    c.title = "C".into();
    c.enabled = false;
    let rs = vec![c, a, b];
    let (winner, t) = next_upcoming(&rs, &RunState::default(), base).unwrap();
    assert_eq!(winner.title, "A");
    assert_eq!(t.secs(), base.secs() + 600);
    let later = ts(dt(base) + Duration::hours(1));
    let once = mk(Schedule::Once(Once { at: "2026-09-21T10:05:00Z".into() }), 0);
    assert!(next_upcoming(&vec![once], &RunState::default(), later).is_none());
}

#[test]
fn duplicate_prevention_same_tick() {
    let r = mk(Schedule::Interval(Interval { seconds: 60 }), 10);
    let now = ts(Utc::now());
    let mut state = RunState::default();
    assert!(is_due(&r, &state, now));
    state = state.fired(1, now);
    assert!(!is_due(&r, &state, now));
    assert!(!is_due(&r, &state, ts(dt(now) + Duration::seconds(1))));
}

#[test]
fn humanized_schedules() {
    assert_eq!(humanize(&Schedule::Interval(Interval { seconds: 3600 })), "Every 1 hour");
    assert_eq!(humanize(&daily("19:00", &[], None, None)), "Daily 7:00 PM");
    assert_eq!(humanize(&daily("18:00", &["mon", "wed", "fri"], None, None)), "Mon/Wed/Fri 6:00 PM");
    assert_eq!(humanize(&daily("soon", &[], None, None)), "Daily soon");
    assert_eq!(
        humanize(&Schedule::Once(Once { at: "2026-09-22T19:00:00-04:00".into() })),
        "Sep 22 2026 11:00 PM"
    );
    assert_eq!(humanize(&Schedule::Once(Once { at: "whenever".into() })), "whenever");
    assert_eq!(title_case("émile"), "Émile");
    assert_eq!(title_case(""), "");
}

#[test]
fn computable_guards() {
    let r = mk(Schedule::Interval(Interval { seconds: u64::MAX }), 0);
    let now = ts(Utc::now());
    assert!(next_due_computable(&r, &RunState::default(), now));
    let big = mk(Schedule::Interval(Interval { seconds: 1 << 62 }), 0);
    assert!(!next_due_computable(&big, &RunState::default(), now));
}

#[test]
fn daily_search_near_the_last_date() {
    // The last whole second chrono can hold: +262143-12-31T23:59:59Z.
    let max_secs: i64 = 8210266876799;
    let last_day_start = max_secs + 1 - 86400;
    let mut r = mk(daily("09:00", &[], None, None), 0);
    r.created = Timestamp::from_parts(last_day_start - 10 * 86400 + 43200, 0).unwrap();
    let state = RunState::default();
    let now = r.created;
    assert!(next_due_computable(&r, &state, now));
    let next = next_due(&r, &state, now).unwrap();
    assert_eq!(next.secs(), last_day_start - 9 * 86400 + 9 * 3600);
    // Past 09:00 on the last day the search would step beyond the last date.
    r.created = Timestamp::from_parts(last_day_start + 43200, 0).unwrap();
    assert!(!next_due_computable(&r, &state, r.created));
    // An end date stops the search first.
    r.schedule = daily("09:00", &[], None, Some("2026-01-01"));
    assert!(next_due_computable(&r, &state, r.created));
    assert!(next_due(&r, &state, r.created).is_none());
}
