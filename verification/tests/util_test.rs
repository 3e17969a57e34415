use wremind::time::{Timestamp, Weekday};
use wremind::util::{
    humanize_duration_short, humanize_seconds, humanize_time, normalize_time, parse_date,
    parse_datetime, parse_days, parse_duration, parse_hhmm, parse_rfc3339_loose, slugify,
};

fn rfc3339(t: Timestamp) -> String {
    chrono::DateTime::from_timestamp(t.secs(), t.nanos()).unwrap().to_rfc3339()
}

#[test]
fn durations() {
    assert_eq!(parse_duration("1h"), Some(3600));
    assert_eq!(parse_duration("45m"), Some(2700));
    assert_eq!(parse_duration("30s"), Some(30));
    assert_eq!(parse_duration("1h30m"), Some(5400));
    assert_eq!(parse_duration("90"), Some(5400));
    assert_eq!(parse_duration(""), None);
    assert_eq!(parse_duration("abc"), None);
    assert_eq!(parse_duration("0"), None);
}

#[test]
fn times() {
    assert_eq!(parse_hhmm("19:00"), Some((19, 0)));
    assert_eq!(parse_hhmm("7:00pm"), Some((19, 0)));
    assert_eq!(parse_hhmm("12:30 AM"), Some((0, 30)));
    assert_eq!(parse_hhmm("12:30pm"), Some((12, 30)));
    assert_eq!(parse_hhmm("25:00"), None);
    assert_eq!(normalize_time("7:00pm"), Some("19:00".into()));
}

#[test]
fn humanize_time_pm() {
    assert_eq!(humanize_time("19:00").as_deref(), Some("7:00 PM"));
    assert_eq!(humanize_time("09:05").as_deref(), Some("9:05 AM"));
}

#[test]
fn day_parsing() {
    let days = parse_days("mon,wed,fri").unwrap();
    assert_eq!(days, vec![Weekday::Mon, Weekday::Wed, Weekday::Fri]);
    assert!(parse_days("monday,sunday").is_some());
    assert!(parse_days("funday").is_none());
}

#[test]
fn durations_human() {
    assert_eq!(humanize_seconds(3600), "1 hour");
    assert_eq!(humanize_seconds(7200), "2 hours");
    assert_eq!(humanize_seconds(45 * 60), "45 minutes");
    assert_eq!(humanize_seconds(90), "90 seconds");
    assert_eq!(humanize_seconds(5400), "1 hour 30 minutes");
    assert_eq!(humanize_duration_short(2530), "42m");
    assert_eq!(humanize_duration_short(4860), "1h 21m");
}

#[test]
fn datetime_parsing() {
    let dt = parse_datetime("2026-09-22 19:00", "America/New_York").unwrap();
    assert_eq!(rfc3339(dt), "2026-09-22T23:00:00+00:00");
    let dt2 = parse_datetime("2026-09-22T19:00:00Z", "America/New_York").unwrap();
    assert_eq!(rfc3339(dt2), "2026-09-22T19:00:00+00:00");
}

#[test]
fn duration_edge_cases() {
    assert_eq!(parse_duration("  2H "), Some(7200));
    assert_eq!(parse_duration("1h30"), None);
    assert_eq!(parse_duration("0m"), None);
    assert_eq!(parse_duration("5x"), None);
    assert_eq!(parse_duration("307445734561825861"), None);
}

#[test]
fn time_edge_cases() {
    assert_eq!(parse_hhmm("7 pm"), Some((19, 0)));
    assert_eq!(parse_hhmm("12am"), Some((0, 0)));
    assert_eq!(parse_hhmm("23:59:59"), Some((23, 59)));
    assert_eq!(parse_hhmm("10:60"), None);
    assert_eq!(parse_hhmm("13:00pm"), None);
    assert_eq!(parse_hhmm("23pm"), None);
    assert_eq!(normalize_time("13:00am"), None);
    assert_eq!(parse_hhmm("11:59pm"), Some((23, 59)));
    assert_eq!(parse_hhmm("0:30am"), Some((0, 30)));
    assert_eq!(parse_hhmm("9"), Some((9, 0)));
    assert_eq!(normalize_time("9:5"), Some("09:05".into()));
    assert_eq!(humanize_time("00:00").as_deref(), Some("12:00 AM"));
    assert_eq!(humanize_time("12:00").as_deref(), Some("12:00 PM"));
    assert_eq!(humanize_time("nope"), None);
}

#[test]
fn human_durations_exact() {
    assert_eq!(humanize_seconds(0), "0 seconds");
    assert_eq!(humanize_seconds(121), "2 minutes 1 second");
    assert_eq!(humanize_seconds(3661), "1 hour 1 minute 1 second");
    assert_eq!(humanize_duration_short(-5), "now");
    assert_eq!(humanize_duration_short(45), "45s");
    assert_eq!(humanize_duration_short(90000), "1d 1h");
}

#[test]
fn slugs() {
    assert_eq!(slugify("Drink water!"), "drink-water");
    assert_eq!(slugify("  --Hello,  World--  "), "hello-world");
    assert_eq!(slugify(""), "");
}

#[test]
fn dates_and_instants() {
    let day = parse_date(" 2026-09-22 ").unwrap();
    assert_eq!(parse_date("2026-09-23").unwrap(), day + 1);
    assert!(parse_date("22/09/2026").is_none());
    let t = parse_rfc3339_loose(" 2026-09-22T19:00:00-04:00 ").unwrap();
    assert_eq!(rfc3339(t), "2026-09-22T23:00:00+00:00");
    assert!(parse_rfc3339_loose("tomorrow").is_none());
}

#[test]
fn slugs_are_clean_and_stable() {
    for s in ["Drink water!", "  --Hello,  World--  ", "Çà va? 2x ÉTÉ", "a--b", "---", "Stretch & walk"] {
        let r = slugify(s);
        assert!(!r.starts_with('-') && !r.ends_with('-') && !r.contains("--"));
        assert!(r.chars().all(|c| c == '-' || (c.is_alphanumeric() && !c.is_ascii_uppercase())));
        assert_eq!(slugify(&r), r);
        let letters: String =
            s.chars().filter(|c| c.is_alphanumeric()).map(|c| c.to_ascii_lowercase()).collect();
        assert_eq!(r.replace('-', ""), letters);
    }
    assert_eq!(slugify("Stretch & walk"), "stretch-walk");
}

#[test]
fn unknown_zone_reads_as_utc() {
    assert_eq!(wremind::time::zone_or_utc("Not/AZone"), "UTC");
    assert_eq!(wremind::time::zone_or_utc("Europe/Paris"), "Europe/Paris");
    let dt = parse_datetime("2026-09-22 19:00", "Not/AZone").unwrap();
    assert_eq!(rfc3339(dt), "2026-09-22T19:00:00+00:00");
}
