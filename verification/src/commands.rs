//! What the command-line commands decide and compute: building schedules
//! from flags, adding, editing, removing and pausing reminders, guessing an
//! emoji, and the rows of the reminder list. Loading, saving and printing
//! are the program's part.

use vstd::prelude::*;

use crate::model::{first_with_id, Reminder, ReminderList, RunState};
use crate::recurrence::{
    humanize, humanized_schedule, next_due, next_due_ok, next_due_value, parts_le, parts_of,
    Daily, Interval, Once, Schedule,
};
use crate::runner::{seconds_between, whole_seconds_between};
use crate::text::{
    chars_of, contains_text, decimal, is_white_space, lowercase_of, push_decimal, push_str,
    str_lowercase, string_of, text_contains, white_space,
};
use crate::time::{format_rfc3339, rfc3339_text, timezone_known, tz_known, effective_tz, weekday_index, Timestamp, Weekday};
use crate::util::{
    datetime_value, days_value, duration_overflows, duration_value, hhmm_text, hhmm_value,
    day_name, humanize_duration_short, normalize_time, parse_datetime, parse_days, parse_duration,
    short_duration,
};

verus! {

// ------------------------------------------------------------------- emoji

/// The emoji for a (lower-cased) title: the first keyword rule it contains.
pub open spec fn emoji_for(t: Seq<char>) -> Option<Seq<char>> {
    if contains_text(t, "water"@) || contains_text(t, "drink"@) {
        Some("💧"@)
    } else if contains_text(t, "break"@) || contains_text(t, "coffee"@) {
        Some("☕"@)
    } else if contains_text(t, "stretch"@) {
        Some("🧘"@)
    } else if contains_text(t, "walk"@) {
        Some("🚶"@)
    } else if contains_text(t, "run"@) {
        Some("🏃"@)
    } else if contains_text(t, "mom"@) || contains_text(t, "dad"@) {
        Some("❤️"@)
    } else if contains_text(t, "call"@) {
        Some("📞"@)
    } else if contains_text(t, "vitamin"@) || contains_text(t, "med"@) {
        Some("💊"@)
    } else if contains_text(t, "stand"@) {
        Some("🧍"@)
    } else if contains_text(t, "eye"@) {
        Some("👀"@)
    } else if contains_text(t, "sleep"@) {
        Some("😴"@)
    } else if contains_text(t, "bed"@) {
        Some("🛏️"@)
    } else if contains_text(t, "lunch"@) {
        Some("🥪"@)
    } else if contains_text(t, "eat"@) {
        Some("🍽️"@)
    } else if contains_text(t, "football"@) || contains_text(t, "soccer"@) || contains_text(
        t,
        "messi"@,
    ) {
        Some("⚽"@)
    } else {
        None
    }
}

/// Small keyword->emoji map so reminders feel alive by default: the title
/// is lower-cased (`str::to_lowercase`) and the first rule whose keyword it
/// contains gives the emoji.
pub fn guess_emoji(title: &str) -> (r: Option<String>)
    ensures
        match emoji_for(str_lowercase(title@)) {
            Some(e) => r matches Some(s) && s@ == e,
            None => r is None,
        },
{
    let t = chars_of(lowercase_of(title).as_str());
    let e = if text_contains(&t, "water") || text_contains(&t, "drink") {
        "💧"
    } else if text_contains(&t, "break") || text_contains(&t, "coffee") {
        "☕"
    } else if text_contains(&t, "stretch") {
        "🧘"
    } else if text_contains(&t, "walk") {
        "🚶"
    } else if text_contains(&t, "run") {
        "🏃"
    } else if text_contains(&t, "mom") || text_contains(&t, "dad") {
        "❤️"
    } else if text_contains(&t, "call") {
        "📞"
    } else if text_contains(&t, "vitamin") || text_contains(&t, "med") {
        "💊"
    } else if text_contains(&t, "stand") {
        "🧍"
    } else if text_contains(&t, "eye") {
        "👀"
    } else if text_contains(&t, "sleep") {
        "😴"
    } else if text_contains(&t, "bed") {
        "🛏️"
    } else if text_contains(&t, "lunch") {
        "🥪"
    } else if text_contains(&t, "eat") {
        "🍽️"
    } else if text_contains(&t, "football") || text_contains(&t, "soccer") || text_contains(
        &t,
        "messi",
    ) {
        "⚽"
    } else {
        return None;
    };
    Some(String::from_str(e))
}

// --------------------------------------------------------------- schedules

/// The view of an optional text.
pub open spec fn opt_text(o: Option<String>) -> Option<Seq<char>> {
    match o {
        Some(s) => Some(s@),
        None => None,
    }
}

/// The time flag: `--daily` when given, else `--at`.
pub open spec fn time_flag(at: Option<Seq<char>>, daily: Option<Seq<char>>) -> Option<Seq<char>> {
    if daily is Some {
        daily
    } else {
        at
    }
}

/// `t` holds white space (`str::contains(char::is_whitespace)`).
pub open spec fn has_white_space(t: Seq<char>) -> bool {
    exists|i: int| 0 <= i < t.len() && is_white_space(#[trigger] t[i])
}

/// The instant of a one-time reminder: `--at` was given and the time text
/// holds white space and reads as a date and time in zone `tz`.
pub open spec fn once_instant(at: Option<Seq<char>>, t: Seq<char>, tz: Seq<char>) -> Option<(int, int)> {
    if at is Some && has_white_space(t) {
        datetime_value(t, tz)
    } else {
        None
    }
}

/// The message when no schedule flag is given.
pub open spec fn specify_text() -> Seq<char> {
    "specify a schedule: --every 1h, --daily 09:00, --at 19:00, or --days mon,wed,fri --at 18:00"@
}

/// Why the schedule flags make no schedule, if they do not.
pub open spec fn schedule_error(
    every: Option<Seq<char>>,
    at: Option<Seq<char>>,
    days: Option<Seq<char>>,
    daily: Option<Seq<char>>,
    tz: Seq<char>,
) -> Option<Seq<char>> {
    match every {
        Some(e) => if duration_value(e) is None {
            Some("invalid --every '"@ + e + "' (examples: 1h, 45m, 90s)"@)
        } else {
            None
        },
        None => match time_flag(at, daily) {
            None => Some(specify_text()),
            Some(t) => if once_instant(at, t, tz) is Some {
                None
            } else if hhmm_value(t) is None {
                Some("invalid time '"@ + t + "' (use HH:MM or H:MMam/pm)"@)
            } else {
                match days {
                    Some(d) => if days_value(d) is None {
                        Some("invalid --days '"@ + d + "' (mon,tue,wed,thu,fri,sat,sun)"@)
                    } else {
                        None
                    },
                    None => None,
                }
            },
        },
    }
}

/// The short lower-case name of a weekday.
pub open spec fn weekday_short(w: Weekday) -> Seq<char> {
    match w {
        Weekday::Mon => "mon"@,
        Weekday::Tue => "tue"@,
        Weekday::Wed => "wed"@,
        Weekday::Thu => "thu"@,
        Weekday::Fri => "fri"@,
        Weekday::Sat => "sat"@,
        Weekday::Sun => "sun"@,
    }
}

/// The weekday names a `--days` flag stands for (none when not given).
pub open spec fn day_names(days: Option<Seq<char>>) -> Seq<Seq<char>> {
    match days {
        Some(d) => days_value(d)->0.map_values(|w: Weekday| weekday_short(w)),
        None => Seq::empty(),
    }
}

/// `s` is the schedule the flags describe (when `schedule_error` finds
/// none): an interval of the `--every` duration; a one-time reminder at the
/// given date and time, kept as RFC 3339 text; else a daily schedule at the
/// normalized time, on the given weekdays and between the given dates.
pub open spec fn schedule_fits(
    s: Schedule,
    every: Option<Seq<char>>,
    at: Option<Seq<char>>,
    days: Option<Seq<char>>,
    daily: Option<Seq<char>>,
    start: Option<Seq<char>>,
    end: Option<Seq<char>>,
    tz: Seq<char>,
) -> bool {
    match every {
        Some(e) => s == Schedule::Interval(Interval { seconds: duration_value(e)->0 as u64 }),
        None => {
            let t = time_flag(at, daily)->0;
            match once_instant(at, t, tz) {
                Some(p) => s matches Schedule::Once(o) && o.at@ == rfc3339_text(p.0, p.1),
                None => {
                    let hm = hhmm_value(t)->0;
                    &&& s matches Schedule::Daily(d)
                    &&& s->Daily_0.time@ == hhmm_text(hm.0, hm.1)
                    &&& s->Daily_0.days@.map_values(|x: String| x@) == day_names(days)
                    &&& opt_text(s->Daily_0.start_date) == start
                    &&& opt_text(s->Daily_0.end_date) == end
                },
            }
        },
    }
}

fn opt_str(o: Option<&str>) -> (r: Option<String>)
    ensures
        match o {
            Some(s) => r matches Some(t) && t@ == s@,
            None => r is None,
        },
{
    match o {
        Some(s) => Some(String::from_str(s)),
        None => None,
    }
}

fn contains_white_space(s: &str) -> (r: bool)
    ensures
        r == has_white_space(s@),
{
    let cs = chars_of(s);
    let mut i: usize = 0;
    while i < cs.len()
        invariant
            cs@ == s@,
            0 <= i <= cs.len(),
            forall|j: int| 0 <= j < i ==> !is_white_space(#[trigger] cs@[j]),
        decreases cs.len() - i,
    {
        if white_space(cs[i]) {
            return true;
        }
        i = i + 1;
    }
    false
}

fn weekday_name(w: Weekday) -> (r: String)
    ensures
        r@ == weekday_short(w),
{
    match w {
        Weekday::Mon => String::from_str("mon"),
        Weekday::Tue => String::from_str("tue"),
        Weekday::Wed => String::from_str("wed"),
        Weekday::Thu => String::from_str("thu"),
        Weekday::Fri => String::from_str("fri"),
        Weekday::Sat => String::from_str("sat"),
        Weekday::Sun => String::from_str("sun"),
    }
}

/// The view of an optional text argument.
pub open spec fn view_opt(o: Option<&str>) -> Option<Seq<char>> {
    match o {
        Some(s) => Some(s@),
        None => None,
    }
}

/// Resolve schedule flags into a `Schedule` (shared by add/edit). A
/// date-and-time `--at` in zone `tz` (UTC when `chrono_tz` does not know
/// the name) makes a one-time reminder.
pub fn build_schedule(
    every: Option<&str>,
    at: Option<&str>,
    days: Option<&str>,
    daily: Option<&str>,
    start: Option<&str>,
    end: Option<&str>,
    tz: &str,
) -> (r: Result<Schedule, String>)
    requires
        every matches Some(e) ==> !duration_overflows(e@),
    ensures
        match schedule_error(view_opt(every), view_opt(at), view_opt(days), view_opt(daily), effective_tz(tz@)) {
            Some(m) => r matches Err(e) && e@ == m,
            None => r matches Ok(s) && schedule_fits(
                s,
                view_opt(every),
                view_opt(at),
                view_opt(days),
                view_opt(daily),
                view_opt(start),
                view_opt(end),
                effective_tz(tz@),
            ),
        },
{
    if let Some(e) = every {
        return match parse_duration(e) {
            Some(secs) => Ok(Schedule::interval(secs)),
            None => {
                let mut v: Vec<char> = Vec::new();
                push_str(&mut v, "invalid --every '");
                push_str(&mut v, e);
                push_str(&mut v, "' (examples: 1h, 45m, 90s)");
                Err(string_of(v.as_slice()))
            },
        };
    }
    let time_str = match daily {
        Some(t) => t,
        None => match at {
            Some(t) => t,
            None => {
                return Err(
                    String::from_str(
                        "specify a schedule: --every 1h, --daily 09:00, --at 19:00, or --days mon,wed,fri --at 18:00",
                    ),
                );
            },
        },
    };
    if at.is_some() && contains_white_space(time_str) {
        if let Some(t) = parse_datetime(time_str, tz) {
            return Ok(Schedule::Once(Once { at: format_rfc3339(&t) }));
        }
    }
    let time = match normalize_time(time_str) {
        Some(t) => t,
        None => {
            let mut v: Vec<char> = Vec::new();
            push_str(&mut v, "invalid time '");
            push_str(&mut v, time_str);
            push_str(&mut v, "' (use HH:MM or H:MMam/pm)");
            return Err(string_of(v.as_slice()));
        },
    };
    let weekdays: Vec<Weekday> = match days {
        Some(d) => match parse_days(d) {
            Some(ws) => ws,
            None => {
                let mut v: Vec<char> = Vec::new();
                push_str(&mut v, "invalid --days '");
                push_str(&mut v, d);
                push_str(&mut v, "' (mon,tue,wed,thu,fri,sat,sun)");
                return Err(string_of(v.as_slice()));
            },
        },
        None => Vec::new(),
    };
    let ghost names = day_names(view_opt(days));
    assert(weekdays@.map_values(|w: Weekday| weekday_short(w)) == names);
    let mut day_list: Vec<String> = Vec::new();
    let mut i: usize = 0;
    while i < weekdays.len()
        invariant
            0 <= i <= weekdays@.len(),
            day_list@.map_values(|x: String| x@) == weekdays@.subrange(0, i as int).map_values(
                |w: Weekday| weekday_short(w),
            ),
        decreases weekdays@.len() - i,
    {
        let ghost before = day_list@;
        day_list.push(weekday_name(weekdays[i]));
        proof {
            assert(day_list@.map_values(|x: String| x@) =~= before.map_values(|x: String| x@).push(
                weekday_short(weekdays@[i as int]),
            ));
            assert(weekdays@.subrange(0, i + 1).map_values(|w: Weekday| weekday_short(w))
                =~= weekdays@.subrange(0, i as int).map_values(|w: Weekday| weekday_short(w)).push(
                weekday_short(weekdays@[i as int]),
            ));
        }
        i = i + 1;
    }
    assert(weekdays@.subrange(0, weekdays@.len() as int) =~= weekdays@);
    Ok(
        Schedule::Daily(
            Daily { time, days: day_list, start_date: opt_str(start), end_date: opt_str(end) },
        ),
    )
}

// --------------------------------------------------------------- reminders

/// An optional override with empty text treated as none.
pub open spec fn nonempty(o: Option<String>) -> Option<Seq<char>> {
    match o {
        Some(s) => if s@.len() > 0 {
            Some(s@)
        } else {
            None
        },
        None => None,
    }
}

fn filter_nonempty(o: Option<String>) -> (r: Option<String>)
    ensures
        opt_text(r) == nonempty(o),
{
    match o {
        Some(s) => if s.as_str().is_empty() {
            None
        } else {
            Some(s)
        },
        None => None,
    }
}

/// The message for an unknown id.
pub open spec fn no_reminder_text(id: u64) -> Seq<char> {
    "no reminder with ID "@ + decimal(id as nat)
}

fn no_reminder(id: u64) -> (r: String)
    ensures
        r@ == no_reminder_text(id),
{
    let mut v: Vec<char> = Vec::new();
    push_str(&mut v, "no reminder with ID ");
    push_decimal(&mut v, id);
    string_of(v.as_slice())
}

/// Checks a `--timezone` value: it must be a zone `chrono_tz` knows.
pub fn check_timezone(tz: &str) -> (r: Result<(), String>)
    ensures
        tz_known(tz@) ==> r is Ok,
        !tz_known(tz@) ==> (r matches Err(e) && e@ == "unknown timezone '"@ + tz@ + "'"@),
{
    if timezone_known(tz) {
        Ok(())
    } else {
        let mut v: Vec<char> = Vec::new();
        push_str(&mut v, "unknown timezone '");
        push_str(&mut v, tz);
        push_str(&mut v, "'");
        Err(string_of(v.as_slice()))
    }
}

/// Adds a new enabled reminder with the list's next id (which then moves
/// on); without an emoji one is guessed from the title, and an empty
/// character override counts as none.
pub fn add_reminder(
    list: &mut ReminderList,
    title: &str,
    schedule: Schedule,
    emoji: Option<String>,
    character: Option<String>,
    timezone: String,
    created: Timestamp,
) -> (id: u64)
    requires
        old(list).next_id < u64::MAX,
    ensures
        id == old(list).next_id,
        final(list).next_id == old(list).next_id + 1,
        final(list).version == old(list).version,
        final(list).reminders@.len() == old(list).reminders@.len() + 1,
        final(list).reminders@.drop_last() == old(list).reminders@,
        ({
            let r = final(list).reminders@.last();
            &&& r.id == id
            &&& r.title@ == title@
            &&& r.schedule == schedule
            &&& opt_text(r.emoji) == (match emoji {
                Some(e) => Some(e@),
                None => emoji_for(str_lowercase(title@)),
            })
            &&& opt_text(r.character) == nonempty(character)
            &&& r.timezone == timezone
            &&& r.enabled
            &&& !r.completed
            &&& r.created == created
        }),
{
    let id = list.next_id;
    list.next_id = list.next_id + 1;
    let emoji = match emoji {
        Some(e) => Some(e),
        None => guess_emoji(title),
    };
    let reminder = Reminder {
        id,
        title: String::from_str(title),
        emoji,
        schedule,
        character: filter_nonempty(character),
        timezone,
        enabled: true,
        completed: false,
        created,
    };
    list.reminders.push(reminder);
    id
}

/// Removes every reminder with the given id; refuses when there is none.
pub fn remove(list: &mut ReminderList, id: u64) -> (r: Result<(), String>)
    ensures
        final(list).reminders@ == old(list).reminders@.filter(|x: Reminder| x.id != id),
        final(list).version == old(list).version,
        final(list).next_id == old(list).next_id,
        (r is Ok) == (exists|j: int| 0 <= j < old(list).reminders@.len() && #[trigger] old(list).reminders@[j].id == id),
        r is Err ==> (r matches Err(e) && e@ == no_reminder_text(id)),
{
    let mut rest: Vec<Reminder> = Vec::new();
    std::mem::swap(&mut rest, &mut list.reminders);
    let ghost orig = rest@;
    let total = rest.len();
    assert(orig.len() == total);
    let mut kept: Vec<Reminder> = Vec::new();
    let mut removed = false;
    let mut i: usize = 0;
    while rest.len() > 0
        invariant
            0 <= i <= orig.len(),
            orig.len() <= usize::MAX,
            rest@ == orig.skip(i as int),
            kept@ == orig.take(i as int).filter(|x: Reminder| x.id != id),
            removed == (exists|j: int| 0 <= j < i && #[trigger] orig[j].id == id),
        decreases rest@.len(),
    {
        let x = rest.remove(0);
        proof {
            reveal(Seq::filter);
            assert(orig.take(i + 1).drop_last() =~= orig.take(i as int));
            assert(orig.take(i + 1).last() == orig[i as int]);
            assert(x == orig[i as int]);
            assert(rest@ =~= orig.skip(i + 1));
        }
        if x.id == id {
            removed = true;
        } else {
            kept.push(x);
        }
        i = i + 1;
    }
    assert(orig.take(orig.len() as int) =~= orig);
    list.reminders = kept;
    if !removed {
        return Err(no_reminder(id));
    }
    Ok(())
}

/// A pause or resume with `id` (all reminders when none) touches `r`.
pub open spec fn pause_target(r: Reminder, id: Option<u64>) -> bool {
    id is None || id == Some(r.id)
}

/// How many reminders of `rs` a pause/resume to `to` changes.
pub open spec fn changed_count(rs: Seq<Reminder>, id: Option<u64>, to: bool) -> nat
    decreases rs.len(),
{
    if rs.len() == 0 {
        0
    } else {
        changed_count(rs.drop_last(), id, to) + if pause_target(rs.last(), id)
            && rs.last().enabled != to {
            1nat
        } else {
            0nat
        }
    }
}

/// `r` after a pause/resume to `to`.
pub open spec fn paused(r: Reminder, id: Option<u64>, to: bool) -> Reminder {
    if pause_target(r, id) {
        Reminder { enabled: to, ..r }
    } else {
        r
    }
}

/// Pause (`resume == false`) or resume the reminder with `id`, or all of
/// them; returns how many changed, refusing when none did.
pub fn pause(list: &mut ReminderList, id: Option<u64>, resume: bool) -> (r: Result<u64, String>)
    ensures
        final(list).reminders@ == old(list).reminders@.map_values(|x: Reminder| paused(x, id, resume)),
        final(list).version == old(list).version,
        final(list).next_id == old(list).next_id,
        changed_count(old(list).reminders@, id, resume) == 0 ==> (r matches Err(e) && e@
            == "nothing to change"@),
        changed_count(old(list).reminders@, id, resume) > 0 ==> r == Ok::<u64, String>(
            changed_count(old(list).reminders@, id, resume) as u64,
        ),
{
    let mut rest: Vec<Reminder> = Vec::new();
    std::mem::swap(&mut rest, &mut list.reminders);
    let ghost orig = rest@;
    let total = rest.len();
    assert(orig.len() == total);
    let mut out: Vec<Reminder> = Vec::new();
    let mut changed: u64 = 0;
    let mut i: usize = 0;
    while rest.len() > 0
        invariant
            0 <= i <= orig.len(),
            orig.len() <= usize::MAX,
            rest@ == orig.skip(i as int),
            out@ == orig.take(i as int).map_values(|x: Reminder| paused(x, id, resume)),
            changed == changed_count(orig.take(i as int), id, resume),
            changed <= i,
        decreases rest@.len(),
    {
        let mut x = rest.remove(0);
        proof {
            assert(orig.take(i + 1).drop_last() =~= orig.take(i as int));
            assert(orig.take(i + 1).last() == orig[i as int]);
            assert(x == orig[i as int]);
            assert(rest@ =~= orig.skip(i + 1));
        }
        let hit = match id {
            None => true,
            Some(k) => k == x.id,
        };
        if hit && x.enabled != resume {
            changed = changed + 1;
        }
        if hit {
            x.enabled = resume;
        }
        let ghost before = out@;
        out.push(x);
        proof {
            assert(out@ =~= before.push(paused(orig[i as int], id, resume)));
            assert(orig.take(i + 1).map_values(|x: Reminder| paused(x, id, resume)) =~= orig.take(
                i as int,
            ).map_values(|x: Reminder| paused(x, id, resume)).push(paused(orig[i as int], id, resume)));
        }
        i = i + 1;
    }
    assert(orig.take(orig.len() as int) =~= orig);
    list.reminders = out;
    if changed == 0 {
        return Err(String::from_str("nothing to change"));
    }
    Ok(changed)
}

/// The confirmation after a pause or resume.
pub fn pause_message(resume: bool, changed: u64) -> (r: String)
    ensures
        r@ == (if resume {
            "Resumed"@
        } else {
            "Paused"@
        }) + " "@ + decimal(changed as nat) + " reminder(s)"@,
{
    let mut v: Vec<char> = Vec::new();
    if resume {
        push_str(&mut v, "Resumed");
    } else {
        push_str(&mut v, "Paused");
    }
    push_str(&mut v, " ");
    push_decimal(&mut v, changed);
    push_str(&mut v, " reminder(s)");
    string_of(v.as_slice())
}


// -------------------------------------------------------------------- edit

/// An `--every` flag that gives back an interval: whole hours as `{n}h`,
/// else whole minutes as `{n}m` (rounded down).
pub open spec fn current_every(s: Schedule) -> Option<Seq<char>> {
    match s {
        Schedule::Interval(iv) => Some(
            if iv.seconds >= 3600 && iv.seconds % 3600 == 0 {
                decimal((iv.seconds / 3600) as nat) + "h"@
            } else {
                decimal((iv.seconds / 60) as nat) + "m"@
            },
        ),
        _ => None,
    }
}

/// The `--at` flag that gives back a daily schedule's time.
pub open spec fn current_at(s: Schedule) -> Option<Seq<char>> {
    match s {
        Schedule::Daily(d) => Some(d.time@),
        _ => None,
    }
}

/// The `--days` flag that gives back a daily schedule's weekdays (none
/// when it runs every day).
pub open spec fn current_days(s: Schedule) -> Option<Seq<char>> {
    match s {
        Schedule::Daily(d) => if d.days@.len() > 0 {
            Some(crate::util::comma_joined(d.days@))
        } else {
            None
        },
        _ => None,
    }
}

/// The flags that describe a schedule as it is: `--every`, `--at`, `--days`.
pub fn current_flags(s: &Schedule) -> (r: (Option<String>, Option<String>, Option<String>))
    ensures
        opt_text(r.0) == current_every(*s),
        opt_text(r.1) == current_at(*s),
        opt_text(r.2) == current_days(*s),
{
    match s {
        Schedule::Interval(iv) => {
            let mut v: Vec<char> = Vec::new();
            if iv.seconds >= 3600 && iv.seconds % 3600 == 0 {
                push_decimal(&mut v, iv.seconds / 3600);
                push_str(&mut v, "h");
            } else {
                push_decimal(&mut v, iv.seconds / 60);
                push_str(&mut v, "m");
            }
            (Some(string_of(v.as_slice())), None, None)
        },
        Schedule::Daily(d) => {
            let days = if d.days.len() > 0 {
                let mut parts: Vec<Vec<char>> = Vec::new();
                let mut i: usize = 0;
                while i < d.days.len()
                    invariant
                        0 <= i <= d.days@.len(),
                        parts@.map_values(|v: Vec<char>| v@) == d.days@.subrange(0, i as int).map_values(
                            |x: String| x@,
                        ),
                    decreases d.days@.len() - i,
                {
                    let ghost before = parts@;
                    parts.push(chars_of(d.days[i].as_str()));
                    proof {
                        assert(parts@.map_values(|v: Vec<char>| v@) =~= before.map_values(
                            |v: Vec<char>| v@,
                        ).push(d.days@[i as int]@));
                        assert(d.days@.subrange(0, i + 1).map_values(|x: String| x@) =~= d.days@.subrange(
                            0,
                            i as int,
                        ).map_values(|x: String| x@).push(d.days@[i as int]@));
                    }
                    i = i + 1;
                }
                assert(d.days@.subrange(0, d.days@.len() as int) =~= d.days@);
                Some(string_of(crate::util::join_chars(&parts, ",").as_slice()))
            } else {
                None
            };
            (None, Some(d.time.clone()), days)
        },
        Schedule::Once(_) => (None, None, None),
    }
}

/// The given flag, else the current one.
pub open spec fn or_text(a: Option<Seq<char>>, b: Option<Seq<char>>) -> Option<Seq<char>> {
    if a is Some {
        a
    } else {
        b
    }
}

/// Any schedule flag was given.
pub open spec fn reschedules(
    every: Option<String>,
    at: Option<String>,
    days: Option<String>,
    daily: Option<String>,
) -> bool {
    every is Some || at is Some || days is Some || daily is Some
}

/// The flags an edit builds the new schedule from: each given flag, else
/// the one describing the current schedule (`--daily` is not carried).
pub open spec fn edit_flags(
    every: Option<String>,
    at: Option<String>,
    days: Option<String>,
    s: Schedule,
) -> (Option<Seq<char>>, Option<Seq<char>>, Option<Seq<char>>) {
    (
        or_text(opt_text(every), current_every(s)),
        or_text(opt_text(at), current_at(s)),
        or_text(opt_text(days), current_days(s)),
    )
}

/// The list `b` holds what `a` holds.
pub open spec fn same_list(a: ReminderList, b: ReminderList) -> bool {
    a.version == b.version && a.next_id == b.next_id && a.reminders@ == b.reminders@
}

fn pick(given: Option<String>, current: Option<String>) -> (r: Option<String>)
    ensures
        opt_text(r) == or_text(opt_text(given), opt_text(current)),
{
    match given {
        Some(g) => Some(g),
        None => current,
    }
}

fn as_opt_str(o: &Option<String>) -> (r: Option<&str>)
    ensures
        view_opt(r) == opt_text(*o),
{
    match o {
        Some(s) => Some(s.as_str()),
        None => None,
    }
}

/// Edits the reminder with `id`: schedule flags rebuild its schedule from
/// the given flags and its current ones (read in zone `tz`, UTC when
/// `chrono_tz` does not know the name), and the title, emoji and character
/// are replaced when given (an empty character clears the override).
/// Returns whether the schedule changed; the list is left alone when the
/// id is unknown or the flags make no schedule.
pub fn edit(
    list: &mut ReminderList,
    id: u64,
    every: Option<String>,
    at: Option<String>,
    days: Option<String>,
    daily: Option<String>,
    title: Option<String>,
    emoji: Option<String>,
    character: Option<String>,
    tz: &str,
) -> (r: Result<bool, String>)
    requires
        match first_with_id(old(list).reminders@, id) {
            Some(i) => reschedules(every, at, days, daily) ==> (edit_flags(
                every,
                at,
                days,
                old(list).reminders@[i].schedule,
            ).0 matches Some(e) ==> !duration_overflows(e)),
            None => true,
        },
    ensures
        match first_with_id(old(list).reminders@, id) {
            None => r matches Err(e) && e@ == no_reminder_text(id) && same_list(*final(list), *old(list)),
            Some(i) => {
                let o = old(list).reminders@[i];
                let f = edit_flags(every, at, days, o.schedule);
                let resched = reschedules(every, at, days, daily);
                if resched && schedule_error(f.0, f.1, f.2, None, effective_tz(tz@)) is Some {
                    r matches Err(e) && e@ == schedule_error(f.0, f.1, f.2, None, effective_tz(tz@))->0 && same_list(
                        *final(list),
                        *old(list),
                    )
                } else {
                    let n = final(list).reminders@[i];
                    &&& r == Ok::<bool, String>(resched)
                    &&& final(list).version == old(list).version
                    &&& final(list).next_id == old(list).next_id
                    &&& final(list).reminders@ == old(list).reminders@.update(i, n)
                    &&& n.id == o.id
                    &&& (resched ==> schedule_fits(n.schedule, f.0, f.1, f.2, None, None, None, effective_tz(tz@)))
                    &&& (!resched ==> n.schedule == o.schedule)
                    &&& n.title@ == (match title {
                        Some(t) => t@,
                        None => o.title@,
                    })
                    &&& opt_text(n.emoji) == (if emoji is Some {
                        opt_text(emoji)
                    } else {
                        opt_text(o.emoji)
                    })
                    &&& opt_text(n.character) == (if character is Some {
                        nonempty(character)
                    } else {
                        opt_text(o.character)
                    })
                    &&& n.timezone == o.timezone
                    &&& n.enabled == o.enabled
                    &&& n.completed == o.completed
                    &&& n.created == o.created
                }
            },
        },
{
    proof {
        crate::model::lemma_first_with_id(list.reminders@, id);
        if let Some(i) = first_with_id(list.reminders@, id) {
            assert(list.reminders@.update(i, list.reminders@[i]) =~= list.reminders@);
        }
    }
    let r = match list.get_mut(id) {
        Some(r) => r,
        None => {
            return Err(no_reminder(id));
        },
    };
    let changed = every.is_some() || at.is_some() || daily.is_some() || days.is_some();
    if changed {
        let (cur_every, cur_at, cur_days) = current_flags(&r.schedule);
        let e = pick(every, cur_every);
        let a = pick(at, cur_at);
        let d = pick(days, cur_days);
        let schedule = match build_schedule(as_opt_str(&e), as_opt_str(&a), as_opt_str(&d), None, None, None, tz) {
            Ok(s) => s,
            Err(m) => {
                return Err(m);
            },
        };
        r.schedule = schedule;
    }
    if let Some(t) = title {
        r.title = t;
    }
    if emoji.is_some() {
        r.emoji = emoji;
    }
    if character.is_some() {
        r.character = filter_nonempty(character);
    }
    Ok(changed)
}

// -------------------------------------------------------------------- list

/// The status column of a reminder.
pub open spec fn status_cell(r: Reminder) -> Seq<char> {
    if r.completed {
        crate::ui::DOT_ON@ + " done"@
    } else if r.enabled {
        crate::ui::DOT_ON@
    } else {
        crate::ui::DOT_OFF@ + " paused"@
    }
}

/// The "Next" column of a reminder: nothing once completed or when it has
/// no next time, "now" when due, else how long until it is.
pub open spec fn next_cell(r: Reminder, fired: Map<u64, Timestamp>, now: Timestamp) -> Seq<char> {
    if r.completed {
        Seq::empty()
    } else {
        match next_due_value(r, fired, now) {
            Some(p) => if parts_le(p, parts_of(now)) {
                "now"@
            } else {
                "Next: "@ + short_duration(whole_seconds_between(p.0, p.1, now.spec_secs(), now.spec_nanos()))
            },
            None => Seq::empty(),
        }
    }
}

/// The row of the reminder list for `r`: id, emoji and title, schedule,
/// next time, status, and character (the active one when it has none).
pub open spec fn list_row_text(r: Reminder, fired: Map<u64, Timestamp>, now: Timestamp, default_character: Seq<char>) -> Seq<Seq<char>> {
    seq![
        decimal(r.id as nat),
        (match r.emoji {
            Some(e) => e@,
            None => Seq::empty(),
        }) + " "@ + r.title@,
        humanized_schedule(r.schedule),
        next_cell(r, fired, now),
        status_cell(r),
        match r.character {
            Some(c) => c@,
            None => default_character,
        },
    ]
}

/// One row of `list`.
pub fn list_row(r: &Reminder, state: &RunState, now: Timestamp, default_character: &str) -> (row: Vec<String>)
    requires
        !r.completed ==> next_due_ok(*r, state.last_fired@, now),
    ensures
        row@.map_values(|s: String| s@) == list_row_text(*r, state.last_fired@, now, default_character@),
{
    let status = if r.completed {
        let mut v: Vec<char> = Vec::new();
        push_str(&mut v, crate::ui::DOT_ON);
        push_str(&mut v, " done");
        string_of(v.as_slice())
    } else if r.enabled {
        String::from_str(crate::ui::DOT_ON)
    } else {
        let mut v: Vec<char> = Vec::new();
        push_str(&mut v, crate::ui::DOT_OFF);
        push_str(&mut v, " paused");
        string_of(v.as_slice())
    };
    let next = if r.completed {
        String::new()
    } else {
        match next_due(r, state, now) {
            Some(t) => if !now.is_before(&t) {
                String::from_str("now")
            } else {
                let mut v: Vec<char> = Vec::new();
                push_str(&mut v, "Next: ");
                push_str(&mut v, humanize_duration_short(seconds_between(&t, &now)).as_str());
                string_of(v.as_slice())
            },
            None => String::new(),
        }
    };
    let mut id_text: Vec<char> = Vec::new();
    push_decimal(&mut id_text, r.id);
    let mut title: Vec<char> = Vec::new();
    match &r.emoji {
        Some(e) => push_str(&mut title, e.as_str()),
        None => {},
    }
    push_str(&mut title, " ");
    push_str(&mut title, r.title.as_str());
    let character = match &r.character {
        Some(c) => c.clone(),
        None => String::from_str(default_character),
    };
    let mut row: Vec<String> = Vec::new();
    row.push(string_of(id_text.as_slice()));
    row.push(string_of(title.as_slice()));
    row.push(humanize(&r.schedule));
    row.push(next);
    row.push(status);
    row.push(character);
    assert(row@.map_values(|s: String| s@) =~= list_row_text(*r, state.last_fired@, now, default_character@));
    row
}

/// The widest entry of column `c` among `rows` (1 when there are none).
pub open spec fn column_width(rows: Seq<Seq<Seq<char>>>, c: int) -> int
    decreases rows.len(),
{
    if rows.len() == 0 {
        1
    } else if rows.len() == 1 {
        rows[0][c].len() as int
    } else {
        let w = column_width(rows.drop_last(), c);
        if rows.last()[c].len() > w {
            rows.last()[c].len() as int
        } else {
            w
        }
    }
}

/// The widths of the six columns of `list`, in characters.
pub fn column_widths(rows: &Vec<Vec<String>>) -> (r: Vec<usize>)
    requires
        forall|k: int| 0 <= k < rows@.len() ==> (#[trigger] rows@[k])@.len() == 6,
    ensures
        r@.len() == 6,
        forall|c: int|
            0 <= c < 6 ==> r@[c] == column_width(
                rows@.map_values(|row: Vec<String>| row@.map_values(|s: String| s@)),
                c,
            ),
{
    let ghost rs = rows@.map_values(|row: Vec<String>| row@.map_values(|s: String| s@));
    let mut out: Vec<usize> = Vec::new();
    let mut c: usize = 0;
    while c < 6
        invariant
            0 <= c <= 6,
            out@.len() == c,
            rs == rows@.map_values(|row: Vec<String>| row@.map_values(|s: String| s@)),
            forall|k: int| 0 <= k < rows@.len() ==> (#[trigger] rows@[k])@.len() == 6,
            forall|j: int| 0 <= j < c ==> out@[j] == column_width(rs, j),
        decreases 6 - c,
    {
        let mut w: usize = 1;
        let mut k: usize = 0;
        while k < rows.len()
            invariant
                0 <= k <= rows@.len(),
                c < 6,
                rs == rows@.map_values(|row: Vec<String>| row@.map_values(|s: String| s@)),
                forall|k: int| 0 <= k < rows@.len() ==> (#[trigger] rows@[k])@.len() == 6,
                w == column_width(rs.take(k as int), c as int),
            decreases rows@.len() - k,
        {
            let n = chars_of(rows[k][c].as_str()).len();
            proof {
                assert(rs.take(k + 1).drop_last() =~= rs.take(k as int));
                assert(rs.take(k + 1).last() == rs[k as int]);
                assert(rs[k as int][c as int] == rows@[k as int]@[c as int]@);
                if k == 0 {
                    assert(rs.take(1)[0] == rs[0]);
                }
            }
            if k == 0 || n > w {
                w = n;
            }
            k = k + 1;
        }
        assert(rs.take(rows@.len() as int) =~= rs);
        out.push(w);
        c = c + 1;
    }
    out
}

/// The "Next" line of `status` for a running daemon: the title and how
/// long until it is due, or a dash.
pub fn status_next_text(next_title: &Option<String>, next_in_secs: Option<i64>) -> (r: String)
    ensures
        r@ == (match (*next_title, next_in_secs) {
            (Some(t), Some(s)) => t@ + " in "@ + short_duration(s as int),
            _ => "—"@,
        }),
{
    match (next_title, next_in_secs) {
        (Some(t), Some(s)) => {
            let mut v: Vec<char> = Vec::new();
            push_str(&mut v, t.as_str());
            push_str(&mut v, " in ");
            push_str(&mut v, humanize_duration_short(s).as_str());
            string_of(v.as_slice())
        },
        _ => String::from_str("—"),
    }
}

/// The first of the last `lines` lines of a log of `total` lines.
pub fn logs_start(total: usize, lines: usize) -> (r: usize)
    ensures
        r == (if total >= lines { total - lines } else { 0 }),
{
    if total >= lines {
        total - lines
    } else {
        0
    }
}


// -------------------------------------------------------------------- laws

/// The full English name of a weekday.
pub open spec fn weekday_long(w: Weekday) -> Seq<char> {
    match w {
        Weekday::Mon => "monday"@,
        Weekday::Tue => "tuesday"@,
        Weekday::Wed => "wednesday"@,
        Weekday::Thu => "thursday"@,
        Weekday::Fri => "friday"@,
        Weekday::Sat => "saturday"@,
        Weekday::Sun => "sunday"@,
    }
}

proof fn lemma_short_name_reads_back(w: Weekday)
    ensures
        day_name(weekday_short(w)) == Some(w),
{
    reveal_strlit("mon");
    reveal_strlit("tue");
    reveal_strlit("wed");
    reveal_strlit("thu");
    reveal_strlit("fri");
    reveal_strlit("sat");
    reveal_strlit("sun");
    reveal_strlit("monday");
    reveal_strlit("tuesday");
    reveal_strlit("wednesday");
    reveal_strlit("thursday");
    reveal_strlit("friday");
    reveal_strlit("saturday");
    reveal_strlit("tues");
    reveal_strlit("thurs");
    reveal_strlit("1");
    reveal_strlit("2");
    reveal_strlit("3");
    reveal_strlit("4");
    reveal_strlit("5");
    reveal_strlit("6");
    assert("mon"@.len() == 3 && "tue"@.len() == 3 && "wed"@.len() == 3 && "thu"@.len() == 3
        && "fri"@.len() == 3 && "sat"@.len() == 3 && "sun"@.len() == 3);
    assert("monday"@.len() == 6 && "tuesday"@.len() == 7 && "wednesday"@.len() == 9
        && "thursday"@.len() == 8 && "friday"@.len() == 6 && "saturday"@.len() == 8
        && "tues"@.len() == 4 && "thurs"@.len() == 5);
    assert("1"@.len() == 1 && "2"@.len() == 1 && "3"@.len() == 1 && "4"@.len() == 1
        && "5"@.len() == 1 && "6"@.len() == 1);
    assert("mon"@[0] == 'm' && "tue"@[0] == 't' && "wed"@[0] == 'w' && "thu"@[0] == 't'
        && "fri"@[0] == 'f' && "sat"@[0] == 's' && "sun"@[0] == 's');
    assert("tue"@[1] == 'u' && "thu"@[1] == 'h' && "sat"@[1] == 'a' && "sun"@[1] == 'u');
}

/// Every weekday is read back from its three-letter name, its full name and
/// its number (1 for Monday through 7 for Sunday), and from nothing that
/// names another day: a `--days` list of one name gives exactly that day.
pub proof fn law_weekday_names_read_back(w: Weekday, v: Weekday)
    ensures
        day_name(weekday_short(w)) == Some(w),
        day_name(weekday_long(w)) == Some(w),
        day_name(decimal((weekday_index(w) + 1) as nat)) == Some(w),
        days_value(weekday_short(w)) == Some(seq![w]),
        day_name(weekday_short(v)) == day_name(weekday_short(w)) ==> v == w,
{
    reveal_strlit("mon");
    reveal_strlit("tue");
    reveal_strlit("wed");
    reveal_strlit("thu");
    reveal_strlit("fri");
    reveal_strlit("sat");
    reveal_strlit("sun");
    reveal_strlit("monday");
    reveal_strlit("tuesday");
    reveal_strlit("wednesday");
    reveal_strlit("thursday");
    reveal_strlit("friday");
    reveal_strlit("saturday");
    reveal_strlit("sunday");
    reveal_strlit("tues");
    reveal_strlit("thurs");
    reveal_strlit("1");
    reveal_strlit("2");
    reveal_strlit("3");
    reveal_strlit("4");
    reveal_strlit("5");
    reveal_strlit("6");
    reveal_strlit("7");
    let n = (weekday_index(w) + 1) as nat;
    assert(decimal(n) == seq![crate::text::digit_char(n as int)]);
    let num = match w {
        Weekday::Mon => "1"@,
        Weekday::Tue => "2"@,
        Weekday::Wed => "3"@,
        Weekday::Thu => "4"@,
        Weekday::Fri => "5"@,
        Weekday::Sat => "6"@,
        Weekday::Sun => "7"@,
    };
    assert(decimal(n) =~= num);
    let l = weekday_long(w);
    assert("mon"@.len() == 3 && "tue"@.len() == 3 && "wed"@.len() == 3 && "thu"@.len() == 3
        && "fri"@.len() == 3 && "sat"@.len() == 3 && "sun"@.len() == 3);
    assert("monday"@.len() == 6 && "tuesday"@.len() == 7 && "wednesday"@.len() == 9
        && "thursday"@.len() == 8 && "friday"@.len() == 6 && "saturday"@.len() == 8
        && "sunday"@.len() == 6 && "tues"@.len() == 4 && "thurs"@.len() == 5);
    assert("1"@.len() == 1 && "2"@.len() == 1 && "3"@.len() == 1 && "4"@.len() == 1
        && "5"@.len() == 1 && "6"@.len() == 1 && "7"@.len() == 1);
    assert("1"@[0] == '1' && "2"@[0] == '2' && "3"@[0] == '3' && "4"@[0] == '4' && "5"@[0] == '5'
        && "6"@[0] == '6' && "7"@[0] == '7');
    assert("monday"@[0] == 'm' && "friday"@[0] == 'f' && "sunday"@[0] == 's'
        && "thursday"@[0] == 't' && "saturday"@[0] == 's');
    match w {
        Weekday::Mon => {
            assert(l =~= "monday"@);
        },
        Weekday::Tue => {
            assert(l != "mon"@ && l != "monday"@ && l != "1"@);
        },
        Weekday::Wed => {
            assert(l != "mon"@ && l != "monday"@ && l != "1"@);
            assert(l != "tue"@ && l != "tues"@ && l != "tuesday"@ && l != "2"@);
        },
        Weekday::Thu => {
            assert(l != "mon"@ && l != "monday"@ && l != "1"@);
            assert(l != "tue"@ && l != "tues"@ && l != "tuesday"@ && l != "2"@);
            assert(l != "wed"@ && l != "wednesday"@ && l != "3"@);
        },
        Weekday::Fri => {
            assert(l != "mon"@ && l != "monday"@ && l != "1"@);
            assert(l != "tue"@ && l != "tues"@ && l != "tuesday"@ && l != "2"@);
            assert(l != "wed"@ && l != "wednesday"@ && l != "3"@);
            assert(l != "thu"@ && l != "thurs"@ && l != "thursday"@ && l != "4"@);
        },
        Weekday::Sat => {
            assert(l != "mon"@ && l != "monday"@ && l != "1"@);
            assert(l != "tue"@ && l != "tues"@ && l != "tuesday"@ && l != "2"@);
            assert(l != "wed"@ && l != "wednesday"@ && l != "3"@);
            assert(l != "thu"@ && l != "thurs"@ && l != "thursday"@ && l != "4"@);
            assert(l != "fri"@ && l != "friday"@ && l != "5"@);
        },
        Weekday::Sun => {
            assert(l != "mon"@ && l != "monday"@ && l != "1"@);
            assert(l != "tue"@ && l != "tues"@ && l != "tuesday"@ && l != "2"@);
            assert(l != "wed"@ && l != "wednesday"@ && l != "3"@);
            assert(l != "thu"@ && l != "thurs"@ && l != "thursday"@ && l != "4"@);
            assert(l != "fri"@ && l != "friday"@ && l != "5"@);
            assert(l != "sat"@ && l != "saturday"@ && l != "6"@);
        },
    }
    lemma_short_name_reads_back(v);
    lemma_short_name_reads_back(w);
    let s = weekday_short(w);
    assert(s.len() == 3);
    assert(crate::text::lead_ws(s) == 0);
    assert(s.subrange(0, 3) =~= s);
    assert(crate::text::trail_ws(s) == 0);
    assert(crate::text::ascii_lower(s) =~= s);
    assert(crate::util::find_char(s, ',') is None) by {
        reveal_with_fuel(crate::util::find_char, 4);
        assert(s.drop_first().drop_first().drop_first() =~= Seq::<char>::empty());
    }
    assert(crate::util::split_all(s, ',') == seq![s]);
}


/// The `--every` flag that describes an interval of whole minutes reads back
/// as that same interval.
pub proof fn law_every_flag_reads_back(secs: u64)
    requires
        secs >= 60,
        secs % 60 == 0,
    ensures
        duration_value(current_every(Schedule::Interval(Interval { seconds: secs }))->0) == Some(
            secs as int,
        ),
{
    if secs >= 3600 && secs % 3600 == 0 {
        let k = (secs / 3600) as nat;
        assert(decimal(k) + "h"@ =~= decimal(k).push('h')) by {
            reveal_strlit("h");
        }
        assert(k * 3600 == secs);
        crate::util::law_duration_units(k, 0, 0);
    } else {
        let k = (secs / 60) as nat;
        assert(decimal(k) + "m"@ =~= decimal(k).push('m')) by {
            reveal_strlit("m");
        }
        assert(k * 60 == secs);
        crate::util::law_duration_units(k, 0, 0);
    }
}

/// Editing an interval reminder of whole minutes without `--every` keeps
/// its interval: the flags rebuilt from it make no error, and the schedule
/// they make is the interval it had.
pub proof fn law_edit_keeps_interval(
    secs: u64,
    at: Option<String>,
    days: Option<String>,
    tz: Seq<char>,
    n: Schedule,
)
    requires
        secs >= 60,
        secs % 60 == 0,
    ensures
        ({
            let o = Schedule::Interval(Interval { seconds: secs });
            let f = edit_flags(None, at, days, o);
            &&& schedule_error(f.0, f.1, f.2, None, tz) is None
            &&& schedule_fits(n, f.0, f.1, f.2, None, None, None, tz) ==> n == o
        }),
{
    law_every_flag_reads_back(secs);
}

/// Ids stay unique: when every id is below the list's next id, the reminder
/// `add_reminder` appends gets an id no other reminder has, and every id
/// stays below the next id.
pub proof fn law_add_keeps_ids_fresh(before: ReminderList, after: ReminderList, id: u64)
    requires
        forall|j: int| 0 <= j < before.reminders@.len() ==> #[trigger] before.reminders@[j].id < before.next_id,
        before.next_id < u64::MAX,
        id == before.next_id,
        after.next_id == before.next_id + 1,
        after.reminders@.drop_last() == before.reminders@,
        after.reminders@.len() == before.reminders@.len() + 1,
        after.reminders@.last().id == id,
    ensures
        forall|j: int| 0 <= j < before.reminders@.len() ==> #[trigger] before.reminders@[j].id != id,
        forall|j: int| 0 <= j < after.reminders@.len() ==> #[trigger] after.reminders@[j].id < after.next_id,
{
    assert forall|j: int| 0 <= j < after.reminders@.len() implies #[trigger] after.reminders@[j].id
        < after.next_id by {
        if j < before.reminders@.len() {
            assert(after.reminders@[j] == after.reminders@.drop_last()[j]);
        }
    }
}

} // verus!
