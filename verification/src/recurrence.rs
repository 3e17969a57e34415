//! Recurrence engine: computes when reminders are due.
//!
//! Design principles:
//! - Pure, clock-free computation (a `now` is passed in) so everything
//!   is deterministic.
//! - Coalescing: if the machine slept for three hours, an hourly
//!   reminder is due *once* at wake, not three times.
//! - Timezone/DST aware: local times are resolved through `chrono-tz`.

use vstd::prelude::*;

use crate::model::{Reminder, RunState};
use crate::text::{char_uppercase, chars_of, push_str, string_of, uppercase_of};
use crate::time::{
    add_seconds_ok, add_seconds_parts, day_of_local, day_start, effective_tz, local_day,
    local_lookup, matches_parts, ts_lt, tz_local_lookup, tz_offset_at, tz_usable, utc_offset_at,
    weekday_of, weekday_of_day, LocalTime, Timestamp, Weekday, EPOCH_DAY_CE, MAX_SECS, MIN_SECS,
    SECS_PER_DAY,
};
use crate::time::{display_text, format_display};
use crate::util::{
    comma_joined, days_value, hhmm_value, humanize_seconds, humanize_time, humanized_seconds,
    humanized_time, join_chars, join_with, parse_day_list, parse_hhmm, parse_rfc3339_loose,
    rfc3339_loose_value,
};

verus! {

broadcast use vstd::std_specs::btree::group_btree_axioms, vstd::laws_cmp::group_laws_cmp;

/// A recurrence definition. Its JSON shapes:
///
/// ```json
/// {"type": "interval", "minutes": 60}
/// {"type": "interval", "seconds": 90}
/// {"type": "daily", "time": "09:00"}
/// {"type": "daily", "time": "18:00", "days": ["mon","wed","fri"]}
/// {"type": "once", "at": "2026-09-22T19:00:00-04:00"}
/// ```
#[derive(Debug, Clone, PartialEq)]
pub enum Schedule {
    Interval(Interval),
    Daily(Daily),
    Once(Once),
}

#[derive(Debug, Clone, PartialEq)]
pub struct Interval {
    /// Interval length in seconds.
    pub seconds: u64,
}

#[derive(Debug, Clone, PartialEq)]
pub struct Daily {
    /// "HH:MM" local time.
    pub time: String,
    /// Weekdays the reminder fires ("mon".."sun"). Empty = every day.
    pub days: Vec<String>,
    /// Inclusive start date "YYYY-MM-DD".
    pub start_date: Option<String>,
    /// Inclusive end date "YYYY-MM-DD".
    pub end_date: Option<String>,
}

#[derive(Debug, Clone, PartialEq)]
pub struct Once {
    /// RFC3339 timestamp.
    pub at: String,
}

impl Schedule {
    pub fn interval(seconds: u64) -> (r: Schedule)
        ensures
            r == Schedule::Interval(Interval { seconds }),
    {
        Schedule::Interval(Interval { seconds })
    }
}

// ------------------------------------------------------------ daily times

/// The earliest instant of a local lookup: the only one, the earlier of two,
/// or none in a gap.
pub open spec fn earliest(l: LocalTime) -> Option<int> {
    match l {
        LocalTime::Single(u) => Some(u as int),
        LocalTime::Ambiguous(a, _) => Some(a as int),
        LocalTime::Gap => None,
    }
}

/// Resolve a naive local datetime in `tz`; on ambiguity (fall-back) pick the
/// earliest occurrence; on gap return None.
fn resolve_local(tz: &str, naive: i64) -> (r: Option<i64>)
    requires
        tz_usable(tz@),
        MIN_SECS <= naive <= MAX_SECS,
    ensures
        match earliest(tz_local_lookup(tz@, naive as int)) {
            Some(u) => r == Some(u as i64) && MIN_SECS <= u <= MAX_SECS,
            None => r is None,
        },
{
    match local_lookup(tz, naive) {
        LocalTime::Single(u) => Some(u),
        LocalTime::Ambiguous(a, _) => Some(a),
        LocalTime::Gap => None,
    }
}

/// The instant a daily reminder at `h:m` fires on day `day` in zone `tz`:
/// the local time resolved to its earliest instant, or, when the local time
/// falls into a DST gap, the local time one hour later.
pub open spec fn daily_candidate(tz: Seq<char>, day: int, h: int, m: int) -> Option<int> {
    let naive = day_start(day) + h * 3600 + m * 60;
    match earliest(tz_local_lookup(tz, naive)) {
        Some(c) => Some(c),
        None => earliest(tz_local_lookup(tz, naive + 3600)),
    }
}

/// The weekdays a daily schedule is limited to (none: every day). Day names
/// that do not parse leave the schedule unlimited.
pub open spec fn daily_days(d: Daily) -> Seq<Weekday> {
    match days_value(comma_joined(d.days@)) {
        Some(ds) => ds,
        None => Seq::empty(),
    }
}

/// A bound date of a daily schedule, when it is given and parses.
pub open spec fn bound_day(s: Option<String>) -> Option<int> {
    match s {
        Some(t) => match crate::time::ymd_day(t@) {
            Some(x) => Some(x as int),
            None => None,
        },
        None => None,
    }
}

/// Day `day` lies within the schedule's dates and weekdays.
pub open spec fn day_allowed(d: Daily, day: int) -> bool {
    &&& (bound_day(d.start_date) matches Some(s) ==> day >= s)
    &&& (bound_day(d.end_date) matches Some(e) ==> day <= e)
    &&& (daily_days(d).len() == 0 || daily_days(d).contains(weekday_of(day)))
}

/// Day `day` yields a firing instant strictly after `after_secs`.
pub open spec fn daily_hit(d: Daily, tz: Seq<char>, h: int, m: int, after_secs: int, day: int) -> bool {
    &&& day_allowed(d, day)
    &&& daily_candidate(tz, day, h, m) matches Some(c)
    &&& c > after_secs
}

/// The local day on which the instant `t` falls in zone `tz`.
pub open spec fn local_day_of(tz: Seq<char>, t: Timestamp) -> int {
    day_of_local(t.spec_secs() + tz_offset_at(tz, t.spec_secs()))
}

/// Searches the days `first + k`, `k` from `k` up to 399, for the first hit.
pub open spec fn daily_search(
    d: Daily,
    tz: Seq<char>,
    h: int,
    m: int,
    after_secs: int,
    first: int,
    k: int,
) -> Option<int>
    decreases 400 - k,
{
    if k >= 400 || k < 0 {
        None
    } else if daily_hit(d, tz, h, m, after_secs, first + k) {
        daily_candidate(tz, first + k, h, m)
    } else {
        daily_search(d, tz, h, m, after_secs, first, k + 1)
    }
}

/// The next firing of a daily schedule strictly after `after`: the first of
/// the 400 local days starting with the day of `after` that is allowed and
/// whose firing instant comes after `after`. A time that does not read as a
/// clock time of the day (hours 0-23) never fires.
pub open spec fn daily_next(d: Daily, tz: Seq<char>, after: Timestamp) -> Option<int> {
    match hhmm_value(d.time@) {
        None => None,
        Some(hm) => if hm.0 >= 24 {
            None
        } else {
            daily_search(d, tz, hm.0, hm.1, after.spec_secs(), local_day_of(tz, after), 0)
        },
    }
}

/// Spells out `daily_search`: the first hit on a day from `first + k` on.
pub proof fn lemma_daily_search(
    d: Daily,
    tz: Seq<char>,
    h: int,
    m: int,
    after_secs: int,
    first: int,
    k: int,
)
    requires
        0 <= k <= 400,
    ensures
        match daily_search(d, tz, h, m, after_secs, first, k) {
            Some(c) => exists|day: int|
                first + k <= day < first + 400 && #[trigger] daily_hit(d, tz, h, m, after_secs, day)
                    && daily_candidate(tz, day, h, m) == Some(c) && c > after_secs && forall|e: int|
                    first + k <= e < day ==> !#[trigger] daily_hit(d, tz, h, m, after_secs, e),
            None => forall|day: int|
                first + k <= day < first + 400 ==> !#[trigger] daily_hit(
                    d,
                    tz,
                    h,
                    m,
                    after_secs,
                    day,
                ),
        },
    decreases 400 - k,
{
    if k < 400 {
        if !daily_hit(d, tz, h, m, after_secs, first + k) {
            lemma_daily_search(d, tz, h, m, after_secs, first, k + 1);
        } else {
            assert(daily_hit(d, tz, h, m, after_secs, first + k));
        }
    }
}

/// Past the end date no later day is allowed, so the search finds nothing.
proof fn lemma_search_past_end(
    d: Daily,
    tz: Seq<char>,
    h: int,
    m: int,
    after_secs: int,
    first: int,
    k: int,
    e: int,
)
    requires
        bound_day(d.end_date) == Some(e),
        first + k > e,
        0 <= k,
    ensures
        daily_search(d, tz, h, m, after_secs, first, k) is None,
    decreases 400 - k,
{
    if k < 400 {
        assert(!day_allowed(d, first + k));
        lemma_search_past_end(d, tz, h, m, after_secs, first, k + 1, e);
    }
}

/// The last day a date can fall on (`NaiveDate::MAX`, +262143-12-31).
pub open spec fn last_day() -> int {
    day_of_local(MAX_SECS as int)
}

/// `last_day()` as a number.
const LAST_DAY: i64 = 95745399;

/// The day-by-day search from day `first + k` on stays among the dates that
/// can be held: it never steps past the last day before it stops (at a
/// firing, or past the end date), and a firing looked for an hour later
/// because of a gap does not run past the last instant.
pub open spec fn daily_in_range(
    d: Daily,
    tz: Seq<char>,
    h: int,
    m: int,
    after_secs: int,
    first: int,
    k: int,
) -> bool
    decreases 400 - k,
{
    if k >= 400 || k < 0 {
        true
    } else {
        let day = first + k;
        if bound_day(d.start_date) matches Some(s) && day < s {
            day < last_day() && daily_in_range(d, tz, h, m, after_secs, first, k + 1)
        } else if bound_day(d.end_date) matches Some(e) && day > e {
            true
        } else if daily_days(d).len() == 0 || daily_days(d).contains(weekday_of(day)) {
            let naive = day_start(day) + h * 3600 + m * 60;
            if earliest(tz_local_lookup(tz, naive)) is None && naive + 3600 > MAX_SECS {
                false
            } else if daily_candidate(tz, day, h, m) matches Some(c) && c > after_secs {
                true
            } else {
                day < last_day() && daily_in_range(d, tz, h, m, after_secs, first, k + 1)
            }
        } else {
            day < last_day() && daily_in_range(d, tz, h, m, after_secs, first, k + 1)
        }
    }
}

/// The inputs a daily schedule's next firing can be computed on: a time
/// that does not read gives no firing at once; otherwise the local clock
/// reading of `after` is a date that can be held, and so is every day the
/// search visits.
pub open spec fn daily_ok(d: Daily, tz: Seq<char>, after: Timestamp) -> bool {
    match hhmm_value(d.time@) {
        None => true,
        Some(hm) => {
            let local = after.spec_secs() + tz_offset_at(tz, after.spec_secs());
            &&& MIN_SECS <= local <= MAX_SECS
            &&& daily_in_range(d, tz, hm.0, hm.1, after.spec_secs(), day_of_local(local), 0)
        },
    }
}

fn parse_bound(s: &Option<String>) -> (r: Option<i32>)
    ensures
        match bound_day(*s) {
            Some(x) => r == Some(x as i32),
            None => r is None,
        },
{
    match s {
        Some(t) => match crate::time::parse_ymd(t.as_str()) {
            Some(x) => Some(x),
            None => None,
        },
        None => None,
    }
}

fn days_contains(days: &Vec<Weekday>, w: Weekday) -> (r: bool)
    ensures
        r == days@.contains(w),
{
    let mut i: usize = 0;
    while i < days.len()
        invariant
            0 <= i <= days.len(),
            forall|j: int| 0 <= j < i ==> days@[j] != w,
        decreases days.len() - i,
    {
        if days[i] == w {
            assert(days@[i as int] == w);
            return true;
        }
        i = i + 1;
    }
    false
}

/// The day-by-day search for the next firing of a daily schedule strictly
/// after `after`, in zone `tz`: `Some` of the firing (or of none) when the
/// search stays among the dates that can be held, `None` when it would leave
/// them.
fn daily_search_checked(d: &Daily, tz: &str, after: Timestamp) -> (r: Option<Option<Timestamp>>)
    requires
        tz_usable(tz@),
    ensures
        r is None <==> !daily_ok(*d, tz@, after),
        r matches Some(o) ==> match daily_next(*d, tz@, after) {
            Some(c) => o matches Some(t) && t.spec_secs() == c && t.spec_nanos() == 0,
            None => o is None,
        },
{
    proof {
        use_type_invariant(&after);
    }
    let (hh, mm) = match parse_hhmm(d.time.as_str()) {
        Some(p) => p,
        None => {
            return Some(None);
        },
    };
    let off = utc_offset_at(tz, after.secs());
    let local = after.secs() + off as i64;
    if local < MIN_SECS || local > MAX_SECS {
        return None;
    }
    assert(daily_next(*d, tz@, after) == daily_search(
        *d,
        tz@,
        hh as int,
        mm as int,
        after.spec_secs(),
        local_day_of(tz@, after),
        0,
    ));
    let days = match parse_day_list(&d.days) {
        Some(v) => v,
        None => Vec::new(),
    };
    assert(days@ == daily_days(*d));
    let start = parse_bound(&d.start_date);
    let end = parse_bound(&d.end_date);
    let first = local_day(local);
    let ghost after_secs = after.spec_secs();
    let ghost h = hh as int;
    let ghost m = mm as int;
    proof {
        crate::time::lemma_day_of_local(local as int);
        crate::time::lemma_day_of_local(MAX_SECS as int);
        crate::time::lemma_day_of_local(MIN_SECS as int);
        assert(day_start(last_day()) == MAX_SECS - SECS_PER_DAY + 1);
        assert(day_start(day_of_local(MIN_SECS as int)) == MIN_SECS);
    }
    let mut date = first;
    let mut k: i64 = 0;
    while k < 400
        invariant
            0 <= k <= 400,
            date == first + k,
            tz_usable(tz@),
            after_secs == after.spec_secs(),
            first == local_day_of(tz@, after),
            first == day_of_local(local as int),
            day_start(first as int) >= MIN_SECS,
            date <= last_day(),
            day_start(last_day()) == MAX_SECS - SECS_PER_DAY + 1,
            h == hh && m == mm && hh <= 23 && mm <= 59,
            hhmm_value(d.time@) == Some((h, m)),
            MIN_SECS <= local <= MAX_SECS,
            local == after_secs + tz_offset_at(tz@, after_secs),
            days@ == daily_days(*d),
            match bound_day(d.start_date) {
                Some(x) => start == Some(x as i32),
                None => start is None,
            },
            match bound_day(d.end_date) {
                Some(x) => end == Some(x as i32),
                None => end is None,
            },
            daily_search(*d, tz@, h, m, after_secs, first as int, k as int) == daily_next(
                *d,
                tz@,
                after,
            ),
            daily_in_range(*d, tz@, h, m, after_secs, first as int, k as int) == daily_ok(
                *d,
                tz@,
                after,
            ),
        decreases 400 - k,
    {
        if let Some(s) = start {
            if date < s as i64 {
                if date >= LAST_DAY {
                    return None;
                }
                date = date + 1;
                k = k + 1;
                continue;
            }
        }
        if let Some(e) = end {
            if date > e as i64 {
                proof {
                    lemma_search_past_end(*d, tz@, h, m, after_secs, first as int, k as int, e as int);
                }
                return Some(None);
            }
        }
        if days.len() == 0 || days_contains(&days, weekday_of_day(date)) {
            let naive = (date - EPOCH_DAY_CE) * SECS_PER_DAY + hh as i64 * 3600 + mm as i64 * 60;
            assert(naive == day_start(date as int) + h * 3600 + m * 60);
            let candidate = match resolve_local(tz, naive) {
                Some(c) => Some(c),
                None => {
                    if naive > MAX_SECS - 3600 {
                        return None;
                    }
                    resolve_local(tz, naive + 3600)
                },
            };
            assert(match daily_candidate(tz@, date as int, h, m) {
                Some(c) => candidate == Some(c as i64),
                None => candidate is None,
            });
            if let Some(c) = candidate {
                if c > after.secs() {
                    assert(day_allowed(*d, date as int));
                    assert(daily_hit(*d, tz@, h, m, after_secs, first + k));
                    assert(daily_search(*d, tz@, h, m, after_secs, first as int, k as int) == Some(
                        c as int,
                    ));
                    return Some(Some(Timestamp::from_valid_parts(c, 0)));
                }
            }
            assert(!daily_hit(*d, tz@, h, m, after_secs, first + k));
        } else {
            assert(!day_allowed(*d, date as int));
        }
        if date >= LAST_DAY {
            return None;
        }
        date = date + 1;
        k = k + 1;
    }
    Some(None)
}

/// The next firing of a daily schedule strictly after `after`, in zone `tz`.
fn next_daily_after(d: &Daily, tz: &str, after: Timestamp) -> (r: Option<Timestamp>)
    requires
        tz_usable(tz@),
        daily_ok(*d, tz@, after),
    ensures
        match daily_next(*d, tz@, after) {
            Some(c) => r matches Some(t) && t.spec_secs() == c && t.spec_nanos() == 0,
            None => r is None,
        },
{
    match daily_search_checked(d, tz, after) {
        Some(o) => o,
        None => None,
    }
}


// -------------------------------------------------------------- due times

/// `n as i64`: the two's-complement reading of the bits of `n`.
pub open spec fn as_signed(n: u64) -> int {
    if n <= i64::MAX {
        n as int
    } else {
        n as int - 0x1_0000_0000_0000_0000int
    }
}

pub(crate) fn signed_of(n: u64) -> (r: i64)
    ensures
        r == as_signed(n),
{
    if n <= 0x7fff_ffff_ffff_ffff {
        n as i64
    } else {
        let low = (n - 0x8000_0000_0000_0000) as i64;
        low - 0x7fff_ffff_ffff_ffff - 1
    }
}

/// `a` comes strictly before `b`, both read as (seconds, nanoseconds).
pub open spec fn parts_lt(a: (int, int), b: (int, int)) -> bool {
    a.0 < b.0 || (a.0 == b.0 && a.1 < b.1)
}

/// `a` comes no later than `b`.
pub open spec fn parts_le(a: (int, int), b: (int, int)) -> bool {
    !parts_lt(b, a)
}

/// The parts of an instant.
pub open spec fn parts_of(t: Timestamp) -> (int, int) {
    (t.spec_secs(), t.spec_nanos())
}

/// The instant a reminder's next due time is measured from: when it last
/// fired, else when it was created. An anchor after `now` (the clock was
/// set back) is replaced by `now`, so a reminder never waits longer than one
/// period.
pub open spec fn anchor_of(r: Reminder, fired: Map<u64, Timestamp>, now: Timestamp) -> Timestamp {
    let a = if fired.contains_key(r.id) {
        fired[r.id]
    } else {
        r.created
    };
    if ts_lt(now, a) {
        now
    } else {
        a
    }
}

/// The next due time of `r` (as parts), strictly after its anchor:
/// - an interval adds its length to the anchor;
/// - a daily schedule takes its next firing after the anchor in the
///   reminder's zone;
/// - a one-time reminder is due at its instant until it has fired or is
///   completed, and never after.
pub open spec fn next_due_value(r: Reminder, fired: Map<u64, Timestamp>, now: Timestamp) -> Option<(int, int)> {
    let anchor = anchor_of(r, fired, now);
    match r.schedule {
        Schedule::Interval(iv) => Some(add_seconds_parts(anchor, as_signed(iv.seconds))),
        Schedule::Daily(d) => match daily_next(d, effective_tz(r.timezone@), anchor) {
            Some(c) => Some((c, 0)),
            None => None,
        },
        Schedule::Once(o) => if fired.contains_key(r.id) || r.completed {
            None
        } else {
            rfc3339_loose_value(o.at@)
        },
    }
}

/// The inputs on which the next due time can be computed: the interval
/// sum stays a valid instant, and the day-by-day search of a daily schedule
/// stays among the dates that can be held.
pub open spec fn next_due_ok(r: Reminder, fired: Map<u64, Timestamp>, now: Timestamp) -> bool {
    match r.schedule {
        Schedule::Interval(iv) => add_seconds_ok(anchor_of(r, fired, now), as_signed(iv.seconds)),
        Schedule::Daily(d) => daily_ok(d, effective_tz(r.timezone@), anchor_of(r, fired, now)),
        Schedule::Once(_) => true,
    }
}

fn anchor(reminder: &Reminder, state: &RunState, now: Timestamp) -> (r: Timestamp)
    ensures
        r == anchor_of(*reminder, state.last_fired@, now),
{
    let mut a = match state.last(reminder.id) {
        Some(t) => t,
        None => reminder.created,
    };
    if now.is_before(&a) {
        a = now;
    }
    a
}

/// Compute the next due time for a reminder, strictly after its anchor
/// (usually `last_fired` or `created`, clamped to `now`).
///
/// Returns `None` for fired one-time reminders or schedules past their
/// `end_date`.
pub fn next_due(reminder: &Reminder, state: &RunState, now: Timestamp) -> (r: Option<Timestamp>)
    requires
        next_due_ok(*reminder, state.last_fired@, now),
    ensures
        matches_parts(r, next_due_value(*reminder, state.last_fired@, now)),
{
    let tz = reminder.tz();
    let a = anchor(reminder, state, now);
    match &reminder.schedule {
        Schedule::Interval(iv) => Some(a.add_seconds(signed_of(iv.seconds))),
        Schedule::Daily(d) => next_daily_after(d, tz.as_str(), a),
        Schedule::Once(o) => {
            if state.last(reminder.id).is_some() || reminder.completed {
                return None;
            }
            parse_rfc3339_loose(o.at.as_str())
        },
    }
}

/// Whether `next_due` may be called on these inputs.
pub fn next_due_computable(reminder: &Reminder, state: &RunState, now: Timestamp) -> (r: bool)
    ensures
        r == next_due_ok(*reminder, state.last_fired@, now),
{
    let a = anchor(reminder, state, now);
    match &reminder.schedule {
        Schedule::Interval(iv) => a.can_add_seconds(signed_of(iv.seconds)),
        Schedule::Daily(d) => {
            let tz = reminder.tz();
            daily_search_checked(d, tz.as_str(), a).is_some()
        },
        Schedule::Once(_) => true,
    }
}

/// `r` is enabled, not completed, and its next due time has come.
pub open spec fn due_at(r: Reminder, fired: Map<u64, Timestamp>, now: Timestamp) -> bool {
    &&& r.enabled
    &&& !r.completed
    &&& next_due_value(r, fired, now) matches Some(p)
    &&& parts_le(p, parts_of(now))
}

/// Is the reminder due right now?
pub fn is_due(reminder: &Reminder, state: &RunState, now: Timestamp) -> (r: bool)
    requires
        reminder.enabled && !reminder.completed ==> next_due_ok(*reminder, state.last_fired@, now),
    ensures
        r == due_at(*reminder, state.last_fired@, now),
{
    if !reminder.enabled || reminder.completed {
        return false;
    }
    match next_due(reminder, state, now) {
        Some(next) => !now.is_before(&next),
        None => false,
    }
}


// ------------------------------------------------------- soonest reminder

/// The next due time of `r` when it is enabled, not completed and strictly
/// in the future of `now`.
pub open spec fn upcoming_at(r: Reminder, fired: Map<u64, Timestamp>, now: Timestamp) -> Option<(int, int)> {
    if r.enabled && !r.completed {
        match next_due_value(r, fired, now) {
            Some(p) => if parts_lt(parts_of(now), p) {
                Some(p)
            } else {
                None
            },
            None => None,
        }
    } else {
        None
    }
}

/// The index of the reminder of `rs` with the soonest upcoming due time;
/// among equally soon ones, the first.
pub open spec fn soonest(rs: Seq<Reminder>, fired: Map<u64, Timestamp>, now: Timestamp) -> Option<int>
    decreases rs.len(),
{
    if rs.len() == 0 {
        None
    } else {
        let prev = soonest(rs.drop_last(), fired, now);
        match upcoming_at(rs.last(), fired, now) {
            None => prev,
            Some(p) => match prev {
                None => Some(rs.len() - 1),
                Some(i) => if parts_lt(p, upcoming_at(rs[i], fired, now)->0) {
                    Some(rs.len() - 1)
                } else {
                    prev
                },
            },
        }
    }
}

/// `soonest` picks an upcoming reminder whose due time no other upcoming
/// reminder beats, and which every earlier upcoming reminder comes strictly
/// after; it picks none only when no reminder is upcoming.
pub proof fn lemma_soonest(rs: Seq<Reminder>, fired: Map<u64, Timestamp>, now: Timestamp)
    ensures
        match soonest(rs, fired, now) {
            Some(i) => {
                &&& 0 <= i < rs.len()
                &&& upcoming_at(rs[i], fired, now) is Some
                &&& forall|j: int|
                    0 <= j < rs.len() && (#[trigger] upcoming_at(rs[j], fired, now)) is Some
                        ==> parts_le(upcoming_at(rs[i], fired, now)->0, upcoming_at(rs[j], fired, now)->0)
                &&& forall|j: int|
                    0 <= j < i && (#[trigger] upcoming_at(rs[j], fired, now)) is Some
                        ==> parts_lt(upcoming_at(rs[i], fired, now)->0, upcoming_at(rs[j], fired, now)->0)
            },
            None => forall|j: int|
                0 <= j < rs.len() ==> (#[trigger] upcoming_at(rs[j], fired, now)) is None,
        },
    decreases rs.len(),
{
    if rs.len() > 0 {
        let pre = rs.drop_last();
        lemma_soonest(pre, fired, now);
        assert forall|j: int| 0 <= j < pre.len() implies pre[j] == rs[j] by {}
        assert(rs.last() == rs[rs.len() - 1]);
    }
}

/// The soonest upcoming due time across enabled reminders (strictly future).
pub fn next_upcoming<'a>(reminders: &'a [Reminder], state: &RunState, now: Timestamp) -> (r: Option<(&'a Reminder, Timestamp)>)
    requires
        forall|j: int|
            0 <= j < reminders@.len() ==> (#[trigger] reminders@[j]).enabled
                && !reminders@[j].completed ==> next_due_ok(reminders@[j], state.last_fired@, now),
    ensures
        match soonest(reminders@, state.last_fired@, now) {
            Some(i) => r matches Some((x, t)) && *x == reminders@[i] && Some(parts_of(t))
                == upcoming_at(reminders@[i], state.last_fired@, now),
            None => r is None,
        },
{
    let mut best: Option<(usize, Timestamp)> = None;
    let mut i: usize = 0;
    while i < reminders.len()
        invariant
            0 <= i <= reminders@.len(),
            forall|j: int|
                0 <= j < reminders@.len() ==> (#[trigger] reminders@[j]).enabled
                    && !reminders@[j].completed ==> next_due_ok(reminders@[j], state.last_fired@, now),
            match soonest(reminders@.subrange(0, i as int), state.last_fired@, now) {
                Some(k) => best matches Some((b, t)) && b == k && 0 <= k < i && Some(parts_of(t))
                    == upcoming_at(reminders@[k], state.last_fired@, now),
                None => best is None,
            },
        decreases reminders@.len() - i,
    {
        let r = &reminders[i];
        let ghost pre = reminders@.subrange(0, i as int);
        let ghost cur = reminders@.subrange(0, i + 1);
        proof {
            assert(cur.drop_last() =~= pre);
            assert(cur.last() == reminders@[i as int]);
            assert forall|j: int| 0 <= j < i implies cur[j] == reminders@[j] by {}
        }
        if r.enabled && !r.completed {
            match next_due(r, state, now) {
                Some(t) => {
                    if now.is_before(&t) {
                        match best {
                            Some((b, bt)) => {
                                if t.is_before(&bt) {
                                    best = Some((i, t));
                                }
                            },
                            None => {
                                best = Some((i, t));
                            },
                        }
                    }
                },
                None => {},
            }
        }
        i = i + 1;
    }
    assert(reminders@.subrange(0, reminders@.len() as int) =~= reminders@);
    match best {
        Some((b, t)) => Some((&reminders[b], t)),
        None => None,
    }
}


// ------------------------------------------------------------- humanizing

/// `s` with its first character upper-cased (`char::to_uppercase`).
pub open spec fn title_cased(s: Seq<char>) -> Seq<char> {
    if s.len() == 0 {
        Seq::empty()
    } else {
        char_uppercase(s[0]) + s.skip(1)
    }
}

/// Upper-cases the first character of `s`: `"mon"` -> `"Mon"`.
pub fn title_case(s: &str) -> (r: String)
    ensures
        r@ == title_cased(s@),
{
    let cs = chars_of(s);
    if cs.len() == 0 {
        return String::new();
    }
    let mut v = chars_of(uppercase_of(cs[0]).as_str());
    let rest = crate::text::slice_chars(&cs, 1, cs.len());
    crate::text::push_seq(&mut v, &rest);
    assert(v@ =~= title_cased(s@));
    string_of(v.as_slice())
}

/// Human-readable schedule text, e.g. "Every 1 hour", "Daily 7:00 PM",
/// "Mon/Wed/Fri 6:00 PM", or a one-time reminder's instant as
/// "Sep 22 2026 11:00 PM" (UTC).
pub open spec fn humanized_schedule(s: Schedule) -> Seq<char> {
    match s {
        Schedule::Interval(iv) => "Every "@ + humanized_seconds(iv.seconds as int),
        Schedule::Daily(d) => {
            let time = match hhmm_value(d.time@) {
                Some(p) => humanized_time(p.0, p.1),
                None => d.time@,
            };
            if d.days.len() == 0 {
                "Daily "@ + time
            } else {
                join_with(d.days@.map_values(|x: String| title_cased(x@)), "/"@) + " "@ + time
            }
        },
        Schedule::Once(o) => match rfc3339_loose_value(o.at@) {
            Some(p) => display_text(p.0, p.1),
            None => o.at@,
        },
    }
}

/// Human-readable schedule text, e.g. "Every 1 hour", "Daily 7:00 PM".
pub fn humanize(schedule: &Schedule) -> (r: String)
    ensures
        r@ == humanized_schedule(*schedule),
{
    match schedule {
        Schedule::Interval(iv) => {
            let mut v: Vec<char> = Vec::new();
            push_str(&mut v, "Every ");
            push_str(&mut v, humanize_seconds(iv.seconds).as_str());
            string_of(v.as_slice())
        },
        Schedule::Daily(d) => {
            let time = match humanize_time(d.time.as_str()) {
                Some(t) => t,
                None => d.time.clone(),
            };
            let mut v: Vec<char> = Vec::new();
            if d.days.len() == 0 {
                push_str(&mut v, "Daily ");
            } else {
                let mut parts: Vec<Vec<char>> = Vec::new();
                let mut i: usize = 0;
                while i < d.days.len()
                    invariant
                        0 <= i <= d.days@.len(),
                        parts@.map_values(|p: Vec<char>| p@) == d.days@.subrange(
                            0,
                            i as int,
                        ).map_values(|x: String| title_cased(x@)),
                    decreases d.days@.len() - i,
                {
                    let ghost before = parts@;
                    parts.push(chars_of(title_case(d.days[i].as_str()).as_str()));
                    proof {
                        assert(parts@.map_values(|p: Vec<char>| p@) =~= before.map_values(
                            |p: Vec<char>| p@,
                        ).push(title_cased(d.days@[i as int]@)));
                        assert(d.days@.subrange(0, i + 1).map_values(|x: String| title_cased(x@))
                            =~= d.days@.subrange(0, i as int).map_values(
                            |x: String| title_cased(x@),
                        ).push(title_cased(d.days@[i as int]@)));
                    }
                    i = i + 1;
                }
                assert(d.days@.subrange(0, d.days@.len() as int) =~= d.days@);
                v = join_chars(&parts, "/");
                push_str(&mut v, " ");
            }
            push_str(&mut v, time.as_str());
            string_of(v.as_slice())
        },
        Schedule::Once(o) => match parse_rfc3339_loose(o.at.as_str()) {
            Some(t) => format_display(&t),
            None => o.at.clone(),
        },
    }
}

// -------------------------------------------------------------- JSON shape

/// How an interval is written in JSON: whole minutes when it is at least a
/// minute and a whole number of them, else seconds.
#[derive(Clone, Copy, Debug, PartialEq, Eq, Structural)]
pub enum IntervalField {
    Minutes(u64),
    Seconds(u64),
}

/// The field an interval of `seconds` is written with
/// (`{"type":"interval","minutes":60}` or `{"type":"interval","seconds":90}`).
pub fn interval_field(seconds: u64) -> (r: IntervalField)
    ensures
        r == (if seconds >= 60 && seconds % 60 == 0 {
            IntervalField::Minutes(seconds / 60)
        } else {
            IntervalField::Seconds(seconds)
        }),
{
    if seconds >= 60 && seconds % 60 == 0 {
        IntervalField::Minutes(seconds / 60)
    } else {
        IntervalField::Seconds(seconds)
    }
}

/// The length in seconds of an interval read from JSON with optional
/// `hours`, `minutes` and `seconds` fields (missing ones count as zero).
pub open spec fn raw_interval_seconds(hours: Option<u64>, minutes: Option<u64>, seconds: Option<u64>) -> int {
    let h: int = match hours { Some(x) => x as int, None => 0 };
    let m: int = match minutes { Some(x) => x as int, None => 0 };
    let s: int = match seconds { Some(x) => x as int, None => 0 };
    h * 3600 + m * 60 + s
}

impl Schedule {
    /// Builds an interval schedule from the `hours` / `minutes` / `seconds`
    /// fields of its JSON form; an interval of zero is refused.
    pub fn from_raw_interval(hours: Option<u64>, minutes: Option<u64>, seconds: Option<u64>) -> (r: Result<Schedule, String>)
        requires
            raw_interval_seconds(hours, minutes, seconds) <= u64::MAX,
        ensures
            raw_interval_seconds(hours, minutes, seconds) == 0 ==> (r matches Err(e) && e@
                == "interval must be > 0"@),
            raw_interval_seconds(hours, minutes, seconds) > 0 ==> r == Ok::<Schedule, String>(
                Schedule::Interval(Interval { seconds: raw_interval_seconds(hours, minutes, seconds) as u64 }),
            ),
    {
        let h: u64 = match hours { Some(x) => x, None => 0 };
        let m: u64 = match minutes { Some(x) => x, None => 0 };
        let s: u64 = match seconds { Some(x) => x, None => 0 };
        proof {
            assert(h * 3600 <= u64::MAX) by (nonlinear_arith)
                requires h * 3600 + m * 60 + s <= u64::MAX, m >= 0, s >= 0;
            assert(m * 60 <= u64::MAX) by (nonlinear_arith)
                requires h * 3600 + m * 60 + s <= u64::MAX, h >= 0, s >= 0;
        }
        let secs = h * 3600 + m * 60 + s;
        if secs == 0 {
            return Err(String::from_str("interval must be > 0"));
        }
        Ok(Schedule::Interval(Interval { seconds: secs }))
    }
}


// -------------------------------------------------------------------- laws

/// A schedule whose next due time can come no later than its anchor: an
/// interval of zero seconds (or one whose length reads as negative).
pub open spec fn never_advances(s: Schedule) -> bool {
    s matches Schedule::Interval(iv) && as_signed(iv.seconds) <= 0
}

/// A daily schedule's next firing comes strictly after the instant it is
/// computed from, on a whole second.
pub proof fn lemma_daily_next_after(d: Daily, tz: Seq<char>, after: Timestamp)
    ensures
        daily_next(d, tz, after) matches Some(c) ==> c > after.spec_secs(),
{
    if let Some(hm) = hhmm_value(d.time@) {
        if hm.0 < 24 {
            lemma_daily_search(d, tz, hm.0, hm.1, after.spec_secs(), local_day_of(tz, after), 0);
        }
    }
}

/// A daily schedule's end date is inclusive: when the end day is one of the
/// schedule's weekdays, is not before its start date, lies within the
/// 400 days searched from the anchor's local day, and its firing instant
/// comes after the anchor while no earlier allowed day's firing does, the
/// next firing is the one on the end day.
pub proof fn law_daily_end_date_inclusive(
    d: Daily,
    tz: Seq<char>,
    after: Timestamp,
    h: int,
    m: int,
    e: int,
    c: int,
)
    requires
        hhmm_value(d.time@) == Some((h, m)),
        h < 24,
        bound_day(d.end_date) == Some(e),
        bound_day(d.start_date) matches Some(s) ==> s <= e,
        daily_days(d).len() == 0 || daily_days(d).contains(weekday_of(e)),
        local_day_of(tz, after) <= e < local_day_of(tz, after) + 400,
        daily_candidate(tz, e, h, m) == Some(c),
        c > after.spec_secs(),
        forall|day: int|
            local_day_of(tz, after) <= day < e && (bound_day(d.start_date) matches Some(s) ==> day
                >= s) && (daily_days(d).len() == 0 || daily_days(d).contains(weekday_of(day)))
                ==> !(#[trigger] daily_candidate(tz, day, h, m) matches Some(x) && x
                > after.spec_secs()),
    ensures
        daily_next(d, tz, after) == Some(c),
{
    let first = local_day_of(tz, after);
    lemma_daily_search(d, tz, h, m, after.spec_secs(), first, 0);
    assert(daily_hit(d, tz, h, m, after.spec_secs(), e));
    match daily_search(d, tz, h, m, after.spec_secs(), first, 0) {
        Some(c0) => {
            let day = choose|day: int|
                first <= day < first + 400 && #[trigger] daily_hit(d, tz, h, m, after.spec_secs(), day)
                    && daily_candidate(tz, day, h, m) == Some(c0) && c0 > after.spec_secs() && forall|
                    x: int,
                | first <= x < day ==> !#[trigger] daily_hit(d, tz, h, m, after.spec_secs(), x);
            if day < e {
                assert(daily_candidate(tz, day, h, m) matches Some(x) && x > after.spec_secs());
            } else if day > e {
                assert(!daily_hit(d, tz, h, m, after.spec_secs(), e));
            }
        },
        None => {
            assert(!daily_hit(d, tz, h, m, after.spec_secs(), e));
        },
    }
}

/// The day a daily schedule may fire on, spelled out: not before its start
/// date, not after its end date (both inclusive), and one of its weekdays
/// when it names any.
pub open spec fn daily_day_ok(d: Daily, day: int) -> bool {
    &&& (bound_day(d.start_date) matches Some(s) ==> s <= day)
    &&& (bound_day(d.end_date) matches Some(e) ==> day <= e)
    &&& (daily_days(d).len() == 0 || daily_days(d).contains(weekday_of(day)))
}

/// The next firing of a daily schedule is the firing on the first day, from
/// the anchor's local day on, that the schedule may fire on and whose firing
/// instant comes after the anchor; when no day among the 400 searched is
/// such a day, there is none.
pub proof fn law_daily_next_is_first_firing(d: Daily, tz: Seq<char>, after: Timestamp, h: int, m: int)
    requires
        hhmm_value(d.time@) == Some((h, m)),
        h < 24,
    ensures
        forall|day: int|
            local_day_of(tz, after) <= day < local_day_of(tz, after) + 400 && daily_day_ok(d, day)
                && (#[trigger] daily_candidate(tz, day, h, m) matches Some(c) && c > after.spec_secs())
                && (forall|x: int|
                local_day_of(tz, after) <= x < day && daily_day_ok(d, x) ==> !(
                daily_candidate(tz, x, h, m) matches Some(y) && y > after.spec_secs()))
                ==> daily_next(d, tz, after) == daily_candidate(tz, day, h, m),
        (forall|x: int|
            local_day_of(tz, after) <= x < local_day_of(tz, after) + 400 && daily_day_ok(d, x)
                ==> !(#[trigger] daily_candidate(tz, x, h, m) matches Some(y) && y
                > after.spec_secs())) ==> daily_next(d, tz, after) is None,
{
    let first = local_day_of(tz, after);
    let a = after.spec_secs();
    lemma_daily_search(d, tz, h, m, a, first, 0);
    assert forall|day: int|
        first <= day < first + 400 && daily_day_ok(d, day) && (#[trigger] daily_candidate(
            tz,
            day,
            h,
            m,
        ) matches Some(c) && c > a) && (forall|x: int|
            first <= x < day && daily_day_ok(d, x) ==> !(daily_candidate(tz, x, h, m) matches Some(
                y,
            ) && y > a)) implies daily_next(d, tz, after) == daily_candidate(tz, day, h, m) by {
        assert(daily_hit(d, tz, h, m, a, day));
        match daily_search(d, tz, h, m, a, first, 0) {
            Some(c0) => {
                let w = choose|w: int|
                    first <= w < first + 400 && #[trigger] daily_hit(d, tz, h, m, a, w)
                        && daily_candidate(tz, w, h, m) == Some(c0) && c0 > a && forall|x: int|
                        first <= x < w ==> !#[trigger] daily_hit(d, tz, h, m, a, x);
                if w < day {
                    assert(daily_day_ok(d, w));
                    assert(daily_candidate(tz, w, h, m) matches Some(y) && y > a);
                } else if w > day {
                    assert(!daily_hit(d, tz, h, m, a, day));
                }
            },
            None => {
                assert(!daily_hit(d, tz, h, m, a, day));
            },
        }
    }
    if forall|x: int|
        first <= x < first + 400 && daily_day_ok(d, x) ==> !(#[trigger] daily_candidate(tz, x, h, m) matches Some(
            y,
        ) && y > a) {
        match daily_search(d, tz, h, m, a, first, 0) {
            Some(c0) => {
                let w = choose|w: int|
                    first <= w < first + 400 && #[trigger] daily_hit(d, tz, h, m, a, w)
                        && daily_candidate(tz, w, h, m) == Some(c0) && c0 > a && forall|x: int|
                        first <= x < w ==> !#[trigger] daily_hit(d, tz, h, m, a, x);
                assert(daily_day_ok(d, w));
                assert(daily_candidate(tz, w, h, m) matches Some(y) && y > a);
            },
            None => {},
        }
    }
}

/// Every next due time lies strictly after the reminder's anchor (unless
/// the schedule never advances).
pub proof fn law_next_due_after_anchor(r: Reminder, fired: Map<u64, Timestamp>, now: Timestamp)
    requires
        !never_advances(r.schedule),
    ensures
        next_due_value(r, fired, now) matches Some(p) ==> r.schedule is Once || parts_lt(
            parts_of(anchor_of(r, fired, now)),
            p,
        ),
{
    let a = anchor_of(r, fired, now);
    match r.schedule {
        Schedule::Daily(d) => {
            lemma_daily_next_after(d, effective_tz(r.timezone@), a);
        },
        _ => {},
    }
}

/// Duplicate prevention: once a reminder has been recorded as fired at
/// `now`, it is not due again at `now` (for every schedule that advances).
pub proof fn law_fired_not_due(r: Reminder, before: Map<u64, Timestamp>, after: Map<u64, Timestamp>, now: Timestamp)
    requires
        after == before.insert(r.id, now),
        !never_advances(r.schedule),
    ensures
        anchor_of(r, after, now) == now,
        !due_at(r, after, now),
{
    law_next_due_after_anchor(r, after, now);
}

/// A one-time reminder that has fired has no next due time and is never
/// due again.
pub proof fn law_once_fires_once(r: Reminder, fired: Map<u64, Timestamp>, now: Timestamp)
    requires
        r.schedule is Once,
        fired.contains_key(r.id),
    ensures
        next_due_value(r, fired, now) is None,
        !due_at(r, fired, now),
{
}

/// A disabled or completed reminder is never due.
pub proof fn law_disabled_never_due(r: Reminder, fired: Map<u64, Timestamp>, now: Timestamp)
    requires
        !r.enabled || r.completed,
    ensures
        !due_at(r, fired, now),
{
}

/// Clock moved backwards: an interval reminder never waits longer than one
/// interval from `now`, whatever its recorded last firing says.
pub proof fn law_interval_waits_at_most_one_period(r: Reminder, fired: Map<u64, Timestamp>, now: Timestamp)
    requires
        r.schedule is Interval,
        as_signed(r.schedule->Interval_0.seconds) >= 0,
    ensures
        next_due_value(r, fired, now) matches Some(p) && p.0 <= now.spec_secs() + as_signed(
            r.schedule->Interval_0.seconds,
        ),
{
}

/// Missed while sleeping: however long ago an interval reminder last
/// fired, it is due now at most once. It is due, and after recording the
/// firing at `now` it is not due again until a full interval later.
pub proof fn law_interval_next_after_fire(r: Reminder, before: Map<u64, Timestamp>, after: Map<u64, Timestamp>, now: Timestamp)
    requires
        after == before.insert(r.id, now),
        r.schedule is Interval,
    ensures
        next_due_value(r, after, now) == Some(add_seconds_parts(now, as_signed(r.schedule->Interval_0.seconds))),
{
}


/// The anchor a due time is measured from never lies after `now`.
pub proof fn law_anchor_not_after_now(r: Reminder, fired: Map<u64, Timestamp>, now: Timestamp)
    ensures
        !ts_lt(now, anchor_of(r, fired, now)),
{
}

/// An eligible interval reminder whose period has elapsed since its anchor
/// is due: after sleeping through several periods it is due (once, by
/// `law_fired_not_due`, until it fires again).
pub proof fn law_overdue_interval_is_due(r: Reminder, fired: Map<u64, Timestamp>, now: Timestamp)
    requires
        r.enabled,
        !r.completed,
        r.schedule is Interval,
        parts_le(
            add_seconds_parts(anchor_of(r, fired, now), as_signed(r.schedule->Interval_0.seconds)),
            parts_of(now),
        ),
    ensures
        due_at(r, fired, now),
{
}

/// Writing an interval in its JSON shape and reading it back gives the same
/// length.
pub proof fn law_interval_json_roundtrip(seconds: u64)
    requires
        seconds > 0,
    ensures
        seconds >= 60 && seconds % 60 == 0 ==> raw_interval_seconds(None, Some((seconds / 60) as u64), None)
            == seconds,
        !(seconds >= 60 && seconds % 60 == 0) ==> raw_interval_seconds(None, None, Some(seconds))
            == seconds,
{
}

} // verus!
