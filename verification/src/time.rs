//! Instants on the UTC time line, calendar days, and the calls into
//! `chrono` / `chrono-tz` that the scheduling rules rest on.
//!
//! Instants follow `chrono::DateTime<Utc>`: whole seconds since the Unix
//! epoch plus a nanosecond part, where a nanosecond part of one billion or
//! more marks a leap second. Calendar days are counted as
//! `Datelike::num_days_from_ce` counts them (January 1 of year 1 is day 1).

use vstd::prelude::*;

use chrono::{Datelike, Offset, TimeZone};

verus! {

/// Smallest number of seconds since the Unix epoch that an instant may hold
/// (January 1 of year -262143, 00:00:00 UTC: `DateTime::<Utc>::MIN_UTC`).
pub const MIN_SECS: i64 = -8334601315200;

/// Largest number of seconds since the Unix epoch that an instant may hold
/// (December 31 of year 262142, 23:59:59 UTC: `DateTime::<Utc>::MAX_UTC`).
pub const MAX_SECS: i64 = 8210266876799;

/// Largest number of whole seconds in a `chrono::TimeDelta`.
pub const MAX_DELTA_SECS: i64 = 9_223_372_036_854_775;

/// `num_days_from_ce` of 1970-01-01.
pub const EPOCH_DAY_CE: i64 = 719163;

pub const SECS_PER_DAY: i64 = 86400;

/// An instant: whole seconds since the Unix epoch plus a nanosecond part.
/// A nanosecond part of one billion or more marks a leap second, which can
/// only follow the 59th second of a minute.
#[derive(Clone, Copy, Debug, PartialEq, Eq, Structural)]
pub struct Timestamp {
    secs: i64,
    nanos: u32,
}

pub open spec fn timestamp_parts_valid(secs: int, nanos: int) -> bool {
    &&& MIN_SECS <= secs <= MAX_SECS
    &&& 0 <= nanos
    &&& (nanos < 1_000_000_000 || (nanos < 2_000_000_000 && secs % 60 == 59))
}

/// `a` comes strictly before `b` (the order of `DateTime`).
pub open spec fn ts_lt(a: Timestamp, b: Timestamp) -> bool {
    ||| a.spec_secs() < b.spec_secs()
    ||| (a.spec_secs() == b.spec_secs() && a.spec_nanos() < b.spec_nanos())
}

/// `a` comes no later than `b`.
pub open spec fn ts_le(a: Timestamp, b: Timestamp) -> bool {
    !ts_lt(b, a)
}

/// The parts of `t + TimeDelta::seconds(n)` as `chrono` computes them: a
/// leap second is left as soon as a whole second is added or removed.
pub open spec fn add_seconds_parts(t: Timestamp, n: int) -> (int, int) {
    if t.spec_nanos() >= 1_000_000_000 {
        if n > 0 {
            (t.spec_secs() + n, t.spec_nanos() - 1_000_000_000)
        } else if n < 0 {
            (t.spec_secs() + 1 + n, t.spec_nanos() - 1_000_000_000)
        } else {
            (t.spec_secs(), t.spec_nanos())
        }
    } else {
        (t.spec_secs() + n, t.spec_nanos())
    }
}

/// `t + TimeDelta::seconds(n)` neither panics in `TimeDelta::seconds` nor
/// leaves the range of instants.
pub open spec fn add_seconds_ok(t: Timestamp, n: int) -> bool {
    &&& -MAX_DELTA_SECS <= n <= MAX_DELTA_SECS
    &&& MIN_SECS <= add_seconds_parts(t, n).0 <= MAX_SECS
}

/// The instant `t` has exactly the parts `p`.
pub open spec fn has_parts(t: Timestamp, p: (int, int)) -> bool {
    t.spec_secs() == p.0 && t.spec_nanos() == p.1
}

/// `o` is the instant with parts `p`, or both are absent.
pub open spec fn matches_parts(o: Option<Timestamp>, p: Option<(int, int)>) -> bool {
    match (o, p) {
        (Some(t), Some(q)) => has_parts(t, q),
        (None, None) => true,
        _ => false,
    }
}

impl Timestamp {
    #[verifier::type_invariant]
    pub open spec fn inv(self) -> bool {
        timestamp_parts_valid(self.spec_secs(), self.spec_nanos())
    }

    pub closed spec fn spec_secs(self) -> int {
        self.secs as int
    }

    pub closed spec fn spec_nanos(self) -> int {
        self.nanos as int
    }

    /// Builds an instant from its parts, refusing parts outside the range.
    pub fn from_parts(secs: i64, nanos: u32) -> (r: Option<Timestamp>)
        ensures
            r is Some <==> timestamp_parts_valid(secs as int, nanos as int),
            r matches Some(t) ==> has_parts(t, (secs as int, nanos as int)),
    {
        if MIN_SECS <= secs && secs <= MAX_SECS && (nanos < 1_000_000_000 || (nanos
            < 2_000_000_000 && (secs % 60 + 60) % 60 == 59)) {
            Some(Timestamp { secs, nanos })
        } else {
            None
        }
    }

    /// Builds an instant from parts known to be valid.
    pub(crate) fn from_valid_parts(secs: i64, nanos: u32) -> (r: Timestamp)
        requires
            timestamp_parts_valid(secs as int, nanos as int),
        ensures
            has_parts(r, (secs as int, nanos as int)),
    {
        Timestamp { secs, nanos }
    }

    /// Whole seconds since the Unix epoch.
    pub fn secs(&self) -> (r: i64)
        ensures
            r == self.spec_secs(),
    {
        self.secs
    }

    /// Nanoseconds past `secs()` (one billion or more during a leap second).
    pub fn nanos(&self) -> (r: u32)
        ensures
            r == self.spec_nanos(),
    {
        self.nanos
    }

    /// Whether `self` comes strictly before `other`.
    pub fn is_before(&self, other: &Timestamp) -> (r: bool)
        ensures
            r == ts_lt(*self, *other),
    {
        self.secs < other.secs || (self.secs == other.secs && self.nanos < other.nanos)
    }

    /// `self + TimeDelta::seconds(n)`.
    pub fn add_seconds(&self, n: i64) -> (r: Timestamp)
        requires
            add_seconds_ok(*self, n as int),
        ensures
            has_parts(r, add_seconds_parts(*self, n as int)),
    {
        proof {
            use_type_invariant(self);
        }
        if self.nanos >= 1_000_000_000 {
            if n > 0 {
                proof {
                    assert((self.secs + n) % 60 == 59 || self.nanos - 1_000_000_000 < 1_000_000_000);
                }
                Timestamp { secs: self.secs + n, nanos: self.nanos - 1_000_000_000 }
            } else if n < 0 {
                Timestamp { secs: self.secs + 1 + n, nanos: self.nanos - 1_000_000_000 }
            } else {
                *self
            }
        } else {
            Timestamp { secs: self.secs + n, nanos: self.nanos }
        }
    }

    /// Whether `add_seconds(n)` may be called.
    pub fn can_add_seconds(&self, n: i64) -> (r: bool)
        ensures
            r == add_seconds_ok(*self, n as int),
    {
        proof {
            use_type_invariant(self);
        }
        if n < -MAX_DELTA_SECS || n > MAX_DELTA_SECS {
            return false;
        }
        let base: i128 = if self.nanos >= 1_000_000_000 && n < 0 {
            self.secs as i128 + 1
        } else if self.nanos >= 1_000_000_000 && n == 0 {
            self.secs as i128
        } else {
            self.secs as i128 + n as i128
        };
        let s = if self.nanos >= 1_000_000_000 && n < 0 {
            base + n as i128
        } else {
            base
        };
        MIN_SECS as i128 <= s && s <= MAX_SECS as i128
    }
}

// ------------------------------------------------------------------- days

/// Day of the week, Monday first (the order of `chrono::Weekday`).
#[derive(Clone, Copy, Debug, PartialEq, Eq, Structural)]
pub enum Weekday {
    Mon,
    Tue,
    Wed,
    Thu,
    Fri,
    Sat,
    Sun,
}

/// `Weekday::num_days_from_monday`.
pub open spec fn weekday_index(w: Weekday) -> int {
    match w {
        Weekday::Mon => 0,
        Weekday::Tue => 1,
        Weekday::Wed => 2,
        Weekday::Thu => 3,
        Weekday::Fri => 4,
        Weekday::Sat => 5,
        Weekday::Sun => 6,
    }
}

/// The weekday of the day numbered `day_ce` (day 1, 0001-01-01, was a Monday).
pub open spec fn weekday_of(day_ce: int) -> Weekday {
    let i = (day_ce - 1) % 7;
    if i == 0 {
        Weekday::Mon
    } else if i == 1 {
        Weekday::Tue
    } else if i == 2 {
        Weekday::Wed
    } else if i == 3 {
        Weekday::Thu
    } else if i == 4 {
        Weekday::Fri
    } else if i == 5 {
        Weekday::Sat
    } else {
        Weekday::Sun
    }
}

/// Weekdays follow one another day by day, and the first day of the Unix
/// epoch, 1970-01-01, was a Thursday.
pub proof fn law_weekday_sequence(day: int)
    ensures
        weekday_of(EPOCH_DAY_CE as int) == Weekday::Thu,
        weekday_index(weekday_of(day + 1)) == (weekday_index(weekday_of(day)) + 1) % 7,
        weekday_of(day + 7) == weekday_of(day),
{
    assert((EPOCH_DAY_CE as int - 1) % 7 == 3);
    assert((day + 1 - 1) % 7 == ((day - 1) % 7 + 1) % 7);
    assert((day + 7 - 1) % 7 == (day - 1) % 7);
}

/// `NaiveDate::weekday` on a day number.
pub fn weekday_of_day(day_ce: i64) -> (w: Weekday)
    requires
        -1_000_000_000 <= day_ce <= 1_000_000_000,
    ensures
        w == weekday_of(day_ce as int),
{
    let i = ((day_ce - 1) % 7 + 7) % 7;
    assert(i == (day_ce - 1) % 7);
    if i == 0 {
        Weekday::Mon
    } else if i == 1 {
        Weekday::Tue
    } else if i == 2 {
        Weekday::Wed
    } else if i == 3 {
        Weekday::Thu
    } else if i == 4 {
        Weekday::Fri
    } else if i == 5 {
        Weekday::Sat
    } else {
        Weekday::Sun
    }
}

/// Seconds since the epoch of midnight starting the day `day_ce`, read on a
/// clock that ignores offsets.
pub open spec fn day_start(day_ce: int) -> int {
    (day_ce - EPOCH_DAY_CE) * SECS_PER_DAY
}

/// The day number on which the local clock reading `local_secs` falls.
pub open spec fn day_of_local(local_secs: int) -> int {
    local_secs / (SECS_PER_DAY as int) + EPOCH_DAY_CE
}

/// The day on which a local clock reading falls starts at or before it and
/// ends after it.
pub proof fn lemma_day_of_local(x: int)
    ensures
        day_start(day_of_local(x)) <= x < day_start(day_of_local(x)) + SECS_PER_DAY,
{
    vstd::arithmetic::div_mod::lemma_fundamental_div_mod(x, 86400);
    vstd::arithmetic::div_mod::lemma_mod_bound(x, 86400);
    assert(day_start(day_of_local(x)) == 86400 * (x / 86400));
}

/// `floor(local_secs / 86400) + EPOCH_DAY_CE`, computed without overflow.
pub fn local_day(local_secs: i64) -> (d: i64)
    requires
        MIN_SECS - SECS_PER_DAY <= local_secs <= MAX_SECS + SECS_PER_DAY,
    ensures
        d == day_of_local(local_secs as int),
{
    let q = local_secs / SECS_PER_DAY;
    let r = local_secs % SECS_PER_DAY;
    let fl = if r < 0 {
        q - 1
    } else {
        q
    };
    proof {
        assert(fl == (local_secs as int) / 86400int) by (nonlinear_arith)
            requires
                q * 86400 + r == local_secs,
                -86400 < r < 86400,
                r < 0 ==> local_secs < 0,
                r > 0 ==> local_secs > 0,
                fl == (if r < 0 { q - 1 } else { q as int }),
        {
        }
    }
    fl + EPOCH_DAY_CE
}

// ------------------------------------------------------------ time zones

/// `"UTC"`, the zone used when a reminder's own zone is unknown.
pub open spec fn utc_name() -> Seq<char> {
    seq!['U', 'T', 'C']
}

/// `chrono_tz` knows the IANA zone `name` (`name.parse::<Tz>()` succeeds).
pub uninterp spec fn tz_known(name: Seq<char>) -> bool;

/// A zone name the offset lookups accept: a known zone, or `"UTC"`.
pub open spec fn tz_usable(name: Seq<char>) -> bool {
    tz_known(name) || name == utc_name()
}

/// The zone a reminder's schedule is read in: its own when known, else UTC.
pub open spec fn effective_tz(name: Seq<char>) -> Seq<char> {
    if tz_known(name) {
        name
    } else {
        utc_name()
    }
}

/// Calls `<chrono_tz::Tz as FromStr>::from_str`; claims only that the answer
/// is the named fact `tz_known` about `name`.
#[verifier::external_body]
pub(crate) fn timezone_known(name: &str) -> (b: bool)
    ensures
        b == tz_known(name@),
{
    name.parse::<chrono_tz::Tz>().is_ok()
}

/// The literal `"UTC"` as a string.
pub fn utc_string() -> (s: String)
    ensures
        s@ == utc_name(),
{
    let mut v: Vec<char> = Vec::new();
    v.push('U');
    v.push('T');
    v.push('C');
    crate::text::string_of(v.as_slice())
}

/// The zone a name stands for: the name itself when `chrono_tz` knows it,
/// else UTC.
pub fn zone_or_utc(name: &str) -> (r: String)
    ensures
        r@ == effective_tz(name@),
        tz_usable(r@),
{
    if timezone_known(name) {
        name.to_owned()
    } else {
        utc_string()
    }
}

/// The offset (local minus UTC, in seconds) in force in zone `name` at the
/// UTC instant `utc_secs`, as `chrono_tz` computes it.
pub uninterp spec fn tz_offset_at(name: Seq<char>, utc_secs: int) -> int;

/// Calls `TimeZone::offset_from_utc_datetime` of `chrono_tz::Tz` (zone
/// parsed from `name`; `"UTC"` always parses) and reads
/// `Offset::fix().local_minus_utc()`. Claims that the result is the named
/// offset and, as `chrono::FixedOffset` guarantees, lies strictly within
/// one day.
#[verifier::external_body]
pub(crate) fn utc_offset_at(name: &str, utc_secs: i64) -> (off: i32)
    requires
        tz_usable(name@),
        MIN_SECS <= utc_secs <= MAX_SECS,
    ensures
        off == tz_offset_at(name@, utc_secs as int),
        -SECS_PER_DAY < off < SECS_PER_DAY,
{
    let tz: chrono_tz::Tz = name.parse().unwrap();
    let utc = chrono::DateTime::from_timestamp(utc_secs, 0).unwrap().naive_utc();
    tz.offset_from_utc_datetime(&utc).fix().local_minus_utc()
}

/// The UTC instants (whole seconds) that a local clock reading maps to.
#[derive(Clone, Copy, Debug, PartialEq, Eq, Structural)]
pub enum LocalTime {
    /// The reading falls into a gap (clocks jumped over it).
    Gap,
    /// Exactly one instant.
    Single(i64),
    /// Two instants (clocks were turned back); earliest first.
    Ambiguous(i64, i64),
}

/// What `TimeZone::from_local_datetime` of `chrono_tz` gives for the local
/// reading `local_secs` in zone `name`, as UTC seconds.
pub uninterp spec fn tz_local_lookup(name: Seq<char>, local_secs: int) -> LocalTime;

/// Calls `TimeZone::from_local_datetime` of `chrono_tz::Tz` (zone parsed from
/// `name`) on the naive date-time `local_secs` seconds after 1970-01-01
/// 00:00, and keeps the UTC seconds of each instant. Claims that the result
/// is the named lookup and that every instant it returns is a valid
/// `DateTime`, as all `chrono` values are.
#[verifier::external_body]
pub(crate) fn local_lookup(name: &str, local_secs: i64) -> (r: LocalTime)
    requires
        tz_usable(name@),
        MIN_SECS <= local_secs <= MAX_SECS,
    ensures
        r == tz_local_lookup(name@, local_secs as int),
        r matches LocalTime::Single(u) ==> MIN_SECS <= u <= MAX_SECS,
        r matches LocalTime::Ambiguous(a, b) ==> MIN_SECS <= a <= MAX_SECS && MIN_SECS <= b
            <= MAX_SECS,
{
    let tz: chrono_tz::Tz = name.parse().unwrap();
    let naive = chrono::DateTime::from_timestamp(local_secs, 0).unwrap().naive_utc();
    match tz.from_local_datetime(&naive) {
        chrono::LocalResult::Single(d) => LocalTime::Single(d.timestamp()),
        chrono::LocalResult::Ambiguous(a, b) => LocalTime::Ambiguous(a.timestamp(), b.timestamp()),
        chrono::LocalResult::None => LocalTime::Gap,
    }
}

// ----------------------------------------------------------- text forms

/// The parts (UTC seconds, nanoseconds) of what
/// `DateTime::parse_from_rfc3339` reads from `s`, if it accepts `s`.
pub uninterp spec fn rfc3339_instant(s: Seq<char>) -> Option<(i64, u32)>;

/// Calls `DateTime::parse_from_rfc3339` and keeps `timestamp()` and
/// `timestamp_subsec_nanos()` of the result. Claims that the result is the
/// named parse and, as for every `chrono::DateTime`, that its parts are
/// valid instant parts.
#[verifier::external_body]
pub(crate) fn parse_rfc3339(s: &str) -> (r: Option<(i64, u32)>)
    ensures
        r == rfc3339_instant(s@),
        r matches Some(p) ==> timestamp_parts_valid(p.0 as int, p.1 as int),
{
    match chrono::DateTime::parse_from_rfc3339(s) {
        Ok(d) => Some((d.timestamp(), d.timestamp_subsec_nanos())),
        Err(_) => None,
    }
}

/// The day number (`num_days_from_ce`) that
/// `NaiveDate::parse_from_str(s, "%Y-%m-%d")` reads from `s`, if any.
pub uninterp spec fn ymd_day(s: Seq<char>) -> Option<i32>;

/// Calls `NaiveDate::parse_from_str(s, "%Y-%m-%d")` and keeps
/// `num_days_from_ce()` of the result. Claims that the result is the named
/// parse and, as for every `NaiveDate`, that the whole day lies in the range
/// of instants.
#[verifier::external_body]
pub(crate) fn parse_ymd(s: &str) -> (r: Option<i32>)
    ensures
        r == ymd_day(s@),
        r matches Some(d) ==> MIN_SECS <= day_start(d as int) && day_start(d as int)
            + SECS_PER_DAY - 1 <= MAX_SECS,
{
    match chrono::NaiveDate::parse_from_str(s, "%Y-%m-%d") {
        Ok(d) => Some(d.num_days_from_ce()),
        Err(_) => None,
    }
}

/// The text `DateTime::<Utc>::format("%b %d %Y %I:%M %p")` gives for the
/// instant with the given parts.
pub uninterp spec fn display_text(secs: int, nanos: int) -> Seq<char>;

/// Calls `DateTime::<Utc>::format("%b %d %Y %I:%M %p")` on `t`; claims that
/// the text is the named one.
#[verifier::external_body]
pub(crate) fn format_display(t: &Timestamp) -> (s: String)
    ensures
        s@ == display_text(t.spec_secs(), t.spec_nanos()),
{
    chrono::DateTime::from_timestamp(t.secs, t.nanos).unwrap().format("%b %d %Y %I:%M %p").to_string()
}

/// The text `DateTime::<Utc>::to_rfc3339` gives for the instant with the
/// given parts.
pub uninterp spec fn rfc3339_text(secs: int, nanos: int) -> Seq<char>;

/// Calls `DateTime::<Utc>::to_rfc3339` on `t`; claims that the text is the
/// named one.
#[verifier::external_body]
pub(crate) fn format_rfc3339(t: &Timestamp) -> (s: String)
    ensures
        s@ == rfc3339_text(t.spec_secs(), t.spec_nanos()),
{
    chrono::DateTime::from_timestamp(t.secs, t.nanos).unwrap().to_rfc3339()
}

} // verus!
