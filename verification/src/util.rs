//! Parsing and formatting helpers shared by the CLI, the daemon and tests.

use vstd::prelude::*;

use crate::text::{
    ascii_lower_char, all_ascii_digits, all_digits, ascii_digit, ascii_lower, ascii_lower_chars, chars_of, decimal,
    digits_upto, digits_value, is_ascii_digit, parse_u64, parse_unsigned, parse_unsigned_range,
    is_text, is_white_space, push_decimal, push_two_digits, slice_chars, string_of, trim, trim_chars,
    two_digits,
};
use crate::time::{
    day_start, local_lookup, matches_parts, parse_rfc3339, parse_ymd, rfc3339_instant,
    tz_local_lookup, ymd_day, zone_or_utc, effective_tz, LocalTime, Timestamp, Weekday,
    EPOCH_DAY_CE, MAX_SECS, MIN_SECS, SECS_PER_DAY,
};

verus! {

// ------------------------------------------------------------- splitting

/// Index of the first `c` in `s`, if any.
pub open spec fn find_char(s: Seq<char>, c: char) -> Option<int>
    decreases s.len(),
{
    if s.len() == 0 {
        None
    } else if s[0] == c {
        Some(0)
    } else {
        match find_char(s.drop_first(), c) {
            Some(i) => Some(i + 1),
            None => None,
        }
    }
}

pub proof fn lemma_find_char(s: Seq<char>, c: char)
    ensures
        match find_char(s, c) {
            Some(i) => 0 <= i < s.len() && s[i] == c && forall|j: int| 0 <= j < i ==> s[j] != c,
            None => forall|j: int| 0 <= j < s.len() ==> s[j] != c,
        },
    decreases s.len(),
{
    if s.len() > 0 && s[0] != c {
        lemma_find_char(s.drop_first(), c);
        match find_char(s.drop_first(), c) {
            Some(i) => {
                assert forall|j: int| 0 <= j < i + 1 implies s[j] != c by {
                    if j > 0 {
                        assert(s[j] == s.drop_first()[j - 1]);
                    }
                }
            },
            None => {
                assert forall|j: int| 0 <= j < s.len() implies s[j] != c by {
                    if j > 0 {
                        assert(s[j] == s.drop_first()[j - 1]);
                    }
                }
            },
        }
    }
}

/// `str::split_once(c)`: the text before the first `c` and, if there is one,
/// the text after it.
pub open spec fn split_once(s: Seq<char>, c: char) -> (Seq<char>, Option<Seq<char>>) {
    match find_char(s, c) {
        Some(i) => (s.subrange(0, i), Some(s.subrange(i + 1, s.len() as int))),
        None => (s, None),
    }
}

/// `str::split(c)`: the pieces between the occurrences of `c`.
pub open spec fn split_all(s: Seq<char>, c: char) -> Seq<Seq<char>>
    decreases s.len(),
{
    match find_char(s, c) {
        Some(i) => {
            if 0 <= i < s.len() {
                seq![s.subrange(0, i)] + split_all(s.subrange(i + 1, s.len() as int), c)
            } else {
                seq![s]
            }
        },
        None => seq![s],
    }
}

/// Finds the first `c` in `s[from..]`.
pub fn find_from(s: &Vec<char>, from: usize, c: char) -> (r: Option<usize>)
    requires
        from <= s.len(),
    ensures
        match find_char(s@.subrange(from as int, s.len() as int), c) {
            Some(i) => r == Some((from + i) as usize),
            None => r is None,
        },
        r matches Some(k) ==> from <= k < s.len() && s@[k as int] == c,
{
    let ghost t = s@.subrange(from as int, s.len() as int);
    proof {
        lemma_find_char(t, c);
    }
    let mut i = from;
    while i < s.len()
        invariant
            from <= i <= s.len(),
            t == s@.subrange(from as int, s.len() as int),
            forall|j: int| from <= j < i ==> s@[j] != c,
            match find_char(t, c) {
                Some(k) => 0 <= k < t.len() && t[k] == c && forall|j: int|
                    0 <= j < k ==> t[j] != c,
                None => forall|j: int| 0 <= j < t.len() ==> t[j] != c,
            },
        decreases s.len() - i,
    {
        if s[i] == c {
            proof {
                assert(t[i - from] == s@[i as int]);
                match find_char(t, c) {
                    Some(k) => {
                        if k < i - from {
                            assert(t[k] == s@[from + k]);
                        }
                    },
                    None => {},
                }
            }
            return Some(i);
        }
        i = i + 1;
    }
    proof {
        match find_char(t, c) {
            Some(k) => {
                assert(t[k] == s@[from + k]);
            },
            None => {},
        }
    }
    None
}

/// `str::split_once(c)` on a character vector.
pub fn split_once_chars(s: &Vec<char>, c: char) -> (r: (Vec<char>, Option<Vec<char>>))
    ensures
        r.0@ == split_once(s@, c).0,
        match split_once(s@, c).1 {
            Some(t) => r.1 matches Some(v) && v@ == t,
            None => r.1 is None,
        },
{
    assert(s@.subrange(0, s.len() as int) =~= s@);
    let f = find_from(s, 0, c);
    proof {
        lemma_find_char(s@, c);
    }
    assert(find_char(s@.subrange(0, s.len() as int), c) == find_char(s@, c));
    match f {
        Some(i) => {
            let a = slice_chars(s, 0, i);
            let b = slice_chars(s, i + 1, s.len());
            assert(find_char(s@, c) == Some(i as int));
            (a, Some(b))
        },
        None => {
            let a = slice_chars(s, 0, s.len());
            assert(find_char(s@, c) is None);
            (a, None)
        },
    }
}

/// `str::split(c)` on a character vector.
pub fn split_all_chars(s: &Vec<char>, c: char) -> (r: Vec<Vec<char>>)
    ensures
        r@.len() == split_all(s@, c).len(),
        forall|k: int| 0 <= k < r@.len() ==> (#[trigger] r@[k])@ == split_all(s@, c)[k],
{
    let mut out: Vec<Vec<char>> = Vec::new();
    let mut start: usize = 0;
    assert(s@.subrange(0, s.len() as int) =~= s@);
    assert(out@.map_values(|v: Vec<char>| v@) =~= Seq::<Seq<char>>::empty());
    loop
        invariant
            start <= s.len(),
            split_all(s@, c) == out@.map_values(|v: Vec<char>| v@) + split_all(
                s@.subrange(start as int, s.len() as int),
                c,
            ),
        decreases s.len() - start,
    {
        let ghost rest = s@.subrange(start as int, s.len() as int);
        proof {
            lemma_find_char(rest, c);
        }
        match find_from(s, start, c) {
            Some(i) => {
                let piece = slice_chars(s, start, i);
                proof {
                    assert(rest.subrange(0, i - start) =~= piece@);
                    assert(rest.subrange(i - start + 1, rest.len() as int) =~= s@.subrange(
                        i + 1,
                        s.len() as int,
                    ));
                    assert(out@.push(piece).map_values(|v: Vec<char>| v@) =~= out@.map_values(
                        |v: Vec<char>| v@,
                    ).push(piece@));
                    assert(split_all(rest, c) == seq![piece@] + split_all(
                        s@.subrange(i + 1, s.len() as int),
                        c,
                    ));
                }
                out.push(piece);
                start = i + 1;
            },
            None => {
                let piece = slice_chars(s, start, s.len());
                proof {
                    assert(split_all(rest, c) == seq![rest]);
                    assert(out@.push(piece).map_values(|v: Vec<char>| v@) =~= out@.map_values(
                        |v: Vec<char>| v@,
                    ).push(piece@));
                }
                out.push(piece);
                proof {
                    assert(split_all(s@, c) =~= out@.map_values(|v: Vec<char>| v@));
                }
                return out;
            },
        }
    }
}

// -------------------------------------------------------------- durations

/// The outcome of reading `<digits><unit>` groups.
pub enum DurationScan {
    /// The text is not a duration.
    Reject,
    /// The running total left the range of `u64` before the text was
    /// rejected (adding up the groups in `u64` arithmetic overflows).
    Overflow,
    /// The total number of seconds.
    Total(int),
}

/// Seconds per unit letter: `h`, `m` and `s`; zero for anything else.
pub open spec fn unit_seconds(c: char) -> int {
    if c == 'h' {
        3600
    } else if c == 'm' {
        60
    } else if c == 's' {
        1
    } else {
        0
    }
}

/// Reads `t[i..]`, where the current number started at `start`, with
/// `total` seconds read so far.
pub open spec fn scan_duration(t: Seq<char>, i: int, start: int, total: int) -> DurationScan
    decreases t.len() - i,
{
    if i < 0 || start < 0 || start > i || i >= t.len() {
        if 0 <= start < t.len() {
            DurationScan::Reject
        } else {
            DurationScan::Total(total)
        }
    } else if is_ascii_digit(t[i]) {
        scan_duration(t, i + 1, start, total)
    } else {
        let num = t.subrange(start, i);
        if num.len() == 0 || digits_value(num) > u64::MAX || unit_seconds(t[i]) == 0 {
            DurationScan::Reject
        } else if total + digits_value(num) * unit_seconds(t[i]) > u64::MAX {
            DurationScan::Overflow
        } else {
            scan_duration(t, i + 1, i + 1, total + digits_value(num) * unit_seconds(t[i]))
        }
    }
}

/// The duration text after trimming and lower-casing.
pub open spec fn duration_text(s: Seq<char>) -> Seq<char> {
    ascii_lower(trim(s))
}

/// Reading `s` as a unit-suffixed duration would overflow `u64`.
pub open spec fn duration_overflows(s: Seq<char>) -> bool {
    let t = duration_text(s);
    t.len() > 0 && !all_digits(t) && scan_duration(t, 0, 0, 0) is Overflow
}

/// The duration in seconds that `s` denotes: a bare number of minutes, or
/// `<digits><unit>` groups with units `h`, `m`, `s`; never zero.
pub open spec fn duration_value(s: Seq<char>) -> Option<int> {
    let t = duration_text(s);
    if t.len() == 0 {
        None
    } else if all_digits(t) {
        match parse_unsigned(t, u64::MAX as int) {
            Some(m) => if 0 < m * 60 <= u64::MAX {
                Some(m * 60)
            } else {
                None
            },
            None => None,
        }
    } else {
        match scan_duration(t, 0, 0, 0) {
            DurationScan::Total(x) => if x > 0 {
                Some(x)
            } else {
                None
            },
            _ => None,
        }
    }
}

/// Reading over digits only moves the position forward.
proof fn lemma_scan_over_digits(t: Seq<char>, i: int, j: int, start: int, total: int)
    requires
        0 <= start <= i <= j < t.len(),
        forall|k: int| i <= k < j ==> is_ascii_digit(#[trigger] t[k]),
    ensures
        scan_duration(t, i, start, total) == scan_duration(t, j, start, total),
    decreases j - i,
{
    if i < j {
        assert(is_ascii_digit(t[i]));
        lemma_scan_over_digits(t, i + 1, j, start, total);
    }
}

proof fn lemma_single_unit_duration(n: nat, unit: char)
    requires
        unit == 'h' || unit == 'm' || unit == 's',
        0 < n * unit_seconds(unit) <= u64::MAX,
    ensures
        duration_value(decimal(n).push(unit)) == Some(n * unit_seconds(unit)),
{
    crate::text::lemma_decimal_reads_back(n);
    let d = decimal(n);
    let t = d.push(unit);
    assert(t.drop_last() =~= d);
    assert(!is_white_space(t[0]));
    assert(!is_white_space(t.last()));
    assert(crate::text::lead_ws(t) == 0);
    assert(crate::text::trail_ws(t) == 0);
    assert(t.subrange(0, t.len() as int) =~= t);
    assert(trim(t) == t);
    assert forall|k: int| 0 <= k < t.len() implies ascii_lower(t)[k] == t[k] by {
        if k < d.len() {
            assert(t[k] == d[k]);
            assert(is_ascii_digit(d[k]));
        }
    }
    assert(ascii_lower(t) =~= t);
    assert(duration_text(t) == t);
    assert(!is_ascii_digit(t[d.len() as int]));
    assert(!all_digits(t));
    assert forall|k: int| 0 <= k < d.len() implies is_ascii_digit(#[trigger] t[k]) by {
        assert(t[k] == d[k]);
    }
    lemma_scan_over_digits(t, 0, d.len() as int, 0, 0);
    assert(t.subrange(0, d.len() as int) =~= d);
    assert(digits_value(d) <= u64::MAX) by (nonlinear_arith)
        requires
            digits_value(d) == n,
            n * unit_seconds(unit) <= u64::MAX,
            unit_seconds(unit) >= 1,
    ;
    let len = d.len() as int;
    assert(t[len] == unit);
    assert(unit_seconds(t[len]) != 0);
    assert(scan_duration(t, len, 0, 0) == scan_duration(t, len + 1, len + 1, n * unit_seconds(unit)));
    assert(scan_duration(t, len + 1, len + 1, n * unit_seconds(unit)) == DurationScan::Total(
        n * unit_seconds(unit),
    ));
}

proof fn lemma_duration_text_plain(t: Seq<char>)
    requires
        t.len() > 0,
        forall|k: int| 0 <= k < t.len() ==> is_ascii_digit(#[trigger] t[k]) || t[k] == 'h' || t[k]
            == 'm' || t[k] == 's',
    ensures
        duration_text(t) == t,
{
    assert(!is_white_space(t[0]));
    assert(!is_white_space(t.last()));
    assert(crate::text::lead_ws(t) == 0);
    assert(crate::text::trail_ws(t) == 0);
    assert(t.subrange(0, t.len() as int) =~= t);
    assert forall|k: int| 0 <= k < t.len() implies ascii_lower(t)[k] == t[k] by {
        assert(is_ascii_digit(t[k]) || t[k] == 'h' || t[k] == 'm' || t[k] == 's');
    }
    assert(ascii_lower(t) =~= t);
}

proof fn lemma_hours_minutes_duration(a: nat, b: nat)
    requires
        0 < a * 3600 + b * 60 <= u64::MAX,
    ensures
        duration_value(decimal(a).push('h') + decimal(b).push('m')) == Some(
            (a * 3600 + b * 60) as int,
        ),
{
    crate::text::lemma_decimal_reads_back(a);
    crate::text::lemma_decimal_reads_back(b);
    let da = decimal(a);
    let db = decimal(b);
    let t = da.push('h') + db.push('m');
    let la = da.len() as int;
    let lb = db.len() as int;
    assert(t.len() == la + lb + 2);
    assert forall|k: int| 0 <= k < t.len() implies is_ascii_digit(#[trigger] t[k]) || t[k] == 'h'
        || t[k] == 'm' || t[k] == 's' by {
        if k < la {
            assert(t[k] == da[k]);
        } else if la < k < la + 1 + lb {
            assert(t[k] == db[k - la - 1]);
        }
    }
    lemma_duration_text_plain(t);
    assert(t[la] == 'h');
    assert(!all_digits(t));
    assert forall|k: int| 0 <= k < la implies is_ascii_digit(#[trigger] t[k]) by {
        assert(t[k] == da[k]);
    }
    lemma_scan_over_digits(t, 0, la, 0, 0);
    assert(t.subrange(0, la) =~= da);
    assert(a * 3600 <= u64::MAX && b * 60 <= u64::MAX) by (nonlinear_arith)
        requires
            0 < a * 3600 + b * 60 <= u64::MAX,
    ;
    let ta: int = (a * 3600) as int;
    let tb: int = (a * 3600 + b * 60) as int;
    assert(scan_duration(t, la, 0, 0) == scan_duration(t, la + 1, la + 1, ta));
    assert forall|k: int| la + 1 <= k < la + 1 + lb implies is_ascii_digit(#[trigger] t[k]) by {
        assert(t[k] == db[k - la - 1]);
    }
    lemma_scan_over_digits(t, la + 1, la + 1 + lb, la + 1, ta);
    assert(t.subrange(la + 1, la + 1 + lb) =~= db);
    assert(t[la + 1 + lb] == 'm');
    assert(scan_duration(t, la + 1 + lb, la + 1, ta) == scan_duration(t, la + 2 + lb, la + 2 + lb, tb));
}

/// The duration units: `<n>h` is `n` hours, `<n>m` is `n` minutes, `<n>s` is
/// `n` seconds and a bare number is minutes; `<a>h<b>m` adds the hours and
/// the minutes. Each holds when the total is not zero and fits in `u64`.
pub proof fn law_duration_units(n: nat, a: nat, b: nat)
    ensures
        0 < n && n * 3600 <= u64::MAX ==> duration_value(decimal(n).push('h')) == Some((n * 3600) as int),
        0 < n && n * 60 <= u64::MAX ==> duration_value(decimal(n).push('m')) == Some((n * 60) as int),
        0 < n && n <= u64::MAX ==> duration_value(decimal(n).push('s')) == Some(n as int),
        0 < n && n * 60 <= u64::MAX ==> duration_value(decimal(n)) == Some((n * 60) as int),
        0 < a * 3600 + b * 60 <= u64::MAX ==> duration_value(
            decimal(a).push('h') + decimal(b).push('m'),
        ) == Some((a * 3600 + b * 60) as int),
{
    if 0 < n && n * 3600 <= u64::MAX {
        lemma_single_unit_duration(n, 'h');
    }
    if 0 < n && n * 60 <= u64::MAX {
        lemma_single_unit_duration(n, 'm');
        crate::text::lemma_decimal_reads_back(n);
        let d = decimal(n);
        assert(is_ascii_digit(d[0]));
        lemma_duration_text_plain(d);
        assert(parse_unsigned(d, u64::MAX as int) == Some(n as int));
    }
    if 0 < n && n <= u64::MAX {
        lemma_single_unit_duration(n, 's');
    }
    if 0 < a * 3600 + b * 60 <= u64::MAX {
        lemma_hours_minutes_duration(a, b);
    }
}

/// Runs the group scan over a lower-cased text with bounded arithmetic.
fn scan_groups(t: &Vec<char>) -> (r: (bool, bool, u64))
    ensures
        match scan_duration(t@, 0, 0, 0) {
            DurationScan::Reject => !r.0 && !r.1,
            DurationScan::Overflow => r.1,
            DurationScan::Total(x) => r.0 && !r.1 && r.2 == x,
        },
{
    let mut total: u64 = 0;
    let mut start: usize = 0;
    let mut i: usize = 0;
    while i < t.len()
        invariant
            0 <= start <= i <= t.len(),
            scan_duration(t@, i as int, start as int, total as int) == scan_duration(
                t@,
                0,
                0,
                0,
            ),
            all_digits(t@.subrange(start as int, i as int)),
        decreases t.len() - i,
    {
        let c = t[i];
        if ascii_digit(c) {
            proof {
                assert(t@.subrange(start as int, i + 1) == t@.subrange(start as int, i as int).push(
                    c,
                ));
            }
            i = i + 1;
        } else {
            let v = digits_upto(t, start, i, u64::MAX);
            let mult: u64 = if c == 'h' {
                3600
            } else if c == 'm' {
                60
            } else if c == 's' {
                1
            } else {
                0
            };
            if start == i || v.is_none() || mult == 0 {
                return (false, false, 0);
            }
            let v = v.unwrap();
            if v > (u64::MAX - total) / mult {
                proof {
                    assert(total + v * mult > u64::MAX) by (nonlinear_arith)
                        requires
                            v > (u64::MAX - total) as int / mult as int,
                            mult > 0,
                            total <= u64::MAX,
                    ;
                }
                return (false, true, 0);
            }
            proof {
                assert(total + v * mult <= u64::MAX) by (nonlinear_arith)
                    requires
                        v <= (u64::MAX - total) as int / mult as int,
                        mult > 0,
                        total <= u64::MAX,
                ;
            }
            total = total + v * mult;
            i = i + 1;
            start = i;
        }
    }
    (start == t.len(), false, total)
}

/// Whether reading `s` as a duration would overflow `u64` (the case that
/// `parse_duration` leaves out).
pub fn duration_would_overflow(s: &str) -> (r: bool)
    ensures
        r == duration_overflows(s@),
{
    let raw = chars_of(s);
    let trimmed = trim_chars(&raw);
    let t = ascii_lower_chars(&trimmed);
    if t.len() == 0 || all_ascii_digits(&t) {
        return false;
    }
    let (_, over, _) = scan_groups(&t);
    over
}

/// Parse a duration like `1h`, `45m`, `30s`, `1h30m`, or a bare number
/// (interpreted as minutes), in seconds.
pub fn parse_duration(s: &str) -> (r: Option<u64>)
    requires
        !duration_overflows(s@),
    ensures
        match duration_value(s@) {
            Some(v) => r == Some(v as u64),
            None => r is None,
        },
{
    let raw = chars_of(s);
    let trimmed = trim_chars(&raw);
    let t = ascii_lower_chars(&trimmed);
    if t.len() == 0 {
        return None;
    }
    if all_ascii_digits(&t) {
        proof {
            crate::text::lemma_digits_value_nonneg(t@);
        }
        assert(duration_value(s@) == match parse_unsigned(t@, u64::MAX as int) {
            Some(m) => if 0 < m * 60 <= u64::MAX {
                Some(m * 60)
            } else {
                None
            },
            None => None,
        });
        return match parse_u64(&t) {
            Some(m) => {
                match m.checked_mul(60) {
                    Some(x) => if x > 0 {
                        Some(x)
                    } else {
                        None
                    },
                    None => None,
                }
            },
            None => None,
        };
    }
    let (ok, _, total) = scan_groups(&t);
    if !ok || total == 0 {
        return None;
    }
    Some(total)
}

} // verus!

verus! {

// ------------------------------------------------------------ times of day

/// `s` without its ASCII spaces (`str::replace(' ', "")`).
pub open spec fn drop_spaces(s: Seq<char>) -> Seq<char>
    decreases s.len(),
{
    if s.len() == 0 {
        s
    } else if s.last() == ' ' {
        drop_spaces(s.drop_last())
    } else {
        drop_spaces(s.drop_last()).push(s.last())
    }
}

pub fn drop_spaces_chars(s: &Vec<char>) -> (r: Vec<char>)
    ensures
        r@ == drop_spaces(s@),
{
    let mut r: Vec<char> = Vec::new();
    let mut i: usize = 0;
    while i < s.len()
        invariant
            0 <= i <= s.len(),
            r@ == drop_spaces(s@.subrange(0, i as int)),
        decreases s.len() - i,
    {
        let ghost pre = s@.subrange(0, i as int);
        assert(s@.subrange(0, i + 1).drop_last() =~= pre);
        if s[i] != ' ' {
            r.push(s[i]);
        }
        i = i + 1;
    }
    assert(s@.subrange(0, s.len() as int) =~= s@);
    r
}

/// The time text after trimming, lower-casing and dropping spaces.
pub open spec fn time_text(s: Seq<char>) -> Seq<char> {
    drop_spaces(ascii_lower(trim(s)))
}

/// Splits an `am` / `pm` / `a` / `p` suffix off a time text.
pub open spec fn ampm_split(t: Seq<char>) -> (Seq<char>, char) {
    let n = t.len() as int;
    if n >= 2 && t[n - 2] == 'a' && t[n - 1] == 'm' {
        (t.subrange(0, n - 2), 'a')
    } else if n >= 2 && t[n - 2] == 'p' && t[n - 1] == 'm' {
        (t.subrange(0, n - 2), 'p')
    } else if n >= 1 && (t[n - 1] == 'a' || t[n - 1] == 'p') {
        (t.subrange(0, n - 1), t[n - 1])
    } else {
        (t, ' ')
    }
}

/// The optional seconds part after `HH:MM`: absent, empty, or a number of
/// seconds up to 59 with nothing after it.
pub open spec fn seconds_part_ok(rest: Option<Seq<char>>) -> bool {
    match rest {
        None => true,
        Some(r) => {
            let (sec, after) = split_once(r, ':');
            ||| sec.len() == 0
            ||| (parse_unsigned(sec, u32::MAX as int) matches Some(v) && v <= 59 && after is None)
        },
    }
}

/// The (hour, minute) read from the `HH[:MM[:SS]]` part of a time text.
pub open spec fn clock_fields(time_part: Seq<char>) -> Option<(int, int)> {
    let (hs, rest) = split_once(time_part, ':');
    match parse_unsigned(hs, u32::MAX as int) {
        None => None,
        Some(h) => match rest {
            None => Some((h, 0)),
            Some(r) => {
                let (ms, rest2) = split_once(r, ':');
                match parse_unsigned(ms, u32::MAX as int) {
                    None => None,
                    Some(m) => if seconds_part_ok(rest2) {
                        Some((h, m))
                    } else {
                        None
                    },
                }
            },
        },
    }
}

/// What `parse_hhmm` reads from `s`: "HH:MM", "HH:MM:SS", "7:00pm", "7 pm",
/// as a 24-hour (hour, minute) pair. Hours above 23 and minutes above 59 are
/// refused, and so are hours above 12 with an AM/PM suffix; "12am" is hour
/// 0, "12pm" hour 12, other PM hours gain 12.
pub open spec fn hhmm_value(s: Seq<char>) -> Option<(int, int)> {
    let (time_part, ampm) = ampm_split(time_text(s));
    match clock_fields(time_part) {
        None => None,
        Some((h, m)) => if h > 23 || m > 59 {
            None
        } else if (ampm == 'a' || ampm == 'p') && h > 12 {
            None
        } else if ampm == 'a' {
            Some((if h == 12 { 0 } else { h }, m))
        } else if ampm == 'p' {
            Some((if h == 12 { 12 } else { h + 12 }, m))
        } else {
            Some((h, m))
        },
    }
}

fn parse_u32_chars(s: &Vec<char>) -> (r: Option<u32>)
    ensures
        match parse_unsigned(s@, u32::MAX as int) {
            Some(v) => r == Some(v as u32),
            None => r is None,
        },
        r matches Some(v) ==> parse_unsigned(s@, u32::MAX as int) == Some(v as int),
{
    assert(s@.subrange(0, s.len() as int) =~= s@);
    match parse_unsigned_range(s, 0, s.len(), u32::MAX as u64) {
        Some(v) => Some(v as u32),
        None => None,
    }
}

/// Parse "HH:MM", "HH:MM:SS", "7:00pm", "7 pm" into (hour, minute).
pub fn parse_hhmm(s: &str) -> (r: Option<(u32, u32)>)
    ensures
        match hhmm_value(s@) {
            Some(p) => r == Some((p.0 as u32, p.1 as u32)),
            None => r is None,
        },
        r matches Some(p) ==> p.0 <= 23 && p.1 <= 59,
        hhmm_value(s@) matches Some(p) ==> 0 <= p.0 <= 23 && 0 <= p.1 <= 59,
{
    let raw = chars_of(s);
    let trimmed = trim_chars(&raw);
    let lower = ascii_lower_chars(&trimmed);
    let t = drop_spaces_chars(&lower);
    let n = t.len();
    let (time_part, ampm) = if n >= 2 && t[n - 2] == 'a' && t[n - 1] == 'm' {
        (slice_chars(&t, 0, n - 2), 'a')
    } else if n >= 2 && t[n - 2] == 'p' && t[n - 1] == 'm' {
        (slice_chars(&t, 0, n - 2), 'p')
    } else if n >= 1 && (t[n - 1] == 'a' || t[n - 1] == 'p') {
        (slice_chars(&t, 0, n - 1), t[n - 1])
    } else {
        (slice_chars(&t, 0, n), ' ')
    };
    assert(t@.subrange(0, n as int) =~= t@);
    assert(ampm_split(t@) == (time_part@, ampm));
    let (hs, rest) = split_once_chars(&time_part, ':');
    let h = match parse_u32_chars(&hs) {
        Some(h) => h,
        None => {
            return None;
        },
    };
    let m = match rest {
        None => 0,
        Some(r) => {
            let (ms, rest2) = split_once_chars(&r, ':');
            let m = match parse_u32_chars(&ms) {
                Some(m) => m,
                None => {
                    return None;
                },
            };
            match rest2 {
                None => {},
                Some(r2) => {
                    let (sec, after) = split_once_chars(&r2, ':');
                    if sec.len() != 0 {
                        match parse_u32_chars(&sec) {
                            Some(v) => {
                                if v > 59 || after.is_some() {
                                    return None;
                                }
                            },
                            None => {
                                return None;
                            },
                        }
                    }
                },
            }
            m
        },
    };
    if h > 23 || m > 59 {
        return None;
    }
    if (ampm == 'a' || ampm == 'p') && h > 12 {
        return None;
    }
    let h = if ampm == 'a' {
        if h == 12 {
            0
        } else {
            h
        }
    } else if ampm == 'p' {
        if h == 12 {
            12
        } else {
            h + 12
        }
    } else {
        h
    };
    Some((h, m))
}

/// `format!("{h:02}:{m:02}")`.
pub open spec fn hhmm_text(h: int, m: int) -> Seq<char> {
    two_digits(h) + seq![':'] + two_digits(m)
}

/// A normalized time reads back as the same time, so normalizing is
/// idempotent: `normalize_time` of its own output gives that output again.
pub proof fn law_normalized_time_reads_back(h: int, m: int)
    requires
        0 <= h <= 23,
        0 <= m <= 59,
    ensures
        hhmm_value(hhmm_text(h, m)) == Some((h, m)),
{
    let a = crate::text::digit_char(h / 10);
    let b = crate::text::digit_char(h % 10);
    let c = crate::text::digit_char(m / 10);
    let d = crate::text::digit_char(m % 10);
    let t = hhmm_text(h, m);
    assert(t =~= seq![a, b, ':', c, d]);
    assert(a as u32 == h / 10 + 48 && b as u32 == h % 10 + 48);
    assert(c as u32 == m / 10 + 48 && d as u32 == m % 10 + 48);
    assert(!crate::text::is_white_space(a) && !crate::text::is_white_space(d));
    assert(crate::text::lead_ws(t) == 0);
    assert(crate::text::trail_ws(t) == 0);
    assert(t.subrange(0, 5) =~= t);
    assert(trim(t) =~= t);
    assert(ascii_lower(t) =~= t);
    reveal_with_fuel(drop_spaces, 6);
    assert(drop_spaces(t) =~= t) by {
        assert(t.drop_last() =~= seq![a, b, ':', c]);
        assert(t.drop_last().drop_last() =~= seq![a, b, ':']);
        assert(t.drop_last().drop_last().drop_last() =~= seq![a, b]);
        assert(t.drop_last().drop_last().drop_last().drop_last() =~= seq![a]);
        assert(seq![a].drop_last() =~= Seq::<char>::empty());
    }
    assert(time_text(t) == t);
    assert(ampm_split(t) == (t, ' '));
    reveal_with_fuel(find_char, 4);
    assert(t.drop_first() =~= seq![b, ':', c, d]);
    assert(t.drop_first().drop_first() =~= seq![':', c, d]);
    assert(find_char(t, ':') == Some(2int));
    let hs = t.subrange(0, 2);
    let ms = t.subrange(3, 5);
    assert(hs =~= seq![a, b]);
    assert(ms =~= seq![c, d]);
    assert(ms.drop_first() =~= seq![d]);
    assert(seq![d].drop_first() =~= Seq::<char>::empty());
    assert(find_char(ms, ':') is None);
    assert(split_once(t, ':') == (hs, Some(ms)));
    assert(split_once(ms, ':') == (ms, None::<Seq<char>>));
    reveal_with_fuel(digits_value, 3);
    assert(hs.drop_last() =~= seq![a]);
    assert(seq![a].drop_last() =~= Seq::<char>::empty());
    assert(ms.drop_last() =~= seq![c]);
    assert(seq![c].drop_last() =~= Seq::<char>::empty());
    assert(all_digits(hs));
    assert(all_digits(ms));
    assert(digits_value(hs) == h);
    assert(digits_value(ms) == m);
    assert(parse_unsigned(hs, u32::MAX as int) == Some(h));
    assert(parse_unsigned(ms, u32::MAX as int) == Some(m));
    assert(clock_fields(t) == Some((h, m)));
}

/// Normalize any accepted time form to "HH:MM" (24h).
pub fn normalize_time(s: &str) -> (r: Option<String>)
    ensures
        match hhmm_value(s@) {
            Some(p) => r matches Some(t) && t@ == hhmm_text(p.0, p.1),
            None => r is None,
        },
{
    match parse_hhmm(s) {
        Some((h, m)) => {
            let mut v: Vec<char> = Vec::new();
            push_two_digits(&mut v, h as u64);
            v.push(':');
            push_two_digits(&mut v, m as u64);
            assert(v@ =~= hhmm_text(h as int, m as int));
            Some(string_of(v.as_slice()))
        },
        None => None,
    }
}

/// `"19:00"` -> `"7:00 PM"`.
pub open spec fn humanized_time(h: int, m: int) -> Seq<char> {
    let (h12, am) = if h == 0 {
        (12, true)
    } else if 1 <= h <= 11 {
        (h, true)
    } else if h == 12 {
        (12, false)
    } else {
        (h - 12, false)
    };
    decimal(h12 as nat) + seq![':'] + two_digits(m) + (if am {
        seq![' ', 'A', 'M']
    } else {
        seq![' ', 'P', 'M']
    })
}

proof fn lemma_drop_spaces_append(x: Seq<char>, y: Seq<char>)
    ensures
        drop_spaces(x + y) == drop_spaces(x) + drop_spaces(y),
    decreases y.len(),
{
    if y.len() == 0 {
        assert(x + y =~= x);
        assert(drop_spaces(x) + drop_spaces(y) =~= drop_spaces(x));
    } else {
        lemma_drop_spaces_append(x, y.drop_last());
        assert((x + y).drop_last() =~= x + y.drop_last());
        assert((x + y).last() == y.last());
        if y.last() != ' ' {
            assert(drop_spaces(x) + drop_spaces(y.drop_last()).push(y.last()) =~= (drop_spaces(x)
                + drop_spaces(y.drop_last())).push(y.last()));
        }
    }
}

proof fn lemma_drop_spaces_none(x: Seq<char>)
    requires
        forall|i: int| 0 <= i < x.len() ==> x[i] != ' ',
    ensures
        drop_spaces(x) == x,
    decreases x.len(),
{
    if x.len() > 0 {
        assert forall|i: int| 0 <= i < x.drop_last().len() implies x.drop_last()[i] != ' ' by {
            assert(x.drop_last()[i] == x[i]);
        }
        lemma_drop_spaces_none(x.drop_last());
        assert(x.drop_last().push(x.last()) =~= x);
    }
}

/// The first `c` in `x + y` is the first of `y` when `x` holds none.
proof fn lemma_find_char_after(x: Seq<char>, y: Seq<char>, c: char)
    requires
        forall|i: int| 0 <= i < x.len() ==> x[i] != c,
        y.len() > 0,
        y[0] == c,
    ensures
        find_char(x + y, c) == Some(x.len() as int),
{
    let s = x + y;
    lemma_find_char(s, c);
    assert(s[x.len() as int] == c);
    match find_char(s, c) {
        Some(i) => {
            if i < x.len() {
                assert(s[i] == x[i]);
            }
        },
        None => {},
    }
}

/// A time shown on the 12-hour clock ("7:05 PM") reads back as the 24-hour
/// time it shows: hours 0 and 12 become "12 AM" and "12 PM", afternoon hours
/// lose twelve and gain "PM", and reading undoes each.
#[verifier::rlimit(50)]
#[verifier::spinoff_prover]
pub proof fn law_humanized_time_reads_back(h: int, m: int)
    requires
        0 <= h <= 23,
        0 <= m <= 59,
    ensures
        hhmm_value(humanized_time(h, m)) == Some((h, m)),
{
    let (h12, am): (int, bool) = if h == 0 {
        (12, true)
    } else if 1 <= h <= 11 {
        (h, true)
    } else if h == 12 {
        (12, false)
    } else {
        (h - 12, false)
    };
    let hd = decimal(h12 as nat);
    crate::text::lemma_decimal_reads_back(h12 as nat);
    let c = crate::text::digit_char(m / 10);
    let d = crate::text::digit_char(m % 10);
    assert(c as u32 == m / 10 + 48 && d as u32 == m % 10 + 48);
    let up = if am { 'A' } else { 'P' };
    let lo = if am { 'a' } else { 'p' };
    let s = humanized_time(h, m);
    assert(s =~= hd + seq![':', c, d, ' ', up, 'M']);
    assert forall|i: int| 0 <= i < hd.len() implies is_ascii_digit(#[trigger] hd[i]) by {}
    assert(is_ascii_digit(hd[0]));
    assert(s[0] == hd[0]);
    assert(!is_white_space(s[0]));
    assert(!is_white_space(s.last()));
    assert(crate::text::lead_ws(s) == 0);
    assert(crate::text::trail_ws(s) == 0);
    assert(s.subrange(0, s.len() as int) =~= s);
    assert(trim(s) == s);
    let low = hd + seq![':', c, d, ' ', lo, 'm'];
    assert forall|i: int| 0 <= i < s.len() implies ascii_lower(s)[i] == low[i] by {
        if i < hd.len() {
            assert(is_ascii_digit(hd[i]));
        }
    }
    assert(ascii_lower(s) =~= low);
    let a = hd + seq![':', c, d];
    assert(low =~= a + seq![' '] + seq![lo, 'm']);
    lemma_drop_spaces_append(a + seq![' '], seq![lo, 'm']);
    lemma_drop_spaces_append(a, seq![' ']);
    assert forall|i: int| 0 <= i < a.len() implies a[i] != ' ' by {
        if i < hd.len() {
            assert(is_ascii_digit(hd[i]));
        }
    }
    lemma_drop_spaces_none(a);
    lemma_drop_spaces_none(seq![lo, 'm']);
    reveal_with_fuel(drop_spaces, 2);
    assert(seq![' '].drop_last() =~= Seq::<char>::empty());
    assert(drop_spaces(seq![' ']) =~= Seq::<char>::empty());
    let t = a + seq![lo, 'm'];
    assert(time_text(s) =~= t);
    assert(ampm_split(t) == (a, lo)) by {
        assert(t.subrange(0, t.len() - 2) =~= a);
    }
    assert forall|i: int| 0 <= i < hd.len() implies hd[i] != ':' by {
        assert(is_ascii_digit(hd[i]));
    }
    lemma_find_char_after(hd, seq![':', c, d], ':');
    assert(a.subrange(0, hd.len() as int) =~= hd);
    let ms = seq![c, d];
    assert(a.subrange(hd.len() as int + 1, a.len() as int) =~= ms);
    assert(split_once(a, ':') == (hd, Some(ms)));
    reveal_with_fuel(find_char, 3);
    assert(ms.drop_first() =~= seq![d]);
    assert(seq![d].drop_first() =~= Seq::<char>::empty());
    assert(find_char(ms, ':') is None);
    assert(split_once(ms, ':') == (ms, None::<Seq<char>>));
    reveal_with_fuel(digits_value, 3);
    assert(ms.drop_last() =~= seq![c]);
    assert(seq![c].drop_last() =~= Seq::<char>::empty());
    assert(all_digits(ms));
    assert(digits_value(ms) == m);
    assert(parse_unsigned(ms, u32::MAX as int) == Some(m));
    assert(parse_unsigned(hd, u32::MAX as int) == Some(h12));
    assert(clock_fields(a) == Some((h12, m)));
}

/// "19:00" -> "7:00 PM"
pub fn humanize_time(hhmm: &str) -> (r: Option<String>)
    ensures
        match hhmm_value(hhmm@) {
            Some(p) => r matches Some(t) && t@ == humanized_time(p.0, p.1),
            None => r is None,
        },
{
    match parse_hhmm(hhmm) {
        Some((h, m)) => {
            let (h12, am) = if h == 0 {
                (12u32, true)
            } else if 1 <= h && h <= 11 {
                (h, true)
            } else if h == 12 {
                (12u32, false)
            } else {
                (h - 12, false)
            };
            let mut v: Vec<char> = Vec::new();
            push_decimal(&mut v, h12 as u64);
            v.push(':');
            push_two_digits(&mut v, m as u64);
            v.push(' ');
            if am {
                v.push('A');
            } else {
                v.push('P');
            }
            v.push('M');
            assert(v@ =~= humanized_time(h as int, m as int));
            Some(string_of(v.as_slice()))
        },
        None => None,
    }
}

} // verus!

verus! {

// ---------------------------------------------------------- word joining

/// The texts of `parts` joined with `sep` (`[String]::join`).
pub open spec fn join_with(parts: Seq<Seq<char>>, sep: Seq<char>) -> Seq<char>
    decreases parts.len(),
{
    if parts.len() == 0 {
        Seq::empty()
    } else if parts.len() == 1 {
        parts[0]
    } else {
        join_with(parts.drop_last(), sep) + sep + parts.last()
    }
}

/// Joins character vectors with a separator.
pub fn join_chars(parts: &Vec<Vec<char>>, sep: &str) -> (r: Vec<char>)
    ensures
        r@ == join_with(parts@.map_values(|v: Vec<char>| v@), sep@),
{
    let ghost ps = parts@.map_values(|v: Vec<char>| v@);
    let mut r: Vec<char> = Vec::new();
    let mut i: usize = 0;
    while i < parts.len()
        invariant
            0 <= i <= parts.len(),
            ps == parts@.map_values(|v: Vec<char>| v@),
            r@ == join_with(ps.subrange(0, i as int), sep@),
        decreases parts.len() - i,
    {
        assert(ps.subrange(0, i + 1).drop_last() =~= ps.subrange(0, i as int));
        if i > 0 {
            crate::text::push_str(&mut r, sep);
        }
        crate::text::push_seq(&mut r, &parts[i]);
        i = i + 1;
        proof {
            if i == 1 {
                assert(ps.subrange(0, 0) =~= Seq::<Seq<char>>::empty());
                assert(r@ =~= ps.subrange(0, 1)[0]);
            }
        }
    }
    assert(ps.subrange(0, parts.len() as int) =~= ps);
    r
}

// ------------------------------------------------------ human durations

/// `""` for one, `"s"` otherwise.
pub open spec fn plural_suffix(n: int) -> Seq<char> {
    if n == 1 {
        Seq::empty()
    } else {
        seq!['s']
    }
}

fn plural(n: u64) -> (r: &'static str)
    ensures
        r@ == plural_suffix(n as int),
{
    if n == 1 {
        let r = "";
        proof {
            reveal_strlit("");
        }
        r
    } else {
        let r = "s";
        proof {
            reveal_strlit("s");
        }
        r
    }
}

/// `format!("{n}{unit}{}", plural(n))`.
pub open spec fn unit_phrase(n: int, unit: Seq<char>) -> Seq<char> {
    decimal(n as nat) + unit + plural_suffix(n)
}

/// "1 hour", "45 minutes", "30 seconds", "1 hour 30 minutes".
pub open spec fn humanized_seconds(total: int) -> Seq<char> {
    if total < 120 {
        decimal(total as nat) + " seconds"@
    } else {
        let h = total / 3600;
        let m = (total % 3600) / 60;
        let s = total % 60;
        let p1: Seq<Seq<char>> = if h > 0 {
            seq![unit_phrase(h, " hour"@)]
        } else {
            Seq::empty()
        };
        let p2 = p1 + if m > 0 {
            seq![unit_phrase(m, " minute"@)]
        } else {
            Seq::empty()
        };
        let p3 = p2 + if s > 0 || p2.len() == 0 {
            seq![unit_phrase(s, " second"@)]
        } else {
            Seq::empty()
        };
        join_with(p3, " "@)
    }
}

fn unit_phrase_chars(n: u64, unit: &str) -> (r: Vec<char>)
    ensures
        r@ == unit_phrase(n as int, unit@),
{
    let mut v: Vec<char> = Vec::new();
    push_decimal(&mut v, n);
    crate::text::push_str(&mut v, unit);
    crate::text::push_str(&mut v, plural(n));
    assert(v@ =~= unit_phrase(n as int, unit@));
    v
}

/// "1 hour", "45 minutes", "30 seconds", "1 hour 30 minutes".
pub fn humanize_seconds(total: u64) -> (r: String)
    ensures
        r@ == humanized_seconds(total as int),
{
    if total < 120 {
        let mut v: Vec<char> = Vec::new();
        push_decimal(&mut v, total);
        crate::text::push_str(&mut v, " seconds");
        return string_of(v.as_slice());
    }
    let h = total / 3600;
    let m = (total % 3600) / 60;
    let s = total % 60;
    let mut parts: Vec<Vec<char>> = Vec::new();
    if h > 0 {
        parts.push(unit_phrase_chars(h, " hour"));
    }
    if m > 0 {
        parts.push(unit_phrase_chars(m, " minute"));
    }
    if s > 0 || parts.len() == 0 {
        parts.push(unit_phrase_chars(s, " second"));
    }
    let v = join_chars(&parts, " ");
    proof {
        let p1: Seq<Seq<char>> = if h > 0 {
            seq![unit_phrase(h as int, " hour"@)]
        } else {
            Seq::empty()
        };
        let p2 = p1 + if m > 0 {
            seq![unit_phrase(m as int, " minute"@)]
        } else {
            Seq::empty()
        };
        let p3 = p2 + if s > 0 || p2.len() == 0 {
            seq![unit_phrase(s as int, " second"@)]
        } else {
            Seq::empty()
        };
        assert(parts@.map_values(|v: Vec<char>| v@) =~= p3);
    }
    string_of(v.as_slice())
}

/// "42m", "1h 21m", "2d 3h" style short relative duration ("now" when
/// negative).
pub open spec fn short_duration(secs: int) -> Seq<char> {
    if secs < 0 {
        "now"@
    } else {
        let d = secs / 86400;
        let h = (secs % 86400) / 3600;
        let m = (secs % 3600) / 60;
        let s = secs % 60;
        if d > 0 {
            decimal(d as nat) + "d "@ + decimal(h as nat) + "h"@
        } else if h > 0 {
            decimal(h as nat) + "h "@ + decimal(m as nat) + "m"@
        } else if m > 0 {
            decimal(m as nat) + "m"@
        } else {
            decimal(s as nat) + "s"@
        }
    }
}

/// "42m", "1h 21m", "2d 3h" style short relative duration.
pub fn humanize_duration_short(secs: i64) -> (r: String)
    ensures
        r@ == short_duration(secs as int),
{
    let mut v: Vec<char> = Vec::new();
    if secs < 0 {
        crate::text::push_str(&mut v, "now");
        return string_of(v.as_slice());
    }
    let d = (secs / 86400) as u64;
    let h = ((secs % 86400) / 3600) as u64;
    let m = ((secs % 3600) / 60) as u64;
    let s = (secs % 60) as u64;
    if d > 0 {
        push_decimal(&mut v, d);
        crate::text::push_str(&mut v, "d ");
        push_decimal(&mut v, h);
        crate::text::push_str(&mut v, "h");
    } else if h > 0 {
        push_decimal(&mut v, h);
        crate::text::push_str(&mut v, "h ");
        push_decimal(&mut v, m);
        crate::text::push_str(&mut v, "m");
    } else if m > 0 {
        push_decimal(&mut v, m);
        crate::text::push_str(&mut v, "m");
    } else {
        push_decimal(&mut v, s);
        crate::text::push_str(&mut v, "s");
    }
    string_of(v.as_slice())
}

// ------------------------------------------------------------------ slugs

/// `char::is_alphanumeric` (Unicode `Alphabetic` or `Numeric`).
pub uninterp spec fn alphanumeric(c: char) -> bool;

/// Calls `char::is_alphanumeric`. Claims the named answer and, as the
/// standard library documents for ASCII, that an ASCII character is
/// alphanumeric exactly when it is a letter or a digit.
#[verifier::external_body]
pub(crate) fn is_alphanumeric(c: char) -> (b: bool)
    ensures
        b == alphanumeric(c),
        (c as u32) < 128 ==> (b <==> (is_ascii_digit(c) || crate::text::is_ascii_upper(c)
            || crate::text::is_ascii_lower_letter(c))),
{
    c.is_alphanumeric()
}

/// Whether `c` is alphanumeric: for ASCII a letter or a digit, otherwise as
/// `char::is_alphanumeric` says.
pub open spec fn alnum(c: char) -> bool {
    if (c as u32) < 128 {
        is_ascii_digit(c) || crate::text::is_ascii_upper(c) || crate::text::is_ascii_lower_letter(c)
    } else {
        alphanumeric(c)
    }
}

/// One step of slug building: alphanumerics are kept (ASCII-lower-cased),
/// any other character becomes a single `-` between words.
pub open spec fn slug_step(out: Seq<char>, c: char) -> Seq<char> {
    if alnum(c) {
        out.push(ascii_lower_char(c))
    } else if out.len() > 0 && out.last() != '-' {
        out.push('-')
    } else {
        out
    }
}

pub open spec fn slug_raw(s: Seq<char>) -> Seq<char>
    decreases s.len(),
{
    if s.len() == 0 {
        Seq::empty()
    } else {
        slug_step(slug_raw(s.drop_last()), s.last())
    }
}

/// The slug of `s`: the built text without the `-` it may end with.
pub open spec fn slug(s: Seq<char>) -> Seq<char> {
    let r = slug_raw(s);
    if r.len() > 0 && r.last() == '-' {
        r.drop_last()
    } else {
        r
    }
}

/// The shape of a built slug: it does not start with `-`, never holds `--`,
/// and holds only `-` and alphanumerics that are not ASCII upper case.
pub open spec fn slug_shaped(t: Seq<char>) -> bool {
    &&& t.len() > 0 ==> t[0] != '-'
    &&& forall|k: int| 0 <= k < t.len() - 1 ==> !(#[trigger] t[k] == '-' && t[k + 1] == '-')
    &&& forall|k: int|
        0 <= k < t.len() ==> #[trigger] t[k] == '-' || (alnum(t[k]) && !crate::text::is_ascii_upper(
            t[k],
        ))
}

proof fn lemma_slug_raw_shaped(s: Seq<char>)
    ensures
        slug_shaped(slug_raw(s)),
    decreases s.len(),
{
    if s.len() > 0 {
        lemma_slug_raw_shaped(s.drop_last());
        let out = slug_raw(s.drop_last());
        let c = s.last();
        if alnum(c) {
            let lc = ascii_lower_char(c);
            assert(!crate::text::is_ascii_upper(lc));
            assert(alnum(lc));
            assert(lc != '-');
            let t = out.push(lc);
            assert forall|k: int| 0 <= k < t.len() - 1 implies !(#[trigger] t[k] == '-' && t[k + 1] == '-') by {
                if k + 1 < out.len() {
                    assert(t[k] == out[k] && t[k + 1] == out[k + 1]);
                }
            }
            assert forall|k: int| 0 <= k < t.len() implies #[trigger] t[k] == '-' || (alnum(t[k])
                && !crate::text::is_ascii_upper(t[k])) by {
                if k < out.len() {
                    assert(t[k] == out[k]);
                }
            }
        } else if out.len() > 0 && out.last() != '-' {
            let t = out.push('-');
            assert forall|k: int| 0 <= k < t.len() - 1 implies !(#[trigger] t[k] == '-' && t[k + 1] == '-') by {
                if k + 1 < out.len() {
                    assert(t[k] == out[k] && t[k + 1] == out[k + 1]);
                } else {
                    assert(t[k] == out.last());
                }
            }
            assert forall|k: int| 0 <= k < t.len() implies #[trigger] t[k] == '-' || (alnum(t[k])
                && !crate::text::is_ascii_upper(t[k])) by {
                if k < out.len() {
                    assert(t[k] == out[k]);
                }
            }
        }
    }
}

proof fn lemma_shaped_slug_raw_fixed(t: Seq<char>)
    requires
        slug_shaped(t),
    ensures
        slug_raw(t) == t,
    decreases t.len(),
{
    if t.len() > 0 {
        let p = t.drop_last();
        assert(slug_shaped(p)) by {
            assert forall|k: int| 0 <= k < p.len() - 1 implies !(#[trigger] p[k] == '-' && p[k + 1] == '-') by {
                assert(p[k] == t[k] && p[k + 1] == t[k + 1]);
            }
            assert forall|k: int| 0 <= k < p.len() implies #[trigger] p[k] == '-' || (alnum(p[k])
                && !crate::text::is_ascii_upper(p[k])) by {
                assert(p[k] == t[k]);
            }
            if p.len() > 0 {
                assert(p[0] == t[0]);
            }
        }
        lemma_shaped_slug_raw_fixed(p);
        let c = t.last();
        assert(t[t.len() - 1] == c);
        if c == '-' {
            assert(t.len() > 1);
            assert(p.last() == t[t.len() - 2]);
            assert(t[t.len() - 2] != '-');
            assert(!alnum('-'));
            assert(p.push('-') =~= t);
        } else {
            assert(alnum(c) && !crate::text::is_ascii_upper(c));
            assert(ascii_lower_char(c) == c);
            assert(p.push(c) =~= t);
        }
    }
}

/// `t` with every `-` taken out.
pub open spec fn without_dashes(t: Seq<char>) -> Seq<char>
    decreases t.len(),
{
    if t.len() == 0 {
        t
    } else if t.last() == '-' {
        without_dashes(t.drop_last())
    } else {
        without_dashes(t.drop_last()).push(t.last())
    }
}

/// The alphanumerics of `s`, in order, ASCII-lower-cased.
pub open spec fn slug_letters(s: Seq<char>) -> Seq<char>
    decreases s.len(),
{
    if s.len() == 0 {
        s
    } else if alnum(s.last()) {
        slug_letters(s.drop_last()).push(ascii_lower_char(s.last()))
    } else {
        slug_letters(s.drop_last())
    }
}

proof fn lemma_without_dashes_push(t: Seq<char>, c: char)
    ensures
        without_dashes(t.push(c)) == (if c == '-' {
            without_dashes(t)
        } else {
            without_dashes(t).push(c)
        }),
{
    assert(t.push(c).drop_last() =~= t);
}

proof fn lemma_slug_raw_letters(s: Seq<char>)
    ensures
        without_dashes(slug_raw(s)) == slug_letters(s),
    decreases s.len(),
{
    if s.len() > 0 {
        lemma_slug_raw_letters(s.drop_last());
        let out = slug_raw(s.drop_last());
        let c = s.last();
        if alnum(c) {
            let lc = ascii_lower_char(c);
            assert(lc != '-');
            lemma_without_dashes_push(out, lc);
        } else if out.len() > 0 && out.last() != '-' {
            lemma_without_dashes_push(out, '-');
        }
    }
}

/// A slug never starts or ends with `-`, never holds `--`, and holds only
/// `-` and alphanumerics that are not ASCII upper case; so slugifying a slug
/// gives it back unchanged. Taking its dashes out leaves the alphanumerics
/// of `s`, ASCII-lower-cased.
pub proof fn law_slug_shape(s: Seq<char>)
    ensures
        without_dashes(slug(s)) == slug_letters(s),
        slug(s).len() > 0 ==> slug(s)[0] != '-' && slug(s).last() != '-',
        forall|k: int| 0 <= k < slug(s).len() - 1 ==> !(#[trigger] slug(s)[k] == '-' && slug(s)[k + 1] == '-'),
        forall|k: int|
            0 <= k < slug(s).len() ==> #[trigger] slug(s)[k] == '-' || (alnum(slug(s)[k])
                && !crate::text::is_ascii_upper(slug(s)[k])),
        slug(slug(s)) == slug(s),
{
    lemma_slug_raw_shaped(s);
    lemma_slug_raw_letters(s);
    let r = slug_raw(s);
    let t = slug(s);
    if r.len() > 0 && r.last() == '-' {
        assert(t == r.drop_last());
        lemma_without_dashes_push(t, '-');
        assert(t.push('-') =~= r);
        assert forall|k: int| 0 <= k < t.len() - 1 implies !(#[trigger] t[k] == '-' && t[k + 1] == '-') by {
            assert(t[k] == r[k] && t[k + 1] == r[k + 1]);
        }
        assert forall|k: int| 0 <= k < t.len() implies #[trigger] t[k] == '-' || (alnum(t[k])
            && !crate::text::is_ascii_upper(t[k])) by {
            assert(t[k] == r[k]);
        }
        if t.len() > 0 {
            assert(t[0] == r[0]);
            assert(t.last() == r[r.len() - 2]);
            assert(r[r.len() - 1] == '-');
        }
    }
    assert(slug_shaped(t));
    lemma_shaped_slug_raw_fixed(t);
}

/// Generate a slug from a title (for logs/filenames only; IDs are integers).
pub fn slugify(s: &str) -> (r: String)
    ensures
        r@ == slug(s@),
        r@.len() > 0 ==> r@[0] != '-' && r@.last() != '-',
{
    let cs = chars_of(s);
    let mut out: Vec<char> = Vec::new();
    let mut i: usize = 0;
    while i < cs.len()
        invariant
            0 <= i <= cs.len(),
            out@ == slug_raw(cs@.subrange(0, i as int)),
            out@.len() > 0 ==> out@[0] != '-',
            forall|k: int| 0 <= k < out@.len() - 1 ==> !(#[trigger] out@[k] == '-' && out@[k + 1] == '-'),
        decreases cs.len() - i,
    {
        let c = cs[i];
        assert(cs@.subrange(0, i + 1).drop_last() =~= cs@.subrange(0, i as int));
        if is_alphanumeric(c) {
            let lc = crate::text::to_ascii_lower(c);
            assert(lc != '-');
            out.push(lc);
        } else if out.len() > 0 && out[out.len() - 1] != '-' {
            out.push('-');
        }
        i = i + 1;
    }
    assert(cs@.subrange(0, cs.len() as int) =~= cs@);
    if out.len() > 0 && out[out.len() - 1] == '-' {
        let ghost before = out@;
        out.pop();
        proof {
            if out.len() > 0 {
                assert(before[out.len() - 1] != '-' || before[out.len() as int] != '-');
            }
        }
    }
    string_of(out.as_slice())
}

} // verus!

verus! {

// ------------------------------------------------------------------ days

/// The weekday a (trimmed, lower-cased) name stands for: three-letter and
/// full names, a few common abbreviations, or 1-7 (1 = Monday).
pub open spec fn day_name(p: Seq<char>) -> Option<Weekday> {
    if p == "mon"@ || p == "monday"@ || p == "1"@ {
        Some(Weekday::Mon)
    } else if p == "tue"@ || p == "tues"@ || p == "tuesday"@ || p == "2"@ {
        Some(Weekday::Tue)
    } else if p == "wed"@ || p == "wednesday"@ || p == "3"@ {
        Some(Weekday::Wed)
    } else if p == "thu"@ || p == "thurs"@ || p == "thursday"@ || p == "4"@ {
        Some(Weekday::Thu)
    } else if p == "fri"@ || p == "friday"@ || p == "5"@ {
        Some(Weekday::Fri)
    } else if p == "sat"@ || p == "saturday"@ || p == "6"@ {
        Some(Weekday::Sat)
    } else if p == "sun"@ || p == "sunday"@ || p == "7"@ {
        Some(Weekday::Sun)
    } else {
        None
    }
}

fn day_of_name(p: &Vec<char>) -> (r: Option<Weekday>)
    ensures
        r == day_name(p@),
{
    if is_text(p, "mon") || is_text(p, "monday") || is_text(p, "1") {
        Some(Weekday::Mon)
    } else if is_text(p, "tue") || is_text(p, "tues") || is_text(p, "tuesday") || is_text(p, "2") {
        Some(Weekday::Tue)
    } else if is_text(p, "wed") || is_text(p, "wednesday") || is_text(p, "3") {
        Some(Weekday::Wed)
    } else if is_text(p, "thu") || is_text(p, "thurs") || is_text(p, "thursday") || is_text(
        p,
        "4",
    ) {
        Some(Weekday::Thu)
    } else if is_text(p, "fri") || is_text(p, "friday") || is_text(p, "5") {
        Some(Weekday::Fri)
    } else if is_text(p, "sat") || is_text(p, "saturday") || is_text(p, "6") {
        Some(Weekday::Sat)
    } else if is_text(p, "sun") || is_text(p, "sunday") || is_text(p, "7") {
        Some(Weekday::Sun)
    } else {
        None
    }
}

/// The weekday one comma-separated piece names, after trimming and
/// lower-casing.
pub open spec fn piece_day(p: Seq<char>) -> Option<Weekday> {
    day_name(ascii_lower(trim(p)))
}

/// What `parse_days` reads from `spec`: every comma-separated piece must name
/// a weekday; the days are kept in the given order.
pub open spec fn days_value(spec: Seq<char>) -> Option<Seq<Weekday>> {
    let pieces = split_all(spec, ',');
    if trim(spec).len() == 0 {
        None
    } else if forall|i: int| 0 <= i < pieces.len() ==> (#[trigger] piece_day(pieces[i])) is Some {
        Some(pieces.map_values(|p: Seq<char>| piece_day(p)->0))
    } else {
        None
    }
}

/// Parse weekday names: mon/tue/wed/thu/fri/sat/sun, full names, or 1-7
/// (1=mon). Returns weekdays in the given order.
pub fn parse_days(spec: &str) -> (r: Option<Vec<Weekday>>)
    ensures
        match days_value(spec@) {
            Some(ds) => r matches Some(v) && v@ == ds,
            None => r is None,
        },
{
    let cs = chars_of(spec);
    let trimmed = trim_chars(&cs);
    if trimmed.len() == 0 {
        return None;
    }
    let pieces = split_all_chars(&cs, ',');
    let ghost ps = split_all(spec@, ',');
    let mut out: Vec<Weekday> = Vec::new();
    let mut i: usize = 0;
    while i < pieces.len()
        invariant
            0 <= i <= pieces.len(),
            ps == split_all(spec@, ','),
            trim(spec@).len() > 0,
            pieces@.len() == ps.len(),
            forall|k: int| 0 <= k < pieces@.len() ==> (#[trigger] pieces@[k])@ == ps[k],
            out@.len() == i,
            forall|k: int| 0 <= k < i ==> (#[trigger] piece_day(ps[k])) is Some && out@[k]
                == piece_day(ps[k])->0,
        decreases pieces.len() - i,
    {
        let t = trim_chars(&pieces[i]);
        let l = ascii_lower_chars(&t);
        match day_of_name(&l) {
            Some(w) => {
                out.push(w);
            },
            None => {
                assert(piece_day(ps[i as int]) is None);
                return None;
            },
        }
        i = i + 1;
    }
    assert(out@ =~= ps.map_values(|p: Seq<char>| piece_day(p)->0));
    Some(out)
}

/// The texts of `days` joined with commas.
pub open spec fn comma_joined(days: Seq<String>) -> Seq<char> {
    join_with(days.map_values(|d: String| d@), ","@)
}

/// Parse a list of weekday strings (from JSON) to weekdays: the list is
/// joined with commas and read by `parse_days`.
pub fn parse_day_list(days: &Vec<String>) -> (r: Option<Vec<Weekday>>)
    ensures
        match days_value(comma_joined(days@)) {
            Some(ds) => r matches Some(v) && v@ == ds,
            None => r is None,
        },
{
    let mut parts: Vec<Vec<char>> = Vec::new();
    let mut i: usize = 0;
    while i < days.len()
        invariant
            0 <= i <= days.len(),
            parts@.map_values(|v: Vec<char>| v@) == days@.subrange(0, i as int).map_values(
                |d: String| d@,
            ),
        decreases days.len() - i,
    {
        let p = chars_of(days[i].as_str());
        let ghost old_parts = parts@;
        parts.push(p);
        proof {
            assert(parts@.map_values(|v: Vec<char>| v@) =~= old_parts.map_values(
                |v: Vec<char>| v@,
            ).push(days@[i as int]@));
            assert(days@.subrange(0, i + 1).map_values(|d: String| d@) =~= days@.subrange(
                0,
                i as int,
            ).map_values(|d: String| d@).push(days@[i as int]@));
        }
        i = i + 1;
    }
    assert(days@.subrange(0, days.len() as int) =~= days@);
    let joined = join_chars(&parts, ",");
    let s = string_of(joined.as_slice());
    parse_days(s.as_str())
}

// ------------------------------------------------------- dates and times

/// Parse a date "YYYY-MM-DD" (surrounding white space ignored), as the day
/// number `NaiveDate::num_days_from_ce` gives.
pub fn parse_date(s: &str) -> (r: Option<i32>)
    ensures
        r == ymd_day(trim(s@)),
        r matches Some(d) ==> MIN_SECS <= day_start(d as int) && day_start(d as int)
            + SECS_PER_DAY - 1 <= MAX_SECS,
{
    let cs = chars_of(s);
    let t = trim_chars(&cs);
    let ts = string_of(t.as_slice());
    parse_ymd(ts.as_str())
}

/// The instant RFC 3339 text denotes, surrounding white space ignored.
pub open spec fn rfc3339_loose_value(s: Seq<char>) -> Option<(int, int)> {
    match rfc3339_instant(trim(s)) {
        Some(p) => Some((p.0 as int, p.1 as int)),
        None => None,
    }
}

/// Lenient RFC3339 parse (also accepts trailing 'Z' or explicit offset).
pub fn parse_rfc3339_loose(s: &str) -> (r: Option<Timestamp>)
    ensures
        matches_parts(r, rfc3339_loose_value(s@)),
{
    let cs = chars_of(s);
    let t = trim_chars(&cs);
    let ts = string_of(t.as_slice());
    match parse_rfc3339(ts.as_str()) {
        Some((secs, nanos)) => Some(Timestamp::from_valid_parts(secs, nanos)),
        None => None,
    }
}

/// What `parse_datetime` reads from `s` in zone `tz`: RFC 3339 text, or a
/// local "YYYY-MM-DD[ time]" reading (midnight when no time is given) that
/// maps to exactly one instant in `tz`.
pub open spec fn datetime_value(s: Seq<char>, tz: Seq<char>) -> Option<(int, int)> {
    let t = trim(s);
    match rfc3339_instant(t) {
        Some(p) => Some((p.0 as int, p.1 as int)),
        None => {
            let (date_str, time_str) = split_once(t, ' ');
            match ymd_day(trim(date_str)) {
                None => None,
                Some(day) => {
                    let hm: Option<(int, int)> = match time_str {
                        Some(ts) => match hhmm_value(ts) {
                            Some(p) => if p.0 < 24 && p.1 < 60 {
                                Some(p)
                            } else {
                                None
                            },
                            None => None,
                        },
                        None => Some((0, 0)),
                    };
                    match hm {
                        None => None,
                        Some(p) => match tz_local_lookup(
                            tz,
                            day_start(day as int) + p.0 * 3600 + p.1 * 60,
                        ) {
                            LocalTime::Single(u) => Some((u as int, 0)),
                            _ => None,
                        },
                    }
                },
            }
        },
    }
}

/// A local "date time" reading counts its hours and minutes: for a text made
/// of a date `ds` that reads as day `day`, one space, and a clock time `ts`
/// that reads as `h:m`, the instant is the one the zone gives for the local
/// clock reading `h` hours and `m` minutes into that day, when there is
/// exactly one such instant, and there is none otherwise.
pub proof fn law_local_datetime_reading(ds: Seq<char>, ts: Seq<char>, tz: Seq<char>, day: i32, h: int, m: int)
    requires
        ds.len() > 0,
        !is_white_space(ds[0]),
        !is_white_space(ds.last()),
        forall|i: int| 0 <= i < ds.len() ==> ds[i] != ' ',
        ts.len() > 0,
        !is_white_space(ts.last()),
        rfc3339_instant(ds + " "@ + ts) is None,
        ymd_day(ds) == Some(day),
        hhmm_value(ts) == Some((h, m)),
    ensures
        datetime_value(ds + " "@ + ts, tz) == (match tz_local_lookup(tz, day_start(day as int) + h * 3600 + m * 60) {
            LocalTime::Single(u) => Some((u as int, 0int)),
            _ => None,
        }),
{
    reveal_strlit(" ");
    let s = ds + " "@ + ts;
    assert(s[0] == ds[0]);
    assert(s.last() == ts.last());
    assert(crate::text::lead_ws(s) == 0);
    assert(crate::text::trail_ws(s) == 0);
    assert(s.subrange(0, s.len() as int) =~= s);
    assert(trim(s) == s);
    assert(crate::text::lead_ws(ds) == 0);
    assert(crate::text::trail_ws(ds) == 0);
    assert(ds.subrange(0, ds.len() as int) =~= ds);
    assert(trim(ds) == ds);
    lemma_find_char(s, ' ');
    assert(s[ds.len() as int] == ' ');
    assert forall|j: int| 0 <= j < ds.len() implies s[j] != ' ' by {
        assert(s[j] == ds[j]);
    }
    assert(find_char(s, ' ') == Some(ds.len() as int));
    assert(s.subrange(0, ds.len() as int) =~= ds);
    assert(s.subrange(ds.len() as int + 1, s.len() as int) =~= ts);
    assert(split_once(s, ' ') == (ds, Some(ts)));
    assert(h < 24 && m < 60);
}

/// Parse a datetime: RFC3339, "YYYY-MM-DD HH:MM", or "YYYY-MM-DD".
/// Naive input is interpreted in zone `tz` (UTC when `chrono_tz` does not
/// know the name); a local time that does not map to exactly one instant is
/// refused.
pub fn parse_datetime(s: &str, tz: &str) -> (r: Option<Timestamp>)
    ensures
        matches_parts(r, datetime_value(s@, effective_tz(tz@))),
{
    let zone = zone_or_utc(tz);
    let cs = chars_of(s);
    let t = trim_chars(&cs);
    let ts = string_of(t.as_slice());
    if let Some((secs, nanos)) = parse_rfc3339(ts.as_str()) {
        return Some(Timestamp::from_valid_parts(secs, nanos));
    }
    let (date_cs, time_cs) = split_once_chars(&t, ' ');
    let date_s = string_of(date_cs.as_slice());
    let day = match parse_date(date_s.as_str()) {
        Some(d) => d,
        None => {
            return None;
        },
    };
    let (h, m): (u32, u32) = match time_cs {
        Some(tc) => {
            let tstr = string_of(tc.as_slice());
            match parse_hhmm(tstr.as_str()) {
                Some((h, m)) => {
                    if h >= 24 || m >= 60 {
                        return None;
                    }
                    (h, m)
                },
                None => {
                    return None;
                },
            }
        },
        None => (0, 0),
    };
    let naive = (day as i64 - EPOCH_DAY_CE) * SECS_PER_DAY + h as i64 * 3600 + m as i64 * 60;
    match local_lookup(zone.as_str(), naive) {
        LocalTime::Single(u) => Some(Timestamp::from_valid_parts(u, 0)),
        _ => None,
    }
}

} // verus!
