//! Character-level text helpers shared by the parsers and formatters.
//!
//! Text is handled as sequences of `char`s: a `&str` or `String` is read
//! into a `Vec<char>`, processed by verified code, and turned back into a
//! `String` at the end.

use vstd::prelude::*;

verus! {

// ------------------------------------------------------------------ std glue

/// The characters of `s`, in order (`str::chars` collected into a vector).
#[verifier::external_body]
pub(crate) fn chars_of(s: &str) -> (v: Vec<char>)
    ensures
        v@ == s@,
{
    s.chars().collect()
}

/// The string made of the characters of `v` (`String::from_iter`).
#[verifier::external_body]
pub(crate) fn string_of(v: &[char]) -> (s: String)
    ensures
        s@ == v@,
{
    String::from_iter(v.iter())
}

/// Appends the characters of `s` to `out`.
pub fn push_str(out: &mut Vec<char>, s: &str)
    ensures
        final(out)@ == old(out)@ + s@,
{
    let mut cs = chars_of(s);
    out.append(&mut cs);
}

/// Appends the characters of `s` to `out`.
pub fn push_seq(out: &mut Vec<char>, s: &Vec<char>)
    ensures
        final(out)@ == old(out)@ + s@,
{
    let mut i: usize = 0;
    while i < s.len()
        invariant
            0 <= i <= s.len(),
            out@ == old(out)@ + s@.subrange(0, i as int),
        decreases s.len() - i,
    {
        out.push(s[i]);
        i = i + 1;
        assert(s@.subrange(0, i as int) == s@.subrange(0, i - 1).push(s@[i - 1]));
    }
    assert(s@.subrange(0, s.len() as int) == s@);
}

/// `a@ == b@`, decided character by character.
pub fn seq_eq(a: &Vec<char>, b: &Vec<char>) -> (r: bool)
    ensures
        r == (a@ == b@),
{
    if a.len() != b.len() {
        return false;
    }
    let mut i: usize = 0;
    while i < a.len()
        invariant
            a.len() == b.len(),
            0 <= i <= a.len(),
            forall|j: int| 0 <= j < i ==> a@[j] == b@[j],
        decreases a.len() - i,
    {
        if a[i] != b[i] {
            return false;
        }
        i = i + 1;
    }
    assert(a@ =~= b@);
    true
}

/// Whether `v` holds exactly the characters of the literal `lit`.
pub fn is_text(v: &Vec<char>, lit: &str) -> (r: bool)
    ensures
        r == (v@ == lit@),
{
    let l = chars_of(lit);
    seq_eq(v, &l)
}

/// The characters that `char::to_uppercase` yields for `c`.
pub uninterp spec fn char_uppercase(c: char) -> Seq<char>;

/// Collects `char::to_uppercase` of `c` into a string; claims only that the
/// text is the named one.
#[verifier::external_body]
pub(crate) fn uppercase_of(c: char) -> (s: String)
    ensures
        s@ == char_uppercase(c),
{
    c.to_uppercase().collect::<String>()
}

/// The text `str::to_lowercase` gives for `s`.
pub uninterp spec fn str_lowercase(s: Seq<char>) -> Seq<char>;

/// Calls `str::to_lowercase`; claims only that the text is the named one.
#[verifier::external_body]
pub(crate) fn lowercase_of(s: &str) -> (r: String)
    ensures
        r@ == str_lowercase(s@),
{
    s.to_lowercase()
}

/// `needle` occurs in `hay` (`str::contains`).
pub open spec fn contains_text(hay: Seq<char>, needle: Seq<char>) -> bool {
    exists|i: int|
        0 <= i && i + needle.len() <= hay.len() && #[trigger] hay.subrange(i, i + needle.len())
            == needle
}

/// Whether `needle` occurs in `hay`.
pub fn text_contains(hay: &Vec<char>, needle: &str) -> (r: bool)
    ensures
        r == contains_text(hay@, needle@),
{
    let n = chars_of(needle);
    if n.len() > hay.len() {
        return false;
    }
    if n.len() == 0 {
        assert(hay@.subrange(0int, 0int + needle@.len()) =~= needle@);
        return true;
    }
    let last = hay.len() - n.len();
    let mut i: usize = 0;
    while i <= last
        invariant
            n@ == needle@,
            0 < n.len() <= hay.len(),
            last == hay.len() - n.len(),
            0 <= i <= last + 1,
            forall|j: int| 0 <= j < i ==> #[trigger] hay@.subrange(j, j + n@.len()) != n@,
        decreases last + 1 - i,
    {
        let window = slice_chars(hay, i, i + n.len());
        if seq_eq(&window, &n) {
            return true;
        }
        i = i + 1;
    }
    assert forall|j: int| 0 <= j && j + n@.len() <= hay@.len() implies #[trigger] hay@.subrange(
        j,
        j + n@.len(),
    ) != n@ by {}
    false
}

// ------------------------------------------------------------ white space

/// `char::is_whitespace`: the Unicode `White_Space` property.
pub open spec fn is_white_space(c: char) -> bool {
    let u = c as u32;
    ||| 0x09 <= u <= 0x0D
    ||| u == 0x20
    ||| u == 0x85
    ||| u == 0xA0
    ||| u == 0x1680
    ||| 0x2000 <= u <= 0x200A
    ||| u == 0x2028
    ||| u == 0x2029
    ||| u == 0x202F
    ||| u == 0x205F
    ||| u == 0x3000
}

pub fn white_space(c: char) -> (r: bool)
    ensures
        r == is_white_space(c),
{
    let u = c as u32;
    (0x09 <= u && u <= 0x0D) || u == 0x20 || u == 0x85 || u == 0xA0 || u == 0x1680 || (0x2000
        <= u && u <= 0x200A) || u == 0x2028 || u == 0x2029 || u == 0x202F || u == 0x205F || u
        == 0x3000
}

/// Number of leading white-space characters of `s`.
pub open spec fn lead_ws(s: Seq<char>) -> nat
    decreases s.len(),
{
    if s.len() > 0 && is_white_space(s[0]) {
        1 + lead_ws(s.drop_first())
    } else {
        0
    }
}

/// Number of trailing white-space characters of `s`.
pub open spec fn trail_ws(s: Seq<char>) -> nat
    decreases s.len(),
{
    if s.len() > 0 && is_white_space(s.last()) {
        1 + trail_ws(s.drop_last())
    } else {
        0
    }
}

/// `str::trim`: `s` without leading and trailing white space.
pub open spec fn trim(s: Seq<char>) -> Seq<char> {
    let t = s.subrange(lead_ws(s) as int, s.len() as int);
    t.subrange(0, t.len() - trail_ws(t))
}

pub proof fn lemma_lead_ws(s: Seq<char>)
    ensures
        lead_ws(s) <= s.len(),
        forall|j: int| 0 <= j < lead_ws(s) ==> is_white_space(#[trigger] s[j]),
        lead_ws(s) < s.len() ==> !is_white_space(s[lead_ws(s) as int]),
    decreases s.len(),
{
    if s.len() > 0 && is_white_space(s[0]) {
        lemma_lead_ws(s.drop_first());
        assert forall|j: int| 0 <= j < lead_ws(s) implies is_white_space(#[trigger] s[j]) by {
            if j > 0 {
                assert(s[j] == s.drop_first()[j - 1]);
            }
        }
    }
}

pub proof fn lemma_trail_ws(s: Seq<char>)
    ensures
        trail_ws(s) <= s.len(),
        forall|j: int| s.len() - trail_ws(s) <= j < s.len() ==> is_white_space(#[trigger] s[j]),
        trail_ws(s) < s.len() ==> !is_white_space(s[s.len() - trail_ws(s) - 1]),
    decreases s.len(),
{
    if s.len() > 0 && is_white_space(s.last()) {
        lemma_trail_ws(s.drop_last());
        assert forall|j: int| s.len() - trail_ws(s) <= j < s.len() implies is_white_space(
            #[trigger] s[j],
        ) by {
            if j < s.len() - 1 {
                assert(s[j] == s.drop_last()[j]);
            }
        }
    }
}

/// Characterises `lead_ws` by the position of the first non-white-space.
pub proof fn lemma_lead_ws_is(s: Seq<char>, k: int)
    requires
        0 <= k <= s.len(),
        forall|j: int| 0 <= j < k ==> is_white_space(#[trigger] s[j]),
        k < s.len() ==> !is_white_space(s[k]),
    ensures
        lead_ws(s) == k,
    decreases s.len(),
{
    if k > 0 {
        assert(is_white_space(s[0]));
        assert forall|j: int| 0 <= j < k - 1 implies is_white_space(#[trigger] s.drop_first()[j]) by {
            assert(s.drop_first()[j] == s[j + 1]);
        }
        if k - 1 < s.len() - 1 {
            assert(s.drop_first()[k - 1] == s[k]);
        }
        lemma_lead_ws_is(s.drop_first(), k - 1);
    } else if s.len() > 0 {
        assert(!is_white_space(s[0]));
    }
}

/// Characterises `trail_ws` by the position of the last non-white-space.
pub proof fn lemma_trail_ws_is(s: Seq<char>, k: int)
    requires
        0 <= k <= s.len(),
        forall|j: int| s.len() - k <= j < s.len() ==> is_white_space(#[trigger] s[j]),
        k < s.len() ==> !is_white_space(s[s.len() - k - 1]),
    ensures
        trail_ws(s) == k,
    decreases s.len(),
{
    if k > 0 {
        assert(is_white_space(s[s.len() - 1]));
        assert forall|j: int| s.len() - 1 - (k - 1) <= j < s.len() - 1 implies is_white_space(
            #[trigger] s.drop_last()[j],
        ) by {
            assert(s.drop_last()[j] == s[j]);
        }
        if k - 1 < s.len() - 1 {
            assert(s.drop_last()[s.len() - 1 - (k - 1) - 1] == s[s.len() - k - 1]);
        }
        lemma_trail_ws_is(s.drop_last(), k - 1);
    } else if s.len() > 0 {
        assert(!is_white_space(s.last()));
    }
}

/// `str::trim` on a character vector.
pub fn trim_chars(s: &Vec<char>) -> (r: Vec<char>)
    ensures
        r@ == trim(s@),
{
    let n = s.len();
    let mut a: usize = 0;
    while a < n && white_space(s[a])
        invariant
            n == s.len(),
            0 <= a <= n,
            forall|j: int| 0 <= j < a ==> is_white_space(#[trigger] s@[j]),
        decreases n - a,
    {
        a = a + 1;
    }
    proof {
        lemma_lead_ws_is(s@, a as int);
    }
    let mut b: usize = n;
    while b > a && white_space(s[b - 1])
        invariant
            n == s.len(),
            0 <= a <= b <= n,
            forall|j: int| b <= j < n ==> is_white_space(#[trigger] s@[j]),
        decreases b,
    {
        b = b - 1;
    }
    let ghost t = s@.subrange(a as int, n as int);
    proof {
        assert forall|j: int| t.len() - (n - b) <= j < t.len() implies is_white_space(
            #[trigger] t[j],
        ) by {
            assert(t[j] == s@[j + a]);
        }
        if n - b < t.len() {
            assert(t[t.len() - (n - b) - 1] == s@[b - 1]);
        }
        lemma_trail_ws_is(t, (n - b) as int);
    }
    let r = slice_chars(s, a, b);
    assert(r@ =~= trim(s@));
    r
}

/// The characters `s[from..to]`.
pub fn slice_chars(s: &Vec<char>, from: usize, to: usize) -> (r: Vec<char>)
    requires
        from <= to <= s.len(),
    ensures
        r@ == s@.subrange(from as int, to as int),
{
    let mut r: Vec<char> = Vec::new();
    let mut i = from;
    while i < to
        invariant
            from <= i <= to <= s.len(),
            r@ == s@.subrange(from as int, i as int),
        decreases to - i,
    {
        r.push(s[i]);
        i = i + 1;
        assert(s@.subrange(from as int, i as int) == s@.subrange(from as int, i - 1).push(
            s@[i - 1],
        ));
    }
    r
}

// ------------------------------------------------------------------ ASCII

pub open spec fn is_ascii_digit(c: char) -> bool {
    '0' <= c <= '9'
}

pub open spec fn is_ascii_upper(c: char) -> bool {
    'A' <= c <= 'Z'
}

pub open spec fn is_ascii_lower_letter(c: char) -> bool {
    'a' <= c <= 'z'
}

/// `char::to_ascii_lowercase`.
pub open spec fn ascii_lower_char(c: char) -> char {
    if is_ascii_upper(c) {
        ((c as u32) + 32) as char
    } else {
        c
    }
}

/// Every character passed through `char::to_ascii_lowercase`.
pub open spec fn ascii_lower(s: Seq<char>) -> Seq<char> {
    s.map_values(|c: char| ascii_lower_char(c))
}

pub fn to_ascii_lower(c: char) -> (r: char)
    ensures
        r == ascii_lower_char(c),
{
    if 'A' <= c && c <= 'Z' {
        let u = (c as u32) + 32;
        proof {
            assert(0x61 <= u <= 0x7A);
        }
        char_from_ascii(u as u8)
    } else {
        c
    }
}

/// The character with ASCII code `b`.
pub fn char_from_ascii(b: u8) -> (c: char)
    requires
        b < 128,
    ensures
        c == (b as u32) as char,
        c as u32 == b as u32,
{
    b as char
}

pub fn ascii_lower_chars(s: &Vec<char>) -> (r: Vec<char>)
    ensures
        r@ == ascii_lower(s@),
{
    let mut r: Vec<char> = Vec::new();
    let mut i: usize = 0;
    while i < s.len()
        invariant
            0 <= i <= s.len(),
            r@ == ascii_lower(s@.subrange(0, i as int)),
        decreases s.len() - i,
    {
        let c = to_ascii_lower(s[i]);
        r.push(c);
        i = i + 1;
        assert(ascii_lower(s@.subrange(0, i as int)) =~= ascii_lower(
            s@.subrange(0, i - 1),
        ).push(ascii_lower_char(s@[i - 1])));
    }
    assert(s@.subrange(0, s.len() as int) =~= s@);
    r
}

pub fn ascii_digit(c: char) -> (r: bool)
    ensures
        r == is_ascii_digit(c),
{
    '0' <= c && c <= '9'
}

/// Whether every character of `s` is an ASCII digit.
pub open spec fn all_digits(s: Seq<char>) -> bool {
    forall|i: int| 0 <= i < s.len() ==> is_ascii_digit(#[trigger] s[i])
}

pub fn all_ascii_digits(s: &Vec<char>) -> (r: bool)
    ensures
        r == all_digits(s@),
{
    let mut i: usize = 0;
    while i < s.len()
        invariant
            0 <= i <= s.len(),
            forall|j: int| 0 <= j < i ==> is_ascii_digit(#[trigger] s@[j]),
        decreases s.len() - i,
    {
        if !ascii_digit(s[i]) {
            return false;
        }
        i = i + 1;
    }
    true
}

// --------------------------------------------------------------- numbers

pub open spec fn digit_value(c: char) -> int {
    (c as u32) as int - 48
}

/// The number written by the decimal digits `s` (most significant first).
pub open spec fn digits_value(s: Seq<char>) -> int
    decreases s.len(),
{
    if s.len() == 0 {
        0
    } else {
        digits_value(s.drop_last()) * 10 + digit_value(s.last())
    }
}

pub proof fn lemma_digits_value_nonneg(s: Seq<char>)
    requires
        all_digits(s),
    ensures
        digits_value(s) >= 0,
    decreases s.len(),
{
    if s.len() > 0 {
        assert(all_digits(s.drop_last())) by {
            assert forall|i: int| 0 <= i < s.drop_last().len() implies is_ascii_digit(
                #[trigger] s.drop_last()[i],
            ) by {
                assert(s.drop_last()[i] == s[i]);
            }
        }
        lemma_digits_value_nonneg(s.drop_last());
        assert(is_ascii_digit(s[s.len() - 1]));
    }
}

/// `<uN as FromStr>::from_str` for an unsigned type whose largest value is
/// `max`: an optional `+` sign followed by one or more ASCII digits whose
/// value does not exceed `max`.
pub open spec fn parse_unsigned(s: Seq<char>, max: int) -> Option<int> {
    let body = if s.len() > 0 && s[0] == '+' {
        s.drop_first()
    } else {
        s
    };
    if body.len() > 0 && all_digits(body) && digits_value(body) <= max {
        Some(digits_value(body))
    } else {
        None
    }
}

/// A parsed unsigned number lies between zero and the type's largest value.
pub proof fn lemma_parse_unsigned_bounds(s: Seq<char>, max: int)
    ensures
        parse_unsigned(s, max) matches Some(v) ==> 0 <= v <= max,
{
    let body = if s.len() > 0 && s[0] == '+' {
        s.drop_first()
    } else {
        s
    };
    if body.len() > 0 && all_digits(body) {
        lemma_digits_value_nonneg(body);
    }
}

/// Reads the digits `s[from..to]` as a number, or `None` past `max`.
pub fn digits_upto(s: &Vec<char>, from: usize, to: usize, max: u64) -> (r: Option<u64>)
    requires
        from <= to <= s.len(),
        all_digits(s@.subrange(from as int, to as int)),
    ensures
        match r {
            Some(v) => v == digits_value(s@.subrange(from as int, to as int)) && v <= max,
            None => digits_value(s@.subrange(from as int, to as int)) > max,
        },
{
    let mut acc: u64 = 0;
    let mut i = from;
    while i < to
        invariant
            from <= i <= to <= s.len(),
            all_digits(s@.subrange(from as int, to as int)),
            acc == digits_value(s@.subrange(from as int, i as int)),
            acc <= max,
        decreases to - i,
    {
        let ghost pre = s@.subrange(from as int, i as int);
        let ghost nxt = s@.subrange(from as int, i + 1);
        assert(nxt.drop_last() =~= pre);
        assert(s@.subrange(from as int, to as int)[i - from] == s@[i as int]);
        assert(is_ascii_digit(s@.subrange(from as int, to as int)[i - from]));
        let d = (s[i] as u32 - 48) as u64;
        assert(d == digit_value(s@[i as int]));
        assert(0 <= d <= 9);
        if d > max || acc > (max - d) / 10 {
            proof {
                assert(acc * 10 + d > max) by (nonlinear_arith)
                    requires
                        d > max || acc > (max - d) / 10,
                        d <= 9,
                        acc >= 0,
                ;
                lemma_digits_grow(s@.subrange(from as int, to as int), (i + 1 - from) as int);
                assert(s@.subrange(from as int, to as int).subrange(0, (i + 1 - from) as int)
                    =~= nxt);
            }
            return None;
        }
        proof {
            assert(acc * 10 + d <= max) by (nonlinear_arith)
                requires
                    acc <= (max - d) / 10,
                    d <= max,
            ;
        }
        acc = acc * 10 + d;
        i = i + 1;
    }
    assert(s@.subrange(from as int, to as int) =~= s@.subrange(from as int, i as int));
    Some(acc)
}

/// The value of a digit string is at least the value of any of its prefixes.
pub proof fn lemma_digits_grow(s: Seq<char>, k: int)
    requires
        all_digits(s),
        0 <= k <= s.len(),
    ensures
        digits_value(s.subrange(0, k)) <= digits_value(s),
    decreases s.len() - k,
{
    lemma_digits_value_nonneg(s);
    if k < s.len() {
        lemma_digits_grow(s, k + 1);
        let p = s.subrange(0, k + 1);
        assert(p.drop_last() =~= s.subrange(0, k));
        assert(all_digits(p)) by {
            assert forall|i: int| 0 <= i < p.len() implies is_ascii_digit(#[trigger] p[i]) by {
                assert(p[i] == s[i]);
            }
        }
        assert(all_digits(p.drop_last())) by {
            assert forall|i: int| 0 <= i < p.drop_last().len() implies is_ascii_digit(
                #[trigger] p.drop_last()[i],
            ) by {
                assert(p.drop_last()[i] == s[i]);
            }
        }
        lemma_digits_value_nonneg(p.drop_last());
        assert(is_ascii_digit(p.last()));
    } else {
        assert(s.subrange(0, k) =~= s);
    }
}

/// `str::parse::<uN>` on `s[from..to]` for an unsigned type with largest
/// value `max`.
pub fn parse_unsigned_range(s: &Vec<char>, from: usize, to: usize, max: u64) -> (r: Option<u64>)
    requires
        from <= to <= s.len(),
    ensures
        match parse_unsigned(s@.subrange(from as int, to as int), max as int) {
            Some(v) => r == Some(v as u64),
            None => r is None,
        },
        r matches Some(v) ==> v <= max && parse_unsigned(
            s@.subrange(from as int, to as int),
            max as int,
        ) == Some(v as int),
{
    proof {
        lemma_parse_unsigned_bounds(s@.subrange(from as int, to as int), max as int);
    }
    let ghost t = s@.subrange(from as int, to as int);
    assert(t.len() > 0 ==> t[0] == s@[from as int]);
    let mut a = from;
    if a < to && s[a] == '+' {
        a = a + 1;
    }
    let ghost body = if t.len() > 0 && t[0] == '+' {
        t.drop_first()
    } else {
        t
    };
    assert(body =~= s@.subrange(a as int, to as int));
    if a == to {
        return None;
    }
    let mut i = a;
    while i < to
        invariant
            a <= i <= to <= s.len(),
            body == s@.subrange(a as int, to as int),
            t == s@.subrange(from as int, to as int),
            body == (if t.len() > 0 && t[0] == '+' {
                t.drop_first()
            } else {
                t
            }),
            forall|j: int| a <= j < i ==> is_ascii_digit(#[trigger] s@[j]),
        decreases to - i,
    {
        if !ascii_digit(s[i]) {
            assert(body[i - a] == s@[i as int]);
            assert(!is_ascii_digit(body[i - a]));
            assert(!all_digits(body));
            return None;
        }
        i = i + 1;
    }
    assert(all_digits(body)) by {
        assert forall|j: int| 0 <= j < body.len() implies is_ascii_digit(#[trigger] body[j]) by {
            assert(body[j] == s@[j + a]);
        }
    }
    digits_upto(s, a, to, max)
}

/// `str::parse::<u64>` on a whole character vector.
pub fn parse_u64(s: &Vec<char>) -> (r: Option<u64>)
    ensures
        match parse_unsigned(s@, u64::MAX as int) {
            Some(v) => r == Some(v as u64),
            None => r is None,
        },
{
    assert(s@.subrange(0, s.len() as int) =~= s@);
    parse_unsigned_range(s, 0, s.len(), u64::MAX)
}

/// The ASCII digit for `d` (`0 <= d < 10`).
pub open spec fn digit_char(d: int) -> char {
    ((d + 48) as u32) as char
}

/// Decimal text of `n`, as produced by `Display` for unsigned integers.
pub open spec fn decimal(n: nat) -> Seq<char>
    decreases n,
{
    if n < 10 {
        seq![digit_char(n as int)]
    } else {
        decimal(n / 10).push(digit_char((n % 10) as int))
    }
}

/// The decimal text of `n` is a nonempty run of digits that reads as `n`.
pub proof fn lemma_decimal_reads_back(n: nat)
    ensures
        decimal(n).len() > 0,
        all_digits(decimal(n)),
        digits_value(decimal(n)) == n,
    decreases n,
{
    if n < 10 {
        let s = decimal(n);
        assert(s.drop_last() =~= Seq::<char>::empty());
        assert(digit_char(n as int) as u32 == n + 48);
        assert(digit_value(s.last()) == n);
        assert(digits_value(s.drop_last()) == 0);
        assert(digits_value(s) == digits_value(s.drop_last()) * 10 + digit_value(s.last()));
        assert(is_ascii_digit(s[0]));
    } else {
        lemma_decimal_reads_back(n / 10);
        let p = decimal(n / 10);
        let s = decimal(n);
        assert(s.drop_last() =~= p);
        assert forall|i: int| 0 <= i < s.len() implies is_ascii_digit(#[trigger] s[i]) by {
            if i < p.len() {
                assert(s[i] == p[i]);
            }
        }
        assert(n == (n / 10) * 10 + n % 10);
        assert(digit_char((n % 10) as int) as u32 == n % 10 + 48);
        assert(digit_value(s.last()) == n % 10);
        assert(digits_value(s) == digits_value(s.drop_last()) * 10 + digit_value(s.last()));
    }
}

/// Appends the decimal text of `n` to `out`.
pub fn push_decimal(out: &mut Vec<char>, n: u64)
    ensures
        final(out)@ == old(out)@ + decimal(n as nat),
    decreases n,
{
    if n >= 10 {
        push_decimal(out, n / 10);
    }
    let d = (n % 10) as u8;
    let c = char_from_ascii(d + 48);
    out.push(c);
    proof {
        assert(c == digit_char((n % 10) as int));
        if n >= 10 {
            assert(decimal(n as nat) == decimal((n / 10) as nat).push(digit_char((n % 10) as int)));
        } else {
            assert(decimal(n as nat) == seq![digit_char(n as int)]);
        }
    }
}

/// Appends the decimal text of `n` padded with zeros to two digits.
pub fn push_two_digits(out: &mut Vec<char>, n: u64)
    requires
        n < 100,
    ensures
        final(out)@ == old(out)@ + two_digits(n as int),
{
    let hi = char_from_ascii((n / 10) as u8 + 48);
    let lo = char_from_ascii((n % 10) as u8 + 48);
    out.push(hi);
    out.push(lo);
}

/// `format!("{:02}", n)` for `0 <= n < 100`.
pub open spec fn two_digits(n: int) -> Seq<char> {
    seq![digit_char(n / 10), digit_char(n % 10)]
}

} // verus!
