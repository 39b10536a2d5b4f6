//! Calendar arithmetic on the proleptic Gregorian calendar and the date
//! shapes found in export timestamps (`YYYY-MM-DD`, `YYYY-MM`).
use vstd::prelude::*;
use crate::text::{
    chars_of, find_from, is_digit, is_digit_char, lemma_find_from_bounds, push_char, push_str,
    string_from_range, trim, trim_seq,
};
use crate::numfmt::{
    all_digits, decimal, lemma_padded_parses, pad_left, parse_i64_range, parse_i64_spec, zero_padded,
};
use crate::messages::date_text;

verus! {

// ---------------------------------------------------------------------------
// Day ordinals
// ---------------------------------------------------------------------------

/// Days since 1970-01-01 of year `y`, month `m`, day `d` (Hinnant's
/// days-from-civil, with the truncating division of `i64`).
pub open spec fn ordinal_from_ymd(y: int, m: int, d: int) -> int {
    let y2 = if m <= 2 {
        y - 1
    } else {
        y
    };
    let era = if y2 >= 0 {
        y2 / 400
    } else {
        -((399 - y2) / 400)
    };
    let yoe = y2 - era * 400;
    let mp = (m + 9) % 12;
    let doy = (153 * mp + 2) / 5 + d - 1;
    let doe = yoe * 365 + yoe / 4 - yoe / 100 + doy;
    era * 146097 + doe - 719468
}

/// The first three `-`-separated pieces of `s`, when it has three.
pub open spec fn dash_pieces(s: Seq<char>) -> Option<(Seq<char>, Seq<char>, Seq<char>)> {
    let i1 = find_from(s, '-', 0);
    if i1 >= s.len() {
        None
    } else {
        let i2 = find_from(s, '-', i1 + 1);
        if i2 >= s.len() {
            None
        } else {
            let i3 = find_from(s, '-', i2 + 1);
            Some((s.subrange(0, i1), s.subrange(i1 + 1, i2), s.subrange(i2 + 1, i3)))
        }
    }
}

/// Years whose day count stays inside `i64`.
pub open spec fn year_in_range(y: int) -> bool {
    -25000000000000000 <= y && y <= 25000000000000000
}

/// `YYYY-MM-DD` (each piece an integer, month 1..=12, day 1..=31) to days
/// since 1970-01-01.
pub open spec fn day_ordinal_spec(s: Seq<char>) -> Option<int> {
    match dash_pieces(s) {
        None => None,
        Some(p) => match (parse_i64_spec(p.0), parse_i64_spec(p.1), parse_i64_spec(p.2)) {
            (Some(y), Some(m), Some(d)) => {
                if 1 <= m <= 12 && 1 <= d <= 31 && year_in_range(y as int) {
                    Some(ordinal_from_ymd(y as int, m as int, d as int))
                } else {
                    None
                }
            },
            _ => None,
        },
    }
}

pub fn find_char(v: &Vec<char>, c: char, from: usize) -> (r: usize)
    requires
        from <= v.len(),
    ensures
        r as int == find_from(v@, c, from as int),
        from <= r <= v.len(),
{
    let mut i = from;
    while i < v.len() && v[i] != c
        invariant
            from <= i <= v.len(),
            find_from(v@, c, from as int) == find_from(v@, c, i as int),
        decreases v.len() - i,
    {
        i += 1;
    }
    i
}

pub(crate) fn ordinal_from_parts(y: i64, m: i64, d: i64) -> (r: i64)
    requires
        1 <= m <= 12,
        1 <= d <= 31,
        year_in_range(y as int),
    ensures
        r as int == ordinal_from_ymd(y as int, m as int, d as int),
{
    let y2: i64 = if m <= 2 {
        y - 1
    } else {
        y
    };
    let era: i64 = if y2 >= 0 {
        y2 / 400
    } else {
        -((399 - y2) / 400)
    };
    assert(-62500000000001 <= era <= 62500000000001);
    assert(0 <= y2 - era * 400 < 400) by (nonlinear_arith)
        requires
            era == (if y2 >= 0 {
                y2 / 400
            } else {
                -((399 - y2) / 400)
            }),
    ;
    let yoe: i64 = y2 - era * 400;
    let mp: i64 = (m + 9) % 12;
    let doy: i64 = (153 * mp + 2) / 5 + d - 1;
    let doe: i64 = yoe * 365 + yoe / 4 - yoe / 100 + doy;
    assert(-9131100000000000000 <= era * 146097 <= 9131100000000000000) by (nonlinear_arith)
        requires
            -62500000000001 <= era <= 62500000000001,
    ;
    era * 146097 + doe - 719468
}

/// Days since 1970-01-01 for a `YYYY-MM-DD` string (`None` when it is not
/// one, or when the year lies beyond 25 quadrillion either way, where the
/// day count would leave `i64`).
pub fn day_ordinal(date: &str) -> (r: Option<i64>)
    ensures
        match r {
            Some(x) => day_ordinal_spec(date@) == Some(x as int) && -9132000000000000000 <= x
                <= 9132000000000000000,
            None => day_ordinal_spec(date@) is None,
        },
{
    let v = chars_of(date);
    let i1 = find_char(&v, '-', 0);
    if i1 >= v.len() {
        return None;
    }
    let i2 = find_char(&v, '-', i1 + 1);
    if i2 >= v.len() {
        return None;
    }
    let i3 = find_char(&v, '-', i2 + 1);
    let y = match parse_i64_range(&v, 0, i1) {
        Some(y) => y,
        None => return None,
    };
    let m = match parse_i64_range(&v, i1 + 1, i2) {
        Some(m) => m,
        None => return None,
    };
    let d = match parse_i64_range(&v, i2 + 1, i3) {
        Some(d) => d,
        None => return None,
    };
    if !(1 <= m && m <= 12 && 1 <= d && d <= 31) {
        return None;
    }
    if !(-25000000000000000 <= y && y <= 25000000000000000) {
        return None;
    }
    proof {
        lemma_ordinal_bounds(y as int, m as int, d as int);
    }
    Some(ordinal_from_parts(y, m, d))
}

/// Euclidean remainder of `x` by 7.
pub open spec fn mod7(x: int) -> int {
    ((x % 7) + 7) % 7
}

/// Weekday of a date key, Monday = 0 .. Sunday = 6 (1970-01-01 was a
/// Thursday); an unparsable key counts as that Thursday.
pub open spec fn weekday_spec(key: Seq<char>) -> int {
    let ord = match day_ordinal_spec(key) {
        Some(o) => o,
        None => 0,
    };
    mod7(ord + 3)
}

/// The Euclidean remainder of `x` by 7.
pub(crate) fn euclid_mod7(x: i64) -> (r: i64)
    requires
        x > i64::MIN,
    ensures
        r == mod7(x as int),
        0 <= r < 7,
{
    if x >= 0 {
        x % 7
    } else {
        let q = (-x) % 7;
        assert(q == (-x) % 7);
        if q == 0 {
            assert(x % 7 == 0) by (nonlinear_arith)
                requires
                    (-x) % 7 == 0,
                    x < 0,
            ;
            0
        } else {
            assert(x % 7 == 7 - q) by (nonlinear_arith)
                requires
                    q == (-x) % 7,
                    q != 0,
                    x < 0,
            ;
            7 - q
        }
    }
}

pub fn weekday_of(key: &str) -> (r: u32)
    ensures
        r as int == weekday_spec(key@),
        r < 7,
{
    let ord = match day_ordinal(key) {
        Some(o) => o,
        None => 0,
    };
    let r = euclid_mod7(ord + 3);
    r as u32
}

pub proof fn lemma_ordinal_bounds(y: int, m: int, d: int)
    requires
        1 <= m <= 12,
        1 <= d <= 31,
        year_in_range(y),
    ensures
        -9132000000000000000 <= ordinal_from_ymd(y, m, d) <= 9132000000000000000,
{
    let y2 = if m <= 2 {
        y - 1
    } else {
        y
    };
    let era = if y2 >= 0 {
        y2 / 400
    } else {
        -((399 - y2) / 400)
    };
    assert(-62500000000001 <= era <= 62500000000001);
    assert(0 <= y2 - era * 400 < 400) by (nonlinear_arith)
        requires
            era == (if y2 >= 0 {
                y2 / 400
            } else {
                -((399 - y2) / 400)
            }),
    ;
    assert(-9131100000000000000 <= era * 146097 <= 9131100000000000000) by (nonlinear_arith)
        requires
            -62500000000001 <= era <= 62500000000001,
    ;
}

// ---------------------------------------------------------------------------
// Civil dates from day counts
// ---------------------------------------------------------------------------

/// Gregorian leap year.
pub open spec fn leap(y: int) -> bool {
    (y % 4 == 0 && y % 100 != 0) || y % 400 == 0
}

pub fn is_leap(y: u64) -> (r: bool)
    ensures
        r == leap(y as int),
{
    (y % 4 == 0 && y % 100 != 0) || y % 400 == 0
}

pub open spec fn year_len(y: int) -> int {
    if leap(y) {
        366
    } else {
        365
    }
}

/// Days in month `m` (1..=12) of year `y`.
pub open spec fn month_len(y: int, m: int) -> int {
    if m == 2 {
        if leap(y) {
            29
        } else {
            28
        }
    } else if m == 4 || m == 6 || m == 9 || m == 11 {
        30
    } else {
        31
    }
}

/// Month and day for day-of-year `days` counted from month `month`.
pub open spec fn month_day(days: int, y: int, month: int) -> (int, int)
    decreases 12 - month,
{
    if month >= 12 || days < month_len(y, month) {
        (month, days + 1)
    } else {
        month_day(days - month_len(y, month), y, month + 1)
    }
}

/// `(year, month, day)` of the day `days` after January 1st of `year`.
pub open spec fn civil_from(days: int, year: int) -> (int, int, int)
    decreases days,
{
    if days < year_len(year) || days < 0 {
        let md = month_day(days, year, 1);
        (year, md.0, md.1)
    } else {
        civil_from(days - year_len(year), year + 1)
    }
}

fn month_length(y: u64, m: u64) -> (r: u64)
    requires
        1 <= m <= 12,
    ensures
        r as int == month_len(y as int, m as int),
{
    if m == 2 {
        if is_leap(y) {
            29
        } else {
            28
        }
    } else if m == 4 || m == 6 || m == 9 || m == 11 {
        30
    } else {
        31
    }
}

fn year_length(y: u64) -> (r: u64)
    ensures
        r as int == year_len(y as int),
{
    if is_leap(y) {
        366
    } else {
        365
    }
}

/// Calendar date `(year, month, day)` of the day `days` after 1970-01-01.
pub fn days_to_ymd(days: u64) -> (r: (u64, u64, u64))
    ensures
        (r.0 as int, r.1 as int, r.2 as int) == civil_from(days as int, 1970),
{
    let mut rem = days;
    let mut year: u64 = 1970;
    while rem >= year_length(year)
        invariant
            civil_from(days as int, 1970) == civil_from(rem as int, year as int),
            year >= 1970,
            (year - 1970) * 365 <= days - rem,
            rem <= days,
        decreases rem,
    {
        rem -= year_length(year);
        year += 1;
    }
    let mut month: u64 = 1;
    while month < 12 && rem >= month_length(year, month)
        invariant
            1 <= month <= 12,
            rem < 366,
            civil_from(days as int, 1970) == ({
                let md = month_day(rem as int, year as int, month as int);
                (year as int, md.0, md.1)
            }),
        decreases 12 - month,
    {
        rem -= month_length(year, month);
        month += 1;
    }
    (year, month, rem + 1)
}

/// `YYYY-MM-DDTHH:MM:SSZ` for `secs` seconds after the Unix epoch.
pub open spec fn iso8601_spec(secs: nat) -> Seq<char> {
    let ymd = civil_from((secs / 86400) as int, 1970);
    pad_left(decimal(ymd.0 as nat), 4, '0') + seq!['-'] + pad_left(decimal(ymd.1 as nat), 2, '0')
        + seq!['-'] + pad_left(decimal(ymd.2 as nat), 2, '0') + seq!['T'] + pad_left(
        decimal((secs / 3600) % 24),
        2,
        '0',
    ) + seq![':'] + pad_left(decimal((secs / 60) % 60), 2, '0') + seq![':'] + pad_left(
        decimal(secs % 60),
        2,
        '0',
    ) + seq!['Z']
}

pub fn iso8601_from_secs(secs: u64) -> (out: String)
    ensures
        out@ == iso8601_spec(secs as nat),
{
    let (y, m, d) = days_to_ymd(secs / 86400);
    let mut out = zero_padded(y, 4);
    push_char(&mut out, '-');
    push_str(&mut out, zero_padded(m, 2).as_str());
    push_char(&mut out, '-');
    push_str(&mut out, zero_padded(d, 2).as_str());
    push_char(&mut out, 'T');
    push_str(&mut out, zero_padded((secs / 3600) % 24, 2).as_str());
    push_char(&mut out, ':');
    push_str(&mut out, zero_padded((secs / 60) % 60, 2).as_str());
    push_char(&mut out, ':');
    push_str(&mut out, zero_padded(secs % 60, 2).as_str());
    push_char(&mut out, 'Z');
    assert(out@ =~= iso8601_spec(secs as nat));
    out
}

/// Sakamoto's day-of-week, Monday = 0 .. Sunday = 6.
pub open spec fn dow_table(m: int) -> int {
    if m == 1 {
        0
    } else if m == 2 {
        3
    } else if m == 3 {
        2
    } else if m == 4 {
        5
    } else if m == 5 {
        0
    } else if m == 6 {
        3
    } else if m == 7 {
        5
    } else if m == 8 {
        1
    } else if m == 9 {
        4
    } else if m == 10 {
        6
    } else if m == 11 {
        2
    } else {
        4
    }
}

pub open spec fn day_of_week_spec(year: int, month: int, day: int) -> int {
    let y = if month < 3 {
        year - 1
    } else {
        year
    };
    let dow = (y + y / 4 - y / 100 + y / 400 + dow_table(month) + day) % 7;
    if dow == 0 {
        6
    } else {
        dow - 1
    }
}

/// The sums of the weekday formula stay within `u32` (and January and
/// February do not fall before year 0).
pub open spec fn weekday_sums_fit(year: int, month: int, day: int) -> bool {
    let y = if month < 3 {
        year - 1
    } else {
        year
    };
    &&& y >= 0
    &&& y + y / 4 <= u32::MAX
    &&& y + y / 4 - y / 100 + y / 400 + dow_table(month) + day <= u32::MAX
}

/// Whether `day_of_week` can be computed for these parts.
pub fn weekday_computable(year: u32, month: u32, day: u32) -> (r: bool)
    ensures
        r == (1 <= month <= 12 && weekday_sums_fit(year as int, month as int, day as int)),
{
    if month < 1 || month > 12 {
        return false;
    }
    if month < 3 && year == 0 {
        return false;
    }
    let y: u64 = if month < 3 {
        year as u64 - 1
    } else {
        year as u64
    };
    let t: [u64; 12] = [0, 3, 2, 5, 0, 3, 5, 1, 4, 6, 2, 4];
    assert(t@[(month - 1) as int] == dow_table(month as int));
    let a = y + y / 4;
    let b = a - y / 100 + y / 400 + t[(month - 1) as usize] + day as u64;
    a <= 0xFFFF_FFFF && b <= 0xFFFF_FFFF
}

pub fn day_of_week(year: u32, month: u32, day: u32) -> (r: u32)
    requires
        1 <= month <= 12,
        weekday_sums_fit(year as int, month as int, day as int),
    ensures
        r as int == day_of_week_spec(year as int, month as int, day as int),
        r < 7,
{
    let t: [u32; 12] = [0, 3, 2, 5, 0, 3, 5, 1, 4, 6, 2, 4];
    let y = if month < 3 {
        year - 1
    } else {
        year
    };
    let dow = (y + y / 4 - y / 100 + y / 400 + t[(month - 1) as usize] + day) % 7;
    if dow == 0 {
        6
    } else {
        dow - 1
    }
}

// ---------------------------------------------------------------------------
// Date keys in timestamps
// ---------------------------------------------------------------------------

/// `s` starts with the ten characters `DDDD-DD-DD` (D an ASCII digit).
pub open spec fn date_shaped(s: Seq<char>) -> bool {
    s.len() >= 10 && is_digit_char(s[0]) && is_digit_char(s[1]) && is_digit_char(s[2])
        && is_digit_char(s[3]) && s[4] == '-' && is_digit_char(s[5]) && is_digit_char(s[6])
        && s[7] == '-' && is_digit_char(s[8]) && is_digit_char(s[9])
}

/// The leading `YYYY-MM-DD` of a timestamp, when it has one.
pub open spec fn date_key_spec(s: Seq<char>) -> Option<Seq<char>> {
    if date_shaped(s) {
        Some(s.take(10))
    } else {
        None
    }
}

fn is_date_shaped(v: &Vec<char>) -> (r: bool)
    ensures
        r == date_shaped(v@),
{
    v.len() >= 10 && is_digit(v[0]) && is_digit(v[1]) && is_digit(v[2]) && is_digit(v[3])
        && v[4] == '-' && is_digit(v[5]) && is_digit(v[6]) && v[7] == '-' && is_digit(v[8])
        && is_digit(v[9])
}

/// The `YYYY-MM-DD` prefix of a timestamp.
pub fn extract_date_key(timestamp: &str) -> (r: Option<String>)
    ensures
        match r {
            Some(k) => date_key_spec(timestamp@) == Some(k@),
            None => date_key_spec(timestamp@) is None,
        },
{
    let v = chars_of(timestamp);
    if is_date_shaped(&v) {
        let k = string_from_range(&v, 0, 10);
        assert(k@ =~= timestamp@.take(10));
        Some(k)
    } else {
        None
    }
}

/// Same check under its other name in the message loaders.
pub fn parse_date_key(text: &str) -> (r: Option<String>)
    ensures
        match r {
            Some(k) => date_key_spec(text@) == Some(k@),
            None => date_key_spec(text@) is None,
        },
{
    extract_date_key(text)
}

/// A date bound typed into a filter: its trimmed `YYYY-MM-DD` prefix, or
/// nothing for blank or malformed input.
pub open spec fn date_filter_spec(raw: Seq<char>) -> Option<Seq<char>> {
    let t = trim_seq(raw);
    if t.len() == 0 {
        None
    } else {
        date_key_spec(t)
    }
}

pub fn normalize_date_filter(raw: &str) -> (r: Option<String>)
    ensures
        match r {
            Some(k) => date_filter_spec(raw@) == Some(k@),
            None => date_filter_spec(raw@) is None,
        },
{
    let t = trim(raw);
    extract_date_key(t.as_str())
}

/// `YYYY?MM` with `?` one of `-`, `/`, `.` and month 01..=12, rendered as
/// `YYYY-MM`.
pub open spec fn year_month_spec(s: Seq<char>) -> Option<Seq<char>> {
    if s.len() >= 7 && is_digit_char(s[0]) && is_digit_char(s[1]) && is_digit_char(s[2])
        && is_digit_char(s[3]) && (s[4] == '-' || s[4] == '/' || s[4] == '.') && is_digit_char(
        s[5],
    ) && is_digit_char(s[6]) && ((s[5] == '0' && s[6] != '0') || (s[5] == '1' && (s[6] == '0'
        || s[6] == '1' || s[6] == '2'))) {
        Some(s.take(4) + seq!['-'] + s.subrange(5, 7))
    } else {
        None
    }
}

pub fn parse_year_month(text: &str) -> (r: Option<String>)
    ensures
        match r {
            Some(k) => year_month_spec(text@) == Some(k@),
            None => year_month_spec(text@) is None,
        },
{
    let v = chars_of(text);
    if v.len() >= 7 && is_digit(v[0]) && is_digit(v[1]) && is_digit(v[2]) && is_digit(v[3]) && (
    v[4] == '-' || v[4] == '/' || v[4] == '.') && is_digit(v[5]) && is_digit(v[6]) && ((v[5]
        == '0' && v[6] != '0') || (v[5] == '1' && (v[6] == '0' || v[6] == '1' || v[6] == '2'))) {
        let mut out = string_from_range(&v, 0, 4);
        push_char(&mut out, '-');
        push_char(&mut out, v[5]);
        push_char(&mut out, v[6]);
        assert(out@ =~= text@.take(4) + seq!['-'] + text@.subrange(5, 7));
        Some(out)
    } else {
        None
    }
}

/// Index of the first character at or after `i` that is not `"`.
pub open spec fn skip_quotes_from(s: Seq<char>, i: int) -> int
    decreases s.len() - i,
{
    if 0 <= i < s.len() && s[i] == '"' {
        skip_quotes_from(s, i + 1)
    } else {
        i
    }
}

/// One past the last character before `j` that is not `"`, not below `lo`.
pub open spec fn back_quotes_from(s: Seq<char>, lo: int, j: int) -> int
    decreases j - lo,
{
    if lo < j && j <= s.len() && s[j - 1] == '"' {
        back_quotes_from(s, lo, j - 1)
    } else {
        j
    }
}

/// `s.trim_matches('"')`.
pub open spec fn unquote_seq(s: Seq<char>) -> Seq<char> {
    let a = skip_quotes_from(s, 0);
    s.subrange(a, back_quotes_from(s, a, s.len() as int))
}

/// The first ten characters of a trimmed, unquoted ISO timestamp: the
/// date part of values Discord sometimes double-quotes inside strings.
pub open spec fn normalize_iso_spec(s: Seq<char>) -> Seq<char> {
    let u = unquote_seq(trim_seq(s));
    if u.len() <= 10 {
        u
    } else {
        u.take(10)
    }
}

/// The characters of `s` trimmed and then stripped of surrounding `"`.
pub fn unquoted_chars(s: &str) -> (r: Vec<char>)
    ensures
        r@ == unquote_seq(trim_seq(s@)),
{
    let t = trim(s);
    let v = chars_of(t.as_str());
    let mut a: usize = 0;
    while a < v.len() && v[a] == '"'
        invariant
            a <= v.len(),
            skip_quotes_from(v@, 0) == skip_quotes_from(v@, a as int),
        decreases v.len() - a,
    {
        a += 1;
    }
    let mut b: usize = v.len();
    while a < b && v[b - 1] == '"'
        invariant
            a <= b <= v.len(),
            back_quotes_from(v@, a as int, v@.len() as int) == back_quotes_from(
                v@,
                a as int,
                b as int,
            ),
        decreases b - a,
    {
        b -= 1;
    }
    let mut out: Vec<char> = Vec::new();
    let mut i = a;
    while i < b
        invariant
            a <= i <= b <= v.len(),
            out@ == v@.subrange(a as int, i as int),
        decreases b - i,
    {
        out.push(v[i]);
        i += 1;
        assert(out@ =~= v@.subrange(a as int, i as int));
    }
    out
}

pub fn normalize_iso(s: &str) -> (out: String)
    ensures
        out@ == normalize_iso_spec(s@),
{
    let u = unquoted_chars(s);
    let end = if u.len() > 10 {
        10
    } else {
        u.len()
    };
    let out = string_from_range(&u, 0, end);
    assert(out@ =~= normalize_iso_spec(s@));
    out
}

/// The day count written with the shifted year's multiples of 4, 100 and
/// 400 in place of eras.
proof fn lemma_ordinal_by_year(y2: int, m: int, d: int)
    requires
        y2 >= 0,
    ensures
        ({
            let era = y2 / 400;
            let yoe = y2 - era * 400;
            let mp = (m + 9) % 12;
            let doy = (153 * mp + 2) / 5 + d - 1;
            era * 146097 + (yoe * 365 + yoe / 4 - yoe / 100 + doy) - 719468
                == 365 * y2 + y2 / 4 - y2 / 100 + y2 / 400 + doy - 719468
        }),
{
    let era = y2 / 400;
    let yoe = y2 - era * 400;
    assert(0 <= yoe < 400 && y2 == 400 * era + yoe && era >= 0) by (nonlinear_arith)
        requires
            y2 >= 0,
            era == y2 / 400,
            yoe == y2 - era * 400,
    ;
    assert(y2 / 4 == 100 * era + yoe / 4) by (nonlinear_arith)
        requires
            y2 == 400 * era + yoe,
            0 <= yoe < 400,
            era >= 0,
    ;
    assert(y2 / 100 == 4 * era + yoe / 100) by (nonlinear_arith)
        requires
            y2 == 400 * era + yoe,
            0 <= yoe < 400,
            era >= 0,
    ;
    assert(y2 / 400 == era);
    assert(era * 146097 + yoe * 365 == 365 * y2 + 97 * era) by (nonlinear_arith)
        requires
            y2 == 400 * era + yoe,
    ;
}

/// The weekday formula agrees with the day count: for every date from
/// year 1 on (any month, any day of 1 to 31), `day_of_week` gives the
/// weekday of its day number (1970-01-01 being a Thursday, Monday = 0).
pub proof fn lemma_weekday_matches_day_count(year: int, month: int, day: int)
    requires
        1 <= year,
        1 <= month <= 12,
        1 <= day <= 31,
    ensures
        day_of_week_spec(year, month, day) == mod7(ordinal_from_ymd(year, month, day) + 3),
{
    let y2 = if month <= 2 {
        year - 1
    } else {
        year
    };
    lemma_ordinal_by_year(y2, month, day);
    let mp = (month + 9) % 12;
    let c = (153 * mp + 2) / 5 - dow_table(month) - 719472;
    let j: int = if month == 1 {
        -102738
    } else if month == 2 {
        -102734
    } else if month == 3 {
        -102782
    } else if month == 4 {
        -102778
    } else if month == 5 {
        -102773
    } else if month == 6 {
        -102769
    } else if month == 7 {
        -102765
    } else if month == 8 {
        -102760
    } else if month == 9 {
        -102756
    } else if month == 10 {
        -102752
    } else if month == 11 {
        -102747
    } else {
        -102743
    };
    assert(c == 7 * j);
    let sum = y2 + y2 / 4 - y2 / 100 + y2 / 400 + dow_table(month) + day;
    let ord = ordinal_from_ymd(year, month, day);
    assert(ord + 3 == sum + 6 + 7 * (52 * y2 + j));
    vstd::arithmetic::div_mod::lemma_mod_multiples_vanish(52 * y2 + j, sum + 6, 7);
    assert((sum + 6) % 7 == (if sum % 7 == 0 { 6 } else { sum % 7 - 1 }));
}

/// Days counted by whole shifted years: 365 a year and one more for each
/// multiple of 4, less those of 100, more those of 400.
pub open spec fn year_days(x: int) -> int {
    365 * x + x / 4 - x / 100 + x / 400
}

proof fn lemma_year_days_step(x: int)
    requires
        x >= 1,
    ensures
        year_days(x) - year_days(x - 1) == year_len(x),
{
    assert(x / 4 - (x - 1) / 4 == (if x % 4 == 0 { 1int } else { 0int })) by (nonlinear_arith)
        requires
            x >= 1,
    ;
    assert(x / 100 - (x - 1) / 100 == (if x % 100 == 0 { 1int } else { 0int })) by (nonlinear_arith)
        requires
            x >= 1,
    ;
    assert(x / 400 - (x - 1) / 400 == (if x % 400 == 0 { 1int } else { 0int })) by (nonlinear_arith)
        requires
            x >= 1,
    ;
    assert(x % 400 == 0 ==> x % 100 == 0 && x % 4 == 0) by (nonlinear_arith)
        requires
            x >= 1,
    ;
    assert(x % 100 == 0 ==> x % 4 == 0) by (nonlinear_arith)
        requires
            x >= 1,
    ;
}

proof fn lemma_ordinal_days(y: int, m: int, d: int)
    requires
        y >= 1,
        1 <= m <= 12,
    ensures
        ordinal_from_ymd(y, m, d) == year_days(if m <= 2 { y - 1 } else { y }) + (153 * ((m + 9) % 12)
            + 2) / 5 + d - 1 - 719468,
{
    lemma_ordinal_by_year(if m <= 2 { y - 1 } else { y }, m, d);
}

proof fn lemma_next_month(y: int, m: int)
    requires
        y >= 1,
        1 <= m <= 11,
    ensures
        ordinal_from_ymd(y, m + 1, 1) == ordinal_from_ymd(y, m, 1) + month_len(y, m),
{
    lemma_ordinal_days(y, m, 1);
    lemma_ordinal_days(y, m + 1, 1);
    if m == 2 {
        lemma_year_days_step(y);
    }
}

proof fn lemma_next_year(y: int)
    requires
        y >= 1,
    ensures
        ordinal_from_ymd(y + 1, 1, 1) == ordinal_from_ymd(y, 1, 1) + year_len(y),
{
    lemma_ordinal_days(y, 1, 1);
    lemma_ordinal_days(y + 1, 1, 1);
    lemma_year_days_step(y);
}

/// The days of months `m` to 12 of year `y`.
pub open spec fn rest_len(y: int, m: int) -> int
    decreases 13 - m,
{
    if m > 12 || m < 1 {
        0
    } else {
        month_len(y, m) + rest_len(y, m + 1)
    }
}

proof fn lemma_month_day(days: int, y: int, mo: int)
    requires
        y >= 1,
        1 <= mo <= 12,
        0 <= days < rest_len(y, mo),
    ensures
        ({
            let r = month_day(days, y, mo);
            &&& mo <= r.0 <= 12
            &&& 1 <= r.1 <= month_len(y, r.0)
            &&& ordinal_from_ymd(y, r.0, r.1) == ordinal_from_ymd(y, mo, 1) + days
        }),
    decreases 12 - mo,
{
    lemma_ordinal_days(y, mo, 1);
    if mo >= 12 || days < month_len(y, mo) {
        lemma_ordinal_days(y, mo, days + 1);
        if mo == 12 {
            assert(rest_len(y, 13) == 0);
        }
    } else {
        lemma_month_day(days - month_len(y, mo), y, mo + 1);
        lemma_next_month(y, mo);
    }
}

proof fn lemma_civil_from(days: int, year: int)
    requires
        year >= 1,
        days >= 0,
    ensures
        ({
            let r = civil_from(days, year);
            &&& r.0 >= year
            &&& (r.0 - year) * 365 <= days
            &&& 1 <= r.1 <= 12
            &&& 1 <= r.2 <= 31
            &&& ordinal_from_ymd(r.0, r.1, r.2) == ordinal_from_ymd(year, 1, 1) + days
        }),
    decreases days,
{
    if days < year_len(year) {
        reveal_with_fuel(rest_len, 13);
        assert(rest_len(year, 1) == year_len(year));
        lemma_month_day(days, year, 1);
    } else {
        lemma_civil_from(days - year_len(year), year + 1);
        lemma_next_year(year);
    }
}

/// Counting back from a civil date gives the day it was made from: the
/// day number of `civil_from(n, 1970)` (what `days_to_ymd(n)` returns) is
/// `n`, and its month and day are in range.
pub proof fn lemma_civil_day_count(n: int)
    requires
        n >= 0,
    ensures
        ({
            let r = civil_from(n, 1970);
            &&& 1970 <= r.0 <= 1970 + n / 365
            &&& 1 <= r.1 <= 12
            &&& 1 <= r.2 <= 31
            &&& ordinal_from_ymd(r.0, r.1, r.2) == n
        }),
{
    lemma_civil_from(n, 1970);
    assert(ordinal_from_ymd(1970, 1, 1) == 0);
    let r = civil_from(n, 1970);
    assert(r.0 - 1970 <= n / 365) by (nonlinear_arith)
        requires
            (r.0 - 1970) * 365 <= n,
            n >= 0,
    ;
}

proof fn lemma_find_at(s: Seq<char>, c: char, i: int, k: int)
    requires
        0 <= i <= k <= s.len(),
        k < s.len() ==> s[k] == c,
        forall|j: int| i <= j < k ==> s[j] != c,
    ensures
        find_from(s, c, i) == k,
{
    lemma_find_from_bounds(s, c, i);
}

/// A `YYYY-MM-DD` text of digit pieces splits back into its pieces.
proof fn lemma_dash_pieces(a: Seq<char>, b: Seq<char>, c: Seq<char>)
    requires
        all_digits(a),
        all_digits(b),
        all_digits(c),
    ensures
        dash_pieces(a + seq!['-'] + b + seq!['-'] + c) == Some((a, b, c)),
{
    let s = a + seq!['-'] + b + seq!['-'] + c;
    let i1 = a.len() as int;
    let i2 = i1 + 1 + b.len();
    assert(s[i1] == '-');
    assert(s[i2] == '-');
    assert forall|j: int| 0 <= j < i1 implies s[j] != '-' by {
        assert(s[j] == a[j]);
        assert(is_digit_char(a[j]));
    }
    lemma_find_at(s, '-', 0, i1);
    assert forall|j: int| i1 + 1 <= j < i2 implies s[j] != '-' by {
        assert(s[j] == b[j - i1 - 1]);
        assert(is_digit_char(b[j - i1 - 1]));
    }
    lemma_find_at(s, '-', i1 + 1, i2);
    assert forall|j: int| i2 + 1 <= j < s.len() implies s[j] != '-' by {
        assert(s[j] == c[j - i2 - 1]);
        assert(is_digit_char(c[j - i2 - 1]));
    }
    lemma_find_at(s, '-', i2 + 1, s.len() as int);
    assert(s.subrange(0, i1) =~= a);
    assert(s.subrange(i1 + 1, i2) =~= b);
    assert(s.subrange(i2 + 1, s.len() as int) =~= c);
}

/// A day number written as a date and read back is the same day number:
/// for every `n` from 0 (1970-01-01) on, the `YYYY-MM-DD` text of
/// `civil_from(n, 1970)` (what `days_to_ymd(n)` returns) has `day_ordinal`
/// `n`. The bound keeps the year within the range `day_ordinal` reads.
pub proof fn lemma_day_count_round_trip(n: int)
    requires
        0 <= n <= 9_000_000_000_000_000_000,
    ensures
        ({
            let r = civil_from(n, 1970);
            day_ordinal_spec(date_text(r.0 as nat, r.1 as nat, r.2 as nat)) == Some(n)
        }),
{
    lemma_civil_day_count(n);
    let r = civil_from(n, 1970);
    assert(n / 365 <= 24_657_534_246_575_343) by (nonlinear_arith)
        requires
            0 <= n <= 9_000_000_000_000_000_000,
    ;
    let y = r.0 as nat;
    let m = r.1 as nat;
    let d = r.2 as nat;
    lemma_padded_parses(y, 4);
    lemma_padded_parses(m, 2);
    lemma_padded_parses(d, 2);
    let a = pad_left(decimal(y), 4, '0');
    let b = pad_left(decimal(m), 2, '0');
    let c = pad_left(decimal(d), 2, '0');
    assert(date_text(y, m, d) == a + seq!['-'] + b + seq!['-'] + c);
    lemma_dash_pieces(a, b, c);
}

} // verus!
