//! Dates and times written as ISO 8601 / RFC 3339 text, read as seconds
//! since the Unix epoch.
use vstd::prelude::*;
use crate::numbers::{all_digits, digits_value, parse_unsigned};
use crate::text::{is_ascii_digit, sub_chars};

verus! {

/// Ten to the power `n`.
pub open spec fn pow10(n: nat) -> nat
    decreases n,
{
    if n == 0 { 1 } else { 10 * pow10((n - 1) as nat) }
}

proof fn lemma_digits_below(s: Seq<char>)
    requires
        all_digits(s),
    ensures
        digits_value(s) < pow10(s.len()),
    decreases s.len(),
{
    if s.len() > 0 {
        lemma_digits_below(s.drop_last());
        let p = pow10((s.len() - 1) as nat);
        let v = digits_value(s.drop_last());
        assert(crate::numbers::digit_value(s.last()) < 10) by {
            assert(is_ascii_digit(s[s.len() - 1]));
        }
        assert(v * 10 + crate::numbers::digit_value(s.last()) < 10 * p) by (nonlinear_arith)
            requires v < p, crate::numbers::digit_value(s.last()) < 10;
    }
}

/// The number spelled by the `len` characters from `from`, when they are all digits.
pub open spec fn field(s: Seq<char>, from: int, len: int) -> Option<nat> {
    if 0 <= from && 0 <= len && from + len <= s.len() && all_digits(s.subrange(from, from + len)) {
        Some(digits_value(s.subrange(from, from + len)))
    } else {
        None
    }
}

/// Whether a year is a leap year of the Gregorian calendar.
pub open spec fn is_leap(y: int) -> bool {
    (y % 4 == 0 && y % 100 != 0) || y % 400 == 0
}

/// The number of days of a year.
pub open spec fn year_days(y: int) -> int {
    if is_leap(y) { 366 } else { 365 }
}

/// The number of days of a month (1 to 12) of a year.
pub open spec fn month_days(y: int, m: int) -> int {
    if m == 2 {
        if is_leap(y) { 29 } else { 28 }
    } else if m == 4 || m == 6 || m == 9 || m == 11 {
        30
    } else {
        31
    }
}

/// The number of days from 1970-01-01 to the first day of year `y`
/// (negative before 1970).
pub open spec fn days_before_year(y: int) -> int
    decreases (if y >= 1970 { y - 1970 } else { 1970 - y }),
{
    if y == 1970 {
        0
    } else if y > 1970 {
        days_before_year(y - 1) + year_days(y - 1)
    } else {
        days_before_year(y + 1) - year_days(y)
    }
}

/// The number of days of year `y` before the first day of month `m`.
pub open spec fn days_before_month(y: int, m: int) -> int
    decreases m,
{
    if m <= 1 { 0 } else { days_before_month(y, m - 1) + month_days(y, m - 1) }
}

/// The seconds since the epoch of a date and a time of day, in UTC.
pub open spec fn epoch_seconds(y: int, mo: int, d: int, h: int, mi: int, s: int) -> int {
    (days_before_year(y) + days_before_month(y, mo) + d - 1) * 86400 + h * 3600 + mi * 60 + s
}

/// The length of an optional fraction of a second: a `.` or `,` and at
/// least one digit (0 when there is none, -1 when the digits are missing).
pub open spec fn fraction_len(rest: Seq<char>) -> int
    decreases rest.len(),
{
    if rest.len() > 0 && (rest[0] == '.' || rest[0] == ',') {
        let n = leading_digits(rest.drop_first());
        if n == 0 { -1 } else { 1 + n }
    } else {
        0
    }
}

/// The number of ASCII digits at the start of a text.
pub open spec fn leading_digits(s: Seq<char>) -> int
    decreases s.len(),
{
    if s.len() > 0 && is_ascii_digit(s[0]) { 1 + leading_digits(s.drop_first()) } else { 0 }
}

/// The offset east of UTC, in seconds, that a zone designator gives: none or
/// `Z` for UTC, else a sign and hours, with minutes after a `:` in the
/// extended form or directly in the basic form.
pub open spec fn zone_offset(z: Seq<char>, extended: bool) -> Option<int> {
    if z.len() == 0 || z == seq!['Z'] || z == seq!['z'] {
        Some(0)
    } else if z[0] == '+' || z[0] == '-' {
        let sign: int = if z[0] == '-' { -1 } else { 1 };
        let hm: Option<(nat, nat)> = if z.len() == 3 {
            match field(z, 1, 2) {
                Some(h) => Some((h, 0)),
                None => None,
            }
        } else if extended && z.len() == 6 && z[3] == ':' {
            match (field(z, 1, 2), field(z, 4, 2)) {
                (Some(h), Some(m)) => Some((h, m)),
                _ => None,
            }
        } else if !extended && z.len() == 5 {
            match (field(z, 1, 2), field(z, 3, 2)) {
                (Some(h), Some(m)) => Some((h, m)),
                _ => None,
            }
        } else {
            None
        };
        match hm {
            Some((h, m)) => if h <= 23 && m <= 59 { Some(sign * (h * 3600 + m * 60)) } else { None },
            None => None,
        }
    } else {
        None
    }
}

/// Whether a character separates the date from the time.
pub open spec fn date_time_separator(c: char) -> bool {
    c == 'T' || c == 't' || c == ' '
}

/// The fields of a date and time: year, month, day, hour, minute, second,
/// and whether the text is in the extended form (with `-` and `:`), and the
/// length of that part of the text.
pub open spec fn date_time_fields(s: Seq<char>) -> Option<(nat, nat, nat, nat, nat, nat, bool, int)> {
    if s.len() >= 19 && s[4] == '-' && s[7] == '-' && date_time_separator(s[10]) && s[13] == ':' && s[16] == ':' {
        match (field(s, 0, 4), field(s, 5, 2), field(s, 8, 2), field(s, 11, 2), field(s, 14, 2), field(s, 17, 2)) {
            (Some(y), Some(mo), Some(d), Some(h), Some(mi), Some(sec)) => Some((y, mo, d, h, mi, sec, true, 19)),
            _ => None,
        }
    } else if s.len() >= 15 && date_time_separator(s[8]) {
        match (field(s, 0, 4), field(s, 4, 2), field(s, 6, 2), field(s, 9, 2), field(s, 11, 2), field(s, 13, 2)) {
            (Some(y), Some(mo), Some(d), Some(h), Some(mi), Some(sec)) => Some((y, mo, d, h, mi, sec, false, 15)),
            _ => None,
        }
    } else {
        None
    }
}

/// The seconds since the epoch that an ISO 8601 date and time gives:
/// `YYYY-MM-DDTHH:MM:SS` or `YYYYMMDDTHHMMSS` (`T`, `t` or a space between
/// date and time), an optional fraction of a second that is dropped, and an
/// optional zone (`Z`, or an offset such as `+02:00`), UTC without one. The
/// date must exist and the time be within the day.
pub open spec fn iso_epoch(s: Seq<char>) -> Option<int> {
    match date_time_fields(s) {
        None => None,
        Some((y, mo, d, h, mi, sec, extended, n)) => {
            let rest = s.skip(n);
            let fl = fraction_len(rest);
            if fl < 0 || !(1 <= mo <= 12) || !(1 <= d <= month_days(y as int, mo as int)) || h > 23 || mi > 59 || sec > 59 {
                None
            } else {
                match zone_offset(rest.skip(fl), extended) {
                    Some(off) => Some(epoch_seconds(y as int, mo as int, d as int, h as int, mi as int, sec as int) - off),
                    None => None,
                }
            }
        },
    }
}

/// The number spelled by `len` (at most four) characters from `from`, when
/// they are all digits.
fn field_at(s: &[char], from: usize, len: usize) -> (r: Option<u64>)
    requires
        1 <= len <= 4,
    ensures
        match field(s@, from as int, len as int) {
            Some(v) => v < 10000 && (len <= 2 ==> v < 100) && r == Some(v as u64),
            None => r is None,
        },
{
    if from > s.len() || len > s.len() - from {
        return None;
    }
    let sub = sub_chars(s, from, from + len);
    let mut i: usize = 0;
    while i < sub.len()
        invariant
            i <= sub@.len(),
            sub@ == s@.subrange(from as int, from + len),
            forall|k: int| 0 <= k < i ==> is_ascii_digit(#[trigger] sub@[k]),
        decreases sub@.len() - i,
    {
        if sub[i] < '0' || sub[i] > '9' {
            proof {
                assert(!is_ascii_digit(sub@[i as int]));
            }
            return None;
        }
        i = i + 1;
    }
    proof {
        lemma_digits_below(sub@);
        assert(pow10(1) == 10 && pow10(2) == 100 && pow10(3) == 1000 && pow10(4) == 10000) by {
            reveal_with_fuel(pow10, 5);
        }
        assert(is_ascii_digit(sub@[0]));
        assert(crate::numbers::unsigned_body(sub@) == sub@);
    }
    parse_unsigned(&sub, 9999)
}

/// The number of ASCII digits from `from` on.
fn leading_digit_count(s: &[char], from: usize) -> (r: usize)
    requires
        from <= s@.len(),
    ensures
        r == leading_digits(s@.skip(from as int)),
        from + r <= s@.len(),
{
    let mut i = from;
    while i < s.len() && '0' <= s[i] && s[i] <= '9'
        invariant
            from <= i <= s@.len(),
            leading_digits(s@.skip(from as int)) == (i - from) + leading_digits(s@.skip(i as int)),
        decreases s@.len() - i,
    {
        proof {
            assert(s@.skip(i as int).drop_first() =~= s@.skip(i + 1));
        }
        i = i + 1;
    }
    i - from
}

/// The offset a zone designator gives.
#[verifier::spinoff_prover]
#[verifier::rlimit(30)]
fn zone_offset_of(z: &[char], extended: bool) -> (r: Option<i64>)
    ensures
        match zone_offset(z@, extended) {
            Some(v) => r == Some(v as i64) && -86400 < v < 86400,
            None => r is None,
        },
{
    let n = z.len();
    if n == 0 {
        return Some(0);
    }
    if n == 1 && (z[0] == 'Z' || z[0] == 'z') {
        proof {
            assert(z@ =~= seq![z@[0]]);
        }
        return Some(0);
    }
    proof {
        if z@ =~= seq!['Z'] || z@ =~= seq!['z'] {
            assert(n == 1);
        }
    }
    if z[0] != '+' && z[0] != '-' {
        return None;
    }
    let negative = z[0] == '-';
    let hm: Option<(u64, u64)> = if n == 3 {
        match field_at(z, 1, 2) {
            Some(h) => Some((h, 0)),
            None => None,
        }
    } else if extended && n == 6 && z[3] == ':' {
        match (field_at(z, 1, 2), field_at(z, 4, 2)) {
            (Some(h), Some(m)) => Some((h, m)),
            _ => None,
        }
    } else if !extended && n == 5 {
        match (field_at(z, 1, 2), field_at(z, 3, 2)) {
            (Some(h), Some(m)) => Some((h, m)),
            _ => None,
        }
    } else {
        None
    };
    proof {
        match hm {
            Some((h, m)) => {
                assert(h < 100 && m < 100);
            },
            None => {},
        }
    }
    match hm {
        Some((h, m)) => {
            if h <= 23 && m <= 59 {
                let v: i64 = (h * 3600 + m * 60) as i64;
                proof {
                    assert(zone_offset(z@, extended) == Some((if negative { -1int } else { 1int }) * (h * 3600 + m * 60)));
                }
                if negative { Some(-v) } else { Some(v) }
            } else {
                None
            }
        },
        None => None,
    }
}

proof fn lemma_days_before_year_bounds(y: int)
    ensures
        y >= 1970 ==> 0 <= days_before_year(y) <= 366 * (y - 1970),
        y < 1970 ==> -366 * (1970 - y) <= days_before_year(y) <= 0,
    decreases (if y >= 1970 { y - 1970 } else { 1970 - y }),
{
    if y > 1970 {
        lemma_days_before_year_bounds(y - 1);
    } else if y < 1970 {
        lemma_days_before_year_bounds(y + 1);
    }
}

/// Whether a year is a leap year.
fn leap(y: u64) -> (r: bool)
    ensures
        r == is_leap(y as int),
{
    (y % 4 == 0 && y % 100 != 0) || y % 400 == 0
}

/// The days from 1970-01-01 to the first day of a year.
fn days_before_year_of(y: u64) -> (r: i64)
    requires
        y <= 9999,
    ensures
        r == days_before_year(y as int),
{
    let mut acc: i64 = 0;
    let mut i: u64 = 1970;
    if y >= 1970 {
        while i < y
            invariant
                1970 <= i <= y <= 9999,
                acc == days_before_year(i as int),
            decreases y - i,
        {
            proof {
                lemma_days_before_year_bounds(i as int);
            }
            let len: i64 = if leap(i) { 366 } else { 365 };
            acc = acc + len;
            i = i + 1;
        }
    } else {
        while i > y
            invariant
                y <= i <= 1970,
                acc == days_before_year(i as int),
            decreases i - y,
        {
            proof {
                lemma_days_before_year_bounds(i as int);
            }
            let len: i64 = if leap(i - 1) { 366 } else { 365 };
            acc = acc - len;
            i = i - 1;
        }
    }
    acc
}

/// The days of a year before the first day of a month.
fn days_before_month_of(y: u64, m: u64) -> (r: i64)
    requires
        1 <= m <= 12,
    ensures
        r == days_before_month(y as int, m as int),
        0 <= r <= 341,
{
    let mut acc: i64 = 0;
    let mut k: u64 = 1;
    while k < m
        invariant
            1 <= k <= m <= 12,
            acc == days_before_month(y as int, k as int),
            0 <= acc <= 31 * (k - 1),
        decreases m - k,
    {
        let len: i64 = if k == 2 {
            if leap(y) { 29 } else { 28 }
        } else if k == 4 || k == 6 || k == 9 || k == 11 {
            30
        } else {
            31
        };
        acc = acc + len;
        k = k + 1;
    }
    acc
}

/// The fields of a date and time at the start of a text.
fn date_time_fields_of(s: &[char]) -> (r: Option<(u64, u64, u64, u64, u64, u64, bool, usize)>)
    ensures
        match date_time_fields(s@) {
            Some((y, mo, d, h, mi, sec, e, n)) => r == Some((y as u64, mo as u64, d as u64, h as u64, mi as u64, sec as u64, e, n as usize))
                && y < 10000 && mo < 100 && d < 100 && h < 100 && mi < 100 && sec < 100 && n <= s@.len(),
            None => r is None,
        },
{
    let n = s.len();
    let extended = n >= 19 && s[4] == '-' && s[7] == '-' && (s[10] == 'T' || s[10] == 't' || s[10] == ' ') && s[13] == ':'
        && s[16] == ':';
    let basic = !extended && n >= 15 && (s[8] == 'T' || s[8] == 't' || s[8] == ' ');
    if !extended && !basic {
        return None;
    }
    let fy = field_at(s, 0, 4);
    let fmo = if extended { field_at(s, 5, 2) } else { field_at(s, 4, 2) };
    let fd = if extended { field_at(s, 8, 2) } else { field_at(s, 6, 2) };
    let fh = if extended { field_at(s, 11, 2) } else { field_at(s, 9, 2) };
    let fmi = if extended { field_at(s, 14, 2) } else { field_at(s, 11, 2) };
    let fsec = if extended { field_at(s, 17, 2) } else { field_at(s, 13, 2) };
    let len: usize = if extended { 19 } else { 15 };
    match (fy, fmo, fd, fh, fmi, fsec) {
        (Some(y), Some(mo), Some(d), Some(h), Some(mi), Some(sec)) => {
            proof {
                assert(date_time_fields(s@) == Some((y as nat, mo as nat, d as nat, h as nat, mi as nat, sec as nat, extended, len as int)));
            }
            Some((y, mo, d, h, mi, sec, extended, len))
        },
        _ => None,
    }
}

/// The length of an optional fraction of a second from `from` on.
fn fraction_len_at(s: &[char], from: usize) -> (r: Option<usize>)
    requires
        from <= s@.len(),
    ensures
        match r {
            Some(k) => fraction_len(s@.skip(from as int)) == k as int && from + k <= s@.len(),
            None => fraction_len(s@.skip(from as int)) < 0,
        },
{
    let ghost rest = s@.skip(from as int);
    if from < s.len() && (s[from] == '.' || s[from] == ',') {
        let k = leading_digit_count(s, from + 1);
        proof {
            assert(rest.drop_first() =~= s@.skip(from + 1));
        }
        if k == 0 {
            return None;
        }
        Some(1 + k)
    } else {
        Some(0)
    }
}

/// The seconds since the epoch of a date and a time of day that exist.
fn epoch_of(y: u64, mo: u64, d: u64, h: u64, mi: u64, sec: u64) -> (r: i64)
    requires
        y < 10000,
        1 <= mo <= 12,
        1 <= d <= 31,
        h <= 23,
        mi <= 59,
        sec <= 59,
    ensures
        r == epoch_seconds(y as int, mo as int, d as int, h as int, mi as int, sec as int),
        -200_000_000_000 < r < 300_000_000_000,
{
    let days = days_before_year_of(y);
    let md = days_before_month_of(y, mo);
    proof {
        lemma_days_before_year_bounds(y as int);
    }
    let total_days: i64 = days + md + (d as i64) - 1;
    assert(-(366 * 1970) - 1 <= total_days <= 366 * 8030 + 400);
    assert(-2_000_000_000_000 < total_days * 86400 < 2_000_000_000_000) by (nonlinear_arith)
        requires
            -(366 * 1970) - 1 <= total_days <= 366 * 8030 + 400;
    total_days * 86400 + (h as i64) * 3600 + (mi as i64) * 60 + (sec as i64)
}

/// The seconds since the epoch that an ISO 8601 date and time gives.
pub fn parse_iso_epoch(text: &str) -> (r: Option<i64>)
    ensures
        match iso_epoch(text@) {
            Some(v) => r == Some(v as i64),
            None => r is None,
        },
{
    let s = crate::text::chars_of(text);
    match date_time_fields_of(&s) {
        None => None,
        Some((y, mo, d, h, mi, sec, extended, len)) => {
            let fl = match fraction_len_at(&s, len) {
                None => return None,
                Some(k) => k,
            };
            let mdays: u64 = if mo == 2 {
                if leap(y) { 29 } else { 28 }
            } else if mo == 4 || mo == 6 || mo == 9 || mo == 11 {
                30
            } else {
                31
            };
            if !(1 <= mo && mo <= 12) || !(1 <= d && d <= mdays) || h > 23 || mi > 59 || sec > 59 {
                return None;
            }
            let z = sub_chars(&s, len + fl, s.len());
            proof {
                assert(s@.skip(len as int).skip(fl as int) =~= z@);
            }
            match zone_offset_of(&z, extended) {
                None => None,
                Some(off) => {
                    let secs = epoch_of(y, mo, d, h, mi, sec);
                    Some(secs - off)
                },
            }
        },
    }
}

} // verus!
