//! Daily log files: the calendar date of a moment (days since the Unix
//! epoch counted through the Gregorian calendar), the `YYYY-MM-DD` stamp,
//! the daily file path, and the validation of log paths.

use vstd::prelude::*;
use crate::clock::now_millis;
use crate::text::{chars_of, contains_char, decimal, decimal_chars, push_char, push_chars, push_str};

verus! {

/// A Gregorian leap year.
pub open spec fn is_leap_year(y: int) -> bool {
    (y % 4 == 0 && y % 100 != 0) || y % 400 == 0
}

/// The number of days of year `y`.
pub open spec fn year_days(y: int) -> int {
    if is_leap_year(y) {
        366
    } else {
        365
    }
}

/// The number of days of month `m` (1 to 12) of year `y`.
pub open spec fn month_days(y: int, m: int) -> int {
    if m == 2 {
        if is_leap_year(y) {
            29
        } else {
            28
        }
    } else if m == 4 || m == 6 || m == 9 || m == 11 {
        30
    } else {
        31
    }
}

/// The days from 1970-01-01 to the first day of year `y`.
pub open spec fn days_before_year(y: int) -> int
    decreases y - 1970,
{
    if y <= 1970 {
        0
    } else {
        days_before_year(y - 1) + year_days(y - 1)
    }
}

/// The days from the first day of year `y` to the first day of month `m`.
pub open spec fn days_before_month(y: int, m: int) -> int
    decreases m,
{
    if m <= 1 {
        0
    } else {
        days_before_month(y, m - 1) + month_days(y, m - 1)
    }
}

/// `(y, m, d)` is the calendar date `days` days after 1970-01-01.
pub open spec fn is_civil_date(days: int, y: int, m: int, d: int) -> bool {
    &&& y >= 1970
    &&& 1 <= m <= 12
    &&& 1 <= d <= month_days(y, m)
    &&& days_before_year(y) + days_before_month(y, m) + d - 1 == days
}

/// `s` padded on the left with zeros to `w` characters.
pub open spec fn zero_pad(s: Seq<char>, w: nat) -> Seq<char> {
    if s.len() >= w {
        s
    } else {
        Seq::new((w - s.len()) as nat, |i: int| '0') + s
    }
}

/// `YYYY-MM-DD`, each part zero-padded (as `{:04}-{:02}-{:02}`).
pub open spec fn date_text(y: nat, m: nat, d: nat) -> Seq<char> {
    zero_pad(decimal(y), 4) + "-"@ + zero_pad(decimal(m), 2) + "-"@ + zero_pad(decimal(d), 2)
}

/// Whether `year` is a Gregorian leap year.
pub fn is_leap(year: u64) -> (b: bool)
    ensures
        b == is_leap_year(year as int),
{
    (year % 4 == 0 && year % 100 != 0) || year % 400 == 0
}

proof fn lemma_year_has_its_months(y: int)
    ensures
        days_before_month(y, 13) == year_days(y),
{
    reveal_with_fuel(days_before_month, 13);
}

/// The number of days of month `m` of a year that is a leap year or not.
fn month_length(leap: bool, m: u64) -> (n: u64)
    requires
        1 <= m <= 12,
    ensures
        forall|y: int| is_leap_year(y) == leap ==> n == month_days(y, m as int),
{
    if m == 2 {
        if leap {
            29
        } else {
            28
        }
    } else if m == 4 || m == 6 || m == 9 || m == 11 {
        30
    } else {
        31
    }
}

/// The calendar date `(year, month, day)` that is `days` days after 1970-01-01.
pub fn civil_from_days(days: u64) -> (r: (u64, u64, u64))
    ensures
        is_civil_date(days as int, r.0 as int, r.1 as int, r.2 as int),
{
    let mut y: u64 = 1970;
    let mut d: u64 = days;
    loop
        invariant
            y >= 1970,
            d <= days,
            (y - 1970) * 365 <= days - d,
            days_before_year(y as int) + d == days,
        ensures
            y >= 1970,
            days_before_year(y as int) + d == days,
            d < year_days(y as int),
        decreases d,
    {
        let yd: u64 = if is_leap(y) {
            366
        } else {
            365
        };
        if d < yd {
            break;
        }
        d = d - yd;
        y = y + 1;
    }
    let leap = is_leap(y);
    let mut m: u64 = 1;
    proof {
        lemma_year_has_its_months(y as int);
    }
    while d >= month_length(leap, m)
        invariant
            1 <= m <= 12,
            leap == is_leap_year(y as int),
            days_before_year(y as int) + days_before_month(y as int, m as int) + d == days,
            days_before_month(y as int, m as int) + d < year_days(y as int),
            days_before_month(y as int, 13) == year_days(y as int),
        decreases 12 - m,
    {
        let md = month_length(leap, m);
        if m == 12 {
            assert(days_before_month(y as int, 13) == days_before_month(y as int, 12) + month_days(y as int, 12));
            assert(false);
        }
        d = d - md;
        m = m + 1;
    }
    (y, m, d + 1)
}

proof fn lemma_days_before_year_grows(a: int, b: int)
    requires
        1970 <= a < b,
    ensures
        days_before_year(b) >= days_before_year(a) + year_days(a),
    decreases b - a,
{
    if b > a + 1 {
        lemma_days_before_year_grows(a, b - 1);
    }
}

proof fn lemma_days_before_month_grows(y: int, a: int, b: int)
    requires
        1 <= a < b,
    ensures
        days_before_month(y, b) >= days_before_month(y, a) + month_days(y, a),
    decreases b - a,
{
    if b > a + 1 {
        lemma_days_before_month_grows(y, a, b - 1);
    }
}

proof fn lemma_days_before_month_nonneg(y: int, m: int)
    ensures
        days_before_month(y, m) >= 0,
    decreases m,
{
    if m > 1 {
        lemma_days_before_month_nonneg(y, m - 1);
    }
}

proof fn lemma_date_within_year(days: int, y: int, m: int, d: int)
    requires
        is_civil_date(days, y, m, d),
    ensures
        days_before_month(y, m) + d - 1 < year_days(y),
{
    lemma_year_has_its_months(y);
    if m < 12 {
        lemma_days_before_month_grows(y, m, 13);
    } else {
        assert(days_before_month(y, 13) == days_before_month(y, 12) + month_days(y, 12));
    }
}

/// A day count has exactly one calendar date.
pub proof fn lemma_civil_date_unique(days: int, y1: int, m1: int, d1: int, y2: int, m2: int, d2: int)
    requires
        is_civil_date(days, y1, m1, d1),
        is_civil_date(days, y2, m2, d2),
    ensures
        y1 == y2,
        m1 == m2,
        d1 == d2,
{
    lemma_date_within_year(days, y1, m1, d1);
    lemma_date_within_year(days, y2, m2, d2);
    lemma_days_before_month_nonneg(y1, m1);
    lemma_days_before_month_nonneg(y2, m2);
    if y1 < y2 {
        lemma_days_before_year_grows(y1, y2);
    } else if y2 < y1 {
        lemma_days_before_year_grows(y2, y1);
    }
    assert(y1 == y2);
    if m1 < m2 {
        lemma_days_before_month_grows(y1, m1, m2);
    } else if m2 < m1 {
        lemma_days_before_month_grows(y1, m2, m1);
    }
}

/// Appends `n` in decimal, padded on the left with zeros to `w` characters.
fn push_padded(s: &mut String, n: u64, w: usize)
    requires
        w <= 8,
    ensures
        final(s)@ == old(s)@ + zero_pad(decimal(n as nat), w as nat),
{
    let digits = decimal_chars(n);
    let mut k: usize = digits.len();
    let ghost start = s@;
    while k < w
        invariant
            digits.len() <= k <= w || (k == digits.len() && k >= w),
            w <= 8,
            s@ == start + Seq::new((k - digits.len()) as nat, |i: int| '0'),
        decreases w - k,
    {
        let ghost before = s@;
        push_char(s, '0');
        assert(start + Seq::new((k + 1 - digits.len()) as nat, |i: int| '0') =~= before.push('0'));
        k += 1;
    }
    let ghost mid = s@;
    push_chars(s, digits.as_slice());
    proof {
        if digits@.len() >= w {
            assert(Seq::new((k - digits.len()) as nat, |i: int| '0') =~= Seq::<char>::empty());
            assert(s@ =~= old(s)@ + zero_pad(decimal(n as nat), w as nat));
        } else {
            assert(s@ =~= old(s)@ + zero_pad(decimal(n as nat), w as nat));
        }
    }
}

/// The `YYYY-MM-DD` stamp of the day holding the moment `secs` seconds
/// after the Unix epoch.
pub fn date_from_secs(secs: u64) -> (s: String)
    ensures
        exists|y: nat, m: nat, d: nat|
            is_civil_date((secs / 86400) as int, y as int, m as int, d as int) && s@ == #[trigger] date_text(y, m, d),
{
    let (y, m, d) = civil_from_days(secs / 86400);
    let mut s = String::new();
    push_padded(&mut s, y, 4);
    push_str(&mut s, "-");
    push_padded(&mut s, m, 2);
    push_str(&mut s, "-");
    push_padded(&mut s, d, 2);
    assert(s@ =~= date_text(y as nat, m as nat, d as nat));
    s
}

/// Today's `YYYY-MM-DD` stamp by the system clock (see `date_from_secs`).
pub fn today_date() -> (s: String)
    ensures
        exists|days: int, y: nat, m: nat, d: nat|
            #![trigger is_civil_date(days, y as int, m as int, d as int), date_text(y, m, d)]
            is_civil_date(days, y as int, m as int, d as int) && s@ == date_text(y, m, d),
{
    let secs = now_millis() / 1000;
    let s = date_from_secs(secs);
    proof {
        let (y, m, d) = choose|y: nat, m: nat, d: nat|
            is_civil_date((secs / 86400) as int, y as int, m as int, d as int) && s@ == #[trigger] date_text(y, m, d);
        assert(is_civil_date((secs / 86400) as int, y as int, m as int, d as int) && s@ == date_text(y, m, d));
    }
    s
}

/// `dir` joined with the relative file name `name` (as `Path::join`).
pub open spec fn path_join(dir: Seq<char>, name: Seq<char>) -> Seq<char> {
    if dir.len() == 0 {
        name
    } else if dir.last() == '/' {
        dir + name
    } else {
        dir + seq!['/'] + name
    }
}

/// The daily log file name of a date stamp: `bettertui-<date>.log`.
pub open spec fn daily_file_name(date: Seq<char>) -> Seq<char> {
    "bettertui-"@ + date + ".log"@
}

/// The daily log file of `date` in `log_dir`.
pub fn log_path_for_date(log_dir: &str, date: &str) -> (p: String)
    ensures
        p@ == path_join(log_dir@, daily_file_name(date@)),
{
    let dir = chars_of(log_dir);
    let mut p = String::new();
    push_chars(&mut p, dir.as_slice());
    if dir.len() > 0 && dir[dir.len() - 1] != '/' {
        push_char(&mut p, '/');
    }
    push_str(&mut p, "bettertui-");
    push_str(&mut p, date);
    push_str(&mut p, ".log");
    proof {
        if dir@.len() == 0 {
            assert(p@ =~= path_join(log_dir@, daily_file_name(date@)));
        } else if dir@.last() == '/' {
            assert(p@ =~= path_join(log_dir@, daily_file_name(date@)));
        } else {
            assert(p@ =~= path_join(log_dir@, daily_file_name(date@)));
        }
    }
    p
}

/// Today's log file in `log_dir`: `<log_dir>/bettertui-YYYY-MM-DD.log`.
pub fn daily_log_path(log_dir: &str) -> (p: String)
    ensures
        exists|date: Seq<char>| p@ == #[trigger] path_join(log_dir@, daily_file_name(date)),
{
    let date = today_date();
    log_path_for_date(log_dir, date.as_str())
}

/// Checks a log path: it must not be empty and must not hold a NUL character.
pub fn platform_validate_path(path: &str) -> (r: Result<(), String>)
    ensures
        path@.len() == 0 ==> (r matches Err(e) && e@ == "Log path must not be empty"@),
        path@.len() > 0 && path@.contains('\0') ==> (r matches Err(e) && e@ == "Log path contains null character"@),
        path@.len() > 0 && !path@.contains('\0') ==> r is Ok,
{
    let cs = chars_of(path);
    if cs.len() == 0 {
        return Err(String::from_str("Log path must not be empty"));
    }
    if contains_char(cs.as_slice(), '\0') {
        return Err(String::from_str("Log path contains null character"));
    }
    Ok(())
}

/// Whether two clock readings, in seconds since the Unix epoch, fall on the
/// same UTC day: a log file last written today is appended to, an older one
/// is started afresh.
pub fn same_day(a_secs: u64, b_secs: u64) -> (b: bool)
    ensures
        b == (a_secs / 86400 == b_secs / 86400),
{
    a_secs / 86400 == b_secs / 86400
}

} // verus!
