//! Date conversion for commit timestamps.
//!
//! A repository timestamp is a pair of UTC epoch seconds and a fixed UTC
//! offset in signed seconds.  Absolute display applies the recorded offset
//! (never the querying machine's zone) and reads the result in the proleptic
//! Gregorian calendar; the date is held here as plain calendar fields with an
//! invariant, so the conversion is verified and the round trip back to epoch
//! seconds is exact.
//!
//! Supported range: offsets strictly between -86400 and 86400, and shifted
//! timestamps (epoch seconds plus offset) from 1970-01-01 to 9999-12-31
//! inclusive.  Anything else is repository corruption and is rejected as
//! `MalformedTimestamp`, a fatal error.

use vstd::arithmetic::div_mod::lemma_fundamental_div_mod_converse;
use vstd::prelude::*;
use vstd::string::StringExecFns;

use crate::text::{push_decimal, spec_decimal};
use crate::GlError;

verus! {

/// Last supported shifted timestamp: 9999-12-31T23:59:59.
pub const MAX_EPOCH_SECONDS: i64 = 253402300799;

/// A leap year of the proleptic Gregorian calendar.
pub open spec fn is_leap_year(y: int) -> bool {
    y % 4 == 0 && (y % 100 != 0 || y % 400 == 0)
}

/// Days in year `y`.
pub open spec fn days_in_year(y: int) -> int {
    if is_leap_year(y) {
        366
    } else {
        365
    }
}

/// Days in month `m` of year `y` (months counted from 1).
pub open spec fn days_in_month(y: int, m: int) -> int {
    if m == 2 {
        if is_leap_year(y) {
            29
        } else {
            28
        }
    } else if m == 4 || m == 6 || m == 9 || m == 11 {
        30
    } else {
        31
    }
}

/// Days from 1970-01-01 to the first day of year `y` (closed form; negative
/// before 1970).
pub open spec fn days_before_year(y: int) -> int {
    365 * (y - 1) + (y - 1) / 4 - (y - 1) / 100 + (y - 1) / 400 - 719162
}

/// Days from the first of January of year `y` to the first day of month `m`.
pub open spec fn days_before_month(y: int, m: int) -> int
    decreases m,
{
    if m <= 1 {
        0
    } else {
        days_before_month(y, m - 1) + days_in_month(y, m - 1)
    }
}

/// Days from 1970-01-01 to the calendar day `y`-`m`-`d`.
pub open spec fn epoch_days(y: int, m: int, d: int) -> int {
    days_before_year(y) + days_before_month(y, m) + (d - 1)
}

/// A well-formed calendar day.
pub open spec fn valid_civil(y: int, m: int, d: int) -> bool {
    &&& 0 <= y <= 9999
    &&& 1 <= m <= 12
    &&& 1 <= d <= days_in_month(y, m)
}

/// A UTC offset the engine accepts: strictly less than one day in magnitude.
pub open spec fn valid_offset(offset: int) -> bool {
    -86400 < offset < 86400
}

/// A timestamp the engine accepts: its shifted value falls on a supported
/// calendar day.
pub open spec fn valid_timestamp(ts: int, offset: int) -> bool {
    &&& valid_offset(offset)
    &&& 0 <= ts + offset <= MAX_EPOCH_SECONDS as int
}

/// A calendar day without time-of-day or zone, ordered by (year, month, day).
#[derive(Clone, Copy, Debug, PartialEq, Eq, Structural)]
pub struct CivilDate {
    pub year: u16,
    pub month: u8,
    pub day: u8,
}

impl CivilDate {
    /// The fields name a real day of the proleptic Gregorian calendar.
    pub open spec fn wf(self) -> bool {
        valid_civil(self.year as int, self.month as int, self.day as int)
    }

    /// Chronological order as a spec relation.
    pub open spec fn spec_lt(self, other: Self) -> bool {
        ||| self.year < other.year
        ||| (self.year == other.year && self.month < other.month)
        ||| (self.year == other.year && self.month == other.month && self.day < other.day)
    }

    /// Strictly-before test on calendar days.
    pub fn lt(&self, other: &Self) -> (r: bool)
        ensures
            r == self.spec_lt(*other),
    {
        self.year < other.year || (self.year == other.year && self.month < other.month) || (
        self.year == other.year && self.month == other.month && self.day < other.day)
    }
}

/// An absolute date-time: a calendar day with time of day, weekday, and the
/// UTC offset it was read in.
#[derive(Clone, Copy, Debug, PartialEq, Eq, Structural)]
pub struct AbsoluteDate {
    pub year: u16,
    pub month: u8,
    pub day: u8,
    /// Day of the week, 0 = Sunday through 6 = Saturday.
    pub weekday: u8,
    pub hour: u8,
    pub minute: u8,
    pub second: u8,
    /// The recorded UTC offset in signed seconds.
    pub offset: i32,
}

impl AbsoluteDate {
    /// Internal invariant: a real calendar instant in the supported range,
    /// with the weekday consistent with the day.
    pub open spec fn wf(self) -> bool {
        &&& valid_civil(self.year as int, self.month as int, self.day as int)
        &&& 1970 <= self.year
        &&& self.hour < 24
        &&& self.minute < 60
        &&& self.second < 60
        &&& valid_offset(self.offset as int)
        &&& self.weekday as int == (epoch_days(self.year as int, self.month as int, self.day as int)
            + 4) % 7
    }

    /// The epoch seconds this date denotes: seconds of the shifted instant,
    /// minus the offset that produced it.
    pub open spec fn spec_epoch_seconds(self) -> int {
        (days_before_year(self.year as int) + days_before_month(self.year as int, self.month as int)
            + (self.day as int - 1)) * 86400 + self.hour as int * 3600 + self.minute as int * 60
            + self.second as int - self.offset as int
    }

    /// The calendar day, with time of day and zone dropped.
    pub fn date_naive(&self) -> (r: CivilDate)
        ensures
            r.year == self.year,
            r.month == self.month,
            r.day == self.day,
    {
        CivilDate { year: self.year, month: self.month, day: self.day }
    }
}

/// A year starts exactly `days_in_year(y)` days before the next one.
proof fn lemma_div_step(y: int, k: int)
    requires
        y >= 1,
        k >= 1,
    ensures
        y / k - (y - 1) / k == if y % k == 0 {
            1int
        } else {
            0int
        },
{
    let q = (y - 1) / k;
    let r = (y - 1) % k;
    vstd::arithmetic::div_mod::lemma_fundamental_div_mod(y - 1, k);
    assert(y - 1 == q * k + r) by (nonlinear_arith)
        requires
            y - 1 == k * q + r,
    ;
    if r + 1 < k {
        lemma_fundamental_div_mod_converse(y, k, q, r + 1);
    } else {
        assert(y == (q + 1) * k + 0) by (nonlinear_arith)
            requires
                y == q * k + k,
        ;
        lemma_fundamental_div_mod_converse(y, k, q + 1, 0);
    }
}

pub proof fn lemma_days_before_year_step(y: int)
    requires
        y >= 1,
    ensures
        days_before_year(y + 1) == days_before_year(y) + days_in_year(y),
{
    lemma_div_step(y, 4);
    lemma_div_step(y, 100);
    lemma_div_step(y, 400);
}

/// The months of a year cover exactly its days.
pub proof fn lemma_months_cover_year(y: int)
    ensures
        days_before_month(y, 13) == days_in_year(y),
{
    reveal_with_fuel(days_before_month, 13);
}

/// Whether `y` is a leap year.
fn is_leap_year_exec(y: u16) -> (r: bool)
    ensures
        r == is_leap_year(y as int),
{
    y % 4 == 0 && (y % 100 != 0 || y % 400 == 0)
}

/// Days in year `y`.
fn days_in_year_exec(y: u16) -> (r: u16)
    ensures
        r as int == days_in_year(y as int),
{
    if is_leap_year_exec(y) {
        366
    } else {
        365
    }
}

/// Days in month `m` of year `y`.
pub(crate) fn days_in_month_exec(y: u16, m: u8) -> (r: u8)
    ensures
        r as int == days_in_month(y as int, m as int),
{
    if m == 2 {
        if is_leap_year_exec(y) {
            29
        } else {
            28
        }
    } else if m == 4 || m == 6 || m == 9 || m == 11 {
        30
    } else {
        31
    }
}

/// Days from the first of January of year `y` to the first of month `m`.
fn days_before_month_exec(y: u16, m: u8) -> (r: u16)
    requires
        1 <= m <= 13,
    ensures
        r as int == days_before_month(y as int, m as int),
{
    let mut acc: u16 = 0;
    let mut i: u8 = 1;
    while i < m
        invariant
            1 <= i <= m <= 13,
            acc as int == days_before_month(y as int, i as int),
            acc <= 366,
        decreases m - i,
    {
        proof {
            lemma_days_before_month_bounds(y as int, i as int + 1);
            lemma_months_cover_year(y as int);
        }
        acc = acc + days_in_month_exec(y, i) as u16;
        i = i + 1;
    }
    acc
}

/// Days from 1970-01-01 to the first day of year `y`.
fn days_before_year_exec(y: u16) -> (r: i64)
    requires
        y >= 1,
    ensures
        r as int == days_before_year(y as int),
{
    let yy = (y - 1) as i64;
    365 * yy + yy / 4 - yy / 100 + yy / 400 - 719162
}

/// Converts a repository timestamp to the calendar instant it denotes in its
/// own recorded zone.  Exactly the timestamps outside the supported range are
/// rejected, as fatal `MalformedTimestamp` corruption.
pub fn to_absolute(ts: i64, offset: i32) -> (r: Result<AbsoluteDate, GlError>)
    ensures
        r is Ok <==> valid_timestamp(ts as int, offset as int),
        r is Err ==> r == Result::<AbsoluteDate, GlError>::Err(GlError::MalformedTimestamp),
        r matches Ok(d) ==> d.wf() && d.offset == offset && d.spec_epoch_seconds() == ts as int,
{
    if offset <= -86400 || offset >= 86400 {
        return Err(GlError::MalformedTimestamp);
    }
    if ts > i64::MAX - 86400 || ts < i64::MIN + 86400 {
        return Err(GlError::MalformedTimestamp);
    }
    let shifted = ts + offset as i64;
    if shifted < 0 || shifted > MAX_EPOCH_SECONDS {
        return Err(GlError::MalformedTimestamp);
    }
    let days = shifted / 86400;
    let secs_of_day = shifted % 86400;
    proof {
        vstd::arithmetic::div_mod::lemma_fundamental_div_mod(shifted as int, 86400);
    }
    let hour = secs_of_day / 3600;
    let rest = secs_of_day % 3600;
    let minute = rest / 60;
    let second = rest % 60;
    proof {
        vstd::arithmetic::div_mod::lemma_fundamental_div_mod(secs_of_day as int, 3600);
        vstd::arithmetic::div_mod::lemma_fundamental_div_mod(rest as int, 60);
    }

    let mut y: u16 = 1970;
    let mut rem: i64 = days;
    while rem >= days_in_year_exec(y) as i64
        invariant
            1970 <= y <= 9999,
            0 <= rem,
            days_before_year(y as int) + rem == days as int,
            days < 2932897,
        decreases 9999 - y,
    {
        proof {
            lemma_days_before_year_step(y as int);
            if y == 9999 {
                assert(days_before_year(10000) == 2932897);
                assert(false);
            }
        }
        rem = rem - days_in_year_exec(y) as i64;
        y = y + 1;
    }
    proof {
        lemma_months_cover_year(y as int);
    }
    let mut m: u8 = 1;
    while rem >= days_in_month_exec(y, m) as i64
        invariant
            1 <= m <= 12,
            0 <= rem,
            days_before_month(y as int, m as int) + rem == days as int - days_before_year(y as int),
            days as int - days_before_year(y as int) < days_before_month(y as int, 13),
        decreases 12 - m,
    {
        proof {
            if m == 12 {
                assert(days_before_month(y as int, 13) == days_before_month(y as int, 12)
                    + days_in_month(y as int, 12));
                assert(false);
            }
        }
        rem = rem - days_in_month_exec(y, m) as i64;
        m = m + 1;
    }
    let d = (rem + 1) as u8;
    let weekday = ((days + 4) % 7) as u8;
    let result = AbsoluteDate {
        year: y,
        month: m,
        day: d,
        weekday,
        hour: hour as u8,
        minute: minute as u8,
        second: second as u8,
        offset,
    };
    Ok(result)
}

/// Converts a calendar instant back to the epoch seconds it denotes; this is
/// the exact inverse of `to_absolute`.
pub fn to_epoch_seconds(d: &AbsoluteDate) -> (r: i64)
    requires
        d.wf(),
    ensures
        r as int == d.spec_epoch_seconds(),
{
    let days = days_before_year_exec(d.year) + days_before_month_exec(d.year, d.month) as i64 + (
    d.day - 1) as i64;
    proof {
        assert(days_before_year(1970) == 0);
        assert(days_before_year(10000) == 2932897);
        lemma_days_before_year_monotonic(1970, d.year as int);
        lemma_days_before_year_monotonic(d.year as int + 1, 10000);
        lemma_days_before_year_step(d.year as int);
        lemma_months_cover_year(d.year as int);
        lemma_days_before_month_bounds(d.year as int, d.month as int);
    }
    days * 86400 + d.hour as i64 * 3600 + d.minute as i64 * 60 + d.second as i64 - d.offset as i64
}

/// `days_before_year` grows with the year.
proof fn lemma_days_before_year_monotonic(a: int, b: int)
    requires
        1 <= a <= b,
    ensures
        days_before_year(a) <= days_before_year(b),
    decreases b - a,
{
    if a < b {
        lemma_days_before_year_monotonic(a, b - 1);
        lemma_days_before_year_step(b - 1);
    }
}

/// Three-letter English weekday name, 0 = Sunday.
pub open spec fn weekday_abbr(wd: int) -> Seq<char> {
    if wd == 0 {
        "Sun"@
    } else if wd == 1 {
        "Mon"@
    } else if wd == 2 {
        "Tue"@
    } else if wd == 3 {
        "Wed"@
    } else if wd == 4 {
        "Thu"@
    } else if wd == 5 {
        "Fri"@
    } else {
        "Sat"@
    }
}

/// Three-letter English month name, counted from 1.
pub open spec fn month_abbr(m: int) -> Seq<char> {
    if m == 1 {
        "Jan"@
    } else if m == 2 {
        "Feb"@
    } else if m == 3 {
        "Mar"@
    } else if m == 4 {
        "Apr"@
    } else if m == 5 {
        "May"@
    } else if m == 6 {
        "Jun"@
    } else if m == 7 {
        "Jul"@
    } else if m == 8 {
        "Aug"@
    } else if m == 9 {
        "Sep"@
    } else if m == 10 {
        "Oct"@
    } else if m == 11 {
        "Nov"@
    } else {
        "Dec"@
    }
}

/// Decimal with a leading zero below ten.
pub open spec fn two_digits(n: int) -> Seq<char> {
    if n < 10 {
        seq!['0'] + spec_decimal(n)
    } else {
        spec_decimal(n)
    }
}

/// The absolute display form: weekday, zero-padded day, month, year,
/// space-separated ("Thu 01 Jan 1970").
pub open spec fn spec_format_abs(d: AbsoluteDate) -> Seq<char> {
    weekday_abbr(d.weekday as int) + " "@ + two_digits(d.day as int) + " "@ + month_abbr(
        d.month as int,
    ) + " "@ + spec_decimal(d.year as int)
}

fn weekday_abbr_exec(wd: u8) -> (r: &'static str)
    ensures
        r@ == weekday_abbr(wd as int),
{
    match wd {
        0 => "Sun",
        1 => "Mon",
        2 => "Tue",
        3 => "Wed",
        4 => "Thu",
        5 => "Fri",
        _ => "Sat",
    }
}

fn month_abbr_exec(m: u8) -> (r: &'static str)
    requires
        1 <= m <= 12,
    ensures
        r@ == month_abbr(m as int),
{
    match m {
        1 => "Jan",
        2 => "Feb",
        3 => "Mar",
        4 => "Apr",
        5 => "May",
        6 => "Jun",
        7 => "Jul",
        8 => "Aug",
        9 => "Sep",
        10 => "Oct",
        11 => "Nov",
        _ => "Dec",
    }
}

/// A commit timestamp as displayed: the absolute calendar instant in the
/// commit's own zone, and the human-relative form fixed at construction
/// time.  Immutable once constructed.
#[derive(Clone)]
pub struct CommitDate {
    pub abs: AbsoluteDate,
    pub rel: String,
}

impl CommitDate {
    /// Both representations are consistent: the relative string is the
    /// rendering of the absolute instant's epoch seconds at some reading of
    /// the clock.
    pub open spec fn wf(self) -> bool {
        &&& self.abs.wf()
        &&& exists|now: int| self.rel@ == crate::relative::spec_relative(
            self.abs.spec_epoch_seconds(),
            now,
        )
    }

    /// Builds the date of a commit recorded at `ts` with UTC offset `offset`,
    /// as seen at clock reading `now`.  Fails, with the fatal
    /// `MalformedTimestamp`, exactly on timestamps outside the supported
    /// range.
    pub fn new(ts: i64, offset: i32, now: i64) -> (r: Result<CommitDate, GlError>)
        ensures
            r is Ok <==> valid_timestamp(ts as int, offset as int),
            r is Err ==> r == Result::<CommitDate, GlError>::Err(GlError::MalformedTimestamp),
            r matches Ok(cd) ==> {
                &&& cd.wf()
                &&& cd.abs.offset == offset
                &&& cd.abs.spec_epoch_seconds() == ts as int
                &&& cd.rel@ == crate::relative::spec_relative(ts as int, now as int)
            },
    {
        match to_absolute(ts, offset) {
            Ok(abs) => Ok(CommitDate { abs, rel: crate::relative::to_relative(ts, now) }),
            Err(e) => Err(e),
        }
    }

    /// As `new`, but against the machine clock's current reading; the
    /// relative form then depends on the moment of the call and only its
    /// consistency is promised.
    pub fn from_time(ts: i64, offset: i32) -> (r: Result<CommitDate, GlError>)
        ensures
            r is Ok <==> valid_timestamp(ts as int, offset as int),
            r is Err ==> r == Result::<CommitDate, GlError>::Err(GlError::MalformedTimestamp),
            r matches Ok(cd) ==> {
                &&& cd.wf()
                &&& cd.abs.offset == offset
                &&& cd.abs.spec_epoch_seconds() == ts as int
            },
    {
        let now = now_epoch_seconds();
        Self::new(ts, offset, now)
    }

    /// The absolute display form, "%a %d %b %Y" in strftime terms: weekday,
    /// zero-padded day of month, month, year.
    pub fn format_abs(&self) -> (r: String)
        requires
            self.abs.wf(),
        ensures
            r@ == spec_format_abs(self.abs),
    {
        let mut s = String::new();
        s.append(weekday_abbr_exec(self.abs.weekday));
        s.append(" ");
        if self.abs.day < 10 {
            s.append("0");
        }
        push_decimal(&mut s, self.abs.day as u64);
        s.append(" ");
        s.append(month_abbr_exec(self.abs.month));
        s.append(" ");
        push_decimal(&mut s, self.abs.year as u64);
        proof {
            reveal_strlit("0");
            assert(s@ =~= spec_format_abs(self.abs));
        }
        s
    }
}

/// Relies on `chrono::Utc::now`: the machine clock's current reading as UTC
/// epoch seconds.  The value depends on the moment of the call, so nothing
/// is promised of it.
#[verifier::external_body]
pub(crate) fn now_epoch_seconds() -> i64 {
    chrono::Utc::now().timestamp()
}

/// `days_before_month` is never negative.
proof fn lemma_days_before_month_nonneg(y: int, m: int)
    requires
        m >= 1,
    ensures
        days_before_month(y, m) >= 0,
    decreases m,
{
    if m > 1 {
        lemma_days_before_month_nonneg(y, m - 1);
    }
}

/// `days_before_month` stays within a year's days for valid months.
proof fn lemma_days_before_month_bounds(y: int, m: int)
    requires
        1 <= m <= 13,
    ensures
        0 <= days_before_month(y, m) <= days_before_month(y, 13),
    decreases 13 - m,
{
    lemma_days_before_month_nonneg(y, m);
    if m < 13 {
        lemma_days_before_month_bounds(y, m + 1);
    }
}

} // verus!
