//! Finding the commit that was current at a given calendar date.
//!
//! Given a date (say, the day an external reference to the repository was
//! written), the search walks the materialized log oldest-first and returns
//! the last commit dated strictly before that date — the version of the
//! repository the reference most likely pointed at.

use vstd::prelude::*;
use vstd::string::StrSliceExecFns;
use vstd::string::StringExecFns;

use crate::commit::GitCommit;
use crate::date::{valid_civil, CivilDate};

verus! {

/// A decimal digit character.
pub open spec fn is_digit(c: char) -> bool {
    '0' <= c && c <= '9'
}

/// The value of a digit character.
pub open spec fn digit_val(c: char) -> int {
    c as int - '0' as int
}

/// The input has the shape `YYYY-MM-DD`.
pub open spec fn spec_date_shape(s: Seq<char>) -> bool {
    &&& s.len() == 10
    &&& is_digit(s[0])
    &&& is_digit(s[1])
    &&& is_digit(s[2])
    &&& is_digit(s[3])
    &&& s[4] == '-'
    &&& is_digit(s[5])
    &&& is_digit(s[6])
    &&& s[7] == '-'
    &&& is_digit(s[8])
    &&& is_digit(s[9])
}

/// The year the shape spells.
pub open spec fn spec_parsed_year(s: Seq<char>) -> int {
    digit_val(s[0]) * 1000 + digit_val(s[1]) * 100 + digit_val(s[2]) * 10 + digit_val(s[3])
}

/// The month the shape spells.
pub open spec fn spec_parsed_month(s: Seq<char>) -> int {
    digit_val(s[5]) * 10 + digit_val(s[6])
}

/// The day the shape spells.
pub open spec fn spec_parsed_day(s: Seq<char>) -> int {
    digit_val(s[8]) * 10 + digit_val(s[9])
}

/// Reads the digit at position `i`, if there is one.
fn digit_at(s: &str, i: usize) -> (r: Option<u16>)
    requires
        i < s@.len(),
        s@.len() <= usize::MAX,
    ensures
        match r {
            Some(d) => is_digit(s@[i as int]) && d as int == digit_val(s@[i as int]) && d < 10,
            None => !is_digit(s@[i as int]),
        },
{
    let c = s.get_char(i);
    if '0' <= c && c <= '9' {
        Some(c as u16 - '0' as u16)
    } else {
        None
    }
}

/// Parses a calendar date written `YYYY-MM-DD`.  Succeeds exactly on inputs
/// of that shape that spell a real day of the calendar; everything else is
/// rejected with the diagnostic message.
pub fn parse_date(s: &str) -> (r: Result<CivilDate, String>)
    ensures
        r is Ok <==> spec_date_shape(s@) && valid_civil(
            spec_parsed_year(s@),
            spec_parsed_month(s@),
            spec_parsed_day(s@),
        ),
        r matches Ok(d) ==> {
            &&& d.year as int == spec_parsed_year(s@)
            &&& d.month as int == spec_parsed_month(s@)
            &&& d.day as int == spec_parsed_day(s@)
            &&& d.wf()
        },
        r matches Err(e) ==> e@ == "Invalid date format: expected YYYY-MM-DD"@,
{
    let err = "Invalid date format: expected YYYY-MM-DD";
    if s.unicode_len() != 10 {
        return Err(err.to_owned());
    }
    if s.get_char(4) != '-' || s.get_char(7) != '-' {
        return Err(err.to_owned());
    }
    let d0 = digit_at(s, 0);
    let d1 = digit_at(s, 1);
    let d2 = digit_at(s, 2);
    let d3 = digit_at(s, 3);
    let d5 = digit_at(s, 5);
    let d6 = digit_at(s, 6);
    let d8 = digit_at(s, 8);
    let d9 = digit_at(s, 9);
    match (d0, d1, d2, d3, d5, d6, d8, d9) {
        (
            Some(y0),
            Some(y1),
            Some(y2),
            Some(y3),
            Some(m0),
            Some(m1),
            Some(dd0),
            Some(dd1),
        ) => {
            let year: u16 = y0 * 1000 + y1 * 100 + y2 * 10 + y3;
            let month_wide: u16 = m0 * 10 + m1;
            let day_wide: u16 = dd0 * 10 + dd1;
            let month: u8 = month_wide as u8;
            let day: u8 = day_wide as u8;
            let date = CivilDate { year, month, day };
            if 1 <= month && month <= 12 && 1 <= day && day <= crate::date::days_in_month_exec(
                year,
                month,
            ) {
                Ok(date)
            } else {
                Err(err.to_owned())
            }
        },
        _ => Err(err.to_owned()),
    }
}

/// The calendar day of a commit, in the commit's own zone.
pub open spec fn commit_day(c: GitCommit) -> CivilDate {
    CivilDate { year: c.date.abs.year, month: c.date.abs.month, day: c.date.abs.day }
}

/// The search from position `i`: the first commit from there on that is
/// dated before the target while its successor is not, or the last commit
/// when the walk runs out.
pub open spec fn spec_find_from(logs: Seq<GitCommit>, i: int, date: CivilDate) -> Option<
    GitCommit,
>
    decreases logs.len() - i,
{
    if i < 0 || i >= logs.len() {
        None
    } else if i == logs.len() - 1 {
        Some(logs[i])
    } else if commit_day(logs[i]).spec_lt(date) && !commit_day(logs[i + 1]).spec_lt(date) {
        Some(logs[i])
    } else {
        spec_find_from(logs, i + 1, date)
    }
}

/// The whole search: nothing from an empty log, nothing when even the first
/// commit is dated at or after the target, else the scan.
pub open spec fn spec_find_first_before(logs: Seq<GitCommit>, date: CivilDate) -> Option<
    GitCommit,
> {
    if logs.len() == 0 {
        None
    } else if date.spec_lt(commit_day(logs[0])) {
        None
    } else {
        spec_find_from(logs, 0, date)
    }
}

/// Finds the commit current at `date` in a log materialized oldest-first:
/// the commit dated strictly before `date` whose successor is not, or the
/// newest commit when every one is dated before `date`.  `None` when the
/// repository starts after `date`.
pub fn find_first_commit_before_date<'a>(logs: &'a Vec<GitCommit>, date: &CivilDate) -> (r:
    Option<&'a GitCommit>)
    ensures
        match r {
            Some(c) => spec_find_first_before(logs@, *date) == Some(*c),
            None => spec_find_first_before(logs@, *date) is None,
        },
{
    let n = logs.len();
    if n == 0 {
        return None;
    }
    let first_day = logs[0].date.abs.date_naive();
    proof {
        assert(first_day == commit_day(logs@[0]));
    }
    if date.lt(&first_day) {
        return None;
    }
    let mut i: usize = 0;
    while i < n - 1
        invariant
            n == logs@.len(),
            0 < n,
            0 <= i <= n - 1,
            spec_find_first_before(logs@, *date) == spec_find_from(logs@, 0, *date),
            spec_find_from(logs@, 0, *date) == spec_find_from(logs@, i as int, *date),
        decreases n - i,
    {
        let here_day = logs[i].date.abs.date_naive();
        let next_day = logs[i + 1].date.abs.date_naive();
        proof {
            assert(here_day == commit_day(logs@[i as int]));
            assert(next_day == commit_day(logs@[i + 1]));
        }
        let here_before = here_day.lt(date);
        let next_before = next_day.lt(date);
        if here_before && !next_before {
            proof {
                assert(spec_find_from(logs@, i as int, *date) == Some(logs@[i as int]));
            }
            return Some(&logs[i]);
        }
        i += 1;
    }
    Some(&logs[n - 1])
}

} // verus!
