//! Human-relative rendering of a commit time.
//!
//! This reproduces, bucket for bucket, the relative-date algorithm of the
//! upstream version-control tool: the difference in seconds is rewritten at
//! each step (later buckets see the transformed value) and the first matching
//! bucket wins.  Downstream consumers assume this exact output format, so the
//! bucket order, the rounding offsets, and the wording are part of the
//! contract.
//!
//! Times are compared as plain epoch seconds: the recorded UTC offset shifts
//! the commit's clock reading and the walker's "now" equally, so it cancels
//! out of every difference.  This is the one consistent timezone rule chosen
//! here.

use vstd::prelude::*;
use vstd::string::StringExecFns;

use crate::text::{spec_decimal, u64_to_string};

verus! {

/// "N unit(s) ago": singular exactly when the count is 1, plural otherwise
/// (0 included).
pub open spec fn spec_time_ago(diff: int, unit: Seq<char>) -> Seq<char> {
    spec_decimal(diff) + " "@ + unit + if diff == 1 {
        " ago"@
    } else {
        "s ago"@
    }
}

/// The bucketed relative-date string for a commit time `then` seen at time
/// `now`, both in epoch seconds.  Every division is integer division on
/// non-negative values.
pub open spec fn spec_relative(then: int, now: int) -> Seq<char> {
    if now < then {
        "in the future"@
    } else {
        let seconds = now - then;
        if seconds < 90 {
            spec_time_ago(seconds, "second"@)
        } else {
            let minutes = (seconds + 30) / 60;
            if minutes < 90 {
                spec_time_ago(minutes, "minute"@)
            } else {
                let hours = (minutes + 30) / 60;
                if hours < 36 {
                    spec_time_ago(hours, "hour"@)
                } else {
                    let days = (hours + 12) / 24;
                    if days < 14 {
                        spec_time_ago(days, "day"@)
                    } else if days < 70 {
                        spec_time_ago((days + 3) / 7, "week"@)
                    } else if days < 365 {
                        spec_time_ago((days + 15) / 30, "month"@)
                    } else if days < 1825 {
                        let total_months = (days * 12 * 2 + 365) / (365int * 2);
                        let years = total_months / 12;
                        let months = total_months % 12;
                        if months != 0 {
                            spec_time_ago(years, "year"@) + ", "@ + spec_time_ago(months, "month"@)
                        } else {
                            spec_time_ago(years, "year"@)
                        }
                    } else {
                        spec_time_ago((days + 183) / 365, "year"@)
                    }
                }
            }
        }
    }
}

/// Renders one bucket: the count, the unit, singular/plural, "ago".
fn time_ago(diff: u64, unit: &str) -> (r: String)
    ensures
        r@ == spec_time_ago(diff as int, unit@),
{
    let mut s = u64_to_string(diff);
    s.append(" ");
    s.append(unit);
    if diff == 1 {
        s.append(" ago");
    } else {
        s.append("s ago");
    }
    proof {
        assert(s@ =~= spec_time_ago(diff as int, unit@));
    }
    s
}

/// The human-relative date of `then` as seen at `now`, both in epoch
/// seconds.  Total: every pair of readings has a rendering.
pub fn to_relative(then: i64, now: i64) -> (r: String)
    ensures
        r@ == spec_relative(then as int, now as int),
{
    if now < then {
        return "in the future".to_owned();
    }
    let seconds: u128 = (now as i128 - then as i128) as u128;
    if seconds < 90 {
        return time_ago(seconds as u64, "second");
    }
    let minutes: u128 = (seconds + 30) / 60;
    if minutes < 90 {
        return time_ago(minutes as u64, "minute");
    }
    let hours: u128 = (minutes + 30) / 60;
    if hours < 36 {
        return time_ago(hours as u64, "hour");
    }
    let days: u128 = (hours + 12) / 24;
    if days < 14 {
        return time_ago(days as u64, "day");
    }
    if days < 70 {
        return time_ago(((days + 3) / 7) as u64, "week");
    }
    if days < 365 {
        return time_ago(((days + 15) / 30) as u64, "month");
    }
    if days < 1825 {
        let total_months: u128 = (days * 12 * 2 + 365) / (365 * 2);
        let years: u128 = total_months / 12;
        let months: u128 = total_months % 12;
        if months != 0 {
            let mut s = time_ago(years as u64, "year");
            s.append(", ");
            let months_part = time_ago(months as u64, "month");
            s.append(months_part.as_str());
            proof {
                assert(s@ =~= spec_relative(then as int, now as int));
            }
            return s;
        } else {
            return time_ago(years as u64, "year");
        }
    }
    time_ago(((days + 183) / 365) as u64, "year")
}

} // verus!
