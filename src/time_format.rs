//! Human-relative phrases for elapsed time.

use vstd::prelude::*;

verus! {

pub const SECS_PER_MINUTE: u64 = 60;
pub const SECS_PER_HOUR: u64 = 3600;
pub const SECS_PER_DAY: u64 = 86400;
pub const SECS_PER_WEEK: u64 = 604800;

/// The ASCII digit for `d < 10`.
pub open spec fn digit_char(d: nat) -> char {
    if d == 0 { '0' } else if d == 1 { '1' } else if d == 2 { '2' } else if d == 3 { '3' }
    else if d == 4 { '4' } else if d == 5 { '5' } else if d == 6 { '6' } else if d == 7 { '7' }
    else if d == 8 { '8' } else { '9' }
}

/// Decimal notation of a natural number, without sign or leading zeros.
pub open spec fn decimal(n: nat) -> Seq<char>
    decreases n,
{
    if n < 10 {
        seq![digit_char(n)]
    } else {
        decimal(n / 10).push(digit_char(n % 10))
    }
}

/// The phrase shown for an elapsed time of `secs` seconds. Counts are floored;
/// years and months keep the remainder arithmetic of the feed reader
/// (`days mod 365`, `days mod 30`).
pub open spec fn relative_phrase(secs: int) -> Seq<char> {
    let days = secs / 86400;
    let weeks = secs / 604800;
    let hours = secs / 3600;
    let minutes = secs / 60;
    if days == 365 {
        "year ago"@
    } else if days > 365 {
        decimal((days % 365) as nat) + " years ago"@
    } else if weeks == 4 {
        "month ago"@
    } else if weeks > 4 {
        decimal((days % 30) as nat) + " months ago"@
    } else if weeks == 1 {
        "week ago"@
    } else if weeks > 1 {
        decimal(weeks as nat) + " weeks ago"@
    } else if days == 1 {
        "day ago"@
    } else if days > 1 {
        decimal(days as nat) + " days ago"@
    } else if hours == 1 {
        "hour ago"@
    } else if hours > 1 {
        decimal(hours as nat) + " hours ago"@
    } else if minutes == 1 {
        "minute ago"@
    } else if minutes > 1 {
        decimal(minutes as nat) + " minutes ago"@
    } else {
        "just now"@
    }
}

/// Relies on std's `ToString` for `u64`: the decimal digits of the number.
#[verifier::external_body]
fn decimal_string(n: u64) -> (r: String)
    ensures
        r@ == decimal(n as nat),
{
    n.to_string()
}

/// A count followed by a unit phrase.
fn counted(n: u64, unit: &str) -> (r: String)
    ensures
        r@ == decimal(n as nat) + unit@,
{
    let mut s = decimal_string(n);
    s.append(unit);
    s
}

/// Converts an elapsed time in whole seconds to a human-friendly phrase such as
/// "just now", "3 days ago" or "week ago". A negative delta (a timestamp in the
/// future) reads "just now".
pub fn date_diff(delta: i64) -> (r: String)
    ensures
        r@ == relative_phrase(delta as int),
{
    if delta < 60 {
        return "just now".to_owned();
    }
    let d: u64 = delta as u64;
    let days: u64 = d / SECS_PER_DAY;
    let weeks: u64 = d / SECS_PER_WEEK;
    let hours: u64 = d / SECS_PER_HOUR;
    let minutes: u64 = d / SECS_PER_MINUTE;
    if days == 365 {
        "year ago".to_owned()
    } else if days > 365 {
        counted(days % 365, " years ago")
    } else if weeks == 4 {
        "month ago".to_owned()
    } else if weeks > 4 {
        counted(days % 30, " months ago")
    } else if weeks == 1 {
        "week ago".to_owned()
    } else if weeks > 1 {
        counted(weeks, " weeks ago")
    } else if days == 1 {
        "day ago".to_owned()
    } else if days > 1 {
        counted(days, " days ago")
    } else if hours == 1 {
        "hour ago".to_owned()
    } else if hours > 1 {
        counted(hours, " hours ago")
    } else if minutes == 1 {
        "minute ago".to_owned()
    } else {
        counted(minutes, " minutes ago")
    }
}

} // verus!
