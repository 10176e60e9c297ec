//! Instants with a fixed UTC offset, and the date formats feeds use for them.

use vstd::prelude::*;

verus! {

/// Largest magnitude of a Unix timestamp, in seconds, that chrono can represent
/// (its years stay within about 262 thousand of the epoch).
pub const MAX_ABS_SECS: i64 = 10_000_000_000_000;

/// Nanoseconds within a second: up to twice a second, for a leap second.
pub const NANOS_LIMIT: u32 = 2_000_000_000;

/// An instant, held as seconds since the Unix epoch and nanoseconds past that
/// second, with the UTC offset (seconds east) it was written in.
#[derive(Clone, Copy, Debug, PartialEq, Eq, Structural)]
pub struct Timestamp {
    pub secs: i64,
    pub nanos: u32,
    pub offset: i32,
}

/// The parts of a parsed date: seconds since the epoch, nanoseconds, offset.
pub type DateParts = (i64, u32, i32);

pub open spec fn parts_fit(p: DateParts) -> bool {
    -MAX_ABS_SECS < p.0 < MAX_ABS_SECS && p.1 < NANOS_LIMIT
}

pub open spec fn stamp_of(p: DateParts) -> Timestamp {
    Timestamp { secs: p.0, nanos: p.1, offset: p.2 }
}

impl Timestamp {
    pub open spec fn wf(self) -> bool {
        -MAX_ABS_SECS < self.secs < MAX_ABS_SECS && self.nanos < NANOS_LIMIT
    }

    /// Strictly earlier, as instants (the offset plays no part).
    pub open spec fn before(self, other: Timestamp) -> bool {
        self.secs < other.secs || (self.secs == other.secs && self.nanos < other.nanos)
    }

    /// Whole seconds from `earlier` to `self`, rounded down.
    pub open spec fn secs_since(self, earlier: Timestamp) -> int {
        self.secs - earlier.secs - (if self.nanos < earlier.nanos { 1int } else { 0int })
    }

    pub fn is_before(&self, other: &Timestamp) -> (r: bool)
        ensures
            r == self.before(*other),
    {
        self.secs < other.secs || (self.secs == other.secs && self.nanos < other.nanos)
    }

    pub fn seconds_since(&self, earlier: &Timestamp) -> (r: i64)
        requires
            self.wf(),
            earlier.wf(),
        ensures
            r == self.secs_since(*earlier),
    {
        let whole: i64 = self.secs - earlier.secs;
        if self.nanos < earlier.nanos {
            whole - 1
        } else {
            whole
        }
    }
}

/// What chrono's RFC 2822 parser yields for a text.
pub uninterp spec fn rfc2822_parse(s: Seq<char>) -> Option<DateParts>;

/// What chrono's relaxed RFC 3339 parser (`FromStr` of a fixed-offset date)
/// yields for a text.
pub uninterp spec fn rfc3339_relaxed_parse(s: Seq<char>) -> Option<DateParts>;

/// Relies on chrono's `DateTime::parse_from_rfc2822`, read back through
/// `timestamp`, `timestamp_subsec_nanos` and `local_minus_utc`, which stay in
/// chrono's representable range.
#[verifier::external_body]
fn parse_rfc2822(s: &str) -> (r: Option<DateParts>)
    ensures
        r == rfc2822_parse(s@),
        r matches Some(p) ==> parts_fit(p),
{
    match chrono::DateTime::parse_from_rfc2822(s) {
        Ok(d) => Some((d.timestamp(), d.timestamp_subsec_nanos(), d.offset().local_minus_utc())),
        Err(_) => None,
    }
}

/// Relies on chrono's `FromStr` for `DateTime<FixedOffset>` (relaxed RFC 3339),
/// read back as in `parse_rfc2822`.
#[verifier::external_body]
fn parse_rfc3339_relaxed(s: &str) -> (r: Option<DateParts>)
    ensures
        r == rfc3339_relaxed_parse(s@),
        r matches Some(p) ==> parts_fit(p),
{
    match <chrono::DateTime<chrono::FixedOffset> as std::str::FromStr>::from_str(s) {
        Ok(d) => Some((d.timestamp(), d.timestamp_subsec_nanos(), d.offset().local_minus_utc())),
        Err(_) => None,
    }
}

/// A way of reading a publication date.
#[derive(Clone, Copy, Debug, PartialEq, Eq, Structural)]
pub enum DateFormat {
    /// The syndication date format, e.g. `Wed, 18 Feb 2015 23:16:09 GMT`.
    Rfc2822,
    /// A generic timestamp, e.g. `2015-02-18T23:16:09+01:00`.
    Rfc3339Relaxed,
}

pub open spec fn parse_with(f: DateFormat, s: Seq<char>) -> Option<DateParts> {
    match f {
        DateFormat::Rfc2822 => rfc2822_parse(s),
        DateFormat::Rfc3339Relaxed => rfc3339_relaxed_parse(s),
    }
}

/// The formats tried for a publication date, in order.
pub open spec fn date_strategies() -> Seq<DateFormat> {
    seq![DateFormat::Rfc2822, DateFormat::Rfc3339Relaxed]
}

/// The result of the first format in `fs` that reads `s`.
pub open spec fn first_parse(fs: Seq<DateFormat>, s: Seq<char>) -> Option<DateParts>
    decreases fs.len(),
{
    if fs.len() == 0 {
        None
    } else {
        match parse_with(fs[0], s) {
            Some(p) => Some(p),
            None => first_parse(fs.drop_first(), s),
        }
    }
}

/// The publication date a text denotes, if any format reads it.
pub open spec fn published_at(s: Seq<char>) -> Option<Timestamp> {
    match first_parse(date_strategies(), s) {
        Some(p) => Some(stamp_of(p)),
        None => None,
    }
}

impl DateFormat {
    pub fn parse(&self, s: &str) -> (r: Option<DateParts>)
        ensures
            r == parse_with(*self, s@),
            r matches Some(p) ==> parts_fit(p),
    {
        match self {
            DateFormat::Rfc2822 => parse_rfc2822(s),
            DateFormat::Rfc3339Relaxed => parse_rfc3339_relaxed(s),
        }
    }
}

pub fn strategies() -> (r: Vec<DateFormat>)
    ensures
        r@ == date_strategies(),
{
    let r = vec![DateFormat::Rfc2822, DateFormat::Rfc3339Relaxed];
    assert(r@ =~= date_strategies());
    r
}

/// Reads a publication date, trying each format in order; the first that
/// succeeds wins.
pub fn parse_publish_date(s: &str) -> (r: Option<Timestamp>)
    ensures
        r == published_at(s@),
        r matches Some(t) ==> t.wf(),
{
    let fs = strategies();
    let mut i: usize = 0;
    assert(fs@.subrange(0, fs@.len() as int) =~= fs@);
    while i < fs.len()
        invariant
            fs@ == date_strategies(),
            i <= fs.len(),
            first_parse(fs@, s@) == first_parse(fs@.subrange(i as int, fs@.len() as int), s@),
        decreases fs.len() - i,
    {
        let f = fs[i];
        assert(fs@.subrange(i as int, fs@.len() as int)[0] == f);
        match f.parse(s) {
            Some(p) => {
                return Some(Timestamp { secs: p.0, nanos: p.1, offset: p.2 });
            },
            None => {
                assert(fs@.subrange(i as int, fs@.len() as int).drop_first() =~= fs@.subrange(
                    i + 1,
                    fs@.len() as int,
                ));
            },
        }
        i = i + 1;
    }
    assert(fs@.subrange(i as int, fs@.len() as int).len() == 0);
    None
}

} // verus!
