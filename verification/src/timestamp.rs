//! Points in time, to the nanosecond.
use chrono::{DateTime, Utc};
use vstd::prelude::*;

verus! {

/// A point in time: whole seconds since 1970-01-01T00:00:00Z, and the nanoseconds that follow them.
/// A leap second is the second before it with a nanosecond part of at least one billion.
#[derive(Debug, Clone, Copy, PartialEq, Eq, Hash, Structural)]
pub struct Timestamp {
    pub secs: i64,
    pub nanos: u32,
}

impl Timestamp {
    /// Whether the calendar holds this point: it runs from the year -262143 to the year 262142.
    pub open spec fn in_calendar(self) -> bool {
        &&& -8_334_601_228_800 <= self.secs <= 8_210_266_876_799
        &&& self.nanos < 2_000_000_000
        &&& self.nanos >= 1_000_000_000 ==> self.secs % 60 == 59
    }

    /// Whether this point lies after `other`.
    pub open spec fn after(self, other: Timestamp) -> bool {
        self.secs > other.secs || (self.secs == other.secs && self.nanos > other.nanos)
    }

    /// Whether this point lies after `other`.
    pub fn is_after(&self, other: &Timestamp) -> (r: bool)
        ensures
            r == self.after(*other),
    {
        self.secs > other.secs || (self.secs == other.secs && self.nanos > other.nanos)
    }
}

/// Points in time are in a line: one of two different ones lies after the other.
pub proof fn time_is_a_line(a: Timestamp, b: Timestamp, c: Timestamp)
    ensures
        !a.after(a),
        a != b ==> a.after(b) != b.after(a),
        a.after(b) && b.after(c) ==> a.after(c),
{
}

impl Default for Timestamp {
    /// The start of the count.
    fn default() -> (r: Timestamp)
        ensures
            r == (Timestamp { secs: 0, nanos: 0 }),
    {
        Timestamp { secs: 0, nanos: 0 }
    }
}

/// What `chrono` reads out of a date and time in the relaxed form of RFC 3339.
pub uninterp spec fn rfc3339_value(text: Seq<char>) -> Option<Timestamp>;

/// How `chrono` writes a point in time in RFC 3339.
pub uninterp spec fn rfc3339_text(at: Timestamp) -> Seq<char>;

/// Calls `chrono`'s `<DateTime<Utc> as FromStr>::from_str`. Its result depends on the text alone,
/// and a point that it returns is one that the calendar holds. Which texts it accepts is not said.
#[verifier::external_body]
pub(crate) fn parse_utc(text: &str) -> (r: Option<Timestamp>)
    ensures
        r == rfc3339_value(text@),
        r matches Some(at) ==> at.in_calendar(),
{
    match text.parse::<DateTime<Utc>>() {
        Ok(at) => Some(Timestamp { secs: at.timestamp(), nanos: at.timestamp_subsec_nanos() }),
        Err(_) => None,
    }
}

/// Calls `chrono`'s `DateTime::<Utc>::to_rfc3339`. Its result depends on the point alone, and
/// `from_str` reads the same point out of it again: a year of more than four digits, or before the
/// year 0, is written and read with its sign, and a leap second as the second 60.
#[verifier::external_body]
pub(crate) fn format_utc(at: Timestamp) -> (r: String)
    requires
        at.in_calendar(),
    ensures
        r@ == rfc3339_text(at),
        rfc3339_value(r@) == Some(at),
{
    DateTime::<Utc>::from_timestamp(at.secs, at.nanos).unwrap().to_rfc3339()
}

/// One point lies after another exactly where it is later in a count that runs over the seconds, and
/// within each over the nanoseconds.
pub proof fn later_means_further_on(a: Timestamp, b: Timestamp)
    ensures
        a.after(b) <==> a.secs * 0x1_0000_0000 + a.nanos > b.secs * 0x1_0000_0000 + b.nanos,
{
}

} // verus!
