//! Wall-clock time as plain numbers.

use vstd::prelude::*;

verus! {

/// The earliest second that a calendar date can name.
pub const MIN_SECS: i64 = -8_334_601_228_800;

/// The latest second that a calendar date can name.
pub const MAX_SECS: i64 = 8_210_266_876_799;

/// Nanoseconds in a second.
pub const SECOND: u32 = 1_000_000_000;

/// A point in time: seconds since the Unix epoch, and nanoseconds since that second. During a leap
/// second the nanoseconds go on past one second.
#[derive(Clone, Copy, Debug, PartialEq, Eq, Structural)]
pub struct Moment {
    pub secs: i64,
    pub nanos: u32,
}

/// A point in time with the local offset from UTC at which it was read.
#[derive(Clone, Copy, Debug, PartialEq, Eq, Structural)]
pub struct Timestamp {
    pub at: Moment,
    pub offset_secs: i32,
}

impl Moment {
    /// Whether a calendar date names this moment. Only the last second of a minute can be followed
    /// by a leap second.
    pub open spec fn on_calendar(self) -> bool {
        &&& MIN_SECS <= self.secs <= MAX_SECS
        &&& self.nanos < 2 * SECOND
        &&& self.nanos >= SECOND ==> self.secs as int % 60 == 59
    }

    /// The nanoseconds since the Unix epoch.
    pub open spec fn total_nanos(self) -> int {
        self.secs * SECOND + self.nanos
    }

    /// Whether this moment comes after `other`.
    pub open spec fn is_after(self, other: Moment) -> bool {
        self.secs > other.secs || (self.secs == other.secs && self.nanos > other.nanos)
    }

    /// This moment, `delta` seconds later. A leap second counts as the second that it extends.
    pub open spec fn later(self, delta: int) -> Moment {
        Moment {
            secs: (self.secs + delta) as i64,
            nanos: if self.nanos >= SECOND {
                (self.nanos - SECOND) as u32
            } else {
                self.nanos
            },
        }
    }

    /// Whether this moment comes after `other`.
    pub fn after(self, other: Moment) -> (r: bool)
        ensures
            r == self.is_after(other),
    {
        self.secs > other.secs || (self.secs == other.secs && self.nanos > other.nanos)
    }
}

/// Trusted: `chrono::Local::now`. It names a calendar date, with an offset of less than a day.
#[verifier::external_body]
pub(crate) fn local_now() -> (r: Timestamp)
    ensures
        r.at.on_calendar(),
        -86_400 < r.offset_secs < 86_400,
{
    let now = chrono::Local::now();
    Timestamp {
        at: Moment { secs: now.timestamp(), nanos: now.timestamp_subsec_nanos() },
        offset_secs: now.offset().local_minus_utc(),
    }
}

/// Trusted: `chrono::DateTime::timestamp_nanos_opt`. The nanoseconds since the Unix epoch, unless
/// they do not fit into an `i64`.
#[verifier::external_body]
pub(crate) fn timestamp_nanos(at: Moment) -> (r: Option<i64>)
    requires
        at.on_calendar(),
    ensures
        match r {
            Some(n) => n == at.total_nanos(),
            None => at.total_nanos() < i64::MIN || at.total_nanos() > i64::MAX,
        },
{
    chrono::DateTime::from_timestamp(at.secs, at.nanos)?.timestamp_nanos_opt()
}

/// Trusted: `chrono::DateTime::checked_add_signed`, for a span of at most a day. The result is
/// `delta` seconds later, outside any leap second; it is `None` past the last calendar date.
#[verifier::external_body]
pub(crate) fn plus_seconds(at: Moment, delta: i64) -> (r: Option<Moment>)
    requires
        at.on_calendar(),
        0 < delta <= 86_400,
    ensures
        at.secs + delta <= MAX_SECS ==> r == Some(at.later(delta as int)),
        at.secs + delta > MAX_SECS ==> r is None,
{
    let span = chrono::TimeDelta::try_seconds(delta)?;
    let sum = chrono::DateTime::from_timestamp(at.secs, at.nanos)?.checked_add_signed(span)?;
    Some(Moment { secs: sum.timestamp(), nanos: sum.timestamp_subsec_nanos() })
}

/// The number that names an instance created at `at`: its nanoseconds since the epoch without
/// their sign, or 0 when they do not fit.
pub open spec fn instance_number(at: Moment) -> nat {
    let n = at.total_nanos();
    if i64::MIN <= n <= i64::MAX {
        (if n < 0 {
            -n
        } else {
            n
        }) as nat
    } else {
        0
    }
}

/// Computes [`instance_number`].
pub fn instance_number_of(at: Moment) -> (r: u64)
    requires
        at.on_calendar(),
    ensures
        r == instance_number(at),
{
    match timestamp_nanos(at) {
        Some(n) => if n >= 0 {
            n as u64
        } else {
            (-(n as i128)) as u64
        },
        None => 0,
    }
}

} // verus!
