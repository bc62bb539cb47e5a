//! Points in time.

use vstd::prelude::*;

verus! {

pub const NANOS_PER_SECOND: i64 = 1_000_000_000;

pub const NANOS_PER_MILLISECOND: i64 = 1_000_000;

/// The first second that is a date, at the start of the year -262143.
pub const EARLIEST_SECOND: i64 = -8_334_601_228_800;

/// The last second that is a date, at the end of the year 262142.
pub const LATEST_SECOND: i64 = 8_210_266_876_799;

/// A point in time: the seconds since the Unix epoch, leap seconds not counted, and the
/// nanoseconds since then. In a leap second the nanoseconds of the second before it go on.
#[derive(Debug, Clone, Copy, PartialEq, Eq, Structural, Hash)]
pub struct Timestamp {
    pub secs: i64,
    pub subsec_nanos: u32,
}

impl Timestamp {
    /// The time `subsec_nanos` after `secs` seconds since the Unix epoch.
    pub fn from_parts(secs: i64, subsec_nanos: u32) -> (r: Self)
        ensures
            r.secs == secs,
            r.subsec_nanos == subsec_nanos,
    {
        Timestamp { secs, subsec_nanos }
    }

    /// Whether the time lies in the span of years that dates can be written for.
    pub open spec fn is_date(self) -> bool {
        EARLIEST_SECOND <= self.secs <= LATEST_SECOND && self.subsec_nanos < 2 * NANOS_PER_SECOND
    }

    /// Whether the time lies in a leap second.
    pub open spec fn is_leap(self) -> bool {
        self.subsec_nanos >= NANOS_PER_SECOND
    }

    /// Whether the time lies after another one.
    pub open spec fn is_after(self, other: Self) -> bool {
        self.secs > other.secs || (self.secs == other.secs && self.subsec_nanos
            > other.subsec_nanos)
    }

    /// The time some milliseconds later. A time in a leap second stays in it as long as it lasts;
    /// the time behind it is counted from its start on, as if it took the place of the second
    /// before it.
    pub open spec fn later_by(self, milliseconds: int) -> Timestamp {
        let wait = milliseconds * NANOS_PER_MILLISECOND;
        if self.is_leap() && self.subsec_nanos + wait < 2 * NANOS_PER_SECOND {
            Timestamp { secs: self.secs, subsec_nanos: (self.subsec_nanos + wait) as u32 }
        } else {
            let nanos = wait + if self.is_leap() {
                self.subsec_nanos - NANOS_PER_SECOND
            } else {
                self.subsec_nanos as int
            };
            Timestamp {
                secs: (self.secs + nanos / (NANOS_PER_SECOND as int)) as i64,
                subsec_nanos: (nanos % (NANOS_PER_SECOND as int)) as u32,
            }
        }
    }

    /// Whether the time lies after another one.
    pub fn lies_after(self, other: Self) -> (r: bool)
        ensures
            r == self.is_after(other),
    {
        self.secs > other.secs || (self.secs == other.secs && self.subsec_nanos
            > other.subsec_nanos)
    }

    /// The time some milliseconds later.
    pub fn plus_milliseconds(self, milliseconds: i64) -> (r: Self)
        requires
            self.subsec_nanos < 2 * NANOS_PER_SECOND,
            milliseconds >= 0,
            self.secs + milliseconds / 1_000 < i64::MAX,
        ensures
            r == self.later_by(milliseconds as int),
            r.subsec_nanos < 2 * NANOS_PER_SECOND,
    {
        let second: u32 = 1_000_000_000;
        let whole: i64 = milliseconds / 1_000;
        let part: u32 = ((milliseconds % 1_000) as u32) * 1_000_000;
        let is_leap = self.subsec_nanos >= second;
        assert(milliseconds * NANOS_PER_MILLISECOND == whole * NANOS_PER_SECOND + part);
        if is_leap && whole == 0 && self.subsec_nanos + part < 2_000_000_000 {
            return Timestamp { secs: self.secs, subsec_nanos: self.subsec_nanos + part };
        }
        let nanos: u32 = part + if is_leap {
            self.subsec_nanos - second
        } else {
            self.subsec_nanos
        };
        if nanos >= second {
            Timestamp { secs: self.secs + whole + 1, subsec_nanos: nanos - second }
        } else {
            Timestamp { secs: self.secs + whole, subsec_nanos: nanos }
        }
    }

    /// The present time of the machine's clock.
    pub fn now() -> (r: Self)
        ensures
            r.is_date(),
            r.secs >= 0,
            !r.is_leap(),
    {
        let (secs, subsec_nanos) = utc_clock();
        Timestamp::from_parts(secs, subsec_nanos)
    }
}

/// `chrono::Utc::now`, as whole seconds and the nanoseconds after them: a date since the Unix
/// epoch and in no leap second. Which one it is stays open.
#[verifier::external_body]
fn utc_clock() -> (r: (i64, u32))
    ensures
        0 <= r.0 <= LATEST_SECOND,
        r.1 < NANOS_PER_SECOND,
{
    let now = chrono::Utc::now();
    (now.timestamp(), now.timestamp_subsec_nanos())
}

/// A time is never after the time some milliseconds later.
pub proof fn law_later_times_are_not_before(time: Timestamp, milliseconds: int)
    requires
        time.is_date(),
        0 <= milliseconds <= i64::MAX,
    ensures
        !time.is_after(time.later_by(milliseconds)),
{
}

/// Outside leap seconds a time some milliseconds later lies exactly that many milliseconds later, a
/// thousand million nanoseconds to the second. A time in a leap second is counted as one in the
/// second after it that has not begun to count; while the leap second lasts, only its nanoseconds
/// go on.
pub proof fn law_milliseconds_are_counted(time: Timestamp, milliseconds: int)
    requires
        -8_334_601_228_800 <= time.secs <= 8_210_266_876_799,
        time.subsec_nanos < 2_000_000_000,
        0 <= milliseconds <= i64::MAX,
    ensures
        ({
            let later = time.later_by(milliseconds);
            let stays = time.subsec_nanos + milliseconds * 1_000_000 < 2_000_000_000;
            &&& time.subsec_nanos < 1_000_000_000 ==> {
                &&& later.subsec_nanos < 1_000_000_000
                &&& (later.secs - time.secs) * 1_000_000_000 + (later.subsec_nanos
                    - time.subsec_nanos) == milliseconds * 1_000_000
            }
            &&& time.subsec_nanos >= 1_000_000_000 && stays ==> {
                &&& later.secs == time.secs
                &&& later.subsec_nanos - time.subsec_nanos == milliseconds * 1_000_000
            }
            &&& time.subsec_nanos >= 1_000_000_000 && !stays ==> {
                &&& later.subsec_nanos < 1_000_000_000
                &&& (later.secs - time.secs) * 1_000_000_000 + (later.subsec_nanos - (
                time.subsec_nanos - 1_000_000_000)) == milliseconds * 1_000_000
            }
        }),
{
    let wait = milliseconds * 1_000_000;
    let nanos = wait + if time.subsec_nanos >= 1_000_000_000 {
        time.subsec_nanos - 1_000_000_000
    } else {
        time.subsec_nanos as int
    };
    assert(nanos == (nanos / 1_000_000_000) * 1_000_000_000 + nanos % 1_000_000_000);
}

/// Of two different times exactly one lies after the other: the one with more seconds, or with more
/// nanoseconds in the same second.
pub proof fn law_times_are_ordered(a: Timestamp, b: Timestamp, c: Timestamp)
    ensures
        a.secs > b.secs ==> a.is_after(b),
        a.secs == b.secs ==> (a.is_after(b) <==> a.subsec_nanos > b.subsec_nanos),
        !(a.is_after(b) && b.is_after(a)),
        a == b || a.is_after(b) || b.is_after(a),
        a.is_after(b) && b.is_after(c) ==> a.is_after(c),
{
}

} // verus!
