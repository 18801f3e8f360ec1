//! The current moment, read from the system clock.

use vstd::prelude::*;
use crate::timestamp::Timestamp;

verus! {

/// Relies on `time::OffsetDateTime::now_utc` and its component accessors:
/// `month` converts to 1..=12, `day` is 1..=31, `hour` is 0..=23, `minute`
/// and `second` are 0..=59 and `nanosecond` is below one billion, as that
/// crate documents.  Nothing is assumed about the year.
#[verifier::external_body]
fn now_parts() -> (r: (i32, u8, u8, u8, u8, u8, u32))
    ensures
        1 <= r.1 <= 12,
        1 <= r.2 <= 31,
        r.3 <= 23,
        r.4 <= 59,
        r.5 <= 59,
        r.6 <= 999999999,
{
    let n = time::OffsetDateTime::now_utc();
    (n.year(), u8::from(n.month()), n.day(), n.hour(), n.minute(), n.second(), n.nanosecond())
}

/// The current moment in UTC.  Should the clock report a date outside the
/// four-digit calendar, the first representable moment stands in.
pub fn now_timestamp() -> (t: Timestamp)
    ensures
        t.valid(),
        t.offset_minutes == 0,
{
    let (year, month, day, hour, minute, second, nanosecond) = now_parts();
    if 0 <= year && year <= 9999 {
        let t = Timestamp {
            year: year as u16,
            month,
            day,
            hour,
            minute,
            second,
            nanosecond,
            offset_minutes: 0,
        };
        if t.is_valid() {
            return t;
        }
    }
    Timestamp {
        year: 0,
        month: 1,
        day: 1,
        hour: 0,
        minute: 0,
        second: 0,
        nanosecond: 0,
        offset_minutes: 0,
    }
}

} // verus!
