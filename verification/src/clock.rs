//! Points in time.
//!
//! `chrono` reads the clock, measures and prints; here an instant is a pair of plain numbers.

use crate::json::{json_of, Json};
use serde_json::Value;
use vstd::prelude::*;

verus! {

/// The first second of the calendar.
pub const FIRST_SECOND: i64 = -8_334_601_228_800;

/// The last second of the calendar.
pub const LAST_SECOND: i64 = 8_210_266_876_799;

/// An instant: the seconds since 1970, and the nanoseconds since that second.
///
/// During a leap second the nanoseconds go on past a whole second.
pub struct Timestamp {
    pub secs: i64,
    pub nanos: u32,
}

/// Whether a second lies within the calendar.
pub open spec fn on_calendar(secs: int) -> bool {
    FIRST_SECOND <= secs <= LAST_SECOND
}

impl Timestamp {
    /// Whether the instant lies within the calendar.
    pub open spec fn valid(self) -> bool {
        &&& on_calendar(self.secs as int)
        &&& self.nanos < 1_000_000_000 || (self.nanos < 2_000_000_000 && self.secs % 60 == 59)
    }

    /// Whether the instant lies in a leap second.
    pub open spec fn leaps(self) -> bool {
        self.nanos >= 1_000_000_000
    }

    /// The seconds since midnight.
    pub open spec fn second_of_day(self) -> int {
        self.secs as int % 86_400
    }

    /// Whether the instant lies within the calendar.
    pub fn is_valid(&self) -> (r: bool)
        ensures
            r == self.valid(),
    {
        if self.secs < FIRST_SECOND || self.secs > LAST_SECOND {
            return false;
        }
        if self.nanos < 1_000_000_000 {
            return true;
        }
        let since_first: u64 = (self.secs - FIRST_SECOND) as u64;
        self.nanos < 2_000_000_000 && since_first % 60 == 59
    }
}

/// The nanoseconds from `start` to `now`. A leap second between two times of day counts where
/// one of the two instants lies in it.
pub open spec fn elapsed_nanos(now: Timestamp, start: Timestamp) -> int {
    let leap: int = if now.second_of_day() > start.second_of_day() && start.leaps() {
        1
    } else if now.second_of_day() < start.second_of_day() && now.leaps() {
        -1
    } else {
        0
    };
    (now.secs - start.secs + leap) * 1_000_000_000 + (now.nanos - start.nanos)
}

/// The whole microseconds from `start` to `now`, or nothing if they are no `i64`.
pub open spec fn elapsed_micros(now: Timestamp, start: Timestamp) -> Option<i64> {
    let nanos = elapsed_nanos(now, start);
    let micros = if nanos >= 0 {
        nanos / 1000
    } else {
        -((-nanos) / 1000)
    };
    if i64::MIN <= micros <= i64::MAX {
        Some(micros as i64)
    } else {
        None
    }
}

/// The text of a second in a report: its date and time of day.
pub uninterp spec fn timestamp_text(secs: int) -> Seq<char>;

/// `chrono::Utc::now`: some instant within the calendar.
///
/// Which instant it is, is left unsaid. It panics where the machine's clock stands before 1970.
#[verifier::external_body]
pub(crate) fn utc_now() -> (now: Timestamp)
    ensures
        now.valid(),
{
    let now = chrono::Utc::now();
    Timestamp { secs: now.timestamp(), nanos: now.timestamp_subsec_nanos() }
}

/// `chrono::DateTime::signed_duration_since` with `chrono::TimeDelta::num_microseconds`: the
/// whole microseconds between two instants, towards zero, or nothing if they are no `i64`.
#[verifier::external_body]
fn micros_between(now: &Timestamp, start: &Timestamp) -> (micros: Option<i64>)
    requires
        now.valid(),
        start.valid(),
    ensures
        micros == elapsed_micros(*now, *start),
{
    let end = chrono::DateTime::from_timestamp(now.secs, now.nanos).unwrap();
    let begin = chrono::DateTime::from_timestamp(start.secs, start.nanos).unwrap();
    end.signed_duration_since(begin).num_microseconds()
}

/// The whole microseconds that a request took which came in at `start` and ended at `now`.
pub fn processing_micros(now: &Timestamp, start: &Timestamp) -> (micros: Option<i64>)
    requires
        now.valid(),
        start.valid(),
    ensures
        micros == elapsed_micros(*now, *start),
{
    micros_between(now, start)
}

/// `serde_json::to_value` of the `chrono::DateTime` of a second: a string, which is the text of
/// the second. It gives no error: the date writes itself, and a string takes all of it.
#[verifier::external_body]
pub(crate) fn timestamp_value(secs: i64) -> (v: Result<Value, serde_json::Error>)
    requires
        on_calendar(secs as int),
    ensures
        v is Ok,
        json_of(v->Ok_0) == Json::Text(timestamp_text(secs as int)),
{
    serde_json::to_value(chrono::DateTime::from_timestamp(secs, 0).unwrap())
}

/// The second that it is now.
pub fn current_second() -> (secs: i64)
    ensures
        on_calendar(secs as int),
{
    utc_now().secs
}

/// Between two instants outside leap seconds, the microseconds are the difference of the two, cut
/// off towards zero. Nothing comes out only where they are no `i64`.
pub proof fn law_elapsed(now: Timestamp, start: Timestamp)
    requires
        now.nanos < 1_000_000_000,
        start.nanos < 1_000_000_000,
    ensures
        ({
            let nanos = (now.secs * 1_000_000_000 + now.nanos) - (start.secs * 1_000_000_000
                + start.nanos);
            match elapsed_micros(now, start) {
                Some(micros) => {
                    &&& nanos >= 0 ==> micros * 1000 <= nanos < micros * 1000 + 1000
                    &&& nanos <= 0 ==> micros * 1000 - 1000 < nanos <= micros * 1000
                },
                None => nanos / 1000 > i64::MAX || -nanos / 1000 > i64::MAX,
            }
        }),
{
}

/// From one instant to another it is as long as back.
pub proof fn law_elapsed_back(now: Timestamp, start: Timestamp)
    requires
        now.nanos < 1_000_000_000,
        start.nanos < 1_000_000_000,
    ensures
        elapsed_micros(now, start) matches Some(micros) ==> micros != i64::MIN ==> elapsed_micros(
            start,
            now,
        ) == Some((-micros) as i64),
{
}

/// The instants of the calendar: any nanosecond of its seconds, and in the last second of a minute
/// those of a leap second too.
pub proof fn law_valid_instants(t: Timestamp)
    ensures
        t.nanos < 1_000_000_000 ==> (t.valid() <==> FIRST_SECOND <= t.secs <= LAST_SECOND),
        t.nanos >= 1_000_000_000 ==> (t.valid() <==> FIRST_SECOND <= t.secs <= LAST_SECOND
            && t.nanos < 2_000_000_000 && t.secs % 60 == 59),
{
}

} // verus!
