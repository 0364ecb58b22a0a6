//! What can be set from outside.

use crate::clock::{on_calendar, FIRST_SECOND, LAST_SECOND};
use crate::number::{lemma_unsigned, number_of, parse_i64, parse_usize};
use vstd::prelude::*;

verus! {

/// The limits of the aggregation.
pub struct Settings {
    /// For how many seconds counters are kept.
    pub seconds_kept: i64,
    /// How many entries the lists of a report hold.
    pub top_amount: usize,
    /// How many bits select a register of a distinct-value sketch.
    pub hyperloglog_size: usize,
}

/// The seconds of a report, first to last: the last `seconds_kept` up to `timestamp`.
pub open spec fn report_seconds(seconds_kept: int, timestamp: int) -> Seq<int> {
    Seq::new(
        if seconds_kept > 0 {
            seconds_kept as nat
        } else {
            0
        },
        |i: int| 1 + timestamp - seconds_kept + i,
    )
}

/// A setting: the number that a variable holds, or the default where it holds none of the type.
pub open spec fn setting(
    text: Option<String>,
    signed: bool,
    min: int,
    max: int,
    default: int,
) -> int {
    match text {
        Some(text) => match number_of(text@, signed) {
            Some(n) => if min <= n <= max {
                n
            } else {
                default
            },
            None => default,
        },
        None => default,
    }
}

fn usize_setting(text: &Option<String>, default: usize) -> (n: usize)
    ensures
        n == setting(*text, false, 0, usize::MAX as int, default as int),
{
    match text {
        Some(text) => {
            proof {
                lemma_unsigned(text@);
            }
            match parse_usize(text.as_str()) {
                Some(n) => n,
                None => default,
            }
        },
        None => default,
    }
}

impl Settings {
    /// Reads the settings from the variables `AGGREGATED_SECONDS`, `AGGREGATED_TOP` and
    /// `AGGREGATED_HLL_SIZE`.
    pub fn from_vars(
        seconds: &Option<String>,
        top: &Option<String>,
        hll_size: &Option<String>,
    ) -> (s: Settings)
        ensures
            s.seconds_kept == setting(*seconds, true, i64::MIN as int, i64::MAX as int, 5),
            s.top_amount == setting(*top, false, 0, usize::MAX as int, 25),
            s.hyperloglog_size == setting(*hll_size, false, 0, usize::MAX as int, 8),
    {
        let seconds_kept = match seconds {
            Some(text) => match parse_i64(text.as_str()) {
                Some(n) => n,
                None => 5,
            },
            None => 5,
        };
        Settings {
            seconds_kept,
            top_amount: usize_setting(top, 25),
            hyperloglog_size: usize_setting(hll_size, 8),
        }
    }

    /// Whether the seconds of a report at `timestamp` are machine numbers on the calendar.
    pub open spec fn reportable(self, timestamp: i64) -> bool {
        &&& 1 + timestamp <= i64::MAX
        &&& i64::MIN <= timestamp - self.seconds_kept < i64::MAX
        &&& self.seconds_kept > 0 ==> on_calendar(1 + timestamp - self.seconds_kept)
            && on_calendar(timestamp as int)
    }

    /// Whether the seconds of a report at `timestamp` are machine numbers on the calendar.
    pub fn can_report(&self, timestamp: i64) -> (r: bool)
        ensures
            r == self.reportable(timestamp),
    {
        if timestamp == i64::MAX {
            return false;
        }
        match timestamp.checked_sub(self.seconds_kept) {
            None => false,
            Some(limit) => limit < i64::MAX && (self.seconds_kept <= 0 || (limit + 1
                >= FIRST_SECOND && limit + 1 <= LAST_SECOND && timestamp >= FIRST_SECOND
                && timestamp <= LAST_SECOND)),
        }
    }

    /// Whether counters can be made with these settings.
    pub fn is_valid(&self) -> (r: bool)
        ensures
            r == self.valid(),
    {
        4 <= self.hyperloglog_size && self.hyperloglog_size <= 18 && self.top_amount <= usize::MAX
            / 2
    }

    /// Whether counters can be made with these settings.
    pub open spec fn valid(self) -> bool {
        4 <= self.hyperloglog_size <= 18 && 2 * self.top_amount <= usize::MAX
    }
}

/// A setting is the number that its variable holds, where that is in range, and the default in
/// every other case.
pub proof fn law_setting(
    text: Option<String>,
    signed: bool,
    min: int,
    max: int,
    default: int,
    n: int,
)
    ensures
        text is None ==> setting(text, signed, min, max, default) == default,
        text matches Some(t) ==> number_of(t@, signed) == Some(n) && min <= n <= max ==> setting(
            text,
            signed,
            min,
            max,
            default,
        ) == n,
        text matches Some(t) ==> number_of(t@, signed) == Some(n) && !(min <= n <= max) ==> setting(
            text,
            signed,
            min,
            max,
            default,
        ) == default,
        text matches Some(t) ==> number_of(t@, signed) is None ==> setting(
            text,
            signed,
            min,
            max,
            default,
        ) == default,
{
}

} // verus!
