//! Shift calculator: maps an absolute timestamp to a shift identifier.
//!
//! The day shift of calendar day D covers 08:00 (inclusive) to 20:00
//! (exclusive) UTC; every other hour belongs to a night shift, labeled with
//! the day on which it started at 20:00. Timestamps outside the supported
//! calendar range fall back to the epoch origin rather than failing.

use vstd::prelude::*;

verus! {

/// Largest timestamp magnitude the calendar arithmetic covers, in epoch
/// milliseconds; beyond it the shift calculator falls back to the origin.
pub const SHIFT_MS_MAX: i64 = 8_000_000_000_000_000;

/// Offset added to a clamped timestamp to make it non-negative: a whole
/// number of days, so day and hour arithmetic are unchanged by it.
pub const DAY_OFFSET: i64 = 100_000_000;
pub const MS_OFFSET: i64 = 8_640_000_000_000_000;

pub const MS_PER_DAY: u64 = 86_400_000;
pub const MS_PER_HOUR: u64 = 3_600_000;

/// The timestamp actually used: out-of-range values fall back to the origin.
pub open spec fn clamped_ms(t: int) -> int {
    if -SHIFT_MS_MAX <= t <= SHIFT_MS_MAX {
        t
    } else {
        0
    }
}

/// Hour of the day (0..24) of the timestamp, in UTC.
pub open spec fn hour_of(t: int) -> int {
    ((clamped_ms(t) + MS_OFFSET) % (MS_PER_DAY as int)) / (MS_PER_HOUR as int)
}

/// Calendar day of the timestamp, counted from the epoch origin, in UTC.
pub open spec fn day_of(t: int) -> int {
    (clamped_ms(t) + MS_OFFSET) / (MS_PER_DAY as int) - DAY_OFFSET
}

/// Whether the timestamp falls in a night shift.
pub open spec fn is_night(t: int) -> bool {
    !(8 <= hour_of(t) < 20)
}

/// The calendar day whose shift the timestamp belongs to: night hours
/// before 08:00 still belong to the previous day's night shift.
pub open spec fn shift_day(t: int) -> int {
    if hour_of(t) < 8 {
        day_of(t) - 1
    } else {
        day_of(t)
    }
}

/// What chrono prints for a day number through `%Y-%m-%d`.
pub uninterp spec fn date_label_of(day: int) -> Seq<char>;

/// The shift identifier of the timestamp: the effective day's date followed
/// by a day or night tag.
pub open spec fn shift_label(t: int) -> Seq<char> {
    date_label_of(shift_day(t)) + if is_night(t) {
        "_NIGHT"@
    } else {
        "_DAY"@
    }
}

/// Relies on chrono's `NaiveDate::from_epoch_days` and its `%Y-%m-%d`
/// formatting: the printed date depends on the day number alone; day
/// numbers outside chrono's calendar fall back to the epoch origin.
#[verifier::external_body]
fn date_label(day: i64) -> (r: String)
    ensures
        r@ == date_label_of(day as int),
{
    let date = i32::try_from(day)
        .ok()
        .and_then(chrono::NaiveDate::from_epoch_days)
        .or_else(|| chrono::NaiveDate::from_epoch_days(0))
        .unwrap();
    date.format("%Y-%m-%d").to_string()
}

/// Relies on std's `SystemTime::now` for the wall clock; nothing is
/// assumed of the value it returns. A clock before the epoch or beyond
/// the returned range reads as the epoch origin rather than failing.
#[verifier::external_body]
pub(crate) fn now_epoch_ms() -> i64 {
    match std::time::SystemTime::now().duration_since(std::time::UNIX_EPOCH) {
        Ok(since_epoch) => i64::try_from(since_epoch.as_millis()).unwrap_or(0),
        Err(_) => 0,
    }
}

/// The shift identifier of an absolute timestamp.
pub fn shift_id(epoch_ms: i64) -> (r: String)
    ensures
        r@ == shift_label(epoch_ms as int),
{
    let t: i64 = if -SHIFT_MS_MAX <= epoch_ms && epoch_ms <= SHIFT_MS_MAX {
        epoch_ms
    } else {
        0
    };
    let u: u64 = (t + MS_OFFSET) as u64;
    let hour: u64 = (u % MS_PER_DAY) / MS_PER_HOUR;
    let day: i64 = (u / MS_PER_DAY) as i64 - DAY_OFFSET;
    let night: bool = !(8 <= hour && hour < 20);
    let eff_day: i64 = if hour < 8 {
        day - 1
    } else {
        day
    };
    assert(eff_day == shift_day(epoch_ms as int));
    assert(night == is_night(epoch_ms as int));
    let mut label = date_label(eff_day);
    label.append(if night {
        "_NIGHT"
    } else {
        "_DAY"
    });
    label
}

} // verus!
