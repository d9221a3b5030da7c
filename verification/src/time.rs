//! Time arithmetic for local-midnight alignment and host block scheduling.
//!
//! Timestamps are unsigned seconds since the epoch; a timezone is a signed
//! hour offset. The host delivers scheduled commands with a delay expressed
//! in blocks, one block per three seconds, so delays are converted with a
//! ceiling division.

use vstd::prelude::*;

verus! {

/// Seconds per local day.
pub const SECONDS_PER_DAY: u64 = 86400;

/// Seconds per timezone hour offset.
pub const SECONDS_PER_HOUR: u64 = 3600;

/// A timestamp shifted into the local clock of the given timezone.
pub open spec fn local_time_of(timestamp: u64, timezone: i8) -> int {
    timestamp + timezone * 3600
}

/// Whether a timestamp is an exact local midnight under the given timezone.
pub open spec fn is_local_midnight(timestamp: u64, timezone: i8) -> bool {
    local_time_of(timestamp, timezone) % 86400 == 0
}

/// The block delay that covers the given number of seconds: seconds divided
/// by the three-second block time, rounded up.
pub open spec fn blocks_of(seconds: u64) -> int {
    (seconds + 2) / 3
}

/// The local midnight that starts the day lying `days` whole days after the
/// day of `start_timestamp`, expressed again as an epoch timestamp.
pub open spec fn future_day_start_of(start_timestamp: u64, timezone: i8, days: u32) -> int {
    let local = local_time_of(start_timestamp, timezone);
    let current_day_start = local - local % 86400;
    current_day_start + days * 86400 - timezone * 3600
}

/// Shifts an epoch timestamp into the local clock of `timezone`.
pub fn timestamp_to_local_time(timestamp: u64, timezone: i8) -> (local: i64)
    requires
        -12 <= timezone <= 12,
        timestamp + 43200 <= i64::MAX,
    ensures
        local == local_time_of(timestamp, timezone),
{
    timestamp as i64 + (timezone as i64) * 3600
}

/// Whether `timestamp` is an exact local midnight under `timezone`.
pub fn is_start_of_day(timestamp: u64, timezone: i8) -> (midnight: bool)
    requires
        -12 <= timezone <= 12,
        timestamp + 43200 <= i64::MAX,
    ensures
        midnight == is_local_midnight(timestamp, timezone),
{
    let local: i64 = timestamp_to_local_time(timestamp, timezone);
    if local < 0 {
        // A negative local clock lies strictly inside the day before the
        // epoch: the offset is at most twelve hours, so local midnight is
        // never reached.
        proof {
            vstd::arithmetic::div_mod::lemma_fundamental_div_mod_converse(
                local as int,
                86400,
                -1,
                local + 86400,
            );
        }
        false
    } else {
        (local as u64) % SECONDS_PER_DAY == 0
    }
}

/// Converts a duration in seconds into the number of blocks that covers it.
pub fn seconds_to_blocks(seconds: u64) -> (blocks: u64)
    requires
        seconds + 2 <= u64::MAX,
    ensures
        blocks == blocks_of(seconds),
{
    (seconds + 2) / 3
}

/// Computes the epoch timestamp of the local midnight `days` whole days
/// after the day of `start_timestamp` under `timezone`.
pub fn calculate_future_day_start(start_timestamp: u64, timezone: i8, days: u32) -> (day_start:
    u64)
    requires
        -12 <= timezone <= 12,
        0 <= local_time_of(start_timestamp, timezone),
        local_time_of(start_timestamp, timezone) + days * 86400 + 43200 <= i64::MAX,
        0 <= future_day_start_of(start_timestamp, timezone, days),
    ensures
        day_start == future_day_start_of(start_timestamp, timezone, days),
{
    let local: i64 = start_timestamp as i64 + (timezone as i64) * 3600;
    let local_u: u64 = local as u64;
    proof {
        vstd::arithmetic::div_mod::lemma_mod_decreases(local_u as nat, 86400nat);
    }
    let current_day_start: u64 = local_u - local_u % SECONDS_PER_DAY;
    let future: u64 = current_day_start + (days as u64) * SECONDS_PER_DAY;
    let shifted_back: i64 = future as i64 - (timezone as i64) * 3600;
    shifted_back as u64
}

} // verus!
