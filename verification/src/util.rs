//! Small timing helpers shared by the gateway and the server.

use vstd::prelude::*;

verus! {

/// Relies on `std::time::SystemTime::now` and `duration_since`: the current
/// time as whole milliseconds since the Unix epoch, or 0 when the system
/// clock reads earlier than the epoch. Nothing is promised of the value: it
/// depends on the wall clock.
#[verifier::external_body]
pub fn time_now_ms() -> u64 {
    match std::time::SystemTime::now().duration_since(std::time::SystemTime::UNIX_EPOCH) {
        Ok(duration) => duration.as_millis() as u64,
        Err(_) => 0,
    }
}

/// The filter-step interval for a tick at `now_ms` when the previous tick
/// ran at `prev_ms`: the elapsed time, clamped to 10 seconds so that a
/// scheduler stall cannot produce an absurd step.
pub fn clamped_dt_ms(prev_ms: u64, now_ms: u64) -> (dt: u64)
    ensures
        now_ms <= prev_ms ==> dt == 0,
        now_ms > prev_ms ==> dt == if now_ms - prev_ms < 10_000 {
            now_ms - prev_ms
        } else {
            10_000
        },
{
    if now_ms <= prev_ms {
        0
    } else if now_ms - prev_ms < 10_000 {
        now_ms - prev_ms
    } else {
        10_000
    }
}

/// How long file replay must sleep before forwarding a record stamped
/// `time_ms`, when the previous record was stamped `prev_time_ms`: the
/// inter-arrival gap, except that the first record (previous stamp 0) and
/// records that do not move forward in time are forwarded at once.
pub fn replay_delay_ms(prev_time_ms: u64, time_ms: u64) -> (delay: u64)
    ensures
        delay == if prev_time_ms != 0 && prev_time_ms < time_ms {
            time_ms - prev_time_ms
        } else {
            0
        },
{
    if prev_time_ms != 0 && prev_time_ms < time_ms {
        time_ms - prev_time_ms
    } else {
        0
    }
}

} // verus!
