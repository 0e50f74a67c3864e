//! The system clock.

use std::time::UNIX_EPOCH;
use vstd::prelude::*;

verus! {

/// Trusted: `std::time::SystemTime::elapsed`, called on the Unix epoch, gives the
/// time from the epoch to the reading of the system clock, and fails if the clock
/// is set to a time before the epoch. The time is handed out as whole seconds and
/// the nanoseconds beyond them, which make less than a second. Which time it is,
/// is left to the clock.
#[verifier::external_body]
fn since_epoch() -> (elapsed: Option<(u64, u32)>)
    ensures
        elapsed matches Some((_, nanos)) ==> nanos < 1_000_000_000,
{
    match UNIX_EPOCH.elapsed() {
        Ok(elapsed) => Some((elapsed.as_secs(), elapsed.subsec_nanos())),
        Err(_) => None,
    }
}

/// The whole seconds of a time that is given as seconds and the nanoseconds
/// beyond them.
pub fn whole_seconds(elapsed: Option<(u64, u32)>) -> (secs: Option<u64>)
    ensures
        match elapsed {
            Some((whole, _)) => secs == Some(whole),
            None => secs is None,
        },
{
    match elapsed {
        Some((whole, _)) => Some(whole),
        None => None,
    }
}

/// Whether a call of the system clock has come out at `elapsed` whole seconds
/// since the Unix epoch, or, for `None`, at a time before it. Only a call of the
/// clock shows it of a value.
pub closed spec fn clock_gave(elapsed: Option<u64>) -> bool {
    exists|reading: Option<(u64, u32)>|
        #[trigger] call_ensures(since_epoch, (), reading) && match reading {
            Some((whole, _)) => elapsed == Some(whole),
            None => elapsed is None,
        }
}

/// The whole seconds since the Unix epoch, or `None` if the system clock is set
/// to a time before it: the [`whole_seconds`] of the clock's reading. Which
/// reading it is, is left to the clock, so any outcome is possible.
pub(crate) fn unix_seconds() -> (elapsed: Option<u64>)
    ensures
        clock_gave(elapsed),
{
    let reading = since_epoch();
    whole_seconds(reading)
}

/// What the clock gave is what a call of it came out at: the whole seconds of the
/// outcome, whatever its nanoseconds are.
proof fn law_clock_gave_is_outcome(elapsed: Option<u64>)
    ensures
        clock_gave(elapsed) ==> exists|reading: Option<(u64, u32)>|
            #[trigger] call_ensures(since_epoch, (), reading) && (reading is Some <==> elapsed
                is Some) && (reading is Some ==> reading.unwrap().0 == elapsed.unwrap()),
{
}

/// Whole seconds are counted down to the last one that is over: the nanoseconds of a
/// time play no part, and a time before the epoch has none.
pub proof fn law_whole_seconds(whole: u64, nanos: u32, secs: Option<u64>)
    ensures
        call_ensures(whole_seconds, (Some((whole, nanos)),), secs) ==> secs == Some(whole),
        call_ensures(whole_seconds, (None,), secs) ==> secs is None,
{
}

} // verus!
