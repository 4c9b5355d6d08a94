//! The wall clock.
use vstd::prelude::*;

verus! {

#[verifier::external_type_specification]
#[verifier::external_body]
pub struct ExSystemTime(std::time::SystemTime);

/// Reads the system clock (`SystemTime::now`). Nothing is stated of the
/// value: it depends on the time of the call.
#[verifier::external_body]
fn system_now() -> (t: std::time::SystemTime) {
    std::time::SystemTime::now()
}

/// The time from the Unix epoch to `t` (`SystemTime::duration_since` with
/// `UNIX_EPOCH`), `None` when `t` is before the epoch. Nothing is stated of
/// the value: `SystemTime` is opaque here.
#[verifier::external_body]
fn since_unix_epoch(t: &std::time::SystemTime) -> (d: Option<core::time::Duration>) {
    t.duration_since(std::time::UNIX_EPOCH).ok()
}

/// The whole seconds of `d` (`Duration::as_secs`). Nothing is stated of the
/// value: `Duration` is opaque here.
#[verifier::external_body]
fn whole_seconds(d: &core::time::Duration) -> (secs: u64) {
    d.as_secs()
}

/// The epoch seconds from the whole seconds since the epoch, if the clock
/// reads after it: that count taken as an `i64` (wrapping, as a cast does),
/// or 0 when the clock reads before the epoch.
pub open spec fn epoch_secs(since_epoch: Option<u64>) -> i64 {
    match since_epoch {
        Some(secs) => secs as i64,
        None => 0,
    }
}

pub fn epoch_secs_from(since_epoch: Option<u64>) -> (r: i64)
    ensures
        r == epoch_secs(since_epoch),
{
    match since_epoch {
        Some(secs) => {
            #[verifier::truncate]
            (secs as i64)
        },
        None => 0,
    }
}

/// Seconds since the Unix epoch, 0 if the clock reads before it. The value
/// depends on the time of the call, so no clause states it; what is done
/// with the clock's reading is `epoch_secs_from`.
pub fn now_epoch_secs() -> (r: i64) {
    let now = system_now();
    let since_epoch = match since_unix_epoch(&now) {
        Some(d) => Some(whole_seconds(&d)),
        None => None,
    };
    epoch_secs_from(since_epoch)
}

} // verus!
