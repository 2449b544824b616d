use vstd::prelude::*;

verus! {

/// Relies on `SystemTime::now` and `SystemTime::duration_since(UNIX_EPOCH)`:
/// the whole seconds of the system clock since 1970, or `None` for a clock
/// set before it.
#[verifier::external_body]
fn seconds_since_epoch() -> (r: Option<u64>) {
    std::time::SystemTime::now().duration_since(std::time::UNIX_EPOCH).ok().map(|d| d.as_secs())
}

/// The UNIX time that a clock reading stands for: its whole seconds since
/// 1970, capped at `i64::MAX`; a clock set before 1970 (`None`) reads as zero.
pub open spec fn unix_of_reading(reading: Option<u64>) -> i64 {
    match reading {
        Some(s) => if s <= i64::MAX as u64 {
            s as i64
        } else {
            i64::MAX
        },
        None => 0,
    }
}

/// The UNIX time of a clock reading, as [`unix_of_reading`] states it.
pub fn unix_from_reading(reading: Option<u64>) -> (r: i64)
    ensures
        r == unix_of_reading(reading),
        r >= 0,
{
    match reading {
        Some(s) => {
            if s <= i64::MAX as u64 {
                s as i64
            } else {
                i64::MAX
            }
        },
        None => 0,
    }
}

/// The current UNIX time in seconds; a clock set before 1970 reads as zero.
pub fn now_unix() -> (r: i64)
    ensures
        r >= 0,
{
    unix_from_reading(seconds_since_epoch())
}

} // verus!
