use crate::service::ServiceError;
use vstd::prelude::*;

verus! {

/// Nanoseconds in a minute.
pub const MINUTE_NANOS: u64 = 60000000000;

/// The largest span, in nanoseconds, that a bucket may cover (refill period
/// times burst size): a quarter of the `u64` range, which leaves the
/// limiter's own sums of instants and spans room to stay in range.
pub const MAX_BUCKET_SPAN_NANOS: u64 = 4611686018427387904;

/// Admission control with one bucket per client key, by governor's keyed
/// limiter: a bucket holds at most `burst` requests and regains one every
/// refill period.
#[verifier::external_body]
pub struct RateLimiter {
    inner: governor::DefaultKeyedRateLimiter<String>,
}

/// The refill period, in nanoseconds, that limiter `l` was made with.
pub uninterp spec fn limiter_period_ns(l: RateLimiter) -> nat;

/// The burst size that limiter `l` was made with.
pub uninterp spec fn limiter_burst(l: RateLimiter) -> nat;

/// How many requests of `key` limiter `l` has admitted so far.
pub uninterp spec fn admitted_count(l: RateLimiter, key: Seq<char>) -> nat;

/// Relies on governor's `Quota::with_period` (a quota that regains one cell
/// every `period_ns`; `None` only for a zero period), `Quota::allow_burst`
/// and `RateLimiter::keyed` (an empty keyed limiter on the system clock).
/// The bound on `period_ns * burst` keeps governor's tolerance
/// `period * (burst - 1)` and its sums of instants in `u64`.
#[verifier::external_body]
fn keyed_limiter(period_ns: u64, burst: u32) -> (r: RateLimiter)
    requires
        period_ns > 0,
        burst > 0,
        (period_ns as int) * (burst as int) <= MAX_BUCKET_SPAN_NANOS,
    ensures
        limiter_period_ns(r) == period_ns,
        limiter_burst(r) == burst,
        forall|k: Seq<char>| admitted_count(r, k) == 0,
{
    let quota = governor::Quota::with_period(std::time::Duration::from_nanos(period_ns))
        .expect("positive period")
        .allow_burst(std::num::NonZeroU32::new(burst).expect("positive burst"));
    RateLimiter { inner: governor::RateLimiter::keyed(quota) }
}

/// Relies on governor's `RateLimiter::check_key`: whether one more request of
/// `key` is admitted now. That depends on the clock and on the key's earlier
/// requests, but a key with fewer than `burst` admitted requests so far is
/// always admitted (its theoretical arrival time is at most the latest
/// instant plus that many periods). An admission counts one more for `key`;
/// a refusal changes nothing, and other keys are untouched.
#[verifier::external_body]
fn admits(l: &mut RateLimiter, key: &String) -> (r: bool)
    ensures
        limiter_period_ns(*final(l)) == limiter_period_ns(*old(l)),
        limiter_burst(*final(l)) == limiter_burst(*old(l)),
        admitted_count(*old(l), key@) < limiter_burst(*old(l)) ==> r,
        r ==> admitted_count(*final(l), key@) == admitted_count(*old(l), key@) + 1,
        !r ==> admitted_count(*final(l), key@) == admitted_count(*old(l), key@),
        forall|k: Seq<char>| k != key@ ==> admitted_count(*final(l), k) == admitted_count(*old(l), k),
{
    l.inner.check_key(key).is_ok()
}

/// The refill period, in nanoseconds, of a limit of `rate_limit` requests a
/// minute.
pub open spec fn period_for(rate_limit: u32) -> int {
    60000000000int / (rate_limit as int)
}

impl RateLimiter {
    /// A limiter that admits `rate_limit` requests a minute from each client
    /// in the long run, and `burst_size` at once: one request is regained
    /// every `60 / rate_limit` seconds. `None` where either is zero, or where
    /// a full bucket would span more than [`MAX_BUCKET_SPAN_NANOS`].
    pub fn new(rate_limit: u32, burst_size: u32) -> (r: Option<RateLimiter>)
        ensures
            r is None <==> rate_limit == 0 || burst_size == 0 || period_for(rate_limit)
                * burst_size > MAX_BUCKET_SPAN_NANOS,
            r matches Some(l) ==> limiter_period_ns(l) == period_for(rate_limit) && limiter_burst(l)
                == burst_size && forall|k: Seq<char>| admitted_count(l, k) == 0,
    {
        if rate_limit == 0 || burst_size == 0 {
            return None;
        }
        let period = MINUTE_NANOS / (rate_limit as u64);
        assert(period > 0) by (nonlinear_arith)
            requires
                period == 60000000000int / (rate_limit as int),
                1 <= rate_limit <= u32::MAX,
        ;
        if period > MAX_BUCKET_SPAN_NANOS / (burst_size as u64) {
            assert((period as int) * (burst_size as int) > MAX_BUCKET_SPAN_NANOS) by (nonlinear_arith)
                requires
                    period > MAX_BUCKET_SPAN_NANOS as int / (burst_size as int),
                    burst_size >= 1,
            ;
            return None;
        }
        assert((period as int) * (burst_size as int) <= MAX_BUCKET_SPAN_NANOS) by (nonlinear_arith)
            requires
                period <= MAX_BUCKET_SPAN_NANOS as int / (burst_size as int),
                burst_size >= 1,
        ;
        Some(keyed_limiter(period, burst_size))
    }

    /// Takes one request of `key` through the limiter: `Ok` where its bucket
    /// has room, else `RateLimited`. A key with fewer than the burst size of
    /// admitted requests so far is always admitted; an admission counts one
    /// more for `key`, a refusal counts nothing, and other keys are untouched.
    pub fn check(&mut self, key: &str) -> (r: Result<(), ServiceError>)
        ensures
            limiter_period_ns(*final(self)) == limiter_period_ns(*old(self)),
            limiter_burst(*final(self)) == limiter_burst(*old(self)),
            admitted_count(*old(self), key@) < limiter_burst(*old(self)) ==> r is Ok,
            r is Ok ==> admitted_count(*final(self), key@) == admitted_count(*old(self), key@) + 1,
            r is Err ==> r == Err::<(), ServiceError>(ServiceError::RateLimited) && admitted_count(
                *final(self),
                key@,
            ) == admitted_count(*old(self), key@),
            forall|k: Seq<char>|
                k != key@ ==> admitted_count(*final(self), k) == admitted_count(*old(self), k),
    {
        let owned = key.to_owned();
        if admits(self, &owned) {
            Ok(())
        } else {
            Err(ServiceError::RateLimited)
        }
    }
}

} // verus!
