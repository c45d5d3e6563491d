//! When a request is sent again, and how long that waits.

use crate::backend::{BackendError, ChatResponse, ErrorKind};
use crate::time::{doublings, doublings_view, Duration, MAX_NANOS};
use vstd::arithmetic::power2::{lemma2_to64, lemma_pow2_unfold, pow2};
use vstd::prelude::*;

verus! {

/// The longest a retry waits, in seconds, whatever the backoff or
/// `Retry-After` say.
pub const MAX_BACKOFF_SECS: u64 = 30;

/// The longest a retry waits, in nanoseconds.
pub open spec fn max_wait() -> nat {
    MAX_BACKOFF_SECS as nat * 1_000_000_000
}

/// Whether a result is followed by another attempt: only a retryable failure
/// is, while there are retries left.
pub open spec fn sends_again(
    result: Result<ChatResponse, BackendError>,
    attempt: nat,
    retries: nat,
) -> bool {
    result matches Err(err) && err.kind == ErrorKind::Retryable && attempt < retries
}

/// The lesser of two numbers.
pub open spec fn least(a: nat, b: nat) -> nat {
    if a <= b {
        a
    } else {
        b
    }
}

/// How long to wait after attempt number `attempt`, counted from 0, before any
/// jitter: what the server asks for, or else `backoff` doubled for each
/// attempt before, and 30 seconds at most.
pub open spec fn base_wait(retry_after: Option<Duration>, attempt: nat, backoff: Duration) -> nat {
    let wanted = match retry_after {
        Some(wait) => wait.nanos as nat,
        None => least(backoff.nanos as nat * doublings_view(attempt), MAX_NANOS as nat),
    };
    least(wanted, max_wait())
}

/// The wait with `jitter_ms` milliseconds of jitter, and 30 seconds at most.
pub open spec fn jittered(wait: nat, jitter_ms: nat) -> nat {
    least(wait + jitter_ms * 1_000_000, max_wait())
}

/// What follows from an attempt.
pub enum Attempt {
    /// The result stands.
    Done(Result<ChatResponse, BackendError>),
    /// The request is sent again after this wait.
    Again(Duration),
}

/// A number from 0 to `max`, chosen at random. Calls `rand::random_range`.
///
/// Claims only that the number is in the range, which is never empty.
#[verifier::external_body]
fn random_up_to(max: u64) -> (r: u64)
    ensures
        r <= max,
{
    rand::random_range(0..=max)
}

/// How long to wait after a failure, before any jitter.
pub fn wait_before_jitter(err: &BackendError, attempt: u32, backoff: Duration) -> (r: Duration)
    ensures
        r.nanos == base_wait(err.retry_after, attempt as nat, backoff),
{
    let wanted = match err.retry_after {
        Some(wait) => wait,
        None => backoff.saturating_mul(doublings(attempt)),
    };
    wanted.at_most(Duration::from_secs(MAX_BACKOFF_SECS))
}

/// The most jitter that a wait gets: a quarter of it, in whole milliseconds.
pub fn most_jitter(wait: Duration) -> (r: u64)
    requires
        wait.nanos <= max_wait(),
    ensures
        r == wait.nanos / 1_000_000 / 4,
{
    wait.as_millis() as u64 / 4
}

/// A wait with jitter.
pub fn with_jitter(wait: Duration, jitter_ms: u64) -> (r: Duration)
    requires
        wait.nanos <= max_wait(),
    ensures
        r.nanos == jittered(wait.nanos as nat, jitter_ms as nat),
{
    let jitter = Duration::from_millis(jitter_ms);
    let sum = Duration { nanos: wait.nanos + jitter.nanos };
    sum.at_most(Duration::from_secs(MAX_BACKOFF_SECS))
}

/// Decides what follows from attempt number `attempt`, counted from 0.
pub fn after_attempt(
    result: Result<ChatResponse, BackendError>,
    attempt: u32,
    retries: u32,
    backoff: Duration,
) -> (r: Attempt)
    ensures
        if sends_again(result, attempt as nat, retries as nat) {
            let base = base_wait(result->Err_0.retry_after, attempt as nat, backoff);
            r matches Attempt::Again(wait) && base <= wait.nanos <= max_wait() && wait.nanos <= base
                + base / 4
        } else {
            r == Attempt::Done(result)
        },
{
    match result {
        Err(err) => {
            if err.is_retryable() && attempt < retries {
                let wait = wait_before_jitter(&err, attempt, backoff);
                let most: u64 = most_jitter(wait);
                let jitter: u64 = if most == 0 {
                    0
                } else {
                    random_up_to(most)
                };
                Attempt::Again(with_jitter(wait, jitter))
            } else {
                Attempt::Done(Err(err))
            }
        },
        Ok(response) => Attempt::Done(Ok(response)),
    }
}

/// A request is sent at most once more than it may be retried, and every
/// result but the last is a retryable failure. `results` are the results of a
/// request's attempts, each but the last followed by another attempt.
pub proof fn lemma_retries_are_limited(
    results: Seq<Result<ChatResponse, BackendError>>,
    retries: nat,
)
    requires
        results.len() > 0,
        forall|i: int|
            0 <= i < results.len() - 1 ==> sends_again(#[trigger] results[i], i as nat, retries),
    ensures
        results.len() <= retries + 1,
        forall|i: int|
            0 <= i < results.len() - 1 ==> (#[trigger] results[i] matches Err(err) && err.kind
                == ErrorKind::Retryable),
{
    if results.len() > 1 {
        let i = results.len() - 2;
        assert(sends_again(results[i], i as nat, retries));
    }
    assert forall|i: int| 0 <= i < results.len() - 1 implies (
    #[trigger] results[i] matches Err(err) && err.kind == ErrorKind::Retryable) by {
        assert(sends_again(results[i], i as nat, retries));
    }
}

/// No retry waits longer than 30 seconds.
pub proof fn lemma_waits_are_capped(
    retry_after: Option<Duration>,
    attempt: nat,
    backoff: Duration,
    jitter_ms: nat,
)
    ensures
        base_wait(retry_after, attempt, backoff) <= max_wait(),
        jittered(base_wait(retry_after, attempt, backoff), jitter_ms) <= max_wait(),
{
}

/// Without a word from the server the first retry waits for the backoff, and
/// each one after that twice as long as the one before, up to 30 seconds. A
/// backoff of a few nanoseconds stops doubling after the 32nd attempt, since
/// the factor has 32 bits.
pub proof fn lemma_backoff_doubles(attempt: nat, backoff: Duration)
    requires
        backoff.nanos <= MAX_NANOS,
        attempt < 31 || backoff.nanos == 0 || backoff.nanos * u32::MAX >= max_wait(),
    ensures
        base_wait(None, 0, backoff) == least(backoff.nanos as nat, max_wait()),
        base_wait(None, attempt + 1, backoff) == least(
            2 * base_wait(None, attempt, backoff),
            max_wait(),
        ),
{
    let b = backoff.nanos as nat;
    lemma2_to64();
    assert(b * 1 == b);
    if attempt < 31 {
        lemma_pow2_unfold(attempt + 1);
        let p = pow2(attempt);
        assert(pow2(attempt + 1) == 2 * p);
        assert(b * (2 * p) == 2 * (b * p)) by (nonlinear_arith);
    } else if b == 0 {
        assert(b * doublings_view(attempt) == 0) by (nonlinear_arith)
            requires
                b == 0,
        ;
        assert(b * doublings_view(attempt + 1) == 0) by (nonlinear_arith)
            requires
                b == 0,
        ;
    } else {
        let factor = doublings_view(attempt);
        if attempt == 31 {
            assert(2 * (b * factor) >= b * u32::MAX) by (nonlinear_arith)
                requires
                    2 * factor >= u32::MAX,
            ;
        }
    }
}

} // verus!
