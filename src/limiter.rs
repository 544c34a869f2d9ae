//! A token bucket bounding the requests sent per time window.
use vstd::prelude::*;

verus! {

/// ratelimit's `Ratelimiter`, a token bucket; held opaque.
#[verifier::external_type_specification]
#[verifier::external_body]
pub struct ExRatelimiter(ratelimit::Ratelimiter);

/// The remote API allows this many requests per window.
pub const API_TOKENS_PER_WINDOW: u64 = 20;

/// The length of the remote API's window, in milliseconds.
pub const API_WINDOW_MILLIS: u64 = 1000;

/// Largest accepted number of tokens per window.
pub const MAX_TOKENS_PER_WINDOW: u64 = 1_000_000;

/// Largest accepted window, one day in milliseconds.
pub const MAX_WINDOW_MILLIS: u64 = 86_400_000;

/// Relies on ratelimit's `Ratelimiter::builder(..).max_tokens(..).initial_available(..).build()`:
/// the build fails only when the bucket is smaller than one refill, or the
/// interval does not fit in 64-bit nanoseconds (excluded here).
#[verifier::external_body]
fn build_ratelimiter(amount: u64, interval_ms: u64, max_tokens: u64, initial: u64) -> (r: Option<
    ratelimit::Ratelimiter,
>)
    requires
        0 < interval_ms <= MAX_WINDOW_MILLIS,
        amount <= MAX_TOKENS_PER_WINDOW,
        max_tokens <= MAX_TOKENS_PER_WINDOW,
        initial <= max_tokens,
    ensures
        r is Some <==> amount <= max_tokens,
{
    ratelimit::Ratelimiter::builder(amount, std::time::Duration::from_millis(interval_ms))
        .max_tokens(max_tokens)
        .initial_available(initial)
        .build()
        .ok()
}

/// Relies on ratelimit's `Ratelimiter::try_wait`: it takes a token if one is
/// available, and otherwise returns the time until the next refill, which is
/// never zero.
#[verifier::external_body]
fn try_take(limiter: &ratelimit::Ratelimiter) -> (r: Result<(), u64>)
    ensures
        r matches Err(nanos) ==> nanos > 0,
{
    match limiter.try_wait() {
        Ok(()) => Ok(()),
        Err(d) => Err(d.as_nanos() as u64),
    }
}

/// The answer of the limiter to one request for a token.
#[derive(Clone, Copy, Debug, PartialEq, Eq)]
pub enum Acquire {
    /// A token was taken: the call may go ahead.
    Granted,
    /// No token now: wait this long, then ask again for the same call.
    Backoff { wait_nanos: u64 },
}

/// A token bucket shared by all calls of one run.
pub struct RateLimiter {
    inner: ratelimit::Ratelimiter,
    tokens_per_window: u64,
    window_millis: u64,
}

impl RateLimiter {
    /// How many tokens the bucket holds, and adds back every window.
    pub closed spec fn tokens_per_window(&self) -> u64 {
        self.tokens_per_window
    }

    /// The length of a window, in milliseconds.
    pub closed spec fn window_millis(&self) -> u64 {
        self.window_millis
    }

    /// A bucket that holds `tokens_per_window` tokens, starts full and is
    /// refilled by that many every `window_millis` milliseconds.
    pub fn new(tokens_per_window: u64, window_millis: u64) -> (r: Option<RateLimiter>)
        ensures
            r is Some <==> (0 < tokens_per_window <= MAX_TOKENS_PER_WINDOW && 0 < window_millis
                <= MAX_WINDOW_MILLIS),
            r matches Some(l) ==> l.tokens_per_window() == tokens_per_window && l.window_millis()
                == window_millis,
    {
        if tokens_per_window == 0 || tokens_per_window > MAX_TOKENS_PER_WINDOW || window_millis == 0
            || window_millis > MAX_WINDOW_MILLIS {
            return None;
        }
        match build_ratelimiter(tokens_per_window, window_millis, tokens_per_window, tokens_per_window) {
            Some(inner) => Some(RateLimiter { inner, tokens_per_window, window_millis }),
            None => None,
        }
    }

    /// The limit of the remote API: 20 requests per second.
    pub fn for_api() -> (r: RateLimiter)
        ensures
            r.tokens_per_window() == API_TOKENS_PER_WINDOW,
            r.window_millis() == API_WINDOW_MILLIS,
    {
        let made = RateLimiter::new(API_TOKENS_PER_WINDOW, API_WINDOW_MILLIS);
        made.unwrap()
    }

    /// The number of tokens per window.
    pub fn get_tokens_per_window(&self) -> (r: u64)
        ensures
            r == self.tokens_per_window(),
    {
        self.tokens_per_window
    }

    /// The window length in milliseconds.
    pub fn get_window_millis(&self) -> (r: u64)
        ensures
            r == self.window_millis(),
    {
        self.window_millis
    }

    /// Takes a token if there is one; never blocks.
    pub fn acquire(&self) -> (r: Acquire)
        ensures
            r matches Acquire::Backoff { wait_nanos } ==> wait_nanos > 0,
    {
        match try_take(&self.inner) {
            Ok(()) => Acquire::Granted,
            Err(nanos) => Acquire::Backoff { wait_nanos: nanos },
        }
    }
}

} // verus!
