use vstd::prelude::*;

verus! {

/// Maximum number of requests made to the remote registry for one query.
pub const REMOTE_REGISTRY_MAX_RETRIES: u32 = 30;

/// Delay between two requests, in milliseconds.
pub const REMOTE_REGISTRY_RETRY_DELAY_MS: u64 = 500;

/// Timeout of one request, in milliseconds.
pub const REMOTE_REGISTRY_REQUEST_TIMEOUT_MS: u64 = 120000;

/// Page size of a registry listing.
pub const DEFAULT_REGISTRY_PAGE_SIZE: u32 = 100;

/// How a registry query retries: attempts, delay between them, and the
/// timeout of each.
#[derive(Clone, Copy, Debug, PartialEq, Eq, Structural)]
pub struct RetryPolicy {
    pub max_attempts: u32,
    pub delay_ms: u64,
    pub timeout_ms: u64,
}

impl RetryPolicy {
    pub fn default_policy() -> (r: RetryPolicy)
        ensures
            r.max_attempts == REMOTE_REGISTRY_MAX_RETRIES,
            r.delay_ms == REMOTE_REGISTRY_RETRY_DELAY_MS,
            r.timeout_ms == REMOTE_REGISTRY_REQUEST_TIMEOUT_MS,
    {
        RetryPolicy {
            max_attempts: REMOTE_REGISTRY_MAX_RETRIES,
            delay_ms: REMOTE_REGISTRY_RETRY_DELAY_MS,
            timeout_ms: REMOTE_REGISTRY_REQUEST_TIMEOUT_MS,
        }
    }
}

/// How one request to the registry ended.
#[derive(Clone, Copy, Debug, PartialEq, Eq, Structural)]
pub enum TransportOutcome {
    Success,
    /// Timeout, connection error or server error.
    Transient,
    /// The registry refused the request as malformed.
    ClientError,
}

/// What the transport does after a request.
#[derive(Clone, Copy, Debug, PartialEq, Eq, Structural)]
pub enum TransportDecision {
    Done,
    /// Wait this many milliseconds, then send the request again.
    RetryAfter(u64),
    /// The retry budget is spent: the registry is unavailable.
    Unavailable,
    /// Fail at once: the registry rejected the request.
    Rejected,
}

pub open spec fn transport_step_spec(p: RetryPolicy, attempts_made: u32, outcome: TransportOutcome) -> TransportDecision {
    match outcome {
        TransportOutcome::Success => TransportDecision::Done,
        TransportOutcome::ClientError => TransportDecision::Rejected,
        TransportOutcome::Transient => if attempts_made < p.max_attempts {
            TransportDecision::RetryAfter(p.delay_ms)
        } else {
            TransportDecision::Unavailable
        },
    }
}

/// The decision after the request numbered `attempts_made` (from one)
/// ended with `outcome`: transient failures are retried after the fixed
/// delay while attempts remain; a client error is never retried.
pub fn transport_step(p: &RetryPolicy, attempts_made: u32, outcome: TransportOutcome) -> (r: TransportDecision)
    ensures
        r == transport_step_spec(*p, attempts_made, outcome),
{
    match outcome {
        TransportOutcome::Success => TransportDecision::Done,
        TransportOutcome::ClientError => TransportDecision::Rejected,
        TransportOutcome::Transient => if attempts_made < p.max_attempts {
            TransportDecision::RetryAfter(p.delay_ms)
        } else {
            TransportDecision::Unavailable
        },
    }
}

/// Requests sent and milliseconds spent, from request `attempts_made` on,
/// against a registry whose every request times out.
pub open spec fn unreachable_run(p: RetryPolicy, attempts_made: u32) -> (nat, nat)
    decreases p.max_attempts - attempts_made,
{
    match transport_step_spec(p, attempts_made, TransportOutcome::Transient) {
        TransportDecision::RetryAfter(delay) => {
            let rest = unreachable_run(p, (attempts_made + 1) as u32);
            (rest.0 + 1, (rest.1 + p.timeout_ms + delay) as nat)
        },
        _ => (1, p.timeout_ms as nat),
    }
}

/// Against an unreachable registry a query sends exactly `max_attempts`
/// requests, ends as unavailable, and spends at most
/// `max_attempts * (timeout + delay)` milliseconds.
pub proof fn lemma_unreachable_registry_bounded(p: RetryPolicy, attempts_made: u32)
    requires
        1 <= attempts_made <= p.max_attempts,
    ensures
        unreachable_run(p, attempts_made).0 == p.max_attempts - attempts_made + 1,
        unreachable_run(p, attempts_made).1 <= (p.max_attempts - attempts_made + 1) * (p.timeout_ms + p.delay_ms),
        transport_step_spec(p, p.max_attempts, TransportOutcome::Transient) == TransportDecision::Unavailable,
    decreases p.max_attempts - attempts_made,
{
    if attempts_made < p.max_attempts {
        lemma_unreachable_registry_bounded(p, (attempts_made + 1) as u32);
        let n = p.max_attempts - attempts_made;
        let c = p.timeout_ms + p.delay_ms;
        assert((n + 1) * c == n * c + c) by (nonlinear_arith);
    } else {
        assert(1 * (p.timeout_ms + p.delay_ms) == p.timeout_ms + p.delay_ms);
    }
}

/// Most pages read for one query, against a registry that never ends its
/// listing.
pub const MAX_REGISTRY_PAGES: u32 = 1000;

/// The page to read after page `page` (from one) returned `received`
/// records of a requested `page_size`: none once a page comes back short,
/// or once `max_pages` pages have been read.
pub fn next_page(page: u32, received: usize, page_size: u32, max_pages: u32) -> (r: Option<u32>)
    ensures
        r == (if (received as int) < (page_size as int) || page >= max_pages {
            None::<u32>
        } else {
            Some((page + 1) as u32)
        }),
{
    if received < page_size as usize || page >= max_pages {
        None
    } else {
        Some(page + 1)
    }
}

} // verus!
