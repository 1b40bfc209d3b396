//! Request orchestrator: validate, check the cache, plan the upstream fetch
//! on a miss, populate the cache, respond.
//!
//! The upstream fetch itself is an opaque, possibly slow, possibly failing
//! operation performed by the caller between `lookup_step` (which plans it)
//! and `complete_fetch` (which consumes its outcome). No retry is performed
//! here: a failed fetch surfaces immediately as a server error and leaves
//! the cache untouched. Concurrent misses for one line are not deduplicated:
//! both may fetch, and the cache keeps whichever insert happens last — an
//! accepted trade-off of this design, not a defect.

use vstd::prelude::*;
use vstd::string::StringExecFns;

use crate::cache::CalendarCache;
use crate::config;
use crate::inflight::InFlightCounter;
use crate::lines;
use crate::ratelimit;
use crate::ratelimit::RateLimiter;

verus! {

/// The terminal outcome of one request.
pub enum CalendarResponse {
    /// Calendar content produced, served as a calendar document.
    Success { body: String },
    /// The token names no valid line: a client error.
    InvalidLine { message: String },
    /// The upstream fetch failed: a server error.
    UpstreamFailure { message: String },
    /// The client exceeded its request rate: a throttling response.
    Throttled,
}

impl CalendarResponse {
    /// The HTTP status this outcome maps to.
    pub open spec fn spec_status(self) -> int {
        match self {
            CalendarResponse::Success { .. } => 200,
            CalendarResponse::InvalidLine { .. } => 400,
            CalendarResponse::UpstreamFailure { .. } => 500,
            CalendarResponse::Throttled => 429,
        }
    }

    /// The HTTP status this outcome maps to.
    pub fn status_code(&self) -> (r: u16)
        ensures
            r == self.spec_status(),
    {
        match self {
            CalendarResponse::Success { .. } => 200,
            CalendarResponse::InvalidLine { .. } => 400,
            CalendarResponse::UpstreamFailure { .. } => 500,
            CalendarResponse::Throttled => 429,
        }
    }
}

/// The content type calendar documents are served under.
pub open spec fn calendar_content_type_text() -> Seq<char> {
    "text/calendar; charset=utf-8"@
}

/// The content type calendar documents are served under.
pub fn calendar_content_type() -> (r: &'static str)
    ensures
        r@ == calendar_content_type_text(),
{
    "text/calendar; charset=utf-8"
}

/// The client-error message for an invalid token, naming the offending
/// token and noting case sensitivity.
pub open spec fn invalid_line_text(token: Seq<char>) -> Seq<char> {
    "Invalid train line: "@ + token + ". Train lines are case-sensitive."@
}

/// The server-error message carrying an upstream error description.
pub open spec fn upstream_error_text(err: Seq<char>) -> Seq<char> {
    "Error generating calendar: "@ + err
}

/// Builds the client-error message naming the invalid token.
pub fn invalid_line_message(token: &str) -> (m: String)
    ensures
        m@ == invalid_line_text(token@),
{
    let mut m = String::from_str("Invalid train line: ");
    m.append(token);
    m.append(". Train lines are case-sensitive.");
    m
}

/// Builds the server-error message for a failed upstream fetch.
pub fn upstream_error_message(err: &str) -> (m: String)
    ensures
        m@ == upstream_error_text(err@),
{
    let mut m = String::from_str("Error generating calendar: ");
    m.append(err);
    m
}

/// The injected shared state of the pipeline: the calendar cache, the
/// per-client rate limiter, and the global in-flight counter.
pub struct ServerState {
    pub cache: CalendarCache,
    pub limiter: RateLimiter,
    pub inflight: InFlightCounter,
}

impl ServerState {
    /// All three components are well-formed.
    pub open spec fn wf(self) -> bool {
        self.cache.wf() && self.limiter.wf() && self.inflight.wf()
    }
}

/// Creates the process-wide state with the fixed configuration: cache of
/// 100 entries with a 30-second TTL, 10 requests per second sustained with
/// a burst of 20 per client, and at most 50 simultaneous requests.
pub fn new_server_state() -> (r: ServerState)
    ensures
        r.wf(),
        r.cache.spec_len() == 0,
        r.cache.spec_capacity() == config::CACHE_CAPACITY,
        r.cache.spec_ttl() == config::CACHE_TTL_MS,
        r.limiter.spec_rate() == config::RATE_PER_SECOND,
        r.limiter.spec_burst() == config::BURST_CAPACITY,
        forall|c: u64| !r.limiter.has_client(c),
        r.inflight.spec_active() == 0,
        r.inflight.spec_ceiling() == config::CONCURRENCY_CEILING,
{
    ServerState {
        cache: CalendarCache::new(config::CACHE_CAPACITY, config::CACHE_TTL_MS),
        limiter: RateLimiter::new(config::RATE_PER_SECOND, config::BURST_CAPACITY),
        inflight: InFlightCounter::new(config::CONCURRENCY_CEILING),
    }
}

/// The admission control's verdict on a request.
pub enum AdmissionOutcome {
    /// Rejected by the per-client rate limiter; must not reach the cache or
    /// the upstream fetch, and never occupies a concurrency slot.
    Throttled,
    /// Passed the rate limiter, but no concurrency slot is free: the caller
    /// waits and retries slot entry (without being charged again).
    MustWait,
    /// Holds a concurrency slot; the caller must release it exactly once.
    Admitted,
}

/// Runs admission control: the rate limiter first, then — only for
/// requests the limiter admits — the concurrency limiter. A throttled request
/// never occupies a concurrency slot.
pub fn admit_request(state: &mut ServerState, client: u64, now_ms: u64) -> (r: AdmissionOutcome)
    requires
        old(state).wf(),
    ensures
        final(state).wf(),
        final(state).cache == old(state).cache,
        final(state).inflight.spec_ceiling() == old(state).inflight.spec_ceiling(),
        final(state).limiter.spec_rate() == old(state).limiter.spec_rate(),
        final(state).limiter.spec_burst() == old(state).limiter.spec_burst(),
        // one token-bucket step is charged to this client, and only to it
        final(state).limiter.has_client(client),
        final(state).limiter.bucket_of(client) == ratelimit::bucket_after(
            old(state).limiter.effective_bucket(client, now_ms),
            now_ms,
            old(state).limiter.spec_rate(),
            old(state).limiter.spec_burst(),
        ),
        forall|o: u64|
            o != client ==> (#[trigger] final(state).limiter.has_client(o) <==> old(state).limiter.has_client(o)),
        forall|o: u64|
            o != client && #[trigger] old(state).limiter.has_client(o) ==> final(state).limiter.bucket_of(o) == old(state).limiter.bucket_of(o),
        // the verdict
        (r is Throttled) == !ratelimit::step_admits(
            old(state).limiter.effective_bucket(client, now_ms),
            now_ms,
            old(state).limiter.spec_rate(),
            old(state).limiter.spec_burst(),
        ),
        r is Throttled ==> final(state).inflight == old(state).inflight,
        (r is Admitted) ==> old(state).inflight.spec_active() < old(state).inflight.spec_ceiling()
            && final(state).inflight.spec_active() == old(state).inflight.spec_active() + 1,
        (r is MustWait) ==> old(state).inflight.spec_active() == old(state).inflight.spec_ceiling() && final(state).inflight.spec_active() == old(state).inflight.spec_active(),
{
    let admitted = state.limiter.try_acquire(client, now_ms);
    if !admitted {
        return AdmissionOutcome::Throttled;
    }
    if state.inflight.try_enter() {
        AdmissionOutcome::Admitted
    } else {
        AdmissionOutcome::MustWait
    }
}

/// Retries concurrency-slot entry for a request already past the rate
/// limiter. The rate limiter and the cache are untouched.
pub fn try_enter_slot(state: &mut ServerState) -> (entered: bool)
    requires
        old(state).wf(),
    ensures
        final(state).wf(),
        final(state).cache == old(state).cache,
        final(state).limiter == old(state).limiter,
        final(state).inflight.spec_ceiling() == old(state).inflight.spec_ceiling(),
        entered == (old(state).inflight.spec_active() < old(state).inflight.spec_ceiling()),
        entered ==> final(state).inflight.spec_active() == old(state).inflight.spec_active() + 1,
        !entered ==> final(state).inflight.spec_active() == old(state).inflight.spec_active(),
{
    state.inflight.try_enter()
}

/// Releases the concurrency slot of a finished request, whatever its
/// outcome. Must be called exactly once per successful entry.
pub fn release_slot(state: &mut ServerState)
    requires
        old(state).wf(),
        old(state).inflight.spec_active() >= 1,
    ensures
        final(state).wf(),
        final(state).cache == old(state).cache,
        final(state).limiter == old(state).limiter,
        final(state).inflight.spec_ceiling() == old(state).inflight.spec_ceiling(),
        final(state).inflight.spec_active() == old(state).inflight.spec_active() - 1,
{
    state.inflight.exit();
}

/// What an admitted request does next: respond at once, or fetch the named
/// line upstream and then call `complete_fetch`.
pub enum RequestStep {
    /// The response is already determined (client error, or a cache hit).
    Respond(CalendarResponse),
    /// Cache miss for this validated line: fetch it upstream.
    Fetch(String),
}

/// Validates the token (stripping an optional ".ics" suffix) and consults
/// the cache: an invalid token yields a client error naming it; a live
/// cache entry yields its content; otherwise the fetch is planned.
pub fn lookup_step(cache: &CalendarCache, token: &str, now_ms: u64) -> (r: RequestStep)
    requires
        cache.wf(),
    ensures
        !lines::token_is_valid(token@) ==> (r matches RequestStep::Respond(resp) && resp matches
            CalendarResponse::InvalidLine { message } && message@ == invalid_line_text(
            lines::strip_ics(token@),
        )),
        lines::token_is_valid(token@) && cache.live(lines::strip_ics(token@), now_ms) ==> (
        r matches RequestStep::Respond(resp) && resp matches CalendarResponse::Success { body }
            && body@ == cache.entry(lines::strip_ics(token@)).content@),
        lines::token_is_valid(token@) && !cache.live(lines::strip_ics(token@), now_ms) ==> (
        r matches RequestStep::Fetch(line) && line@ == lines::strip_ics(token@)),
{
    let line = lines::strip_calendar_suffix(token);
    if !lines::is_valid_line_code(line) {
        return RequestStep::Respond(
            CalendarResponse::InvalidLine { message: invalid_line_message(line) },
        );
    }
    match cache.get(line, now_ms) {
        Some(body) => RequestStep::Respond(CalendarResponse::Success { body }),
        None => RequestStep::Fetch(String::from_str(line)),
    }
}

/// Consumes the outcome of the one upstream fetch planned for `line`. On
/// success the cache is populated with the content under a fresh TTL and
/// the content is served; on failure the error surfaces as a server error
/// and the cache is left unmodified, so a later request retries.
pub fn complete_fetch(
    cache: &mut CalendarCache,
    line: &str,
    fetched: Result<String, String>,
    now_ms: u64,
) -> (r: CalendarResponse)
    requires
        old(cache).wf(),
        now_ms + old(cache).spec_ttl() <= u64::MAX,
    ensures
        final(cache).wf(),
        final(cache).spec_capacity() == old(cache).spec_capacity(),
        final(cache).spec_ttl() == old(cache).spec_ttl(),
        fetched matches Ok(content) ==> (r matches CalendarResponse::Success { body } && body@
            == content@ && final(cache).has_key(line@) && final(cache).entry(line@).content@
            == content@ && final(cache).entry(line@).expiry_ms == now_ms + old(cache).spec_ttl()
            && (forall|k: Seq<char>|
            k != line@ && #[trigger] final(cache).has_key(k) ==> old(cache).has_key(k) && final(cache).entry(k) == old(cache).entry(k))),
        fetched matches Err(e) ==> (r matches CalendarResponse::UpstreamFailure { message }
            && message@ == upstream_error_text(e@) && *final(cache) == *old(cache)),
{
    match fetched {
        Ok(content) => {
            let body = content.clone();
            cache.put(line, content, now_ms);
            CalendarResponse::Success { body }
        },
        Err(e) => {
            CalendarResponse::UpstreamFailure { message: upstream_error_message(e.as_str()) }
        },
    }
}

} // verus!
