use nyc_train_cal::orchestrator::{
    admit_request, calendar_content_type, complete_fetch, lookup_step, new_server_state,
    release_slot, try_enter_slot, AdmissionOutcome, CalendarResponse, RequestStep,
};

#[test]
fn miss_then_fetch_then_hit_within_ttl() {
    let mut state = new_server_state();
    // empty cache: the orchestrator plans exactly one upstream fetch for Q
    let step = lookup_step(&state.cache, "Q.ics", 1000);
    let line = match step {
        RequestStep::Fetch(line) => line,
        RequestStep::Respond(_) => panic!("expected a planned fetch on an empty cache"),
    };
    assert_eq!(line, "Q");
    let body = "BEGIN:VCALENDAR Q END:VCALENDAR".to_string();
    let response = complete_fetch(&mut state.cache, &line, Ok(body.clone()), 1000);
    assert_eq!(response.status_code(), 200);
    match response {
        CalendarResponse::Success { body: served } => assert_eq!(served, body),
        _ => panic!("expected success after a successful fetch"),
    }
    // an identical request within 30 seconds is served from the cache,
    // without a second upstream call
    let again = lookup_step(&state.cache, "Q.ics", 25000);
    match again {
        RequestStep::Respond(CalendarResponse::Success { body: served }) => {
            assert_eq!(served, body)
        },
        _ => panic!("expected a cache hit within the TTL"),
    }
}

#[test]
fn lowercase_token_is_a_client_error_naming_it() {
    let state = new_server_state();
    let step = lookup_step(&state.cache, "q.ics", 0);
    match step {
        RequestStep::Respond(response) => {
            assert_eq!(response.status_code(), 400);
            match response {
                CalendarResponse::InvalidLine { message } => {
                    assert_eq!(message, "Invalid train line: q. Train lines are case-sensitive.")
                },
                _ => panic!("expected an invalid-line response"),
            }
        },
        RequestStep::Fetch(_) => panic!("an invalid token must never reach the upstream fetch"),
    }
}

#[test]
fn failed_fetch_is_server_error_and_leaves_cache_empty() {
    let mut state = new_server_state();
    let step = lookup_step(&state.cache, "7", 0);
    let line = match step {
        RequestStep::Fetch(line) => line,
        RequestStep::Respond(_) => panic!("expected a planned fetch on an empty cache"),
    };
    assert_eq!(line, "7");
    let response = complete_fetch(&mut state.cache, &line, Err("upstream timed out".to_string()), 0);
    assert_eq!(response.status_code(), 500);
    match response {
        CalendarResponse::UpstreamFailure { message } => {
            assert_eq!(message, "Error generating calendar: upstream timed out")
        },
        _ => panic!("expected an upstream-failure response"),
    }
    // no negative caching: the cache stays empty for "7"
    assert_eq!(state.cache.get("7", 1), None);
    assert_eq!(state.cache.len(), 0);
    // a retried request triggers another upstream call
    let retry = lookup_step(&state.cache, "7", 1);
    assert!(matches!(retry, RequestStep::Fetch(_)));
}

#[test]
fn throttled_request_never_takes_a_slot() {
    let mut state = new_server_state();
    // exhaust the burst of 20 for this client at one instant
    for _ in 0..20 {
        let outcome = admit_request(&mut state, 42, 0);
        assert!(matches!(outcome, AdmissionOutcome::Admitted));
        release_slot(&mut state);
    }
    let outcome = admit_request(&mut state, 42, 0);
    assert!(matches!(outcome, AdmissionOutcome::Throttled));
    assert_eq!(state.inflight.active(), 0);
    // another client is unaffected
    let outcome = admit_request(&mut state, 43, 0);
    assert!(matches!(outcome, AdmissionOutcome::Admitted));
    release_slot(&mut state);
}

#[test]
fn full_concurrency_limit_queues_instead_of_failing() {
    let mut state = new_server_state();
    // fill all 50 slots
    for _ in 0..50 {
        assert!(try_enter_slot(&mut state));
    }
    assert!(!try_enter_slot(&mut state));
    // a rate-admitted request must wait, not fail
    let outcome = admit_request(&mut state, 7, 0);
    assert!(matches!(outcome, AdmissionOutcome::MustWait));
    // one finished request frees exactly one slot
    release_slot(&mut state);
    assert!(try_enter_slot(&mut state));
    assert!(!try_enter_slot(&mut state));
    for _ in 0..50 {
        release_slot(&mut state);
    }
    assert_eq!(state.inflight.active(), 0);
}

#[test]
fn success_is_served_as_a_calendar_document() {
    assert_eq!(calendar_content_type(), "text/calendar; charset=utf-8");
    let response = CalendarResponse::Throttled;
    assert_eq!(response.status_code(), 429);
}

#[test]
fn fixed_configuration_is_exposed_as_tunables() {
    let state = new_server_state();
    assert_eq!(state.cache.capacity(), 100);
    assert_eq!(state.cache.ttl_ms(), 30000);
    assert_eq!(state.cache.len(), 0);
    assert_eq!(state.limiter.rate_per_second(), 10);
    assert_eq!(state.limiter.burst(), 20);
    assert_eq!(state.inflight.active(), 0);
    assert_eq!(state.inflight.ceiling(), 50);
}
