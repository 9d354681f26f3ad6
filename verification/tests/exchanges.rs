//! Exchanges from their admission to the recording of their responses, and the gateway's own replies.

use milk_parlor::boundary::MemoryPermit;
use milk_parlor::capture::CaptureJob;
use milk_parlor::config::EnvValue;
use milk_parlor::digest::sha256_hex;
use milk_parlor::exchange::asks_for_stream;
use milk_parlor::exchange::endpoint_protocol;
use milk_parlor::exchange::is_streaming;
use milk_parlor::exchange::prepare;
use milk_parlor::exchange::prepare_with;
use milk_parlor::exchange::receive;
use milk_parlor::exchange::relay;
use milk_parlor::exchange::relay_with;
use milk_parlor::exchange::response_head;
use milk_parlor::exchange::retry_candidate_status;
use milk_parlor::exchange::write_tally;
use milk_parlor::exchange::Admission;
use milk_parlor::exchange::Exchange;
use milk_parlor::exchange::ExchangeContext;
use milk_parlor::exchange::FallbackReason;
use milk_parlor::exchange::Providers;
use milk_parlor::exchange::Recording;
use milk_parlor::exchange::ResponseHead;
use milk_parlor::exchange::UpstreamEvent;
use milk_parlor::headers::Header;
use milk_parlor::headers::TextHeader;
use milk_parlor::identity::Profile;
use milk_parlor::identity::Protocol;
use milk_parlor::identity::Target;
use milk_parlor::identity::Uuid;
use milk_parlor::keys::parse_keys;
use milk_parlor::keys::KeyBinding;
use milk_parlor::keys::KeyEntry;
use milk_parlor::keys::OperatorKey;
use milk_parlor::recorder::Counters;
use milk_parlor::recorder::Tally;
use milk_parlor::reply::api_status;
use milk_parlor::reply::gateway_error;
use milk_parlor::reply::health;
use milk_parlor::reply::status_reply;
use milk_parlor::reply::unauthorized;
use milk_parlor::reply::GatewayError;
use milk_parlor::reply::Lookup;
use milk_parlor::reply::Reply;
use milk_parlor::routing::RouteChoice;
use milk_parlor::upstream::optional_candidate_binding;
use milk_parlor::upstream::parse_upstream;
use milk_parlor::upstream::CandidateBinding;
use milk_parlor::upstream::CandidateValues;
use milk_parlor::upstream::MechanicsUpstream;
use milk_parlor::upstream::ProtocolBindings;
use milk_parlor::upstream::UpstreamBinding;
use milk_parlor::upstream::UpstreamValues;
use std::sync::Arc;
use std::time::Instant;
use tokio::sync::mpsc;
use tokio::sync::Semaphore;

const SCOPE: Uuid = Uuid { value: 0x11111111_1111_4111_8111_111111111111 };
const EXCHANGE: Uuid = Uuid { value: 0x22222222_2222_7222_8222_222222222222 };
const TOKEN: &str = "local-milk-operator-key-change-me";
const BINDING: KeyBinding =
    KeyBinding { scope_id: SCOPE, profile: Profile::Mechanics, route_revision: None };

fn header(name: &str, value: &str) -> Header {
    Header { name: name.to_owned(), value: value.as_bytes().to_vec() }
}

fn keys() -> Vec<OperatorKey> {
    let entry = KeyEntry { digest: sha256_hex(TOKEN.as_bytes()), binding: BINDING };
    match parse_keys(Some(vec![entry])) {
        Ok(keys) => keys,
        Err(error) => panic!("{}", error.message()),
    }
}

fn authorized() -> Header {
    header("authorization", &format!("Bearer {}", TOKEN))
}

fn body(reply: &Reply) -> String {
    String::from_utf8(reply.body.clone()).unwrap()
}

fn headers(reply: &Reply) -> Vec<(&str, &str)> {
    reply.headers.iter().map(|h| (h.name.as_str(), h.value.as_str())).collect()
}

#[test]
fn two_endpoints_are_supported() {
    assert_eq!(endpoint_protocol("/v1/chat/completions"), Some(Protocol::ChatCompletions));
    assert_eq!(endpoint_protocol("/v1/responses"), Some(Protocol::Responses));
    for path in ["/v1/embeddings", "/v1/responses/", "", "/"] {
        assert_eq!(endpoint_protocol(path), None);
    }
}

#[test]
fn a_request_is_admitted_with_what_goes_on() {
    let request = vec![
        authorized(),
        header("content-type", "application/json"),
        header("x-milk-trajectory-id", "22222222-2222-7222-8222-222222222222"),
    ];
    let (tally, admitted) = receive(&request, &keys(), "/v1/responses");
    assert_eq!(tally, Some(Tally::Observed));
    let admission = admitted.ok().unwrap();
    assert_eq!(admission.binding, BINDING);
    assert_eq!(admission.protocol, Protocol::Responses);
    assert_eq!(admission.trajectory_id, Some(EXCHANGE));
    assert_eq!(admission.request_headers.len(), 1);
    let names: Vec<&str> =
        admission.forwarded_headers.iter().map(|header| header.name.as_str()).collect();
    assert_eq!(names, vec!["content-type", "accept-encoding"]);
}

#[test]
fn a_stranger_is_turned_away_and_not_counted() {
    for request in [vec![], vec![header("authorization", "Bearer 0123456789abcdef")]] {
        for path in ["/v1/responses", "/elsewhere"] {
            let (tally, admitted) = receive(&request, &keys(), path);
            assert_eq!(tally, None);
            assert_eq!(admitted.err(), Some(GatewayError::Unauthorized));
        }
    }
}

#[test]
fn a_request_that_cannot_be_forwarded_is_refused_and_counted() {
    let refused = |extra: Option<Header>, path: &str| {
        let mut request = vec![authorized()];
        if let Some(extra) = extra {
            request.push(extra);
        }
        let (tally, admitted) = receive(&request, &keys(), path);
        assert_eq!(tally, Some(Tally::Observed));
        admitted.err().unwrap()
    };
    assert_eq!(refused(None, "/v1/embeddings"), GatewayError::UnsupportedEndpoint);
    assert_eq!(
        refused(Some(header("x-milk-trajectory-id", "x")), "/v1/responses"),
        GatewayError::InvalidHeaders
    );
    assert_eq!(
        refused(Some(header("accept", "a\nb")), "/v1/responses"),
        GatewayError::InvalidHeaders
    );
}

#[test]
fn a_stream_is_asked_for_in_the_body() {
    assert!(is_streaming(b"{\"stream\": true, \"model\": \"m\"}"));
    for body in [
        "{\"stream\":false}", "{\"stream\":\"true\"}", "{\"stream\":1}", "{}", "[true]", "",
        "not json", "{\"a\":{\"stream\":true}}",
    ] {
        assert!(!is_streaming(body.as_bytes()), "{}", body);
    }
    assert!(asks_for_stream(Some(true)));
    assert!(!asks_for_stream(Some(false)));
    assert!(!asks_for_stream(None));
}

#[test]
fn fallbacks_are_named() {
    for (reason, wanted) in [
        (FallbackReason::Unconfigured, "candidate_unconfigured"),
        (FallbackReason::IdentityMismatch, "candidate_identity_mismatch"),
        (FallbackReason::Unavailable, "candidate_unavailable"),
        (FallbackReason::HeaderTimeout, "candidate_header_timeout"),
        (FallbackReason::Status(503), "candidate_status_503"),
        (FallbackReason::InvalidHeaders, "candidate_invalid_headers"),
        (FallbackReason::BodyUnavailable, "candidate_body_unavailable"),
        (FallbackReason::FirstByteTimeout, "candidate_first_byte_timeout"),
    ] {
        assert_eq!(reason.to_text(), wanted);
    }
}

#[test]
fn some_statuses_call_for_the_baseline() {
    for status in [429u16, 500, 502, 503, 599] {
        assert!(retry_candidate_status(status), "{}", status);
    }
    for status in [200u16, 400, 404, 428, 499, 600] {
        assert!(!retry_candidate_status(status), "{}", status);
    }
}

fn candidate() -> Option<CandidateBinding> {
    let text = |value: &str| EnvValue::Text(value.to_owned());
    let values = CandidateValues {
        artifact_sha256: text(&"a".repeat(64)),
        chat_completions: UpstreamValues {
            base_url: text("https://model.example.com"),
            api_key: text("k"),
        },
        responses: UpstreamValues { base_url: EnvValue::Absent, api_key: EnvValue::Absent },
    };
    match optional_candidate_binding(values) {
        Ok(candidate) => candidate,
        Err(error) => panic!("{}", error.message()),
    }
}

fn choice(target: Target) -> RouteChoice {
    RouteChoice {
        route_id: Some(SCOPE),
        target,
        candidate_artifact_sha256: Some("a".repeat(64)),
        candidate_binding_sha256: Some(
            "9dcbea1c06c60b5a6f79056d060529db42c1bc144bea0dcb5d691169112b4dba".to_owned(),
        ),
    }
}

fn begun(choice: &RouteChoice, candidate: &Option<CandidateBinding>) -> Exchange {
    Exchange::begin(choice, candidate, Protocol::ChatCompletions)
}

#[test]
fn an_exchange_begins_with_the_chosen_upstream() {
    assert!(matches!(
        begun(&choice(Target::Baseline), &candidate()),
        Exchange::Baseline(None)
    ));
    assert!(matches!(begun(&choice(Target::CandidateA), &candidate()), Exchange::Candidate));
    assert!(matches!(
        begun(&choice(Target::CandidateA), &None),
        Exchange::Baseline(Some(FallbackReason::Unconfigured))
    ));
    let mut other = choice(Target::CandidateA);
    other.candidate_binding_sha256 = Some("b".repeat(64));
    assert!(matches!(
        begun(&other, &candidate()),
        Exchange::Baseline(Some(FallbackReason::IdentityMismatch))
    ));
    let mut other = choice(Target::CandidateA);
    other.candidate_artifact_sha256 = None;
    assert!(matches!(
        begun(&other, &candidate()),
        Exchange::Baseline(Some(FallbackReason::IdentityMismatch))
    ));
    assert!(matches!(
        Exchange::begin(&choice(Target::CandidateA), &candidate(), Protocol::Responses),
        Exchange::Baseline(Some(FallbackReason::IdentityMismatch))
    ));
}

fn head(status: u16, headers: Vec<Header>) -> UpstreamEvent {
    UpstreamEvent::Head { status, headers, content_length: Some(12) }
}

#[test]
fn a_candidate_that_answers_is_relayed() {
    let exchange = Exchange::Candidate
        .next(head(200, vec![header("content-type", "a"), header("set-cookie", "b")]));
    let exchange = exchange.next(UpstreamEvent::Chunk { empty: true });
    assert!(matches!(exchange, Exchange::CandidateBody(_)));
    match exchange.next(UpstreamEvent::Chunk { empty: false }) {
        Exchange::Relay { head, target, fallback } => {
            assert_eq!(head.status, 200);
            assert_eq!(head.headers.len(), 1);
            assert_eq!(head.captured.len(), 1);
            assert_eq!(head.expected_bytes, Some(12));
            assert_eq!(target, Target::CandidateA);
            assert_eq!(fallback, None);
        }
        _ => panic!("not relayed"),
    }
}

#[test]
fn a_candidate_that_fails_gives_way_to_the_baseline() {
    let reason = |exchange: Exchange| match exchange {
        Exchange::Baseline(Some(reason)) => reason,
        _ => panic!("no fallback"),
    };
    assert_eq!(
        reason(Exchange::Candidate.next(UpstreamEvent::Failed)),
        FallbackReason::Unavailable
    );
    assert_eq!(
        reason(Exchange::Candidate.next(UpstreamEvent::TimedOut)),
        FallbackReason::HeaderTimeout
    );
    assert_eq!(
        reason(Exchange::Candidate.next(head(503, vec![]))),
        FallbackReason::Status(503)
    );
    assert_eq!(
        reason(Exchange::Candidate.next(head(200, vec![header("etag", "a\nb")]))),
        FallbackReason::InvalidHeaders
    );
    let reading = || Exchange::Candidate.next(head(400, vec![]));
    assert_eq!(
        reason(reading().next(UpstreamEvent::TimedOut)),
        FallbackReason::FirstByteTimeout
    );
    for event in [UpstreamEvent::Ended, UpstreamEvent::Failed] {
        assert_eq!(reason(reading().next(event)), FallbackReason::BodyUnavailable);
    }
}

#[test]
fn a_baseline_is_relayed_or_the_request_refused() {
    let reason = Some(FallbackReason::Unconfigured);
    match Exchange::Baseline(reason).next(head(503, vec![])) {
        Exchange::Relay { head, target, fallback } => {
            assert_eq!(head.status, 503);
            assert_eq!(target, Target::Baseline);
            assert_eq!(fallback, reason);
        }
        _ => panic!("not relayed"),
    }
    assert!(matches!(
        Exchange::Baseline(None).next(UpstreamEvent::Failed),
        Exchange::Refused(GatewayError::UpstreamUnavailable)
    ));
    assert!(matches!(
        Exchange::Baseline(None).next(head(200, vec![header("vary", "a\u{0}")])),
        Exchange::Refused(GatewayError::InvalidUpstreamHeaders)
    ));
    assert!(matches!(
        Exchange::Refused(GatewayError::UpstreamUnavailable).next(head(200, vec![])),
        Exchange::Refused(GatewayError::UpstreamUnavailable)
    ));
}

#[test]
fn a_head_keeps_what_goes_on() {
    let kept = response_head(201, &[header("X-Request-Id", "r")], None).unwrap();
    assert_eq!(kept.status, 201);
    assert_eq!(kept.headers[0].name, "x-request-id");
    assert_eq!(kept.captured[0].value, "r");
    assert_eq!(kept.expected_bytes, None);
    assert!(response_head(200, &[header("etag", "\n")], None).is_none());
}

fn context(started_at: Option<&str>) -> ExchangeContext {
    ExchangeContext {
        binding: BINDING,
        protocol: Protocol::ChatCompletions,
        trajectory_id: None,
        exchange_id: EXCHANGE,
        started_at: started_at.map(str::to_owned),
        streaming: true,
        method: "POST".to_owned(),
        path: "/v1/chat/completions".to_owned(),
        request_headers: vec![TextHeader { name: "accept".to_owned(), value: "a".to_owned() }],
    }
}

fn upstream(raw: &str) -> UpstreamBinding {
    match parse_upstream("U", raw) {
        Ok(base_url) => UpstreamBinding { base_url, api_key: "k".to_owned() },
        Err(error) => panic!("{}", error.message()),
    }
}

fn providers() -> Providers {
    Providers {
        defaults: ProtocolBindings {
            chat_completions: upstream("https://chat.example"),
            responses: upstream("https://responses.example"),
        },
        mechanics: vec![MechanicsUpstream {
            scope_id: SCOPE,
            chat_completions: None,
            responses: Some(upstream("https://own.example")),
        }],
        candidate: candidate(),
    }
}

#[test]
fn an_exchange_asks_the_provider_where_it_stands() {
    let providers = providers();
    let asked = |exchange: &Exchange, protocol: Protocol| {
        providers.upstream_for(exchange, &BINDING, protocol).map(|found| found.base_url.text.clone())
    };
    assert_eq!(
        asked(&Exchange::Candidate, Protocol::ChatCompletions),
        Some("https://model.example.com/".to_owned())
    );
    assert_eq!(asked(&Exchange::Candidate, Protocol::Responses), None);
    assert_eq!(
        asked(&Exchange::Baseline(None), Protocol::ChatCompletions),
        Some("https://chat.example/".to_owned())
    );
    assert_eq!(
        asked(&Exchange::Baseline(None), Protocol::Responses),
        Some("https://own.example/".to_owned())
    );
    assert_eq!(asked(&Exchange::Refused(GatewayError::InvalidHeaders), Protocol::Responses), None);
}

fn admitted() -> Admission {
    receive(&[authorized(), header("accept", "a")], &keys(), "/v1/chat/completions").1.ok().unwrap()
}

#[test]
fn an_admitted_request_is_prepared() {
    let body = b"{\"stream\":true}".to_vec();
    let prepared = prepare(
        admitted(),
        choice(Target::CandidateA),
        &providers(),
        EXCHANGE,
        Some("start".to_owned()),
        "POST".to_owned(),
        "/v1/chat/completions".to_owned(),
        body.clone(),
    );
    assert!(prepared.context.streaming);
    assert_eq!(prepared.context.binding, BINDING);
    assert_eq!(prepared.context.exchange_id, EXCHANGE);
    assert_eq!(prepared.context.started_at, Some("start".to_owned()));
    assert_eq!(prepared.context.path, "/v1/chat/completions");
    assert_eq!(prepared.forwarded_headers.len(), 2);
    assert_eq!(prepared.request, body);
    assert!(matches!(prepared.exchange, Exchange::Candidate));
    let prepared = prepare_with(
        admitted(),
        choice(Target::Baseline),
        &providers(),
        EXCHANGE,
        None,
        "POST".to_owned(),
        "/v1/chat/completions".to_owned(),
        body,
        false,
    );
    assert!(!prepared.context.streaming);
    assert!(matches!(prepared.exchange, Exchange::Baseline(None)));
}

fn response() -> ResponseHead {
    response_head(200, &[header("content-type", "a")], Some(5)).unwrap()
}

fn recording(memory: &Arc<Semaphore>, tx: &mpsc::Sender<CaptureJob>) -> Recording {
    Recording {
        capture_tx: tx.clone(),
        capture_memory: Arc::clone(memory),
        started: Instant::now(),
        max_response_bytes: 100,
    }
}

#[test]
fn a_response_is_relayed_and_recorded() {
    let memory = Arc::new(Semaphore::new(10));
    let (tx, mut rx) = mpsc::channel(1);
    let mut relayed = relay(
        context(Some("start")),
        choice(Target::CandidateA),
        response(),
        Target::Baseline,
        Some(FallbackReason::Status(429)),
        b"body".to_vec(),
        recording(&memory, &tx),
    );
    assert_eq!(relayed.status, 200);
    assert_eq!(relayed.headers.len(), 1);
    assert_eq!(relayed.tally, None);
    assert_eq!(relayed.recorder.first_byte, None);
    assert_eq!(relayed.recorder.expected_response_bytes, Some(5));
    assert_eq!(memory.available_permits(), 6);
    assert_eq!(relayed.recorder.finish(false), vec![Tally::Completed, Tally::Enqueued]);
    let job = rx.try_recv().ok().unwrap();
    assert_eq!(job.seed.started_at, "start");
    assert_eq!(job.seed.request, b"body");
    assert_eq!(job.seed.route_target, Target::Baseline);
    assert_eq!(job.seed.fallback_reason, Some("candidate_status_429".to_owned()));
    assert_eq!(job.seed.candidate_artifact_sha256, Some("a".repeat(64)));
    assert_eq!(job.seed.response_headers.len(), 1);
    assert!(job.seed.streaming);
}

#[test]
fn a_response_without_memory_for_its_request_is_relayed_unrecorded() {
    let memory = Arc::new(Semaphore::new(3));
    let (tx, _rx) = mpsc::channel(1);
    let mut relayed = relay(
        context(Some("start")),
        choice(Target::CandidateA),
        response(),
        Target::CandidateA,
        None,
        b"body".to_vec(),
        recording(&memory, &tx),
    );
    assert_eq!(relayed.tally, Some(Tally::Dropped));
    assert!(relayed.recorder.seed.is_none());
    assert!(relayed.recorder.first_byte.is_some());
    assert_eq!(relayed.recorder.finish(false), vec![Tally::Completed]);
}

#[test]
fn a_response_is_relayed_at_a_given_time_and_with_a_given_share() {
    let memory = Arc::new(Semaphore::new(10));
    let (tx, _rx) = mpsc::channel(1);
    let permit = Arc::clone(&memory).try_acquire_many_owned(4).unwrap();
    let relayed = relay_with(
        context(None),
        choice(Target::CandidateA),
        response(),
        Target::CandidateA,
        None,
        b"body".to_vec(),
        recording(&memory, &tx),
        Some(MemoryPermit { permit, bytes: 4 }),
        77,
    );
    assert_eq!(relayed.tally, Some(Tally::Dropped));
    assert_eq!(relayed.recorder.first_byte, Some(77));
    assert_eq!(memory.available_permits(), 10);
}

#[test]
fn writes_are_counted() {
    assert_eq!(write_tally(true), Tally::Persisted);
    assert_eq!(write_tally(false), Tally::StorageFailed);
}

#[test]
fn errors_are_answered_in_json() {
    let reply = gateway_error(GatewayError::RequestTooLarge);
    assert_eq!(reply.status, 413);
    assert_eq!(
        body(&reply),
        "{\"error\":{\"code\":\"request_too_large\",\
         \"message\":\"The request exceeds the gateway memory bound.\",\
         \"type\":\"gateway_error\"}}"
    );
    assert_eq!(headers(&reply), vec![
        ("cache-control", "no-store"),
        ("content-type", "application/json"),
    ]);
    assert_eq!(GatewayError::RequestTooLarge.tally(), Some(Tally::Oversized));
}

#[test]
fn every_error_has_its_status_and_code() {
    for (error, status, code, tally) in [
        (GatewayError::Unauthorized, 401u16, "unauthorized", None),
        (GatewayError::UnsupportedEndpoint, 404, "unsupported_endpoint", None),
        (GatewayError::InvalidHeaders, 400, "invalid_headers", None),
        (GatewayError::RequestTooLarge, 413, "request_too_large", Some(Tally::Oversized)),
        (GatewayError::UpstreamUnavailable, 502, "upstream_unavailable", Some(Tally::Interrupted)),
        (
            GatewayError::InvalidUpstreamHeaders,
            502,
            "invalid_upstream_headers",
            Some(Tally::Interrupted),
        ),
        (GatewayError::InvalidStatus, 500, "invalid_status", None),
        (GatewayError::StatusTooLarge, 500, "invalid_status", None),
        (GatewayError::StatusUnavailable, 503, "status_unavailable", None),
    ] {
        assert_eq!(error.status(), status);
        assert_eq!(error.code(), code);
        assert_eq!(error.tally(), tally);
        assert_eq!(gateway_error(error).status, status);
    }
}

#[test]
fn a_missing_key_is_answered_with_the_scheme_to_use() {
    let reply = unauthorized();
    assert_eq!(reply.status, 401);
    assert!(headers(&reply).contains(&("www-authenticate", "Bearer")));
    assert!(body(&reply).contains("A valid Milk bearer key is required."));
}

#[test]
fn health_tells_the_counters_and_the_protocols() {
    let mut counters = Counters::new();
    counters.record(Tally::Observed);
    let reply = health(&counters, &candidate());
    assert_eq!(reply.status, 200);
    assert_eq!(headers(&reply), vec![("content-type", "application/json")]);
    assert_eq!(
        body(&reply),
        "{\"capture\":{\"completed\":0,\"dropped\":0,\"enqueued\":0,\"interrupted\":0,\
         \"observed\":1,\"oversized\":0,\"persisted\":0,\"storage_failed\":0,\
         \"writer_alive\":true},\"protocols\":{\"candidate_chat_completions\":true,\
         \"candidate_responses\":false,\"chat_completions\":true,\"responses\":true},\
         \"status\":\"ok\"}"
    );
    assert!(body(&health(&counters, &None)).contains("\"candidate_chat_completions\":false"));
}

#[test]
fn a_stored_status_is_passed_on() {
    let stored = b" {\"state\":\"ready\"}".to_vec();
    let reply = api_status(&BINDING, Lookup::Found(stored.clone()));
    assert_eq!(reply.status, 200);
    assert_eq!(reply.body, stored);
    assert_eq!(headers(&reply), vec![
        ("cache-control", "no-store"),
        ("content-type", "application/json"),
    ]);
    let refused = api_status(&BINDING, Lookup::Found(b"{".to_vec()));
    assert_eq!(refused.status, 500);
    assert!(body(&refused).contains("The stored status is invalid."));
    let large = api_status(&BINDING, Lookup::Found(vec![b' '; 1048577]));
    assert!(body(&large).contains("The stored status is too large."));
    assert_eq!(api_status(&BINDING, Lookup::Failed).status, 503);
    assert_eq!(status_reply(&BINDING, Lookup::Found(b"x".to_vec()), true).body, b"x");
    assert_eq!(status_reply(&BINDING, Lookup::Found(b"x".to_vec()), false).status, 500);
}

#[test]
fn a_scope_without_a_status_is_waiting() {
    let reply = api_status(&BINDING, Lookup::Missing);
    assert_eq!(reply.status, 200);
    assert_eq!(
        body(&reply),
        "{\"next_action\":\"capture\",\"profile\":\"mechanics\",\
         \"schema_version\":\"milk.status.v2\",\
         \"scope_id\":\"11111111-1111-4111-8111-111111111111\",\"state\":\"waiting\"}"
    );
}

#[test]
fn a_failed_capture_never_alters_a_response() {
    let (tx, _rx) = mpsc::channel(1);
    let relayed = |permits: usize| {
        relay(
            context(Some("start")),
            choice(Target::CandidateA),
            response(),
            Target::CandidateA,
            None,
            b"body".to_vec(),
            recording(&Arc::new(Semaphore::new(permits)), &tx),
        )
    };
    let (kept, dropped) = (relayed(10), relayed(3));
    assert!(kept.recorder.seed.is_some() && dropped.recorder.seed.is_none());
    assert_eq!(kept.status, dropped.status);
    assert_eq!(kept.headers.len(), dropped.headers.len());
    for (a, b) in kept.headers.iter().zip(&dropped.headers) {
        assert_eq!((&a.name, &a.value), (&b.name, &b.value));
    }
}

#[test]
fn a_recorder_gets_the_start_and_the_channel_of_its_exchange() {
    let memory = Arc::new(Semaphore::new(10));
    let (tx, _rx) = mpsc::channel(1);
    let recording = recording(&memory, &tx);
    let started = recording.started;
    let relayed = relay(
        context(Some("start")),
        choice(Target::Baseline),
        response(),
        Target::Baseline,
        None,
        b"body".to_vec(),
        recording,
    );
    assert_eq!(relayed.recorder.started, started);
    assert!(Arc::ptr_eq(&relayed.recorder.capture_memory, &memory));
    assert!(relayed.recorder.capture_tx.same_channel(&tx));
}
