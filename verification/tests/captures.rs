//! Captures, and the recorder that makes them.

use milk_parlor::boundary::MemoryPermit;
use milk_parlor::capture::duration_ms;
use milk_parlor::capture::encode_capture;
use milk_parlor::capture::moment;
use milk_parlor::capture::utc_now;
use milk_parlor::capture::CaptureJob;
use milk_parlor::capture::CaptureSeed;
use milk_parlor::headers::TextHeader;
use milk_parlor::identity::Profile;
use milk_parlor::identity::Protocol;
use milk_parlor::identity::Target;
use milk_parlor::identity::Uuid;
use milk_parlor::recorder::contains_bytes;
use milk_parlor::recorder::contains_marker;
use milk_parlor::recorder::tallies_of;
use milk_parlor::recorder::BodyEvent;
use milk_parlor::recorder::Counters;
use milk_parlor::recorder::Ending;
use milk_parlor::recorder::Passed;
use milk_parlor::recorder::ResponseRecorder;
use milk_parlor::recorder::Tally;
use std::sync::Arc;
use std::time::Instant;
use tokio::sync::mpsc;
use tokio::sync::Semaphore;

const SCOPE: Uuid = Uuid { value: 0x11111111_1111_4111_8111_111111111111 };
const EXCHANGE: Uuid = Uuid { value: 0x22222222_2222_7222_8222_222222222222 };
const ROUTE: Uuid = Uuid { value: 0x33333333_3333_4333_8333_333333333333 };

fn header(name: &str, value: &str) -> TextHeader {
    TextHeader { name: name.to_owned(), value: value.to_owned() }
}

fn seed(request: &[u8]) -> CaptureSeed {
    CaptureSeed {
        scope_id: SCOPE,
        profile: Profile::Mechanics,
        trajectory_id: None,
        exchange_id: EXCHANGE,
        started_at: "2024-01-02T03:04:05Z".to_owned(),
        endpoint: Protocol::ChatCompletions,
        streaming: true,
        request_method: "POST".to_owned(),
        request_path: "/v1/chat/completions".to_owned(),
        request_headers: vec![header("accept", "a"), header("content-type", "application/json")],
        request: request.to_vec(),
        response_status: 200,
        response_headers: vec![header("x-request-id", "r\"1")],
        route_id: None,
        route_target: Target::Baseline,
        candidate_artifact_sha256: None,
        candidate_binding_sha256: None,
        fallback_reason: None,
    }
}

fn job() -> CaptureJob {
    CaptureJob {
        seed: seed(b"{\"model\":\"m\"}"),
        completed_at: "2024-01-02T03:04:06Z".to_owned(),
        response: b"hello".to_vec(),
        ttft_ms: Some(12),
        total_ms: 1000,
        memory: Vec::new(),
    }
}

#[test]
fn an_exchange_is_written_field_by_field() {
    assert_eq!(
        job().to_json(),
        "{\"schema_version\":\"milk.exchange.v2\",\
         \"scope_id\":\"11111111-1111-4111-8111-111111111111\",\"profile\":\"mechanics\",\
         \"exchange_id\":\"22222222-2222-7222-8222-222222222222\",\
         \"started_at\":\"2024-01-02T03:04:05Z\",\"completed_at\":\"2024-01-02T03:04:06Z\",\
         \"endpoint\":\"chat_completions\",\"streaming\":true,\
         \"request\":{\"method\":\"POST\",\"path\":\"/v1/chat/completions\",\
         \"headers\":{\"accept\":\"a\",\"content-type\":\"application/json\"},\
         \"body_base64\":\"eyJtb2RlbCI6Im0ifQ==\",\"byte_len\":13,\
         \"sha256\":\"548f58d1c36c715b44f0863472074a97c448d5b8d18164b92adf55592b127f86\"},\
         \"response\":{\"status\":200,\"headers\":{\"x-request-id\":\"r\\\"1\"},\
         \"body_base64\":\"aGVsbG8=\",\"byte_len\":5,\
         \"sha256\":\"2cf24dba5fb0a30e26e83b2ac5b9e29e1b161e5c1fa7425e73043362938b9824\"},\
         \"route\":{\"route_id\":null,\"target\":\"baseline\",\"candidate_artifact_sha256\":null,\
         \"candidate_binding_sha256\":null,\"fallback_reason\":null},\
         \"timing\":{\"ttft_ms\":12,\"total_ms\":1000},\"complete\":true}"
    );
}

#[test]
fn a_trajectory_and_a_route_are_named_where_there_are() {
    let mut job = job();
    job.seed.trajectory_id = Some(ROUTE);
    job.seed.profile = Profile::Production;
    job.seed.route_id = Some(ROUTE);
    job.seed.route_target = Target::CandidateA;
    job.seed.candidate_artifact_sha256 = Some("a".repeat(64));
    job.seed.candidate_binding_sha256 = Some("b".repeat(64));
    job.seed.fallback_reason = Some("candidate_status_503".to_owned());
    job.ttft_ms = None;
    let json = job.to_json();
    assert!(json.contains(
        "\"profile\":\"production\",\"trajectory_id\":\"33333333-3333-4333-8333-333333333333\",\
         \"exchange_id\""
    ));
    assert!(json.contains(&format!(
        "\"route\":{{\"route_id\":\"33333333-3333-4333-8333-333333333333\",\
         \"target\":\"candidate-a\",\"candidate_artifact_sha256\":\"{}\",\
         \"candidate_binding_sha256\":\"{}\",\"fallback_reason\":\"candidate_status_503\"}}",
        "a".repeat(64),
        "b".repeat(64)
    )));
    assert!(json.contains("\"timing\":{\"ttft_ms\":null,\"total_ms\":1000}"));
}

#[test]
fn exchanges_that_differ_have_different_texts() {
    let mut texts = vec![job().to_json()];
    let mut change = |edit: fn(&mut CaptureJob)| {
        let mut job = job();
        edit(&mut job);
        let text = job.to_json();
        assert!(!texts.contains(&text));
        texts.push(text);
    };
    change(|job| job.seed.trajectory_id = Some(ROUTE));
    change(|job| job.seed.exchange_id = ROUTE);
    change(|job| job.seed.streaming = false);
    change(|job| job.seed.endpoint = Protocol::Responses);
    change(|job| job.seed.request.push(0));
    change(|job| job.seed.request_headers.truncate(1));
    change(|job| job.seed.response_status = 201);
    change(|job| job.response.clear());
    change(|job| job.seed.fallback_reason = Some("null".to_owned()));
    change(|job| job.ttft_ms = None);
    change(|job| job.total_ms = 1001);
}

#[test]
fn a_capture_is_compressed_json() {
    let job = job();
    let encoded = encode_capture(&job).unwrap();
    assert_ne!(encoded, job.to_json().into_bytes());
    assert_eq!(zstd::decode_all(&encoded[..]).unwrap(), job.to_json().into_bytes());
    assert_eq!(encode_capture(&job).unwrap(), encoded);
}

#[test]
fn spans_are_whole_milliseconds() {
    assert_eq!(duration_ms(0), 0);
    assert_eq!(duration_ms(999_999), 0);
    assert_eq!(duration_ms(1_000_000), 1);
    assert_eq!(duration_ms(u128::MAX), u64::MAX);
    assert_eq!(duration_ms(u64::MAX as u128 * 1_000_000), u64::MAX);
}

#[test]
fn moments_are_written_in_universal_time() {
    assert_eq!(moment(0), Some("1970-01-01T00:00:00Z".to_owned()));
    assert_eq!(moment(1_704_164_645_250_000_000), Some("2024-01-02T03:04:05.25Z".to_owned()));
    assert_eq!(moment(i128::MAX), None);
    let now = utc_now().unwrap();
    assert!(now.ends_with('Z') && now.len() >= 20);
}

#[test]
fn parts_are_found_in_bytes() {
    assert!(contains_bytes(b"abc", b"abc"));
    assert!(contains_bytes(b"abcabd", b"abd"));
    assert!(contains_bytes(b"aab", b"ab"));
    assert!(contains_bytes(b"abc", b""));
    assert!(!contains_bytes(b"ab", b"abc"));
    assert!(!contains_bytes(b"abab", b"aa"));
}

#[test]
fn the_markers_of_the_end_are_known() {
    for marker in [
        "data: [DONE]", "event: response.completed", "event: response.failed",
        "event: response.incomplete",
    ] {
        assert!(contains_marker(format!("x\n{}\n", marker).as_bytes()));
        assert!(!contains_marker(&marker.as_bytes()[1..]));
    }
    assert!(!contains_marker(b"event: response.created"));
}

fn recorder(
    request: Option<&[u8]>,
    memory: &Arc<Semaphore>,
    tx: &mpsc::Sender<CaptureJob>,
    max: usize,
    expected: Option<usize>,
) -> ResponseRecorder {
    let seed = request.map(|request| {
        let permit = Arc::clone(memory).try_acquire_many_owned(request.len() as u32).unwrap();
        (seed(request), MemoryPermit { permit, bytes: request.len() })
    });
    ResponseRecorder::new(
        seed,
        tx.clone(),
        Arc::clone(memory),
        Instant::now(),
        None,
        max,
        EXCHANGE,
        expected,
    )
}

#[test]
fn a_whole_response_is_handed_on() {
    let memory = Arc::new(Semaphore::new(100));
    let (tx, mut rx) = mpsc::channel(1);
    let mut recorder = recorder(Some(b"request"), &memory, &tx, 50, None);
    assert_eq!(memory.available_permits(), 93);
    assert!(recorder.follow(BodyEvent::Chunk(b"")).tallies.is_empty());
    assert!(recorder.first_byte.is_none());
    assert!(recorder.follow(BodyEvent::Chunk(b"hel")).tallies.is_empty());
    assert!(recorder.first_byte.is_some());
    assert!(recorder.follow(BodyEvent::Chunk(b"lo")).tallies.is_empty());
    assert_eq!(memory.available_permits(), 88);
    assert_eq!(recorder.follow(BodyEvent::Ended).tallies, vec![Tally::Completed, Tally::Enqueued]);
    assert!(recorder.follow(BodyEvent::Abandoned).tallies.is_empty());
    assert!(recorder.follow(BodyEvent::Failed).tallies.is_empty());
    let job = rx.try_recv().ok().unwrap();
    assert_eq!(job.response, b"hello");
    assert_eq!(job.seed.request, b"request");
    assert!(job.ttft_ms.is_some());
    assert_eq!(job.memory.iter().map(|share| share.bytes).sum::<usize>(), 12);
    assert_eq!(memory.available_permits(), 88);
    drop(job);
    assert_eq!(memory.available_permits(), 100);
}

#[test]
fn a_full_queue_drops_the_exchange() {
    let memory = Arc::new(Semaphore::new(100));
    let (tx, _rx) = mpsc::channel(1);
    let mut first = recorder(Some(b"a"), &memory, &tx, 50, None);
    assert_eq!(first.finish(false), vec![Tally::Completed, Tally::Enqueued]);
    let mut second = recorder(Some(b"b"), &memory, &tx, 50, None);
    assert_eq!(second.finish(false), vec![Tally::Completed, Tally::Dropped]);
    assert_eq!(memory.available_permits(), 99);
}

#[test]
fn an_interrupted_response_is_not_kept() {
    let memory = Arc::new(Semaphore::new(100));
    let (tx, mut rx) = mpsc::channel(1);
    let mut failed = recorder(Some(b"a"), &memory, &tx, 50, Some(2));
    failed.follow(BodyEvent::Chunk(b"x"));
    assert_eq!(failed.follow(BodyEvent::Failed).tallies, vec![Tally::Interrupted]);
    assert_eq!(memory.available_permits(), 100);
    let mut abandoned = recorder(Some(b"a"), &memory, &tx, 50, Some(2));
    abandoned.follow(BodyEvent::Chunk(b"x"));
    assert!(!abandoned.response_complete());
    assert_eq!(abandoned.follow(BodyEvent::Abandoned).tallies, vec![Tally::Interrupted]);
    assert!(rx.try_recv().is_err());
}

#[test]
fn a_response_that_was_whole_when_it_was_abandoned_is_kept() {
    let memory = Arc::new(Semaphore::new(100));
    let (tx, mut rx) = mpsc::channel(2);
    let mut sized = recorder(Some(b"a"), &memory, &tx, 50, Some(2));
    sized.follow(BodyEvent::Chunk(b"xy"));
    assert!(sized.response_complete());
    assert_eq!(sized.follow(BodyEvent::Abandoned).tallies, vec![Tally::Completed, Tally::Enqueued]);
    let mut marked = recorder(Some(b"a"), &memory, &tx, 50, None);
    marked.follow(BodyEvent::Chunk(b"data: [DO"));
    assert!(!marked.response_complete());
    marked.follow(BodyEvent::Chunk(b"NE]\n\n"));
    assert_eq!(marked.follow(BodyEvent::Abandoned).tallies, vec![Tally::Completed, Tally::Enqueued]);
    assert!(rx.try_recv().is_ok());
    assert!(rx.try_recv().is_ok());
}

#[test]
fn a_response_that_is_too_large_is_passed_but_not_kept() {
    let memory = Arc::new(Semaphore::new(100));
    let (tx, mut rx) = mpsc::channel(1);
    let mut recorder = recorder(Some(b"a"), &memory, &tx, 4, None);
    assert_eq!(recorder.observe(b"four"), None);
    assert_eq!(recorder.observe(b"x"), Some(Tally::Oversized));
    assert_eq!(memory.available_permits(), 100);
    assert_eq!(recorder.observe(b"more"), None);
    assert_eq!(recorder.observed_response_bytes, 9);
    assert_eq!(recorder.finish(false), vec![Tally::Completed]);
    assert!(rx.try_recv().is_err());
}

#[test]
fn a_response_without_memory_is_passed_but_not_kept() {
    let memory = Arc::new(Semaphore::new(4));
    let (tx, _rx) = mpsc::channel(1);
    let mut recorder = recorder(Some(b"abc"), &memory, &tx, 50, None);
    assert_eq!(recorder.observe(b"x"), None);
    assert_eq!(recorder.observe(b"y"), Some(Tally::Dropped));
    assert_eq!(memory.available_permits(), 4);
    assert_eq!(recorder.finish(false), vec![Tally::Completed]);
}

#[test]
fn a_response_that_is_not_captured_takes_no_memory() {
    let memory = Arc::new(Semaphore::new(4));
    let (tx, _rx) = mpsc::channel(1);
    let mut recorder = recorder(None, &memory, &tx, 50, None);
    assert_eq!(recorder.observe(b"hello"), None);
    assert_eq!(memory.available_permits(), 4);
    assert_eq!(recorder.finish(false), vec![Tally::Completed]);
    assert_eq!(recorder.finish(true), vec![]);
}

#[test]
fn shares_and_their_refusal_are_handled_alike() {
    let memory = Arc::new(Semaphore::new(10));
    let (tx, _rx) = mpsc::channel(1);
    let mut kept = recorder(Some(b"a"), &memory, &tx, 50, None);
    let permit = Arc::clone(&memory).try_acquire_many_owned(2).unwrap();
    assert_eq!(kept.keep(b"xy", Some(MemoryPermit { permit, bytes: 2 })), None);
    assert_eq!(kept.response, b"xy");
    assert_eq!(kept.keep(b"z", None), Some(Tally::Dropped));
    assert!(kept.response.is_empty());
    assert!(kept.seed.is_none());
    assert_eq!(kept.disable_capture(true), Tally::Oversized);
}

#[test]
fn a_marker_is_seen_across_every_cut() {
    let memory = Arc::new(Semaphore::new(10));
    let (tx, _rx) = mpsc::channel(1);
    for marker in ["data: [DONE]", "event: response.incomplete"] {
        let stream = format!("data: event: {}\n\n", marker).into_bytes();
        for cut in 0..=stream.len() {
            let mut split = recorder(None, &memory, &tx, 50, None);
            split.observe_stream_terminal(&stream[..cut]);
            split.observe_stream_terminal(&stream[cut..]);
            assert!(split.stream_terminal_seen, "{} {}", marker, cut);
        }
        let mut single = recorder(None, &memory, &tx, 50, None);
        for byte in &stream {
            single.observe_stream_terminal(&[*byte]);
        }
        assert!(single.stream_terminal_seen);
        assert!(single.stream_terminal_tail.is_empty());
    }
    let mut other = recorder(None, &memory, &tx, 50, None);
    other.observe_stream_terminal(&[b'x'; 100]);
    assert!(!other.stream_terminal_seen);
    assert_eq!(other.stream_terminal_tail.len(), 25);
}

#[test]
fn the_end_of_a_response_gives_the_exchange() {
    let memory = Arc::new(Semaphore::new(10));
    let (tx, _rx) = mpsc::channel(1);
    let mut whole = recorder(Some(b"abc"), &memory, &tx, 50, None);
    whole.note(b"x", 2_500_000);
    whole.note(b"y", 9_500_000);
    match whole.conclude(false, Some("then".to_owned()), 7_900_000) {
        Ending::Recorded(job) => {
            assert_eq!(job.completed_at, "then");
            assert_eq!(job.ttft_ms, Some(2));
            assert_eq!(job.total_ms, 7);
            assert_eq!(job.seed.exchange_id, EXCHANGE);
        }
        _ => panic!("not recorded"),
    }
    assert!(matches!(whole.conclude(false, None, 0), Ending::Repeated));
    let mut unstamped = recorder(Some(b"abc"), &memory, &tx, 50, None);
    assert!(matches!(unstamped.conclude(false, None, 0), Ending::Unstamped));
    let mut unrecorded = recorder(None, &memory, &tx, 50, None);
    assert!(matches!(unrecorded.conclude(false, None, 0), Ending::Unrecorded));
    let mut interrupted = recorder(Some(b"abc"), &memory, &tx, 50, None);
    assert!(matches!(interrupted.conclude(true, None, 0), Ending::Interrupted));
    assert_eq!(memory.available_permits(), 10);
}

#[test]
fn counters_count() {
    let mut counters = Counters::new();
    assert!(counters.writer_alive);
    for tally in [
        Tally::Observed, Tally::Completed, Tally::Enqueued, Tally::Persisted, Tally::Dropped,
        Tally::Oversized, Tally::Interrupted, Tally::StorageFailed, Tally::Observed,
    ] {
        counters.record(tally);
    }
    assert_eq!(counters.observed, 2);
    assert_eq!(counters.completed, 1);
    assert_eq!(counters.enqueued, 1);
    assert_eq!(counters.persisted, 1);
    assert_eq!(counters.dropped, 1);
    assert_eq!(counters.oversized, 1);
    assert_eq!(counters.interrupted, 1);
    assert_eq!(counters.storage_failed, 1);
    counters.dropped = u64::MAX;
    counters.record(Tally::Dropped);
    assert_eq!(counters.dropped, 0);
}

#[test]
fn what_is_counted_follows_from_the_end_and_the_channel() {
    for taken in [true, false] {
        assert_eq!(tallies_of(&Ending::Repeated, taken), vec![]);
        assert_eq!(tallies_of(&Ending::Interrupted, taken), vec![Tally::Interrupted]);
        assert_eq!(tallies_of(&Ending::Unrecorded, taken), vec![Tally::Completed]);
        assert_eq!(
            tallies_of(&Ending::Unstamped, taken),
            vec![Tally::Completed, Tally::Dropped],
        );
    }
    let recorded = Ending::Recorded(job());
    assert_eq!(tallies_of(&recorded, true), vec![Tally::Completed, Tally::Enqueued]);
    assert_eq!(tallies_of(&recorded, false), vec![Tally::Completed, Tally::Dropped]);
}

#[test]
fn a_response_is_closed_once_and_nothing_is_handed_on_yet() {
    let memory = Arc::new(Semaphore::new(10));
    let (tx, mut rx) = mpsc::channel(1);
    let mut whole = recorder(Some(b"abc"), &memory, &tx, 50, None);
    whole.observe(b"xy");
    match whole.close(false) {
        Ending::Recorded(job) => {
            assert_eq!(job.response, b"xy");
            assert_eq!(job.seed.request, b"abc");
            assert!(job.completed_at.ends_with('Z'));
        }
        _ => panic!("not recorded"),
    }
    assert!(whole.seed.is_none() && whole.response.is_empty());
    assert!(matches!(whole.close(false), Ending::Repeated));
    let mut cut = recorder(Some(b"abc"), &memory, &tx, 50, None);
    cut.observe(b"xy");
    assert!(matches!(cut.close(true), Ending::Interrupted));
    let mut unrecorded = recorder(None, &memory, &tx, 50, None);
    assert!(matches!(unrecorded.close(false), Ending::Unrecorded));
    assert!(rx.try_recv().is_err());
    assert_eq!(memory.available_permits(), 10);
}

#[test]
fn a_whole_response_is_offered_once() {
    let memory = Arc::new(Semaphore::new(10));
    let (tx, mut rx) = mpsc::channel(4);
    let mut whole = recorder(Some(b"abc"), &memory, &tx, 50, None);
    assert_eq!(whole.finish(false), vec![Tally::Completed, Tally::Enqueued]);
    assert_eq!(whole.finish(false), vec![]);
    assert!(rx.try_recv().is_ok());
    assert!(rx.try_recv().is_err());
    drop(rx);
    let mut late = recorder(Some(b"abc"), &memory, &tx, 50, None);
    assert_eq!(late.finish(false), vec![Tally::Completed, Tally::Dropped]);
    assert_eq!(memory.available_permits(), 10);
}

#[test]
fn a_recorder_keeps_its_start_and_its_memory() {
    let memory = Arc::new(Semaphore::new(10));
    let (tx, _rx) = mpsc::channel(1);
    let mut recorder = recorder(Some(b"abc"), &memory, &tx, 50, None);
    let started = recorder.started;
    recorder.observe_stream_terminal(b"data: [DONE]");
    recorder.observe(b"x");
    recorder.finish(false);
    assert_eq!(recorder.started, started);
    assert!(Arc::ptr_eq(&recorder.capture_memory, &memory));
    assert!(recorder.capture_tx.same_channel(&tx));
}

#[test]
fn a_failed_capture_changes_nothing_else() {
    let ample = Arc::new(Semaphore::new(100));
    let scarce = Arc::new(Semaphore::new(4));
    let (tx, _rx) = mpsc::channel(1);
    let mut kept = recorder(Some(b"abc"), &ample, &tx, 50, None);
    let mut dropped = recorder(Some(b"abc"), &scarce, &tx, 50, None);
    for chunk in ["data: ", "[DO", "NE]\n", "more"] {
        kept.follow(BodyEvent::Chunk(chunk.as_bytes()));
        dropped.follow(BodyEvent::Chunk(chunk.as_bytes()));
        assert_eq!(kept.observed_response_bytes, dropped.observed_response_bytes);
        assert_eq!(kept.stream_terminal_seen, dropped.stream_terminal_seen);
        assert_eq!(kept.stream_terminal_tail, dropped.stream_terminal_tail);
        assert_eq!(kept.response_complete(), dropped.response_complete());
    }
    assert!(kept.seed.is_some() && dropped.seed.is_none());
    assert_eq!(kept.follow(BodyEvent::Abandoned).tallies, vec![Tally::Completed, Tally::Enqueued]);
    assert_eq!(dropped.follow(BodyEvent::Abandoned).tallies, vec![Tally::Completed]);
}

#[test]
fn what_came_is_passed_on_whatever_is_captured() {
    let ample = Arc::new(Semaphore::new(100));
    let scarce = Arc::new(Semaphore::new(3));
    let (tx, _rx) = mpsc::channel(1);
    let mut recorders = [
        recorder(Some(b"abc"), &ample, &tx, 50, None),
        recorder(Some(b"abc"), &ample, &tx, 2, None),
        recorder(Some(b"abc"), &scarce, &tx, 50, None),
        recorder(None, &ample, &tx, 50, None),
    ];
    for recorder in &mut recorders {
        let mut body: Vec<u8> = Vec::new();
        for chunk in ["hello", "", " world"] {
            match recorder.follow(BodyEvent::Chunk(chunk.as_bytes())).passed {
                Passed::Bytes(bytes) => body.extend_from_slice(bytes),
                _ => panic!("not passed"),
            }
        }
        assert_eq!(body, b"hello world");
        assert_eq!(recorder.follow(BodyEvent::Failed).passed, Passed::Failed);
        assert_eq!(recorder.follow(BodyEvent::Ended).passed, Passed::Ended);
        assert_eq!(recorder.follow(BodyEvent::Abandoned).passed, Passed::Nothing);
    }
}

#[test]
fn memory_is_asked_for_what_is_kept_alone() {
    let memory = Arc::new(Semaphore::new(20));
    let (tx, _rx) = mpsc::channel(1);
    let mut recorder = recorder(Some(b"abc"), &memory, &tx, 10, None);
    assert_eq!(memory.available_permits(), 17);
    recorder.observe(b"12345");
    assert_eq!(memory.available_permits(), 12);
    recorder.observe(b"");
    assert_eq!(memory.available_permits(), 12);
    assert_eq!(recorder.observe(b"123456"), Some(Tally::Oversized));
    assert_eq!(memory.available_permits(), 20);
    recorder.observe(b"1");
    assert_eq!(memory.available_permits(), 20);
}
