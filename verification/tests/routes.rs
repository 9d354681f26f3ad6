//! Signed routes, and the choice of an upstream.

use base64::Engine;
use ed25519_dalek::Signer;
use ed25519_dalek::SigningKey;
use milk_parlor::config::ConfigProblem;
use milk_parlor::digest::sha256_hex;
use milk_parlor::document::CandidateRoute;
use milk_parlor::document::SignedPointer;
use milk_parlor::document::SignedRoute;
use milk_parlor::identity::Profile;
use milk_parlor::identity::Protocol;
use milk_parlor::identity::Target;
use milk_parlor::identity::Uuid;
use milk_parlor::keys::KeyBinding;
use milk_parlor::route::accept_time;
use milk_parlor::route::candidate_valid;
use milk_parlor::route::canonical_time;
use milk_parlor::route::key_bytes;
use milk_parlor::route::parse_pointer;
use milk_parlor::route::parse_route;
use milk_parlor::route::parse_verifying_key;
use milk_parlor::route::require_canonical;
use milk_parlor::route::signature_bytes;
use milk_parlor::route::verify_signature;
use milk_parlor::route::RouteError;
use milk_parlor::route::VerifiedRoute;
use milk_parlor::route::VerifyingKey;
use milk_parlor::routing::assigned_to_candidate;
use milk_parlor::routing::bucket;
use milk_parlor::routing::choice_of;
use milk_parlor::routing::choose_route;
use milk_parlor::routing::unrouted_choice;
use milk_parlor::routing::PointerObject;
use milk_parlor::routing::PollStep;
use milk_parlor::routing::RouteManager;
use milk_parlor::routing::RouteObject;
use std::collections::HashMap;

const SCOPE: Uuid = Uuid { value: 0x11111111_1111_4111_8111_111111111111 };
const ROUTE: Uuid = Uuid { value: 0x22222222_2222_4222_8222_222222222222 };

fn signing_key() -> SigningKey {
    SigningKey::from_bytes(&[7u8; 32])
}

fn encoded(bytes: &[u8]) -> String {
    base64::engine::general_purpose::STANDARD.encode(bytes)
}

fn key() -> VerifyingKey {
    match parse_verifying_key(&encoded(&signing_key().verifying_key().to_bytes())) {
        Ok(key) => key,
        Err(error) => panic!("{}", error.message()),
    }
}

fn signature(message: &str) -> String {
    encoded(&signing_key().sign(message.as_bytes()).to_bytes())
}

fn candidate(basis_points: u16) -> CandidateRoute {
    CandidateRoute {
        target: Target::CandidateA,
        artifact_sha256: "a".repeat(64),
        basis_points,
        chat_completions: Some("b".repeat(64)),
        responses: None,
    }
}

fn route(revision: u64, candidate: Option<CandidateRoute>) -> SignedRoute {
    SignedRoute {
        schema_version: "milk.route.v3".to_owned(),
        scope_id: SCOPE,
        route_id: ROUTE,
        revision,
        valid_from: "2024-01-02T03:04:05Z".to_owned(),
        expires_at: "2034-01-02T03:04:05Z".to_owned(),
        baseline: Target::Baseline,
        candidate,
        signature: String::new(),
    }
}

fn signed_route(mut route: SignedRoute) -> SignedRoute {
    route.signature = signature(&route.to_unsigned_json());
    route
}

fn pointer(revision: u64, route_sha256: &str) -> SignedPointer {
    SignedPointer {
        schema_version: "milk.route-pointer.v2".to_owned(),
        scope_id: SCOPE,
        route_id: ROUTE,
        revision,
        route_sha256: route_sha256.to_owned(),
        published_at: "2024-01-02T03:04:05Z".to_owned(),
        signature: String::new(),
    }
}

fn signed_pointer(mut pointer: SignedPointer) -> SignedPointer {
    pointer.signature = signature(&pointer.to_unsigned_json());
    pointer
}

fn read_pointer(pointer: SignedPointer) -> Result<SignedPointer, RouteError> {
    let bytes = pointer.to_json().into_bytes();
    parse_pointer(&bytes, Some(pointer), &key(), SCOPE)
}

fn read_route(route: SignedRoute) -> Result<VerifiedRoute, RouteError> {
    let bytes = route.to_json().into_bytes();
    parse_route(&bytes, Some(route), &key(), SCOPE)
}

fn verified(route: SignedRoute) -> VerifiedRoute {
    match read_route(signed_route(route)) {
        Ok(route) => route,
        Err(error) => panic!("{}", error.message()),
    }
}

fn manager(revision: Option<u64>) -> RouteManager {
    let mut revisions: HashMap<u128, u64> = HashMap::new();
    if let Some(revision) = revision {
        revisions.insert(SCOPE.value, revision);
    }
    RouteManager::new(key(), 30_000_000_000, revisions)
}

/// A moment at which the routes of these tests are in force.
const NOW: i128 = 1_800_000_000_000_000_000;

#[test]
fn a_verifying_key_is_thirty_two_bytes_in_base64() {
    let bytes = signing_key().verifying_key().to_bytes();
    assert_eq!(key().bytes, bytes);
    let problem = |raw: &str| match parse_verifying_key(raw) {
        Ok(_) => panic!("accepted"),
        Err(error) => {
            assert_eq!(error.name, "MILK_ROUTE_VERIFY_KEY");
            error.problem
        }
    };
    assert_eq!(problem("not base64"), ConfigProblem::NotBase64);
    let canonical = encoded(&bytes);
    assert_eq!(problem(canonical.trim_end_matches('=')), ConfigProblem::NotBase64);
    assert_eq!(problem(&format!("{}\n", canonical)), ConfigProblem::NotBase64);
    let mut spare_bit = canonical.clone().into_bytes();
    spare_bit[42] += 1;
    assert_eq!(problem(&String::from_utf8(spare_bit).unwrap()), ConfigProblem::NotBase64);
    assert_eq!(problem(&encoded(&bytes[1..])), ConfigProblem::NotKeyLength);
    let mut refused = false;
    for n in 0..=255u8 {
        let mut other = [n; 32];
        other[31] = 0x7f;
        if let Err(error) = parse_verifying_key(&encoded(&other)) {
            assert_eq!(error.problem, ConfigProblem::NotKey);
            refused = true;
        }
    }
    assert!(refused);
    assert!(key_bytes(None).is_err());
    assert!(matches!(key_bytes(Some(vec![1; 32])), Ok(found) if found == [1; 32]));
    assert!(key_bytes(Some(vec![1; 33])).is_err());
}

#[test]
fn documents_are_written_as_serde_json_writes_them() {
    assert_eq!(
        route(3, Some(candidate(100))).to_unsigned_json(),
        format!(
            "{{\"schema_version\":\"milk.route.v3\",\
             \"scope_id\":\"11111111-1111-4111-8111-111111111111\",\
             \"route_id\":\"22222222-2222-4222-8222-222222222222\",\"revision\":3,\
             \"valid_from\":\"2024-01-02T03:04:05Z\",\"expires_at\":\"2034-01-02T03:04:05Z\",\
             \"baseline\":\"baseline\",\"candidate\":{{\"target\":\"candidate-a\",\
             \"artifact_sha256\":\"{}\",\"basis_points\":100,\
             \"protocols\":{{\"chat_completions\":\"{}\"}}}}}}",
            "a".repeat(64),
            "b".repeat(64)
        )
    );
    let mut signed = route(3, None);
    signed.signature = "s".to_owned();
    assert!(signed.to_json().ends_with("\"candidate\":null,\"signature\":\"s\"}"));
    let mut both = candidate(1);
    both.responses = Some("c".repeat(64));
    assert!(both.to_json().ends_with(&format!(
        "\"protocols\":{{\"chat_completions\":\"{}\",\"responses\":\"{}\"}}}}",
        "b".repeat(64),
        "c".repeat(64)
    )));
    let mut signed = pointer(3, &"d".repeat(64));
    signed.signature = "s".to_owned();
    assert_eq!(
        signed.to_json(),
        format!(
            "{{\"schema_version\":\"milk.route-pointer.v2\",\
             \"scope_id\":\"11111111-1111-4111-8111-111111111111\",\
             \"route_id\":\"22222222-2222-4222-8222-222222222222\",\"revision\":3,\
             \"route_sha256\":\"{}\",\"published_at\":\"2024-01-02T03:04:05Z\",\
             \"signature\":\"s\"}}",
            "d".repeat(64)
        )
    );
}

#[test]
fn documents_that_differ_have_different_texts() {
    let a = route(3, Some(candidate(100)));
    for b in [
        route(4, Some(candidate(100))),
        route(3, Some(candidate(101))),
        route(3, None),
    ] {
        assert_ne!(a.to_unsigned_json(), b.to_unsigned_json());
        assert_ne!(a.to_json(), b.to_json());
    }
    assert_ne!(
        pointer(3, &"d".repeat(64)).to_json(),
        pointer(3, &"e".repeat(64)).to_json()
    );
}

#[test]
fn signatures_are_checked() {
    let message = b"milk";
    let good = encoded(&signing_key().sign(message).to_bytes());
    assert_eq!(verify_signature(&key(), message, &good), Ok(()));
    assert_eq!(verify_signature(&key(), b"silk", &good), Err(RouteError::SignatureInvalid));
    assert_eq!(verify_signature(&key(), message, "%"), Err(RouteError::SignatureNotBase64));
    assert_eq!(verify_signature(&key(), message, "AAAA"), Err(RouteError::SignatureLength));
    assert_eq!(signature_bytes(None), Err(RouteError::SignatureNotBase64));
    assert_eq!(signature_bytes(Some(vec![3; 63])), Err(RouteError::SignatureLength));
    assert_eq!(signature_bytes(Some(vec![3; 64])), Ok([3; 64]));
}

#[test]
fn times_are_canonical() {
    assert_eq!(canonical_time("1970-01-01T00:00:01Z"), Ok(1_000_000_000));
    assert_eq!(canonical_time("2024-01-02T03:04:05.25Z"), Ok(1_704_164_645_250_000_000));
    assert_eq!(canonical_time("yesterday"), Err(RouteError::InvalidTime));
    for raw in [
        "2024-01-02T03:04:05+01:00",
        "2024-01-02T03:04:05+00:00",
        "2024-01-02T03:04:05.250Z",
        "2024-01-02t03:04:05z",
    ] {
        assert_eq!(canonical_time(raw), Err(RouteError::TimeNotCanonical), "{}", raw);
    }
    assert_eq!(accept_time("x", None, None), Err(RouteError::InvalidTime));
    assert_eq!(accept_time("x", Some((5, 0)), Some("x".to_owned())), Ok(5));
    assert_eq!(
        accept_time("x", Some((5, 1)), Some("x".to_owned())),
        Err(RouteError::TimeNotCanonical)
    );
    assert_eq!(accept_time("x", Some((5, 0)), None), Err(RouteError::TimeNotCanonical));
    assert_eq!(
        accept_time("x", Some((5, 0)), Some("y".to_owned())),
        Err(RouteError::TimeNotCanonical)
    );
}

#[test]
fn a_document_is_its_own_canonical_text() {
    assert_eq!(require_canonical(b"{}", "{}", RouteError::InvalidRoute), Ok(()));
    assert_eq!(
        require_canonical(b"{ }", "{}", RouteError::RouteNotCanonical),
        Err(RouteError::RouteNotCanonical)
    );
}

#[test]
fn a_signed_pointer_is_accepted() {
    let accepted = match read_pointer(signed_pointer(pointer(3, &"d".repeat(64)))) {
        Ok(accepted) => accepted,
        Err(error) => panic!("{}", error.message()),
    };
    assert_eq!(accepted.revision, 3);
    assert_eq!(accepted.route_id, ROUTE);
}

#[test]
fn a_pointer_that_is_not_as_it_must_be_is_refused() {
    let digest = "d".repeat(64);
    assert_eq!(
        parse_pointer(b"{}", None, &key(), SCOPE).err(),
        Some(RouteError::InvalidPointer)
    );
    let signed = signed_pointer(pointer(3, &digest));
    let mut bytes = signed.to_json().into_bytes();
    bytes.push(b' ');
    assert_eq!(
        parse_pointer(&bytes, Some(signed), &key(), SCOPE).err(),
        Some(RouteError::PointerNotCanonical)
    );
    let mut wrong = pointer(3, &digest);
    wrong.schema_version = "milk.route-pointer.v1".to_owned();
    assert_eq!(read_pointer(signed_pointer(wrong)).err(), Some(RouteError::PointerFields));
    let mut wrong = pointer(3, &digest);
    wrong.scope_id = ROUTE;
    assert_eq!(read_pointer(signed_pointer(wrong)).err(), Some(RouteError::PointerFields));
    let mut wrong = pointer(3, &digest);
    wrong.route_id = Uuid { value: 0 };
    assert_eq!(read_pointer(signed_pointer(wrong)).err(), Some(RouteError::PointerFields));
    assert_eq!(
        read_pointer(signed_pointer(pointer(0, &digest))).err(),
        Some(RouteError::PointerFields)
    );
    assert_eq!(
        read_pointer(signed_pointer(pointer(3, "D"))).err(),
        Some(RouteError::PointerFields)
    );
    let mut wrong = pointer(3, &digest);
    wrong.published_at = "now".to_owned();
    assert_eq!(read_pointer(signed_pointer(wrong)).err(), Some(RouteError::InvalidTime));
    let mut wrong = signed_pointer(pointer(3, &digest));
    wrong.revision = 4;
    assert_eq!(read_pointer(wrong).err(), Some(RouteError::SignatureInvalid));
}

#[test]
fn a_signed_route_is_accepted() {
    let signed = signed_route(route(3, Some(candidate(100))));
    let digest = sha256_hex(signed.to_json().as_bytes());
    let accepted = match read_route(signed) {
        Ok(accepted) => accepted,
        Err(error) => panic!("{}", error.message()),
    };
    assert_eq!(accepted.route_sha256, digest);
    assert_eq!(accepted.valid_from, 1_704_164_645_000_000_000);
    assert_eq!(accepted.expires_at, 2_019_783_845_000_000_000);
    assert_eq!(accepted.candidate.unwrap().basis_points, 100);
}

#[test]
fn a_route_that_is_not_as_it_must_be_is_refused() {
    assert_eq!(
        parse_route(b"{}", None, &key(), SCOPE).err(),
        Some(RouteError::InvalidRoute)
    );
    let signed = signed_route(route(3, None));
    let mut bytes = signed.to_json().into_bytes();
    bytes.insert(1, b' ');
    assert_eq!(
        parse_route(&bytes, Some(signed), &key(), SCOPE).err(),
        Some(RouteError::RouteNotCanonical)
    );
    let mut wrong = route(3, None);
    wrong.schema_version = "milk.route.v2".to_owned();
    assert_eq!(read_route(signed_route(wrong)).err(), Some(RouteError::RouteFields));
    let mut wrong = route(3, None);
    wrong.baseline = Target::CandidateA;
    assert_eq!(read_route(signed_route(wrong)).err(), Some(RouteError::RouteFields));
    assert_eq!(read_route(signed_route(route(0, None))).err(), Some(RouteError::RouteFields));
    let mut wrong = route(3, None);
    wrong.expires_at = wrong.valid_from.clone();
    assert_eq!(read_route(signed_route(wrong)).err(), Some(RouteError::EmptyInterval));
    let mut wrong = route(3, None);
    wrong.valid_from = "2024-01-02".to_owned();
    assert_eq!(read_route(signed_route(wrong)).err(), Some(RouteError::InvalidTime));
    let mut wrong = route(3, None);
    wrong.expires_at = "2034-01-02T03:04:05.0Z".to_owned();
    assert_eq!(read_route(signed_route(wrong)).err(), Some(RouteError::TimeNotCanonical));
    let mut wrong = signed_route(route(3, None));
    wrong.revision = 4;
    assert_eq!(read_route(wrong).err(), Some(RouteError::SignatureInvalid));
    assert_eq!(
        read_route(signed_route(route(3, Some(candidate(0))))).err(),
        Some(RouteError::CandidateFields)
    );
}

#[test]
fn a_candidate_has_a_share_and_a_binding() {
    assert!(candidate_valid(&candidate(1)));
    assert!(candidate_valid(&candidate(10000)));
    assert!(!candidate_valid(&candidate(0)));
    assert!(!candidate_valid(&candidate(10001)));
    let mut wrong = candidate(1);
    wrong.target = Target::Baseline;
    assert!(!candidate_valid(&wrong));
    let mut wrong = candidate(1);
    wrong.artifact_sha256 = "A".repeat(64);
    assert!(!candidate_valid(&wrong));
    let mut wrong = candidate(1);
    wrong.chat_completions = None;
    assert!(!candidate_valid(&wrong));
    let mut wrong = candidate(1);
    wrong.responses = Some("short".to_owned());
    assert!(!candidate_valid(&wrong));
}

#[test]
fn errors_are_told_in_words() {
    assert_eq!(
        RouteError::RevisionMismatch { found: 4, trusted: 12 }.message(),
        "route revision 4 does not equal trusted revision 12"
    );
    for (error, wanted) in [
        (RouteError::InvalidPointer, "invalid route pointer"),
        (RouteError::RouteNotCanonical, "route object is not canonical JSON"),
        (RouteError::NoRevision, "production scope has no trusted route revision"),
        (RouteError::NotCurrent, "route object is not currently valid"),
    ] {
        assert_eq!(error.message(), wanted);
    }
}

#[test]
fn buckets_divide_the_digests_evenly() {
    let mut digest = [0u8; 32];
    assert_eq!(bucket(&digest), 0);
    digest[8] = 0xff;
    assert_eq!(bucket(&digest), 0);
    assert_eq!(bucket(&[0xff; 32]), 9999);
    let mut half = [0u8; 32];
    half[0] = 0x80;
    assert_eq!(bucket(&half), 5000);
    half[0] = 0x40;
    assert_eq!(bucket(&half), 2500);
}

#[test]
fn exchanges_fall_in_their_buckets() {
    for (n, wanted) in [(1u128, 5642u16), (2, 9806), (3, 309), (4, 9089), (5, 174)] {
        let exchange = Uuid { value: n };
        assert!(assigned_to_candidate(SCOPE, exchange, wanted + 1));
        assert!(!assigned_to_candidate(SCOPE, exchange, wanted));
        assert!(assigned_to_candidate(SCOPE, exchange, 10000));
        assert!(!assigned_to_candidate(SCOPE, exchange, 0));
    }
}

#[test]
fn a_share_takes_about_its_part_of_the_exchanges() {
    let mut taken = 0;
    for n in 0..4000u128 {
        if assigned_to_candidate(ROUTE, Uuid { value: n }, 2500) {
            taken += 1;
        }
    }
    assert!(taken > 850 && taken < 1150, "{}", taken);
}

#[test]
fn the_choice_names_the_route_and_the_candidate() {
    let kept = verified(route(3, Some(candidate(100))));
    let choice = choice_of(&kept, Protocol::ChatCompletions, true);
    assert_eq!(choice.target, Target::CandidateA);
    assert_eq!(choice.route_id, Some(ROUTE));
    assert_eq!(choice.candidate_artifact_sha256, Some("a".repeat(64)));
    assert_eq!(choice.candidate_binding_sha256, Some("b".repeat(64)));
    let choice = choice_of(&kept, Protocol::ChatCompletions, false);
    assert_eq!(choice.target, Target::Baseline);
    assert_eq!(choice.candidate_binding_sha256, Some("b".repeat(64)));
    let choice = choice_of(&kept, Protocol::Responses, true);
    assert_eq!(choice.target, Target::Baseline);
    assert_eq!(choice.candidate_artifact_sha256, Some("a".repeat(64)));
    assert_eq!(choice.candidate_binding_sha256, None);
    let plain = verified(route(3, None));
    let choice = choice_of(&plain, Protocol::ChatCompletions, true);
    assert_eq!(choice.target, Target::Baseline);
    assert_eq!(choice.route_id, Some(ROUTE));
    assert_eq!(choice.candidate_artifact_sha256, None);
}

#[test]
fn a_missing_or_expired_route_leads_to_the_baseline() {
    let exchange = Uuid { value: 9 };
    let kept = Some(verified(route(3, Some(candidate(10000)))));
    let chosen = |now: i128| choose_route(&kept, exchange, Protocol::ChatCompletions, now);
    assert_eq!(chosen(1_704_164_645_000_000_000).target, Target::CandidateA);
    assert_eq!(chosen(1_704_164_644_999_999_999).target, Target::Baseline);
    assert_eq!(chosen(1_704_164_644_999_999_999).route_id, None);
    assert_eq!(chosen(2_019_783_844_999_999_999).target, Target::CandidateA);
    assert_eq!(chosen(2_019_783_845_000_000_000).route_id, None);
    let none = choose_route(&None, exchange, Protocol::ChatCompletions, NOW);
    assert_eq!(none.target, Target::Baseline);
    assert_eq!(none.route_id, None);
    assert_eq!(unrouted_choice().candidate_artifact_sha256, None);
}

#[test]
fn only_production_is_routed() {
    let mut routes = manager(Some(3));
    routes.finish_refresh(SCOPE, Some(verified(route(3, Some(candidate(10000))))));
    let (choice, refresh) =
        routes.choose_at(SCOPE, false, ROUTE, Protocol::ChatCompletions, 0, NOW);
    assert_eq!(choice.target, Target::Baseline);
    assert_eq!(choice.route_id, None);
    assert!(!refresh);
    let (choice, refresh) = routes.choose_at(SCOPE, true, ROUTE, Protocol::ChatCompletions, 0, NOW);
    assert_eq!(choice.target, Target::CandidateA);
    assert!(refresh);
    let (choice, _) = routes.choose_target(SCOPE, true, ROUTE, Protocol::ChatCompletions);
    assert_eq!(choice.route_id, Some(ROUTE));
    let mut binding =
        KeyBinding { scope_id: SCOPE, profile: Profile::Production, route_revision: Some(3) };
    let (choice, _) = routes.choose_for(&binding, ROUTE, Protocol::ChatCompletions);
    assert_eq!(choice.route_id, Some(ROUTE));
    binding.profile = Profile::Mechanics;
    let (choice, refresh) = routes.choose_for(&binding, ROUTE, Protocol::ChatCompletions);
    assert_eq!(choice.route_id, None);
    assert!(!refresh);
}

#[test]
fn one_refresh_runs_at_a_time_and_at_intervals() {
    let mut routes = manager(Some(3));
    let second: u128 = 1_000_000_000;
    let mut refresh = |reading: u128| {
        routes.choose_at(SCOPE, true, ROUTE, Protocol::Responses, reading, NOW).1
    };
    assert!(refresh(5 * second));
    assert!(!refresh(6 * second));
    assert!(!refresh(100 * second));
    routes.finish_refresh(SCOPE, None);
    let mut refresh = |reading: u128| {
        routes.choose_at(SCOPE, true, ROUTE, Protocol::Responses, reading, NOW).1
    };
    assert!(!refresh(4 * second));
    assert!(!refresh(34 * second));
    assert!(refresh(35 * second));
    assert!(routes.choose_at(ROUTE, true, ROUTE, Protocol::Responses, 6 * second, NOW).1);
}

#[test]
fn a_failed_refresh_keeps_the_route() {
    let mut routes = manager(Some(3));
    assert!(routes.current(SCOPE).is_none());
    routes.finish_refresh(SCOPE, Some(verified(route(3, None))));
    routes.finish_refresh(SCOPE, None);
    assert_eq!(routes.current(SCOPE).unwrap().revision, 3);
    assert!(routes.current(ROUTE).is_none());
}

fn pointer_object(pointer: SignedPointer) -> Option<PointerObject> {
    let bytes = pointer.to_json().into_bytes();
    Some(PointerObject { bytes, parsed: Some(pointer) })
}

fn step_error(
    routes: &RouteManager,
    pointer: SignedPointer,
    current: &Option<VerifiedRoute>,
) -> RouteError {
    match routes.poll_pointer(SCOPE, pointer_object(pointer), current) {
        Ok(_) => panic!("accepted"),
        Err(error) => error,
    }
}

#[test]
fn a_poll_follows_the_trusted_revision() {
    let digest = "d".repeat(64);
    let routes = manager(Some(3));
    match routes.poll_pointer(SCOPE, None, &None) {
        Ok(PollStep::Unchanged) => {}
        _ => panic!("no pointer"),
    }
    match routes.poll_pointer(SCOPE, pointer_object(signed_pointer(pointer(3, &digest))), &None) {
        Ok(PollStep::FetchRoute(named)) => assert_eq!(named.route_sha256, digest),
        _ => panic!("not fetched"),
    }
    assert_eq!(
        step_error(&routes, signed_pointer(pointer(4, &digest)), &None),
        RouteError::RevisionMismatch { found: 4, trusted: 3 }
    );
    assert_eq!(
        step_error(&manager(None), signed_pointer(pointer(3, &digest)), &None),
        RouteError::NoRevision
    );
    assert_eq!(step_error(&routes, pointer(3, &digest), &None), RouteError::SignatureLength);
}

#[test]
fn a_poll_never_goes_back() {
    let kept = verified(route(3, None));
    let digest = kept.route_sha256.clone();
    let kept = Some(kept);
    match manager(Some(3))
        .poll_pointer(SCOPE, pointer_object(signed_pointer(pointer(3, &digest))), &kept)
    {
        Ok(PollStep::Unchanged) => {}
        _ => panic!("changed"),
    }
    assert_eq!(
        step_error(&manager(Some(3)), signed_pointer(pointer(3, &"d".repeat(64))), &kept),
        RouteError::Conflict
    );
    let mut other = pointer(3, &digest);
    other.route_id = SCOPE;
    assert_eq!(
        step_error(&manager(Some(3)), signed_pointer(other), &kept),
        RouteError::Stale
    );
    assert_eq!(
        step_error(&manager(Some(2)), signed_pointer(pointer(2, &digest)), &kept),
        RouteError::Stale
    );
    match manager(Some(4))
        .poll_pointer(SCOPE, pointer_object(signed_pointer(pointer(4, &digest))), &kept)
    {
        Ok(PollStep::FetchRoute(_)) => {}
        _ => panic!("not fetched"),
    }
}

#[test]
fn a_fetched_route_is_the_one_that_the_pointer_names() {
    let routes = manager(Some(3));
    let signed = signed_route(route(3, None));
    let bytes = signed.to_json().into_bytes();
    let digest = sha256_hex(&bytes);
    let object = |bytes: &[u8]| {
        Some(RouteObject { bytes: bytes.to_vec(), parsed: Some(signed_route(route(3, None))) })
    };
    let named = signed_pointer(pointer(3, &digest));
    let fetched = routes.poll_route_at(SCOPE, &named, object(&bytes), NOW);
    assert_eq!(fetched.ok().map(|route| route.revision), Some(3));
    assert_eq!(
        routes.poll_route(SCOPE, &named, object(&bytes)).ok().map(|route| route.revision),
        Some(3)
    );
    let refused = |pointer: &SignedPointer, object: Option<RouteObject>, now: i128| {
        routes.poll_route_at(SCOPE, pointer, object, now).err()
    };
    assert_eq!(refused(&named, None, NOW), Some(RouteError::MissingRoute));
    assert_eq!(refused(&named, object(b"x"), NOW), Some(RouteError::DigestMismatch));
    assert_eq!(refused(&named, object(&bytes), 0), Some(RouteError::NotCurrent));
    assert_eq!(
        refused(&named, object(&bytes), 2_019_783_845_000_000_000),
        Some(RouteError::NotCurrent)
    );
    let other = signed_pointer(pointer(4, &digest));
    assert_eq!(refused(&other, object(&bytes), NOW), Some(RouteError::IdentityMismatch));
    let unread = Some(RouteObject { bytes: bytes.clone(), parsed: None });
    assert_eq!(refused(&named, unread, NOW), Some(RouteError::InvalidRoute));
}
