//! Upstreams and operator keys.

use milk_parlor::boundary::UrlParts;
use milk_parlor::config::ConfigError;
use milk_parlor::config::ConfigProblem;
use milk_parlor::config::EnvValue;
use milk_parlor::digest::sha256_hex;
use milk_parlor::headers::Header;
use milk_parlor::identity::Profile;
use milk_parlor::identity::Protocol;
use milk_parlor::identity::Uuid;
use milk_parlor::keys::authenticate;
use milk_parlor::keys::check_binding;
use milk_parlor::keys::match_key;
use milk_parlor::keys::parse_keys;
use milk_parlor::keys::presented_token;
use milk_parlor::keys::route_revisions;
use milk_parlor::keys::split_bearer;
use milk_parlor::keys::KeyBinding;
use milk_parlor::keys::KeyEntry;
use milk_parlor::keys::KeyError;
use milk_parlor::keys::OperatorKey;
use milk_parlor::upstream::accept_authority;
use milk_parlor::upstream::accept_upstream;
use milk_parlor::upstream::baseline_upstream;
use milk_parlor::upstream::candidate_protocol_binding;
use milk_parlor::upstream::mechanics_upstreams;
use milk_parlor::upstream::optional_candidate_binding;
use milk_parlor::upstream::optional_upstream;
use milk_parlor::upstream::parse_upstream;
use milk_parlor::upstream::required_upstream;
use milk_parlor::upstream::upstream_url;
use milk_parlor::upstream::CandidateValues;
use milk_parlor::upstream::MechanicsEntry;
use milk_parlor::upstream::MechanicsValues;
use milk_parlor::upstream::ProtocolBindings;
use milk_parlor::upstream::UpstreamBinding;
use milk_parlor::upstream::UpstreamError;
use milk_parlor::upstream::UpstreamValues;

const SCOPE: Uuid = Uuid { value: 0x11111111_1111_4111_8111_111111111111 };
const OTHER: Uuid = Uuid { value: 0x22222222_2222_4222_8222_222222222222 };
const TOKEN: &str = "local-milk-operator-key-change-me";

fn text(value: &str) -> EnvValue {
    EnvValue::Text(value.to_owned())
}

fn found<T>(result: Result<T, ConfigError>) -> T {
    match result {
        Ok(value) => value,
        Err(error) => panic!("{}", error.message()),
    }
}

fn problem<T>(result: Result<T, ConfigError>) -> (String, ConfigProblem) {
    match result {
        Ok(_) => panic!("accepted"),
        Err(error) => (error.name, error.problem),
    }
}

fn is(name: &str, problem: ConfigProblem) -> (String, ConfigProblem) {
    (name.to_owned(), problem)
}

fn url(raw: &str) -> UrlParts {
    found(parse_upstream("U", raw))
}

fn upstream(raw: &str) -> UpstreamBinding {
    UpstreamBinding { base_url: url(raw), api_key: format!("key of {}", raw) }
}

fn pair(base_url: EnvValue, api_key: EnvValue) -> UpstreamValues {
    UpstreamValues { base_url, api_key }
}

#[test]
fn a_base_url_stops_before_the_version() {
    assert_eq!(url("https://api.openai.com").text, "https://api.openai.com/");
    assert_eq!(url("http://10.0.0.1:8000/openai").path, "/openai");
    assert_eq!(url("https://a.example/v12").path, "/v12");
    for raw in ["https://a.example/v1", "https://a.example/v1/", "https://a.example/x/v1//"] {
        assert_eq!(problem(parse_upstream("U", raw)), is("U", ConfigProblem::EndsWithVersion));
    }
}

#[test]
fn a_base_url_is_http_without_credentials() {
    assert_eq!(problem(parse_upstream("U", "api.openai.com")), is("U", ConfigProblem::NotUrl));
    for raw in [
        "ftp://a.example", "https://u@a.example", "https://u:p@a.example", "https://:p@a.example",
        "https://a.example?q", "https://a.example#f", "data:text/plain,x",
    ] {
        assert_eq!(
            problem(parse_upstream("U", raw)),
            is("U", ConfigProblem::NotBaseUrl),
            "{}",
            raw
        );
    }
    assert_eq!(problem(accept_upstream("U", None)), is("U", ConfigProblem::NotUrl));
    assert!(accept_upstream("U", Some(url("https://a.example"))).is_ok());
}

#[test]
fn a_required_provider_has_a_url_and_a_key() {
    let made = found(required_upstream("U", "K", pair(text("https://a.example"), text("k"))));
    assert_eq!(made.base_url.text, "https://a.example/");
    assert_eq!(made.api_key, "k");
    let refused = |url: EnvValue, key: EnvValue| problem(required_upstream("U", "K", pair(url, key)));
    assert_eq!(refused(EnvValue::Absent, text("k")), is("U", ConfigProblem::Required));
    assert_eq!(refused(text("x"), EnvValue::Absent), is("U", ConfigProblem::NotUrl));
    assert_eq!(refused(text("https://a.example"), text("")), is("K", ConfigProblem::Empty));
}

#[test]
fn an_optional_provider_has_both_or_neither() {
    let made = |url: EnvValue, key: EnvValue| optional_upstream("U", "K", pair(url, key));
    assert!(found(made(EnvValue::Absent, EnvValue::Absent)).is_none());
    assert_eq!(
        found(made(text("https://a.example"), text("k"))).unwrap().api_key,
        "k"
    );
    assert_eq!(
        problem(made(text("https://a.example"), EnvValue::Absent)),
        is("U and K", ConfigProblem::NotPaired)
    );
    assert_eq!(
        problem(made(EnvValue::Absent, text("k"))),
        is("U and K", ConfigProblem::NotPaired)
    );
    assert_eq!(problem(made(text(""), text("k"))), is("U", ConfigProblem::Empty));
    assert_eq!(
        problem(made(text("x"), EnvValue::NotUnicode)),
        is("K", ConfigProblem::Unreadable)
    );
    assert_eq!(problem(made(text("x"), text("k"))), is("U", ConfigProblem::NotUrl));
}

fn candidate_values() -> CandidateValues {
    CandidateValues {
        artifact_sha256: text(&"a".repeat(64)),
        chat_completions: pair(text("https://model.example.com/"), text("k")),
        responses: pair(EnvValue::Absent, EnvValue::Absent),
    }
}

#[test]
fn a_binding_is_named_by_the_digest_of_its_identity() {
    let candidate = found(optional_candidate_binding(candidate_values())).unwrap();
    let chat = candidate.get(Protocol::ChatCompletions).unwrap();
    let identity = format!(
        "{{\"artifact_sha256\":\"{}\",\"base_url\":\"https://model.example.com\",\
         \"protocol\":\"chat_completions\"}}",
        "a".repeat(64)
    );
    assert_eq!(chat.binding_sha256, sha256_hex(identity.as_bytes()));
    assert_eq!(
        chat.binding_sha256,
        "9dcbea1c06c60b5a6f79056d060529db42c1bc144bea0dcb5d691169112b4dba"
    );
    assert!(candidate.get(Protocol::Responses).is_none());
    let responses = candidate_protocol_binding(
        Protocol::Responses,
        Some(upstream("https://model.example.com/base")),
        &"a".repeat(64),
    );
    assert_eq!(
        responses.unwrap().binding_sha256,
        "8c14b48a5800255d7958786dbdb43216f0b80fbed7548c5fc2ee74f83f235bcc"
    );
    assert!(candidate_protocol_binding(Protocol::Responses, None, "a").is_none());
}

#[test]
fn identities_that_differ_have_different_digests() {
    let digest = |protocol: Protocol, raw: &str, artifact: &str| {
        candidate_protocol_binding(protocol, Some(upstream(raw)), artifact).unwrap().binding_sha256
    };
    let base = digest(Protocol::Responses, "https://a.example", "a");
    assert_eq!(digest(Protocol::Responses, "https://a.example/", "a"), base);
    assert_ne!(digest(Protocol::ChatCompletions, "https://a.example", "a"), base);
    assert_ne!(digest(Protocol::Responses, "https://b.example", "a"), base);
    assert_ne!(digest(Protocol::Responses, "https://a.example", "b"), base);
}

#[test]
fn a_candidate_is_an_artifact_with_a_provider() {
    let mut values = candidate_values();
    values.artifact_sha256 = EnvValue::Absent;
    assert_eq!(
        problem(optional_candidate_binding(values)),
        is("candidate protocol bindings", ConfigProblem::ArtifactMissing)
    );
    let mut values = candidate_values();
    values.chat_completions = pair(EnvValue::Absent, EnvValue::Absent);
    assert_eq!(
        problem(optional_candidate_binding(values)),
        is("a candidate artifact", ConfigProblem::ArtifactAlone)
    );
    let mut values = candidate_values();
    values.artifact_sha256 = text("A");
    assert_eq!(
        problem(optional_candidate_binding(values)),
        is("MILK_CANDIDATE_A_ARTIFACT_SHA256", ConfigProblem::NotDigest)
    );
    let mut values = candidate_values();
    values.responses = pair(text("https://a.example"), EnvValue::Absent);
    assert_eq!(
        problem(optional_candidate_binding(values)),
        is(
            "MILK_CANDIDATE_A_RESPONSES_BASE_URL and MILK_CANDIDATE_A_RESPONSES_API_KEY",
            ConfigProblem::NotPaired
        )
    );
    let nothing = CandidateValues {
        artifact_sha256: EnvValue::Absent,
        chat_completions: pair(EnvValue::Absent, EnvValue::Absent),
        responses: pair(EnvValue::Absent, EnvValue::Absent),
    };
    assert!(found(optional_candidate_binding(nothing)).is_none());
}

#[test]
fn requests_are_appended_to_the_base_url() {
    let made = |base: &str, path: &str| match upstream_url(&url(base), path) {
        Ok(url) => url.text,
        Err(error) => panic!("{:?}", error),
    };
    assert_eq!(
        made("https://api.openai.com", "/v1/responses?x=1"),
        "https://api.openai.com/v1/responses?x=1"
    );
    assert_eq!(
        made("http://a.example:8000/base//", "/v1/chat/completions"),
        "http://a.example:8000/base/v1/chat/completions"
    );
}

#[test]
fn requests_stay_with_their_provider() {
    let base = url("https://api.openai.com");
    assert_eq!(upstream_url(&base, ".evil.example/").err(), Some(UpstreamError::Escaped));
    assert_eq!(upstream_url(&base, "@evil.example/").err(), Some(UpstreamError::Escaped));
    assert_eq!(upstream_url(&base, ":x/").err(), Some(UpstreamError::NotUrl));
    assert_eq!(accept_authority(&base, None).err(), Some(UpstreamError::NotUrl));
    assert_eq!(
        accept_authority(&base, Some(url("http://api.openai.com"))).err(),
        Some(UpstreamError::Escaped)
    );
    assert!(accept_authority(&base, Some(url("https://api.openai.com/x"))).is_ok());
}

fn defaults() -> ProtocolBindings {
    ProtocolBindings {
        chat_completions: upstream("https://chat.example"),
        responses: upstream("https://responses.example"),
    }
}

fn mechanics(base_url: &str, api_key: EnvValue) -> MechanicsValues {
    MechanicsValues {
        base_url: base_url.to_owned(),
        api_key_env: "MILK_OWN_MODEL_API_KEY".to_owned(),
        api_key,
    }
}

#[test]
fn defaults_are_kept_by_protocol() {
    assert_eq!(defaults().get(Protocol::ChatCompletions).base_url.text, "https://chat.example/");
    assert_eq!(defaults().get(Protocol::Responses).base_url.text, "https://responses.example/");
}

#[test]
fn a_mechanics_scope_can_have_its_own_provider() {
    let defaults = defaults();
    let own = found(mechanics_upstreams(vec![
        MechanicsEntry {
            scope_id: OTHER,
            chat_completions: None,
            responses: Some(mechanics("https://other.example", text("o"))),
        },
        MechanicsEntry {
            scope_id: SCOPE,
            chat_completions: Some(mechanics("https://your-model.example.com", text("k"))),
            responses: None,
        },
    ]));
    let chosen = |scope: Uuid, profile: Profile, protocol: Protocol| {
        baseline_upstream(&defaults, &own, scope, profile, protocol).base_url.text.clone()
    };
    assert_eq!(
        chosen(SCOPE, Profile::Mechanics, Protocol::ChatCompletions),
        "https://your-model.example.com/"
    );
    assert_eq!(
        chosen(SCOPE, Profile::Mechanics, Protocol::Responses),
        "https://responses.example/"
    );
    assert_eq!(
        chosen(SCOPE, Profile::Production, Protocol::ChatCompletions),
        "https://chat.example/"
    );
    assert_eq!(
        chosen(Uuid { value: 3 }, Profile::Mechanics, Protocol::ChatCompletions),
        "https://chat.example/"
    );
    assert_eq!(chosen(OTHER, Profile::Mechanics, Protocol::Responses), "https://other.example/");
}

#[test]
fn the_providers_of_mechanics_scopes_are_checked() {
    let refused = |values: MechanicsValues| {
        problem(mechanics_upstreams(vec![MechanicsEntry {
            scope_id: SCOPE,
            chat_completions: None,
            responses: Some(values),
        }]))
    };
    assert_eq!(
        refused(mechanics("https://a.example/v1", text("k"))),
        is("MILK_MECHANICS_UPSTREAMS_JSON", ConfigProblem::EndsWithVersion)
    );
    assert_eq!(
        refused(mechanics("https://a.example", EnvValue::Absent)),
        is("MILK_OWN_MODEL_API_KEY", ConfigProblem::Required)
    );
    assert!(found(mechanics_upstreams(Vec::new())).is_empty());
}

fn production(scope_id: Uuid, revision: u64) -> KeyBinding {
    KeyBinding { scope_id, profile: Profile::Production, route_revision: Some(revision) }
}

fn mechanic(scope_id: Uuid) -> KeyBinding {
    KeyBinding { scope_id, profile: Profile::Mechanics, route_revision: None }
}

fn entry(token: &str, binding: KeyBinding) -> KeyEntry {
    KeyEntry { digest: sha256_hex(token.as_bytes()), binding }
}

fn keys(entries: Vec<KeyEntry>) -> Vec<OperatorKey> {
    match parse_keys(Some(entries)) {
        Ok(keys) => keys,
        Err(error) => panic!("{}", error.message()),
    }
}

#[test]
fn keys_are_configured_by_their_digests() {
    let parsed = keys(vec![entry(TOKEN, mechanic(SCOPE)), entry("b", production(OTHER, 7))]);
    assert_eq!(parsed.len(), 2);
    assert_eq!(
        milk_parlor::text::hex(&parsed[0].digest),
        "45c9a397b5c8c25313caa12cb9dea2a5ee967b2e948bccef9704911e8e51e6b9"
    );
    assert_eq!(parsed[1].binding, production(OTHER, 7));
    let revisions = route_revisions(&parsed);
    assert_eq!(revisions.len(), 1);
    assert_eq!(revisions.get(&OTHER.value), Some(&7));
}

#[test]
fn a_configuration_of_keys_is_checked() {
    let refused = |entries: Vec<KeyEntry>| parse_keys(Some(entries)).err();
    assert_eq!(parse_keys(None).err(), Some(KeyError::Invalid));
    assert_eq!(refused(Vec::new()), Some(KeyError::Count));
    let many = (0..4097u32).map(|n| entry(&n.to_string(), mechanic(SCOPE))).collect();
    assert_eq!(refused(many), Some(KeyError::Count));
    let most = (0..4096u32).map(|n| entry(&n.to_string(), mechanic(SCOPE))).collect();
    assert_eq!(keys(most).len(), 4096);
    assert_eq!(
        refused(vec![entry("a", mechanic(Uuid { value: 0 }))]),
        Some(KeyError::NilScope)
    );
    assert_eq!(
        refused(vec![entry("a", production(SCOPE, 0))]),
        Some(KeyError::RevisionMissing)
    );
    let unset = KeyBinding { scope_id: SCOPE, profile: Profile::Production, route_revision: None };
    assert_eq!(refused(vec![entry("a", unset)]), Some(KeyError::RevisionMissing));
    let given = KeyBinding { scope_id: SCOPE, profile: Profile::Mechanics, route_revision: Some(1) };
    assert_eq!(refused(vec![entry("a", given)]), Some(KeyError::RevisionGiven));
    assert_eq!(check_binding(&given), Some(KeyError::RevisionGiven));
    assert_eq!(check_binding(&production(SCOPE, 1)), None);
    assert_eq!(
        refused(vec![KeyEntry { digest: "ABC".to_owned(), binding: mechanic(SCOPE) }]),
        Some(KeyError::NotDigest)
    );
}

#[test]
fn a_scope_has_one_binding() {
    let refused = |a: KeyBinding, b: KeyBinding| {
        parse_keys(Some(vec![entry("a", a), entry("c", mechanic(OTHER)), entry("b", b)])).err()
    };
    assert_eq!(refused(production(SCOPE, 1), production(SCOPE, 2)), Some(KeyError::Conflict));
    assert_eq!(refused(production(SCOPE, 1), mechanic(SCOPE)), Some(KeyError::Conflict));
    assert_eq!(refused(production(SCOPE, 1), production(SCOPE, 1)), None);
}

#[test]
fn key_errors_are_told_in_words() {
    assert_eq!(KeyError::Count.message(), "MILK_KEYS_JSON must contain 1..=4096 keys");
    assert_eq!(
        KeyError::NotDigest.message(),
        "API-key digest must be 64 lowercase hexadecimal characters"
    );
}

fn authorization(value: &str) -> Header {
    Header { name: "Authorization".to_owned(), value: value.as_bytes().to_vec() }
}

#[test]
fn a_request_is_authenticated_by_its_bearer_token() {
    let parsed = keys(vec![entry(TOKEN, mechanic(SCOPE)), entry("b", production(OTHER, 7))]);
    let scope = |headers: &[Header]| authenticate(headers, &parsed).map(|key| key.binding.scope_id);
    for scheme in ["Bearer", "bearer", "BEARER"] {
        assert_eq!(scope(&[authorization(&format!("{} {}", scheme, TOKEN))]), Some(SCOPE));
    }
    assert_eq!(scope(&[]), None);
    let good = format!("Bearer {}", TOKEN);
    assert_eq!(scope(&[authorization(&good), authorization(&good)]), None);
    assert_eq!(scope(&[authorization(&format!("Basic {}", TOKEN))]), None);
    assert_eq!(scope(&[authorization(&format!("Bearer  {}", TOKEN))]), None);
    assert_eq!(scope(&[authorization(&format!("Bearer {}x", TOKEN))]), None);
    assert_eq!(scope(&[authorization("Bearer b")]), None);
    assert_eq!(scope(&[authorization(TOKEN)]), None);
    assert_eq!(scope(&[authorization(&format!("Bearer {}\u{e9}", TOKEN))]), None);
}

#[test]
fn a_token_has_sixteen_to_4096_characters() {
    assert_eq!(split_bearer(&format!("Bearer {}", "t".repeat(15))), None);
    assert_eq!(split_bearer(&format!("Bearer {}", "t".repeat(16))), Some("t".repeat(16)));
    assert_eq!(split_bearer(&format!("bearer {}", "t".repeat(4096))), Some("t".repeat(4096)));
    assert_eq!(split_bearer(&format!("Bearer {}", "t".repeat(4097))), None);
    assert_eq!(
        split_bearer("Bearer a token with spaces"),
        Some("a token with spaces".to_owned())
    );
    assert_eq!(presented_token(&[authorization("Bearer 0123456789abcdef")]), Some(
        "0123456789abcdef".to_owned(),
    ));
}

#[test]
fn the_last_key_with_a_digest_counts() {
    let key = |n: u8, scope: Uuid| OperatorKey { digest: [n; 32], binding: mechanic(scope) };
    let all = [key(1, SCOPE), key(2, OTHER), key(1, OTHER)];
    assert_eq!(match_key(&all, &[1; 32]).map(|key| key.binding.scope_id), Some(OTHER));
    assert_eq!(match_key(&all, &[2; 32]).map(|key| key.binding.scope_id), Some(OTHER));
    assert!(match_key(&all, &[3; 32]).is_none());
}
