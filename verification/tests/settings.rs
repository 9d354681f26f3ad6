//! Settings of the gateway.

use milk_parlor::config::bounded_identity;
use milk_parlor::config::config_error;
use milk_parlor::config::env_bool;
use milk_parlor::config::env_u64;
use milk_parlor::config::env_usize;
use milk_parlor::config::optional_env;
use milk_parlor::config::require_sha256;
use milk_parlor::config::required_env;
use milk_parlor::config::secret;
use milk_parlor::config::validate_secret;
use milk_parlor::config::ConfigError;
use milk_parlor::config::ConfigProblem;
use milk_parlor::config::EnvValue;
use milk_parlor::config::SettingValues;
use milk_parlor::config::Settings;

fn text(value: &str) -> EnvValue {
    EnvValue::Text(value.to_owned())
}

fn problem<T>(result: Result<T, ConfigError>) -> Option<(String, ConfigProblem)> {
    match result {
        Ok(_) => None,
        Err(error) => Some((error.name, error.problem)),
    }
}

fn found<T>(result: Result<T, ConfigError>) -> T {
    match result {
        Ok(value) => value,
        Err(error) => panic!("{}", error.message()),
    }
}

fn is(name: &str, problem: ConfigProblem) -> Option<(String, ConfigProblem)> {
    Some((name.to_owned(), problem))
}

fn absent() -> SettingValues {
    SettingValues {
        max_request_bytes: EnvValue::Absent,
        max_response_bytes: EnvValue::Absent,
        capture_memory_bytes: EnvValue::Absent,
        capture_queue: EnvValue::Absent,
        route_poll_seconds: EnvValue::Absent,
        candidate_header_timeout_seconds: EnvValue::Absent,
        candidate_first_byte_timeout_seconds: EnvValue::Absent,
    }
}

#[test]
fn a_required_setting_is_there_and_not_empty() {
    assert_eq!(found(required_env("A", text("x"))), "x");
    assert_eq!(problem(required_env("A", text(""))), is("A", ConfigProblem::Empty));
    assert_eq!(problem(required_env("A", EnvValue::Absent)), is("A", ConfigProblem::Required));
    assert_eq!(problem(required_env("A", EnvValue::NotUnicode)), is("A", ConfigProblem::Required));
}

#[test]
fn an_optional_setting_may_be_missing_but_not_empty() {
    assert_eq!(found(optional_env("A", text("x"))), Some("x".to_owned()));
    assert_eq!(found(optional_env("A", EnvValue::Absent)), None);
    assert_eq!(problem(optional_env("A", text(""))), is("A", ConfigProblem::Empty));
    assert_eq!(
        problem(optional_env("A", EnvValue::NotUnicode)),
        is("A", ConfigProblem::Unreadable)
    );
}

#[test]
fn numbers_lie_in_their_ranges() {
    assert_eq!(found(env_usize("N", EnvValue::Absent, 5, 1, 9)), 5);
    assert_eq!(found(env_usize("N", text("9"), 5, 1, 9)), 9);
    assert_eq!(found(env_u64("N", text("+1"), 5, 1, 9)), 1);
    let range = ConfigProblem::OutOfRange { minimum: 1, maximum: 9 };
    assert_eq!(problem(env_usize("N", text("0"), 5, 1, 9)), is("N", range));
    assert_eq!(problem(env_u64("N", text("10"), 5, 1, 9)), is("N", range));
    assert_eq!(problem(env_u64("N", text("ten"), 5, 1, 9)), is("N", ConfigProblem::NotInteger));
    assert_eq!(problem(env_usize("N", text(""), 5, 1, 9)), is("N", ConfigProblem::NotInteger));
    assert_eq!(
        problem(env_usize("N", EnvValue::NotUnicode, 5, 1, 9)),
        is("N", ConfigProblem::Unreadable)
    );
}

#[test]
fn a_flag_is_yes_or_no() {
    for yes in ["true", "TRUE", "True", "1"] {
        assert!(found(env_bool("B", text(yes), false)));
    }
    for no in ["false", "FALSE", "0"] {
        assert!(!found(env_bool("B", text(no), true)));
    }
    assert!(found(env_bool("B", EnvValue::Absent, true)));
    assert_eq!(problem(env_bool("B", text("yes"), true)), is("B", ConfigProblem::NotBoolean));
    assert_eq!(
        problem(env_bool("B", EnvValue::NotUnicode, true)),
        is("B", ConfigProblem::Unreadable)
    );
}

#[test]
fn digests_identities_and_secrets_are_checked() {
    let digest = "a".repeat(64);
    assert!(require_sha256("D", &digest).is_ok());
    assert_eq!(problem(require_sha256("D", "aa")), is("D", ConfigProblem::NotDigest));
    assert_eq!(found(bounded_identity("I", "us-east_1.x")), "us-east_1.x");
    assert_eq!(problem(bounded_identity("I", "a/b")), is("I", ConfigProblem::Invalid));
    assert_eq!(found(bounded_identity("I", &"a".repeat(255))).len(), 255);
    assert_eq!(problem(bounded_identity("I", &"a".repeat(256))), is("I", ConfigProblem::Invalid));
    assert_eq!(found(secret("S", text("word"))), "word");
    assert_eq!(problem(secret("S", text("two words"))), is("S", ConfigProblem::Invalid));
    assert_eq!(problem(secret("S", EnvValue::Absent)), is("S", ConfigProblem::Required));
    assert_eq!(problem(secret("S", text(""))), is("S", ConfigProblem::Empty));
    assert_eq!(found(validate_secret("S", "x".repeat(4096))).len(), 4096);
    assert_eq!(problem(validate_secret("S", "x".repeat(4097))), is("S", ConfigProblem::Invalid));
    assert_eq!(
        problem(validate_secret("S", "\u{e9}".repeat(2049))),
        is("S", ConfigProblem::Invalid)
    );
}

#[test]
fn errors_are_told_with_the_name_of_the_setting() {
    let range = ConfigProblem::OutOfRange { minimum: 1, maximum: 4096 };
    for (problem, wanted) in [
        (ConfigProblem::Required, "X is required"),
        (ConfigProblem::Empty, "X must not be empty"),
        (ConfigProblem::Unreadable, "X is not Unicode"),
        (ConfigProblem::NotInteger, "X must be an integer"),
        (range, "X must be in 1..=4096"),
        (ConfigProblem::NotBoolean, "X must be true or false"),
        (ConfigProblem::NotDigest, "X must be 64 lowercase hexadecimal characters"),
        (ConfigProblem::Invalid, "X is invalid"),
        (ConfigProblem::NotUrl, "X is not a URL"),
        (
            ConfigProblem::NotBaseUrl,
            "X must be an HTTP(S) base URL without credentials, query, or fragment",
        ),
        (
            ConfigProblem::EndsWithVersion,
            "X must stop before /v1 because Parlor appends the client endpoint path",
        ),
        (ConfigProblem::NotOrigin, "X must be an HTTP(S) origin without credentials"),
        (ConfigProblem::NotPaired, "X must be set together"),
        (ConfigProblem::ArtifactMissing, "X require MILK_CANDIDATE_A_ARTIFACT_SHA256"),
        (ConfigProblem::ArtifactAlone, "X requires at least one complete protocol binding"),
        (ConfigProblem::NotBase64, "X must be standard base64"),
        (ConfigProblem::NotKeyLength, "X must encode 32 bytes"),
        (ConfigProblem::NotKey, "X is invalid"),
        (ConfigProblem::NotStoreKind, "X must be local or s3"),
    ] {
        assert_eq!(config_error("X", problem).message(), wanted);
    }
}

#[test]
fn settings_have_their_documented_defaults() {
    let settings = found(Settings::from_values(absent()));
    assert_eq!(settings.max_request_bytes, 8 * 1024 * 1024);
    assert_eq!(settings.max_response_bytes, 16 * 1024 * 1024);
    assert_eq!(settings.capture_memory_bytes, 64 * 1024 * 1024);
    assert_eq!(settings.capture_queue, 64);
    assert_eq!(settings.route_poll_seconds, 30);
    assert_eq!(settings.candidate_header_timeout_seconds, 30);
    assert_eq!(settings.candidate_first_byte_timeout_seconds, 120);
}

#[test]
fn settings_lie_in_their_documented_ranges() {
    let mut values = absent();
    values.max_request_bytes = text("67108865");
    assert_eq!(
        problem(Settings::from_values(values)),
        is(
            "MILK_MAX_REQUEST_BYTES",
            ConfigProblem::OutOfRange { minimum: 1, maximum: 67108864 }
        )
    );
    let mut values = absent();
    values.max_response_bytes = text("268435457");
    assert_eq!(
        problem(Settings::from_values(values)),
        is(
            "MILK_MAX_RESPONSE_BYTES",
            ConfigProblem::OutOfRange { minimum: 1, maximum: 268435456 }
        )
    );
    let mut values = absent();
    values.capture_queue = text("4097");
    assert_eq!(
        problem(Settings::from_values(values)),
        is("MILK_CAPTURE_QUEUE", ConfigProblem::OutOfRange { minimum: 1, maximum: 4096 })
    );
    let mut values = absent();
    values.route_poll_seconds = text("3601");
    assert_eq!(
        problem(Settings::from_values(values)),
        is("MILK_ROUTE_POLL_SECONDS", ConfigProblem::OutOfRange { minimum: 1, maximum: 3600 })
    );
    let mut values = absent();
    values.candidate_header_timeout_seconds = text("301");
    assert_eq!(
        problem(Settings::from_values(values)),
        is(
            "MILK_CANDIDATE_HEADER_TIMEOUT_SECONDS",
            ConfigProblem::OutOfRange { minimum: 1, maximum: 300 }
        )
    );
    let mut values = absent();
    values.candidate_first_byte_timeout_seconds = text("0");
    assert_eq!(
        problem(Settings::from_values(values)),
        is(
            "MILK_CANDIDATE_FIRST_BYTE_TIMEOUT_SECONDS",
            ConfigProblem::OutOfRange { minimum: 1, maximum: 600 }
        )
    );
}

#[test]
fn capture_memory_holds_at_least_one_request() {
    let mut values = absent();
    values.max_request_bytes = text("1000");
    values.capture_memory_bytes = text("999");
    assert_eq!(
        problem(Settings::from_values(values)),
        is(
            "MILK_CAPTURE_MEMORY_BYTES",
            ConfigProblem::OutOfRange { minimum: 1000, maximum: 4294967295 }
        )
    );
    let mut values = absent();
    values.max_request_bytes = text("1000");
    values.capture_memory_bytes = text("1000");
    assert_eq!(found(Settings::from_values(values)).capture_memory_bytes, 1000);
}
