//! Settings read from the environment.

use vstd::prelude::*;
use vstd::utf8::encode_utf8;

use crate::boundary::optional_text;
use crate::text::chars_of;
use crate::text::decimal;
use crate::text::decimal_text;
use crate::text::has_whitespace;
use crate::text::is_digest_text;
use crate::text::is_sha256;
use crate::text::is_white;
use crate::text::joined;
use crate::text::lowered;
use crate::text::parse_u64;
use crate::text::parse_usize;
use crate::text::parsed_decimal;
use crate::text::same_text;
use crate::text::to_ascii_lowercase;

verus! {

/// What the environment holds under a name.
pub enum EnvValue {
    Text(String),
    Absent,
    /// A value that is not Unicode.
    NotUnicode,
}

/// What is wrong with a setting.
#[derive(Clone, Copy, Debug, PartialEq, Eq, Structural)]
pub enum ConfigProblem {
    /// The setting is not there, or not Unicode.
    Required,
    Empty,
    /// The setting is not Unicode.
    Unreadable,
    NotInteger,
    OutOfRange { minimum: u64, maximum: u64 },
    NotBoolean,
    /// Not 64 hexadecimal digits with small letters.
    NotDigest,
    Invalid,
    NotUrl,
    /// Not an HTTP or HTTPS base URL without credentials, query or fragment.
    NotBaseUrl,
    /// The base URL ends with `/v1`.
    EndsWithVersion,
    /// Not an HTTP or HTTPS origin without credentials.
    NotOrigin,
    /// A URL without its key, or a key without its URL.
    NotPaired,
    /// Candidate upstreams without the digest of the candidate's artifact.
    ArtifactMissing,
    /// The digest of an artifact without a candidate upstream.
    ArtifactAlone,
    NotBase64,
    /// Not the encoding of 32 bytes.
    NotKeyLength,
    /// Not a public key.
    NotKey,
    /// Neither `local` nor `s3`.
    NotStoreKind,
}

/// A setting that cannot be used.
pub struct ConfigError {
    /// The setting, or the settings together, that the problem is with.
    pub name: String,
    pub problem: ConfigProblem,
}

impl ConfigError {
    /// The error is this problem of the setting with this name.
    pub open spec fn is(self, name: Seq<char>, problem: ConfigProblem) -> bool {
        self.name@ == name && self.problem == problem
    }

    /// What the operator is told after the name of the setting.
    pub open spec fn complaint(self) -> Seq<char> {
        match self.problem {
            ConfigProblem::Required => " is required"@,
            ConfigProblem::Empty => " must not be empty"@,
            ConfigProblem::Unreadable => " is not Unicode"@,
            ConfigProblem::NotInteger => " must be an integer"@,
            ConfigProblem::OutOfRange { minimum, maximum } => " must be in "@ + decimal(
                minimum as nat,
            ) + "..="@ + decimal(maximum as nat),
            ConfigProblem::NotBoolean => " must be true or false"@,
            ConfigProblem::NotDigest => " must be 64 lowercase hexadecimal characters"@,
            ConfigProblem::Invalid => " is invalid"@,
            ConfigProblem::NotUrl => " is not a URL"@,
            ConfigProblem::NotBaseUrl =>
                " must be an HTTP(S) base URL without credentials, query, or fragment"@,
            ConfigProblem::EndsWithVersion =>
                " must stop before /v1 because Parlor appends the client endpoint path"@,
            ConfigProblem::NotOrigin => " must be an HTTP(S) origin without credentials"@,
            ConfigProblem::NotPaired => " must be set together"@,
            ConfigProblem::ArtifactMissing => " require MILK_CANDIDATE_A_ARTIFACT_SHA256"@,
            ConfigProblem::ArtifactAlone => " requires at least one complete protocol binding"@,
            ConfigProblem::NotBase64 => " must be standard base64"@,
            ConfigProblem::NotKeyLength => " must encode 32 bytes"@,
            ConfigProblem::NotKey => " is invalid"@,
            ConfigProblem::NotStoreKind => " must be local or s3"@,
        }
    }

    /// What the operator is told.
    pub fn message(&self) -> (result: String)
        ensures
            result@ == self.name@ + self.complaint(),
    {
        let fixed: &str = match self.problem {
            ConfigProblem::Required => " is required",
            ConfigProblem::Empty => " must not be empty",
            ConfigProblem::Unreadable => " is not Unicode",
            ConfigProblem::NotInteger => " must be an integer",
            ConfigProblem::OutOfRange { minimum, maximum } => {
                let mut range = String::new();
                range.append(self.name.as_str());
                range.append(" must be in ");
                range.append(decimal_text(minimum).as_str());
                range.append("..=");
                range.append(decimal_text(maximum).as_str());
                assert(range@ =~= self.name@ + self.complaint());
                return range;
            },
            ConfigProblem::NotBoolean => " must be true or false",
            ConfigProblem::NotDigest => " must be 64 lowercase hexadecimal characters",
            ConfigProblem::Invalid => " is invalid",
            ConfigProblem::NotUrl => " is not a URL",
            ConfigProblem::NotBaseUrl =>
                " must be an HTTP(S) base URL without credentials, query, or fragment",
            ConfigProblem::EndsWithVersion =>
                " must stop before /v1 because Parlor appends the client endpoint path",
            ConfigProblem::NotOrigin => " must be an HTTP(S) origin without credentials",
            ConfigProblem::NotPaired => " must be set together",
            ConfigProblem::ArtifactMissing => " require MILK_CANDIDATE_A_ARTIFACT_SHA256",
            ConfigProblem::ArtifactAlone => " requires at least one complete protocol binding",
            ConfigProblem::NotBase64 => " must be standard base64",
            ConfigProblem::NotKeyLength => " must encode 32 bytes",
            ConfigProblem::NotKey => " is invalid",
            ConfigProblem::NotStoreKind => " must be local or s3",
        };
        joined(self.name.as_str(), fixed)
    }
}

/// The error for a setting.
pub fn config_error(name: &str, problem: ConfigProblem) -> (result: ConfigError)
    ensures
        result.is(name@, problem),
{
    ConfigError { name: name.to_owned(), problem }
}

/// What a setting that must be there, and not be empty, comes to.
pub open spec fn required_setting(value: EnvValue) -> Result<Seq<char>, ConfigProblem> {
    match value {
        EnvValue::Text(text) => if text@.len() > 0 {
            Ok(text@)
        } else {
            Err(ConfigProblem::Empty)
        },
        _ => Err(ConfigProblem::Required),
    }
}

/// What a setting that may be missing, but not empty, comes to.
pub open spec fn optional_setting(value: EnvValue) -> Result<Option<Seq<char>>, ConfigProblem> {
    match value {
        EnvValue::Text(text) => if text@.len() > 0 {
            Ok(Some(text@))
        } else {
            Err(ConfigProblem::Empty)
        },
        EnvValue::Absent => Ok(None),
        EnvValue::NotUnicode => Err(ConfigProblem::Unreadable),
    }
}

/// A setting that must be there and not be empty.
pub fn required_env(name: &str, value: EnvValue) -> (result: Result<String, ConfigError>)
    ensures
        match required_setting(value) {
            Ok(text) => result matches Ok(found) && found@ == text,
            Err(problem) => result matches Err(error) && error.is(name@, problem),
        },
{
    match value {
        EnvValue::Text(text) => if text.as_str().is_empty() {
            Err(config_error(name, ConfigProblem::Empty))
        } else {
            Ok(text)
        },
        _ => Err(config_error(name, ConfigProblem::Required)),
    }
}

/// A setting that may be missing, but not empty.
pub fn optional_env(name: &str, value: EnvValue) -> (result: Result<Option<String>, ConfigError>)
    ensures
        match optional_setting(value) {
            Ok(text) => result matches Ok(found) && optional_text(found) == text,
            Err(problem) => result matches Err(error) && error.is(name@, problem),
        },
{
    match value {
        EnvValue::Text(text) => if text.as_str().is_empty() {
            Err(config_error(name, ConfigProblem::Empty))
        } else {
            Ok(Some(text))
        },
        EnvValue::Absent => Ok(None),
        EnvValue::NotUnicode => Err(config_error(name, ConfigProblem::Unreadable)),
    }
}

/// What a numeric setting comes to: its number, else its default, within its range. No number
/// above `limit` is read.
pub open spec fn number_setting(
    value: EnvValue,
    default: nat,
    minimum: nat,
    maximum: nat,
    limit: nat,
) -> Result<nat, ConfigProblem> {
    let found = match value {
        EnvValue::Text(text) => match parsed_decimal(text@) {
            Some(n) => if n <= limit {
                Ok(n)
            } else {
                Err(ConfigProblem::NotInteger)
            },
            None => Err(ConfigProblem::NotInteger),
        },
        EnvValue::Absent => Ok(default),
        EnvValue::NotUnicode => Err(ConfigProblem::Unreadable),
    };
    match found {
        Ok(n) => if minimum <= n <= maximum {
            Ok(n)
        } else {
            Err(ConfigProblem::OutOfRange { minimum: minimum as u64, maximum: maximum as u64 })
        },
        Err(problem) => Err(problem),
    }
}

/// A numeric setting with a default and a range.
pub fn env_u64(name: &str, value: EnvValue, default: u64, minimum: u64, maximum: u64) -> (result:
    Result<u64, ConfigError>)
    ensures
        match number_setting(
            value,
            default as nat,
            minimum as nat,
            maximum as nat,
            u64::MAX as nat,
        ) {
            Ok(n) => result matches Ok(found) && found == n,
            Err(problem) => result matches Err(error) && error.is(name@, problem),
        },
{
    let found: u64 = match value {
        EnvValue::Text(text) => match parse_u64(text.as_str()) {
            Some(found) => found,
            None => return Err(config_error(name, ConfigProblem::NotInteger)),
        },
        EnvValue::Absent => default,
        EnvValue::NotUnicode => return Err(config_error(name, ConfigProblem::Unreadable)),
    };
    if found < minimum || found > maximum {
        return Err(config_error(name, ConfigProblem::OutOfRange { minimum, maximum }));
    }
    Ok(found)
}

/// A numeric setting with a default and a range.
pub fn env_usize(
    name: &str,
    value: EnvValue,
    default: usize,
    minimum: usize,
    maximum: usize,
) -> (result: Result<usize, ConfigError>)
    ensures
        match number_setting(
            value,
            default as nat,
            minimum as nat,
            maximum as nat,
            usize::MAX as nat,
        ) {
            Ok(n) => result matches Ok(found) && found == n,
            Err(problem) => result matches Err(error) && error.is(name@, problem),
        },
{
    let found: usize = match value {
        EnvValue::Text(text) => match parse_usize(text.as_str()) {
            Some(found) => found,
            None => return Err(config_error(name, ConfigProblem::NotInteger)),
        },
        EnvValue::Absent => default,
        EnvValue::NotUnicode => return Err(config_error(name, ConfigProblem::Unreadable)),
    };
    if found < minimum || found > maximum {
        return Err(
            config_error(
                name,
                ConfigProblem::OutOfRange { minimum: minimum as u64, maximum: maximum as u64 },
            ),
        );
    }
    Ok(found)
}

/// What a setting of yes or no comes to.
pub open spec fn flag_setting(value: EnvValue, default: bool) -> Result<bool, ConfigProblem> {
    match value {
        EnvValue::Text(text) => if lowered(text@) == "true"@ || text@ == "1"@ {
            Ok(true)
        } else if lowered(text@) == "false"@ || text@ == "0"@ {
            Ok(false)
        } else {
            Err(ConfigProblem::NotBoolean)
        },
        EnvValue::Absent => Ok(default),
        EnvValue::NotUnicode => Err(ConfigProblem::Unreadable),
    }
}

/// A setting of yes or no with a default.
pub fn env_bool(name: &str, value: EnvValue, default: bool) -> (result: Result<bool, ConfigError>)
    ensures
        match flag_setting(value, default) {
            Ok(flag) => result matches Ok(found) && found == flag,
            Err(problem) => result matches Err(error) && error.is(name@, problem),
        },
{
    match value {
        EnvValue::Text(text) => {
            let lower = to_ascii_lowercase(text.as_str());
            if same_text(lower.as_str(), "true") || same_text(text.as_str(), "1") {
                Ok(true)
            } else if same_text(lower.as_str(), "false") || same_text(text.as_str(), "0") {
                Ok(false)
            } else {
                Err(config_error(name, ConfigProblem::NotBoolean))
            }
        },
        EnvValue::Absent => Ok(default),
        EnvValue::NotUnicode => Err(config_error(name, ConfigProblem::Unreadable)),
    }
}

/// Demands the text of a SHA-256 digest.
pub fn require_sha256(name: &str, value: &str) -> (result: Result<(), ConfigError>)
    ensures
        match result {
            Ok(_) => is_digest_text(value@),
            Err(error) => !is_digest_text(value@) && error.is(name@, ConfigProblem::NotDigest),
        },
{
    if is_sha256(value) {
        Ok(())
    } else {
        Err(config_error(name, ConfigProblem::NotDigest))
    }
}

/// A letter or digit of ASCII, a hyphen, an underscore or a full stop.
pub open spec fn is_identity_char(c: char) -> bool {
    ||| '0' <= c && c <= '9'
    ||| 'A' <= c && c <= 'Z'
    ||| 'a' <= c && c <= 'z'
    ||| c == '-'
    ||| c == '_'
    ||| c == '.'
}

/// A name of at most 255 such characters.
pub open spec fn is_identity(value: Seq<char>) -> bool {
    value.len() <= 255 && forall|i: int|
        0 <= i < value.len() ==> is_identity_char(#[trigger] value[i])
}

/// Demands the name of a region or a bucket.
pub fn bounded_identity(name: &str, value: &str) -> (result: Result<String, ConfigError>)
    ensures
        match result {
            Ok(found) => is_identity(value@) && found@ == value@,
            Err(error) => !is_identity(value@) && error.is(name@, ConfigProblem::Invalid),
        },
{
    let all = chars_of(value);
    if all.len() > 255 {
        return Err(config_error(name, ConfigProblem::Invalid));
    }
    for i in 0..all.len()
        invariant
            all@ == value@,
            forall|k: int| 0 <= k < i ==> is_identity_char(#[trigger] value@[k]),
    {
        let c = all[i];
        if !(('0' <= c && c <= '9') || ('A' <= c && c <= 'Z') || ('a' <= c && c <= 'z') || c == '-'
            || c == '_' || c == '.') {
            assert(!is_identity_char(value@[i as int]));
            return Err(config_error(name, ConfigProblem::Invalid));
        }
    }
    Ok(value.to_owned())
}

/// A secret: at most 4,096 bytes without white space.
pub open spec fn is_secret(value: Seq<char>) -> bool {
    encode_utf8(value).len() <= 4096 && forall|i: int|
        0 <= i < value.len() ==> !is_white(#[trigger] value[i])
}

/// Demands a secret.
pub fn validate_secret(name: &str, value: String) -> (result: Result<String, ConfigError>)
    ensures
        match result {
            Ok(found) => is_secret(value@) && found@ == value@,
            Err(error) => !is_secret(value@) && error.is(name@, ConfigProblem::Invalid),
        },
{
    if value.as_str().as_bytes().len() > 4096 || has_whitespace(value.as_str()) {
        Err(config_error(name, ConfigProblem::Invalid))
    } else {
        Ok(value)
    }
}

/// What a required secret comes to.
pub open spec fn secret_setting(value: EnvValue) -> Result<Seq<char>, ConfigProblem> {
    match value {
        EnvValue::Text(text) => if text@.len() == 0 {
            Err(ConfigProblem::Empty)
        } else if is_secret(text@) {
            Ok(text@)
        } else {
            Err(ConfigProblem::Invalid)
        },
        _ => Err(ConfigProblem::Required),
    }
}

/// A required secret.
pub fn secret(name: &str, value: EnvValue) -> (result: Result<String, ConfigError>)
    ensures
        match secret_setting(value) {
            Ok(text) => result matches Ok(found) && found@ == text,
            Err(problem) => result matches Err(error) && error.is(name@, problem),
        },
{
    match required_env(name, value) {
        Ok(text) => validate_secret(name, text),
        Err(error) => Err(error),
    }
}

/// Bytes of a request body that the gateway takes without a setting.
pub const DEFAULT_MAX_REQUEST_BYTES: usize = 8388608;

/// Bytes of a response body that the gateway captures without a setting.
pub const DEFAULT_MAX_RESPONSE_BYTES: usize = 16777216;

/// Bytes that captures may hold in memory without a setting.
pub const DEFAULT_CAPTURE_MEMORY_BYTES: usize = 67108864;

/// Captures that may wait for the writer without a setting.
pub const DEFAULT_CAPTURE_QUEUE: usize = 64;

/// The largest request bound that can be set.
pub const LARGEST_MAX_REQUEST_BYTES: usize = 67108864;

/// The largest response bound that can be set.
pub const LARGEST_MAX_RESPONSE_BYTES: usize = 268435456;

/// The largest memory bound that can be set.
pub const LARGEST_CAPTURE_MEMORY_BYTES: usize = 4294967295;

/// The values of the runtime settings in the environment.
pub struct SettingValues {
    pub max_request_bytes: EnvValue,
    pub max_response_bytes: EnvValue,
    pub capture_memory_bytes: EnvValue,
    pub capture_queue: EnvValue,
    pub route_poll_seconds: EnvValue,
    pub candidate_header_timeout_seconds: EnvValue,
    pub candidate_first_byte_timeout_seconds: EnvValue,
}

/// The runtime settings.
pub struct Settings {
    pub max_request_bytes: usize,
    pub max_response_bytes: usize,
    pub capture_memory_bytes: usize,
    pub capture_queue: usize,
    pub route_poll_seconds: u64,
    pub candidate_header_timeout_seconds: u64,
    pub candidate_first_byte_timeout_seconds: u64,
}

/// The smaller of two numbers.
pub open spec fn smaller(a: nat, b: nat) -> nat {
    if a <= b {
        a
    } else {
        b
    }
}

impl Settings {
    /// What the settings come to; else the first that cannot be used, and why.
    pub open spec fn read(values: SettingValues) -> Result<Settings, (Seq<char>, ConfigProblem)> {
        let most = usize::MAX as nat;
        match number_setting(values.max_request_bytes, 8388608, 1, 67108864, most) {
            Err(problem) => Err(("MILK_MAX_REQUEST_BYTES"@, problem)),
            Ok(request) => match number_setting(
                values.max_response_bytes,
                16777216,
                1,
                268435456,
                most,
            ) {
                Err(problem) => Err(("MILK_MAX_RESPONSE_BYTES"@, problem)),
                Ok(response) => match number_setting(
                    values.capture_memory_bytes,
                    67108864,
                    smaller(request, 67108864),
                    4294967295,
                    most,
                ) {
                    Err(problem) => Err(("MILK_CAPTURE_MEMORY_BYTES"@, problem)),
                    Ok(memory) => match number_setting(values.capture_queue, 64, 1, 4096, most) {
                        Err(problem) => Err(("MILK_CAPTURE_QUEUE"@, problem)),
                        Ok(queue) => Settings::read_times(
                            values,
                            request as usize,
                            response as usize,
                            memory as usize,
                            queue as usize,
                        ),
                    },
                },
            },
        }
    }

    /// What the settings of time come to, after those of size.
    pub open spec fn read_times(
        values: SettingValues,
        max_request_bytes: usize,
        max_response_bytes: usize,
        capture_memory_bytes: usize,
        capture_queue: usize,
    ) -> Result<Settings, (Seq<char>, ConfigProblem)> {
        let most = usize::MAX as nat;
        match number_setting(values.route_poll_seconds, 30, 1, 3600, most) {
            Err(problem) => Err(("MILK_ROUTE_POLL_SECONDS"@, problem)),
            Ok(poll) => match number_setting(
                values.candidate_header_timeout_seconds,
                30,
                1,
                300,
                most,
            ) {
                Err(problem) => Err(("MILK_CANDIDATE_HEADER_TIMEOUT_SECONDS"@, problem)),
                Ok(header) => match number_setting(
                    values.candidate_first_byte_timeout_seconds,
                    120,
                    1,
                    600,
                    most,
                ) {
                    Err(problem) => Err(("MILK_CANDIDATE_FIRST_BYTE_TIMEOUT_SECONDS"@, problem)),
                    Ok(first_byte) => Ok(
                        Settings {
                            max_request_bytes,
                            max_response_bytes,
                            capture_memory_bytes,
                            capture_queue,
                            route_poll_seconds: poll as u64,
                            candidate_header_timeout_seconds: header as u64,
                            candidate_first_byte_timeout_seconds: first_byte as u64,
                        },
                    ),
                },
            },
        }
    }

    /// Reads the runtime settings.
    pub fn from_values(values: SettingValues) -> (result: Result<Settings, ConfigError>)
        ensures
            match Settings::read(values) {
                Ok(settings) => result == Ok::<Settings, ConfigError>(settings),
                Err((name, problem)) => result matches Err(error) && error.is(name, problem),
            },
    {
        let max_request_bytes: usize = match env_usize(
            "MILK_MAX_REQUEST_BYTES",
            values.max_request_bytes,
            DEFAULT_MAX_REQUEST_BYTES,
            1,
            LARGEST_MAX_REQUEST_BYTES,
        ) {
            Ok(found) => found,
            Err(error) => return Err(error),
        };
        let max_response_bytes: usize = match env_usize(
            "MILK_MAX_RESPONSE_BYTES",
            values.max_response_bytes,
            DEFAULT_MAX_RESPONSE_BYTES,
            1,
            LARGEST_MAX_RESPONSE_BYTES,
        ) {
            Ok(found) => found,
            Err(error) => return Err(error),
        };
        let smallest: usize = if max_request_bytes <= DEFAULT_CAPTURE_MEMORY_BYTES {
            max_request_bytes
        } else {
            DEFAULT_CAPTURE_MEMORY_BYTES
        };
        let capture_memory_bytes: usize = match env_usize(
            "MILK_CAPTURE_MEMORY_BYTES",
            values.capture_memory_bytes,
            DEFAULT_CAPTURE_MEMORY_BYTES,
            smallest,
            LARGEST_CAPTURE_MEMORY_BYTES,
        ) {
            Ok(found) => found,
            Err(error) => return Err(error),
        };
        let capture_queue: usize = match env_usize(
            "MILK_CAPTURE_QUEUE",
            values.capture_queue,
            DEFAULT_CAPTURE_QUEUE,
            1,
            4096,
        ) {
            Ok(found) => found,
            Err(error) => return Err(error),
        };
        let route_poll: usize = match env_usize(
            "MILK_ROUTE_POLL_SECONDS",
            values.route_poll_seconds,
            30,
            1,
            3600,
        ) {
            Ok(found) => found,
            Err(error) => return Err(error),
        };
        let header_timeout: usize = match env_usize(
            "MILK_CANDIDATE_HEADER_TIMEOUT_SECONDS",
            values.candidate_header_timeout_seconds,
            30,
            1,
            300,
        ) {
            Ok(found) => found,
            Err(error) => return Err(error),
        };
        let first_byte_timeout: usize = match env_usize(
            "MILK_CANDIDATE_FIRST_BYTE_TIMEOUT_SECONDS",
            values.candidate_first_byte_timeout_seconds,
            120,
            1,
            600,
        ) {
            Ok(found) => found,
            Err(error) => return Err(error),
        };
        Ok(
            Settings {
                max_request_bytes,
                max_response_bytes,
                capture_memory_bytes,
                capture_queue,
                route_poll_seconds: route_poll as u64,
                candidate_header_timeout_seconds: header_timeout as u64,
                candidate_first_byte_timeout_seconds: first_byte_timeout as u64,
            },
        )
    }
}

/// Settings that can be used lie in their ranges, and captures may hold at least the largest
/// request that the gateway takes.
pub proof fn law_settings_lie_in_their_ranges(settings: Settings, values: SettingValues)
    requires
        Settings::read(values) == Ok::<Settings, (Seq<char>, ConfigProblem)>(settings),
    ensures
        1 <= settings.max_request_bytes <= 67108864,
        1 <= settings.max_response_bytes <= 268435456,
        settings.capture_memory_bytes >= settings.max_request_bytes,
        settings.capture_memory_bytes <= 4294967295,
        1 <= settings.capture_queue <= 4096,
        1 <= settings.route_poll_seconds <= 3600,
        1 <= settings.candidate_header_timeout_seconds <= 300,
        1 <= settings.candidate_first_byte_timeout_seconds <= 600,
{
}

/// What a numeric setting is: the number that was set, its default where nothing was, and only where
/// that lies in its range; and for each other case the problem.
pub proof fn law_what_a_number_is_set_to(
    value: EnvValue,
    default: nat,
    minimum: nat,
    maximum: nat,
    limit: nat,
)
    ensures
        value is Absent && minimum <= default <= maximum ==> number_setting(
            value,
            default,
            minimum,
            maximum,
            limit,
        ) == Ok::<nat, ConfigProblem>(default),
        value is NotUnicode ==> number_setting(value, default, minimum, maximum, limit) == Err::<
            nat,
            ConfigProblem,
        >(ConfigProblem::Unreadable),
        value matches EnvValue::Text(text) ==> {
            let found = number_setting(value, default, minimum, maximum, limit);
            &&& parsed_decimal(text@) is None ==> found == Err::<nat, ConfigProblem>(
                ConfigProblem::NotInteger,
            )
            &&& parsed_decimal(text@) is Some && parsed_decimal(text@)->Some_0 > limit ==> found
                == Err::<nat, ConfigProblem>(ConfigProblem::NotInteger)
            &&& parsed_decimal(text@) is Some && parsed_decimal(text@)->Some_0 <= limit && minimum
                <= parsed_decimal(text@)->Some_0 <= maximum ==> found == Ok::<nat, ConfigProblem>(
                parsed_decimal(text@)->Some_0,
            )
            &&& parsed_decimal(text@) is Some && parsed_decimal(text@)->Some_0 <= limit && !(minimum
                <= parsed_decimal(text@)->Some_0 <= maximum) ==> found == Err::<
                nat,
                ConfigProblem,
            >(ConfigProblem::OutOfRange { minimum: minimum as u64, maximum: maximum as u64 })
        },
{
}

/// A setting is as it was set, or its default.
pub open spec fn is_set_to(value: EnvValue, default: nat, n: nat) -> bool {
    match value {
        EnvValue::Text(text) => parsed_decimal(text@) == Some(n),
        EnvValue::Absent => n == default,
        EnvValue::NotUnicode => false,
    }
}

/// A setting can be used: it is a number in its range, or was not set.
pub open spec fn is_usable(value: EnvValue, minimum: nat, maximum: nat) -> bool {
    match value {
        EnvValue::Text(text) => parsed_decimal(text@) matches Some(n) && minimum <= n <= maximum,
        EnvValue::Absent => true,
        EnvValue::NotUnicode => false,
    }
}

/// The settings are what was set: each the number under its own name, or where nothing was set 8 MiB
/// for requests, 16 MiB for responses, 64 MiB for captures, 64 captures that wait, 30 seconds between
/// polls and for the candidate's headers, and 120 for its first byte.
pub proof fn law_settings_are_what_was_set(settings: Settings, values: SettingValues)
    requires
        Settings::read(values) == Ok::<Settings, (Seq<char>, ConfigProblem)>(settings),
    ensures
        is_set_to(values.max_request_bytes, 8 * 1024 * 1024, settings.max_request_bytes as nat),
        is_set_to(values.max_response_bytes, 16 * 1024 * 1024, settings.max_response_bytes as nat),
        is_set_to(
            values.capture_memory_bytes,
            64 * 1024 * 1024,
            settings.capture_memory_bytes as nat,
        ),
        is_set_to(values.capture_queue, 64, settings.capture_queue as nat),
        is_set_to(values.route_poll_seconds, 30, settings.route_poll_seconds as nat),
        is_set_to(
            values.candidate_header_timeout_seconds,
            30,
            settings.candidate_header_timeout_seconds as nat,
        ),
        is_set_to(
            values.candidate_first_byte_timeout_seconds,
            120,
            settings.candidate_first_byte_timeout_seconds as nat,
        ),
{
}

/// Settings that can be used are read: wherever each is a number in its range or was not set, and
/// captures may hold the largest request.
pub proof fn law_usable_settings_are_read(values: SettingValues, request: nat)
    requires
        is_usable(values.max_request_bytes, 1, 64 * 1024 * 1024),
        is_set_to(values.max_request_bytes, 8 * 1024 * 1024, request),
        is_usable(values.max_response_bytes, 1, 256 * 1024 * 1024),
        is_usable(values.capture_memory_bytes, request, 4294967295),
        is_usable(values.capture_queue, 1, 4096),
        is_usable(values.route_poll_seconds, 1, 3600),
        is_usable(values.candidate_header_timeout_seconds, 1, 300),
        is_usable(values.candidate_first_byte_timeout_seconds, 1, 600),
    ensures
        Settings::read(values) is Ok,
{
}

/// The first setting that cannot be used is named.
pub proof fn law_unusable_settings_are_named(values: SettingValues, request: nat)
    requires
        is_usable(values.max_request_bytes, 1, 64 * 1024 * 1024) ==> is_set_to(
            values.max_request_bytes,
            8 * 1024 * 1024,
            request,
        ),
    ensures
        ({
            let requests = is_usable(values.max_request_bytes, 1, 64 * 1024 * 1024);
            let responses = requests && is_usable(values.max_response_bytes, 1, 256 * 1024 * 1024);
            let memory = responses && is_usable(values.capture_memory_bytes, request, 4294967295);
            let queue = memory && is_usable(values.capture_queue, 1, 4096);
            let poll = queue && is_usable(values.route_poll_seconds, 1, 3600);
            let header = poll && is_usable(values.candidate_header_timeout_seconds, 1, 300);
            let first_byte = header && is_usable(
                values.candidate_first_byte_timeout_seconds,
                1,
                600,
            );
            &&& !first_byte ==> (Settings::read(values) matches Err((name, _)) && name == if !requests {
                "MILK_MAX_REQUEST_BYTES"@
            } else if !responses {
                "MILK_MAX_RESPONSE_BYTES"@
            } else if !memory {
                "MILK_CAPTURE_MEMORY_BYTES"@
            } else if !queue {
                "MILK_CAPTURE_QUEUE"@
            } else if !poll {
                "MILK_ROUTE_POLL_SECONDS"@
            } else if !header {
                "MILK_CANDIDATE_HEADER_TIMEOUT_SECONDS"@
            } else {
                "MILK_CANDIDATE_FIRST_BYTE_TIMEOUT_SECONDS"@
            })
        }),
{
}

/// What yes and no are: `true` and `false` in letters of either case, `1` and `0`, and nothing else;
/// and the default where nothing is set.
pub proof fn law_what_a_flag_is_set_to(text: String, default: bool)
    ensures
        lowered(text@) == "true"@ || text@ == "1"@ ==> flag_setting(EnvValue::Text(text), default)
            == Ok::<bool, ConfigProblem>(true),
        lowered(text@) == "false"@ || text@ == "0"@ ==> flag_setting(EnvValue::Text(text), default)
            == Ok::<bool, ConfigProblem>(false),
        lowered(text@) != "true"@ && text@ != "1"@ && lowered(text@) != "false"@ && text@ != "0"@
            ==> flag_setting(EnvValue::Text(text), default) == Err::<bool, ConfigProblem>(
            ConfigProblem::NotBoolean,
        ),
        flag_setting(EnvValue::Absent, default) == Ok::<bool, ConfigProblem>(default),
        flag_setting(EnvValue::NotUnicode, default) == Err::<bool, ConfigProblem>(
            ConfigProblem::Unreadable,
        ),
{
    reveal_strlit("true");
    reveal_strlit("false");
    reveal_strlit("1");
    reveal_strlit("0");
    assert("true"@.len() != "false"@.len());
    assert("1"@[0] != "0"@[0]);
    assert(lowered(text@).len() == text@.len());
}

/// What a required and an optional setting are: what was set, where it is not empty.
pub proof fn law_what_a_text_is_set_to(text: String)
    ensures
        text@.len() > 0 ==> required_setting(EnvValue::Text(text)) == Ok::<
            Seq<char>,
            ConfigProblem,
        >(text@),
        text@.len() == 0 ==> required_setting(EnvValue::Text(text)) == Err::<
            Seq<char>,
            ConfigProblem,
        >(ConfigProblem::Empty),
        required_setting(EnvValue::Absent) == Err::<Seq<char>, ConfigProblem>(
            ConfigProblem::Required,
        ),
        text@.len() > 0 ==> optional_setting(EnvValue::Text(text)) == Ok::<
            Option<Seq<char>>,
            ConfigProblem,
        >(Some(text@)),
        text@.len() == 0 ==> optional_setting(EnvValue::Text(text)) == Err::<
            Option<Seq<char>>,
            ConfigProblem,
        >(ConfigProblem::Empty),
        optional_setting(EnvValue::Absent) == Ok::<Option<Seq<char>>, ConfigProblem>(None),
        optional_setting(EnvValue::NotUnicode) == Err::<Option<Seq<char>>, ConfigProblem>(
            ConfigProblem::Unreadable,
        ),
        secret_setting(EnvValue::Absent) == Err::<Seq<char>, ConfigProblem>(
            ConfigProblem::Required,
        ),
        text@.len() > 0 && is_secret(text@) ==> secret_setting(EnvValue::Text(text)) == Ok::<
            Seq<char>,
            ConfigProblem,
        >(text@),
        text@.len() > 0 && !is_secret(text@) ==> secret_setting(EnvValue::Text(text)) == Err::<
            Seq<char>,
            ConfigProblem,
        >(ConfigProblem::Invalid),
{
}

/// A name of a region or a bucket is at most 255 letters and digits of ASCII, hyphens, underscores
/// and full stops; one more of these makes another such name, and any other character none.
pub proof fn law_which_names_are_taken(name: Seq<char>, c: char)
    ensures
        is_identity(Seq::empty()),
        is_identity(name) ==> name.len() <= 255,
        is_identity(name) && name.len() < 255 && ('a' <= c <= 'z' || 'A' <= c <= 'Z' || '0' <= c
            <= '9' || c == '-' || c == '_' || c == '.') ==> is_identity(name.push(c)),
        !('a' <= c <= 'z' || 'A' <= c <= 'Z' || '0' <= c <= '9' || c == '-' || c == '_' || c == '.')
            ==> !is_identity(name.push(c)),
        !is_identity(name) ==> !is_identity(name.push(c)),
        name.len() > 255 ==> !is_identity(name),
{
    let longer = name.push(c);
    assert(longer[longer.len() - 1] == c);
    if is_identity(longer) {
        assert forall|i: int| 0 <= i < name.len() implies is_identity_char(#[trigger] name[i]) by {
            assert(longer[i] == name[i]);
        }
    }
}

/// A secret is at most 4096 bytes without white space: one with a space, a tabulator or a line break
/// in it is refused, wherever that stands, and one too long too.
pub proof fn law_which_secrets_are_taken(secret: Seq<char>, i: int)
    ensures
        encode_utf8(secret).len() > 4096 ==> !is_secret(secret),
        0 <= i < secret.len() && (secret[i] == ' ' || secret[i] == '\t' || secret[i] == '\n'
            || secret[i] == '\r') ==> !is_secret(secret),
        encode_utf8(secret).len() <= 4096 && (forall|k: int|
            0 <= k < secret.len() ==> '!' <= #[trigger] secret[k] <= '~') ==> is_secret(secret),
{
    if 0 <= i < secret.len() && (secret[i] == ' ' || secret[i] == '\t' || secret[i] == '\n'
        || secret[i] == '\r') {
        assert(is_white(secret[i]));
    }
    if forall|k: int| 0 <= k < secret.len() ==> '!' <= #[trigger] secret[k] <= '~' {
        assert forall|k: int| 0 <= k < secret.len() implies !is_white(#[trigger] secret[k]) by {
            assert('!' <= secret[k] <= '~');
        }
    }
}

/// What operators are told of a setting that cannot be used, after its name.
pub proof fn law_what_is_told_of_bad_settings(error: ConfigError)
    ensures
        error.problem == ConfigProblem::Required ==> error.complaint()
            == " is required"@,
        error.problem == ConfigProblem::Empty ==> error.complaint()
            == " must not be empty"@,
        error.problem == ConfigProblem::Unreadable ==> error.complaint()
            == " is not Unicode"@,
        error.problem == ConfigProblem::NotInteger ==> error.complaint()
            == " must be an integer"@,
        error.problem == ConfigProblem::NotBoolean ==> error.complaint()
            == " must be true or false"@,
        error.problem == ConfigProblem::NotDigest ==> error.complaint()
            == " must be 64 lowercase hexadecimal characters"@,
        error.problem == ConfigProblem::Invalid ==> error.complaint()
            == " is invalid"@,
        error.problem == ConfigProblem::NotUrl ==> error.complaint()
            == " is not a URL"@,
        error.problem == ConfigProblem::NotBaseUrl ==> error.complaint()
            == " must be an HTTP(S) base URL without credentials, query, or fragment"@,
        error.problem == ConfigProblem::EndsWithVersion ==> error.complaint()
            == " must stop before /v1 because Parlor appends the client endpoint path"@,
        error.problem == ConfigProblem::NotOrigin ==> error.complaint()
            == " must be an HTTP(S) origin without credentials"@,
        error.problem == ConfigProblem::NotPaired ==> error.complaint()
            == " must be set together"@,
        error.problem == ConfigProblem::ArtifactMissing ==> error.complaint()
            == " require MILK_CANDIDATE_A_ARTIFACT_SHA256"@,
        error.problem == ConfigProblem::ArtifactAlone ==> error.complaint()
            == " requires at least one complete protocol binding"@,
        error.problem == ConfigProblem::NotBase64 ==> error.complaint()
            == " must be standard base64"@,
        error.problem == ConfigProblem::NotKeyLength ==> error.complaint()
            == " must encode 32 bytes"@,
        error.problem == ConfigProblem::NotKey ==> error.complaint()
            == " is invalid"@,
        error.problem == ConfigProblem::NotStoreKind ==> error.complaint()
            == " must be local or s3"@,
        error.problem matches ConfigProblem::OutOfRange { minimum, maximum } ==> error.complaint()
            == " must be in "@ + decimal(minimum as nat) + "..="@ + decimal(maximum as nat),
{
}

} // verus!
