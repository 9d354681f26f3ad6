//! Signed routes: their verification, and which upstream an exchange goes to.

use vstd::prelude::*;
use vstd::utf8::encode_utf8;

use crate::boundary::base64_decode;
use crate::boundary::base64_of;
use crate::boundary::base64_read;
use crate::boundary::ed25519_key;
use crate::boundary::ed25519_verified;
use crate::boundary::ed25519_verify;
use crate::boundary::is_ed25519_key;
use crate::boundary::optional_text;
use crate::boundary::rfc3339_format;
use crate::boundary::rfc3339_of;
use crate::boundary::rfc3339_parse;
use crate::boundary::rfc3339_read;
use crate::boundary::sha256_of;
use crate::config::config_error;
use crate::config::ConfigError;
use crate::config::ConfigProblem;
use crate::digest::digest_text;
use crate::digest::sha256_hex;
use crate::document::candidate_view;
use crate::document::law_pointer_texts_identify;
use crate::document::law_route_texts_identify;
use crate::document::CandidateRoute;
use crate::document::CandidateView;
use crate::document::PointerView;
use crate::document::RouteView;
use crate::document::SignedPointer;
use crate::document::SignedRoute;
use crate::identity::Target;
use crate::identity::Uuid;
use crate::text::decimal;
use crate::text::decimal_text;
use crate::text::hex_text;
use crate::text::is_digest_text;
use crate::text::is_sha256;
use crate::text::joined;
use crate::text::lemma_encoding_determines_text;
use crate::text::same_bytes;
use crate::text::same_text;

verus! {

/// Why a route document or a poll is refused.
#[derive(Clone, Copy, Debug, PartialEq, Eq, Structural)]
pub enum RouteError {
    InvalidPointer,
    InvalidRoute,
    /// The pointer is not its own canonical text.
    PointerNotCanonical,
    /// The route is not its own canonical text.
    RouteNotCanonical,
    PointerFields,
    RouteFields,
    CandidateFields,
    InvalidTime,
    /// The time is not in universal time, or not in its canonical text.
    TimeNotCanonical,
    EmptyInterval,
    SignatureNotBase64,
    SignatureLength,
    SignatureInvalid,
    /// The scope has no trusted revision.
    NoRevision,
    /// The revision is not the trusted one.
    RevisionMismatch { found: u64, trusted: u64 },
    /// The pointer is older than the route in force, or names another at its revision.
    Stale,
    /// The pointer names another content of the route in force.
    Conflict,
    MissingRoute,
    DigestMismatch,
    IdentityMismatch,
    /// The route is not valid at present.
    NotCurrent,
}

impl RouteError {
    /// The error in words.
    pub open spec fn complaint(self) -> Seq<char> {
        match self {
            RouteError::InvalidPointer => "invalid route pointer"@,
            RouteError::InvalidRoute => "invalid route object"@,
            RouteError::PointerNotCanonical => "route pointer is not canonical JSON"@,
            RouteError::RouteNotCanonical => "route object is not canonical JSON"@,
            RouteError::PointerFields => "route pointer fields are invalid"@,
            RouteError::RouteFields => "route object fields are invalid"@,
            RouteError::CandidateFields => "route candidate is invalid"@,
            RouteError::InvalidTime => "route timestamp is invalid"@,
            RouteError::TimeNotCanonical => "route timestamp is not canonical UTC RFC3339"@,
            RouteError::EmptyInterval => "route validity interval is empty"@,
            RouteError::SignatureNotBase64 => "route signature is not standard base64"@,
            RouteError::SignatureLength => "route signature must be 64 bytes"@,
            RouteError::SignatureInvalid => "route signature verification failed"@,
            RouteError::NoRevision => "production scope has no trusted route revision"@,
            RouteError::Stale => "route pointer is stale or conflicts at its revision"@,
            RouteError::Conflict => "route pointer conflicts at its revision"@,
            RouteError::MissingRoute => "route pointer refers to a missing object"@,
            RouteError::DigestMismatch => "route object digest does not match pointer"@,
            RouteError::IdentityMismatch => "route object identity does not match pointer"@,
            RouteError::NotCurrent => "route object is not currently valid"@,
            RouteError::RevisionMismatch { found, trusted } => "route revision "@ + decimal(
                found as nat,
            ) + " does not equal trusted revision "@ + decimal(trusted as nat),
        }
    }

    /// The error in words.
    pub fn message(self) -> (result: String)
        ensures
            result@ == self.complaint(),
    {
        match self {
            RouteError::InvalidPointer => "invalid route pointer".to_owned(),
            RouteError::InvalidRoute => "invalid route object".to_owned(),
            RouteError::PointerNotCanonical => "route pointer is not canonical JSON".to_owned(),
            RouteError::RouteNotCanonical => "route object is not canonical JSON".to_owned(),
            RouteError::PointerFields => "route pointer fields are invalid".to_owned(),
            RouteError::RouteFields => "route object fields are invalid".to_owned(),
            RouteError::CandidateFields => "route candidate is invalid".to_owned(),
            RouteError::InvalidTime => "route timestamp is invalid".to_owned(),
            RouteError::TimeNotCanonical => "route timestamp is not canonical UTC RFC3339".to_owned(),
            RouteError::EmptyInterval => "route validity interval is empty".to_owned(),
            RouteError::SignatureNotBase64 => "route signature is not standard base64".to_owned(),
            RouteError::SignatureLength => "route signature must be 64 bytes".to_owned(),
            RouteError::SignatureInvalid => "route signature verification failed".to_owned(),
            RouteError::NoRevision => "production scope has no trusted route revision".to_owned(),
            RouteError::Stale => "route pointer is stale or conflicts at its revision".to_owned(),
            RouteError::Conflict => "route pointer conflicts at its revision".to_owned(),
            RouteError::MissingRoute => "route pointer refers to a missing object".to_owned(),
            RouteError::DigestMismatch => "route object digest does not match pointer".to_owned(),
            RouteError::IdentityMismatch => "route object identity does not match pointer".to_owned(),
            RouteError::NotCurrent => "route object is not currently valid".to_owned(),
            RouteError::RevisionMismatch { found, trusted } => {
                let mut text = joined("route revision ", decimal_text(found).as_str());
                text.append(" does not equal trusted revision ");
                text.append(decimal_text(trusted).as_str());
                text
            },
        }
    }
}

/// The public key that signs route documents.
pub struct VerifyingKey {
    pub bytes: [u8; 32],
}

impl VerifyingKey {
    /// The bytes are a public key.
    pub open spec fn well_formed(self) -> bool {
        is_ed25519_key(self.bytes@)
    }
}

/// The first 32 bytes.
fn first_32(bytes: &Vec<u8>) -> (result: [u8; 32])
    requires
        bytes@.len() == 32,
    ensures
        result@ == bytes@,
{
    let mut result: [u8; 32] = [0u8; 32];
    for i in 0..32usize
        invariant
            bytes@.len() == 32,
            forall|k: int| 0 <= k < i ==> result@[k] == bytes@[k],
    {
        result[i] = bytes[i];
    }
    assert(result@ =~= bytes@);
    result
}

/// The first 64 bytes.
fn first_64(bytes: &Vec<u8>) -> (result: [u8; 64])
    requires
        bytes@.len() == 64,
    ensures
        result@ == bytes@,
{
    let mut result: [u8; 64] = [0u8; 64];
    for i in 0..64usize
        invariant
            bytes@.len() == 64,
            forall|k: int| 0 <= k < i ==> result@[k] == bytes@[k],
    {
        result[i] = bytes[i];
    }
    assert(result@ =~= bytes@);
    result
}

/// The bytes of a public key, of what was read as base64.
pub fn key_bytes(decoded: Option<Vec<u8>>) -> (result: Result<[u8; 32], ConfigError>)
    ensures
        match decoded {
            None => result matches Err(error) && error.is(
                "MILK_ROUTE_VERIFY_KEY"@,
                ConfigProblem::NotBase64,
            ),
            Some(bytes) => if bytes@.len() == 32 {
                result matches Ok(key) && key@ == bytes@
            } else {
                result matches Err(error) && error.is(
                    "MILK_ROUTE_VERIFY_KEY"@,
                    ConfigProblem::NotKeyLength,
                )
            },
        },
{
    match decoded {
        None => Err(config_error("MILK_ROUTE_VERIFY_KEY", ConfigProblem::NotBase64)),
        Some(bytes) => if bytes.len() == 32 {
            Ok(first_32(&bytes))
        } else {
            Err(config_error("MILK_ROUTE_VERIFY_KEY", ConfigProblem::NotKeyLength))
        },
    }
}

/// What the setting of the public key comes to.
pub open spec fn key_setting(raw: Seq<char>) -> Result<Seq<u8>, ConfigProblem> {
    match base64_read(raw) {
        None => Err(ConfigProblem::NotBase64),
        Some(bytes) => if bytes.len() != 32 {
            Err(ConfigProblem::NotKeyLength)
        } else if is_ed25519_key(bytes) {
            Ok(bytes)
        } else {
            Err(ConfigProblem::NotKey)
        },
    }
}

/// Reads the public key that signs route documents. Its setting is the base64 text of the key.
pub fn parse_verifying_key(raw: &str) -> (result: Result<VerifyingKey, ConfigError>)
    ensures
        match key_setting(raw@) {
            Ok(bytes) => result matches Ok(key) && key.bytes@ == bytes && base64_of(bytes) == raw@
                && key.well_formed(),
            Err(problem) => result matches Err(error) && error.is(
                "MILK_ROUTE_VERIFY_KEY"@,
                problem,
            ),
        },
{
    match key_bytes(base64_decode(raw)) {
        Ok(bytes) => if ed25519_key(&bytes) {
            Ok(VerifyingKey { bytes })
        } else {
            Err(config_error("MILK_ROUTE_VERIFY_KEY", ConfigProblem::NotKey))
        },
        Err(error) => Err(error),
    }
}

/// The 64 bytes of a signature, of what was read as base64.
pub fn signature_bytes(decoded: Option<Vec<u8>>) -> (result: Result<[u8; 64], RouteError>)
    ensures
        match decoded {
            None => result matches Err(error) && error == RouteError::SignatureNotBase64,
            Some(bytes) => if bytes@.len() == 64 {
                result matches Ok(signature) && signature@ == bytes@
            } else {
                result matches Err(error) && error == RouteError::SignatureLength
            },
        },
{
    match decoded {
        None => Err(RouteError::SignatureNotBase64),
        Some(bytes) => if bytes.len() == 64 {
            Ok(first_64(&bytes))
        } else {
            Err(RouteError::SignatureLength)
        },
    }
}

/// What the check of a signature comes to.
pub open spec fn signature_outcome(key: Seq<u8>, message: Seq<u8>, encoded: Seq<char>) -> Result<
    (),
    RouteError,
> {
    match base64_read(encoded) {
        None => Err(RouteError::SignatureNotBase64),
        Some(signature) => if signature.len() != 64 {
            Err(RouteError::SignatureLength)
        } else if ed25519_verified(key, message, signature) {
            Ok(())
        } else {
            Err(RouteError::SignatureInvalid)
        },
    }
}

/// Checks that an encoded signature is the key's on a message.
pub fn verify_signature(key: &VerifyingKey, message: &[u8], encoded: &str) -> (result: Result<
    (),
    RouteError,
>)
    ensures
        result == signature_outcome(key.bytes@, message@, encoded@),
{
    match signature_bytes(base64_decode(encoded)) {
        Ok(signature) => if ed25519_verify(&key.bytes, message, &signature) {
            Ok(())
        } else {
            Err(RouteError::SignatureInvalid)
        },
        Err(error) => Err(error),
    }
}

/// What a time comes to, given what it was read as and the canonical text of that moment.
pub fn accept_time(
    raw: &str,
    value: Option<(i128, i32)>,
    canonical: Option<String>,
) -> (result: Result<i128, RouteError>)
    ensures
        match value {
            None => result == Err::<i128, RouteError>(RouteError::InvalidTime),
            Some((nanos, offset)) => if offset == 0 && optional_text(canonical) == Some(raw@) {
                result == Ok::<i128, RouteError>(nanos)
            } else {
                result == Err::<i128, RouteError>(RouteError::TimeNotCanonical)
            },
        },
{
    match value {
        None => Err(RouteError::InvalidTime),
        Some((nanos, offset)) => {
            if offset != 0 {
                return Err(RouteError::TimeNotCanonical);
            }
            match canonical {
                Some(text) => if same_text(text.as_str(), raw) {
                    Ok(nanos)
                } else {
                    Err(RouteError::TimeNotCanonical)
                },
                None => Err(RouteError::TimeNotCanonical),
            }
        },
    }
}

/// What a canonical time in universal time comes to.
pub open spec fn time_outcome(raw: Seq<char>) -> Result<i128, RouteError> {
    match rfc3339_read(raw) {
        None => Err(RouteError::InvalidTime),
        Some((nanos, offset)) => if offset == 0 && rfc3339_of(nanos) == Some(raw) {
            Ok(nanos)
        } else {
            Err(RouteError::TimeNotCanonical)
        },
    }
}

/// Reads a time in its canonical text.
pub fn canonical_time(raw: &str) -> (result: Result<i128, RouteError>)
    ensures
        result == time_outcome(raw@),
{
    let value = rfc3339_parse(raw);
    let canonical = match value {
        Some((nanos, _)) => rfc3339_format(nanos),
        None => None,
    };
    accept_time(raw, value, canonical)
}

/// Demands that a document is its own canonical text, with the error where it is not.
pub fn require_canonical(bytes: &[u8], canonical: &str, problem: RouteError) -> (result: Result<
    (),
    RouteError,
>)
    ensures
        result == (if encode_utf8(canonical@) == bytes@ {
            Ok(())
        } else {
            Err(problem)
        }),
{
    if same_bytes(canonical.as_bytes(), bytes) {
        Ok(())
    } else {
        Err(problem)
    }
}

/// The fields of a pointer to the route of a scope are as they must be.
pub open spec fn pointer_fields(pointer: PointerView, scope_id: Uuid) -> bool {
    &&& pointer.schema_version == "milk.route-pointer.v2"@
    &&& pointer.scope_id == scope_id
    &&& pointer.scope_id.value != 0
    &&& pointer.route_id.value != 0
    &&& pointer.revision != 0
    &&& is_digest_text(pointer.route_sha256)
}

/// What a pointer comes to: its canonical text, its fields, its time and its signature are
/// checked in this order.
pub open spec fn pointer_outcome(
    bytes: Seq<u8>,
    parsed: Option<PointerView>,
    key: Seq<u8>,
    scope_id: Uuid,
) -> Result<PointerView, RouteError> {
    match parsed {
        None => Err(RouteError::InvalidPointer),
        Some(pointer) => if encode_utf8(pointer.json()) != bytes {
            Err(RouteError::PointerNotCanonical)
        } else if !pointer_fields(pointer, scope_id) {
            Err(RouteError::PointerFields)
        } else {
            match time_outcome(pointer.published_at) {
                Err(problem) => Err(problem),
                Ok(_) => match signature_outcome(
                    key,
                    encode_utf8(pointer.unsigned_json()),
                    pointer.signature,
                ) {
                    Err(problem) => Err(problem),
                    Ok(_) => Ok(pointer),
                },
            }
        },
    }
}

/// A pointer that was read, as texts.
pub open spec fn pointer_view(pointer: Option<SignedPointer>) -> Option<PointerView> {
    match pointer {
        Some(pointer) => Some(pointer@),
        None => None,
    }
}

/// Verifies the pointer of a scope: the bytes that are stored, and what they were read as.
pub fn parse_pointer(
    bytes: &[u8],
    parsed: Option<SignedPointer>,
    verifying_key: &VerifyingKey,
    scope_id: Uuid,
) -> (result: Result<SignedPointer, RouteError>)
    ensures
        match pointer_outcome(bytes@, pointer_view(parsed), verifying_key.bytes@, scope_id) {
            Ok(view) => result matches Ok(pointer) && pointer@ == view,
            Err(problem) => result matches Err(error) && error == problem,
        },
{
    let pointer = match parsed {
        Some(pointer) => pointer,
        None => return Err(RouteError::InvalidPointer),
    };
    if let Err(error) = require_canonical(
        bytes,
        pointer.to_json().as_str(),
        RouteError::PointerNotCanonical,
    ) {
        return Err(error);
    }
    if !same_text(pointer.schema_version.as_str(), "milk.route-pointer.v2") || pointer.scope_id
        != scope_id || pointer.scope_id.is_nil() || pointer.route_id.is_nil() || pointer.revision
        == 0 || !is_sha256(pointer.route_sha256.as_str()) {
        return Err(RouteError::PointerFields);
    }
    if let Err(error) = canonical_time(pointer.published_at.as_str()) {
        return Err(error);
    }
    let message = pointer.to_unsigned_json();
    match verify_signature(
        verifying_key,
        message.as_str().as_bytes(),
        pointer.signature.as_str(),
    ) {
        Ok(_) => Ok(pointer),
        Err(error) => Err(error),
    }
}

/// A route whose document was verified.
pub struct VerifiedRoute {
    pub route_id: Uuid,
    pub revision: u64,
    pub route_sha256: String,
    /// Nanoseconds since the beginning of 1970.
    pub valid_from: i128,
    /// Nanoseconds since the beginning of 1970.
    pub expires_at: i128,
    pub candidate: Option<CandidateRoute>,
}

/// A route whose document was verified, as texts.
pub struct VerifiedView {
    pub route_id: Uuid,
    pub revision: u64,
    pub route_sha256: Seq<char>,
    pub valid_from: i128,
    pub expires_at: i128,
    pub candidate: Option<CandidateView>,
}

impl View for VerifiedRoute {
    type V = VerifiedView;

    open spec fn view(&self) -> VerifiedView {
        VerifiedView {
            route_id: self.route_id,
            revision: self.revision,
            route_sha256: self.route_sha256@,
            valid_from: self.valid_from,
            expires_at: self.expires_at,
            candidate: candidate_view(self.candidate),
        }
    }
}

/// A route that may be absent, as texts.
pub open spec fn verified_view(route: Option<VerifiedRoute>) -> Option<VerifiedView> {
    match route {
        Some(route) => Some(route@),
        None => None,
    }
}

impl VerifiedRoute {
    /// A copy.
    pub fn copied(&self) -> (result: VerifiedRoute)
        ensures
            result@ == self@,
    {
        VerifiedRoute {
            route_id: self.route_id,
            revision: self.revision,
            route_sha256: self.route_sha256.clone(),
            valid_from: self.valid_from,
            expires_at: self.expires_at,
            candidate: match &self.candidate {
                Some(candidate) => Some(candidate.copied()),
                None => None,
            },
        }
    }
}

/// The fields of a route of a scope are as they must be.
pub open spec fn route_fields(route: RouteView, scope_id: Uuid) -> bool {
    &&& route.schema_version == "milk.route.v3"@
    &&& route.scope_id == scope_id
    &&& route.scope_id.value != 0
    &&& route.route_id.value != 0
    &&& route.revision != 0
    &&& route.baseline == Target::Baseline
}

/// The candidate of a route is as it must be: a share that is not nothing, and a binding for at
/// least one protocol.
pub open spec fn candidate_fields(candidate: CandidateView) -> bool {
    &&& candidate.target == Target::CandidateA
    &&& is_digest_text(candidate.artifact_sha256)
    &&& 1 <= candidate.basis_points <= 10000
    &&& candidate.chat_completions is Some || candidate.responses is Some
    &&& candidate.chat_completions matches Some(digest) ==> is_digest_text(digest)
    &&& candidate.responses matches Some(digest) ==> is_digest_text(digest)
}

/// What a route comes to: its canonical text, its fields, its candidate, its times and its
/// signature are checked in this order.
pub open spec fn route_outcome(
    bytes: Seq<u8>,
    parsed: Option<RouteView>,
    key: Seq<u8>,
    scope_id: Uuid,
) -> Result<VerifiedView, RouteError> {
    match parsed {
        None => Err(RouteError::InvalidRoute),
        Some(route) => if encode_utf8(route.json()) != bytes {
            Err(RouteError::RouteNotCanonical)
        } else if !route_fields(route, scope_id) {
            Err(RouteError::RouteFields)
        } else if route.candidate matches Some(candidate) && !candidate_fields(candidate) {
            Err(RouteError::CandidateFields)
        } else {
            match (time_outcome(route.valid_from), time_outcome(route.expires_at)) {
                (Err(problem), _) => Err(problem),
                (_, Err(problem)) => Err(problem),
                (Ok(valid_from), Ok(expires_at)) => if valid_from >= expires_at {
                    Err(RouteError::EmptyInterval)
                } else {
                    match signature_outcome(
                        key,
                        encode_utf8(route.unsigned_json()),
                        route.signature,
                    ) {
                        Err(problem) => Err(problem),
                        Ok(_) => Ok(
                            VerifiedView {
                                route_id: route.route_id,
                                revision: route.revision,
                                route_sha256: digest_text(bytes),
                                valid_from,
                                expires_at,
                                candidate: route.candidate,
                            },
                        ),
                    }
                },
            }
        },
    }
}

/// A route that was read, as texts.
pub open spec fn route_view(route: Option<SignedRoute>) -> Option<RouteView> {
    match route {
        Some(route) => Some(route@),
        None => None,
    }
}

/// Whether the digest of a binding, where there is one, is as it must be.
fn binding_valid(digest: &Option<String>) -> (result: bool)
    ensures
        result == (optional_text(*digest) matches Some(text) ==> is_digest_text(text)),
{
    match digest {
        Some(digest) => is_sha256(digest.as_str()),
        None => true,
    }
}

/// Whether the candidate of a route is as it must be.
pub fn candidate_valid(candidate: &CandidateRoute) -> (result: bool)
    ensures
        result == candidate_fields(candidate@),
{
    candidate.target == Target::CandidateA && is_sha256(candidate.artifact_sha256.as_str()) && 1
        <= candidate.basis_points && candidate.basis_points <= 10000 && (
    candidate.chat_completions.is_some() || candidate.responses.is_some()) && binding_valid(
        &candidate.chat_completions,
    ) && binding_valid(&candidate.responses)
}

/// Verifies the route of a scope: the bytes that are stored, and what they were read as.
pub fn parse_route(
    bytes: &[u8],
    parsed: Option<SignedRoute>,
    verifying_key: &VerifyingKey,
    scope_id: Uuid,
) -> (result: Result<VerifiedRoute, RouteError>)
    ensures
        match route_outcome(bytes@, route_view(parsed), verifying_key.bytes@, scope_id) {
            Ok(view) => result matches Ok(route) && route@ == view,
            Err(problem) => result matches Err(error) && error == problem,
        },
{
    let route = match parsed {
        Some(route) => route,
        None => return Err(RouteError::InvalidRoute),
    };
    if let Err(error) = require_canonical(
        bytes,
        route.to_json().as_str(),
        RouteError::RouteNotCanonical,
    ) {
        return Err(error);
    }
    if !same_text(route.schema_version.as_str(), "milk.route.v3") || route.scope_id != scope_id
        || route.scope_id.is_nil() || route.route_id.is_nil() || route.revision == 0
        || route.baseline != Target::Baseline {
        return Err(RouteError::RouteFields);
    }
    if let Some(candidate) = &route.candidate {
        if !candidate_valid(candidate) {
            return Err(RouteError::CandidateFields);
        }
    }
    let valid_from: i128 = match canonical_time(route.valid_from.as_str()) {
        Ok(nanos) => nanos,
        Err(error) => return Err(error),
    };
    let expires_at: i128 = match canonical_time(route.expires_at.as_str()) {
        Ok(nanos) => nanos,
        Err(error) => return Err(error),
    };
    if valid_from >= expires_at {
        return Err(RouteError::EmptyInterval);
    }
    let message = route.to_unsigned_json();
    if let Err(error) = verify_signature(
        verifying_key,
        message.as_str().as_bytes(),
        route.signature.as_str(),
    ) {
        return Err(error);
    }
    Ok(
        VerifiedRoute {
            route_id: route.route_id,
            revision: route.revision,
            route_sha256: sha256_hex(bytes),
            valid_from,
            expires_at,
            candidate: route.candidate,
        },
    )
}

/// A moment has one canonical text.
pub proof fn law_moments_have_one_text(a: Seq<char>, b: Seq<char>)
    requires
        time_outcome(a) is Ok,
        time_outcome(a) == time_outcome(b),
    ensures
        a == b,
{
}

/// A pointer that is accepted is for the scope, is not nil anywhere, and carries the key's
/// signature of its unsigned text.
pub proof fn law_accepted_pointers_are_signed(
    bytes: Seq<u8>,
    parsed: Option<PointerView>,
    key: Seq<u8>,
    scope_id: Uuid,
)
    requires
        pointer_outcome(bytes, parsed, key, scope_id) is Ok,
    ensures
        pointer_outcome(bytes, parsed, key, scope_id) matches Ok(pointer) && {
            &&& bytes == encode_utf8(pointer.json())
            &&& pointer.scope_id == scope_id
            &&& pointer_fields(pointer, scope_id)
            &&& base64_read(pointer.signature) matches Some(signature) && ed25519_verified(
                key,
                encode_utf8(pointer.unsigned_json()),
                signature,
            )
        },
{
}

/// A route that is accepted carries the digest of its bytes, an interval that is not empty, a
/// candidate as it must be, and the key's signature of its unsigned text.
pub proof fn law_accepted_routes_are_signed(
    bytes: Seq<u8>,
    parsed: Option<RouteView>,
    key: Seq<u8>,
    scope_id: Uuid,
)
    requires
        route_outcome(bytes, parsed, key, scope_id) is Ok,
    ensures
        ({
            &&& route_outcome(bytes, parsed, key, scope_id) matches Ok(accepted)
            &&& parsed matches Some(route)
            &&& bytes == encode_utf8(route.json())
            &&& route.scope_id == scope_id
            &&& accepted.route_id == route.route_id
            &&& accepted.revision == route.revision
            &&& accepted.candidate == route.candidate
            &&& accepted.candidate matches Some(candidate) ==> candidate_fields(candidate)
            &&& accepted.route_sha256 == digest_text(bytes)
            &&& accepted.valid_from < accepted.expires_at
            &&& base64_read(route.signature) matches Some(signature) && ed25519_verified(
                key,
                encode_utf8(route.unsigned_json()),
                signature,
            )
        }),
{
}

/// Whatever the bytes of a pointer are read as, they are accepted as one pointer only.
pub proof fn law_pointer_bytes_have_one_reading(
    bytes: Seq<u8>,
    first: Option<PointerView>,
    second: Option<PointerView>,
    key: Seq<u8>,
    scope_id: Uuid,
)
    requires
        pointer_outcome(bytes, first, key, scope_id) is Ok,
        pointer_outcome(bytes, second, key, scope_id) is Ok,
    ensures
        pointer_outcome(bytes, first, key, scope_id) == pointer_outcome(
            bytes,
            second,
            key,
            scope_id,
        ),
{
    let a = first->Some_0;
    let b = second->Some_0;
    lemma_encoding_determines_text(a.json(), b.json());
    law_pointer_texts_identify(a, b);
}

/// Whatever the bytes of a route are read as, they are accepted as one route only.
pub proof fn law_route_bytes_have_one_reading(
    bytes: Seq<u8>,
    first: Option<RouteView>,
    second: Option<RouteView>,
    key: Seq<u8>,
    scope_id: Uuid,
)
    requires
        route_outcome(bytes, first, key, scope_id) is Ok,
        route_outcome(bytes, second, key, scope_id) is Ok,
    ensures
        route_outcome(bytes, first, key, scope_id) == route_outcome(bytes, second, key, scope_id),
{
    let a = first->Some_0;
    let b = second->Some_0;
    lemma_encoding_determines_text(a.json(), b.json());
    law_route_texts_identify(a, b);
}

/// Which times are taken: exactly the texts that stand for a moment without an offset and are what
/// that moment is written as.
pub proof fn law_which_times_are_taken(raw: Seq<char>, nanos: i128)
    ensures
        time_outcome(raw) == Ok::<i128, RouteError>(nanos) <==> rfc3339_read(raw) == Some(
            (nanos, 0i32),
        ) && rfc3339_of(nanos) == Some(raw),
        rfc3339_read(raw) is None ==> time_outcome(raw) == Err::<i128, RouteError>(
            RouteError::InvalidTime,
        ),
        rfc3339_read(raw) is Some && (rfc3339_read(raw)->Some_0.1 != 0 || rfc3339_of(
            rfc3339_read(raw)->Some_0.0,
        ) != Some(raw)) ==> time_outcome(raw) == Err::<i128, RouteError>(
            RouteError::TimeNotCanonical,
        ),
{
}

/// Which signatures are taken: exactly the base64 texts of 64 bytes that are the key's signature on
/// the message.
pub proof fn law_which_signatures_are_taken(key: Seq<u8>, message: Seq<u8>, encoded: Seq<char>)
    ensures
        signature_outcome(key, message, encoded) is Ok <==> {
            &&& base64_read(encoded) matches Some(signature)
            &&& signature.len() == 64
            &&& ed25519_verified(key, message, signature)
        },
        base64_read(encoded) is None ==> signature_outcome(key, message, encoded) == Err::<
            (),
            RouteError,
        >(RouteError::SignatureNotBase64),
        base64_read(encoded) is Some && base64_read(encoded)->Some_0.len() != 64
            ==> signature_outcome(key, message, encoded) == Err::<(), RouteError>(
            RouteError::SignatureLength,
        ),
        base64_read(encoded) is Some && base64_read(encoded)->Some_0.len() == 64
            && !ed25519_verified(key, message, base64_read(encoded)->Some_0) ==> signature_outcome(
            key,
            message,
            encoded,
        ) == Err::<(), RouteError>(RouteError::SignatureInvalid),
{
}

/// Which pointers are accepted: exactly those whose bytes are their canonical text, of the second
/// version, for the scope, with a route, a revision and a digest, published at a canonical time, and
/// signed by the key.
pub proof fn law_which_pointers_are_accepted(
    bytes: Seq<u8>,
    pointer: PointerView,
    key: Seq<u8>,
    scope_id: Uuid,
)
    ensures
        pointer_outcome(bytes, Some(pointer), key, scope_id) is Ok <==> {
            &&& bytes == encode_utf8(pointer.json())
            &&& pointer.schema_version == "milk.route-pointer.v2"@
            &&& pointer.scope_id == scope_id
            &&& scope_id.value != 0
            &&& pointer.route_id.value != 0
            &&& pointer.revision > 0
            &&& is_digest_text(pointer.route_sha256)
            &&& time_outcome(pointer.published_at) is Ok
            &&& base64_read(pointer.signature) matches Some(signature)
            &&& signature.len() == 64
            &&& ed25519_verified(key, encode_utf8(pointer.unsigned_json()), signature)
        },
        pointer_outcome(bytes, Some(pointer), key, scope_id) matches Ok(found) ==> found == pointer,
        pointer_outcome(bytes, None, key, scope_id) == Err::<PointerView, RouteError>(
            RouteError::InvalidPointer,
        ),
        bytes != encode_utf8(pointer.json()) ==> pointer_outcome(
            bytes,
            Some(pointer),
            key,
            scope_id,
        ) == Err::<PointerView, RouteError>(RouteError::PointerNotCanonical),
{
}

/// Which routes are accepted: exactly those whose bytes are their canonical text, of the third
/// version, for the scope, with a name, a revision and the baseline as baseline; with no candidate,
/// or one with its target, an artifact, a share of 1 to 10000 and the digest of a binding for at
/// least one API; valid between two canonical times, the first before the second; and signed by the
/// key. What is kept of one is what it says, with the digest of its bytes.
pub proof fn law_which_routes_are_accepted(
    bytes: Seq<u8>,
    route: RouteView,
    key: Seq<u8>,
    scope_id: Uuid,
)
    ensures
        route_outcome(bytes, Some(route), key, scope_id) is Ok <==> {
            &&& bytes == encode_utf8(route.json())
            &&& route.schema_version == "milk.route.v3"@
            &&& route.scope_id == scope_id
            &&& scope_id.value != 0
            &&& route.route_id.value != 0
            &&& route.revision > 0
            &&& route.baseline == Target::Baseline
            &&& route.candidate is Some ==> {
                let candidate = route.candidate->Some_0;
                &&& candidate.target == Target::CandidateA
                &&& is_digest_text(candidate.artifact_sha256)
                &&& candidate.basis_points >= 1
                &&& candidate.basis_points <= 10000
                &&& candidate.chat_completions is Some || candidate.responses is Some
                &&& candidate.chat_completions is Some ==> is_digest_text(
                    candidate.chat_completions->Some_0,
                )
                &&& candidate.responses is Some ==> is_digest_text(candidate.responses->Some_0)
            }
            &&& time_outcome(route.valid_from) matches Ok(valid_from)
            &&& time_outcome(route.expires_at) matches Ok(expires_at)
            &&& valid_from < expires_at
            &&& base64_read(route.signature) matches Some(signature)
            &&& signature.len() == 64
            &&& ed25519_verified(key, encode_utf8(route.unsigned_json()), signature)
        },
        route_outcome(bytes, Some(route), key, scope_id) matches Ok(found) ==> {
            &&& found.route_id == route.route_id
            &&& found.revision == route.revision
            &&& found.route_sha256 == hex_text(sha256_of(bytes))
            &&& time_outcome(route.valid_from) == Ok::<i128, RouteError>(found.valid_from)
            &&& time_outcome(route.expires_at) == Ok::<i128, RouteError>(found.expires_at)
            &&& found.candidate == route.candidate
        },
        route_outcome(bytes, None, key, scope_id) == Err::<VerifiedView, RouteError>(
            RouteError::InvalidRoute,
        ),
        bytes != encode_utf8(route.json()) ==> route_outcome(bytes, Some(route), key, scope_id)
            == Err::<VerifiedView, RouteError>(RouteError::RouteNotCanonical),
{
}

/// Which settings are the public key: exactly the base64 texts of 32 bytes that are a public key.
pub proof fn law_which_keys_are_taken(raw: Seq<char>, bytes: Seq<u8>)
    ensures
        key_setting(raw) == Ok::<Seq<u8>, ConfigProblem>(bytes) <==> base64_read(raw) == Some(bytes)
            && bytes.len() == 32 && is_ed25519_key(bytes),
        base64_read(raw) is None ==> key_setting(raw) == Err::<Seq<u8>, ConfigProblem>(
            ConfigProblem::NotBase64,
        ),
        base64_read(raw) == Some(bytes) && bytes.len() != 32 ==> key_setting(raw) == Err::<
            Seq<u8>,
            ConfigProblem,
        >(ConfigProblem::NotKeyLength),
        base64_read(raw) == Some(bytes) && bytes.len() == 32 && !is_ed25519_key(bytes)
            ==> key_setting(raw) == Err::<Seq<u8>, ConfigProblem>(ConfigProblem::NotKey),
{
}

/// A verified route is seen whole: no field is left out.
pub proof fn law_verified_routes_are_seen_whole(route: VerifiedRoute)
    ensures
        route@.route_id == route.route_id,
        route@.revision == route.revision,
        route@.route_sha256 == route.route_sha256@,
        route@.valid_from == route.valid_from,
        route@.expires_at == route.expires_at,
        route.candidate is None ==> route@.candidate is None,
        route.candidate matches Some(candidate) ==> route@.candidate == Some(candidate@),
        verified_view(Some(route)) == Some(route@),
        verified_view(None) is None,
{
}

/// What operators are told of routes that are refused.
pub proof fn law_what_is_told_of_refused_routes(error: RouteError)
    ensures
        error == RouteError::InvalidPointer ==> error.complaint() == "invalid route pointer"@,
        error == RouteError::InvalidRoute ==> error.complaint() == "invalid route object"@,
        error == RouteError::PointerNotCanonical ==> error.complaint() == "route pointer is not canonical JSON"@,
        error == RouteError::RouteNotCanonical ==> error.complaint() == "route object is not canonical JSON"@,
        error == RouteError::PointerFields ==> error.complaint() == "route pointer fields are invalid"@,
        error == RouteError::RouteFields ==> error.complaint() == "route object fields are invalid"@,
        error == RouteError::CandidateFields ==> error.complaint() == "route candidate is invalid"@,
        error == RouteError::InvalidTime ==> error.complaint() == "route timestamp is invalid"@,
        error == RouteError::TimeNotCanonical ==> error.complaint() == "route timestamp is not canonical UTC RFC3339"@,
        error == RouteError::EmptyInterval ==> error.complaint() == "route validity interval is empty"@,
        error == RouteError::SignatureNotBase64 ==> error.complaint() == "route signature is not standard base64"@,
        error == RouteError::SignatureLength ==> error.complaint() == "route signature must be 64 bytes"@,
        error == RouteError::SignatureInvalid ==> error.complaint() == "route signature verification failed"@,
        error == RouteError::NoRevision ==> error.complaint() == "production scope has no trusted route revision"@,
        error == RouteError::Stale ==> error.complaint() == "route pointer is stale or conflicts at its revision"@,
        error == RouteError::Conflict ==> error.complaint() == "route pointer conflicts at its revision"@,
        error == RouteError::MissingRoute ==> error.complaint() == "route pointer refers to a missing object"@,
        error == RouteError::DigestMismatch ==> error.complaint() == "route object digest does not match pointer"@,
        error == RouteError::IdentityMismatch ==> error.complaint() == "route object identity does not match pointer"@,
        error == RouteError::NotCurrent ==> error.complaint() == "route object is not currently valid"@,
        error matches RouteError::RevisionMismatch { found, trusted } ==> error.complaint()
            == "route revision "@ + decimal(found as nat) + " does not equal trusted revision "@
            + decimal(trusted as nat),
{
}

} // verus!
