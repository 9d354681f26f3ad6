//! Upstreams: the providers that requests are forwarded to.

use vstd::prelude::*;
use vstd::utf8::encode_utf8;

use crate::boundary::json_quoted;
use crate::boundary::optional_text;
use crate::boundary::sha256_of;
use crate::boundary::url_parse;
use crate::boundary::url_read;
use crate::boundary::UrlParts;
use crate::boundary::UrlView;
use crate::config::config_error;
use crate::config::optional_env;
use crate::config::optional_setting;
use crate::config::require_sha256;
use crate::config::required_env;
use crate::config::required_setting;
use crate::config::ConfigError;
use crate::config::ConfigProblem;
use crate::config::EnvValue;
use crate::digest::digest_text;
use crate::digest::sha256_hex;
use crate::identity::law_protocol_names_identify;
use crate::identity::Profile;
use crate::identity::Protocol;
use crate::identity::Uuid;
use crate::json::delimited;
use crate::json::law_objects_identify;
use crate::json::law_objects_say_their_members;
use crate::json::law_quoted_texts_identify;
use crate::json::member_views;
use crate::json::object_json;
use crate::json::object_text;
use crate::json::says;
use crate::json::text_member;
use crate::json::Member;
use crate::text::ends_with;
use crate::text::has_suffix;
use crate::text::hex_text;
use crate::text::is_digest_text;
use crate::text::joined;
use crate::text::same_text;
use crate::text::trim_end_slashes;
use crate::text::without_end_slashes;

verus! {

/// A provider: where it is, and the key it is asked with.
pub struct UpstreamBinding {
    pub base_url: UrlParts,
    pub api_key: String,
}

/// A provider, as texts.
pub struct UpstreamView {
    pub base_url: UrlView,
    pub api_key: Seq<char>,
}

impl View for UpstreamBinding {
    type V = UpstreamView;

    open spec fn view(&self) -> UpstreamView {
        UpstreamView { base_url: self.base_url@, api_key: self.api_key@ }
    }
}

/// A provider that may be absent, as texts.
pub open spec fn upstream_view(upstream: Option<UpstreamBinding>) -> Option<UpstreamView> {
    match upstream {
        Some(upstream) => Some(upstream@),
        None => None,
    }
}

/// The default provider of each protocol.
pub struct ProtocolBindings {
    pub chat_completions: UpstreamBinding,
    pub responses: UpstreamBinding,
}

impl ProtocolBindings {
    /// The default provider of a protocol.
    pub open spec fn of(self, protocol: Protocol) -> UpstreamBinding {
        match protocol {
            Protocol::ChatCompletions => self.chat_completions,
            Protocol::Responses => self.responses,
        }
    }

    /// The default provider of a protocol.
    pub fn get(&self, protocol: Protocol) -> (result: &UpstreamBinding)
        ensures
            *result == self.of(protocol),
    {
        match protocol {
            Protocol::ChatCompletions => &self.chat_completions,
            Protocol::Responses => &self.responses,
        }
    }
}

/// The candidate's provider of one protocol.
pub struct CandidateProtocolBinding {
    pub upstream: UpstreamBinding,
    /// The digest by which signed routes name this binding.
    pub binding_sha256: String,
}

/// The candidate's provider of one protocol, as texts.
pub struct CandidateProtocolView {
    pub upstream: UpstreamView,
    pub binding_sha256: Seq<char>,
}

impl View for CandidateProtocolBinding {
    type V = CandidateProtocolView;

    open spec fn view(&self) -> CandidateProtocolView {
        CandidateProtocolView {
            upstream: self.upstream@,
            binding_sha256: self.binding_sha256@,
        }
    }
}

/// The candidate's provider of one protocol, where it has one, as texts.
pub open spec fn candidate_protocol_view(
    binding: Option<CandidateProtocolBinding>,
) -> Option<CandidateProtocolView> {
    match binding {
        Some(binding) => Some(binding@),
        None => None,
    }
}

/// The candidate: its artifact, and its provider of each protocol that it has.
pub struct CandidateBinding {
    pub artifact_sha256: String,
    pub chat_completions: Option<CandidateProtocolBinding>,
    pub responses: Option<CandidateProtocolBinding>,
}

/// The candidate, as texts.
pub struct CandidateBindingView {
    pub artifact_sha256: Seq<char>,
    pub chat_completions: Option<CandidateProtocolView>,
    pub responses: Option<CandidateProtocolView>,
}

impl View for CandidateBinding {
    type V = CandidateBindingView;

    open spec fn view(&self) -> CandidateBindingView {
        CandidateBindingView {
            artifact_sha256: self.artifact_sha256@,
            chat_completions: candidate_protocol_view(self.chat_completions),
            responses: candidate_protocol_view(self.responses),
        }
    }
}

impl CandidateBindingView {
    /// The candidate's provider of a protocol.
    pub open spec fn of(self, protocol: Protocol) -> Option<CandidateProtocolView> {
        match protocol {
            Protocol::ChatCompletions => self.chat_completions,
            Protocol::Responses => self.responses,
        }
    }
}

impl CandidateBinding {
    /// The candidate's provider of a protocol.
    pub fn get(&self, protocol: Protocol) -> (result: Option<&CandidateProtocolBinding>)
        ensures
            match result {
                Some(binding) => self@.of(protocol) == Some(binding@),
                None => self@.of(protocol) is None,
            },
    {
        match protocol {
            Protocol::ChatCompletions => self.chat_completions.as_ref(),
            Protocol::Responses => self.responses.as_ref(),
        }
    }
}

/// A URL that requests can be appended to: HTTP or HTTPS, with a host, without credentials, query
/// or fragment.
pub open spec fn is_base_url(url: UrlView) -> bool {
    &&& url.scheme == "http"@ || url.scheme == "https"@
    &&& url.host is Some
    &&& url.query is None
    &&& url.fragment is None
    &&& url.username.len() == 0
    &&& url.password is None
}

/// What the setting of a base URL comes to, given the URL that it stands for.
pub open spec fn base_url_outcome(parsed: Option<UrlView>) -> Result<UrlView, ConfigProblem> {
    match parsed {
        None => Err(ConfigProblem::NotUrl),
        Some(url) => if !is_base_url(url) {
            Err(ConfigProblem::NotBaseUrl)
        } else if ends_with(without_end_slashes(url.path), "/v1"@) {
            Err(ConfigProblem::EndsWithVersion)
        } else {
            Ok(url)
        },
    }
}

/// A URL that may be absent, as texts.
pub open spec fn url_view(url: Option<UrlParts>) -> Option<UrlView> {
    match url {
        Some(url) => Some(url@),
        None => None,
    }
}

/// Accepts the URL that the setting of a base URL stands for.
pub fn accept_upstream(name: &str, parsed: Option<UrlParts>) -> (result: Result<
    UrlParts,
    ConfigError,
>)
    ensures
        match base_url_outcome(url_view(parsed)) {
            Ok(view) => result matches Ok(url) && url@ == view,
            Err(problem) => result matches Err(error) && error.is(name@, problem),
        },
{
    let url = match parsed {
        Some(url) => url,
        None => return Err(config_error(name, ConfigProblem::NotUrl)),
    };
    let known = same_text(url.scheme.as_str(), "http") || same_text(url.scheme.as_str(), "https");
    if !known || url.host.is_none() || url.query.is_some() || url.fragment.is_some()
        || !url.username.as_str().is_empty() || url.password.is_some() {
        return Err(config_error(name, ConfigProblem::NotBaseUrl));
    }
    if has_suffix(trim_end_slashes(url.path.as_str()).as_str(), "/v1") {
        return Err(config_error(name, ConfigProblem::EndsWithVersion));
    }
    Ok(url)
}

/// Reads the setting of a base URL.
pub fn parse_upstream(name: &str, raw: &str) -> (result: Result<UrlParts, ConfigError>)
    ensures
        match base_url_outcome(url_read(raw@)) {
            Ok(view) => result matches Ok(url) && url@ == view,
            Err(problem) => result matches Err(error) && error.is(name@, problem),
        },
{
    accept_upstream(name, url_parse(raw))
}

/// The settings of one provider.
pub struct UpstreamValues {
    pub base_url: EnvValue,
    pub api_key: EnvValue,
}

/// What the settings of a provider that must be there come to.
pub open spec fn required_upstream_outcome(
    base_name: Seq<char>,
    key_name: Seq<char>,
    values: UpstreamValues,
) -> Result<UpstreamView, (Seq<char>, ConfigProblem)> {
    match required_setting(values.base_url) {
        Err(problem) => Err((base_name, problem)),
        Ok(raw) => match base_url_outcome(url_read(raw)) {
            Err(problem) => Err((base_name, problem)),
            Ok(base_url) => match required_setting(values.api_key) {
                Err(problem) => Err((key_name, problem)),
                Ok(api_key) => Ok(UpstreamView { base_url, api_key }),
            },
        },
    }
}

/// Reads the settings of a provider that must be there.
pub fn required_upstream(base_name: &str, key_name: &str, values: UpstreamValues) -> (result:
    Result<UpstreamBinding, ConfigError>)
    ensures
        match required_upstream_outcome(base_name@, key_name@, values) {
            Ok(view) => result matches Ok(upstream) && upstream@ == view,
            Err((name, problem)) => result matches Err(error) && error.is(name, problem),
        },
{
    let raw = match required_env(base_name, values.base_url) {
        Ok(raw) => raw,
        Err(error) => return Err(error),
    };
    let base_url = match parse_upstream(base_name, raw.as_str()) {
        Ok(base_url) => base_url,
        Err(error) => return Err(error),
    };
    match required_env(key_name, values.api_key) {
        Ok(api_key) => Ok(UpstreamBinding { base_url, api_key }),
        Err(error) => Err(error),
    }
}

/// What the settings of a provider that may be missing come to.
pub open spec fn optional_upstream_outcome(
    base_name: Seq<char>,
    key_name: Seq<char>,
    values: UpstreamValues,
) -> Result<Option<UpstreamView>, (Seq<char>, ConfigProblem)> {
    match (optional_setting(values.base_url), optional_setting(values.api_key)) {
        (Err(problem), _) => Err((base_name, problem)),
        (_, Err(problem)) => Err((key_name, problem)),
        (Ok(None), Ok(None)) => Ok(None),
        (Ok(Some(raw)), Ok(Some(api_key))) => match base_url_outcome(url_read(raw)) {
            Err(problem) => Err((base_name, problem)),
            Ok(base_url) => Ok(Some(UpstreamView { base_url, api_key })),
        },
        _ => Err((base_name + " and "@ + key_name, ConfigProblem::NotPaired)),
    }
}

/// Reads the settings of a provider that may be missing: both of them, or neither.
pub fn optional_upstream(base_name: &str, key_name: &str, values: UpstreamValues) -> (result:
    Result<Option<UpstreamBinding>, ConfigError>)
    ensures
        match optional_upstream_outcome(base_name@, key_name@, values) {
            Ok(view) => result matches Ok(upstream) && upstream_view(upstream) == view,
            Err((name, problem)) => result matches Err(error) && error.is(name, problem),
        },
{
    let raw = match optional_env(base_name, values.base_url) {
        Ok(raw) => raw,
        Err(error) => return Err(error),
    };
    let key = match optional_env(key_name, values.api_key) {
        Ok(key) => key,
        Err(error) => return Err(error),
    };
    match (raw, key) {
        (None, None) => Ok(None),
        (Some(raw), Some(api_key)) => match parse_upstream(base_name, raw.as_str()) {
            Ok(base_url) => Ok(Some(UpstreamBinding { base_url, api_key })),
            Err(error) => Err(error),
        },
        _ => {
            let both = joined(joined(base_name, " and ").as_str(), key_name);
            Err(config_error(both.as_str(), ConfigProblem::NotPaired))
        },
    }
}

/// The text by whose digest signed routes name a candidate's binding: its artifact, its base URL
/// without the slashes at the end, and the protocol.
pub open spec fn identity_json(
    protocol: Protocol,
    base_url: Seq<char>,
    artifact_sha256: Seq<char>,
) -> Seq<char> {
    object_json(
        seq![
            ("artifact_sha256"@, json_quoted(artifact_sha256)),
            ("base_url"@, json_quoted(without_end_slashes(base_url))),
            ("protocol"@, json_quoted(protocol.name())),
        ],
    )
}

/// The candidate's binding for a protocol, where it has a provider.
pub open spec fn candidate_protocol_of(
    protocol: Protocol,
    upstream: Option<UpstreamView>,
    artifact_sha256: Seq<char>,
) -> Option<CandidateProtocolView> {
    match upstream {
        Some(upstream) => Some(
            CandidateProtocolView {
                upstream,
                binding_sha256: digest_text(
                    encode_utf8(identity_json(protocol, upstream.base_url.text, artifact_sha256)),
                ),
            },
        ),
        None => None,
    }
}

/// The candidate's binding for a protocol, where it has a provider.
pub fn candidate_protocol_binding(
    protocol: Protocol,
    upstream: Option<UpstreamBinding>,
    artifact_sha256: &str,
) -> (result: Option<CandidateProtocolBinding>)
    ensures
        candidate_protocol_view(result) == candidate_protocol_of(
            protocol,
            upstream_view(upstream),
            artifact_sha256@,
        ),
{
    let upstream = match upstream {
        Some(upstream) => upstream,
        None => return None,
    };
    let base_url = trim_end_slashes(upstream.base_url.text.as_str());
    let mut members: Vec<Member> = Vec::new();
    members.push(text_member("artifact_sha256", artifact_sha256));
    members.push(text_member("base_url", base_url.as_str()));
    members.push(text_member("protocol", protocol.as_str()));
    assert(member_views(members@) =~= seq![
        ("artifact_sha256"@, json_quoted(artifact_sha256@)),
        ("base_url"@, json_quoted(base_url@)),
        ("protocol"@, json_quoted(protocol.name())),
    ]);
    let identity = object_text(&members);
    let binding_sha256 = sha256_hex(identity.as_str().as_bytes());
    Some(CandidateProtocolBinding { upstream, binding_sha256 })
}

/// The settings of the candidate.
pub struct CandidateValues {
    pub artifact_sha256: EnvValue,
    pub chat_completions: UpstreamValues,
    pub responses: UpstreamValues,
}

/// What the settings of the candidate come to: no candidate, or an artifact with at least one
/// provider.
pub open spec fn candidate_outcome(values: CandidateValues) -> Result<
    Option<CandidateBindingView>,
    (Seq<char>, ConfigProblem),
> {
    match (
        optional_setting(values.artifact_sha256),
        optional_upstream_outcome(
            "MILK_CANDIDATE_A_CHAT_BASE_URL"@,
            "MILK_CANDIDATE_A_CHAT_API_KEY"@,
            values.chat_completions,
        ),
        optional_upstream_outcome(
            "MILK_CANDIDATE_A_RESPONSES_BASE_URL"@,
            "MILK_CANDIDATE_A_RESPONSES_API_KEY"@,
            values.responses,
        ),
    ) {
        (Err(problem), _, _) => Err(("MILK_CANDIDATE_A_ARTIFACT_SHA256"@, problem)),
        (_, Err(error), _) => Err(error),
        (_, _, Err(error)) => Err(error),
        (Ok(None), Ok(chat), Ok(responses)) => if chat is None && responses is None {
            Ok(None)
        } else {
            Err(("candidate protocol bindings"@, ConfigProblem::ArtifactMissing))
        },
        (Ok(Some(artifact)), Ok(chat), Ok(responses)) => if chat is None && responses is None {
            Err(("a candidate artifact"@, ConfigProblem::ArtifactAlone))
        } else if !is_digest_text(artifact) {
            Err(("MILK_CANDIDATE_A_ARTIFACT_SHA256"@, ConfigProblem::NotDigest))
        } else {
            Ok(
                Some(
                    CandidateBindingView {
                        artifact_sha256: artifact,
                        chat_completions: candidate_protocol_of(
                            Protocol::ChatCompletions,
                            chat,
                            artifact,
                        ),
                        responses: candidate_protocol_of(Protocol::Responses, responses, artifact),
                    },
                ),
            )
        },
    }
}

/// The candidate where there is one, as texts.
pub open spec fn candidate_binding_view(
    candidate: Option<CandidateBinding>,
) -> Option<CandidateBindingView> {
    match candidate {
        Some(candidate) => Some(candidate@),
        None => None,
    }
}

/// Reads the settings of the candidate.
pub fn optional_candidate_binding(values: CandidateValues) -> (result: Result<
    Option<CandidateBinding>,
    ConfigError,
>)
    ensures
        match candidate_outcome(values) {
            Ok(view) => result matches Ok(candidate) && candidate_binding_view(candidate) == view,
            Err((name, problem)) => result matches Err(error) && error.is(name, problem),
        },
{
    let artifact = match optional_env("MILK_CANDIDATE_A_ARTIFACT_SHA256", values.artifact_sha256) {
        Ok(artifact) => artifact,
        Err(error) => return Err(error),
    };
    let chat = match optional_upstream(
        "MILK_CANDIDATE_A_CHAT_BASE_URL",
        "MILK_CANDIDATE_A_CHAT_API_KEY",
        values.chat_completions,
    ) {
        Ok(chat) => chat,
        Err(error) => return Err(error),
    };
    let responses = match optional_upstream(
        "MILK_CANDIDATE_A_RESPONSES_BASE_URL",
        "MILK_CANDIDATE_A_RESPONSES_API_KEY",
        values.responses,
    ) {
        Ok(responses) => responses,
        Err(error) => return Err(error),
    };
    match artifact {
        None => if chat.is_none() && responses.is_none() {
            Ok(None)
        } else {
            Err(config_error("candidate protocol bindings", ConfigProblem::ArtifactMissing))
        },
        Some(artifact) => {
            if chat.is_none() && responses.is_none() {
                return Err(config_error("a candidate artifact", ConfigProblem::ArtifactAlone));
            }
            if let Err(error) = require_sha256(
                "MILK_CANDIDATE_A_ARTIFACT_SHA256",
                artifact.as_str(),
            ) {
                return Err(error);
            }
            Ok(
                Some(
                    CandidateBinding {
                        chat_completions: candidate_protocol_binding(
                            Protocol::ChatCompletions,
                            chat,
                            artifact.as_str(),
                        ),
                        responses: candidate_protocol_binding(
                            Protocol::Responses,
                            responses,
                            artifact.as_str(),
                        ),
                        artifact_sha256: artifact,
                    },
                ),
            )
        },
    }
}

/// Why a request cannot be appended to a base URL.
#[derive(Clone, Copy, Debug, PartialEq, Eq, Structural)]
pub enum UpstreamError {
    NotUrl,
    /// The URL would lead to another scheme or host.
    Escaped,
}

/// What the URL of a forwarded request comes to, given the URL that was read: it must keep the
/// scheme and the host of the base.
pub open spec fn authority_outcome(base: UrlView, parsed: Option<UrlView>) -> Result<
    UrlView,
    UpstreamError,
> {
    match parsed {
        None => Err(UpstreamError::NotUrl),
        Some(url) => if url.host != base.host || url.scheme != base.scheme {
            Err(UpstreamError::Escaped)
        } else {
            Ok(url)
        },
    }
}

/// What the URL of a forwarded request comes to.
pub open spec fn upstream_url_outcome(base: UrlView, path_and_query: Seq<char>) -> Result<
    UrlView,
    UpstreamError,
> {
    authority_outcome(base, url_read(without_end_slashes(base.text) + path_and_query))
}

/// Whether two texts that may be absent are the same.
fn same_optional_text(a: &Option<String>, b: &Option<String>) -> (result: bool)
    ensures
        result == (optional_text(*a) == optional_text(*b)),
{
    match (a, b) {
        (Some(a), Some(b)) => same_text(a.as_str(), b.as_str()),
        (None, None) => true,
        _ => false,
    }
}

/// Accepts a URL that keeps the scheme and the host of the base.
pub fn accept_authority(base: &UrlParts, parsed: Option<UrlParts>) -> (result: Result<
    UrlParts,
    UpstreamError,
>)
    ensures
        match authority_outcome(base@, url_view(parsed)) {
            Ok(view) => result matches Ok(url) && url@ == view,
            Err(problem) => result matches Err(error) && error == problem,
        },
{
    let url = match parsed {
        Some(url) => url,
        None => return Err(UpstreamError::NotUrl),
    };
    if !same_optional_text(&url.host, &base.host) || !same_text(
        url.scheme.as_str(),
        base.scheme.as_str(),
    ) {
        return Err(UpstreamError::Escaped);
    }
    Ok(url)
}

/// The URL of a forwarded request: the base without the slashes at its end, then the path and
/// query of the request.
pub fn upstream_url(base: &UrlParts, path_and_query: &str) -> (result: Result<
    UrlParts,
    UpstreamError,
>)
    ensures
        match upstream_url_outcome(base@, path_and_query@) {
            Ok(view) => result matches Ok(url) && url@ == view,
            Err(problem) => result matches Err(error) && error == problem,
        },
{
    let raw = joined(trim_end_slashes(base.text.as_str()).as_str(), path_and_query);
    accept_authority(base, url_parse(raw.as_str()))
}

/// What is configured for one protocol of a mechanics scope: a base URL, the name of the setting
/// that holds the key, and what the environment holds under that name.
pub struct MechanicsValues {
    pub base_url: String,
    pub api_key_env: String,
    pub api_key: EnvValue,
}

/// What is configured for one mechanics scope.
pub struct MechanicsEntry {
    pub scope_id: Uuid,
    pub chat_completions: Option<MechanicsValues>,
    pub responses: Option<MechanicsValues>,
}

/// The providers of one mechanics scope.
pub struct MechanicsUpstream {
    pub scope_id: Uuid,
    pub chat_completions: Option<UpstreamBinding>,
    pub responses: Option<UpstreamBinding>,
}

/// The providers of one mechanics scope, as texts.
pub struct MechanicsView {
    pub scope_id: Uuid,
    pub chat_completions: Option<UpstreamView>,
    pub responses: Option<UpstreamView>,
}

impl View for MechanicsUpstream {
    type V = MechanicsView;

    open spec fn view(&self) -> MechanicsView {
        MechanicsView {
            scope_id: self.scope_id,
            chat_completions: upstream_view(self.chat_completions),
            responses: upstream_view(self.responses),
        }
    }
}

impl MechanicsView {
    /// The provider of a protocol.
    pub open spec fn of(self, protocol: Protocol) -> Option<UpstreamView> {
        match protocol {
            Protocol::ChatCompletions => self.chat_completions,
            Protocol::Responses => self.responses,
        }
    }
}

/// The providers of mechanics scopes, as texts.
pub open spec fn mechanics_views(upstreams: Seq<MechanicsUpstream>) -> Seq<MechanicsView> {
    Seq::new(upstreams.len(), |i: int| upstreams[i]@)
}

/// What the configuration of one protocol of a mechanics scope comes to.
pub open spec fn mechanics_outcome(values: Option<MechanicsValues>) -> Result<
    Option<UpstreamView>,
    (Seq<char>, ConfigProblem),
> {
    match values {
        None => Ok(None),
        Some(values) => match base_url_outcome(url_read(values.base_url@)) {
            Err(problem) => Err(("MILK_MECHANICS_UPSTREAMS_JSON"@, problem)),
            Ok(base_url) => match required_setting(values.api_key) {
                Err(problem) => Err((values.api_key_env@, problem)),
                Ok(api_key) => Ok(Some(UpstreamView { base_url, api_key })),
            },
        },
    }
}

/// What the configuration of one mechanics scope comes to.
pub open spec fn mechanics_entry_outcome(entry: MechanicsEntry) -> Result<
    MechanicsView,
    (Seq<char>, ConfigProblem),
> {
    match (mechanics_outcome(entry.chat_completions), mechanics_outcome(entry.responses)) {
        (Err(error), _) => Err(error),
        (_, Err(error)) => Err(error),
        (Ok(chat_completions), Ok(responses)) => Ok(
            MechanicsView { scope_id: entry.scope_id, chat_completions, responses },
        ),
    }
}

/// What the configuration of the mechanics scopes comes to: the providers of each, in order, or
/// the first error.
pub open spec fn mechanics_entries_outcome(entries: Seq<MechanicsEntry>) -> Result<
    Seq<MechanicsView>,
    (Seq<char>, ConfigProblem),
>
    decreases entries.len(),
{
    if entries.len() == 0 {
        Ok(Seq::empty())
    } else {
        match mechanics_entries_outcome(entries.drop_last()) {
            Err(error) => Err(error),
            Ok(before) => match mechanics_entry_outcome(entries.last()) {
                Err(error) => Err(error),
                Ok(view) => Ok(before.push(view)),
            },
        }
    }
}

/// Reads what is configured for one protocol of a mechanics scope.
fn mechanics_protocol(values: Option<MechanicsValues>) -> (result: Result<
    Option<UpstreamBinding>,
    ConfigError,
>)
    ensures
        match mechanics_outcome(values) {
            Ok(view) => result matches Ok(upstream) && upstream_view(upstream) == view,
            Err((name, problem)) => result matches Err(error) && error.is(name, problem),
        },
{
    let values = match values {
        Some(values) => values,
        None => return Ok(None),
    };
    let base_url = match parse_upstream("MILK_MECHANICS_UPSTREAMS_JSON", values.base_url.as_str()) {
        Ok(base_url) => base_url,
        Err(error) => return Err(error),
    };
    match required_env(values.api_key_env.as_str(), values.api_key) {
        Ok(api_key) => Ok(Some(UpstreamBinding { base_url, api_key })),
        Err(error) => Err(error),
    }
}

/// Reads what is configured for one mechanics scope.
fn mechanics_upstream(entry: MechanicsEntry) -> (result: Result<MechanicsUpstream, ConfigError>)
    ensures
        match mechanics_entry_outcome(entry) {
            Ok(view) => result matches Ok(upstream) && upstream@ == view,
            Err((name, problem)) => result matches Err(error) && error.is(name, problem),
        },
{
    let chat_completions = match mechanics_protocol(entry.chat_completions) {
        Ok(chat_completions) => chat_completions,
        Err(error) => return Err(error),
    };
    let responses = match mechanics_protocol(entry.responses) {
        Ok(responses) => responses,
        Err(error) => return Err(error),
    };
    Ok(MechanicsUpstream { scope_id: entry.scope_id, chat_completions, responses })
}

/// Where an early part of a configuration is wrong, the whole is wrong in the same way.
proof fn lemma_first_error(entries: Seq<MechanicsEntry>, count: int)
    requires
        0 <= count <= entries.len(),
        mechanics_entries_outcome(entries.take(count)) is Err,
    ensures
        mechanics_entries_outcome(entries) == mechanics_entries_outcome(entries.take(count)),
    decreases entries.len(),
{
    if count < entries.len() {
        assert(entries.drop_last().take(count) =~= entries.take(count));
        lemma_first_error(entries.drop_last(), count);
    } else {
        assert(entries.take(count) =~= entries);
    }
}

/// Reads what is configured for the mechanics scopes.
pub fn mechanics_upstreams(entries: Vec<MechanicsEntry>) -> (result: Result<
    Vec<MechanicsUpstream>,
    ConfigError,
>)
    ensures
        match mechanics_entries_outcome(entries@) {
            Ok(views) => result matches Ok(upstreams) && mechanics_views(upstreams@) == views,
            Err((name, problem)) => result matches Err(error) && error.is(name, problem),
        },
{
    let ghost all = entries@;
    let mut result: Vec<MechanicsUpstream> = Vec::new();
    let mut rest = entries;
    let count: usize = rest.len();
    assert(mechanics_views(result@) =~= Seq::empty());
    for i in 0..count
        invariant
            all == entries@,
            count == all.len(),
            rest@ == all.skip(i as int),
            mechanics_entries_outcome(all.take(i as int)) == Ok::<
                Seq<MechanicsView>,
                (Seq<char>, ConfigProblem),
            >(mechanics_views(result@)),
    {
        let entry = rest.remove(0);
        assert(entry == all[i as int]);
        assert(rest@ =~= all.skip(i + 1));
        let ghost upto = all.take(i + 1);
        assert(upto.drop_last() =~= all.take(i as int));
        assert(upto.last() == entry);
        let ghost before = mechanics_views(result@);
        match mechanics_upstream(entry) {
            Ok(upstream) => {
                result.push(upstream);
                assert(mechanics_views(result@) =~= before.push(upstream@));
            },
            Err(error) => {
                proof {
                    lemma_first_error(all, i + 1);
                }
                return Err(error);
            },
        }
    }
    assert(all.take(count as int) =~= all);
    Ok(result)
}

/// The provider that a mechanics scope has of its own for a protocol: the first that is
/// configured for the scope.
pub open spec fn own_upstream(
    upstreams: Seq<MechanicsView>,
    scope_id: Uuid,
    protocol: Protocol,
) -> Option<UpstreamView>
    decreases upstreams.len(),
{
    if upstreams.len() == 0 {
        None
    } else if upstreams[0].scope_id == scope_id {
        upstreams[0].of(protocol)
    } else {
        own_upstream(upstreams.skip(1), scope_id, protocol)
    }
}

/// The provider that is not a candidate, for a scope and a protocol: for a mechanics scope its own
/// where it has one, and else the default.
pub open spec fn baseline_of(
    defaults: ProtocolBindings,
    upstreams: Seq<MechanicsView>,
    scope_id: Uuid,
    profile: Profile,
    protocol: Protocol,
) -> UpstreamView {
    match profile {
        Profile::Production => defaults.of(protocol)@,
        Profile::Mechanics => match own_upstream(upstreams, scope_id, protocol) {
            Some(upstream) => upstream,
            None => defaults.of(protocol)@,
        },
    }
}

/// The provider that is not a candidate, for a scope and a protocol.
pub fn baseline_upstream<'a>(
    defaults: &'a ProtocolBindings,
    upstreams: &'a [MechanicsUpstream],
    scope_id: Uuid,
    profile: Profile,
    protocol: Protocol,
) -> (result: &'a UpstreamBinding)
    ensures
        result@ == baseline_of(
            *defaults,
            mechanics_views(upstreams@),
            scope_id,
            profile,
            protocol,
        ),
{
    if profile == Profile::Production {
        return defaults.get(protocol);
    }
    let ghost views = mechanics_views(upstreams@);
    assert(views.skip(0) =~= views);
    for i in 0..upstreams.len()
        invariant
            views == mechanics_views(upstreams@),
            profile == Profile::Mechanics,
            own_upstream(views, scope_id, protocol) == own_upstream(
                views.skip(i as int),
                scope_id,
                protocol,
            ),
    {
        assert(views.skip(i as int)[0] == upstreams@[i as int]@);
        assert(views.skip(i as int).skip(1) =~= views.skip(i + 1));
        if upstreams[i].scope_id == scope_id {
            let own = match protocol {
                Protocol::ChatCompletions => &upstreams[i].chat_completions,
                Protocol::Responses => &upstreams[i].responses,
            };
            return match own {
                Some(upstream) => upstream,
                None => defaults.get(protocol),
            };
        }
    }
    defaults.get(protocol)
}

/// Production scopes, and scopes for which nothing is configured, keep the default providers.
pub proof fn law_other_scopes_keep_the_defaults(
    defaults: ProtocolBindings,
    upstreams: Seq<MechanicsView>,
    scope_id: Uuid,
    profile: Profile,
    protocol: Protocol,
)
    requires
        profile == Profile::Production || forall|i: int|
            0 <= i < upstreams.len() && (#[trigger] upstreams[i]).scope_id == scope_id
                ==> upstreams[i].of(protocol) is None,
    ensures
        baseline_of(defaults, upstreams, scope_id, profile, protocol) == defaults.of(protocol)@,
    decreases upstreams.len(),
{
    if profile == Profile::Mechanics && upstreams.len() > 0 {
        assert(upstreams[0].scope_id == scope_id ==> upstreams[0].of(protocol) is None);
        assert forall|i: int|
            0 <= i < upstreams.skip(1).len() && (#[trigger] upstreams.skip(1)[i]).scope_id
                == scope_id implies upstreams.skip(1)[i].of(protocol) is None by {
            assert(upstreams.skip(1)[i] == upstreams[i + 1]);
        }
        law_other_scopes_keep_the_defaults(
            defaults,
            upstreams.skip(1),
            scope_id,
            profile,
            protocol,
        );
    }
}

/// A forwarded request keeps the scheme and the host of the provider, whatever its path.
pub proof fn law_requests_stay_with_their_provider(base: UrlView, path_and_query: Seq<char>)
    requires
        upstream_url_outcome(base, path_and_query) is Ok,
    ensures
        upstream_url_outcome(base, path_and_query) matches Ok(url) && url.scheme == base.scheme
            && url.host == base.host,
{
}

/// The text by whose digest a binding is named determines the artifact, the base URL without the
/// slashes at its end, and the protocol.
pub proof fn law_binding_identities_tell_apart(
    a: Protocol,
    a_url: Seq<char>,
    a_artifact: Seq<char>,
    b: Protocol,
    b_url: Seq<char>,
    b_artifact: Seq<char>,
)
    requires
        identity_json(a, a_url, a_artifact) == identity_json(b, b_url, b_artifact),
    ensures
        a == b,
        without_end_slashes(a_url) == without_end_slashes(b_url),
        a_artifact == b_artifact,
{
    let x = seq![
        ("artifact_sha256"@, json_quoted(a_artifact)),
        ("base_url"@, json_quoted(without_end_slashes(a_url))),
        ("protocol"@, json_quoted(a.name())),
    ];
    let y = seq![
        ("artifact_sha256"@, json_quoted(b_artifact)),
        ("base_url"@, json_quoted(without_end_slashes(b_url))),
        ("protocol"@, json_quoted(b.name())),
    ];
    law_quoted_texts_identify(a_artifact, b_artifact);
    law_quoted_texts_identify(without_end_slashes(a_url), without_end_slashes(b_url));
    law_quoted_texts_identify(a.name(), b.name());
    assert forall|i: int| 0 <= i < x.len() && i < y.len() implies delimited(
        (#[trigger] x[i]).1,
        (#[trigger] y[i]).1,
    ) by {
        assert(i == 0 || i == 1 || i == 2);
    }
    law_objects_identify(x, y);
    assert(x[0] == y[0] && x[1] == y[1] && x[2] == y[2]);
    law_protocol_names_identify(a, b);
}

/// Which base URLs are taken: exactly those over HTTP or HTTPS with a host and without a user, a
/// password, a query or a fragment, whose path, slashes at its end aside, does not end with `/v1`.
pub proof fn law_which_base_urls_are_taken(url: UrlView)
    ensures
        base_url_outcome(Some(url)) == Ok::<UrlView, ConfigProblem>(url) <==> {
            &&& url.scheme == "http"@ || url.scheme == "https"@
            &&& url.host is Some
            &&& url.username.len() == 0
            &&& url.password is None
            &&& url.query is None
            &&& url.fragment is None
            &&& !ends_with(without_end_slashes(url.path), "/v1"@)
        },
        base_url_outcome(Some(url)) is Ok ==> base_url_outcome(Some(url)) == Ok::<
            UrlView,
            ConfigProblem,
        >(url),
        base_url_outcome(None) == Err::<UrlView, ConfigProblem>(ConfigProblem::NotUrl),
        url.host is None || url.query is Some || url.fragment is Some || url.password is Some
            || url.username.len() > 0 || (url.scheme != "http"@ && url.scheme != "https"@)
            ==> base_url_outcome(Some(url)) == Err::<UrlView, ConfigProblem>(
            ConfigProblem::NotBaseUrl,
        ),
{
}

/// The URL of a forwarded request is the base, without the slashes at its end, and the path and the
/// query of the request after it; it is refused where that is no URL, or one of another scheme or
/// host.
pub proof fn law_where_requests_are_forwarded(
    base: UrlView,
    path_and_query: Seq<char>,
    url: UrlView,
)
    ensures
        upstream_url_outcome(base, path_and_query) == Ok::<UrlView, UpstreamError>(url) <==> {
            &&& url_read(without_end_slashes(base.text) + path_and_query) == Some(url)
            &&& url.scheme == base.scheme
            &&& url.host == base.host
        },
        url_read(without_end_slashes(base.text) + path_and_query) is None ==> upstream_url_outcome(
            base,
            path_and_query,
        ) == Err::<UrlView, UpstreamError>(UpstreamError::NotUrl),
        url_read(without_end_slashes(base.text) + path_and_query) == Some(url) && (url.scheme
            != base.scheme || url.host != base.host) ==> upstream_url_outcome(base, path_and_query)
            == Err::<UrlView, UpstreamError>(UpstreamError::Escaped),
{
}

/// Each API has its own provider: by default, for the candidate and for a mechanics scope.
pub proof fn law_each_api_has_its_own_provider(
    defaults: ProtocolBindings,
    candidate: CandidateBindingView,
    scope: MechanicsView,
)
    ensures
        defaults.of(Protocol::ChatCompletions) == defaults.chat_completions,
        defaults.of(Protocol::Responses) == defaults.responses,
        candidate.of(Protocol::ChatCompletions) == candidate.chat_completions,
        candidate.of(Protocol::Responses) == candidate.responses,
        scope.of(Protocol::ChatCompletions) == scope.chat_completions,
        scope.of(Protocol::Responses) == scope.responses,
{
}

/// A mechanics scope is served by the provider that is configured for it, the first where there are
/// several, and where that has none for the API by the default.
pub proof fn law_mechanics_scopes_have_their_own_providers(
    defaults: ProtocolBindings,
    upstreams: Seq<MechanicsView>,
    scope_id: Uuid,
    i: int,
)
    requires
        0 <= i < upstreams.len(),
        upstreams[i].scope_id == scope_id,
        forall|k: int| 0 <= k < i ==> (#[trigger] upstreams[k]).scope_id != scope_id,
    ensures
        upstreams[i].chat_completions matches Some(provider) ==> baseline_of(
            defaults,
            upstreams,
            scope_id,
            Profile::Mechanics,
            Protocol::ChatCompletions,
        ) == provider,
        upstreams[i].responses matches Some(provider) ==> baseline_of(
            defaults,
            upstreams,
            scope_id,
            Profile::Mechanics,
            Protocol::Responses,
        ) == provider,
        upstreams[i].chat_completions is None ==> baseline_of(
            defaults,
            upstreams,
            scope_id,
            Profile::Mechanics,
            Protocol::ChatCompletions,
        ) == defaults.chat_completions@,
        upstreams[i].responses is None ==> baseline_of(
            defaults,
            upstreams,
            scope_id,
            Profile::Mechanics,
            Protocol::Responses,
        ) == defaults.responses@,
    decreases upstreams.len(),
{
    if i > 0 {
        let rest = upstreams.skip(1);
        assert(upstreams[0].scope_id != scope_id);
        assert(rest[i - 1] == upstreams[i]);
        assert forall|k: int| 0 <= k < i - 1 implies (#[trigger] rest[k]).scope_id != scope_id by {
            assert(rest[k] == upstreams[k + 1]);
        }
        law_mechanics_scopes_have_their_own_providers(defaults, rest, scope_id, i - 1);
    }
}

/// A production scope is served by the default provider of the API, whatever is configured for
/// mechanics scopes.
pub proof fn law_production_scopes_keep_the_defaults(
    defaults: ProtocolBindings,
    upstreams: Seq<MechanicsView>,
    scope_id: Uuid,
)
    ensures
        baseline_of(
            defaults,
            upstreams,
            scope_id,
            Profile::Production,
            Protocol::ChatCompletions,
        ) == defaults.chat_completions@,
        baseline_of(defaults, upstreams, scope_id, Profile::Production, Protocol::Responses)
            == defaults.responses@,
{
}

/// A required provider is at the URL and asked with the key that were set; an optional one too, and
/// there is none where neither was set.
pub proof fn law_providers_are_what_was_set(
    base_name: Seq<char>,
    key_name: Seq<char>,
    values: UpstreamValues,
    provider: UpstreamView,
)
    ensures
        required_upstream_outcome(base_name, key_name, values) == Ok::<
            UpstreamView,
            (Seq<char>, ConfigProblem),
        >(provider) <==> {
            &&& values.base_url matches EnvValue::Text(url)
            &&& values.api_key matches EnvValue::Text(key)
            &&& url@.len() > 0
            &&& key@.len() > 0
            &&& base_url_outcome(url_read(url@)) == Ok::<UrlView, ConfigProblem>(provider.base_url)
            &&& provider.api_key == key@
        },
        optional_upstream_outcome(base_name, key_name, values) == Ok::<
            Option<UpstreamView>,
            (Seq<char>, ConfigProblem),
        >(Some(provider)) <==> required_upstream_outcome(base_name, key_name, values) == Ok::<
            UpstreamView,
            (Seq<char>, ConfigProblem),
        >(provider),
        optional_upstream_outcome(base_name, key_name, values) == Ok::<
            Option<UpstreamView>,
            (Seq<char>, ConfigProblem),
        >(None) <==> values.base_url is Absent && values.api_key is Absent,
        values.base_url is Absent ==> required_upstream_outcome(base_name, key_name, values)
            == Err::<UpstreamView, (Seq<char>, ConfigProblem)>(
            (base_name, ConfigProblem::Required),
        ),
{
}

/// The candidate is what was set: the artifact, and for each API the provider that was set for it,
/// under the digest of the text that says the artifact, the provider's URL without the slashes at its
/// end, and the API. There is none where nothing was set.
pub proof fn law_the_candidate_is_what_was_set(
    values: CandidateValues,
    candidate: CandidateBindingView,
)
    ensures
        candidate_outcome(values) == Ok::<
            Option<CandidateBindingView>,
            (Seq<char>, ConfigProblem),
        >(Some(candidate)) ==> {
            &&& values.artifact_sha256 matches EnvValue::Text(artifact)
            &&& candidate.artifact_sha256 == artifact@
            &&& is_digest_text(artifact@)
            &&& candidate.chat_completions is Some || candidate.responses is Some
            &&& candidate.chat_completions is Some <==> values.chat_completions.base_url is Text
            &&& candidate.responses is Some <==> values.responses.base_url is Text
            &&& candidate.chat_completions matches Some(chat) ==> {
                &&& required_upstream_outcome(
                    "MILK_CANDIDATE_A_CHAT_BASE_URL"@,
                    "MILK_CANDIDATE_A_CHAT_API_KEY"@,
                    values.chat_completions,
                ) == Ok::<UpstreamView, (Seq<char>, ConfigProblem)>(chat.upstream)
                &&& chat.binding_sha256 == hex_text(
                    sha256_of(
                        encode_utf8(
                            identity_json(
                                Protocol::ChatCompletions,
                                chat.upstream.base_url.text,
                                artifact@,
                            ),
                        ),
                    ),
                )
            }
            &&& candidate.responses matches Some(responses) ==> {
                &&& required_upstream_outcome(
                    "MILK_CANDIDATE_A_RESPONSES_BASE_URL"@,
                    "MILK_CANDIDATE_A_RESPONSES_API_KEY"@,
                    values.responses,
                ) == Ok::<UpstreamView, (Seq<char>, ConfigProblem)>(responses.upstream)
                &&& responses.binding_sha256 == hex_text(
                    sha256_of(
                        encode_utf8(
                            identity_json(
                                Protocol::Responses,
                                responses.upstream.base_url.text,
                                artifact@,
                            ),
                        ),
                    ),
                )
            }
        },
        values.artifact_sha256 is Absent && values.chat_completions.base_url is Absent
            && values.chat_completions.api_key is Absent && values.responses.base_url is Absent
            && values.responses.api_key is Absent ==> candidate_outcome(values) == Ok::<
            Option<CandidateBindingView>,
            (Seq<char>, ConfigProblem),
        >(None),
{
}

/// A binding is named by the digest of a text that says its artifact, its URL and its API.
pub proof fn law_bindings_are_named_by_what_they_are(
    protocol: Protocol,
    base_url: Seq<char>,
    artifact: Seq<char>,
)
    ensures
        says(
            identity_json(protocol, base_url, artifact),
            "artifact_sha256"@,
            json_quoted(artifact),
        ),
        says(
            identity_json(protocol, base_url, artifact),
            "base_url"@,
            json_quoted(without_end_slashes(base_url)),
        ),
        says(
            identity_json(protocol, base_url, artifact),
            "protocol"@,
            json_quoted(protocol.name()),
        ),
{
    let members = seq![
        ("artifact_sha256"@, json_quoted(artifact)),
        ("base_url"@, json_quoted(without_end_slashes(base_url))),
        ("protocol"@, json_quoted(protocol.name())),
    ];
    law_objects_say_their_members(members, 0);
    law_objects_say_their_members(members, 1);
    law_objects_say_their_members(members, 2);
}

/// A mechanics scope has the providers that are configured for it: for each API the URL and the key
/// that were set, and none where none was; the scopes keep their order.
pub proof fn law_mechanics_scopes_are_what_was_set(
    entries: Seq<MechanicsEntry>,
    views: Seq<MechanicsView>,
    i: int,
)
    requires
        mechanics_entries_outcome(entries) == Ok::<Seq<MechanicsView>, (Seq<char>, ConfigProblem)>(
            views,
        ),
        0 <= i < entries.len(),
    ensures
        views.len() == entries.len(),
        views[i].scope_id == entries[i].scope_id,
        views[i].chat_completions is Some <==> entries[i].chat_completions is Some,
        views[i].responses is Some <==> entries[i].responses is Some,
        entries[i].chat_completions matches Some(values) ==> {
            &&& base_url_outcome(url_read(values.base_url@)) == Ok::<UrlView, ConfigProblem>(
                views[i].chat_completions->Some_0.base_url,
            )
            &&& values.api_key matches EnvValue::Text(key)
            &&& views[i].chat_completions->Some_0.api_key == key@
        },
        entries[i].responses matches Some(values) ==> {
            &&& base_url_outcome(url_read(values.base_url@)) == Ok::<UrlView, ConfigProblem>(
                views[i].responses->Some_0.base_url,
            )
            &&& values.api_key matches EnvValue::Text(key)
            &&& views[i].responses->Some_0.api_key == key@
        },
    decreases entries.len(),
{
    let shorter = entries.drop_last();
    let part = mechanics_entries_outcome(shorter)->Ok_0;
    if shorter.len() > 0 {
        law_mechanics_scopes_are_what_was_set(shorter, part, 0);
    }
    assert(part.len() == shorter.len());
    if i < shorter.len() {
        law_mechanics_scopes_are_what_was_set(shorter, part, i);
        assert(shorter[i] == entries[i]);
        assert(views[i] == part[i]);
    }
}

/// Providers are seen whole: no field is left out.
pub proof fn law_providers_are_seen_whole(provider: UpstreamBinding, candidate: CandidateBinding)
    ensures
        provider@.base_url == provider.base_url@,
        provider@.api_key == provider.api_key@,
        candidate@.artifact_sha256 == candidate.artifact_sha256@,
        candidate.chat_completions is None ==> candidate@.chat_completions is None,
        candidate.responses is None ==> candidate@.responses is None,
        candidate.chat_completions matches Some(chat) ==> candidate@.chat_completions == Some(chat@)
            && chat@.upstream == chat.upstream@ && chat@.binding_sha256 == chat.binding_sha256@,
        candidate.responses matches Some(responses) ==> candidate@.responses == Some(responses@)
            && responses@.upstream == responses.upstream@ && responses@.binding_sha256
            == responses.binding_sha256@,
{
}

} // verus!
