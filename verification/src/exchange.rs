//! One exchange: its admission, the upstreams it is sent to in turn, and the recording of its
//! response.

use std::sync::Arc;
use vstd::prelude::*;
use vstd::utf8::encode_utf8;

use crate::boundary::channel_of;
use crate::boundary::json_flag;
use crate::boundary::json_flag_of;
use crate::boundary::nanos_since;
use crate::boundary::offers_through;
use crate::boundary::optional_text;
use crate::boundary::requests_through;
use crate::boundary::rfc3339_of;
use crate::boundary::semaphore_of;
use crate::boundary::try_acquire;
use crate::boundary::MemoryPermit;
use crate::boundary::MemoryRequest;
use crate::boundary::Offer;
use crate::capture::CaptureJob;
use crate::capture::CaptureSeed;
use crate::capture::SeedView;
use crate::config::LARGEST_MAX_RESPONSE_BYTES;
use crate::headers::captured_request_names;
use crate::headers::captured_response_names;
use crate::headers::downstream_response_headers;
use crate::headers::header_views;
use crate::headers::identity_encoding;
use crate::headers::passing;
use crate::headers::passing_representable;
use crate::headers::safe_request_headers;
use crate::headers::safe_response_headers;
use crate::headers::selected;
use crate::headers::text_header_views;
use crate::headers::trajectory_id;
use crate::headers::trajectory_of;
use crate::headers::upstream_request_headers;
use crate::headers::Direction;
use crate::headers::Header;
use crate::headers::HeaderError;
use crate::headers::HeaderView;
use crate::headers::TextHeader;
use crate::identity::Profile;
use crate::identity::Protocol;
use crate::identity::Target;
use crate::identity::Uuid;
use crate::keys::authenticate;
use crate::keys::authenticated;
use crate::keys::KeyBinding;
use crate::keys::OperatorKey;
use crate::recorder::agree_but_for_capture;
use crate::recorder::body_of;
use crate::recorder::given_by;
use crate::recorder::is_passage;
use crate::recorder::law_a_body_is_what_the_upstream_gave;
use crate::recorder::law_a_capture_that_fits_is_whole;
use crate::recorder::law_only_whole_responses_are_kept;
use crate::recorder::law_the_first_byte_is_timed_once;
use crate::recorder::stream_of;
use crate::recorder::BodyEvent;
use crate::recorder::PassedView;
use crate::recorder::Passing;
use crate::recorder::RecorderView;
use crate::recorder::ResponseRecorder;
use crate::recorder::Tally;
use crate::reply::GatewayError;
use crate::routing::ChoiceView;
use crate::routing::RouteChoice;
use crate::text::begins_with;
use crate::text::decimal;
use crate::text::decimal_text;
use crate::text::joined;
use crate::text::law_decimal_reads_back;
use crate::text::parsed_decimal;
use crate::text::same_text;
use crate::upstream::baseline_of;
use crate::upstream::baseline_upstream;
use crate::upstream::candidate_binding_view;
use crate::upstream::mechanics_views;
use crate::upstream::CandidateBinding;
use crate::upstream::CandidateBindingView;
use crate::upstream::CandidateProtocolView;
use crate::upstream::MechanicsUpstream;
use crate::upstream::ProtocolBindings;
use crate::upstream::UpstreamBinding;
use crate::upstream::UpstreamView;

verus! {

/// The API that a path belongs to.
pub open spec fn protocol_of(path: Seq<char>) -> Option<Protocol> {
    if path == "/v1/chat/completions"@ {
        Some(Protocol::ChatCompletions)
    } else if path == "/v1/responses"@ {
        Some(Protocol::Responses)
    } else {
        None
    }
}

/// The API that a path belongs to.
pub fn endpoint_protocol(path: &str) -> (result: Option<Protocol>)
    ensures
        result == protocol_of(path@),
{
    if same_text(path, "/v1/chat/completions") {
        Some(Protocol::ChatCompletions)
    } else if same_text(path, "/v1/responses") {
        Some(Protocol::Responses)
    } else {
        None
    }
}

/// A request that is to be forwarded.
pub struct Admission {
    pub binding: KeyBinding,
    pub protocol: Protocol,
    pub trajectory_id: Option<Uuid>,
    /// The headers that a capture keeps.
    pub request_headers: Vec<TextHeader>,
    /// The headers that go to the provider.
    pub forwarded_headers: Vec<Header>,
}

/// A request that is to be forwarded, as texts.
pub struct AdmissionView {
    pub binding: KeyBinding,
    pub protocol: Protocol,
    pub trajectory_id: Option<Uuid>,
    pub request_headers: Seq<(Seq<char>, Seq<char>)>,
    pub forwarded_headers: Seq<HeaderView>,
}

impl View for Admission {
    type V = AdmissionView;

    open spec fn view(&self) -> AdmissionView {
        AdmissionView {
            binding: self.binding,
            protocol: self.protocol,
            trajectory_id: self.trajectory_id,
            request_headers: text_header_views(self.request_headers@),
            forwarded_headers: header_views(self.forwarded_headers@),
        }
    }
}

/// What a request comes to: its key, its path and its headers are checked in this order.
pub open spec fn admission_outcome(
    headers: Seq<HeaderView>,
    keys: Seq<OperatorKey>,
    path: Seq<char>,
) -> Result<AdmissionView, GatewayError> {
    match authenticated(headers, keys) {
        None => Err(GatewayError::Unauthorized),
        Some(key) => match protocol_of(path) {
            None => Err(GatewayError::UnsupportedEndpoint),
            Some(protocol) => match trajectory_of(headers) {
                Err(_) => Err(GatewayError::InvalidHeaders),
                Ok(trajectory_id) => if passing_representable(Direction::Request, headers) {
                    Ok(
                        AdmissionView {
                            binding: key.binding,
                            protocol,
                            trajectory_id,
                            request_headers: selected(headers, captured_request_names()),
                            forwarded_headers: passing(Direction::Request, headers).push(
                                identity_encoding(),
                            ),
                        },
                    )
                } else {
                    Err(GatewayError::InvalidHeaders)
                },
            },
        },
    }
}

/// What is counted of a request as it comes in: every one with a valid key.
pub open spec fn arrival_tally(headers: Seq<HeaderView>, keys: Seq<OperatorKey>) -> Option<Tally> {
    if authenticated(headers, keys) is Some {
        Some(Tally::Observed)
    } else {
        None
    }
}

/// Admits a request or refuses it, and says what is counted.
pub fn receive(headers: &[Header], keys: &[OperatorKey], path: &str) -> (result: (
    Option<Tally>,
    Result<Admission, GatewayError>,
))
    ensures
        result.0 == arrival_tally(header_views(headers@), keys@),
        match admission_outcome(header_views(headers@), keys@, path@) {
            Ok(view) => result.1 matches Ok(admission) && admission@ == view,
            Err(problem) => result.1 matches Err(error) && error == problem,
        },
{
    let binding = match authenticate(headers, keys) {
        Some(key) => key.binding,
        None => return (None, Err(GatewayError::Unauthorized)),
    };
    let protocol = match endpoint_protocol(path) {
        Some(protocol) => protocol,
        None => return (Some(Tally::Observed), Err(GatewayError::UnsupportedEndpoint)),
    };
    let trajectory_id = match trajectory_id(headers) {
        Ok(trajectory_id) => trajectory_id,
        Err(_) => return (Some(Tally::Observed), Err(GatewayError::InvalidHeaders)),
    };
    let request_headers = safe_request_headers(headers);
    let forwarded_headers = match upstream_request_headers(headers) {
        Ok(forwarded_headers) => forwarded_headers,
        Err(_) => return (Some(Tally::Observed), Err(GatewayError::InvalidHeaders)),
    };
    (
        Some(Tally::Observed),
        Ok(Admission { binding, protocol, trajectory_id, request_headers, forwarded_headers }),
    )
}

/// Whether a request asks for a stream, given the flag in its body.
pub fn asks_for_stream(flag: Option<bool>) -> (result: bool)
    ensures
        result == (flag == Some(true)),
{
    match flag {
        Some(flag) => flag,
        None => false,
    }
}

/// The body of a request asks for a stream.
pub open spec fn wants_stream(body: Seq<u8>) -> bool {
    json_flag_of(body, "stream"@) == Some(true)
}

/// Whether the body of a request asks for a stream.
pub fn is_streaming(body: &[u8]) -> (result: bool)
    ensures
        result == wants_stream(body@),
        result == (json_flag_of(body@, "stream"@) == Some(true)),
{
    asks_for_stream(json_flag(body, "stream"))
}

/// Why an exchange that was to go to the candidate went to the baseline.
#[derive(Clone, Copy, Debug, PartialEq, Eq, Structural)]
pub enum FallbackReason {
    /// No candidate is configured.
    Unconfigured,
    /// The signed binding is not the configured one.
    IdentityMismatch,
    Unavailable,
    HeaderTimeout,
    /// A status that calls for another attempt.
    Status(u16),
    InvalidHeaders,
    BodyUnavailable,
    FirstByteTimeout,
}

impl FallbackReason {
    /// The reason as a capture names it.
    pub open spec fn text(self) -> Seq<char> {
        match self {
            FallbackReason::Unconfigured => "candidate_unconfigured"@,
            FallbackReason::IdentityMismatch => "candidate_identity_mismatch"@,
            FallbackReason::Unavailable => "candidate_unavailable"@,
            FallbackReason::HeaderTimeout => "candidate_header_timeout"@,
            FallbackReason::Status(status) => "candidate_status_"@ + decimal(status as nat),
            FallbackReason::InvalidHeaders => "candidate_invalid_headers"@,
            FallbackReason::BodyUnavailable => "candidate_body_unavailable"@,
            FallbackReason::FirstByteTimeout => "candidate_first_byte_timeout"@,
        }
    }

    /// The reason as a capture names it.
    pub fn to_text(self) -> (result: String)
        ensures
            result@ == self.text(),
    {
        match self {
            FallbackReason::Unconfigured => "candidate_unconfigured".to_owned(),
            FallbackReason::IdentityMismatch => "candidate_identity_mismatch".to_owned(),
            FallbackReason::Unavailable => "candidate_unavailable".to_owned(),
            FallbackReason::HeaderTimeout => "candidate_header_timeout".to_owned(),
            FallbackReason::Status(status) => joined(
                "candidate_status_",
                decimal_text(status as u64).as_str(),
            ),
            FallbackReason::InvalidHeaders => "candidate_invalid_headers".to_owned(),
            FallbackReason::BodyUnavailable => "candidate_body_unavailable".to_owned(),
            FallbackReason::FirstByteTimeout => "candidate_first_byte_timeout".to_owned(),
        }
    }
}

/// The head of a response, ready for the client and for the capture.
pub struct ResponseHead {
    pub status: u16,
    /// The headers that go to the client.
    pub headers: Vec<Header>,
    /// The headers that a capture keeps.
    pub captured: Vec<TextHeader>,
    /// The announced size of the body.
    pub expected_bytes: Option<usize>,
}

/// The head of a response, as texts.
pub struct HeadView {
    pub status: u16,
    pub headers: Seq<HeaderView>,
    pub captured: Seq<(Seq<char>, Seq<char>)>,
    pub expected_bytes: Option<usize>,
}

impl View for ResponseHead {
    type V = HeadView;

    open spec fn view(&self) -> HeadView {
        HeadView {
            status: self.status,
            headers: header_views(self.headers@),
            captured: text_header_views(self.captured@),
            expected_bytes: self.expected_bytes,
        }
    }
}

/// What an upstream does.
pub enum UpstreamEvent {
    /// The head of its response came.
    Head { status: u16, headers: Vec<Header>, content_length: Option<u64> },
    /// A part of the body came.
    Chunk { empty: bool },
    /// The body ended.
    Ended,
    Failed,
    TimedOut,
}

/// An announced size that can be held, where one was announced.
pub open spec fn held_length(content_length: Option<u64>) -> Option<usize> {
    match content_length {
        Some(length) => if length <= usize::MAX {
            Some(length as usize)
        } else {
            None
        },
        None => None,
    }
}

/// The head of a response that can be passed on.
pub open spec fn head_of(
    status: u16,
    headers: Seq<HeaderView>,
    content_length: Option<u64>,
) -> Option<HeadView> {
    if passing_representable(Direction::Response, headers) {
        Some(
            HeadView {
                status,
                headers: passing(Direction::Response, headers),
                captured: selected(headers, captured_response_names()),
                expected_bytes: held_length(content_length),
            },
        )
    } else {
        None
    }
}

/// The head of a response that can be passed on.
pub fn response_head(status: u16, headers: &[Header], content_length: Option<u64>) -> (result:
    Option<ResponseHead>)
    ensures
        match result {
            Some(head) => head_of(status, header_views(headers@), content_length) == Some(head@),
            None => head_of(status, header_views(headers@), content_length) is None,
        },
{
    let captured = safe_response_headers(headers);
    match downstream_response_headers(headers) {
        Ok(forwarded) => {
            let expected_bytes: Option<usize> = match content_length {
                Some(length) => if length <= usize::MAX as u64 {
                    Some(length as usize)
                } else {
                    None
                },
                None => None,
            };
            Some(ResponseHead { status, headers: forwarded, captured, expected_bytes })
        },
        Err(_) => None,
    }
}

/// A status of the candidate after which the baseline is asked.
pub open spec fn calls_for_retry(status: u16) -> bool {
    status == 429 || 500 <= status < 600
}

/// Whether the baseline is asked after a status of the candidate.
pub fn retry_candidate_status(status: u16) -> (result: bool)
    ensures
        result == calls_for_retry(status),
{
    status == 429 || (500 <= status && status < 600)
}

/// How far an exchange has come with its upstreams.
pub enum Exchange {
    /// The request is to be sent to the candidate.
    Candidate,
    /// The first part of the candidate's body is to be read.
    CandidateBody(ResponseHead),
    /// The request is to be sent to the baseline.
    Baseline(Option<FallbackReason>),
    /// The response is to be passed on.
    Relay { head: ResponseHead, target: Target, fallback: Option<FallbackReason> },
    /// The request is to be answered with an error.
    Refused(GatewayError),
}

/// How far an exchange has come with its upstreams, as texts.
pub enum ExchangeView {
    Candidate,
    CandidateBody(HeadView),
    Baseline(Option<FallbackReason>),
    Relay { head: HeadView, target: Target, fallback: Option<FallbackReason> },
    Refused(GatewayError),
}

impl View for Exchange {
    type V = ExchangeView;

    open spec fn view(&self) -> ExchangeView {
        match self {
            Exchange::Candidate => ExchangeView::Candidate,
            Exchange::CandidateBody(head) => ExchangeView::CandidateBody(head@),
            Exchange::Baseline(fallback) => ExchangeView::Baseline(*fallback),
            Exchange::Relay { head, target, fallback } => ExchangeView::Relay {
                head: head@,
                target: *target,
                fallback: *fallback,
            },
            Exchange::Refused(error) => ExchangeView::Refused(*error),
        }
    }
}

/// The signed choice names the configured candidate: its artifact, and its binding for the
/// protocol.
pub open spec fn names_candidate(
    choice: ChoiceView,
    candidate: CandidateBindingView,
    protocol: Protocol,
) -> bool {
    match candidate.of(protocol) {
        Some(binding) => {
            &&& choice.candidate_artifact_sha256 == Some(candidate.artifact_sha256)
            &&& choice.candidate_binding_sha256 == Some(binding.binding_sha256)
        },
        None => false,
    }
}

impl ExchangeView {
    /// How an exchange begins.
    pub open spec fn first(
        choice: ChoiceView,
        candidate: Option<CandidateBindingView>,
        protocol: Protocol,
    ) -> ExchangeView {
        if choice.target == Target::Baseline {
            ExchangeView::Baseline(None)
        } else {
            match candidate {
                None => ExchangeView::Baseline(Some(FallbackReason::Unconfigured)),
                Some(candidate) => if names_candidate(choice, candidate, protocol) {
                    ExchangeView::Candidate
                } else {
                    ExchangeView::Baseline(Some(FallbackReason::IdentityMismatch))
                },
            }
        }
    }

    /// How an exchange goes on. An event that cannot come where the exchange stands counts as a
    /// failure of the upstream.
    pub open spec fn after(self, event: UpstreamEvent) -> ExchangeView {
        match self {
            ExchangeView::Candidate => match event {
                UpstreamEvent::Head { status, headers, content_length } => if calls_for_retry(
                    status,
                ) {
                    ExchangeView::Baseline(Some(FallbackReason::Status(status)))
                } else {
                    match head_of(status, header_views(headers@), content_length) {
                        Some(head) => ExchangeView::CandidateBody(head),
                        None => ExchangeView::Baseline(Some(FallbackReason::InvalidHeaders)),
                    }
                },
                UpstreamEvent::TimedOut => ExchangeView::Baseline(
                    Some(FallbackReason::HeaderTimeout),
                ),
                _ => ExchangeView::Baseline(Some(FallbackReason::Unavailable)),
            },
            ExchangeView::CandidateBody(head) => match event {
                UpstreamEvent::Chunk { empty } => if empty {
                    self
                } else {
                    ExchangeView::Relay { head, target: Target::CandidateA, fallback: None }
                },
                UpstreamEvent::TimedOut => ExchangeView::Baseline(
                    Some(FallbackReason::FirstByteTimeout),
                ),
                _ => ExchangeView::Baseline(Some(FallbackReason::BodyUnavailable)),
            },
            ExchangeView::Baseline(fallback) => match event {
                UpstreamEvent::Head { status, headers, content_length } => match head_of(
                    status,
                    header_views(headers@),
                    content_length,
                ) {
                    Some(head) => ExchangeView::Relay { head, target: Target::Baseline, fallback },
                    None => ExchangeView::Refused(GatewayError::InvalidUpstreamHeaders),
                },
                _ => ExchangeView::Refused(GatewayError::UpstreamUnavailable),
            },
            _ => self,
        }
    }

    /// How many upstreams can still be asked, and bodies begun.
    pub open spec fn rank(self) -> nat {
        match self {
            ExchangeView::Candidate => 3,
            ExchangeView::CandidateBody(_) => 2,
            ExchangeView::Baseline(_) => 1,
            _ => 0,
        }
    }
}

/// Whether a text is the one that may be absent.
fn is_text(text: &Option<String>, other: &str) -> (result: bool)
    ensures
        result == (optional_text(*text) == Some(other@)),
{
    match text {
        Some(text) => same_text(text.as_str(), other),
        None => false,
    }
}

impl Exchange {
    /// How an exchange begins.
    pub fn begin(
        choice: &RouteChoice,
        candidate: &Option<CandidateBinding>,
        protocol: Protocol,
    ) -> (result: Exchange)
        ensures
            result@ == ExchangeView::first(choice@, candidate_binding_view(*candidate), protocol),
    {
        if choice.target == Target::Baseline {
            return Exchange::Baseline(None);
        }
        match candidate {
            None => Exchange::Baseline(Some(FallbackReason::Unconfigured)),
            Some(candidate) => {
                let named = match candidate.get(protocol) {
                    Some(binding) => is_text(
                        &choice.candidate_artifact_sha256,
                        candidate.artifact_sha256.as_str(),
                    ) && is_text(
                        &choice.candidate_binding_sha256,
                        binding.binding_sha256.as_str(),
                    ),
                    None => false,
                };
                if named {
                    Exchange::Candidate
                } else {
                    Exchange::Baseline(Some(FallbackReason::IdentityMismatch))
                }
            },
        }
    }

    /// How an exchange goes on.
    pub fn next(self, event: UpstreamEvent) -> (result: Exchange)
        ensures
            result@ == self@.after(event),
    {
        match self {
            Exchange::Candidate => match event {
                UpstreamEvent::Head { status, headers, content_length } => {
                    if retry_candidate_status(status) {
                        return Exchange::Baseline(Some(FallbackReason::Status(status)));
                    }
                    match response_head(status, headers.as_slice(), content_length) {
                        Some(head) => Exchange::CandidateBody(head),
                        None => Exchange::Baseline(Some(FallbackReason::InvalidHeaders)),
                    }
                },
                UpstreamEvent::TimedOut => Exchange::Baseline(Some(FallbackReason::HeaderTimeout)),
                _ => Exchange::Baseline(Some(FallbackReason::Unavailable)),
            },
            Exchange::CandidateBody(head) => match event {
                UpstreamEvent::Chunk { empty } => if empty {
                    Exchange::CandidateBody(head)
                } else {
                    Exchange::Relay { head, target: Target::CandidateA, fallback: None }
                },
                UpstreamEvent::TimedOut => Exchange::Baseline(
                    Some(FallbackReason::FirstByteTimeout),
                ),
                _ => Exchange::Baseline(Some(FallbackReason::BodyUnavailable)),
            },
            Exchange::Baseline(fallback) => match event {
                UpstreamEvent::Head { status, headers, content_length } => match response_head(
                    status,
                    headers.as_slice(),
                    content_length,
                ) {
                    Some(head) => Exchange::Relay { head, target: Target::Baseline, fallback },
                    None => Exchange::Refused(GatewayError::InvalidUpstreamHeaders),
                },
                _ => Exchange::Refused(GatewayError::UpstreamUnavailable),
            },
            ended => ended,
        }
    }
}

/// The providers that the gateway forwards to.
pub struct Providers {
    /// The default provider of each protocol.
    pub defaults: ProtocolBindings,
    /// The providers that mechanics scopes have of their own.
    pub mechanics: Vec<MechanicsUpstream>,
    pub candidate: Option<CandidateBinding>,
}

impl Providers {
    /// The provider that an exchange is to ask where it stands, if any.
    pub open spec fn asked(
        self,
        exchange: ExchangeView,
        binding: KeyBinding,
        protocol: Protocol,
    ) -> Option<UpstreamView> {
        match exchange {
            ExchangeView::Candidate => match candidate_binding_view(self.candidate) {
                Some(candidate) => match candidate.of(protocol) {
                    Some(found) => Some(found.upstream),
                    None => None,
                },
                None => None,
            },
            ExchangeView::Baseline(_) => Some(
                baseline_of(
                    self.defaults,
                    mechanics_views(self.mechanics@),
                    binding.scope_id,
                    binding.profile,
                    protocol,
                ),
            ),
            _ => None,
        }
    }

    /// The provider that an exchange is to ask where it stands, if any.
    pub fn upstream_for(
        &self,
        exchange: &Exchange,
        binding: &KeyBinding,
        protocol: Protocol,
    ) -> (result: Option<&UpstreamBinding>)
        ensures
            match result {
                Some(upstream) => self.asked(exchange@, *binding, protocol) == Some(upstream@),
                None => self.asked(exchange@, *binding, protocol) is None,
            },
    {
        match exchange {
            Exchange::Candidate => match &self.candidate {
                Some(candidate) => match candidate.get(protocol) {
                    Some(found) => Some(&found.upstream),
                    None => None,
                },
                None => None,
            },
            Exchange::Baseline(_) => Some(
                baseline_upstream(
                    &self.defaults,
                    self.mechanics.as_slice(),
                    binding.scope_id,
                    binding.profile,
                    protocol,
                ),
            ),
            _ => None,
        }
    }
}

/// What is known of an exchange before its response.
pub struct ExchangeContext {
    pub binding: KeyBinding,
    pub protocol: Protocol,
    pub trajectory_id: Option<Uuid>,
    pub exchange_id: Uuid,
    /// The moment the exchange started, where that has a canonical text.
    pub started_at: Option<String>,
    pub streaming: bool,
    pub method: String,
    pub path: String,
    pub request_headers: Vec<TextHeader>,
}

/// An exchange that is ready to be sent to its upstreams.
pub struct Prepared {
    pub context: ExchangeContext,
    /// The headers that go to the provider.
    pub forwarded_headers: Vec<Header>,
    pub choice: RouteChoice,
    pub exchange: Exchange,
    /// The body of the request, as it came.
    pub request: Vec<u8>,
}

/// What is known of an admitted exchange before its response.
pub open spec fn context_of(
    admission: Admission,
    exchange_id: Uuid,
    started_at: Option<String>,
    method: String,
    path: String,
    streaming: bool,
) -> ExchangeContext {
    ExchangeContext {
        binding: admission.binding,
        protocol: admission.protocol,
        trajectory_id: admission.trajectory_id,
        exchange_id,
        started_at,
        streaming,
        method,
        path,
        request_headers: admission.request_headers,
    }
}

/// Prepares an admitted request whose body was read, given whether it asks for a stream.
pub fn prepare_with(
    admission: Admission,
    choice: RouteChoice,
    providers: &Providers,
    exchange_id: Uuid,
    started_at: Option<String>,
    method: String,
    path: String,
    request: Vec<u8>,
    streaming: bool,
) -> (result: Prepared)
    ensures
        result.context == context_of(admission, exchange_id, started_at, method, path, streaming),
        result.context == (ExchangeContext {
            binding: admission.binding,
            protocol: admission.protocol,
            trajectory_id: admission.trajectory_id,
            exchange_id,
            started_at,
            streaming,
            method,
            path,
            request_headers: admission.request_headers,
        }),
        result.forwarded_headers == admission.forwarded_headers,
        result.choice == choice,
        result.exchange@ == ExchangeView::first(
            choice@,
            candidate_binding_view(providers.candidate),
            admission.protocol,
        ),
        result.request == request,
{
    let exchange = Exchange::begin(&choice, &providers.candidate, admission.protocol);
    Prepared {
        context: ExchangeContext {
            binding: admission.binding,
            protocol: admission.protocol,
            trajectory_id: admission.trajectory_id,
            exchange_id,
            started_at,
            streaming,
            method,
            path,
            request_headers: admission.request_headers,
        },
        forwarded_headers: admission.forwarded_headers,
        choice,
        exchange,
        request,
    }
}

/// Prepares an admitted request whose body was read.
pub fn prepare(
    admission: Admission,
    choice: RouteChoice,
    providers: &Providers,
    exchange_id: Uuid,
    started_at: Option<String>,
    method: String,
    path: String,
    request: Vec<u8>,
) -> (result: Prepared)
    ensures
        result.context == context_of(
            admission,
            exchange_id,
            started_at,
            method,
            path,
            wants_stream(request@),
        ),
        result.context == (ExchangeContext {
            binding: admission.binding,
            protocol: admission.protocol,
            trajectory_id: admission.trajectory_id,
            exchange_id,
            started_at,
            streaming: json_flag_of(request@, "stream"@) == Some(true),
            method,
            path,
            request_headers: admission.request_headers,
        }),
        result.forwarded_headers == admission.forwarded_headers,
        result.choice == choice,
        result.exchange@ == ExchangeView::first(
            choice@,
            candidate_binding_view(providers.candidate),
            admission.protocol,
        ),
        result.request == request,
{
    let streaming = is_streaming(request.as_slice());
    prepare_with(
        admission,
        choice,
        providers,
        exchange_id,
        started_at,
        method,
        path,
        request,
        streaming,
    )
}

/// What a capture knows of an exchange once its response has begun.
pub open spec fn seed_of(
    context: ExchangeContext,
    started_at: Seq<char>,
    choice: ChoiceView,
    head: HeadView,
    target: Target,
    fallback: Option<FallbackReason>,
    request: Seq<u8>,
) -> SeedView {
    SeedView {
        scope_id: context.binding.scope_id,
        profile: context.binding.profile,
        trajectory_id: context.trajectory_id,
        exchange_id: context.exchange_id,
        started_at,
        endpoint: context.protocol,
        streaming: context.streaming,
        request_method: context.method@,
        request_path: context.path@,
        request_headers: text_header_views(context.request_headers@),
        request,
        response_status: head.status,
        response_headers: head.captured,
        route_id: choice.route_id,
        route_target: target,
        candidate_artifact_sha256: choice.candidate_artifact_sha256,
        candidate_binding_sha256: choice.candidate_binding_sha256,
        fallback_reason: match fallback {
            Some(reason) => Some(reason.text()),
            None => None,
        },
    }
}

/// A response that is being passed on.
pub struct Relayed {
    pub status: u16,
    pub headers: Vec<Header>,
    pub recorder: ResponseRecorder,
    /// What is counted as it begins.
    pub tally: Option<Tally>,
}

/// A response that is being passed on.
pub struct RelayedView {
    pub status: u16,
    pub headers: Seq<HeaderView>,
    pub recorder: RecorderView,
    pub tally: Option<Tally>,
}

impl View for Relayed {
    type V = RelayedView;

    open spec fn view(&self) -> RelayedView {
        RelayedView {
            status: self.status,
            headers: header_views(self.headers@),
            recorder: self.recorder@,
            tally: self.tally,
        }
    }
}

/// What a recorder needs of the gateway.
pub struct Recording {
    pub capture_tx: tokio::sync::mpsc::Sender<CaptureJob>,
    pub capture_memory: Arc<tokio::sync::Semaphore>,
    pub started: std::time::Instant,
    pub max_response_bytes: usize,
}

/// What a recorder needs of the gateway.
pub struct RecordingView {
    pub channel: int,
    pub offers: Seq<Offer>,
    pub semaphore: int,
    pub requests: Seq<MemoryRequest>,
    pub started: std::time::Instant,
    pub max_response_bytes: usize,
}

impl View for Recording {
    type V = RecordingView;

    open spec fn view(&self) -> RecordingView {
        RecordingView {
            channel: channel_of(self.capture_tx),
            offers: offers_through(self.capture_tx),
            semaphore: semaphore_of(self.capture_memory),
            requests: requests_through(self.capture_memory),
            started: self.started,
            max_response_bytes: self.max_response_bytes,
        }
    }
}

impl RecordingView {
    /// Once the capture memory was asked for a request. It is not asked for one that is too large
    /// to count.
    pub open spec fn asked(self, request: Seq<u8>, granted: bool) -> RecordingView {
        if request.len() <= u32::MAX {
            RecordingView {
                requests: self.requests.push(MemoryRequest { count: request.len(), granted }),
                ..self
            }
        } else {
            self
        }
    }
}

/// An exchange is captured where memory for its request was granted and its start has a canonical
/// text.
pub open spec fn is_captured(context: ExchangeContext, request: Seq<u8>, granted: bool) -> bool {
    granted && request.len() <= u32::MAX && context.started_at is Some
}

/// What is counted as a response begins.
pub open spec fn relay_tally(context: ExchangeContext, request: Seq<u8>, granted: bool) -> Option<
    Tally,
> {
    if is_captured(context, request, granted) || request.len() > u32::MAX {
        None
    } else {
        Some(Tally::Dropped)
    }
}

/// The recorder as a response begins, at a time since the start and with or without memory for the
/// request.
pub open spec fn first_recorder(
    context: ExchangeContext,
    choice: ChoiceView,
    head: HeadView,
    target: Target,
    fallback: Option<FallbackReason>,
    request: Seq<u8>,
    recording: RecordingView,
    granted: bool,
    elapsed: u128,
) -> RecorderView {
    let captured = is_captured(context, request, granted);
    RecorderView {
        seed: if captured {
            Some(
                seed_of(
                    context,
                    context.started_at->Some_0@,
                    choice,
                    head,
                    target,
                    fallback,
                    request,
                ),
            )
        } else {
            None
        },
        response: Seq::empty(),
        reserved: if captured {
            request.len()
        } else {
            0
        },
        channel: recording.channel,
        offers: recording.offers,
        semaphore: recording.semaphore,
        requests: recording.requests,
        started: recording.started,
        first_byte: if target == Target::CandidateA {
            Some(elapsed)
        } else {
            None
        },
        max_response_bytes: recording.max_response_bytes,
        exchange_id: context.exchange_id,
        expected_response_bytes: head.expected_bytes,
        observed_response_bytes: 0,
        seen: false,
        tail: Seq::empty(),
        finished: false,
    }
}

/// A response as it begins to be passed on, at a time since the start and with or without memory
/// for the request.
pub open spec fn relayed(
    context: ExchangeContext,
    choice: ChoiceView,
    head: HeadView,
    target: Target,
    fallback: Option<FallbackReason>,
    request: Seq<u8>,
    recording: RecordingView,
    granted: bool,
    elapsed: u128,
) -> RelayedView {
    RelayedView {
        status: head.status,
        headers: head.headers,
        recorder: first_recorder(
            context,
            choice,
            head,
            target,
            fallback,
            request,
            recording,
            granted,
            elapsed,
        ),
        tally: relay_tally(context, request, granted),
    }
}

/// Begins to pass a response on, with the memory that was granted for its request, at a time since
/// the start.
pub fn relay_with(
    context: ExchangeContext,
    choice: RouteChoice,
    head: ResponseHead,
    target: Target,
    fallback: Option<FallbackReason>,
    request: Vec<u8>,
    recording: Recording,
    share: Option<MemoryPermit>,
    elapsed: u128,
) -> (result: Relayed)
    requires
        recording.max_response_bytes <= LARGEST_MAX_RESPONSE_BYTES,
        share matches Some(share) ==> share.bytes == request@.len() && request@.len() <= u32::MAX,
    ensures
        result.recorder@.well_formed(),
        result@ == relayed(
            context,
            choice@,
            head@,
            target,
            fallback,
            request@,
            recording@,
            share is Some,
            elapsed,
        ),
{
    let exchange_id = context.exchange_id;
    let countable = request.len() <= u32::MAX as usize;
    let fallback_reason = match fallback {
        Some(reason) => Some(reason.to_text()),
        None => None,
    };
    let seed = match (share, context.started_at) {
        (Some(share), Some(started_at)) => Some(
            (
                CaptureSeed {
                    scope_id: context.binding.scope_id,
                    profile: context.binding.profile,
                    trajectory_id: context.trajectory_id,
                    exchange_id,
                    started_at,
                    endpoint: context.protocol,
                    streaming: context.streaming,
                    request_method: context.method,
                    request_path: context.path,
                    request_headers: context.request_headers,
                    request,
                    response_status: head.status,
                    response_headers: head.captured,
                    route_id: choice.route_id,
                    route_target: target,
                    candidate_artifact_sha256: choice.candidate_artifact_sha256,
                    candidate_binding_sha256: choice.candidate_binding_sha256,
                    fallback_reason,
                },
                share,
            ),
        ),
        _ => None,
    };
    let tally = if seed.is_none() && countable {
        Some(Tally::Dropped)
    } else {
        None
    };
    let first_byte: Option<u128> = if target == Target::CandidateA {
        Some(elapsed)
    } else {
        None
    };
    let recorder = ResponseRecorder::new(
        seed,
        recording.capture_tx,
        recording.capture_memory,
        recording.started,
        first_byte,
        recording.max_response_bytes,
        exchange_id,
        head.expected_bytes,
    );
    Relayed { status: head.status, headers: head.headers, recorder, tally }
}

/// Begins to pass a response on.
pub fn relay(
    context: ExchangeContext,
    choice: RouteChoice,
    head: ResponseHead,
    target: Target,
    fallback: Option<FallbackReason>,
    request: Vec<u8>,
    recording: Recording,
) -> (result: Relayed)
    requires
        recording.max_response_bytes <= LARGEST_MAX_RESPONSE_BYTES,
        request@.len() <= usize::MAX / 8,
    ensures
        result.status == head.status,
        header_views(result.headers@) == head@.headers,
        result.recorder@.well_formed(),
        exists|granted: bool, elapsed: u128|
            result@ == #[trigger] relayed(
                context,
                choice@,
                head@,
                target,
                fallback,
                request@,
                recording@.asked(request@, granted),
                granted,
                elapsed,
            ),
{
    let elapsed: u128 = nanos_since(&recording.started);
    let ghost before = recording@;
    let mut recording = recording;
    let share = if request.len() <= u32::MAX as usize {
        try_acquire(&mut recording.capture_memory, request.len() as u32)
    } else {
        None
    };
    assert(recording@ == before.asked(request@, share is Some));
    relay_with(context, choice, head, target, fallback, request, recording, share, elapsed)
}

/// What is counted once a capture was written, or could not be.
pub open spec fn writing_counted(written: bool) -> Tally {
    if written {
        Tally::Persisted
    } else {
        Tally::StorageFailed
    }
}

/// What is counted once a capture was written, or could not be.
pub fn write_tally(written: bool) -> (result: Tally)
    ensures
        result == writing_counted(written),
        result == if written {
            Tally::Persisted
        } else {
            Tally::StorageFailed
        },
{
    if written {
        Tally::Persisted
    } else {
        Tally::StorageFailed
    }
}

/// A capture that fails never alters how a response begins: with the same head, the response is
/// passed on with the same status and the same headers, and is followed alike, whatever the request,
/// the channel and the capture memory, and whether memory was granted.
pub proof fn law_a_failed_capture_never_alters_a_head(
    context: ExchangeContext,
    choice: ChoiceView,
    head: HeadView,
    target: Target,
    fallback: Option<FallbackReason>,
    request_a: Seq<u8>,
    request_b: Seq<u8>,
    recording_a: RecordingView,
    recording_b: RecordingView,
    granted_a: bool,
    granted_b: bool,
    elapsed: u128,
)
    ensures
        ({
            let a = relayed(
                context,
                choice,
                head,
                target,
                fallback,
                request_a,
                recording_a,
                granted_a,
                elapsed,
            );
            let b = relayed(
                context,
                choice,
                head,
                target,
                fallback,
                request_b,
                recording_b,
                granted_b,
                elapsed,
            );
            &&& a.status == b.status
            &&& a.headers == b.headers
            &&& agree_but_for_capture(a.recorder, b.recorder)
        }),
{
}

/// A request without a valid key is answered as unauthorized whatever else it holds, goes nowhere,
/// and is not counted.
pub proof fn law_strangers_are_turned_away(
    headers: Seq<HeaderView>,
    keys: Seq<OperatorKey>,
    path: Seq<char>,
)
    requires
        authenticated(headers, keys) is None,
    ensures
        admission_outcome(headers, keys, path) == Err::<AdmissionView, GatewayError>(
            GatewayError::Unauthorized,
        ),
        arrival_tally(headers, keys) is None,
{
}

/// Every event brings an exchange on towards its end, but for an empty part of the candidate's body.
pub proof fn law_every_event_brings_an_exchange_on(exchange: ExchangeView, event: UpstreamEvent)
    ensures
        exchange.rank() == 0 ==> exchange.after(event) == exchange,
        exchange.rank() > 0 ==> {
            ||| exchange.after(event).rank() < exchange.rank()
            ||| {
                &&& exchange is CandidateBody
                &&& event matches UpstreamEvent::Chunk { empty }
                &&& empty
                &&& exchange.after(event) == exchange
            }
        },
{
}

/// The course of an exchange: its states, each but the first reached by an event.
pub open spec fn is_course(states: Seq<ExchangeView>, events: Seq<UpstreamEvent>) -> bool {
    &&& states.len() == events.len() + 1
    &&& forall|i: int|
        0 <= i < events.len() ==> states[i + 1] == states[i].after(#[trigger] events[i])
}

/// The course of an exchange follows from its beginning and its events.
proof fn lemma_courses_agree(
    a: Seq<ExchangeView>,
    b: Seq<ExchangeView>,
    events: Seq<UpstreamEvent>,
    i: int,
)
    requires
        is_course(a, events),
        is_course(b, events),
        a[0] == b[0],
        0 <= i < a.len(),
    ensures
        a[i] == b[i],
    decreases i,
{
    if i > 0 {
        lemma_courses_agree(a, b, events, i - 1);
        assert(a[i - 1 + 1] == a[i - 1].after(events[i - 1]));
        assert(b[i - 1 + 1] == b[i - 1].after(events[i - 1]));
    }
}

/// How a request was answered: the course of the exchange, the response as it began to be passed on
/// where one was, the states of its recorder, and what was counted and passed on at each event.
pub struct Execution {
    pub course: Seq<ExchangeView>,
    pub relayed: RelayedView,
    pub recorders: Seq<RecorderView>,
    pub counted: Seq<Seq<Tally>>,
    pub passed: Seq<PassedView>,
}

impl Execution {
    /// A request was answered so, given how its exchange began, what the upstreams answered, and
    /// the events of the response's body. Which channel and which memory there is for captures,
    /// what the clocks read, whether memory is granted, and whether the channel takes the exchange
    /// are left open.
    pub open spec fn answers(
        self,
        context: ExchangeContext,
        choice: ChoiceView,
        request: Seq<u8>,
        first: ExchangeView,
        answers: Seq<UpstreamEvent>,
        events: Seq<BodyEvent>,
    ) -> bool {
        &&& is_course(self.course, answers)
        &&& self.course[0] == first
        &&& self.course.last() matches ExchangeView::Relay { head, target, fallback } ==> {
            &&& exists|recording: RecordingView, granted: bool, elapsed: u128|
                self.relayed == #[trigger] relayed(
                    context,
                    choice,
                    head,
                    target,
                    fallback,
                    request,
                    recording,
                    granted,
                    elapsed,
                )
            &&& is_passage(self.recorders, events, self.counted, self.passed)
            &&& self.recorders[0] == self.relayed.recorder
        }
    }
}

/// A capture that fails never fails or alters a response. Where two exchanges begin alike, and the
/// upstreams answer them alike, both are refused for the same reason, or both are answered with the
/// same status, the same headers and the same body, which is what the upstream gave, byte for byte.
/// It makes no difference what is known for the capture, which memory and which channel there are,
/// what the clocks read, whether memory is granted, and whether the channel takes the exchange.
pub proof fn law_a_failed_capture_never_alters_a_response(
    a: Execution,
    b: Execution,
    context_a: ExchangeContext,
    context_b: ExchangeContext,
    choice: ChoiceView,
    request: Seq<u8>,
    first: ExchangeView,
    answers: Seq<UpstreamEvent>,
    events: Seq<BodyEvent>,
)
    requires
        a.answers(context_a, choice, request, first, answers, events),
        b.answers(context_b, choice, request, first, answers, events),
    ensures
        a.course == b.course,
        a.course.last() is Relay ==> {
            &&& a.relayed.status == b.relayed.status
            &&& a.relayed.headers == b.relayed.headers
            &&& a.passed == b.passed
            &&& body_of(a.passed) == given_by(events)
            &&& body_of(b.passed) == given_by(events)
        },
{
    assert forall|i: int| 0 <= i < a.course.len() implies a.course[i] == b.course[i] by {
        lemma_courses_agree(a.course, b.course, answers, i);
    }
    assert(a.course =~= b.course);
    if a.course.last() is Relay {
        law_a_body_is_what_the_upstream_gave(a.recorders, events, a.counted, a.passed);
        law_a_body_is_what_the_upstream_gave(b.recorders, events, b.counted, b.passed);
    }
}

/// Along the course of an exchange the rank never rises, and falls after every request.
proof fn lemma_rank_falls(states: Seq<ExchangeView>, events: Seq<UpstreamEvent>, i: int, j: int)
    requires
        is_course(states, events),
        0 <= i < j < states.len(),
    ensures
        states[j].rank() <= states[i].rank(),
        states[i] is Candidate || states[i] is Baseline ==> states[j].rank() < states[i].rank(),
    decreases j - i,
{
    law_every_event_brings_an_exchange_on(states[j - 1], events[j - 1]);
    assert(states[j - 1 + 1] == states[j - 1].after(events[j - 1]));
    if i < j - 1 {
        lemma_rank_falls(states, events, i, j - 1);
    }
}

/// In the whole course of an exchange the candidate is asked at most once and the baseline at most
/// once, the candidate never after the baseline.
pub proof fn law_each_upstream_is_asked_at_most_once(
    states: Seq<ExchangeView>,
    events: Seq<UpstreamEvent>,
    i: int,
    j: int,
)
    requires
        is_course(states, events),
        0 <= i < j < states.len(),
    ensures
        !(states[i] is Candidate && states[j] is Candidate),
        !(states[i] is Baseline && states[j] is Baseline),
        !(states[i] is Baseline && states[j] is Candidate),
{
    lemma_rank_falls(states, events, i, j);
}

/// A failure of the candidate never fails the request: whatever the candidate does, the exchange
/// goes on with it or with the baseline.
pub proof fn law_the_candidate_never_fails_a_request(exchange: ExchangeView, event: UpstreamEvent)
    requires
        exchange is Candidate || exchange is CandidateBody,
    ensures
        exchange.after(event) !is Refused,
        exchange.after(event) matches ExchangeView::Baseline(fallback) ==> fallback is Some,
        exchange.after(event) matches ExchangeView::Relay { target, fallback, .. } ==> target
            == Target::CandidateA && fallback is None,
{
}

/// A response of the baseline is passed on with the reason for which the candidate was passed over,
/// and without one where the exchange was never the candidate's.
pub proof fn law_fallbacks_are_remembered(
    choice: ChoiceView,
    candidate: Option<CandidateBindingView>,
    protocol: Protocol,
    fallback: Option<FallbackReason>,
    event: UpstreamEvent,
)
    ensures
        ExchangeView::first(choice, candidate, protocol) matches ExchangeView::Baseline(reason) ==> (
        reason is None <==> choice.target == Target::Baseline),
        ExchangeView::Baseline(fallback).after(event) matches ExchangeView::Relay {
            target,
            fallback: passed,
            ..
        } ==> target == Target::Baseline && passed == fallback,
{
}

/// The candidate is asked only where the signed choice names it, artifact and binding.
pub proof fn law_only_the_signed_candidate_is_asked(
    choice: ChoiceView,
    candidate: Option<CandidateBindingView>,
    protocol: Protocol,
)
    requires
        ExchangeView::first(choice, candidate, protocol) is Candidate,
    ensures
        choice.target == Target::CandidateA,
        candidate matches Some(configured) && names_candidate(choice, configured, protocol),
{
}

/// An exchange that is to ask an upstream always has one to ask: the candidate that the signed
/// choice names, or the baseline of its scope.
pub proof fn law_there_is_always_an_upstream_to_ask(
    providers: Providers,
    choice: ChoiceView,
    binding: KeyBinding,
    protocol: Protocol,
    fallback: Option<FallbackReason>,
)
    ensures
        ({
            let candidate = candidate_binding_view(providers.candidate);
            let first = ExchangeView::first(choice, candidate, protocol);
            &&& providers.asked(first, binding, protocol) is Some
            &&& providers.asked(ExchangeView::Baseline(fallback), binding, protocol) is Some
        }),
{
}

/// The candidate's answer is passed on only where it can be kept: after the status 429 and after
/// every status from 500 to 599 the baseline is asked, and the capture names that status; after any
/// other status whose headers can be passed on the candidate's body is read.
pub proof fn law_after_which_statuses_the_baseline_is_asked(
    status: u16,
    headers: Vec<Header>,
    content_length: Option<u64>,
)
    ensures
        ({
            let next = ExchangeView::Candidate.after(
                UpstreamEvent::Head { status, headers, content_length },
            );
            &&& status == 429 || 500 <= status <= 599 ==> next == ExchangeView::Baseline(
                Some(FallbackReason::Status(status)),
            )
            &&& status != 429 && !(500 <= status <= 599) && passing_representable(
                Direction::Response,
                header_views(headers@),
            ) ==> (next matches ExchangeView::CandidateBody(head) && head.status == status)
            &&& status != 429 && !(500 <= status <= 599) && !passing_representable(
                Direction::Response,
                header_views(headers@),
            ) ==> next == ExchangeView::Baseline(Some(FallbackReason::InvalidHeaders))
        }),
{
}

/// No error of the candidate reaches the client: in the course of any exchange, a response that is
/// passed on as the candidate's has a status that is neither 429 nor one from 500 to 599.
pub proof fn law_no_error_of_the_candidate_reaches_the_client(
    states: Seq<ExchangeView>,
    events: Seq<UpstreamEvent>,
    i: int,
)
    requires
        is_course(states, events),
        0 <= i < states.len(),
        states[0] is Candidate || states[0] is Baseline,
    ensures
        states[i] matches ExchangeView::CandidateBody(head) ==> head.status != 429 && !(500
            <= head.status <= 599),
        states[i] matches ExchangeView::Relay { head, target, .. } ==> target == Target::Baseline
            || head.status != 429 && !(500 <= head.status <= 599),
    decreases i,
{
    if i > 0 {
        law_no_error_of_the_candidate_reaches_the_client(states, events, i - 1);
        assert(states[i - 1 + 1] == states[i - 1].after(events[i - 1]));
    }
}

/// Every failure of the candidate has the name by which captures tell of it.
pub proof fn law_failures_of_the_candidate_are_named(head: HeadView, status: u16)
    ensures
        ExchangeView::Candidate.after(UpstreamEvent::TimedOut) matches ExchangeView::Baseline(
            Some(reason),
        ) && reason.text() == "candidate_header_timeout"@,
        ExchangeView::Candidate.after(UpstreamEvent::Failed) matches ExchangeView::Baseline(
            Some(reason),
        ) && reason.text() == "candidate_unavailable"@,
        ExchangeView::CandidateBody(head).after(
            UpstreamEvent::TimedOut,
        ) matches ExchangeView::Baseline(Some(reason)) && reason.text()
            == "candidate_first_byte_timeout"@,
        ExchangeView::CandidateBody(head).after(UpstreamEvent::Failed) matches ExchangeView::Baseline(
            Some(reason),
        ) && reason.text() == "candidate_body_unavailable"@,
        ExchangeView::CandidateBody(head).after(UpstreamEvent::Ended) matches ExchangeView::Baseline(
            Some(reason),
        ) && reason.text() == "candidate_body_unavailable"@,
        FallbackReason::InvalidHeaders.text() == "candidate_invalid_headers"@,
        FallbackReason::Unconfigured.text() == "candidate_unconfigured"@,
        FallbackReason::IdentityMismatch.text() == "candidate_identity_mismatch"@,
        begins_with(FallbackReason::Status(status).text(), "candidate_status_"@),
        parsed_decimal(FallbackReason::Status(status).text().skip(17)) == Some(status as nat),
{
    reveal_strlit("candidate_status_");
    let text = FallbackReason::Status(status).text();
    assert(text.skip(17) =~= decimal(status as nat));
    assert(text.take(17) =~= "candidate_status_"@);
    law_decimal_reads_back(status as nat);
}

/// The candidate's body begins with its first part that is not empty: until then the exchange waits,
/// and then its head is passed on as the candidate's, without a reason to have fallen back.
pub proof fn law_the_candidate_is_passed_on_from_its_first_byte(head: HeadView)
    ensures
        ExchangeView::CandidateBody(head).after(UpstreamEvent::Chunk { empty: true })
            == ExchangeView::CandidateBody(head),
        ExchangeView::CandidateBody(head).after(UpstreamEvent::Chunk { empty: false }) == (
        ExchangeView::Relay { head, target: Target::CandidateA, fallback: None }),
{
}

/// The baseline's answer is passed on whatever its status, and where it fails, or its headers cannot
/// be passed on, the request is refused as one that no upstream answered.
pub proof fn law_the_baseline_is_passed_on(
    fallback: Option<FallbackReason>,
    status: u16,
    headers: Vec<Header>,
    content_length: Option<u64>,
)
    ensures
        passing_representable(Direction::Response, header_views(headers@)) ==> {
            &&& ExchangeView::Baseline(fallback).after(
                UpstreamEvent::Head { status, headers, content_length },
            ) matches ExchangeView::Relay { head, target, fallback: passed }
            &&& head.status == status
            &&& head.headers == passing(Direction::Response, header_views(headers@))
            &&& target == Target::Baseline
            &&& passed == fallback
        },
        !passing_representable(Direction::Response, header_views(headers@))
            ==> ExchangeView::Baseline(fallback).after(
            UpstreamEvent::Head { status, headers, content_length },
        ) == ExchangeView::Refused(GatewayError::InvalidUpstreamHeaders),
        ExchangeView::Baseline(fallback).after(UpstreamEvent::Failed) == ExchangeView::Refused(
            GatewayError::UpstreamUnavailable,
        ),
        ExchangeView::Baseline(fallback).after(UpstreamEvent::TimedOut) == ExchangeView::Refused(
            GatewayError::UpstreamUnavailable,
        ),
{
}

/// The head of a response holds what the upstream gave: its status, its headers that may pass, those
/// that captures keep, and the size that it announced, where that can be held.
pub proof fn law_a_head_holds_what_the_upstream_gave(
    status: u16,
    headers: Seq<HeaderView>,
    content_length: Option<u64>,
)
    requires
        head_of(status, headers, content_length) is Some,
    ensures
        ({
            let head = head_of(status, headers, content_length)->Some_0;
            &&& head.status == status
            &&& head.headers == passing(Direction::Response, headers)
            &&& head.captured == selected(headers, captured_response_names())
            &&& content_length is None ==> head.expected_bytes is None
            &&& content_length is Some && content_length->Some_0 <= usize::MAX ==> (
            head.expected_bytes matches Some(expected) && expected == content_length->Some_0)
            &&& content_length is Some && content_length->Some_0 > usize::MAX
                ==> head.expected_bytes is None
        }),
{
}

/// How an exchange begins: at the baseline where the choice says so, and without a reason; at the
/// candidate where the choice says so and its artifact and its binding for the protocol are those
/// that are configured; and else at the baseline, with the reason.
pub proof fn law_how_an_exchange_begins(
    choice: ChoiceView,
    candidate: CandidateBindingView,
    configured: CandidateProtocolView,
)
    ensures
        choice.target == Target::Baseline ==> ExchangeView::first(
            choice,
            Some(candidate),
            Protocol::ChatCompletions,
        ) == ExchangeView::Baseline(None) && ExchangeView::first(
            choice,
            None,
            Protocol::Responses,
        ) == ExchangeView::Baseline(None),
        choice.target == Target::CandidateA ==> ExchangeView::first(
            choice,
            None,
            Protocol::ChatCompletions,
        ) == ExchangeView::Baseline(Some(FallbackReason::Unconfigured)) && ExchangeView::first(
            choice,
            None,
            Protocol::Responses,
        ) == ExchangeView::Baseline(Some(FallbackReason::Unconfigured)),
        choice.target == Target::CandidateA && candidate.chat_completions == Some(configured)
            ==> ExchangeView::first(choice, Some(candidate), Protocol::ChatCompletions) == if (
        choice.candidate_artifact_sha256 == Some(candidate.artifact_sha256)
            && choice.candidate_binding_sha256 == Some(configured.binding_sha256)) {
            ExchangeView::Candidate
        } else {
            ExchangeView::Baseline(Some(FallbackReason::IdentityMismatch))
        },
        choice.target == Target::CandidateA && candidate.responses == Some(configured)
            ==> ExchangeView::first(choice, Some(candidate), Protocol::Responses) == if (
        choice.candidate_artifact_sha256 == Some(candidate.artifact_sha256)
            && choice.candidate_binding_sha256 == Some(configured.binding_sha256)) {
            ExchangeView::Candidate
        } else {
            ExchangeView::Baseline(Some(FallbackReason::IdentityMismatch))
        },
        choice.target == Target::CandidateA && candidate.chat_completions is None
            ==> ExchangeView::first(choice, Some(candidate), Protocol::ChatCompletions)
            == ExchangeView::Baseline(Some(FallbackReason::IdentityMismatch)),
        choice.target == Target::CandidateA && candidate.responses is None ==> ExchangeView::first(
            choice,
            Some(candidate),
            Protocol::Responses,
        ) == ExchangeView::Baseline(Some(FallbackReason::IdentityMismatch)),
{
}

/// Whom an exchange asks: the candidate's provider of its protocol, or the baseline's.
pub proof fn law_whom_an_exchange_asks(
    providers: Providers,
    binding: KeyBinding,
    fallback: Option<FallbackReason>,
    candidate: CandidateBinding,
)
    requires
        providers.candidate == Some(candidate),
    ensures
        candidate.chat_completions matches Some(provider) ==> providers.asked(
            ExchangeView::Candidate,
            binding,
            Protocol::ChatCompletions,
        ) == Some(provider.upstream@),
        candidate.responses matches Some(provider) ==> providers.asked(
            ExchangeView::Candidate,
            binding,
            Protocol::Responses,
        ) == Some(provider.upstream@),
        binding.profile == Profile::Production ==> providers.asked(
            ExchangeView::Baseline(fallback),
            binding,
            Protocol::ChatCompletions,
        ) == Some(providers.defaults.chat_completions@),
        binding.profile == Profile::Production ==> providers.asked(
            ExchangeView::Baseline(fallback),
            binding,
            Protocol::Responses,
        ) == Some(providers.defaults.responses@),
{
}

/// Which requests are admitted: exactly those with a valid key, for one of the two paths, with a
/// trajectory that is well named and headers that can be sent on; each other request is refused for
/// the first of these that it lacks.
pub proof fn law_which_requests_are_admitted(
    headers: Seq<HeaderView>,
    keys: Seq<OperatorKey>,
    path: Seq<char>,
)
    ensures
        admission_outcome(headers, keys, path) is Ok <==> {
            &&& authenticated(headers, keys) is Some
            &&& path == "/v1/chat/completions"@ || path == "/v1/responses"@
            &&& trajectory_of(headers) is Ok
            &&& passing_representable(Direction::Request, headers)
        },
        authenticated(headers, keys) is None ==> admission_outcome(headers, keys, path) == Err::<
            AdmissionView,
            GatewayError,
        >(GatewayError::Unauthorized),
        authenticated(headers, keys) is Some && path != "/v1/chat/completions"@ && path
            != "/v1/responses"@ ==> admission_outcome(headers, keys, path) == Err::<
            AdmissionView,
            GatewayError,
        >(GatewayError::UnsupportedEndpoint),
        authenticated(headers, keys) is Some && (path == "/v1/chat/completions"@ || path
            == "/v1/responses"@) && (trajectory_of(headers) is Err || !passing_representable(
            Direction::Request,
            headers,
        )) ==> admission_outcome(headers, keys, path) == Err::<AdmissionView, GatewayError>(
            GatewayError::InvalidHeaders,
        ),
        arrival_tally(headers, keys) == if authenticated(headers, keys) is Some {
            Some(Tally::Observed)
        } else {
            None
        },
{
}

/// An admitted request is that of its key, for the API of its path, in the trajectory that its
/// headers name; its headers go on as those that pass, and uncompressed responses are asked for.
pub proof fn law_what_an_admitted_request_is(
    headers: Seq<HeaderView>,
    keys: Seq<OperatorKey>,
    path: Seq<char>,
    admission: AdmissionView,
)
    requires
        admission_outcome(headers, keys, path) == Ok::<AdmissionView, GatewayError>(admission),
    ensures
        authenticated(headers, keys) matches Some(key) && admission.binding.scope_id
            == key.binding.scope_id && admission.binding.profile == key.binding.profile
            && admission.binding.route_revision == key.binding.route_revision,
        path == "/v1/chat/completions"@ ==> admission.protocol == Protocol::ChatCompletions,
        path == "/v1/responses"@ ==> admission.protocol == Protocol::Responses,
        trajectory_of(headers) == Ok::<Option<Uuid>, HeaderError>(admission.trajectory_id),
        admission.request_headers == selected(headers, captured_request_names()),
        admission.forwarded_headers.drop_last() == passing(Direction::Request, headers),
        admission.forwarded_headers.last().name == "accept-encoding"@,
        admission.forwarded_headers.last().value == encode_utf8("identity"@),
{
    reveal_strlit("/v1/chat/completions");
    reveal_strlit("/v1/responses");
    assert("/v1/chat/completions"@.len() != "/v1/responses"@.len());
    assert(admission.forwarded_headers.drop_last() =~= passing(Direction::Request, headers));
}

/// Every admitted request whose response is whole is captured as it was: where memory is granted for
/// the request and for every chunk, the response keeps within its bound, and both moments have their
/// texts, the channel is offered one exchange more, and that exchange has the scope and the profile
/// of the request's key, the trajectory that its headers name, the API of its path, its method, its
/// path, its captured headers and its body; the status and the captured headers of the response, and
/// its whole body; the route, the target and the digests that were chosen, and the reason for a
/// fallback by its name; and both moments and both times.
pub proof fn law_a_capture_is_the_exchange_as_it_was(
    headers: Seq<HeaderView>,
    keys: Seq<OperatorKey>,
    path: Seq<char>,
    admission: Admission,
    context: ExchangeContext,
    exchange_id: Uuid,
    started_at: String,
    method: String,
    path_text: String,
    choice: ChoiceView,
    head: HeadView,
    target: Target,
    fallback: Option<FallbackReason>,
    request: Seq<u8>,
    recording: RecordingView,
    elapsed: u128,
    chunks: Seq<Passing>,
    event: BodyEvent,
    next: RecorderView,
    tallies: Seq<Tally>,
    total: u128,
    moment: i128,
    taken: bool,
)
    requires
        admission_outcome(headers, keys, path) == Ok::<AdmissionView, GatewayError>(admission@),
        context == context_of(
            admission,
            exchange_id,
            Some(started_at),
            method,
            path_text,
            wants_stream(request),
        ),
        path_text@ == path,
        request.len() <= u32::MAX,
        recording.max_response_bytes <= LARGEST_MAX_RESPONSE_BYTES,
        forall|i: int| 0 <= i < chunks.len() ==> (#[trigger] chunks[i]).granted,
        stream_of(chunks).len() <= recording.max_response_bytes,
        event is Ended,
        rfc3339_of(moment) is Some,
        relayed(
            context,
            choice,
            head,
            target,
            fallback,
            request,
            recording,
            true,
            elapsed,
        ).recorder.after_chunks(chunks).event_step(
            event,
            next,
            tallies,
            total,
            true,
            moment,
            taken,
        ),
    ensures
        next.offers.len() == recording.offers.len() + 1,
        next.offers.drop_last() == recording.offers,
        next.offers.last().taken == taken,
        next.offers.last().reserved == request.len() + stream_of(chunks).len(),
        ({
            let job = next.offers.last().job;
            &&& authenticated(headers, keys) matches Some(key)
            &&& job.seed.scope_id == key.binding.scope_id
            &&& job.seed.profile == key.binding.profile
            &&& trajectory_of(headers) == Ok::<Option<Uuid>, HeaderError>(job.seed.trajectory_id)
            &&& job.seed.exchange_id == exchange_id
            &&& job.seed.started_at == started_at@
            &&& rfc3339_of(moment) == Some(job.completed_at)
            &&& path == "/v1/chat/completions"@ ==> job.seed.endpoint == Protocol::ChatCompletions
            &&& path == "/v1/responses"@ ==> job.seed.endpoint == Protocol::Responses
            &&& job.seed.streaming == (json_flag_of(request, "stream"@) == Some(true))
            &&& job.seed.request_method == method@
            &&& job.seed.request_path == path
            &&& job.seed.request_headers == selected(headers, captured_request_names())
            &&& job.seed.request == request
            &&& job.seed.response_status == head.status
            &&& job.seed.response_headers == head.captured
            &&& job.response == stream_of(chunks)
            &&& job.seed.route_id == choice.route_id
            &&& job.seed.route_target == target
            &&& job.seed.candidate_artifact_sha256 == choice.candidate_artifact_sha256
            &&& job.seed.candidate_binding_sha256 == choice.candidate_binding_sha256
            &&& fallback is None ==> job.seed.fallback_reason is None
            &&& fallback matches Some(reason) ==> job.seed.fallback_reason == Some(reason.text())
            &&& total < u64::MAX ==> job.total_ms == total / 1_000_000
            &&& target == Target::CandidateA && elapsed < u64::MAX ==> (job.ttft_ms matches Some(ms)
                && ms == elapsed / 1_000_000)
            &&& target == Target::Baseline && chunks.len() > 0 && chunks[0].bytes.len() > 0
                && chunks[0].elapsed < u64::MAX ==> (job.ttft_ms matches Some(ms) && ms
                == chunks[0].elapsed / 1_000_000)
            &&& target == Target::Baseline && stream_of(chunks).len() == 0 ==> job.ttft_ms is None
        }),
{
    let first = relayed(
        context,
        choice,
        head,
        target,
        fallback,
        request,
        recording,
        true,
        elapsed,
    ).recorder;
    law_what_an_admitted_request_is(headers, keys, path, admission@);
    law_a_capture_that_fits_is_whole(first, chunks);
    lemma_stream_keeps(first, chunks);
    let after = first.after_chunks(chunks);
    law_only_whole_responses_are_kept(after, event, next, tallies, total, true, moment, taken);
    assert(after.kept_by(event, moment));
    assert(next.offers.drop_last() =~= recording.offers);
    if target == Target::CandidateA {
        let i = lemma_first_part(chunks);
        law_the_first_byte_is_timed_once(first, chunks, i);
    } else if stream_of(chunks).len() == 0 {
        lemma_empty_parts(chunks);
        law_the_first_byte_is_timed_once(first, chunks, chunks.len() as int);
    } else if chunks.len() > 0 && chunks[0].bytes.len() > 0 {
        law_the_first_byte_is_timed_once(first, chunks, 0);
    }
}

/// Following a stream changes nothing of what was offered, nor whether the response ended.
proof fn lemma_stream_keeps(recorder: RecorderView, chunks: Seq<Passing>)
    ensures
        recorder.after_chunks(chunks).offers == recorder.offers,
        recorder.after_chunks(chunks).finished == recorder.finished,
    decreases chunks.len(),
{
    if chunks.len() > 0 {
        lemma_stream_keeps(recorder, chunks.drop_last());
    }
}

/// The first part of a stream that is not empty, or its end.
proof fn lemma_first_part(chunks: Seq<Passing>) -> (i: int)
    ensures
        0 <= i <= chunks.len(),
        forall|k: int| 0 <= k < i ==> (#[trigger] chunks[k]).bytes.len() == 0,
        i < chunks.len() ==> chunks[i].bytes.len() > 0,
    decreases chunks.len(),
{
    if chunks.len() == 0 {
        0
    } else {
        let shorter = chunks.drop_last();
        let i = lemma_first_part(shorter);
        assert forall|k: int| 0 <= k < i implies (#[trigger] chunks[k]).bytes.len() == 0 by {
            assert(shorter[k] == chunks[k]);
        }
        if i < shorter.len() {
            assert(shorter[i] == chunks[i]);
            i
        } else if chunks.last().bytes.len() > 0 {
            i
        } else {
            i + 1
        }
    }
}

/// The parts of an empty stream are empty.
proof fn lemma_empty_parts(chunks: Seq<Passing>)
    requires
        stream_of(chunks).len() == 0,
    ensures
        forall|k: int| 0 <= k < chunks.len() ==> (#[trigger] chunks[k]).bytes.len() == 0,
    decreases chunks.len(),
{
    if chunks.len() > 0 {
        let shorter = chunks.drop_last();
        lemma_empty_parts(shorter);
        assert forall|k: int| 0 <= k < chunks.len() implies (#[trigger] chunks[k]).bytes.len()
            == 0 by {
            if k < shorter.len() {
                assert(shorter[k] == chunks[k]);
            }
        }
    }
}

/// An exchange is captured exactly where memory is granted for its request and its start has a text;
/// where it is not, that is counted, but for a request that is too large to ask memory for; and
/// memory is asked for once, as much as the request is large.
pub proof fn law_when_an_exchange_is_captured(
    context: ExchangeContext,
    choice: ChoiceView,
    head: HeadView,
    target: Target,
    fallback: Option<FallbackReason>,
    request: Seq<u8>,
    recording: RecordingView,
    granted: bool,
    elapsed: u128,
)
    ensures
        ({
            let begun = relayed(
                context,
                choice,
                head,
                target,
                fallback,
                request,
                recording,
                granted,
                elapsed,
            );
            let captured = granted && request.len() <= 4294967295 && context.started_at is Some;
            &&& begun.recorder.seed is Some <==> captured
            &&& captured ==> begun.tally is None && begun.recorder.reserved == request.len()
            &&& !captured && request.len() <= 4294967295 ==> begun.tally == Some(Tally::Dropped)
                && begun.recorder.reserved == 0
            &&& request.len() > 4294967295 ==> begun.tally is None
            &&& begun.status == head.status
            &&& begun.headers == head.headers
            &&& begun.recorder.expected_response_bytes == head.expected_bytes
            &&& begun.recorder.observed_response_bytes == 0
            &&& begun.recorder.response.len() == 0
            &&& !begun.recorder.finished
            &&& !begun.recorder.seen
            &&& begun.recorder.max_response_bytes == recording.max_response_bytes
            &&& begun.recorder.channel == recording.channel
            &&& begun.recorder.semaphore == recording.semaphore
            &&& begun.recorder.started == recording.started
            &&& begun.recorder.exchange_id == context.exchange_id
            &&& request.len() <= 4294967295 ==> recording.asked(request, granted).requests.last().count
                == request.len() && recording.asked(request, granted).requests.last().granted
                == granted && recording.asked(request, granted).requests.drop_last()
                == recording.requests
        }),
{
    if request.len() <= 4294967295 {
        assert(recording.asked(request, granted).requests.drop_last() =~= recording.requests);
    }
}

/// Requests and responses are seen whole: no field is left out.
pub proof fn law_messages_are_seen_whole(
    admission: Admission,
    head: ResponseHead,
    relayed: Relayed,
    recording: Recording,
)
    ensures
        admission@.binding == admission.binding,
        admission@.protocol == admission.protocol,
        admission@.trajectory_id == admission.trajectory_id,
        admission@.request_headers == text_header_views(admission.request_headers@),
        admission@.forwarded_headers == header_views(admission.forwarded_headers@),
        head@.status == head.status,
        head@.headers == header_views(head.headers@),
        head@.captured == text_header_views(head.captured@),
        head@.expected_bytes == head.expected_bytes,
        relayed@.status == relayed.status,
        relayed@.headers == header_views(relayed.headers@),
        relayed@.recorder == relayed.recorder@,
        relayed@.tally == relayed.tally,
        recording@.started == recording.started,
        recording@.max_response_bytes == recording.max_response_bytes,
        recording@.channel == channel_of(recording.capture_tx),
        recording@.offers == offers_through(recording.capture_tx),
        recording@.semaphore == semaphore_of(recording.capture_memory),
        recording@.requests == requests_through(recording.capture_memory),
        Exchange::CandidateBody(head)@ == ExchangeView::CandidateBody(head@),
{
}

/// What is known of an exchange before its response is what its request was admitted as.
pub proof fn law_what_is_known_before_the_response(
    admission: Admission,
    exchange_id: Uuid,
    started_at: Option<String>,
    method: String,
    path: String,
    request: Seq<u8>,
)
    ensures
        ({
            let context = context_of(
                admission,
                exchange_id,
                started_at,
                method,
                path,
                wants_stream(request),
            );
            &&& context.binding == admission.binding
            &&& context.protocol == admission.protocol
            &&& context.trajectory_id == admission.trajectory_id
            &&& context.exchange_id == exchange_id
            &&& context.started_at == started_at
            &&& context.streaming <==> json_flag_of(request, "stream"@) == Some(true)
            &&& context.method == method
            &&& context.path == path
            &&& context.request_headers == admission.request_headers
        }),
{
}

/// A capture that was written is counted as persisted, and one that could not be as failed.
pub proof fn law_how_writing_is_counted(written: bool)
    ensures
        writing_counted(written) == Tally::Persisted <==> written,
        writing_counted(written) == Tally::StorageFailed <==> !written,
{
}

} // verus!
