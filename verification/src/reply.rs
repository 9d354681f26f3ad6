//! Replies that the gateway gives itself: errors, health and status.

use vstd::prelude::*;
use vstd::utf8::encode_utf8;

use crate::boundary::is_json;
use crate::boundary::json_quoted;
use crate::boundary::json_valid;
use crate::headers::text_header_views;
use crate::headers::TextHeader;
use crate::identity::Protocol;
use crate::json::bool_json;
use crate::json::bool_member;
use crate::json::law_objects_say_their_members;
use crate::json::member;
use crate::json::member_views;
use crate::json::number_member;
use crate::json::object_json;
use crate::json::object_text;
use crate::json::says;
use crate::json::text_member;
use crate::json::Member;
use crate::keys::KeyBinding;
use crate::recorder::Counters;
use crate::recorder::Tally;
use crate::store::MAX_GET_BYTES;
use crate::text::decimal;
use crate::upstream::candidate_binding_view;
use crate::upstream::CandidateBinding;
use crate::upstream::CandidateBindingView;

verus! {

/// A reply.
pub struct Reply {
    pub status: u16,
    pub headers: Vec<TextHeader>,
    pub body: Vec<u8>,
}

/// A reply, as texts.
pub struct ReplyView {
    pub status: u16,
    pub headers: Seq<(Seq<char>, Seq<char>)>,
    pub body: Seq<u8>,
}

impl View for Reply {
    type V = ReplyView;

    open spec fn view(&self) -> ReplyView {
        ReplyView {
            status: self.status,
            headers: text_header_views(self.headers@),
            body: self.body@,
        }
    }
}

/// Why the gateway answers a request itself.
#[derive(Clone, Copy, Debug, PartialEq, Eq, Structural)]
pub enum GatewayError {
    Unauthorized,
    UnsupportedEndpoint,
    InvalidHeaders,
    RequestTooLarge,
    UpstreamUnavailable,
    InvalidUpstreamHeaders,
    /// The stored status is not JSON.
    InvalidStatus,
    StatusTooLarge,
    StatusUnavailable,
}

impl GatewayError {
    /// The status of the reply.
    pub open spec fn status_of(self) -> u16 {
        match self {
            GatewayError::Unauthorized => 401,
            GatewayError::UnsupportedEndpoint => 404,
            GatewayError::InvalidHeaders => 400,
            GatewayError::RequestTooLarge => 413,
            GatewayError::UpstreamUnavailable => 502,
            GatewayError::InvalidUpstreamHeaders => 502,
            GatewayError::InvalidStatus => 500,
            GatewayError::StatusTooLarge => 500,
            GatewayError::StatusUnavailable => 503,
        }
    }

    /// The code that clients tell errors apart by.
    pub open spec fn code_of(self) -> Seq<char> {
        match self {
            GatewayError::Unauthorized => "unauthorized"@,
            GatewayError::UnsupportedEndpoint => "unsupported_endpoint"@,
            GatewayError::InvalidHeaders => "invalid_headers"@,
            GatewayError::RequestTooLarge => "request_too_large"@,
            GatewayError::UpstreamUnavailable => "upstream_unavailable"@,
            GatewayError::InvalidUpstreamHeaders => "invalid_upstream_headers"@,
            GatewayError::InvalidStatus => "invalid_status"@,
            GatewayError::StatusTooLarge => "invalid_status"@,
            GatewayError::StatusUnavailable => "status_unavailable"@,
        }
    }

    /// The error in words.
    pub open spec fn words_of(self) -> Seq<char> {
        match self {
            GatewayError::Unauthorized => "A valid Milk bearer key is required."@,
            GatewayError::UnsupportedEndpoint =>
                "The requested inference endpoint is not supported."@,
            GatewayError::InvalidHeaders => "The request headers are invalid."@,
            GatewayError::RequestTooLarge => "The request exceeds the gateway memory bound."@,
            GatewayError::UpstreamUnavailable => "The upstream request failed."@,
            GatewayError::InvalidUpstreamHeaders => "The upstream returned invalid headers."@,
            GatewayError::InvalidStatus => "The stored status is invalid."@,
            GatewayError::StatusTooLarge => "The stored status is too large."@,
            GatewayError::StatusUnavailable => "Status is temporarily unavailable."@,
        }
    }

    /// What is counted with the error.
    pub open spec fn tally_of(self) -> Option<Tally> {
        match self {
            GatewayError::RequestTooLarge => Some(Tally::Oversized),
            GatewayError::UpstreamUnavailable => Some(Tally::Interrupted),
            GatewayError::InvalidUpstreamHeaders => Some(Tally::Interrupted),
            _ => None,
        }
    }

    /// The body of the reply.
    pub open spec fn json(self) -> Seq<char> {
        object_json(
            seq![
                (
                    "error"@,
                    object_json(
                        seq![
                            ("code"@, json_quoted(self.code_of())),
                            ("message"@, json_quoted(self.words_of())),
                            ("type"@, json_quoted("gateway_error"@)),
                        ],
                    ),
                ),
            ],
        )
    }

    /// The reply: JSON that is not to be stored, and for a missing key the scheme to use.
    pub open spec fn reply_of(self) -> ReplyView {
        let headers = seq![
            ("cache-control"@, "no-store"@),
            ("content-type"@, "application/json"@),
        ];
        ReplyView {
            status: self.status_of(),
            headers: if self == GatewayError::Unauthorized {
                headers.push(("www-authenticate"@, "Bearer"@))
            } else {
                headers
            },
            body: encode_utf8(self.json()),
        }
    }

    /// The status of the reply.
    pub fn status(self) -> (result: u16)
        ensures
            result == self.status_of(),
    {
        match self {
            GatewayError::Unauthorized => 401,
            GatewayError::UnsupportedEndpoint => 404,
            GatewayError::InvalidHeaders => 400,
            GatewayError::RequestTooLarge => 413,
            GatewayError::UpstreamUnavailable => 502,
            GatewayError::InvalidUpstreamHeaders => 502,
            GatewayError::InvalidStatus => 500,
            GatewayError::StatusTooLarge => 500,
            GatewayError::StatusUnavailable => 503,
        }
    }

    /// The code that clients tell errors apart by.
    pub fn code(self) -> (result: &'static str)
        ensures
            result@ == self.code_of(),
    {
        match self {
            GatewayError::Unauthorized => "unauthorized",
            GatewayError::UnsupportedEndpoint => "unsupported_endpoint",
            GatewayError::InvalidHeaders => "invalid_headers",
            GatewayError::RequestTooLarge => "request_too_large",
            GatewayError::UpstreamUnavailable => "upstream_unavailable",
            GatewayError::InvalidUpstreamHeaders => "invalid_upstream_headers",
            GatewayError::InvalidStatus => "invalid_status",
            GatewayError::StatusTooLarge => "invalid_status",
            GatewayError::StatusUnavailable => "status_unavailable",
        }
    }

    /// The error in words.
    pub fn words(self) -> (result: &'static str)
        ensures
            result@ == self.words_of(),
    {
        match self {
            GatewayError::Unauthorized => "A valid Milk bearer key is required.",
            GatewayError::UnsupportedEndpoint =>
                "The requested inference endpoint is not supported.",
            GatewayError::InvalidHeaders => "The request headers are invalid.",
            GatewayError::RequestTooLarge => "The request exceeds the gateway memory bound.",
            GatewayError::UpstreamUnavailable => "The upstream request failed.",
            GatewayError::InvalidUpstreamHeaders => "The upstream returned invalid headers.",
            GatewayError::InvalidStatus => "The stored status is invalid.",
            GatewayError::StatusTooLarge => "The stored status is too large.",
            GatewayError::StatusUnavailable => "Status is temporarily unavailable.",
        }
    }

    /// What is counted with the error.
    pub fn tally(self) -> (result: Option<Tally>)
        ensures
            result == self.tally_of(),
    {
        match self {
            GatewayError::RequestTooLarge => Some(Tally::Oversized),
            GatewayError::UpstreamUnavailable => Some(Tally::Interrupted),
            GatewayError::InvalidUpstreamHeaders => Some(Tally::Interrupted),
            _ => None,
        }
    }
}

/// A header.
fn text_header(name: &str, value: &str) -> (result: TextHeader)
    ensures
        result@ == (name@, value@),
{
    TextHeader { name: name.to_owned(), value: value.to_owned() }
}

/// The headers of a reply in JSON that is not to be stored.
fn unstored_json_headers() -> (result: Vec<TextHeader>)
    ensures
        text_header_views(result@) == seq![
            ("cache-control"@, "no-store"@),
            ("content-type"@, "application/json"@),
        ],
{
    let mut headers: Vec<TextHeader> = Vec::new();
    headers.push(text_header("cache-control", "no-store"));
    headers.push(text_header("content-type", "application/json"));
    assert(text_header_views(headers@) =~= seq![
        ("cache-control"@, "no-store"@),
        ("content-type"@, "application/json"@),
    ]);
    headers
}

/// The bytes of a text.
fn bytes_of(text: &str) -> (result: Vec<u8>)
    ensures
        result@ == encode_utf8(text@),
{
    text.as_bytes_vec()
}

/// The reply to an error.
pub fn gateway_error(error: GatewayError) -> (result: Reply)
    ensures
        result@ == error.reply_of(),
{
    let mut detail: Vec<Member> = Vec::new();
    detail.push(text_member("code", error.code()));
    detail.push(text_member("message", error.words()));
    detail.push(text_member("type", "gateway_error"));
    assert(member_views(detail@) =~= seq![
        ("code"@, json_quoted(error.code_of())),
        ("message"@, json_quoted(error.words_of())),
        ("type"@, json_quoted("gateway_error"@)),
    ]);
    let mut members: Vec<Member> = Vec::new();
    members.push(member("error", object_text(&detail)));
    assert(member_views(members@) =~= seq![
        (
            "error"@,
            object_json(
                seq![
                    ("code"@, json_quoted(error.code_of())),
                    ("message"@, json_quoted(error.words_of())),
                    ("type"@, json_quoted("gateway_error"@)),
                ],
            ),
        ),
    ]);
    let body = bytes_of(object_text(&members).as_str());
    let mut headers = unstored_json_headers();
    if error == GatewayError::Unauthorized {
        headers.push(text_header("www-authenticate", "Bearer"));
    }
    assert(text_header_views(headers@) =~= error.reply_of().headers);
    Reply { status: error.status(), headers, body }
}

/// The reply to a request without a valid key.
pub fn unauthorized() -> (result: Reply)
    ensures
        result@ == GatewayError::Unauthorized.reply_of(),
{
    gateway_error(GatewayError::Unauthorized)
}

/// Whether there is a candidate with a provider of the protocol.
pub open spec fn candidate_has(
    candidate: Option<CandidateBindingView>,
    protocol: Protocol,
) -> bool {
    match candidate {
        Some(candidate) => candidate.of(protocol) is Some,
        None => false,
    }
}

/// The protocols that are configured, in JSON.
pub open spec fn protocols_json(candidate: Option<CandidateBindingView>) -> Seq<char> {
    object_json(
        seq![
            (
                "candidate_chat_completions"@,
                bool_json(candidate_has(candidate, Protocol::ChatCompletions)),
            ),
            ("candidate_responses"@, bool_json(candidate_has(candidate, Protocol::Responses))),
            ("chat_completions"@, bool_json(true)),
            ("responses"@, bool_json(true)),
        ],
    )
}

impl Counters {
    /// The counters, in JSON.
    pub open spec fn json(self) -> Seq<char> {
        object_json(
            seq![
                ("completed"@, decimal(self.completed as nat)),
                ("dropped"@, decimal(self.dropped as nat)),
                ("enqueued"@, decimal(self.enqueued as nat)),
                ("interrupted"@, decimal(self.interrupted as nat)),
                ("observed"@, decimal(self.observed as nat)),
                ("oversized"@, decimal(self.oversized as nat)),
                ("persisted"@, decimal(self.persisted as nat)),
                ("storage_failed"@, decimal(self.storage_failed as nat)),
                ("writer_alive"@, bool_json(self.writer_alive)),
            ],
        )
    }

    /// The counters, in JSON.
    pub fn to_json(&self) -> (result: String)
        ensures
            result@ == self.json(),
    {
        let mut members: Vec<Member> = Vec::new();
        members.push(number_member("completed", self.completed));
        members.push(number_member("dropped", self.dropped));
        members.push(number_member("enqueued", self.enqueued));
        members.push(number_member("interrupted", self.interrupted));
        members.push(number_member("observed", self.observed));
        members.push(number_member("oversized", self.oversized));
        members.push(number_member("persisted", self.persisted));
        members.push(number_member("storage_failed", self.storage_failed));
        members.push(bool_member("writer_alive", self.writer_alive));
        assert(member_views(members@) =~= seq![
            ("completed"@, decimal(self.completed as nat)),
            ("dropped"@, decimal(self.dropped as nat)),
            ("enqueued"@, decimal(self.enqueued as nat)),
            ("interrupted"@, decimal(self.interrupted as nat)),
            ("observed"@, decimal(self.observed as nat)),
            ("oversized"@, decimal(self.oversized as nat)),
            ("persisted"@, decimal(self.persisted as nat)),
            ("storage_failed"@, decimal(self.storage_failed as nat)),
            ("writer_alive"@, bool_json(self.writer_alive)),
        ]);
        object_text(&members)
    }
}

/// The body of the reply on the gateway's health.
pub open spec fn health_json(counters: Counters, candidate: Option<CandidateBindingView>) -> Seq<
    char,
> {
    object_json(
        seq![
            ("capture"@, counters.json()),
            ("protocols"@, protocols_json(candidate)),
            ("status"@, json_quoted("ok"@)),
        ],
    )
}

/// The reply on the gateway's health.
pub open spec fn health_reply(
    counters: Counters,
    candidate: Option<CandidateBindingView>,
) -> ReplyView {
    ReplyView {
        status: 200,
        headers: seq![("content-type"@, "application/json"@)],
        body: encode_utf8(health_json(counters, candidate)),
    }
}

/// The reply on the gateway's health.
pub fn health(counters: &Counters, candidate: &Option<CandidateBinding>) -> (result: Reply)
    ensures
        result@ == health_reply(*counters, candidate_binding_view(*candidate)),
        result@ == (ReplyView {
            status: 200,
            headers: seq![("content-type"@, "application/json"@)],
            body: encode_utf8(health_json(*counters, candidate_binding_view(*candidate))),
        }),
{
    let (candidate_chat, candidate_responses) = match candidate {
        Some(found) => (found.chat_completions.is_some(), found.responses.is_some()),
        None => (false, false),
    };
    let ghost view = candidate_binding_view(*candidate);
    assert(candidate_chat == candidate_has(view, Protocol::ChatCompletions));
    assert(candidate_responses == candidate_has(view, Protocol::Responses));
    let mut protocols: Vec<Member> = Vec::new();
    protocols.push(bool_member("candidate_chat_completions", candidate_chat));
    protocols.push(bool_member("candidate_responses", candidate_responses));
    protocols.push(bool_member("chat_completions", true));
    protocols.push(bool_member("responses", true));
    assert(member_views(protocols@) =~= seq![
        (
            "candidate_chat_completions"@,
            bool_json(candidate_has(view, Protocol::ChatCompletions)),
        ),
        ("candidate_responses"@, bool_json(candidate_has(view, Protocol::Responses))),
        ("chat_completions"@, bool_json(true)),
        ("responses"@, bool_json(true)),
    ]);
    let mut members: Vec<Member> = Vec::new();
    members.push(member("capture", counters.to_json()));
    members.push(member("protocols", object_text(&protocols)));
    members.push(text_member("status", "ok"));
    assert(member_views(members@) =~= seq![
        ("capture"@, counters.json()),
        ("protocols"@, protocols_json(candidate_binding_view(*candidate))),
        ("status"@, json_quoted("ok"@)),
    ]);
    let mut headers: Vec<TextHeader> = Vec::new();
    headers.push(text_header("content-type", "application/json"));
    assert(text_header_views(headers@) =~= seq![("content-type"@, "application/json"@)]);
    Reply { status: 200, headers, body: bytes_of(object_text(&members).as_str()) }
}

/// What was found in the store.
pub enum Lookup {
    Found(Vec<u8>),
    Missing,
    Failed,
}

/// The body of the reply on a scope of which no status is stored.
pub open spec fn waiting_json(binding: KeyBinding) -> Seq<char> {
    object_json(
        seq![
            ("next_action"@, json_quoted("capture"@)),
            ("profile"@, json_quoted(binding.profile.name())),
            ("schema_version"@, json_quoted("milk.status.v2"@)),
            ("scope_id"@, json_quoted(binding.scope_id.text())),
            ("state"@, json_quoted("waiting"@)),
        ],
    )
}

/// A reply in JSON that is not to be stored.
pub open spec fn unstored_reply(body: Seq<u8>) -> ReplyView {
    ReplyView {
        status: 200,
        headers: seq![("cache-control"@, "no-store"@), ("content-type"@, "application/json"@)],
        body,
    }
}

/// The reply on a scope's status, given what is stored and whether that is JSON.
pub open spec fn status_outcome(binding: KeyBinding, stored: Lookup, valid: bool) -> ReplyView {
    match stored {
        Lookup::Found(value) => if value@.len() > MAX_GET_BYTES {
            GatewayError::StatusTooLarge.reply_of()
        } else if !valid {
            GatewayError::InvalidStatus.reply_of()
        } else {
            unstored_reply(value@)
        },
        Lookup::Missing => unstored_reply(encode_utf8(waiting_json(binding))),
        Lookup::Failed => GatewayError::StatusUnavailable.reply_of(),
    }
}

/// The reply on a scope's status, given whether what is stored is JSON.
pub fn status_reply(binding: &KeyBinding, stored: Lookup, valid: bool) -> (result: Reply)
    ensures
        result@ == status_outcome(*binding, stored, valid),
{
    match stored {
        Lookup::Found(value) => if value.len() > MAX_GET_BYTES {
            gateway_error(GatewayError::StatusTooLarge)
        } else if !valid {
            gateway_error(GatewayError::InvalidStatus)
        } else {
            Reply { status: 200, headers: unstored_json_headers(), body: value }
        },
        Lookup::Missing => {
            let mut members: Vec<Member> = Vec::new();
            members.push(text_member("next_action", "capture"));
            members.push(text_member("profile", binding.profile.as_str()));
            members.push(text_member("schema_version", "milk.status.v2"));
            members.push(text_member("scope_id", binding.scope_id.to_text().as_str()));
            members.push(text_member("state", "waiting"));
            assert(member_views(members@) =~= seq![
                ("next_action"@, json_quoted("capture"@)),
                ("profile"@, json_quoted(binding.profile.name())),
                ("schema_version"@, json_quoted("milk.status.v2"@)),
                ("scope_id"@, json_quoted(binding.scope_id.text())),
                ("state"@, json_quoted("waiting"@)),
            ]);
            Reply {
                status: 200,
                headers: unstored_json_headers(),
                body: bytes_of(object_text(&members).as_str()),
            }
        },
        Lookup::Failed => gateway_error(GatewayError::StatusUnavailable),
    }
}

/// The reply on a scope's status.
pub fn api_status(binding: &KeyBinding, stored: Lookup) -> (result: Reply)
    ensures
        result@ == status_outcome(
            *binding,
            stored,
            stored matches Lookup::Found(value) && is_json(value@),
        ),
{
    let valid = match &stored {
        Lookup::Found(value) => json_valid(value.as_slice()),
        _ => false,
    };
    status_reply(binding, stored, valid)
}

/// Every error is answered in JSON that is not to be stored, and only a missing key with the scheme
/// to use.
pub proof fn law_errors_are_never_stored(error: GatewayError)
    ensures
        error.reply_of().headers.contains(("cache-control"@, "no-store"@)),
        error.reply_of().headers.contains(("content-type"@, "application/json"@)),
        400 <= error.reply_of().status < 600,
        error.reply_of().status == 401 <==> error == GatewayError::Unauthorized,
        error == GatewayError::Unauthorized ==> error.reply_of().headers.contains(
            ("www-authenticate"@, "Bearer"@),
        ),
{
    let headers = error.reply_of().headers;
    assert(headers[0] == ("cache-control"@, "no-store"@));
    assert(headers[1] == ("content-type"@, "application/json"@));
    if error == GatewayError::Unauthorized {
        assert(headers[2] == ("www-authenticate"@, "Bearer"@));
    }
}

/// How each error is answered: its status, and the code that clients tell it by, with its words, in
/// the object under `error`.
pub proof fn law_how_errors_are_answered(error: GatewayError)
    ensures
        error == GatewayError::Unauthorized ==> error.reply_of().status == 401 && error.code_of()
            == "unauthorized"@,
        error == GatewayError::UnsupportedEndpoint ==> error.reply_of().status == 404
            && error.code_of() == "unsupported_endpoint"@,
        error == GatewayError::InvalidHeaders ==> error.reply_of().status == 400 && error.code_of()
            == "invalid_headers"@,
        error == GatewayError::RequestTooLarge ==> error.reply_of().status == 413
            && error.code_of() == "request_too_large"@,
        error == GatewayError::UpstreamUnavailable ==> error.reply_of().status == 502
            && error.code_of() == "upstream_unavailable"@,
        error == GatewayError::InvalidUpstreamHeaders ==> error.reply_of().status == 502
            && error.code_of() == "invalid_upstream_headers"@,
        error == GatewayError::InvalidStatus || error == GatewayError::StatusTooLarge
            ==> error.reply_of().status == 500 && error.code_of() == "invalid_status"@,
        error == GatewayError::StatusUnavailable ==> error.reply_of().status == 503
            && error.code_of() == "status_unavailable"@,
        error.reply_of().body == encode_utf8(error.json()),
        exists|detail: Seq<char>|
            {
                &&& #[trigger] says(error.json(), "error"@, detail)
                &&& says(detail, "code"@, json_quoted(error.code_of()))
                &&& says(detail, "message"@, json_quoted(error.words_of()))
                &&& says(detail, "type"@, json_quoted("gateway_error"@))
            },
        error != GatewayError::Unauthorized ==> error.reply_of().headers.len() == 2,
{
    let members = seq![
        ("code"@, json_quoted(error.code_of())),
        ("message"@, json_quoted(error.words_of())),
        ("type"@, json_quoted("gateway_error"@)),
    ];
    law_objects_say_their_members(members, 0);
    law_objects_say_their_members(members, 1);
    law_objects_say_their_members(members, 2);
    let whole = seq![("error"@, object_json(members))];
    law_objects_say_their_members(whole, 0);
    assert(says(error.json(), "error"@, object_json(members)));
}

/// What is said in words of each error.
pub proof fn law_what_clients_are_told(error: GatewayError)
    ensures
        error == GatewayError::Unauthorized ==> error.words_of()
            == "A valid Milk bearer key is required."@,
        error == GatewayError::UnsupportedEndpoint ==> error.words_of()
            == "The requested inference endpoint is not supported."@,
        error == GatewayError::InvalidHeaders ==> error.words_of()
            == "The request headers are invalid."@,
        error == GatewayError::RequestTooLarge ==> error.words_of()
            == "The request exceeds the gateway memory bound."@,
        error == GatewayError::UpstreamUnavailable ==> error.words_of()
            == "The upstream request failed."@,
        error == GatewayError::InvalidUpstreamHeaders ==> error.words_of()
            == "The upstream returned invalid headers."@,
        error == GatewayError::InvalidStatus ==> error.words_of()
            == "The stored status is invalid."@,
        error == GatewayError::StatusTooLarge ==> error.words_of()
            == "The stored status is too large."@,
        error == GatewayError::StatusUnavailable ==> error.words_of()
            == "Status is temporarily unavailable."@,
{
}

/// What is counted with an error: a request that is too large as oversized, one that no upstream
/// answered as interrupted, and nothing else.
pub proof fn law_what_is_counted_with_an_error(error: GatewayError)
    ensures
        error.tally_of() == Some(Tally::Oversized) <==> error == GatewayError::RequestTooLarge,
        error.tally_of() == Some(Tally::Interrupted) <==> error
            == GatewayError::UpstreamUnavailable || error == GatewayError::InvalidUpstreamHeaders,
        error.tally_of() is None || error.tally_of() == Some(Tally::Oversized) || error.tally_of()
            == Some(Tally::Interrupted),
{
}

/// The reply on health says every counter under its name, and for which APIs there is a provider and
/// for which a candidate.
pub proof fn law_health_says_every_counter(
    counters: Counters,
    candidate: Option<CandidateBindingView>,
)
    ensures
        says(health_json(counters, candidate), "capture"@, counters.json()),
        says(health_json(counters, candidate), "status"@, json_quoted("ok"@)),
        says(health_json(counters, candidate), "protocols"@, protocols_json(candidate)),
        says(counters.json(), "completed"@, decimal(counters.completed as nat)),
        says(counters.json(), "dropped"@, decimal(counters.dropped as nat)),
        says(counters.json(), "enqueued"@, decimal(counters.enqueued as nat)),
        says(counters.json(), "interrupted"@, decimal(counters.interrupted as nat)),
        says(counters.json(), "observed"@, decimal(counters.observed as nat)),
        says(counters.json(), "oversized"@, decimal(counters.oversized as nat)),
        says(counters.json(), "persisted"@, decimal(counters.persisted as nat)),
        says(counters.json(), "storage_failed"@, decimal(counters.storage_failed as nat)),
        says(
            counters.json(),
            "writer_alive"@,
            if counters.writer_alive {
                "true"@
            } else {
                "false"@
            },
        ),
        says(
            protocols_json(candidate),
            "candidate_chat_completions"@,
            if candidate is Some && candidate->Some_0.chat_completions is Some {
                "true"@
            } else {
                "false"@
            },
        ),
        says(
            protocols_json(candidate),
            "candidate_responses"@,
            if candidate is Some && candidate->Some_0.responses is Some {
                "true"@
            } else {
                "false"@
            },
        ),
        says(protocols_json(candidate), "chat_completions"@, "true"@),
        says(protocols_json(candidate), "responses"@, "true"@),
{
    let health = seq![
        ("capture"@, counters.json()),
        ("protocols"@, protocols_json(candidate)),
        ("status"@, json_quoted("ok"@)),
    ];
    law_objects_say_their_members(health, 0);
    law_objects_say_their_members(health, 1);
    law_objects_say_their_members(health, 2);
    let members = seq![
        ("completed"@, decimal(counters.completed as nat)),
        ("dropped"@, decimal(counters.dropped as nat)),
        ("enqueued"@, decimal(counters.enqueued as nat)),
        ("interrupted"@, decimal(counters.interrupted as nat)),
        ("observed"@, decimal(counters.observed as nat)),
        ("oversized"@, decimal(counters.oversized as nat)),
        ("persisted"@, decimal(counters.persisted as nat)),
        ("storage_failed"@, decimal(counters.storage_failed as nat)),
        ("writer_alive"@, bool_json(counters.writer_alive)),
    ];
    law_objects_say_their_members(members, 0);
    law_objects_say_their_members(members, 1);
    law_objects_say_their_members(members, 2);
    law_objects_say_their_members(members, 3);
    law_objects_say_their_members(members, 4);
    law_objects_say_their_members(members, 5);
    law_objects_say_their_members(members, 6);
    law_objects_say_their_members(members, 7);
    law_objects_say_their_members(members, 8);
    let protocols = seq![
        (
            "candidate_chat_completions"@,
            bool_json(candidate_has(candidate, Protocol::ChatCompletions)),
        ),
        ("candidate_responses"@, bool_json(candidate_has(candidate, Protocol::Responses))),
        ("chat_completions"@, bool_json(true)),
        ("responses"@, bool_json(true)),
    ];
    law_objects_say_their_members(protocols, 0);
    law_objects_say_their_members(protocols, 1);
    law_objects_say_their_members(protocols, 2);
    law_objects_say_their_members(protocols, 3);
}

/// How the status of a scope is answered: what is stored as it is, where it is JSON of at most a
/// mebibyte; a scope of which nothing is stored as one that waits for captures; and errors where
/// what is stored is too large or not JSON, or the store failed. None of it is to be stored.
pub proof fn law_how_a_status_is_answered(binding: KeyBinding, value: Vec<u8>, valid: bool)
    ensures
        value@.len() <= 1048576 && valid ==> {
            let reply = status_outcome(binding, Lookup::Found(value), valid);
            &&& reply.status == 200
            &&& reply.body == value@
            &&& reply.headers.contains(("cache-control"@, "no-store"@))
            &&& reply.headers.contains(("content-type"@, "application/json"@))
        },
        value@.len() <= 1048576 && !valid ==> status_outcome(binding, Lookup::Found(value), valid)
            == GatewayError::InvalidStatus.reply_of(),
        value@.len() > 1048576 ==> status_outcome(binding, Lookup::Found(value), valid)
            == GatewayError::StatusTooLarge.reply_of(),
        status_outcome(binding, Lookup::Failed, valid)
            == GatewayError::StatusUnavailable.reply_of(),
        ({
            let reply = status_outcome(binding, Lookup::Missing, valid);
            &&& reply.status == 200
            &&& reply.body == encode_utf8(waiting_json(binding))
            &&& reply.headers.contains(("cache-control"@, "no-store"@))
            &&& reply.headers.contains(("content-type"@, "application/json"@))
        }),
        says(waiting_json(binding), "schema_version"@, json_quoted("milk.status.v2"@)),
        says(waiting_json(binding), "scope_id"@, json_quoted(binding.scope_id.text())),
        says(waiting_json(binding), "profile"@, json_quoted(binding.profile.name())),
        says(waiting_json(binding), "state"@, json_quoted("waiting"@)),
        says(waiting_json(binding), "next_action"@, json_quoted("capture"@)),
{
    let stored = unstored_reply(value@);
    assert(stored.headers[0] == ("cache-control"@, "no-store"@));
    assert(stored.headers[1] == ("content-type"@, "application/json"@));
    let waiting = unstored_reply(encode_utf8(waiting_json(binding)));
    assert(waiting.headers[0] == ("cache-control"@, "no-store"@));
    assert(waiting.headers[1] == ("content-type"@, "application/json"@));
    let members = seq![
        ("next_action"@, json_quoted("capture"@)),
        ("profile"@, json_quoted(binding.profile.name())),
        ("schema_version"@, json_quoted("milk.status.v2"@)),
        ("scope_id"@, json_quoted(binding.scope_id.text())),
        ("state"@, json_quoted("waiting"@)),
    ];
    law_objects_say_their_members(members, 0);
    law_objects_say_their_members(members, 1);
    law_objects_say_their_members(members, 2);
    law_objects_say_their_members(members, 3);
    law_objects_say_their_members(members, 4);
}

/// Health is always answered, in JSON, whatever was counted.
pub proof fn law_health_is_always_answered(
    counters: Counters,
    candidate: Option<CandidateBindingView>,
)
    ensures
        health_reply(counters, candidate).status == 200,
        health_reply(counters, candidate).headers.contains(("content-type"@, "application/json"@)),
        health_reply(counters, candidate).body == encode_utf8(health_json(counters, candidate)),
{
    assert(health_reply(counters, candidate).headers[0] == (
        "content-type"@,
        "application/json"@,
    ));
}

} // verus!
