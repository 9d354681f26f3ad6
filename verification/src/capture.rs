//! Captures: what is kept of an exchange, and its encoding.

use vstd::prelude::*;
use vstd::utf8::encode_utf8;

use crate::boundary::base64_encode;
use crate::boundary::base64_len;
use crate::boundary::base64_of;
use crate::boundary::base64_read;
use crate::boundary::json_quoted;
use crate::boundary::optional_text;
use crate::boundary::rfc3339_format;
use crate::boundary::rfc3339_of;
use crate::boundary::sha256_of;
use crate::boundary::utc_clock;
use crate::boundary::zstd_encode;
use crate::boundary::zstd_of;
use crate::boundary::MemoryPermit;
use crate::digest::digest_text;
use crate::digest::sha256_hex;
use crate::headers::text_header_views;
use crate::headers::TextHeader;
use crate::identity::law_profile_names_identify;
use crate::identity::law_protocol_names_identify;
use crate::identity::law_target_names_identify;
use crate::identity::law_uuid_text_identifies;
use crate::identity::Profile;
use crate::identity::Protocol;
use crate::identity::Target;
use crate::identity::Uuid;
use crate::json::bool_json;
use crate::json::bool_member;
use crate::json::delimited;
use crate::json::law_booleans_identify;
use crate::json::law_numbers_identify;
use crate::json::law_objects_identify;
use crate::json::law_objects_say_their_members;
use crate::json::law_optional_numbers_identify;
use crate::json::law_optional_texts_identify;
use crate::json::law_quoted_texts_identify;
use crate::json::lemma_told_from_rest;
use crate::json::member;
use crate::json::member_views;
use crate::json::number_member;
use crate::json::object_json;
use crate::json::object_text;
use crate::json::optional_json;
use crate::json::optional_member;
use crate::json::optional_number_json;
use crate::json::optional_number_member;
use crate::json::says;
use crate::json::text_member;
use crate::json::Member;
use crate::recorder::millis;
use crate::text::decimal;
use crate::text::hex_text;

verus! {

/// What is known of an exchange once its response has begun.
pub struct CaptureSeed {
    pub scope_id: Uuid,
    pub profile: Profile,
    pub trajectory_id: Option<Uuid>,
    pub exchange_id: Uuid,
    pub started_at: String,
    pub endpoint: Protocol,
    pub streaming: bool,
    pub request_method: String,
    pub request_path: String,
    pub request_headers: Vec<TextHeader>,
    pub request: Vec<u8>,
    pub response_status: u16,
    pub response_headers: Vec<TextHeader>,
    pub route_id: Option<Uuid>,
    pub route_target: Target,
    pub candidate_artifact_sha256: Option<String>,
    pub candidate_binding_sha256: Option<String>,
    pub fallback_reason: Option<String>,
}

/// A whole exchange, ready to be kept.
pub struct CaptureJob {
    pub seed: CaptureSeed,
    pub completed_at: String,
    pub response: Vec<u8>,
    pub ttft_ms: Option<u64>,
    pub total_ms: u64,
    /// The shares of the capture memory that the bodies take.
    pub memory: Vec<MemoryPermit>,
}

/// What is known of an exchange once its response has begun, as texts.
pub struct SeedView {
    pub scope_id: Uuid,
    pub profile: Profile,
    pub trajectory_id: Option<Uuid>,
    pub exchange_id: Uuid,
    pub started_at: Seq<char>,
    pub endpoint: Protocol,
    pub streaming: bool,
    pub request_method: Seq<char>,
    pub request_path: Seq<char>,
    pub request_headers: Seq<(Seq<char>, Seq<char>)>,
    pub request: Seq<u8>,
    pub response_status: u16,
    pub response_headers: Seq<(Seq<char>, Seq<char>)>,
    pub route_id: Option<Uuid>,
    pub route_target: Target,
    pub candidate_artifact_sha256: Option<Seq<char>>,
    pub candidate_binding_sha256: Option<Seq<char>>,
    pub fallback_reason: Option<Seq<char>>,
}

/// A whole exchange, as texts.
pub struct JobView {
    pub seed: SeedView,
    pub completed_at: Seq<char>,
    pub response: Seq<u8>,
    pub ttft_ms: Option<u64>,
    pub total_ms: u64,
}

impl View for CaptureSeed {
    type V = SeedView;

    open spec fn view(&self) -> SeedView {
        SeedView {
            scope_id: self.scope_id,
            profile: self.profile,
            trajectory_id: self.trajectory_id,
            exchange_id: self.exchange_id,
            started_at: self.started_at@,
            endpoint: self.endpoint,
            streaming: self.streaming,
            request_method: self.request_method@,
            request_path: self.request_path@,
            request_headers: text_header_views(self.request_headers@),
            request: self.request@,
            response_status: self.response_status,
            response_headers: text_header_views(self.response_headers@),
            route_id: self.route_id,
            route_target: self.route_target,
            candidate_artifact_sha256: optional_text(self.candidate_artifact_sha256),
            candidate_binding_sha256: optional_text(self.candidate_binding_sha256),
            fallback_reason: optional_text(self.fallback_reason),
        }
    }
}

impl View for CaptureJob {
    type V = JobView;

    open spec fn view(&self) -> JobView {
        JobView {
            seed: self.seed@,
            completed_at: self.completed_at@,
            response: self.response@,
            ttft_ms: self.ttft_ms,
            total_ms: self.total_ms,
        }
    }
}

/// Headers as the members of an object.
pub open spec fn header_members(headers: Seq<(Seq<char>, Seq<char>)>) -> Seq<
    (Seq<char>, Seq<char>),
> {
    Seq::new(headers.len(), |i: int| (headers[i].0, json_quoted(headers[i].1)))
}

/// The members that describe a body.
pub open spec fn body_members(body: Seq<u8>) -> Seq<(Seq<char>, Seq<char>)> {
    seq![
        ("body_base64"@, json_quoted(base64_of(body))),
        ("byte_len"@, decimal(body.len())),
        ("sha256"@, json_quoted(digest_text(body))),
    ]
}

/// A UUID that may be absent, in JSON.
pub open spec fn optional_uuid_json(uuid: Option<Uuid>) -> Seq<char> {
    match uuid {
        Some(uuid) => json_quoted(uuid.text()),
        None => "null"@,
    }
}

impl SeedView {
    /// The request, in JSON.
    pub open spec fn request_json(self) -> Seq<char> {
        object_json(
            seq![
                ("method"@, json_quoted(self.request_method)),
                ("path"@, json_quoted(self.request_path)),
                ("headers"@, object_json(header_members(self.request_headers))),
            ] + body_members(self.request),
        )
    }

    /// The route, in JSON.
    pub open spec fn route_json(self) -> Seq<char> {
        object_json(
            seq![
                ("route_id"@, optional_uuid_json(self.route_id)),
                ("target"@, json_quoted(self.route_target.name())),
                ("candidate_artifact_sha256"@, optional_json(self.candidate_artifact_sha256)),
                ("candidate_binding_sha256"@, optional_json(self.candidate_binding_sha256)),
                ("fallback_reason"@, optional_json(self.fallback_reason)),
            ],
        )
    }

    /// The members that come before the times of the exchange. A trajectory is named only where
    /// there is one.
    pub open spec fn identity_members(self) -> Seq<(Seq<char>, Seq<char>)> {
        let scope = seq![
            ("schema_version"@, json_quoted("milk.exchange.v2"@)),
            ("scope_id"@, json_quoted(self.scope_id.text())),
            ("profile"@, json_quoted(self.profile.name())),
        ];
        let trajectory = match self.trajectory_id {
            Some(trajectory_id) => scope.push(
                ("trajectory_id"@, json_quoted(trajectory_id.text())),
            ),
            None => scope,
        };
        trajectory.push(("exchange_id"@, json_quoted(self.exchange_id.text())))
    }
}

impl JobView {
    /// The response, in JSON.
    pub open spec fn response_json(self) -> Seq<char> {
        object_json(
            seq![
                ("status"@, decimal(self.seed.response_status as nat)),
                ("headers"@, object_json(header_members(self.seed.response_headers))),
            ] + body_members(self.response),
        )
    }

    /// The exchange, in JSON.
    pub open spec fn json(self) -> Seq<char> {
        object_json(self.seed.identity_members() + self.course_members())
    }

    /// Both bodies are small enough for their base64 texts to exist.
    pub open spec fn encodable(self) -> bool {
        &&& base64_len(self.seed.request.len() as int) <= isize::MAX
        &&& base64_len(self.response.len() as int) <= isize::MAX
    }

    /// The bytes that are kept, none where the encoder refuses the exchange.
    pub open spec fn encoded(self) -> Option<Seq<u8>> {
        zstd_of(encode_utf8(self.json()), 3)
    }
}

impl JobView {
    /// The times of the exchange, in JSON.
    pub open spec fn timing_json(self) -> Seq<char> {
        object_json(
            seq![
                ("ttft_ms"@, optional_number_json(self.ttft_ms)),
                ("total_ms"@, decimal(self.total_ms as nat)),
            ],
        )
    }

    /// The members from the times of the exchange on.
    pub open spec fn course_members(self) -> Seq<(Seq<char>, Seq<char>)> {
        seq![
            ("started_at"@, json_quoted(self.seed.started_at)),
            ("completed_at"@, json_quoted(self.completed_at)),
            ("endpoint"@, json_quoted(self.seed.endpoint.name())),
            ("streaming"@, bool_json(self.seed.streaming)),
            ("request"@, self.seed.request_json()),
            ("response"@, self.response_json()),
            ("route"@, self.seed.route_json()),
            ("timing"@, self.timing_json()),
            ("complete"@, bool_json(true)),
        ]
    }
}

/// Headers as an object.
fn headers_text(headers: &Vec<TextHeader>) -> (result: String)
    ensures
        result@ == object_json(header_members(text_header_views(headers@))),
{
    let ghost wanted = header_members(text_header_views(headers@));
    let mut members: Vec<Member> = Vec::new();
    assert(member_views(members@) =~= wanted.take(0));
    for i in 0..headers.len()
        invariant
            wanted == header_members(text_header_views(headers@)),
            member_views(members@) == wanted.take(i as int),
    {
        let ghost before = member_views(members@);
        members.push(text_member(headers[i].name.as_str(), headers[i].value.as_str()));
        assert(member_views(members@) =~= before.push(wanted[i as int]));
        assert(wanted.take(i + 1) =~= wanted.take(i as int).push(wanted[i as int]));
    }
    assert(wanted.take(headers@.len() as int) =~= wanted);
    object_text(&members)
}

/// Adds the members that describe a body.
fn push_body(members: &mut Vec<Member>, body: &Vec<u8>)
    requires
        base64_len(body@.len() as int) <= isize::MAX,
    ensures
        member_views(final(members)@) == member_views(old(members)@) + body_members(body@),
        base64_read(base64_of(body@)) == Some(body@),
{
    let encoded = base64_encode(body.as_slice());
    members.push(text_member("body_base64", encoded.as_str()));
    members.push(number_member("byte_len", body.len() as u64));
    members.push(text_member("sha256", sha256_hex(body.as_slice()).as_str()));
    assert(member_views(members@) =~= member_views(old(members)@) + body_members(body@));
}

/// A member whose value is a UUID or null.
fn optional_uuid_member(name: &str, uuid: Option<Uuid>) -> (result: Member)
    ensures
        result@ == (name@, optional_uuid_json(uuid)),
{
    match uuid {
        Some(uuid) => text_member(name, uuid.to_text().as_str()),
        None => member(name, "null".to_owned()),
    }
}

impl CaptureSeed {
    /// The request, in JSON.
    fn request_text(&self) -> (result: String)
        requires
            base64_len(self.request@.len() as int) <= isize::MAX,
        ensures
            result@ == self@.request_json(),
            base64_read(base64_of(self.request@)) == Some(self.request@),
    {
        let mut members: Vec<Member> = Vec::new();
        members.push(text_member("method", self.request_method.as_str()));
        members.push(text_member("path", self.request_path.as_str()));
        members.push(member("headers", headers_text(&self.request_headers)));
        assert(member_views(members@) =~= seq![
            ("method"@, json_quoted(self.request_method@)),
            ("path"@, json_quoted(self.request_path@)),
            ("headers"@, object_json(header_members(self@.request_headers))),
        ]);
        push_body(&mut members, &self.request);
        object_text(&members)
    }

    /// The route, in JSON.
    fn route_text(&self) -> (result: String)
        ensures
            result@ == self@.route_json(),
    {
        let mut members: Vec<Member> = Vec::new();
        members.push(optional_uuid_member("route_id", self.route_id));
        members.push(text_member("target", self.route_target.as_str()));
        members.push(
            optional_member("candidate_artifact_sha256", &self.candidate_artifact_sha256),
        );
        members.push(optional_member("candidate_binding_sha256", &self.candidate_binding_sha256));
        members.push(optional_member("fallback_reason", &self.fallback_reason));
        assert(member_views(members@) =~= seq![
            ("route_id"@, optional_uuid_json(self.route_id)),
            ("target"@, json_quoted(self.route_target.name())),
            ("candidate_artifact_sha256"@, optional_json(self@.candidate_artifact_sha256)),
            ("candidate_binding_sha256"@, optional_json(self@.candidate_binding_sha256)),
            ("fallback_reason"@, optional_json(self@.fallback_reason)),
        ]);
        object_text(&members)
    }

    /// The members that come before the times of the exchange.
    fn identity_list(&self) -> (result: Vec<Member>)
        ensures
            member_views(result@) == self@.identity_members(),
    {
        let mut members: Vec<Member> = Vec::new();
        members.push(text_member("schema_version", "milk.exchange.v2"));
        members.push(text_member("scope_id", self.scope_id.to_text().as_str()));
        members.push(text_member("profile", self.profile.as_str()));
        if let Some(trajectory_id) = self.trajectory_id {
            members.push(text_member("trajectory_id", trajectory_id.to_text().as_str()));
        }
        members.push(text_member("exchange_id", self.exchange_id.to_text().as_str()));
        assert(member_views(members@) =~= self@.identity_members());
        members
    }
}

impl CaptureJob {
    /// The response, in JSON.
    fn response_text(&self) -> (result: String)
        requires
            base64_len(self.response@.len() as int) <= isize::MAX,
        ensures
            result@ == self@.response_json(),
            base64_read(base64_of(self.response@)) == Some(self.response@),
    {
        let mut members: Vec<Member> = Vec::new();
        members.push(number_member("status", self.seed.response_status as u64));
        members.push(member("headers", headers_text(&self.seed.response_headers)));
        assert(member_views(members@) =~= seq![
            ("status"@, decimal(self.seed.response_status as nat)),
            ("headers"@, object_json(header_members(self@.seed.response_headers))),
        ]);
        push_body(&mut members, &self.response);
        object_text(&members)
    }

    /// The exchange, in JSON. The base64 texts in it read back as the two bodies.
    pub fn to_json(&self) -> (result: String)
        requires
            self@.encodable(),
        ensures
            result@ == self@.json(),
            base64_read(base64_of(self@.seed.request)) == Some(self@.seed.request),
            base64_read(base64_of(self@.response)) == Some(self@.response),
    {
        let mut timing: Vec<Member> = Vec::new();
        timing.push(optional_number_member("ttft_ms", self.ttft_ms));
        timing.push(number_member("total_ms", self.total_ms));
        assert(member_views(timing@) =~= seq![
            ("ttft_ms"@, optional_number_json(self.ttft_ms)),
            ("total_ms"@, decimal(self.total_ms as nat)),
        ]);
        let mut members = self.seed.identity_list();
        members.push(text_member("started_at", self.seed.started_at.as_str()));
        members.push(text_member("completed_at", self.completed_at.as_str()));
        members.push(text_member("endpoint", self.seed.endpoint.as_str()));
        members.push(bool_member("streaming", self.seed.streaming));
        members.push(member("request", self.seed.request_text()));
        members.push(member("response", self.response_text()));
        members.push(member("route", self.seed.route_text()));
        members.push(member("timing", object_text(&timing)));
        members.push(bool_member("complete", true));
        assert(member_views(members@) =~= self@.seed.identity_members() + self@.course_members());
        object_text(&members)
    }
}

/// The bytes that are kept of an exchange: its JSON text, compressed. None where the encoder
/// refuses it. The base64 texts in it read back as the two bodies.
pub fn encode_capture(job: &CaptureJob) -> (result: Option<Vec<u8>>)
    requires
        job@.encodable(),
    ensures
        match job@.encoded() {
            Some(frame) => result matches Some(bytes) && bytes@ == frame,
            None => result is None,
        },
        base64_read(base64_of(job@.seed.request)) == Some(job@.seed.request),
        base64_read(base64_of(job@.response)) == Some(job@.response),
{
    let json = job.to_json();
    zstd_encode(json.as_str().as_bytes(), 3)
}

/// Whole milliseconds of a span in nanoseconds, as far as they can be written.
pub fn duration_ms(nanos: u128) -> (result: u64)
    ensures
        result == millis(nanos),
        result == if nanos / 1_000_000 <= u64::MAX {
            nanos / 1_000_000
        } else {
            u64::MAX as u128
        },
{
    let millis: u128 = nanos / 1_000_000;
    if millis <= u64::MAX as u128 {
        millis as u64
    } else {
        u64::MAX
    }
}

/// A moment, in nanoseconds since the beginning of 1970, in its canonical text.
pub fn moment(nanos: i128) -> (result: Option<String>)
    ensures
        optional_text(result) == rfc3339_of(nanos),
{
    rfc3339_format(nanos)
}

/// The present moment in its canonical text, none where that has none.
pub fn utc_now() -> (result: Option<String>)
    ensures
        exists|nanos: i128| optional_text(result) == #[trigger] rfc3339_of(nanos),
{
    moment(utc_clock().nanos)
}

/// A UUID that may be absent, in JSON, stands for one UUID or for none.
proof fn lemma_optional_uuids(a: Option<Uuid>, b: Option<Uuid>)
    ensures
        delimited(optional_uuid_json(a), optional_uuid_json(b)),
        optional_uuid_json(a) == optional_uuid_json(b) ==> a == b,
{
    let text = |uuid: Option<Uuid>|
        match uuid {
            Some(uuid) => Some(uuid.text()),
            None => None,
        };
    law_optional_texts_identify(text(a), text(b));
    if optional_uuid_json(a) == optional_uuid_json(b) && a is Some && b is Some {
        law_uuid_text_identifies(a->Some_0, b->Some_0);
    }
}

/// The object of some headers determines them.
proof fn lemma_headers_identify(
    a: Seq<(Seq<char>, Seq<char>)>,
    b: Seq<(Seq<char>, Seq<char>)>,
)
    ensures
        delimited(object_json(header_members(a)), object_json(header_members(b))),
        object_json(header_members(a)) == object_json(header_members(b)) ==> a == b,
{
    let x = header_members(a);
    let y = header_members(b);
    assert forall|i: int|
        0 <= i < x.len() && i < y.len() && (#[trigger] x[i]).0 == (
        #[trigger] y[i]).0 implies delimited(x[i].1, y[i].1) by {
        law_quoted_texts_identify(a[i].1, b[i].1);
    }
    law_objects_identify(x, y);
    if object_json(x) == object_json(y) {
        assert forall|i: int| 0 <= i < a.len() implies a[i] == b[i] by {
            assert(x[i] == y[i]);
            law_quoted_texts_identify(a[i].1, b[i].1);
        }
        assert(a =~= b);
    }
}

/// The members that describe two bodies are told apart, and determine the base64 texts.
proof fn lemma_bodies(a: Seq<u8>, b: Seq<u8>)
    ensures
        forall|i: int|
            0 <= i < 3 ==> delimited(
                (#[trigger] body_members(a)[i]).1,
                (#[trigger] body_members(b)[i]).1,
            ),
        body_members(a)[0] == body_members(b)[0] ==> base64_of(a) == base64_of(b),
{
    law_quoted_texts_identify(base64_of(a), base64_of(b));
    law_numbers_identify(a.len(), b.len());
    law_quoted_texts_identify(digest_text(a), digest_text(b));
    assert forall|i: int| 0 <= i < 3 implies delimited(
        (#[trigger] body_members(a)[i]).1,
        (#[trigger] body_members(b)[i]).1,
    ) by {
        assert(i == 0 || i == 1 || i == 2);
    }
}

/// The request in JSON determines what is known of the request, its body as base64.
proof fn lemma_requests_identify(a: SeedView, b: SeedView)
    ensures
        delimited(a.request_json(), b.request_json()),
        a.request_json() == b.request_json() ==> {
            &&& a.request_method == b.request_method
            &&& a.request_path == b.request_path
            &&& a.request_headers == b.request_headers
            &&& base64_of(a.request) == base64_of(b.request)
        },
{
    let first = |seed: SeedView|
        seq![
            ("method"@, json_quoted(seed.request_method)),
            ("path"@, json_quoted(seed.request_path)),
            ("headers"@, object_json(header_members(seed.request_headers))),
        ];
    let x = first(a) + body_members(a.request);
    let y = first(b) + body_members(b.request);
    law_quoted_texts_identify(a.request_method, b.request_method);
    law_quoted_texts_identify(a.request_path, b.request_path);
    lemma_headers_identify(a.request_headers, b.request_headers);
    lemma_bodies(a.request, b.request);
    assert forall|i: int|
        0 <= i < x.len() && i < y.len() && (#[trigger] x[i]).0 == (
        #[trigger] y[i]).0 implies delimited(x[i].1, y[i].1) by {
        if i >= 3 {
            assert(x[i] == body_members(a.request)[i - 3]);
            assert(y[i] == body_members(b.request)[i - 3]);
        } else {
            assert(i == 0 || i == 1 || i == 2);
        }
    }
    law_objects_identify(x, y);
    if a.request_json() == b.request_json() {
        assert(x[0] == y[0] && x[1] == y[1] && x[2] == y[2] && x[3] == y[3]);
        assert(x[3] == body_members(a.request)[0]);
        assert(y[3] == body_members(b.request)[0]);
    }
}

/// The response in JSON determines what is known of the response, its body as base64.
proof fn lemma_responses_identify(a: JobView, b: JobView)
    ensures
        delimited(a.response_json(), b.response_json()),
        a.response_json() == b.response_json() ==> {
            &&& a.seed.response_status == b.seed.response_status
            &&& a.seed.response_headers == b.seed.response_headers
            &&& base64_of(a.response) == base64_of(b.response)
        },
{
    let first = |job: JobView|
        seq![
            ("status"@, decimal(job.seed.response_status as nat)),
            ("headers"@, object_json(header_members(job.seed.response_headers))),
        ];
    let x = first(a) + body_members(a.response);
    let y = first(b) + body_members(b.response);
    law_numbers_identify(a.seed.response_status as nat, b.seed.response_status as nat);
    lemma_headers_identify(a.seed.response_headers, b.seed.response_headers);
    lemma_bodies(a.response, b.response);
    assert forall|i: int|
        0 <= i < x.len() && i < y.len() && (#[trigger] x[i]).0 == (
        #[trigger] y[i]).0 implies delimited(x[i].1, y[i].1) by {
        if i >= 2 {
            assert(x[i] == body_members(a.response)[i - 2]);
            assert(y[i] == body_members(b.response)[i - 2]);
        } else {
            assert(i == 0 || i == 1);
        }
    }
    law_objects_identify(x, y);
    if a.response_json() == b.response_json() {
        assert(x[0] == y[0] && x[1] == y[1] && x[2] == y[2]);
        assert(x[2] == body_members(a.response)[0]);
        assert(y[2] == body_members(b.response)[0]);
    }
}

/// The route in JSON determines what is known of the route.
proof fn lemma_routes_identify(a: SeedView, b: SeedView)
    ensures
        delimited(a.route_json(), b.route_json()),
        a.route_json() == b.route_json() ==> {
            &&& a.route_id == b.route_id
            &&& a.route_target == b.route_target
            &&& a.candidate_artifact_sha256 == b.candidate_artifact_sha256
            &&& a.candidate_binding_sha256 == b.candidate_binding_sha256
            &&& a.fallback_reason == b.fallback_reason
        },
{
    let members = |seed: SeedView|
        seq![
            ("route_id"@, optional_uuid_json(seed.route_id)),
            ("target"@, json_quoted(seed.route_target.name())),
            ("candidate_artifact_sha256"@, optional_json(seed.candidate_artifact_sha256)),
            ("candidate_binding_sha256"@, optional_json(seed.candidate_binding_sha256)),
            ("fallback_reason"@, optional_json(seed.fallback_reason)),
        ];
    let x = members(a);
    let y = members(b);
    lemma_optional_uuids(a.route_id, b.route_id);
    law_quoted_texts_identify(a.route_target.name(), b.route_target.name());
    law_optional_texts_identify(a.candidate_artifact_sha256, b.candidate_artifact_sha256);
    law_optional_texts_identify(a.candidate_binding_sha256, b.candidate_binding_sha256);
    law_optional_texts_identify(a.fallback_reason, b.fallback_reason);
    assert forall|i: int|
        0 <= i < x.len() && i < y.len() && (#[trigger] x[i]).0 == (
        #[trigger] y[i]).0 implies delimited(x[i].1, y[i].1) by {
        assert(i == 0 || i == 1 || i == 2 || i == 3 || i == 4);
    }
    law_objects_identify(x, y);
    if a.route_json() == b.route_json() {
        assert(x[0] == y[0] && x[1] == y[1] && x[2] == y[2] && x[3] == y[3] && x[4] == y[4]);
        law_target_names_identify(a.route_target, b.route_target);
    }
}

/// The times in JSON determine the times.
proof fn lemma_timings_identify(a: JobView, b: JobView)
    ensures
        delimited(a.timing_json(), b.timing_json()),
        a.timing_json() == b.timing_json() ==> a.ttft_ms == b.ttft_ms && a.total_ms == b.total_ms,
{
    let members = |job: JobView|
        seq![
            ("ttft_ms"@, optional_number_json(job.ttft_ms)),
            ("total_ms"@, decimal(job.total_ms as nat)),
        ];
    let x = members(a);
    let y = members(b);
    law_optional_numbers_identify(a.ttft_ms, b.ttft_ms);
    law_numbers_identify(a.total_ms as nat, b.total_ms as nat);
    assert forall|i: int|
        0 <= i < x.len() && i < y.len() && (#[trigger] x[i]).0 == (
        #[trigger] y[i]).0 implies delimited(x[i].1, y[i].1) by {
        assert(i == 0 || i == 1);
    }
    law_objects_identify(x, y);
    if a.timing_json() == b.timing_json() {
        assert(x[0] == y[0] && x[1] == y[1]);
    }
}

/// The names of members that follow one another differ.
proof fn lemma_neighbours_differ()
    ensures
        "trajectory_id"@ != "exchange_id"@,
        "exchange_id"@ != "started_at"@,
        "started_at"@ != "completed_at"@,
        "completed_at"@ != "endpoint"@,
        "endpoint"@ != "streaming"@,
        "streaming"@ != "request"@,
        "request"@ != "response"@,
        "response"@ != "route"@,
        "route"@ != "timing"@,
        "timing"@ != "complete"@,
{
    reveal_strlit("trajectory_id");
    reveal_strlit("exchange_id");
    reveal_strlit("started_at");
    reveal_strlit("completed_at");
    reveal_strlit("endpoint");
    reveal_strlit("streaming");
    reveal_strlit("request");
    reveal_strlit("response");
    reveal_strlit("route");
    reveal_strlit("timing");
    reveal_strlit("complete");
    assert("trajectory_id"@.len() == 13 && "exchange_id"@.len() == 11 && "started_at"@.len() == 10);
    assert("completed_at"@.len() == 12 && "endpoint"@.len() == 8 && "streaming"@.len() == 9);
    assert("request"@.len() == 7 && "response"@.len() == 8 && "route"@.len() == 5);
    assert("timing"@.len() == 6 && "complete"@.len() == 8);
}

/// The course of two exchanges: the values under each name are told apart, and determine what is
/// known of the course, the bodies as base64.
proof fn lemma_courses_identify(a: JobView, b: JobView)
    ensures
        forall|i: int|
            0 <= i < 9 ==> delimited(
                (#[trigger] a.course_members()[i]).1,
                (#[trigger] b.course_members()[i]).1,
            ),
        a.course_members() == b.course_members() ==> {
            &&& a.seed == (SeedView {
                scope_id: a.seed.scope_id,
                profile: a.seed.profile,
                trajectory_id: a.seed.trajectory_id,
                exchange_id: a.seed.exchange_id,
                request: a.seed.request,
                ..b.seed
            })
            &&& a == (JobView { seed: a.seed, response: a.response, ..b })
            &&& base64_of(a.seed.request) == base64_of(b.seed.request)
            &&& base64_of(a.response) == base64_of(b.response)
        },
{
    let x = a.course_members();
    let y = b.course_members();
    law_quoted_texts_identify(a.seed.started_at, b.seed.started_at);
    law_quoted_texts_identify(a.completed_at, b.completed_at);
    law_quoted_texts_identify(a.seed.endpoint.name(), b.seed.endpoint.name());
    law_booleans_identify(a.seed.streaming, b.seed.streaming);
    lemma_requests_identify(a.seed, b.seed);
    lemma_responses_identify(a, b);
    lemma_routes_identify(a.seed, b.seed);
    lemma_timings_identify(a, b);
    law_booleans_identify(true, true);
    assert forall|i: int| 0 <= i < 9 implies delimited(
        (#[trigger] x[i]).1,
        (#[trigger] y[i]).1,
    ) by {
        assert(i == 0 || i == 1 || i == 2 || i == 3 || i == 4 || i == 5 || i == 6 || i == 7 || i
            == 8);
    }
    if x == y {
        assert(x[0] == y[0] && x[1] == y[1] && x[2] == y[2] && x[3] == y[3]);
        assert(x[4] == y[4] && x[5] == y[5] && x[6] == y[6] && x[7] == y[7]);
        law_protocol_names_identify(a.seed.endpoint, b.seed.endpoint);
    }
}

/// The values of two captures under one name are told apart.
#[verifier::spinoff_prover]
proof fn lemma_members_apart(a: JobView, b: JobView, i: int)
    requires
        0 <= i < (a.seed.identity_members() + a.course_members()).len(),
        i < (b.seed.identity_members() + b.course_members()).len(),
        (a.seed.identity_members() + a.course_members())[i].0 == (b.seed.identity_members()
            + b.course_members())[i].0,
    ensures
        delimited(
            (a.seed.identity_members() + a.course_members())[i].1,
            (b.seed.identity_members() + b.course_members())[i].1,
        ),
{
    let x = a.seed.identity_members() + a.course_members();
    let y = b.seed.identity_members() + b.course_members();
    let n = a.seed.identity_members().len() as int;
    let m = b.seed.identity_members().len() as int;
    if i == 0 {
        lemma_told_from_rest(json_quoted("milk.exchange.v2"@));
    } else if i == 1 {
        law_quoted_texts_identify(a.seed.scope_id.text(), b.seed.scope_id.text());
    } else if i == 2 {
        law_quoted_texts_identify(a.seed.profile.name(), b.seed.profile.name());
    } else if n == m {
        if i >= n {
            lemma_courses_identify(a, b);
            assert(x[i] == a.course_members()[i - n]);
            assert(y[i] == b.course_members()[i - n]);
        } else if i == n - 1 {
            law_quoted_texts_identify(a.seed.exchange_id.text(), b.seed.exchange_id.text());
        } else {
            law_quoted_texts_identify(
                a.seed.trajectory_id->Some_0.text(),
                b.seed.trajectory_id->Some_0.text(),
            );
        }
    } else {
        lemma_neighbours_differ();
        assert(i == 3 || i == 4 || i == 5 || i == 6 || i == 7 || i == 8 || i == 9 || i == 10 || i
            == 11 || i == 12);
        assert(x[i].0 != y[i].0);
    }
}

/// The JSON text of a capture determines all that is known of the exchange, with the two bodies as
/// their base64 texts.
#[verifier::spinoff_prover]
pub proof fn law_capture_texts_identify(a: JobView, b: JobView)
    requires
        a.json() == b.json(),
    ensures
        a.seed == (SeedView { request: a.seed.request, ..b.seed }),
        a == (JobView { seed: a.seed, response: a.response, ..b }),
        base64_of(a.seed.request) == base64_of(b.seed.request),
        base64_of(a.response) == base64_of(b.response),
{
    let p = a.seed.identity_members();
    let q = b.seed.identity_members();
    let x = p + a.course_members();
    let y = q + b.course_members();
    assert forall|i: int|
        0 <= i < x.len() && i < y.len() && (#[trigger] x[i]).0 == (
        #[trigger] y[i]).0 implies delimited(x[i].1, y[i].1) by {
        lemma_members_apart(a, b, i);
    }
    law_objects_identify(x, y);
    assert(p.len() == q.len());
    assert(x[1] == y[1] && x[2] == y[2] && x[3] == y[3] && x[p.len() - 1] == y[p.len() - 1]);
    law_quoted_texts_identify(a.seed.scope_id.text(), b.seed.scope_id.text());
    law_uuid_text_identifies(a.seed.scope_id, b.seed.scope_id);
    law_quoted_texts_identify(a.seed.profile.name(), b.seed.profile.name());
    law_profile_names_identify(a.seed.profile, b.seed.profile);
    law_quoted_texts_identify(a.seed.exchange_id.text(), b.seed.exchange_id.text());
    law_uuid_text_identifies(a.seed.exchange_id, b.seed.exchange_id);
    if p.len() == 5 {
        let first = a.seed.trajectory_id->Some_0;
        let second = b.seed.trajectory_id->Some_0;
        law_quoted_texts_identify(first.text(), second.text());
        law_uuid_text_identifies(first, second);
    }
    lemma_courses_identify(a, b);
    assert(x.skip(p.len() as int) =~= a.course_members());
    assert(y.skip(p.len() as int) =~= b.course_members());
}

/// A capture says all that is known of its exchange, each thing under its name.
pub proof fn law_a_capture_says_all_that_is_known(job: JobView)
    ensures
        says(job.json(), "schema_version"@, json_quoted("milk.exchange.v2"@)),
        says(job.json(), "scope_id"@, json_quoted(job.seed.scope_id.text())),
        says(job.json(), "profile"@, json_quoted(job.seed.profile.name())),
        job.seed.trajectory_id matches Some(trajectory_id) ==> says(
            job.json(),
            "trajectory_id"@,
            json_quoted(trajectory_id.text()),
        ),
        says(job.json(), "exchange_id"@, json_quoted(job.seed.exchange_id.text())),
        says(job.json(), "started_at"@, json_quoted(job.seed.started_at)),
        says(job.json(), "completed_at"@, json_quoted(job.completed_at)),
        says(job.json(), "endpoint"@, json_quoted(job.seed.endpoint.name())),
        says(job.json(), "streaming"@, bool_json(job.seed.streaming)),
        says(job.json(), "request"@, job.seed.request_json()),
        says(job.json(), "response"@, job.response_json()),
        says(job.json(), "route"@, job.seed.route_json()),
        says(job.json(), "timing"@, job.timing_json()),
        says(job.json(), "complete"@, "true"@),
{
    let p = job.seed.identity_members();
    let c = job.course_members();
    let all = p + c;
    let n = p.len() as int;
    law_objects_say_their_members(all, 0);
    law_objects_say_their_members(all, 1);
    law_objects_say_their_members(all, 2);
    law_objects_say_their_members(all, n - 1);
    if job.seed.trajectory_id is Some {
        law_objects_say_their_members(all, 3);
    }
    assert(all[n] == c[0] && all[n + 1] == c[1] && all[n + 2] == c[2] && all[n + 3] == c[3]);
    assert(all[n + 4] == c[4] && all[n + 5] == c[5] && all[n + 6] == c[6] && all[n + 7] == c[7]);
    assert(all[n + 8] == c[8]);
    law_objects_say_their_members(all, n);
    law_objects_say_their_members(all, n + 1);
    law_objects_say_their_members(all, n + 2);
    law_objects_say_their_members(all, n + 3);
    law_objects_say_their_members(all, n + 4);
    law_objects_say_their_members(all, n + 5);
    law_objects_say_their_members(all, n + 6);
    law_objects_say_their_members(all, n + 7);
    law_objects_say_their_members(all, n + 8);
}

/// What a capture says of the request: its method, its path, its headers, and of its body the base64
/// text, the size and the digest.
pub proof fn law_a_capture_says_what_was_asked(seed: SeedView, i: int)
    ensures
        says(seed.request_json(), "method"@, json_quoted(seed.request_method)),
        says(seed.request_json(), "path"@, json_quoted(seed.request_path)),
        says(
            seed.request_json(),
            "headers"@,
            object_json(header_members(seed.request_headers)),
        ),
        0 <= i < seed.request_headers.len() ==> says(
            object_json(header_members(seed.request_headers)),
            seed.request_headers[i].0,
            json_quoted(seed.request_headers[i].1),
        ),
        says(seed.request_json(), "body_base64"@, json_quoted(base64_of(seed.request))),
        says(seed.request_json(), "byte_len"@, decimal(seed.request.len())),
        says(seed.request_json(), "sha256"@, json_quoted(hex_text(sha256_of(seed.request)))),
{
    let members = seq![
        ("method"@, json_quoted(seed.request_method)),
        ("path"@, json_quoted(seed.request_path)),
        ("headers"@, object_json(header_members(seed.request_headers))),
    ] + body_members(seed.request);
    law_objects_say_their_members(members, 0);
    law_objects_say_their_members(members, 1);
    law_objects_say_their_members(members, 2);
    law_objects_say_their_members(members, 3);
    law_objects_say_their_members(members, 4);
    law_objects_say_their_members(members, 5);
    if 0 <= i < seed.request_headers.len() {
        law_objects_say_their_members(header_members(seed.request_headers), i);
    }
}

/// What a capture says of the response: its status, its headers, and of its body the base64 text, the
/// size and the digest.
pub proof fn law_a_capture_says_what_was_answered(job: JobView, i: int)
    ensures
        says(job.response_json(), "status"@, decimal(job.seed.response_status as nat)),
        says(
            job.response_json(),
            "headers"@,
            object_json(header_members(job.seed.response_headers)),
        ),
        0 <= i < job.seed.response_headers.len() ==> says(
            object_json(header_members(job.seed.response_headers)),
            job.seed.response_headers[i].0,
            json_quoted(job.seed.response_headers[i].1),
        ),
        says(job.response_json(), "body_base64"@, json_quoted(base64_of(job.response))),
        says(job.response_json(), "byte_len"@, decimal(job.response.len())),
        says(job.response_json(), "sha256"@, json_quoted(hex_text(sha256_of(job.response)))),
{
    let members = seq![
        ("status"@, decimal(job.seed.response_status as nat)),
        ("headers"@, object_json(header_members(job.seed.response_headers))),
    ] + body_members(job.response);
    law_objects_say_their_members(members, 0);
    law_objects_say_their_members(members, 1);
    law_objects_say_their_members(members, 2);
    law_objects_say_their_members(members, 3);
    law_objects_say_their_members(members, 4);
    if 0 <= i < job.seed.response_headers.len() {
        law_objects_say_their_members(header_members(job.seed.response_headers), i);
    }
}

/// What a capture says of the route and of the times: what is absent as null.
pub proof fn law_a_capture_says_how_it_went(job: JobView)
    ensures
        says(
            job.seed.route_json(),
            "route_id"@,
            match job.seed.route_id {
                Some(route_id) => json_quoted(route_id.text()),
                None => "null"@,
            },
        ),
        says(job.seed.route_json(), "target"@, json_quoted(job.seed.route_target.name())),
        says(
            job.seed.route_json(),
            "candidate_artifact_sha256"@,
            match job.seed.candidate_artifact_sha256 {
                Some(digest) => json_quoted(digest),
                None => "null"@,
            },
        ),
        says(
            job.seed.route_json(),
            "candidate_binding_sha256"@,
            match job.seed.candidate_binding_sha256 {
                Some(digest) => json_quoted(digest),
                None => "null"@,
            },
        ),
        says(
            job.seed.route_json(),
            "fallback_reason"@,
            match job.seed.fallback_reason {
                Some(reason) => json_quoted(reason),
                None => "null"@,
            },
        ),
        says(
            job.timing_json(),
            "ttft_ms"@,
            match job.ttft_ms {
                Some(ms) => decimal(ms as nat),
                None => "null"@,
            },
        ),
        says(job.timing_json(), "total_ms"@, decimal(job.total_ms as nat)),
{
    let route = seq![
        ("route_id"@, optional_uuid_json(job.seed.route_id)),
        ("target"@, json_quoted(job.seed.route_target.name())),
        ("candidate_artifact_sha256"@, optional_json(job.seed.candidate_artifact_sha256)),
        ("candidate_binding_sha256"@, optional_json(job.seed.candidate_binding_sha256)),
        ("fallback_reason"@, optional_json(job.seed.fallback_reason)),
    ];
    law_objects_say_their_members(route, 0);
    law_objects_say_their_members(route, 1);
    law_objects_say_their_members(route, 2);
    law_objects_say_their_members(route, 3);
    law_objects_say_their_members(route, 4);
    let timing = seq![
        ("ttft_ms"@, optional_number_json(job.ttft_ms)),
        ("total_ms"@, decimal(job.total_ms as nat)),
    ];
    law_objects_say_their_members(timing, 0);
    law_objects_say_their_members(timing, 1);
}

/// What is kept of an exchange is its JSON text, compressed at level three.
pub proof fn law_what_is_kept_is_the_compressed_text(job: JobView)
    ensures
        job.encoded() == zstd_of(encode_utf8(job.json()), 3),
{
}

/// A job and what is known of its exchange are seen whole: no field is left out.
pub proof fn law_jobs_are_seen_whole(job: CaptureJob)
    ensures
        job@.completed_at == job.completed_at@,
        job@.response == job.response@,
        job@.ttft_ms == job.ttft_ms,
        job@.total_ms == job.total_ms,
        job@.seed.scope_id == job.seed.scope_id,
        job@.seed.profile == job.seed.profile,
        job@.seed.trajectory_id == job.seed.trajectory_id,
        job@.seed.exchange_id == job.seed.exchange_id,
        job@.seed.started_at == job.seed.started_at@,
        job@.seed.endpoint == job.seed.endpoint,
        job@.seed.streaming == job.seed.streaming,
        job@.seed.request_method == job.seed.request_method@,
        job@.seed.request_path == job.seed.request_path@,
        job@.seed.request_headers == text_header_views(job.seed.request_headers@),
        job@.seed.request == job.seed.request@,
        job@.seed.response_status == job.seed.response_status,
        job@.seed.response_headers == text_header_views(job.seed.response_headers@),
        job@.seed.route_id == job.seed.route_id,
        job@.seed.route_target == job.seed.route_target,
        job.seed.candidate_artifact_sha256 matches Some(digest)
            ==> job@.seed.candidate_artifact_sha256 == Some(digest@),
        job.seed.candidate_binding_sha256 matches Some(digest)
            ==> job@.seed.candidate_binding_sha256 == Some(digest@),
        job.seed.fallback_reason matches Some(reason) ==> job@.seed.fallback_reason == Some(
            reason@,
        ),
        job.seed.candidate_artifact_sha256 is None
            ==> job@.seed.candidate_artifact_sha256 is None,
        job.seed.candidate_binding_sha256 is None ==> job@.seed.candidate_binding_sha256 is None,
        job.seed.fallback_reason is None ==> job@.seed.fallback_reason is None,
{
}

} // verus!
