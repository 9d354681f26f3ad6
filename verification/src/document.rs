//! Route documents: the pointer to a scope's route, the route, and their canonical JSON texts.

use vstd::prelude::*;

use crate::boundary::json_quoted;
use crate::boundary::optional_text;
use crate::identity::law_target_names_identify;
use crate::identity::law_uuid_text_identifies;
use crate::identity::Protocol;
use crate::identity::Target;
use crate::identity::Uuid;
use crate::json::delimited;
use crate::json::law_numbers_identify;
use crate::json::law_objects_are_written_member_by_member;
use crate::json::law_objects_identify;
use crate::json::law_objects_say_their_members;
use crate::json::law_quoted_texts_identify;
use crate::json::lemma_first_characters_differ;
use crate::json::lemma_told_from_rest;
use crate::json::member;
use crate::json::member_views;
use crate::json::number_member;
use crate::json::object_json;
use crate::json::object_text;
use crate::json::says;
use crate::json::text_member;
use crate::json::Member;
use crate::text::decimal;

verus! {

/// The part of a route that sends some exchanges to a candidate.
pub struct CandidateRoute {
    pub target: Target,
    pub artifact_sha256: String,
    /// The share of exchanges, in hundredths of a per cent.
    pub basis_points: u16,
    /// The digest of the candidate's binding for Chat Completions.
    pub chat_completions: Option<String>,
    /// The digest of the candidate's binding for Responses.
    pub responses: Option<String>,
}

/// The part of a route that sends some exchanges to a candidate, as texts.
pub struct CandidateView {
    pub target: Target,
    pub artifact_sha256: Seq<char>,
    pub basis_points: u16,
    pub chat_completions: Option<Seq<char>>,
    pub responses: Option<Seq<char>>,
}

impl View for CandidateRoute {
    type V = CandidateView;

    open spec fn view(&self) -> CandidateView {
        CandidateView {
            target: self.target,
            artifact_sha256: self.artifact_sha256@,
            basis_points: self.basis_points,
            chat_completions: optional_text(self.chat_completions),
            responses: optional_text(self.responses),
        }
    }
}

/// The candidate of a route, where it has one.
pub open spec fn candidate_view(candidate: Option<CandidateRoute>) -> Option<CandidateView> {
    match candidate {
        Some(candidate) => Some(candidate@),
        None => None,
    }
}

/// The candidate of a route in JSON, where it has one.
pub open spec fn optional_candidate_json(candidate: Option<CandidateView>) -> Seq<char> {
    match candidate {
        Some(candidate) => candidate.json(),
        None => "null"@,
    }
}

impl CandidateView {
    /// The digest of the candidate's binding for a protocol.
    pub open spec fn binding(self, protocol: Protocol) -> Option<Seq<char>> {
        match protocol {
            Protocol::ChatCompletions => self.chat_completions,
            Protocol::Responses => self.responses,
        }
    }

    /// The members of the object that maps protocols to bindings.
    pub open spec fn protocol_members(self) -> Seq<(Seq<char>, Seq<char>)> {
        let chat = match self.chat_completions {
            Some(digest) => seq![("chat_completions"@, json_quoted(digest))],
            None => Seq::empty(),
        };
        match self.responses {
            Some(digest) => chat.push(("responses"@, json_quoted(digest))),
            None => chat,
        }
    }

    /// The canonical JSON text.
    pub open spec fn json(self) -> Seq<char> {
        object_json(
            seq![
                ("target"@, json_quoted(self.target.name())),
                ("artifact_sha256"@, json_quoted(self.artifact_sha256)),
                ("basis_points"@, decimal(self.basis_points as nat)),
                ("protocols"@, object_json(self.protocol_members())),
            ],
        )
    }
}

impl CandidateRoute {
    /// A copy.
    pub fn copied(&self) -> (result: CandidateRoute)
        ensures
            result@ == self@,
    {
        CandidateRoute {
            target: self.target,
            artifact_sha256: self.artifact_sha256.clone(),
            basis_points: self.basis_points,
            chat_completions: match &self.chat_completions {
                Some(digest) => Some(digest.clone()),
                None => None,
            },
            responses: match &self.responses {
                Some(digest) => Some(digest.clone()),
                None => None,
            },
        }
    }

    /// The canonical JSON text.
    pub fn to_json(&self) -> (result: String)
        ensures
            result@ == self@.json(),
    {
        let mut protocols: Vec<Member> = Vec::new();
        if let Some(digest) = &self.chat_completions {
            protocols.push(text_member("chat_completions", digest.as_str()));
        }
        if let Some(digest) = &self.responses {
            protocols.push(text_member("responses", digest.as_str()));
        }
        assert(member_views(protocols@) =~= self@.protocol_members());
        let mut members: Vec<Member> = Vec::new();
        members.push(text_member("target", self.target.as_str()));
        members.push(text_member("artifact_sha256", self.artifact_sha256.as_str()));
        members.push(number_member("basis_points", self.basis_points as u64));
        members.push(member("protocols", object_text(&protocols)));
        assert(member_views(members@) =~= seq![
            ("target"@, json_quoted(self.target.name())),
            ("artifact_sha256"@, json_quoted(self.artifact_sha256@)),
            ("basis_points"@, decimal(self.basis_points as nat)),
            ("protocols"@, object_json(self@.protocol_members())),
        ]);
        object_text(&members)
    }
}

/// A signed route.
pub struct SignedRoute {
    pub schema_version: String,
    pub scope_id: Uuid,
    pub route_id: Uuid,
    pub revision: u64,
    pub valid_from: String,
    pub expires_at: String,
    pub baseline: Target,
    pub candidate: Option<CandidateRoute>,
    pub signature: String,
}

/// A signed route, as texts.
pub struct RouteView {
    pub schema_version: Seq<char>,
    pub scope_id: Uuid,
    pub route_id: Uuid,
    pub revision: u64,
    pub valid_from: Seq<char>,
    pub expires_at: Seq<char>,
    pub baseline: Target,
    pub candidate: Option<CandidateView>,
    pub signature: Seq<char>,
}

impl View for SignedRoute {
    type V = RouteView;

    open spec fn view(&self) -> RouteView {
        RouteView {
            schema_version: self.schema_version@,
            scope_id: self.scope_id,
            route_id: self.route_id,
            revision: self.revision,
            valid_from: self.valid_from@,
            expires_at: self.expires_at@,
            baseline: self.baseline,
            candidate: candidate_view(self.candidate),
            signature: self.signature@,
        }
    }
}

impl RouteView {
    /// The members that are signed.
    pub open spec fn unsigned_members(self) -> Seq<(Seq<char>, Seq<char>)> {
        seq![
            ("schema_version"@, json_quoted(self.schema_version)),
            ("scope_id"@, json_quoted(self.scope_id.text())),
            ("route_id"@, json_quoted(self.route_id.text())),
            ("revision"@, decimal(self.revision as nat)),
            ("valid_from"@, json_quoted(self.valid_from)),
            ("expires_at"@, json_quoted(self.expires_at)),
            ("baseline"@, json_quoted(self.baseline.name())),
            ("candidate"@, optional_candidate_json(self.candidate)),
        ]
    }

    /// The text that is signed.
    pub open spec fn unsigned_json(self) -> Seq<char> {
        object_json(self.unsigned_members())
    }

    /// The canonical JSON text.
    pub open spec fn json(self) -> Seq<char> {
        object_json(self.unsigned_members().push(("signature"@, json_quoted(self.signature))))
    }
}

impl SignedRoute {
    /// The members that are signed.
    fn signed_members(&self) -> (result: Vec<Member>)
        ensures
            member_views(result@) == self@.unsigned_members(),
    {
        let mut members: Vec<Member> = Vec::new();
        members.push(text_member("schema_version", self.schema_version.as_str()));
        members.push(text_member("scope_id", self.scope_id.to_text().as_str()));
        members.push(text_member("route_id", self.route_id.to_text().as_str()));
        members.push(number_member("revision", self.revision));
        members.push(text_member("valid_from", self.valid_from.as_str()));
        members.push(text_member("expires_at", self.expires_at.as_str()));
        members.push(text_member("baseline", self.baseline.as_str()));
        members.push(
            member(
                "candidate",
                match &self.candidate {
                    Some(candidate) => candidate.to_json(),
                    None => "null".to_owned(),
                },
            ),
        );
        assert(member_views(members@) =~= self@.unsigned_members());
        members
    }

    /// The text that is signed.
    pub fn to_unsigned_json(&self) -> (result: String)
        ensures
            result@ == self@.unsigned_json(),
    {
        object_text(&self.signed_members())
    }

    /// The canonical JSON text.
    pub fn to_json(&self) -> (result: String)
        ensures
            result@ == self@.json(),
    {
        let mut members = self.signed_members();
        members.push(text_member("signature", self.signature.as_str()));
        assert(member_views(members@) =~= self@.unsigned_members().push(
            ("signature"@, json_quoted(self.signature@)),
        ));
        object_text(&members)
    }
}

/// A signed pointer to the route of a scope.
pub struct SignedPointer {
    pub schema_version: String,
    pub scope_id: Uuid,
    pub route_id: Uuid,
    pub revision: u64,
    pub route_sha256: String,
    pub published_at: String,
    pub signature: String,
}

/// A signed pointer to the route of a scope, as texts.
pub struct PointerView {
    pub schema_version: Seq<char>,
    pub scope_id: Uuid,
    pub route_id: Uuid,
    pub revision: u64,
    pub route_sha256: Seq<char>,
    pub published_at: Seq<char>,
    pub signature: Seq<char>,
}

impl View for SignedPointer {
    type V = PointerView;

    open spec fn view(&self) -> PointerView {
        PointerView {
            schema_version: self.schema_version@,
            scope_id: self.scope_id,
            route_id: self.route_id,
            revision: self.revision,
            route_sha256: self.route_sha256@,
            published_at: self.published_at@,
            signature: self.signature@,
        }
    }
}

impl PointerView {
    /// The members that are signed.
    pub open spec fn unsigned_members(self) -> Seq<(Seq<char>, Seq<char>)> {
        seq![
            ("schema_version"@, json_quoted(self.schema_version)),
            ("scope_id"@, json_quoted(self.scope_id.text())),
            ("route_id"@, json_quoted(self.route_id.text())),
            ("revision"@, decimal(self.revision as nat)),
            ("route_sha256"@, json_quoted(self.route_sha256)),
            ("published_at"@, json_quoted(self.published_at)),
        ]
    }

    /// The text that is signed.
    pub open spec fn unsigned_json(self) -> Seq<char> {
        object_json(self.unsigned_members())
    }

    /// The canonical JSON text.
    pub open spec fn json(self) -> Seq<char> {
        object_json(self.unsigned_members().push(("signature"@, json_quoted(self.signature))))
    }
}

impl SignedPointer {
    /// The members that are signed.
    fn signed_members(&self) -> (result: Vec<Member>)
        ensures
            member_views(result@) == self@.unsigned_members(),
    {
        let mut members: Vec<Member> = Vec::new();
        members.push(text_member("schema_version", self.schema_version.as_str()));
        members.push(text_member("scope_id", self.scope_id.to_text().as_str()));
        members.push(text_member("route_id", self.route_id.to_text().as_str()));
        members.push(number_member("revision", self.revision));
        members.push(text_member("route_sha256", self.route_sha256.as_str()));
        members.push(text_member("published_at", self.published_at.as_str()));
        assert(member_views(members@) =~= self@.unsigned_members());
        members
    }

    /// The text that is signed.
    pub fn to_unsigned_json(&self) -> (result: String)
        ensures
            result@ == self@.unsigned_json(),
    {
        object_text(&self.signed_members())
    }

    /// The canonical JSON text.
    pub fn to_json(&self) -> (result: String)
        ensures
            result@ == self@.json(),
    {
        let mut members = self.signed_members();
        members.push(text_member("signature", self.signature.as_str()));
        assert(member_views(members@) =~= self@.unsigned_members().push(
            ("signature"@, json_quoted(self.signature@)),
        ));
        object_text(&members)
    }
}

/// The values of the objects that map protocols to bindings are told apart.
proof fn lemma_protocols_apart(a: CandidateView, b: CandidateView, i: int)
    requires
        0 <= i < a.protocol_members().len(),
        i < b.protocol_members().len(),
    ensures
        delimited(a.protocol_members()[i].1, b.protocol_members()[i].1),
{
    let first = if i == 0 && a.chat_completions is Some {
        a.chat_completions->Some_0
    } else {
        a.responses->Some_0
    };
    let second = if i == 0 && b.chat_completions is Some {
        b.chat_completions->Some_0
    } else {
        b.responses->Some_0
    };
    assert(a.protocol_members()[i].1 == json_quoted(first));
    assert(b.protocol_members()[i].1 == json_quoted(second));
    law_quoted_texts_identify(first, second);
}

/// The object that maps protocols to bindings determines the bindings.
proof fn lemma_protocols_identify(a: CandidateView, b: CandidateView)
    requires
        a.protocol_members() == b.protocol_members(),
    ensures
        a.chat_completions == b.chat_completions,
        a.responses == b.responses,
{
    reveal_strlit("chat_completions");
    reveal_strlit("responses");
    assert("chat_completions"@.len() != "responses"@.len());
    let x = a.protocol_members();
    let y = b.protocol_members();
    if x.len() > 0 {
        assert(x[0] == y[0]);
        if a.chat_completions is Some {
            assert(x[0].0 == "chat_completions"@);
            assert(b.chat_completions is Some);
            law_quoted_texts_identify(a.chat_completions->Some_0, b.chat_completions->Some_0);
        }
        if a.responses is Some {
            assert(x[x.len() - 1] == y[x.len() - 1]);
            assert(x[x.len() - 1].0 == "responses"@);
            assert(b.responses is Some);
            law_quoted_texts_identify(a.responses->Some_0, b.responses->Some_0);
        }
    }
}

/// The canonical text of a candidate determines it.
pub proof fn law_candidate_texts_identify(a: CandidateView, b: CandidateView)
    ensures
        delimited(a.json(), b.json()),
        a.json() == b.json() ==> a == b,
{
    let x = seq![
        ("target"@, json_quoted(a.target.name())),
        ("artifact_sha256"@, json_quoted(a.artifact_sha256)),
        ("basis_points"@, decimal(a.basis_points as nat)),
        ("protocols"@, object_json(a.protocol_members())),
    ];
    let y = seq![
        ("target"@, json_quoted(b.target.name())),
        ("artifact_sha256"@, json_quoted(b.artifact_sha256)),
        ("basis_points"@, decimal(b.basis_points as nat)),
        ("protocols"@, object_json(b.protocol_members())),
    ];
    law_quoted_texts_identify(a.target.name(), b.target.name());
    law_quoted_texts_identify(a.artifact_sha256, b.artifact_sha256);
    law_numbers_identify(a.basis_points as nat, b.basis_points as nat);
    assert forall|i: int|
        0 <= i < a.protocol_members().len() && i < b.protocol_members().len() implies delimited(
        (#[trigger] a.protocol_members()[i]).1,
        (#[trigger] b.protocol_members()[i]).1,
    ) by {
        lemma_protocols_apart(a, b, i);
    }
    law_objects_identify(a.protocol_members(), b.protocol_members());
    assert forall|i: int| 0 <= i < x.len() && i < y.len() implies delimited(
        (#[trigger] x[i]).1,
        (#[trigger] y[i]).1,
    ) by {
        assert(i == 0 || i == 1 || i == 2 || i == 3);
    }
    law_objects_identify(x, y);
    if a.json() == b.json() {
        assert(x == y);
        assert(x[0] == y[0] && x[1] == y[1] && x[2] == y[2] && x[3] == y[3]);
        law_target_names_identify(a.target, b.target);
        lemma_protocols_identify(a, b);
    }
}

/// The texts of two candidates that may be absent are told apart.
proof fn lemma_optional_candidates_apart(a: Option<CandidateView>, b: Option<CandidateView>)
    ensures
        delimited(optional_candidate_json(a), optional_candidate_json(b)),
        optional_candidate_json(a) == optional_candidate_json(b) ==> a == b,
{
    reveal_strlit("null");
    match (a, b) {
        (Some(a), Some(b)) => law_candidate_texts_identify(a, b),
        (None, None) => lemma_told_from_rest("null"@),
        _ => {
            assert(a is Some ==> optional_candidate_json(a)[0] == '{');
            assert(b is Some ==> optional_candidate_json(b)[0] == '{');
            lemma_first_characters_differ(optional_candidate_json(a), optional_candidate_json(b));
        },
    }
}

/// The signed members of two routes are told apart, and determine the routes but for their
/// signatures.
proof fn lemma_route_members(a: RouteView, b: RouteView)
    ensures
        a.unsigned_members().len() == 8,
        b.unsigned_members().len() == 8,
        forall|i: int|
            0 <= i < 8 ==> delimited(
                (#[trigger] a.unsigned_members()[i]).1,
                (#[trigger] b.unsigned_members()[i]).1,
            ),
        a.unsigned_members() == b.unsigned_members() ==> a == (RouteView {
            signature: a.signature,
            ..b
        }),
{
    let x = a.unsigned_members();
    let y = b.unsigned_members();
    law_quoted_texts_identify(a.schema_version, b.schema_version);
    law_quoted_texts_identify(a.scope_id.text(), b.scope_id.text());
    law_quoted_texts_identify(a.route_id.text(), b.route_id.text());
    law_numbers_identify(a.revision as nat, b.revision as nat);
    law_quoted_texts_identify(a.valid_from, b.valid_from);
    law_quoted_texts_identify(a.expires_at, b.expires_at);
    law_quoted_texts_identify(a.baseline.name(), b.baseline.name());
    lemma_optional_candidates_apart(a.candidate, b.candidate);
    assert forall|i: int| 0 <= i < 8 implies delimited(
        (#[trigger] x[i]).1,
        (#[trigger] y[i]).1,
    ) by {
        assert(i == 0 || i == 1 || i == 2 || i == 3 || i == 4 || i == 5 || i == 6 || i == 7);
    }
    if x == y {
        assert(x[0] == y[0] && x[1] == y[1] && x[2] == y[2] && x[3] == y[3]);
        assert(x[4] == y[4] && x[5] == y[5] && x[6] == y[6] && x[7] == y[7]);
        law_uuid_text_identifies(a.scope_id, b.scope_id);
        law_uuid_text_identifies(a.route_id, b.route_id);
        law_target_names_identify(a.baseline, b.baseline);
    }
}

/// The text that is signed determines every field of a route but the signature.
pub proof fn law_route_signatures_cover_every_field(a: RouteView, b: RouteView)
    requires
        a.unsigned_json() == b.unsigned_json(),
    ensures
        a == (RouteView { signature: a.signature, ..b }),
{
    lemma_route_members(a, b);
    law_objects_identify(a.unsigned_members(), b.unsigned_members());
}

/// The canonical text of a route determines it.
pub proof fn law_route_texts_identify(a: RouteView, b: RouteView)
    requires
        a.json() == b.json(),
    ensures
        a == b,
{
    let x = a.unsigned_members().push(("signature"@, json_quoted(a.signature)));
    let y = b.unsigned_members().push(("signature"@, json_quoted(b.signature)));
    lemma_route_members(a, b);
    law_quoted_texts_identify(a.signature, b.signature);
    assert forall|i: int| 0 <= i < x.len() && i < y.len() implies delimited(
        (#[trigger] x[i]).1,
        (#[trigger] y[i]).1,
    ) by {
        if i < 8 {
            assert(x[i] == a.unsigned_members()[i]);
            assert(y[i] == b.unsigned_members()[i]);
        }
    }
    law_objects_identify(x, y);
    assert(x[8] == y[8]);
    assert(x.drop_last() =~= a.unsigned_members());
    assert(y.drop_last() =~= b.unsigned_members());
}

/// The signed members of two pointers are told apart, and determine the pointers but for their
/// signatures.
proof fn lemma_pointer_members(a: PointerView, b: PointerView)
    ensures
        a.unsigned_members().len() == 6,
        b.unsigned_members().len() == 6,
        forall|i: int|
            0 <= i < 6 ==> delimited(
                (#[trigger] a.unsigned_members()[i]).1,
                (#[trigger] b.unsigned_members()[i]).1,
            ),
        a.unsigned_members() == b.unsigned_members() ==> a == (PointerView {
            signature: a.signature,
            ..b
        }),
{
    let x = a.unsigned_members();
    let y = b.unsigned_members();
    law_quoted_texts_identify(a.schema_version, b.schema_version);
    law_quoted_texts_identify(a.scope_id.text(), b.scope_id.text());
    law_quoted_texts_identify(a.route_id.text(), b.route_id.text());
    law_numbers_identify(a.revision as nat, b.revision as nat);
    law_quoted_texts_identify(a.route_sha256, b.route_sha256);
    law_quoted_texts_identify(a.published_at, b.published_at);
    assert forall|i: int| 0 <= i < 6 implies delimited(
        (#[trigger] x[i]).1,
        (#[trigger] y[i]).1,
    ) by {
        assert(i == 0 || i == 1 || i == 2 || i == 3 || i == 4 || i == 5);
    }
    if x == y {
        assert(x[0] == y[0] && x[1] == y[1] && x[2] == y[2]);
        assert(x[3] == y[3] && x[4] == y[4] && x[5] == y[5]);
        law_uuid_text_identifies(a.scope_id, b.scope_id);
        law_uuid_text_identifies(a.route_id, b.route_id);
    }
}

/// The text that is signed determines every field of a pointer but the signature.
pub proof fn law_pointer_signatures_cover_every_field(a: PointerView, b: PointerView)
    requires
        a.unsigned_json() == b.unsigned_json(),
    ensures
        a == (PointerView { signature: a.signature, ..b }),
{
    lemma_pointer_members(a, b);
    law_objects_identify(a.unsigned_members(), b.unsigned_members());
}

/// The canonical text of a pointer determines it.
pub proof fn law_pointer_texts_identify(a: PointerView, b: PointerView)
    requires
        a.json() == b.json(),
    ensures
        a == b,
{
    let x = a.unsigned_members().push(("signature"@, json_quoted(a.signature)));
    let y = b.unsigned_members().push(("signature"@, json_quoted(b.signature)));
    lemma_pointer_members(a, b);
    law_quoted_texts_identify(a.signature, b.signature);
    assert forall|i: int| 0 <= i < x.len() && i < y.len() implies delimited(
        (#[trigger] x[i]).1,
        (#[trigger] y[i]).1,
    ) by {
        if i < 6 {
            assert(x[i] == a.unsigned_members()[i]);
            assert(y[i] == b.unsigned_members()[i]);
        }
    }
    law_objects_identify(x, y);
    assert(x[6] == y[6]);
    assert(x.drop_last() =~= a.unsigned_members());
    assert(y.drop_last() =~= b.unsigned_members());
}

/// The text of a route that is signed says every field of it, each under its name, and the stored
/// text says the signature besides.
pub proof fn law_routes_say_their_fields(route: RouteView)
    ensures
        says(route.unsigned_json(), "schema_version"@, json_quoted(route.schema_version)),
        says(route.unsigned_json(), "scope_id"@, json_quoted(route.scope_id.text())),
        says(route.unsigned_json(), "route_id"@, json_quoted(route.route_id.text())),
        says(route.unsigned_json(), "revision"@, decimal(route.revision as nat)),
        says(route.unsigned_json(), "valid_from"@, json_quoted(route.valid_from)),
        says(route.unsigned_json(), "expires_at"@, json_quoted(route.expires_at)),
        says(route.unsigned_json(), "baseline"@, json_quoted(route.baseline.name())),
        route.candidate is None ==> says(route.unsigned_json(), "candidate"@, "null"@),
        route.candidate matches Some(candidate) ==> says(
            route.unsigned_json(),
            "candidate"@,
            candidate.json(),
        ),
        says(route.json(), "signature"@, json_quoted(route.signature)),
        route.json() == route.unsigned_json().drop_last() + ","@ + json_quoted("signature"@) + ":"@
            + json_quoted(route.signature) + "}"@,
{
    let members = route.unsigned_members();
    law_objects_say_their_members(members, 0);
    law_objects_say_their_members(members, 1);
    law_objects_say_their_members(members, 2);
    law_objects_say_their_members(members, 3);
    law_objects_say_their_members(members, 4);
    law_objects_say_their_members(members, 5);
    law_objects_say_their_members(members, 6);
    law_objects_say_their_members(members, 7);
    let signed = members.push(("signature"@, json_quoted(route.signature)));
    assert(signed[8] == ("signature"@, json_quoted(route.signature)));
    law_objects_say_their_members(signed, 8);
    law_objects_are_written_member_by_member(
        members,
        "signature"@,
        json_quoted(route.signature),
    );
}

/// The text of a candidate says its target, its artifact, its share and, for each protocol that it
/// has, the digest of its binding.
pub proof fn law_candidates_say_their_fields(candidate: CandidateView)
    ensures
        says(candidate.json(), "target"@, json_quoted(candidate.target.name())),
        says(candidate.json(), "artifact_sha256"@, json_quoted(candidate.artifact_sha256)),
        says(candidate.json(), "basis_points"@, decimal(candidate.basis_points as nat)),
        says(candidate.json(), "protocols"@, object_json(candidate.protocol_members())),
        candidate.chat_completions matches Some(digest) ==> says(
            object_json(candidate.protocol_members()),
            "chat_completions"@,
            json_quoted(digest),
        ),
        candidate.responses matches Some(digest) ==> says(
            object_json(candidate.protocol_members()),
            "responses"@,
            json_quoted(digest),
        ),
        candidate.chat_completions is None && candidate.responses is None ==> object_json(
            candidate.protocol_members(),
        ) == "{}"@,
        candidate.binding(Protocol::ChatCompletions) == candidate.chat_completions,
        candidate.binding(Protocol::Responses) == candidate.responses,
{
    let members = seq![
        ("target"@, json_quoted(candidate.target.name())),
        ("artifact_sha256"@, json_quoted(candidate.artifact_sha256)),
        ("basis_points"@, decimal(candidate.basis_points as nat)),
        ("protocols"@, object_json(candidate.protocol_members())),
    ];
    law_objects_say_their_members(members, 0);
    law_objects_say_their_members(members, 1);
    law_objects_say_their_members(members, 2);
    law_objects_say_their_members(members, 3);
    let protocols = candidate.protocol_members();
    if candidate.chat_completions is Some {
        law_objects_say_their_members(protocols, 0);
    }
    if candidate.responses is Some {
        law_objects_say_their_members(protocols, protocols.len() - 1);
    }
    law_objects_are_written_member_by_member(Seq::empty(), ""@, ""@);
}

/// The text of a pointer that is signed says every field of it, each under its name, and the stored
/// text says the signature besides.
pub proof fn law_pointers_say_their_fields(pointer: PointerView)
    ensures
        says(pointer.unsigned_json(), "schema_version"@, json_quoted(pointer.schema_version)),
        says(pointer.unsigned_json(), "scope_id"@, json_quoted(pointer.scope_id.text())),
        says(pointer.unsigned_json(), "route_id"@, json_quoted(pointer.route_id.text())),
        says(pointer.unsigned_json(), "revision"@, decimal(pointer.revision as nat)),
        says(pointer.unsigned_json(), "route_sha256"@, json_quoted(pointer.route_sha256)),
        says(pointer.unsigned_json(), "published_at"@, json_quoted(pointer.published_at)),
        says(pointer.json(), "signature"@, json_quoted(pointer.signature)),
        pointer.json() == pointer.unsigned_json().drop_last() + ","@ + json_quoted("signature"@)
            + ":"@ + json_quoted(pointer.signature) + "}"@,
{
    let members = pointer.unsigned_members();
    law_objects_say_their_members(members, 0);
    law_objects_say_their_members(members, 1);
    law_objects_say_their_members(members, 2);
    law_objects_say_their_members(members, 3);
    law_objects_say_their_members(members, 4);
    law_objects_say_their_members(members, 5);
    let signed = members.push(("signature"@, json_quoted(pointer.signature)));
    assert(signed[6] == ("signature"@, json_quoted(pointer.signature)));
    law_objects_say_their_members(signed, 6);
    law_objects_are_written_member_by_member(
        members,
        "signature"@,
        json_quoted(pointer.signature),
    );
}

/// Documents are seen whole: no field is left out.
pub proof fn law_documents_are_seen_whole(
    route: SignedRoute,
    pointer: SignedPointer,
    candidate: CandidateRoute,
)
    ensures
        route@.schema_version == route.schema_version@,
        route@.scope_id == route.scope_id,
        route@.route_id == route.route_id,
        route@.revision == route.revision,
        route@.valid_from == route.valid_from@,
        route@.expires_at == route.expires_at@,
        route@.baseline == route.baseline,
        route@.signature == route.signature@,
        route.candidate is None ==> route@.candidate is None,
        route.candidate matches Some(part) ==> route@.candidate == Some(part@),
        pointer@.schema_version == pointer.schema_version@,
        pointer@.scope_id == pointer.scope_id,
        pointer@.route_id == pointer.route_id,
        pointer@.revision == pointer.revision,
        pointer@.route_sha256 == pointer.route_sha256@,
        pointer@.published_at == pointer.published_at@,
        pointer@.signature == pointer.signature@,
        candidate@.target == candidate.target,
        candidate@.artifact_sha256 == candidate.artifact_sha256@,
        candidate@.basis_points == candidate.basis_points,
        candidate.chat_completions is None ==> candidate@.chat_completions is None,
        candidate.chat_completions matches Some(digest) ==> candidate@.chat_completions == Some(
            digest@,
        ),
        candidate.responses is None ==> candidate@.responses is None,
        candidate.responses matches Some(digest) ==> candidate@.responses == Some(digest@),
{
}

} // verus!
