//! Which upstream an exchange goes to, and how the routes in force are kept fresh.

use std::collections::HashMap;
use vstd::prelude::*;

use crate::boundary::monotonic_now;
use crate::boundary::nanos_since;
use crate::boundary::optional_text;
use crate::boundary::sha256;
use crate::boundary::sha256_of;
use crate::boundary::utc_clock;
use crate::digest::digest_text;
use crate::digest::sha256_hex;
use crate::document::CandidateView;
use crate::document::PointerView;
use crate::document::RouteView;
use crate::document::SignedPointer;
use crate::document::SignedRoute;
use crate::identity::Profile;
use crate::identity::Protocol;
use crate::identity::Target;
use crate::identity::Uuid;
use crate::keys::KeyBinding;
use crate::route::parse_pointer;
use crate::route::parse_route;
use crate::route::pointer_outcome;
use crate::route::pointer_view;
use crate::route::route_outcome;
use crate::route::route_view;
use crate::route::verified_view;
use crate::route::RouteError;
use crate::route::VerifiedRoute;
use crate::route::VerifiedView;
use crate::route::VerifyingKey;
use crate::text::hex_text;
use crate::text::same_text;

verus! {

broadcast use vstd::std_specs::hash::group_hash_axioms;

/// The number that bytes stand for, the most significant first.
pub open spec fn big_endian(bytes: Seq<u8>) -> nat
    decreases bytes.len(),
{
    if bytes.len() == 0 {
        0
    } else {
        big_endian(bytes.drop_last()) * 256 + bytes.last() as nat
    }
}

/// The bucket, out of ten thousand of equal size, in which the head of a digest falls.
pub open spec fn bucket_of(digest: Seq<u8>) -> nat {
    big_endian(digest.take(8)) * 10000 / 0x1_0000_0000_0000_0000
}

/// The bucket of an exchange under a route.
pub open spec fn exchange_bucket(route_id: Uuid, exchange_id: Uuid) -> nat {
    bucket_of(sha256_of(route_id.bytes() + exchange_id.bytes()))
}

/// One more byte shifts the number by eight bits.
proof fn lemma_next_byte(bytes: Seq<u8>, i: int)
    requires
        0 <= i < bytes.len(),
    ensures
        big_endian(bytes.take(i + 1)) == big_endian(bytes.take(i)) * 256 + bytes[i],
{
    assert(bytes.take(i + 1).drop_last() =~= bytes.take(i));
}

/// Eight bytes stand for a number below two to the power of 64, and fewer for one below two to the
/// power of 56.
proof fn lemma_eight_bytes(bytes: Seq<u8>)
    requires
        bytes.len() == 8,
    ensures
        big_endian(bytes) < 0x1_0000_0000_0000_0000,
        forall|i: int| 0 <= i < 8 ==> #[trigger] big_endian(bytes.take(i)) < 0x100_0000_0000_0000,
{
    assert(big_endian(bytes.take(0)) == 0);
    lemma_next_byte(bytes, 0);
    lemma_next_byte(bytes, 1);
    lemma_next_byte(bytes, 2);
    lemma_next_byte(bytes, 3);
    lemma_next_byte(bytes, 4);
    lemma_next_byte(bytes, 5);
    lemma_next_byte(bytes, 6);
    lemma_next_byte(bytes, 7);
    assert(bytes.take(8) =~= bytes);
    assert forall|i: int| 0 <= i < 8 implies #[trigger] big_endian(bytes.take(i))
        < 0x100_0000_0000_0000 by {
        assert(i == 0 || i == 1 || i == 2 || i == 3 || i == 4 || i == 5 || i == 6 || i == 7);
    }
}

/// The bucket in which the head of a digest falls.
pub fn bucket(digest: &[u8; 32]) -> (result: u16)
    ensures
        result == bucket_of(digest@),
        result < 10000,
{
    let ghost head = digest@.take(8);
    proof {
        lemma_eight_bytes(head);
    }
    let mut value: u64 = 0;
    for i in 0..8usize
        invariant
            head == digest@.take(8),
            value == big_endian(head.take(i as int)),
            big_endian(head) < 0x1_0000_0000_0000_0000,
            forall|k: int|
                0 <= k < 8 ==> #[trigger] big_endian(head.take(k)) < 0x100_0000_0000_0000,
    {
        proof {
            lemma_next_byte(head, i as int);
        }
        value = value * 256 + digest[i] as u64;
    }
    assert(head.take(8) =~= head);
    (value as u128 * 10000 / 0x1_0000_0000_0000_0000) as u16
}

/// Whether an exchange falls in the candidate's share under a route. The full share takes every
/// exchange, and a share of nothing none.
pub fn assigned_to_candidate(route_id: Uuid, exchange_id: Uuid, basis_points: u16) -> (result: bool)
    ensures
        result == (exchange_bucket(route_id, exchange_id) < basis_points),
        basis_points >= 10000 ==> result,
        basis_points == 0 ==> !result,
{
    let mut message = route_id.to_bytes();
    let mut exchange = exchange_id.to_bytes();
    message.append(&mut exchange);
    bucket(&sha256(message.as_slice())) < basis_points
}

/// Which upstream an exchange goes to.
pub struct RouteChoice {
    pub route_id: Option<Uuid>,
    pub target: Target,
    pub candidate_artifact_sha256: Option<String>,
    pub candidate_binding_sha256: Option<String>,
}

/// Which upstream an exchange goes to, as texts.
pub struct ChoiceView {
    pub route_id: Option<Uuid>,
    pub target: Target,
    pub candidate_artifact_sha256: Option<Seq<char>>,
    pub candidate_binding_sha256: Option<Seq<char>>,
}

impl View for RouteChoice {
    type V = ChoiceView;

    open spec fn view(&self) -> ChoiceView {
        ChoiceView {
            route_id: self.route_id,
            target: self.target,
            candidate_artifact_sha256: optional_text(self.candidate_artifact_sha256),
            candidate_binding_sha256: optional_text(self.candidate_binding_sha256),
        }
    }
}

/// The choice where no route is in force.
pub open spec fn unrouted() -> ChoiceView {
    ChoiceView {
        route_id: None,
        target: Target::Baseline,
        candidate_artifact_sha256: None,
        candidate_binding_sha256: None,
    }
}

/// The choice where no route is in force.
pub fn unrouted_choice() -> (result: RouteChoice)
    ensures
        result@ == unrouted(),
{
    RouteChoice {
        route_id: None,
        target: Target::Baseline,
        candidate_artifact_sha256: None,
        candidate_binding_sha256: None,
    }
}

impl VerifiedView {
    /// The digest of the candidate's binding for a protocol.
    pub open spec fn binding(self, protocol: Protocol) -> Option<Seq<char>> {
        match self.candidate {
            Some(candidate) => candidate.binding(protocol),
            None => None,
        }
    }

    /// A bucket lies in the candidate's share.
    pub open spec fn in_share(self, bucket: nat) -> bool {
        match self.candidate {
            Some(candidate) => bucket < candidate.basis_points,
            None => false,
        }
    }

    /// The choice of this route: the candidate, where it has a binding for the protocol and the
    /// exchange is assigned to it.
    pub open spec fn choice(self, protocol: Protocol, assigned: bool) -> ChoiceView {
        ChoiceView {
            route_id: Some(self.route_id),
            target: if self.binding(protocol) is Some && assigned {
                Target::CandidateA
            } else {
                Target::Baseline
            },
            candidate_artifact_sha256: match self.candidate {
                Some(candidate) => Some(candidate.artifact_sha256),
                None => None,
            },
            candidate_binding_sha256: self.binding(protocol),
        }
    }

    /// The route is in force at a moment.
    pub open spec fn in_force(self, now: int) -> bool {
        self.valid_from <= now < self.expires_at
    }
}

/// The choice for an exchange at a moment, under the route that is kept.
pub open spec fn chosen(
    route: Option<VerifiedView>,
    exchange_id: Uuid,
    protocol: Protocol,
    now: int,
) -> ChoiceView {
    match route {
        Some(route) => if route.in_force(now) {
            route.choice(
                protocol,
                route.in_share(exchange_bucket(route.route_id, exchange_id)),
            )
        } else {
            unrouted()
        },
        None => unrouted(),
    }
}

/// The choice of a route for an exchange of which it is known whether it falls in the candidate's
/// share.
pub fn choice_of(route: &VerifiedRoute, protocol: Protocol, assigned: bool) -> (result: RouteChoice)
    ensures
        result@ == route@.choice(protocol, assigned),
{
    match &route.candidate {
        None => RouteChoice {
            route_id: Some(route.route_id),
            target: Target::Baseline,
            candidate_artifact_sha256: None,
            candidate_binding_sha256: None,
        },
        Some(candidate) => {
            let binding = match protocol {
                Protocol::ChatCompletions => &candidate.chat_completions,
                Protocol::Responses => &candidate.responses,
            };
            RouteChoice {
                route_id: Some(route.route_id),
                target: if binding.is_some() && assigned {
                    Target::CandidateA
                } else {
                    Target::Baseline
                },
                candidate_artifact_sha256: Some(candidate.artifact_sha256.clone()),
                candidate_binding_sha256: match binding {
                    Some(digest) => Some(digest.clone()),
                    None => None,
                },
            }
        },
    }
}

/// The choice for an exchange at a moment, under the route that is kept.
pub fn choose_route(
    route: &Option<VerifiedRoute>,
    exchange_id: Uuid,
    protocol: Protocol,
    now: i128,
) -> (result: RouteChoice)
    ensures
        result@ == chosen(verified_view(*route), exchange_id, protocol, now as int),
{
    match route {
        Some(route) => {
            if route.valid_from <= now && now < route.expires_at {
                let assigned = match &route.candidate {
                    Some(candidate) => assigned_to_candidate(
                        route.route_id,
                        exchange_id,
                        candidate.basis_points,
                    ),
                    None => false,
                };
                choice_of(route, protocol, assigned)
            } else {
                unrouted_choice()
            }
        },
        None => unrouted_choice(),
    }
}

/// What is kept of a scope.
pub struct ScopeState {
    /// When its route was last polled, in nanoseconds of the manager's own clock.
    pub last_poll: Option<u128>,
    /// Whether a poll is under way.
    pub refreshing: bool,
    /// The route that was last taken over.
    pub route: Option<VerifiedRoute>,
}

impl ScopeState {
    /// Nothing is known of the scope.
    pub open spec fn unknown() -> ScopeState {
        ScopeState { last_poll: None, refreshing: false, route: None }
    }

    /// A poll is to start.
    pub open spec fn due(self, reading: u128, poll_every: u128) -> bool {
        &&& !self.refreshing
        &&& match self.last_poll {
            None => true,
            Some(last) => (if reading >= last {
                reading - last
            } else {
                0
            }) >= poll_every,
        }
    }

    /// The state once a poll has started, where one is due.
    pub open spec fn after_choice(self, reading: u128, poll_every: u128) -> ScopeState {
        if self.due(reading, poll_every) {
            ScopeState { last_poll: Some(reading), refreshing: true, route: self.route }
        } else {
            self
        }
    }

    /// The state once a poll has ended, with the route that it brought.
    pub open spec fn after_refresh(self, fresh: Option<VerifiedRoute>) -> ScopeState {
        ScopeState {
            last_poll: self.last_poll,
            refreshing: false,
            route: match fresh {
                Some(route) => Some(route),
                None => self.route,
            },
        }
    }
}

/// What is kept of a scope, among all scopes.
pub open spec fn state_of(scopes: Map<u128, ScopeState>, scope_id: Uuid) -> ScopeState {
    if scopes.dom().contains(scope_id.value) {
        scopes[scope_id.value]
    } else {
        ScopeState::unknown()
    }
}

/// The object that holds the pointer of a scope.
pub struct PointerObject {
    pub bytes: Vec<u8>,
    /// What the bytes were read as.
    pub parsed: Option<SignedPointer>,
}

/// The object that holds a route.
pub struct RouteObject {
    pub bytes: Vec<u8>,
    /// What the bytes were read as.
    pub parsed: Option<SignedRoute>,
}

/// What a poll does once the pointer was read.
pub enum PollStep {
    /// The route that is kept stays.
    Unchanged,
    /// The object of the route that the pointer names is read.
    FetchRoute(SignedPointer),
}

/// What a poll does with a verified pointer: whether the route it names is to be read. The pointer
/// must be at the trusted revision, and must not go back from the route that is kept.
pub open spec fn pointer_step(
    pointer: PointerView,
    expected: Option<u64>,
    current: Option<VerifiedView>,
) -> Result<bool, RouteError> {
    match expected {
        None => Err(RouteError::NoRevision),
        Some(expected) => if pointer.revision != expected {
            Err(RouteError::RevisionMismatch { found: pointer.revision, trusted: expected })
        } else {
            match current {
                None => Ok(true),
                Some(current) => if pointer.revision < current.revision || pointer.revision
                    == current.revision && pointer.route_id != current.route_id {
                    Err(RouteError::Stale)
                } else if pointer.revision > current.revision {
                    Ok(true)
                } else if pointer.route_sha256 != current.route_sha256 {
                    Err(RouteError::Conflict)
                } else {
                    Ok(false)
                },
            }
        },
    }
}

/// What a poll comes to with the object of the route that the pointer names.
pub open spec fn fetched_outcome(
    bytes: Seq<u8>,
    parsed: Option<RouteView>,
    key: Seq<u8>,
    scope_id: Uuid,
    pointer: PointerView,
    now: int,
) -> Result<VerifiedView, RouteError> {
    if digest_text(bytes) != pointer.route_sha256 {
        Err(RouteError::DigestMismatch)
    } else {
        match route_outcome(bytes, parsed, key, scope_id) {
            Err(problem) => Err(problem),
            Ok(route) => if route.route_id != pointer.route_id || route.revision
                != pointer.revision {
                Err(RouteError::IdentityMismatch)
            } else if !route.in_force(now) {
                Err(RouteError::NotCurrent)
            } else {
                Ok(route)
            },
        }
    }
}

/// The routes in force, by scope.
pub struct RouteManager {
    pub verifying_key: VerifyingKey,
    /// How often the route of a scope is polled, in nanoseconds.
    pub poll_every: u128,
    /// The trusted revision of each production scope.
    pub expected_revisions: HashMap<u128, u64>,
    pub scopes: HashMap<u128, ScopeState>,
    /// When the manager's own clock started.
    pub origin: std::time::Instant,
}

impl RouteManager {
    /// The settings that no operation changes.
    pub open spec fn same_settings(self, other: RouteManager) -> bool {
        &&& self.verifying_key == other.verifying_key
        &&& self.poll_every == other.poll_every
        &&& self.expected_revisions == other.expected_revisions
        &&& self.origin == other.origin
    }

    /// The trusted revision of a scope.
    pub open spec fn expected(self, scope_id: Uuid) -> Option<u64> {
        if self.expected_revisions@.dom().contains(scope_id.value) {
            Some(self.expected_revisions@[scope_id.value])
        } else {
            None
        }
    }

    /// The route that is kept of a scope.
    pub open spec fn kept(self, scope_id: Uuid) -> Option<VerifiedView> {
        verified_view(state_of(self.scopes@, scope_id).route)
    }

    /// What a choice does to the manager, and what it gives, at given readings of the two clocks.
    pub open spec fn choice_step(
        self,
        next: RouteManager,
        choice: ChoiceView,
        refresh: bool,
        scope_id: Uuid,
        production: bool,
        exchange_id: Uuid,
        protocol: Protocol,
        reading: u128,
        now: i128,
    ) -> bool {
        let state = state_of(self.scopes@, scope_id);
        &&& next.same_settings(self)
        &&& if production {
            &&& next.scopes@ == self.scopes@.insert(
                scope_id.value,
                state.after_choice(reading, self.poll_every),
            )
            &&& refresh == state.due(reading, self.poll_every)
            &&& choice == chosen(verified_view(state.route), exchange_id, protocol, now as int)
        } else {
            &&& next.scopes@ == self.scopes@
            &&& !refresh
            &&& choice == unrouted()
        }
    }

    /// A manager that knows no route.
    pub fn new(
        verifying_key: VerifyingKey,
        poll_every: u128,
        expected_revisions: HashMap<u128, u64>,
    ) -> (result: RouteManager)
        ensures
            result.verifying_key == verifying_key,
            result.poll_every == poll_every,
            result.expected_revisions == expected_revisions,
            result.scopes@ == Map::<u128, ScopeState>::empty(),
    {
        RouteManager {
            verifying_key,
            poll_every,
            expected_revisions,
            scopes: HashMap::new(),
            origin: monotonic_now(),
        }
    }

    /// Chooses where an exchange goes, at given readings of the two clocks, and says whether a
    /// refresh of the scope's route is to start.
    pub fn choose_at(
        &mut self,
        scope_id: Uuid,
        production: bool,
        exchange_id: Uuid,
        protocol: Protocol,
        reading: u128,
        now: i128,
    ) -> (result: (RouteChoice, bool))
        ensures
            old(self).choice_step(
                *final(self),
                result.0@,
                result.1,
                scope_id,
                production,
                exchange_id,
                protocol,
                reading,
                now,
            ),
    {
        if !production {
            return (unrouted_choice(), false);
        }
        let ghost before = self.scopes@;
        let mut state = match self.scopes.remove(&scope_id.value) {
            Some(state) => state,
            None => ScopeState { last_poll: None, refreshing: false, route: None },
        };
        let due = match state.last_poll {
            None => true,
            Some(last) => reading.saturating_sub(last) >= self.poll_every,
        };
        let refresh = due && !state.refreshing;
        if refresh {
            state.last_poll = Some(reading);
            state.refreshing = true;
        }
        let choice = choose_route(&state.route, exchange_id, protocol, now);
        self.scopes.insert(scope_id.value, state);
        assert(self.scopes@ =~= before.insert(
            scope_id.value,
            state_of(before, scope_id).after_choice(reading, self.poll_every),
        ));
        (choice, refresh)
    }

    /// Chooses where an exchange goes, and says whether a refresh of the scope's route is to start.
    pub fn choose_target(
        &mut self,
        scope_id: Uuid,
        production: bool,
        exchange_id: Uuid,
        protocol: Protocol,
    ) -> (result: (RouteChoice, bool))
        ensures
            exists|reading: u128, now: i128|
                old(self).choice_step(
                    *final(self),
                    result.0@,
                    result.1,
                    scope_id,
                    production,
                    exchange_id,
                    protocol,
                    reading,
                    now,
                ),
    {
        let reading: u128 = nanos_since(&self.origin);
        let now: i128 = utc_clock().nanos;
        self.choose_at(scope_id, production, exchange_id, protocol, reading, now)
    }

    /// Chooses where an exchange under a key goes: only keys of production scopes are routed.
    pub fn choose_for(&mut self, binding: &KeyBinding, exchange_id: Uuid, protocol: Protocol) -> (
    result: (RouteChoice, bool))
        ensures
            exists|reading: u128, now: i128|
                old(self).choice_step(
                    *final(self),
                    result.0@,
                    result.1,
                    binding.scope_id,
                    binding.is_routed(),
                    exchange_id,
                    protocol,
                    reading,
                    now,
                ),
    {
        let ghost before = *self;
        let production = binding.profile == Profile::Production;
        let (choice, refresh) = self.choose_target(
            binding.scope_id,
            production,
            exchange_id,
            protocol,
        );
        proof {
            let (reading, now) = choose|reading: u128, now: i128|
                before.choice_step(
                    *self,
                    choice@,
                    refresh,
                    binding.scope_id,
                    production,
                    exchange_id,
                    protocol,
                    reading,
                    now,
                );
            assert(production == binding.is_routed());
            assert(before.choice_step(
                *self,
                choice@,
                refresh,
                binding.scope_id,
                binding.is_routed(),
                exchange_id,
                protocol,
                reading,
                now,
            ));
        }
        (choice, refresh)
    }

    /// The route that is kept of a scope, for a refresh.
    pub fn current(&self, scope_id: Uuid) -> (result: Option<VerifiedRoute>)
        ensures
            verified_view(result) == self.kept(scope_id),
    {
        match self.scopes.get(&scope_id.value) {
            Some(state) => match &state.route {
                Some(route) => Some(route.copied()),
                None => None,
            },
            None => None,
        }
    }

    /// Ends a refresh with the route that it brought, if any.
    pub fn finish_refresh(&mut self, scope_id: Uuid, fresh: Option<VerifiedRoute>)
        ensures
            final(self).same_settings(*old(self)),
            final(self).scopes@ == old(self).scopes@.insert(
                scope_id.value,
                state_of(old(self).scopes@, scope_id).after_refresh(fresh),
            ),
    {
        let ghost before = self.scopes@;
        let mut state = match self.scopes.remove(&scope_id.value) {
            Some(state) => state,
            None => ScopeState { last_poll: None, refreshing: false, route: None },
        };
        state.refreshing = false;
        if fresh.is_some() {
            state.route = fresh;
        }
        self.scopes.insert(scope_id.value, state);
        assert(self.scopes@ =~= before.insert(
            scope_id.value,
            state_of(before, scope_id).after_refresh(fresh),
        ));
    }

    /// What a poll does once the object of the scope's pointer was looked up.
    pub fn poll_pointer(
        &self,
        scope_id: Uuid,
        stored: Option<PointerObject>,
        current: &Option<VerifiedRoute>,
    ) -> (result: Result<PollStep, RouteError>)
        ensures
            match stored {
                None => result matches Ok(step) && step is Unchanged,
                Some(object) => match pointer_outcome(
                    object.bytes@,
                    pointer_view(object.parsed),
                    self.verifying_key.bytes@,
                    scope_id,
                ) {
                    Err(problem) => result matches Err(error) && error == problem,
                    Ok(pointer) => match pointer_step(
                        pointer,
                        self.expected(scope_id),
                        verified_view(*current),
                    ) {
                        Err(problem) => result matches Err(error) && error == problem,
                        Ok(false) => result matches Ok(step) && step is Unchanged,
                        Ok(true) => result matches Ok(PollStep::FetchRoute(named)) && named@
                            == pointer,
                    },
                },
            },
    {
        let object = match stored {
            Some(object) => object,
            None => return Ok(PollStep::Unchanged),
        };
        let pointer = match parse_pointer(
            object.bytes.as_slice(),
            object.parsed,
            &self.verifying_key,
            scope_id,
        ) {
            Ok(pointer) => pointer,
            Err(error) => return Err(error),
        };
        let expected: u64 = match self.expected_revisions.get(&scope_id.value) {
            Some(expected) => *expected,
            None => return Err(RouteError::NoRevision),
        };
        if pointer.revision != expected {
            return Err(
                RouteError::RevisionMismatch { found: pointer.revision, trusted: expected },
            );
        }
        if let Some(current) = current {
            if pointer.revision < current.revision || (pointer.revision == current.revision
                && pointer.route_id != current.route_id) {
                return Err(RouteError::Stale);
            }
            if pointer.revision == current.revision {
                if !same_text(pointer.route_sha256.as_str(), current.route_sha256.as_str()) {
                    return Err(RouteError::Conflict);
                }
                return Ok(PollStep::Unchanged);
            }
        }
        Ok(PollStep::FetchRoute(pointer))
    }

    /// What a poll comes to at a moment, with what was stored for the route that the pointer names.
    pub fn poll_route_at(
        &self,
        scope_id: Uuid,
        pointer: &SignedPointer,
        stored: Option<RouteObject>,
        now: i128,
    ) -> (result: Result<VerifiedRoute, RouteError>)
        ensures
            self.route_step(scope_id, pointer@, stored, now, result),
    {
        let object = match stored {
            Some(object) => object,
            None => return Err(RouteError::MissingRoute),
        };
        let digest = sha256_hex(object.bytes.as_slice());
        if !same_text(digest.as_str(), pointer.route_sha256.as_str()) {
            return Err(RouteError::DigestMismatch);
        }
        let route = match parse_route(
            object.bytes.as_slice(),
            object.parsed,
            &self.verifying_key,
            scope_id,
        ) {
            Ok(route) => route,
            Err(error) => return Err(error),
        };
        if route.route_id != pointer.route_id || route.revision != pointer.revision {
            return Err(RouteError::IdentityMismatch);
        }
        if route.valid_from > now || route.expires_at <= now {
            return Err(RouteError::NotCurrent);
        }
        Ok(route)
    }

    /// What a poll comes to, with what was stored for the route that the pointer names.
    pub open spec fn route_step(
        self,
        scope_id: Uuid,
        pointer: PointerView,
        stored: Option<RouteObject>,
        now: i128,
        result: Result<VerifiedRoute, RouteError>,
    ) -> bool {
        match stored {
            None => result matches Err(error) && error == RouteError::MissingRoute,
            Some(object) => match fetched_outcome(
                object.bytes@,
                route_view(object.parsed),
                self.verifying_key.bytes@,
                scope_id,
                pointer,
                now as int,
            ) {
                Err(problem) => result matches Err(error) && error == problem,
                Ok(view) => result matches Ok(route) && route@ == view,
            },
        }
    }

    /// What a poll comes to, with what was stored for the route that the pointer names.
    pub fn poll_route(
        &self,
        scope_id: Uuid,
        pointer: &SignedPointer,
        stored: Option<RouteObject>,
    ) -> (result: Result<VerifiedRoute, RouteError>)
        ensures
            exists|now: i128| self.route_step(scope_id, pointer@, stored, now, result),
    {
        let now: i128 = utc_clock().nanos;
        self.poll_route_at(scope_id, pointer, stored, now)
    }
}

/// A share takes the exchanges in whose digest the head, as a fraction of two to the power of 64,
/// lies below the share as a fraction of ten thousand. So a share of ten thousand takes every
/// exchange, and a share of nothing none.
pub proof fn law_a_share_is_a_fraction(digest: Seq<u8>, basis_points: u16)
    requires
        digest.len() == 32,
    ensures
        bucket_of(digest) < basis_points <==> big_endian(digest.take(8)) * 10000 < basis_points
            * 0x1_0000_0000_0000_0000,
        basis_points >= 10000 ==> bucket_of(digest) < basis_points,
        basis_points == 0 ==> !(bucket_of(digest) < basis_points),
{
    lemma_eight_bytes(digest.take(8));
}

/// A larger share takes every exchange that a smaller one takes.
pub proof fn law_a_larger_share_keeps_its_exchanges(
    route: VerifiedView,
    larger: VerifiedView,
    protocol: Protocol,
    bucket: nat,
)
    requires
        ({
            &&& route.candidate matches Some(candidate)
            &&& larger.candidate matches Some(other)
            &&& candidate.basis_points <= other.basis_points
            &&& candidate.binding(protocol) == other.binding(protocol)
        }),
        route.choice(protocol, route.in_share(bucket)).target == Target::CandidateA,
    ensures
        larger.choice(protocol, larger.in_share(bucket)).target == Target::CandidateA,
{
}

/// An exchange goes to the candidate only under a route in force that has a candidate with a
/// binding for the protocol; the choice then names the route, the artifact and the binding.
pub proof fn law_the_candidate_is_always_named(
    route: Option<VerifiedView>,
    exchange_id: Uuid,
    protocol: Protocol,
    now: int,
)
    requires
        chosen(route, exchange_id, protocol, now).target == Target::CandidateA,
    ensures
        ({
            let choice = chosen(route, exchange_id, protocol, now);
            &&& route matches Some(kept)
            &&& kept.in_force(now)
            &&& kept.candidate matches Some(candidate)
            &&& choice.route_id == Some(kept.route_id)
            &&& choice.candidate_artifact_sha256 == Some(candidate.artifact_sha256)
            &&& choice.candidate_binding_sha256 == candidate.binding(protocol)
            &&& candidate.binding(protocol) is Some
            &&& candidate.basis_points > 0
        }),
{
}

/// A route that a poll brings is at the trusted revision, above that of the route it replaces, is
/// the one that the pointer names, and is in force.
pub proof fn law_revisions_only_rise(
    bytes: Seq<u8>,
    parsed: Option<RouteView>,
    key: Seq<u8>,
    scope_id: Uuid,
    pointer: PointerView,
    expected: Option<u64>,
    current: Option<VerifiedView>,
    now: int,
)
    requires
        pointer_step(pointer, expected, current) == Ok::<bool, RouteError>(true),
        fetched_outcome(bytes, parsed, key, scope_id, pointer, now) is Ok,
    ensures
        fetched_outcome(bytes, parsed, key, scope_id, pointer, now) matches Ok(route) && {
            &&& expected == Some(route.revision)
            &&& current matches Some(kept) ==> kept.revision < route.revision
            &&& route.route_id == pointer.route_id
            &&& route.route_sha256 == pointer.route_sha256
            &&& route.in_force(now)
        },
{
}

/// A route at the trusted revision is never replaced.
pub proof fn law_the_trusted_revision_stays(
    pointer: PointerView,
    expected: u64,
    current: VerifiedView,
)
    requires
        current.revision == expected,
    ensures
        pointer_step(pointer, Some(expected), Some(current)) != Ok::<bool, RouteError>(true),
{
}

/// While a refresh of a scope is under way no other starts, whatever the clock reads.
pub proof fn law_one_refresh_at_a_time(
    state: ScopeState,
    first: u128,
    second: u128,
    poll_every: u128,
)
    requires
        state.due(first, poll_every),
    ensures
        !state.after_choice(first, poll_every).due(second, poll_every),
{
}

/// After a refresh that started at a reading of the clock, the next one starts when the polling
/// interval has passed.
pub proof fn law_refreshes_keep_their_interval(
    state: ScopeState,
    first: u128,
    second: u128,
    poll_every: u128,
    fresh: Option<VerifiedRoute>,
)
    requires
        state.due(first, poll_every),
        first <= second,
    ensures
        state.after_choice(first, poll_every).after_refresh(fresh).due(second, poll_every) == (second
            - first >= poll_every),
{
}

/// A refresh that brings no route keeps the one that is there.
pub proof fn law_a_failed_refresh_keeps_the_route(state: ScopeState)
    ensures
        state.after_refresh(None).route == state.route,
{
}

/// A choice in one scope changes nothing that is kept of another, and not the route of its own.
pub proof fn law_choices_keep_every_route(
    manager: RouteManager,
    next: RouteManager,
    choice: ChoiceView,
    refresh: bool,
    scope_id: Uuid,
    production: bool,
    exchange_id: Uuid,
    protocol: Protocol,
    reading: u128,
    now: i128,
    other: Uuid,
)
    requires
        manager.choice_step(
            next,
            choice,
            refresh,
            scope_id,
            production,
            exchange_id,
            protocol,
            reading,
            now,
        ),
    ensures
        next.kept(other) == manager.kept(other),
        other != scope_id ==> state_of(next.scopes@, other) == state_of(manager.scopes@, other),
{
}

/// A number is read from its first byte on: that byte weighs 256 to the power of how many follow.
pub proof fn law_the_first_byte_weighs_most(first: u8, rest: Seq<u8>)
    ensures
        big_endian(seq![first] + rest) == first * vstd::arithmetic::power::pow(
            256,
            rest.len(),
        ) + big_endian(rest),
        big_endian(seq![first]) == first,
    decreases rest.len(),
{
    let all = seq![first] + rest;
    reveal(vstd::arithmetic::power::pow);
    reveal_with_fuel(big_endian, 2);
    assert(seq![first].drop_last() =~= Seq::empty());
    if rest.len() == 0 {
        assert(all =~= seq![first]);
        vstd::arithmetic::power::lemma_pow0(256);
    } else {
        let shorter = rest.drop_last();
        law_the_first_byte_weighs_most(first, shorter);
        assert(all.drop_last() =~= seq![first] + shorter);
        assert(all.last() == rest.last());
        let p = vstd::arithmetic::power::pow(256, shorter.len());
        assert(vstd::arithmetic::power::pow(256, rest.len()) == 256 * p);
        assert((first * p + big_endian(shorter)) * 256 == first * (256 * p) + big_endian(shorter)
            * 256) by (nonlinear_arith);
    }
}

/// Under a route in force the traffic of a scope is split as the route says, for either protocol:
/// the choice names the route, the candidate's artifact and the binding that the route gives for the
/// protocol; and the exchange goes to the candidate exactly where there is such a binding and the
/// head of the digest of the route and the exchange, as a fraction of two to the power of 64, lies
/// below the candidate's share as a fraction of ten thousand.
pub proof fn law_a_route_splits_the_traffic(
    route: VerifiedView,
    candidate: CandidateView,
    exchange_id: Uuid,
    protocol: Protocol,
    now: int,
)
    requires
        route.valid_from <= now,
        now < route.expires_at,
        route.candidate == Some(candidate),
    ensures
        ({
            let choice = chosen(Some(route), exchange_id, protocol, now);
            let head = big_endian(sha256_of(route.route_id.bytes() + exchange_id.bytes()).take(8));
            let share = head * 10000 < candidate.basis_points * 0x1_0000_0000_0000_0000;
            &&& choice.route_id == Some(route.route_id)
            &&& choice.candidate_artifact_sha256 == Some(candidate.artifact_sha256)
            &&& protocol == Protocol::ChatCompletions ==> choice.candidate_binding_sha256
                == candidate.chat_completions
            &&& protocol == Protocol::Responses ==> choice.candidate_binding_sha256
                == candidate.responses
            &&& protocol == Protocol::ChatCompletions ==> (choice.target == Target::CandidateA <==> (
            candidate.chat_completions is Some && share))
            &&& protocol == Protocol::Responses ==> (choice.target == Target::CandidateA <==> (
            candidate.responses is Some && share))
            &&& choice.target == Target::CandidateA || choice.target == Target::Baseline
        }),
{
    let head = big_endian(sha256_of(route.route_id.bytes() + exchange_id.bytes()).take(8));
    let bucket = exchange_bucket(route.route_id, exchange_id);
    assert(bucket == head * 10000 / 0x1_0000_0000_0000_0000);
    assert(bucket < candidate.basis_points <==> head * 10000 < candidate.basis_points
        * 0x1_0000_0000_0000_0000);
}

/// Without a route, before it is valid, once it is over, and under a route without a candidate,
/// every exchange goes to the baseline; and but for the last the choice names nothing.
pub proof fn law_without_a_route_all_goes_to_the_baseline(
    route: VerifiedView,
    exchange_id: Uuid,
    protocol: Protocol,
    now: int,
)
    ensures
        chosen(None, exchange_id, protocol, now) == (ChoiceView {
            route_id: None,
            target: Target::Baseline,
            candidate_artifact_sha256: None,
            candidate_binding_sha256: None,
        }),
        now < route.valid_from || now >= route.expires_at ==> chosen(
            Some(route),
            exchange_id,
            protocol,
            now,
        ) == (ChoiceView {
            route_id: None,
            target: Target::Baseline,
            candidate_artifact_sha256: None,
            candidate_binding_sha256: None,
        }),
        route.valid_from <= now < route.expires_at && route.candidate is None ==> chosen(
            Some(route),
            exchange_id,
            protocol,
            now,
        ) == (ChoiceView {
            route_id: Some(route.route_id),
            target: Target::Baseline,
            candidate_artifact_sha256: None,
            candidate_binding_sha256: None,
        }),
{
}

/// Exchanges of mechanics scopes are not routed: nothing is polled for them, nothing is kept, and
/// they go to the baseline.
pub proof fn law_only_production_scopes_are_routed(
    manager: RouteManager,
    next: RouteManager,
    choice: ChoiceView,
    refresh: bool,
    binding: KeyBinding,
    exchange_id: Uuid,
    protocol: Protocol,
    reading: u128,
    now: i128,
)
    requires
        manager.choice_step(
            next,
            choice,
            refresh,
            binding.scope_id,
            binding.is_routed(),
            exchange_id,
            protocol,
            reading,
            now,
        ),
    ensures
        binding.profile == Profile::Mechanics ==> {
            &&& !refresh
            &&& next.scopes@ == manager.scopes@
            &&& choice.target == Target::Baseline
            &&& choice.route_id is None
            &&& choice.candidate_artifact_sha256 is None
            &&& choice.candidate_binding_sha256 is None
        },
        binding.profile == Profile::Production ==> choice == chosen(
            manager.kept(binding.scope_id),
            exchange_id,
            protocol,
            now as int,
        ),
        next.poll_every == manager.poll_every,
        next.verifying_key == manager.verifying_key,
        next.expected_revisions == manager.expected_revisions,
{
}

/// A refresh starts for a scope of which nothing is known, and for one whose last poll lies at least
/// the polling interval back, unless one is under way; it is then under way, from that reading on.
pub proof fn law_when_a_refresh_starts(
    manager: RouteManager,
    next: RouteManager,
    choice: ChoiceView,
    refresh: bool,
    scope_id: Uuid,
    exchange_id: Uuid,
    protocol: Protocol,
    reading: u128,
    now: i128,
)
    requires
        manager.choice_step(
            next,
            choice,
            refresh,
            scope_id,
            true,
            exchange_id,
            protocol,
            reading,
            now,
        ),
    ensures
        !manager.scopes@.dom().contains(scope_id.value) ==> refresh,
        manager.scopes@.dom().contains(scope_id.value) ==> {
            let state = manager.scopes@[scope_id.value];
            &&& state.refreshing ==> !refresh
            &&& !state.refreshing && state.last_poll is None ==> refresh
            &&& !state.refreshing && state.last_poll is Some && state.last_poll->Some_0 <= reading
                ==> refresh == (reading - state.last_poll->Some_0 >= manager.poll_every)
        },
        next.scopes@.dom().contains(scope_id.value),
        refresh ==> next.scopes@[scope_id.value].refreshing
            && next.scopes@[scope_id.value].last_poll == Some(reading),
        !refresh && manager.scopes@.dom().contains(scope_id.value) ==> next.scopes@[scope_id.value]
            == manager.scopes@[scope_id.value],
{
}

/// A refresh that ends is no longer under way, and the route that it brought is kept from then on.
pub proof fn law_a_refresh_brings_its_route(state: ScopeState, route: VerifiedRoute)
    ensures
        !state.after_refresh(Some(route)).refreshing,
        !state.after_refresh(None).refreshing,
        state.after_refresh(Some(route)).route == Some(route),
        state.after_refresh(Some(route)).last_poll == state.last_poll,
        state.after_refresh(None).last_poll == state.last_poll,
{
}

/// Which pointers are followed: exactly those at the trusted revision of the scope, where no route is
/// kept or one of a lower revision. Where the kept route is the very one that the pointer names
/// nothing is to be done; and every other pointer is refused, for the first of these reasons.
pub proof fn law_which_pointers_are_followed(
    pointer: PointerView,
    expected: Option<u64>,
    current: Option<VerifiedView>,
)
    ensures
        pointer_step(pointer, expected, current) == Ok::<bool, RouteError>(true) <==> {
            &&& expected == Some(pointer.revision)
            &&& current matches Some(kept) ==> kept.revision < pointer.revision
        },
        pointer_step(pointer, expected, current) == Ok::<bool, RouteError>(false) <==> {
            &&& expected == Some(pointer.revision)
            &&& current matches Some(kept)
            &&& kept.revision == pointer.revision
            &&& kept.route_id == pointer.route_id
            &&& kept.route_sha256 == pointer.route_sha256
        },
        expected is None ==> pointer_step(pointer, expected, current) == Err::<bool, RouteError>(
            RouteError::NoRevision,
        ),
        expected matches Some(trusted) && trusted != pointer.revision ==> pointer_step(
            pointer,
            expected,
            current,
        ) == Err::<bool, RouteError>(
            RouteError::RevisionMismatch { found: pointer.revision, trusted: expected->Some_0 },
        ),
        expected == Some(pointer.revision) && current is Some && (current->Some_0.revision
            > pointer.revision || current->Some_0.revision == pointer.revision
            && current->Some_0.route_id != pointer.route_id) ==> pointer_step(
            pointer,
            expected,
            current,
        ) == Err::<bool, RouteError>(RouteError::Stale),
        expected == Some(pointer.revision) && current is Some && current->Some_0.revision
            == pointer.revision && current->Some_0.route_id == pointer.route_id
            && current->Some_0.route_sha256 != pointer.route_sha256 ==> pointer_step(
            pointer,
            expected,
            current,
        ) == Err::<bool, RouteError>(RouteError::Conflict),
{
}

/// Which routes are taken over: exactly those whose bytes have the digest that the pointer names,
/// that are accepted under the key, that are the route and the revision that the pointer names, and
/// that are valid at the moment. Every other is refused, for the first of these reasons.
pub proof fn law_which_routes_are_taken_over(
    bytes: Seq<u8>,
    parsed: Option<RouteView>,
    key: Seq<u8>,
    scope_id: Uuid,
    pointer: PointerView,
    now: int,
    route: VerifiedView,
)
    ensures
        fetched_outcome(bytes, parsed, key, scope_id, pointer, now) == Ok::<
            VerifiedView,
            RouteError,
        >(route) <==> {
            &&& hex_text(sha256_of(bytes)) == pointer.route_sha256
            &&& route_outcome(bytes, parsed, key, scope_id) == Ok::<VerifiedView, RouteError>(route)
            &&& route.route_id == pointer.route_id
            &&& route.revision == pointer.revision
            &&& route.valid_from <= now
            &&& now < route.expires_at
        },
        hex_text(sha256_of(bytes)) != pointer.route_sha256 ==> fetched_outcome(
            bytes,
            parsed,
            key,
            scope_id,
            pointer,
            now,
        ) == Err::<VerifiedView, RouteError>(RouteError::DigestMismatch),
        hex_text(sha256_of(bytes)) == pointer.route_sha256 && route_outcome(
            bytes,
            parsed,
            key,
            scope_id,
        ) == Ok::<VerifiedView, RouteError>(route) && (route.route_id != pointer.route_id
            || route.revision != pointer.revision) ==> fetched_outcome(
            bytes,
            parsed,
            key,
            scope_id,
            pointer,
            now,
        ) == Err::<VerifiedView, RouteError>(RouteError::IdentityMismatch),
        hex_text(sha256_of(bytes)) == pointer.route_sha256 && route_outcome(
            bytes,
            parsed,
            key,
            scope_id,
        ) == Ok::<VerifiedView, RouteError>(route) && route.route_id == pointer.route_id
            && route.revision == pointer.revision && (now < route.valid_from || now
            >= route.expires_at) ==> fetched_outcome(bytes, parsed, key, scope_id, pointer, now)
            == Err::<VerifiedView, RouteError>(RouteError::NotCurrent),
{
}

/// A choice is seen whole: no field is left out.
pub proof fn law_choices_are_seen_whole(choice: RouteChoice)
    ensures
        choice@.route_id == choice.route_id,
        choice@.target == choice.target,
        choice.candidate_artifact_sha256 is None ==> choice@.candidate_artifact_sha256 is None,
        choice.candidate_binding_sha256 is None ==> choice@.candidate_binding_sha256 is None,
        choice.candidate_artifact_sha256 matches Some(digest) ==> choice@.candidate_artifact_sha256
            == Some(digest@),
        choice.candidate_binding_sha256 matches Some(digest) ==> choice@.candidate_binding_sha256
            == Some(digest@),
{
}

/// What a poll comes to: an error where the route that the pointer names is missing, and else what
/// the stored bytes come to under the manager's key.
pub proof fn law_what_a_poll_comes_to(
    manager: RouteManager,
    scope_id: Uuid,
    pointer: PointerView,
    object: RouteObject,
    now: i128,
    result: Result<VerifiedRoute, RouteError>,
)
    ensures
        manager.route_step(scope_id, pointer, None, now, result) <==> (result matches Err(error)
            && error == RouteError::MissingRoute),
        manager.route_step(scope_id, pointer, Some(object), now, result) && result is Ok
            ==> fetched_outcome(
            object.bytes@,
            route_view(object.parsed),
            manager.verifying_key.bytes@,
            scope_id,
            pointer,
            now as int,
        ) == Ok::<VerifiedView, RouteError>(result->Ok_0@),
        manager.route_step(scope_id, pointer, Some(object), now, result) && result is Err
            ==> fetched_outcome(
            object.bytes@,
            route_view(object.parsed),
            manager.verifying_key.bytes@,
            scope_id,
            pointer,
            now as int,
        ) == Err::<VerifiedView, RouteError>(result->Err_0),
{
}

/// What a manager knows of a scope: the trusted revision that it was given for it, and the route that
/// was last taken over for it.
pub proof fn law_what_is_known_of_a_scope(manager: RouteManager, scope_id: Uuid)
    ensures
        manager.expected_revisions@.dom().contains(scope_id.value) ==> manager.expected(scope_id)
            == Some(manager.expected_revisions@[scope_id.value]),
        !manager.expected_revisions@.dom().contains(scope_id.value) ==> manager.expected(
            scope_id,
        ) is None,
        !manager.scopes@.dom().contains(scope_id.value) ==> manager.kept(scope_id) is None,
        manager.scopes@.dom().contains(scope_id.value) ==> manager.kept(scope_id) == verified_view(
            manager.scopes@[scope_id.value].route,
        ),
{
}

} // verus!
