//! Operator keys: how they are configured, and how a request is authenticated by one.

use std::collections::HashMap;
use vstd::prelude::*;
use vstd::utf8::encode_utf8;

use crate::boundary::optional_text;
use crate::boundary::same_digest;
use crate::boundary::sha256;
use crate::boundary::sha256_of;
use crate::headers::byte_views;
use crate::headers::header_values;
use crate::headers::header_views;
use crate::headers::values_of;
use crate::headers::visible_text;
use crate::headers::visible_text_of;
use crate::headers::Header;
use crate::headers::HeaderView;
use crate::identity::Profile;
use crate::identity::Uuid;
use crate::text::chars_of;
use crate::text::decode_sha256;
use crate::text::hex_text;
use crate::text::is_digest_text;
use crate::text::lowered;
use crate::text::lowered_char;
use crate::text::same_text;
use crate::text::text_between;
use crate::text::to_ascii_lowercase;

verus! {

broadcast use vstd::std_specs::hash::group_hash_axioms;

/// What is wrong with the configuration of the keys.
#[derive(Clone, Copy, Debug, PartialEq, Eq, Structural)]
pub enum KeyError {
    /// The configuration cannot be read.
    Invalid,
    /// There are no keys, or too many.
    Count,
    NilScope,
    /// A production scope without a revision above zero.
    RevisionMissing,
    /// A mechanics scope with a revision.
    RevisionGiven,
    /// A digest that is not 64 hexadecimal digits with small letters.
    NotDigest,
    /// A scope with two profiles or two revisions.
    Conflict,
}

impl KeyError {
    /// The error in words.
    pub open spec fn complaint(self) -> Seq<char> {
        match self {
            KeyError::Invalid => "MILK_KEYS_JSON is invalid"@,
            KeyError::Count => "MILK_KEYS_JSON must contain 1..=4096 keys"@,
            KeyError::NilScope => "MILK_KEYS_JSON contains a nil scope_id"@,
            KeyError::RevisionMissing => "each production scope needs a nonzero route_revision"@,
            KeyError::RevisionGiven => "mechanics scopes must omit route_revision"@,
            KeyError::NotDigest => "API-key digest must be 64 lowercase hexadecimal characters"@,
            KeyError::Conflict => "MILK_KEYS_JSON assigns one scope conflicting bindings"@,
        }
    }

    /// The error in words.
    pub fn message(self) -> (result: &'static str)
        ensures
            result@ == self.complaint(),
    {
        match self {
            KeyError::Invalid => "MILK_KEYS_JSON is invalid",
            KeyError::Count => "MILK_KEYS_JSON must contain 1..=4096 keys",
            KeyError::NilScope => "MILK_KEYS_JSON contains a nil scope_id",
            KeyError::RevisionMissing => "each production scope needs a nonzero route_revision",
            KeyError::RevisionGiven => "mechanics scopes must omit route_revision",
            KeyError::NotDigest => "API-key digest must be 64 lowercase hexadecimal characters",
            KeyError::Conflict => "MILK_KEYS_JSON assigns one scope conflicting bindings",
        }
    }
}

/// What a key opens.
#[derive(Clone, Copy, Debug, PartialEq, Eq, Structural)]
pub struct KeyBinding {
    pub scope_id: Uuid,
    pub profile: Profile,
    /// The trusted revision of the scope's route.
    pub route_revision: Option<u64>,
}

impl KeyBinding {
    /// The scope is one of production, whose exchanges are routed.
    pub open spec fn is_routed(self) -> bool {
        self.profile == Profile::Production
    }
}

/// One key as it is configured: the text of its digest, and what it opens.
pub struct KeyEntry {
    pub digest: String,
    pub binding: KeyBinding,
}

/// An operator's key.
#[derive(Clone, Copy)]
pub struct OperatorKey {
    /// The SHA-256 digest of the key.
    pub digest: [u8; 32],
    pub binding: KeyBinding,
}

/// What is wrong with what a key opens.
pub open spec fn binding_problem(binding: KeyBinding) -> Option<KeyError> {
    if binding.scope_id.value == 0 {
        Some(KeyError::NilScope)
    } else {
        match (binding.profile, binding.route_revision) {
            (Profile::Production, None) => Some(KeyError::RevisionMissing),
            (Profile::Production, Some(revision)) => if revision == 0 {
                Some(KeyError::RevisionMissing)
            } else {
                None
            },
            (Profile::Mechanics, None) => None,
            (Profile::Mechanics, Some(_)) => Some(KeyError::RevisionGiven),
        }
    }
}

/// What is wrong with the configuration of one key.
pub open spec fn entry_problem(entry: KeyEntry) -> Option<KeyError> {
    match binding_problem(entry.binding) {
        Some(problem) => Some(problem),
        None => if is_digest_text(entry.digest@) {
            None
        } else {
            Some(KeyError::NotDigest)
        },
    }
}

/// The first problem among the configured keys.
pub open spec fn first_problem(entries: Seq<KeyEntry>) -> Option<KeyError>
    decreases entries.len(),
{
    if entries.len() == 0 {
        None
    } else {
        match first_problem(entries.drop_last()) {
            Some(problem) => Some(problem),
            None => entry_problem(entries.last()),
        }
    }
}

/// Each scope has one profile and one revision.
pub open spec fn consistent(entries: Seq<KeyEntry>) -> bool {
    forall|i: int, j: int|
        0 <= i < entries.len() && 0 <= j < entries.len()
            && #[trigger] entries[i].binding.scope_id == #[trigger] entries[j].binding.scope_id
            ==> entries[i].binding == entries[j].binding
}

/// What is wrong with the configuration of the keys.
pub open spec fn keys_problem(configured: Option<Seq<KeyEntry>>) -> Option<KeyError> {
    match configured {
        None => Some(KeyError::Invalid),
        Some(entries) => if entries.len() < 1 || entries.len() > 4096 {
            Some(KeyError::Count)
        } else {
            match first_problem(entries) {
                Some(problem) => Some(problem),
                None => if consistent(entries) {
                    None
                } else {
                    Some(KeyError::Conflict)
                },
            }
        },
    }
}

/// The key is the one that is configured.
pub open spec fn is_key_of(key: OperatorKey, entry: KeyEntry) -> bool {
    hex_text(key.digest@) == entry.digest@ && key.binding == entry.binding
}

/// The keys are those that are configured, in their order.
pub open spec fn are_keys_of(keys: Seq<OperatorKey>, entries: Seq<KeyEntry>) -> bool {
    &&& keys.len() == entries.len()
    &&& forall|i: int| 0 <= i < keys.len() ==> is_key_of(#[trigger] keys[i], entries[i])
}

/// What is configured, as a sequence.
pub open spec fn configured_entries(configured: Option<Vec<KeyEntry>>) -> Option<Seq<KeyEntry>> {
    match configured {
        Some(entries) => Some(entries@),
        None => None,
    }
}

/// What is wrong with what a key opens.
pub fn check_binding(binding: &KeyBinding) -> (result: Option<KeyError>)
    ensures
        result == binding_problem(*binding),
{
    if binding.scope_id.is_nil() {
        return Some(KeyError::NilScope);
    }
    match (binding.profile, binding.route_revision) {
        (Profile::Production, None) => Some(KeyError::RevisionMissing),
        (Profile::Production, Some(revision)) => if revision == 0 {
            Some(KeyError::RevisionMissing)
        } else {
            None
        },
        (Profile::Mechanics, None) => None,
        (Profile::Mechanics, Some(_)) => Some(KeyError::RevisionGiven),
    }
}

/// Where an early key is wrong, the whole configuration is wrong in the same way.
proof fn lemma_first_problem(entries: Seq<KeyEntry>, count: int)
    requires
        0 <= count <= entries.len(),
        first_problem(entries.take(count)) is Some,
    ensures
        first_problem(entries) == first_problem(entries.take(count)),
    decreases entries.len(),
{
    if count < entries.len() {
        assert(entries.drop_last().take(count) =~= entries.take(count));
        lemma_first_problem(entries.drop_last(), count);
    } else {
        assert(entries.take(count) =~= entries);
    }
}

/// Whether each scope has one profile and one revision.
fn check_consistent(entries: &Vec<KeyEntry>) -> (result: bool)
    ensures
        result == consistent(entries@),
{
    let mut scopes: HashMap<u128, KeyBinding> = HashMap::new();
    for i in 0..entries.len()
        invariant
            consistent(entries@.take(i as int)),
            forall|k: int|
                0 <= k < i ==> {
                    &&& scopes@.dom().contains(#[trigger] entries@[k].binding.scope_id.value)
                    &&& scopes@[entries@[k].binding.scope_id.value] == entries@[k].binding
                },
            forall|scope: u128|
                #[trigger] scopes@.dom().contains(scope) ==> exists|k: int|
                    0 <= k < i && #[trigger] entries@[k].binding.scope_id.value == scope,
    {
        let binding = entries[i].binding;
        let ghost known = scopes@;
        assert(entries@[i as int].binding == binding);
        if let Some(before) = scopes.insert(binding.scope_id.value, binding) {
            assert(known.dom().contains(binding.scope_id.value));
            if before != binding {
                proof {
                    let k = choose|k: int|
                        0 <= k < i && #[trigger] entries@[k].binding.scope_id.value
                            == binding.scope_id.value;
                    assert(entries@[k].binding.scope_id == entries@[i as int].binding.scope_id);
                    assert(entries@[k].binding == before);
                }
                return false;
            }
        }
        let ghost upto = entries@.take(i + 1);
        assert forall|a: int, b: int|
            0 <= a < upto.len() && 0 <= b < upto.len()
                && #[trigger] upto[a].binding.scope_id == #[trigger] upto[b].binding.scope_id implies upto[a].binding
            == upto[b].binding by {
            assert(upto[a] == entries@[a]);
            assert(upto[b] == entries@[b]);
            assert(a < i ==> known[entries@[a].binding.scope_id.value] == entries@[a].binding);
            assert(b < i ==> known[entries@[b].binding.scope_id.value] == entries@[b].binding);
        }
    }
    assert(entries@.take(entries@.len() as int) =~= entries@);
    true
}

/// Reads the configured keys.
pub fn parse_keys(configured: Option<Vec<KeyEntry>>) -> (result: Result<Vec<OperatorKey>, KeyError>)
    ensures
        match keys_problem(configured_entries(configured)) {
            Some(problem) => result matches Err(error) && error == problem,
            None => result matches Ok(keys) && are_keys_of(
                keys@,
                configured_entries(configured)->Some_0,
            ),
        },
{
    let entries = match configured {
        Some(entries) => entries,
        None => return Err(KeyError::Invalid),
    };
    if entries.len() < 1 || entries.len() > 4096 {
        return Err(KeyError::Count);
    }
    let mut keys: Vec<OperatorKey> = Vec::new();
    for i in 0..entries.len()
        invariant
            configured_entries(configured) == Some(entries@),
            1 <= entries@.len() <= 4096,
            first_problem(entries@.take(i as int)) is None,
            are_keys_of(keys@, entries@.take(i as int)),
    {
        let entry = &entries[i];
        let ghost upto = entries@.take(i + 1);
        assert(upto.drop_last() =~= entries@.take(i as int));
        assert(upto.last() == *entry);
        if let Some(problem) = check_binding(&entry.binding) {
            proof {
                lemma_first_problem(entries@, i + 1);
            }
            return Err(problem);
        }
        match decode_sha256(entry.digest.as_str()) {
            Some(digest) => {
                let ghost before = keys@;
                keys.push(OperatorKey { digest, binding: entry.binding });
                assert forall|k: int| 0 <= k < keys@.len() implies is_key_of(
                    #[trigger] keys@[k],
                    upto[k],
                ) by {
                    if k < i {
                        assert(before[k] == keys@[k]);
                        assert(entries@.take(i as int)[k] == upto[k]);
                    }
                }
            },
            None => {
                proof {
                    lemma_first_problem(entries@, i + 1);
                }
                return Err(KeyError::NotDigest);
            },
        }
    }
    assert(entries@.take(entries@.len() as int) =~= entries@);
    if !check_consistent(&entries) {
        return Err(KeyError::Conflict);
    }
    Ok(keys)
}

/// The trusted revision of each scope that has one.
pub open spec fn revisions_of(keys: Seq<OperatorKey>) -> Map<u128, u64>
    decreases keys.len(),
{
    if keys.len() == 0 {
        Map::empty()
    } else {
        let before = revisions_of(keys.drop_last());
        match keys.last().binding.route_revision {
            Some(revision) => before.insert(keys.last().binding.scope_id.value, revision),
            None => before,
        }
    }
}

/// The trusted revision of each scope that has one.
pub fn route_revisions(keys: &[OperatorKey]) -> (result: HashMap<u128, u64>)
    ensures
        result@ == revisions_of(keys@),
{
    let mut result: HashMap<u128, u64> = HashMap::new();
    for i in 0..keys.len()
        invariant
            result@ == revisions_of(keys@.take(i as int)),
    {
        assert(keys@.take(i + 1).drop_last() =~= keys@.take(i as int));
        let binding = keys[i].binding;
        if let Some(revision) = binding.route_revision {
            result.insert(binding.scope_id.value, revision);
        }
    }
    assert(keys@.take(keys@.len() as int) =~= keys@);
    result
}

/// Where the first space of a text is; its length where it has none.
pub open spec fn space_position(text: Seq<char>) -> nat
    decreases text.len(),
{
    if text.len() == 0 || text[0] == ' ' {
        0
    } else {
        1 + space_position(text.skip(1))
    }
}

/// The token of credentials in the bearer scheme: what follows the first space, where the scheme
/// before it is `bearer` in letters of either case and the token has 16 to 4096 characters.
pub open spec fn bearer_token(credentials: Seq<char>) -> Option<Seq<char>> {
    let position = space_position(credentials);
    let token = credentials.skip((position + 1) as int);
    if position < credentials.len() && lowered(credentials.take(position as int)) == "bearer"@ && 16
        <= token.len() <= 4096 {
        Some(token)
    } else {
        None
    }
}

/// The token that a request carries: its single `authorization` header, in the bearer scheme.
pub open spec fn request_token(headers: Seq<HeaderView>) -> Option<Seq<char>> {
    let values = values_of(headers, "authorization"@);
    if values.len() != 1 {
        None
    } else {
        match visible_text_of(values[0]) {
            Some(credentials) => bearer_token(credentials),
            None => None,
        }
    }
}

/// The last key with a digest.
pub open spec fn key_with(keys: Seq<OperatorKey>, digest: Seq<u8>) -> Option<OperatorKey>
    decreases keys.len(),
{
    if keys.len() == 0 {
        None
    } else if keys.last().digest@ == digest {
        Some(keys.last())
    } else {
        key_with(keys.drop_last(), digest)
    }
}

/// The key that a request is authenticated by.
pub open spec fn authenticated(headers: Seq<HeaderView>, keys: Seq<OperatorKey>) -> Option<
    OperatorKey,
> {
    match request_token(headers) {
        Some(token) => key_with(keys, sha256_of(encode_utf8(token))),
        None => None,
    }
}

/// The space position lies in the text or at its end, and is the first space.
proof fn lemma_space_position(text: Seq<char>, position: int)
    requires
        0 <= position <= text.len(),
        forall|k: int| 0 <= k < position ==> text[k] != ' ',
        position < text.len() ==> text[position] == ' ',
    ensures
        space_position(text) == position,
    decreases text.len(),
{
    if position > 0 {
        assert forall|k: int| 0 <= k < position - 1 implies text.skip(1)[k] != ' ' by {
            assert(text.skip(1)[k] == text[k + 1]);
        }
        lemma_space_position(text.skip(1), position - 1);
    }
}

/// The token of credentials in the bearer scheme.
pub fn split_bearer(credentials: &str) -> (result: Option<String>)
    ensures
        optional_text(result) == bearer_token(credentials@),
{
    let all = chars_of(credentials);
    let mut position: usize = 0;
    while position < all.len() && all[position] != ' '
        invariant
            all@ == credentials@,
            position <= all@.len(),
            forall|k: int| 0 <= k < position ==> all@[k] != ' ',
        decreases all@.len() - position,
    {
        position = position + 1;
    }
    proof {
        lemma_space_position(credentials@, position as int);
    }
    if position == all.len() {
        return None;
    }
    let scheme = text_between(&all, 0, position);
    assert(scheme@ =~= credentials@.take(position as int));
    let length: usize = all.len() - position - 1;
    assert(credentials@.skip(position + 1).len() == length);
    if !same_text(to_ascii_lowercase(scheme.as_str()).as_str(), "bearer") || length < 16 || length
        > 4096 {
        return None;
    }
    let token = text_between(&all, position + 1, all.len());
    assert(token@ =~= credentials@.skip(position + 1));
    Some(token)
}

/// The last key with a digest. Every key is looked at, each in the same time.
pub fn match_key<'a>(keys: &'a [OperatorKey], digest: &[u8; 32]) -> (result: Option<&'a OperatorKey>)
    ensures
        match result {
            Some(key) => key_with(keys@, digest@) == Some(*key),
            None => key_with(keys@, digest@) is None,
        },
{
    let mut matched: Option<&'a OperatorKey> = None;
    for i in 0..keys.len()
        invariant
            match matched {
                Some(key) => key_with(keys@.take(i as int), digest@) == Some(*key),
                None => key_with(keys@.take(i as int), digest@) is None,
            },
    {
        assert(keys@.take(i + 1).drop_last() =~= keys@.take(i as int));
        if same_digest(&keys[i].digest, digest) {
            matched = Some(&keys[i]);
        }
    }
    assert(keys@.take(keys@.len() as int) =~= keys@);
    matched
}

/// The token that a request carries.
pub fn presented_token(headers: &[Header]) -> (result: Option<String>)
    ensures
        optional_text(result) == request_token(header_views(headers@)),
{
    let values = header_values(headers, "authorization");
    if values.len() != 1 {
        return None;
    }
    assert(byte_views(values@)[0] == values@[0]@);
    match visible_text(values[0].as_slice()) {
        Some(credentials) => split_bearer(credentials.as_str()),
        None => None,
    }
}

/// The key that a request is authenticated by.
pub fn authenticate<'a>(headers: &[Header], keys: &'a [OperatorKey]) -> (result: Option<
    &'a OperatorKey,
>)
    ensures
        match result {
            Some(key) => authenticated(header_views(headers@), keys@) == Some(*key),
            None => authenticated(header_views(headers@), keys@) is None,
        },
{
    match presented_token(headers) {
        Some(token) => {
            let digest = sha256(token.as_str().as_bytes());
            match_key(keys, &digest)
        },
        None => None,
    }
}

/// A request that is authenticated carries a token whose digest is that of a configured key, and
/// opens what that key opens.
pub proof fn law_a_key_opens_what_it_is_bound_to(
    headers: Seq<HeaderView>,
    keys: Seq<OperatorKey>,
)
    requires
        authenticated(headers, keys) is Some,
    ensures
        ({
            &&& authenticated(headers, keys) matches Some(key)
            &&& request_token(headers) matches Some(token)
            &&& keys.contains(key)
            &&& key.digest@ == sha256_of(encode_utf8(token))
        }),
{
    let digest = sha256_of(encode_utf8(request_token(headers)->Some_0));
    lemma_key_is_there(keys, digest);
}

/// A key that is found by a digest is one of the keys, and has that digest.
proof fn lemma_key_is_there(keys: Seq<OperatorKey>, digest: Seq<u8>)
    requires
        key_with(keys, digest) is Some,
    ensures
        key_with(keys, digest) matches Some(key) && keys.contains(key) && key.digest@ == digest,
    decreases keys.len(),
{
    if keys.last().digest@ == digest {
        assert(keys[keys.len() - 1] == keys.last());
    } else {
        lemma_key_is_there(keys.drop_last(), digest);
        let key = key_with(keys.drop_last(), digest)->Some_0;
        let k = choose|k: int| 0 <= k < keys.drop_last().len() && keys.drop_last()[k] == key;
        assert(keys[k] == key);
    }
}

/// A token whose digest is that of a configured key is always found.
pub proof fn law_configured_keys_are_found(keys: Seq<OperatorKey>, i: int, digest: Seq<u8>)
    requires
        0 <= i < keys.len(),
        keys[i].digest@ == digest,
    ensures
        key_with(keys, digest) matches Some(key) && key.digest@ == digest,
    decreases keys.len(),
{
    if keys.last().digest@ != digest {
        assert(keys.drop_last()[i] == keys[i]);
        law_configured_keys_are_found(keys.drop_last(), i, digest);
    }
}

/// Where the configured digests differ from one another, a key is found by its own digest alone.
pub proof fn law_keys_are_told_apart(
    keys: Seq<OperatorKey>,
    entries: Seq<KeyEntry>,
    i: int,
    j: int,
)
    requires
        are_keys_of(keys, entries),
        0 <= i < keys.len(),
        0 <= j < keys.len(),
        entries[i].digest@ != entries[j].digest@,
    ensures
        keys[i].digest@ != keys[j].digest@,
{
    assert(is_key_of(keys[i], entries[i]));
    assert(is_key_of(keys[j], entries[j]));
}

/// Of accepted keys, the trusted revision of each production scope is the one that its keys name,
/// and a mechanics scope has none.
pub proof fn law_each_scope_has_its_revision(keys: Seq<OperatorKey>, entries: Seq<KeyEntry>, i: int)
    requires
        are_keys_of(keys, entries),
        consistent(entries),
        0 <= i < keys.len(),
    ensures
        revisions_of(keys).dom().contains(keys[i].binding.scope_id.value)
            <==> keys[i].binding.route_revision is Some,
        keys[i].binding.route_revision matches Some(revision)
            ==> revisions_of(keys)[keys[i].binding.scope_id.value] == revision,
{
    assert forall|a: int, b: int|
        0 <= a < keys.len() && 0 <= b < keys.len()
            && #[trigger] keys[a].binding.scope_id == #[trigger] keys[b].binding.scope_id implies keys[a].binding
        == keys[b].binding by {
        assert(is_key_of(keys[a], entries[a]));
        assert(is_key_of(keys[b], entries[b]));
        assert(entries[a].binding.scope_id == entries[b].binding.scope_id);
    }
    lemma_revision_of(keys, keys[i].binding);
    if revisions_of(keys).dom().contains(keys[i].binding.scope_id.value) {
        assert(exists|k: int| 0 <= k < keys.len() && keys[k].binding.scope_id == keys[i].binding.scope_id);
    }
}

/// Where every key of a scope opens the same, the scope's revision is the one that they name.
proof fn lemma_revision_of(keys: Seq<OperatorKey>, binding: KeyBinding)
    requires
        forall|k: int|
            0 <= k < keys.len() && (#[trigger] keys[k]).binding.scope_id == binding.scope_id
                ==> keys[k].binding == binding,
    ensures
        revisions_of(keys).dom().contains(binding.scope_id.value) <==> (
        binding.route_revision is Some && exists|k: int|
            0 <= k < keys.len() && (#[trigger] keys[k]).binding.scope_id == binding.scope_id),
        revisions_of(keys).dom().contains(binding.scope_id.value) ==> Some(
            revisions_of(keys)[binding.scope_id.value],
        ) == binding.route_revision,
    decreases keys.len(),
{
    if keys.len() > 0 {
        let before = keys.drop_last();
        assert forall|k: int|
            0 <= k < before.len() && (#[trigger] before[k]).binding.scope_id
                == binding.scope_id implies before[k].binding == binding by {
            assert(before[k] == keys[k]);
        }
        lemma_revision_of(before, binding);
        if keys.last().binding.scope_id == binding.scope_id {
            assert(keys[keys.len() - 1].binding == binding);
        } else {
            assert(keys.last().binding.scope_id.value != binding.scope_id.value);
            if exists|k: int|
                0 <= k < keys.len() && (#[trigger] keys[k]).binding.scope_id == binding.scope_id {
                let k = choose|k: int|
                    0 <= k < keys.len() && (#[trigger] keys[k]).binding.scope_id
                        == binding.scope_id;
                assert(before[k] == keys[k]);
            }
            if exists|k: int|
                0 <= k < before.len() && (#[trigger] before[k]).binding.scope_id
                    == binding.scope_id {
                let k = choose|k: int|
                    0 <= k < before.len() && (#[trigger] before[k]).binding.scope_id
                        == binding.scope_id;
                assert(before[k] == keys[k]);
            }
        }
    }
}

/// Where no problem was found, no key has one.
proof fn lemma_no_problem(entries: Seq<KeyEntry>, i: int)
    requires
        first_problem(entries) is None,
        0 <= i < entries.len(),
    ensures
        entry_problem(entries[i]) is None,
    decreases entries.len(),
{
    if i < entries.len() - 1 {
        assert(entries.drop_last()[i] == entries[i]);
        lemma_no_problem(entries.drop_last(), i);
    }
}

/// Of accepted keys, each opens a scope that is not nil, a production scope with a revision above
/// zero and a mechanics scope with none, and no scope is opened in two ways.
pub proof fn law_accepted_keys_are_well_bound(entries: Seq<KeyEntry>, i: int)
    requires
        keys_problem(Some(entries)) is None,
        0 <= i < entries.len(),
    ensures
        entries[i].binding.scope_id.value != 0,
        entries[i].binding.profile == Profile::Production
            ==> (entries[i].binding.route_revision matches Some(revision) && revision > 0),
        entries[i].binding.profile == Profile::Mechanics
            ==> entries[i].binding.route_revision is None,
        is_digest_text(entries[i].digest@),
        consistent(entries),
        entries.len() <= 4096,
{
    lemma_no_problem(entries, i);
}

/// Where one key alone has a digest, it is the one that is found.
proof fn lemma_only_key(keys: Seq<OperatorKey>, k: int)
    requires
        0 <= k < keys.len(),
        forall|j: int|
            0 <= j < keys.len() && j != k ==> (#[trigger] keys[j]).digest@ != keys[k].digest@,
    ensures
        key_with(keys, keys[k].digest@) == Some(keys[k]),
    decreases keys.len(),
{
    if k < keys.len() - 1 {
        assert(keys[keys.len() - 1].digest@ != keys[k].digest@);
        let shorter = keys.drop_last();
        assert(shorter[k] == keys[k]);
        assert forall|j: int| 0 <= j < shorter.len() && j != k implies (
        #[trigger] shorter[j]).digest@ != shorter[k].digest@ by {
            assert(shorter[j] == keys[j]);
        }
        lemma_only_key(shorter, k);
    }
}

/// A key lets in who presents it: a request whose single `authorization` header says `Bearer`, in
/// letters of either case, one space and a token of 16 to 4096 characters whose digest is that of a
/// configured key is authenticated, by that key where no other has the same digest.
pub proof fn law_a_key_lets_in_who_presents_it(
    headers: Seq<HeaderView>,
    keys: Seq<OperatorKey>,
    i: int,
    k: int,
    scheme: Seq<char>,
    token: Seq<char>,
)
    requires
        0 <= i < headers.len(),
        lowered(headers[i].name) == "authorization"@,
        forall|j: int|
            0 <= j < headers.len() && j != i ==> lowered((#[trigger] headers[j]).name)
                != "authorization"@,
        visible_text_of(headers[i].value) == Some(scheme + seq![' '] + token),
        lowered(scheme) == "bearer"@,
        16 <= token.len() <= 4096,
        0 <= k < keys.len(),
        keys[k].digest@ == sha256_of(encode_utf8(token)),
    ensures
        authenticated(headers, keys) matches Some(key) && key.digest@ == keys[k].digest@,
        (forall|j: int|
            0 <= j < keys.len() && j != k ==> (#[trigger] keys[j]).digest@ != keys[k].digest@)
            ==> authenticated(headers, keys) == Some(keys[k]),
{
    lemma_single_value(headers, "authorization"@, i);
    let credentials = scheme + seq![' '] + token;
    reveal_strlit("bearer");
    assert(lowered(scheme).len() == 6);
    assert forall|j: int| 0 <= j < scheme.len() implies credentials[j] != ' ' by {
        assert(j == 0 || j == 1 || j == 2 || j == 3 || j == 4 || j == 5);
        assert(lowered(scheme)[j] == lowered_char(scheme[j]));
        assert(lowered(scheme)[j] == "bearer"@[j]);
        assert(lowered_char(' ') == ' ');
    }
    lemma_space_position(credentials, scheme.len() as int);
    assert(credentials.take(scheme.len() as int) =~= scheme);
    assert(credentials.skip((scheme.len() + 1) as int) =~= token);
    law_configured_keys_are_found(keys, k, keys[k].digest@);
    if forall|j: int|
        0 <= j < keys.len() && j != k ==> (#[trigger] keys[j]).digest@ != keys[k].digest@ {
        lemma_only_key(keys, k);
    }
}

/// Where one header alone has a name, its value is the only one.
proof fn lemma_single_value(headers: Seq<HeaderView>, name: Seq<char>, i: int)
    requires
        0 <= i < headers.len(),
        lowered(headers[i].name) == name,
        forall|j: int|
            0 <= j < headers.len() && j != i ==> lowered((#[trigger] headers[j]).name) != name,
    ensures
        values_of(headers, name) == seq![headers[i].value],
    decreases headers.len(),
{
    let shorter = headers.drop_last();
    if i == headers.len() - 1 {
        lemma_name_is_absent(shorter, name);
        assert(values_of(headers, name) =~= seq![headers[i].value]);
    } else {
        assert(shorter[i] == headers[i]);
        assert(lowered(headers[headers.len() - 1].name) != name);
        assert forall|j: int| 0 <= j < shorter.len() && j != i implies lowered(
            (#[trigger] shorter[j]).name,
        ) != name by {
            assert(shorter[j] == headers[j]);
        }
        lemma_single_value(shorter, name, i);
    }
}

/// Where no header has a name there is no value.
proof fn lemma_name_is_absent(headers: Seq<HeaderView>, name: Seq<char>)
    requires
        forall|j: int| 0 <= j < headers.len() ==> lowered((#[trigger] headers[j]).name) != name,
    ensures
        values_of(headers, name) == Seq::<Seq<u8>>::empty(),
    decreases headers.len(),
{
    if headers.len() > 0 {
        let shorter = headers.drop_last();
        assert(lowered(headers[headers.len() - 1].name) != name);
        assert forall|j: int| 0 <= j < shorter.len() implies lowered((#[trigger] shorter[j]).name)
            != name by {
            assert(shorter[j] == headers[j]);
        }
        lemma_name_is_absent(shorter, name);
    }
}

/// Two headers with a name give more than one value.
proof fn lemma_two_values(headers: Seq<HeaderView>, name: Seq<char>, i: int, j: int)
    requires
        0 <= i < j < headers.len(),
        lowered(headers[i].name) == name,
        lowered(headers[j].name) == name,
    ensures
        values_of(headers, name).len() >= 2,
    decreases headers.len(),
{
    let shorter = headers.drop_last();
    assert(shorter[i] == headers[i]);
    if j < headers.len() - 1 {
        assert(shorter[j] == headers[j]);
        lemma_two_values(shorter, name, i, j);
    } else {
        lemma_some_value(shorter, name, i);
    }
}

/// A header with a name gives a value.
proof fn lemma_some_value(headers: Seq<HeaderView>, name: Seq<char>, i: int)
    requires
        0 <= i < headers.len(),
        lowered(headers[i].name) == name,
    ensures
        values_of(headers, name).len() >= 1,
    decreases headers.len(),
{
    if i < headers.len() - 1 {
        assert(headers.drop_last()[i] == headers[i]);
        lemma_some_value(headers.drop_last(), name, i);
    }
}

/// Nobody is let in without a key: not without the header, not with two of them, not with a value
/// that is not visible text, in another scheme, with a token that is too short or too long, or with
/// one whose digest is that of no configured key.
pub proof fn law_nobody_is_let_in_without_a_key(
    headers: Seq<HeaderView>,
    keys: Seq<OperatorKey>,
    i: int,
    j: int,
    scheme: Seq<char>,
    token: Seq<char>,
)
    requires
        ({
            ||| forall|k: int|
                0 <= k < headers.len() ==> lowered((#[trigger] headers[k]).name)
                    != "authorization"@
            ||| {
                &&& 0 <= i < j < headers.len()
                &&& lowered(headers[i].name) == "authorization"@
                &&& lowered(headers[j].name) == "authorization"@
            }
            ||| {
                &&& 0 <= i < headers.len()
                &&& lowered(headers[i].name) == "authorization"@
                &&& visible_text_of(headers[i].value) is None
            }
            ||| {
                &&& 0 <= i < headers.len()
                &&& lowered(headers[i].name) == "authorization"@
                &&& visible_text_of(headers[i].value) == Some(scheme + seq![' '] + token)
                &&& forall|k: int| 0 <= k < scheme.len() ==> scheme[k] != ' '
                &&& {
                    ||| lowered(scheme) != "bearer"@
                    ||| token.len() < 16
                    ||| token.len() > 4096
                    ||| forall|k: int|
                        0 <= k < keys.len() ==> (#[trigger] keys[k]).digest@ != sha256_of(
                            encode_utf8(token),
                        )
                }
            }
        }),
    ensures
        authenticated(headers, keys) is None,
{
    let name = "authorization"@;
    if forall|k: int| 0 <= k < headers.len() ==> lowered((#[trigger] headers[k]).name) != name {
        lemma_name_is_absent(headers, name);
    } else if 0 <= i < j < headers.len() && lowered(headers[i].name) == name && lowered(
        headers[j].name,
    ) == name {
        lemma_two_values(headers, name, i, j);
    } else if exists|k: int|
        0 <= k < headers.len() && k != i && lowered((#[trigger] headers[k]).name) == name {
        let k = choose|k: int|
            0 <= k < headers.len() && k != i && lowered((#[trigger] headers[k]).name) == name;
        if k < i {
            lemma_two_values(headers, name, k, i);
        } else {
            lemma_two_values(headers, name, i, k);
        }
    } else {
        lemma_single_value(headers, name, i);
        if visible_text_of(headers[i].value) is Some {
            let credentials = scheme + seq![' '] + token;
            assert(credentials[scheme.len() as int] == ' ');
            lemma_space_position(credentials, scheme.len() as int);
            assert(credentials.take(scheme.len() as int) =~= scheme);
            assert(credentials.skip((scheme.len() + 1) as int) =~= token);
            if authenticated(headers, keys) is Some {
                lemma_key_is_there(keys, sha256_of(encode_utf8(token)));
                let key = authenticated(headers, keys)->Some_0;
                let k = choose|k: int| 0 <= k < keys.len() && keys[k] == key;
                assert(keys[k].digest@ == sha256_of(encode_utf8(token)));
            }
        }
    }
}

/// Where no key has a problem, none is found.
proof fn lemma_no_key_has_a_problem(entries: Seq<KeyEntry>)
    requires
        forall|i: int| 0 <= i < entries.len() ==> entry_problem(#[trigger] entries[i]) is None,
    ensures
        first_problem(entries) is None,
    decreases entries.len(),
{
    if entries.len() > 0 {
        let shorter = entries.drop_last();
        assert(entry_problem(entries[entries.len() - 1]) is None);
        assert forall|i: int| 0 <= i < shorter.len() implies entry_problem(
            #[trigger] shorter[i],
        ) is None by {
            assert(shorter[i] == entries[i]);
        }
        lemma_no_key_has_a_problem(shorter);
    }
}

/// Keys that are well configured are accepted: 1 to 4096 of them, each with the hexadecimal text of
/// a digest and a scope that is not nil, a production scope with a revision above zero, a mechanics
/// scope with none, and no scope with two profiles or two revisions.
pub proof fn law_well_bound_keys_are_accepted(entries: Seq<KeyEntry>)
    requires
        1 <= entries.len() <= 4096,
        forall|i: int|
            0 <= i < entries.len() ==> {
                &&& (#[trigger] entries[i]).binding.scope_id.value != 0
                &&& is_digest_text(entries[i].digest@)
                &&& entries[i].binding.profile == Profile::Production ==> {
                    &&& entries[i].binding.route_revision matches Some(revision)
                    &&& revision > 0
                }
                &&& entries[i].binding.profile == Profile::Mechanics
                    ==> entries[i].binding.route_revision is None
            },
        forall|i: int, j: int|
            0 <= i < entries.len() && 0 <= j < entries.len() && (
            #[trigger] entries[i]).binding.scope_id == (#[trigger] entries[j]).binding.scope_id
                ==> entries[i].binding.profile == entries[j].binding.profile
                && entries[i].binding.route_revision == entries[j].binding.route_revision,
    ensures
        keys_problem(Some(entries)) is None,
{
    lemma_no_key_has_a_problem(entries);
    assert forall|i: int, j: int|
        0 <= i < entries.len() && 0 <= j < entries.len()
            && #[trigger] entries[i].binding.scope_id == #[trigger] entries[j].binding.scope_id implies entries[i].binding
        == entries[j].binding by {
        assert(entries[i].binding.profile == entries[j].binding.profile);
    }
}

/// Keys that are badly configured are refused, one bad key among good ones too, and a scope that is
/// opened in two ways.
pub proof fn law_badly_bound_keys_are_refused(entries: Seq<KeyEntry>, i: int, j: int)
    requires
        0 <= i < entries.len(),
        0 <= j < entries.len(),
        ({
            ||| entries.len() > 4096
            ||| entries[i].binding.scope_id.value == 0
            ||| entries[i].binding.profile == Profile::Production
                && entries[i].binding.route_revision is None
            ||| entries[i].binding.profile == Profile::Production
                && entries[i].binding.route_revision == Some(0u64)
            ||| entries[i].binding.profile == Profile::Mechanics
                && entries[i].binding.route_revision is Some
            ||| !is_digest_text(entries[i].digest@)
            ||| entries[i].binding.scope_id == entries[j].binding.scope_id && (
            entries[i].binding.profile != entries[j].binding.profile
                || entries[i].binding.route_revision != entries[j].binding.route_revision)
        }),
    ensures
        keys_problem(Some(entries)) is Some,
        keys_problem(Some(Seq::<KeyEntry>::empty())) is Some,
        keys_problem(None) is Some,
{
    if keys_problem(Some(entries)) is None {
        lemma_no_problem(entries, i);
        assert(entries[i].binding.scope_id == entries[i].binding.scope_id);
        assert(entries[j].binding.scope_id == entries[j].binding.scope_id);
    }
}

/// The keys that are kept are those that were configured: in the same order, each with the digest
/// that its text stands for, and each for the scope, the profile and the revision it was configured
/// for.
pub proof fn law_keys_open_what_they_were_configured_for(
    keys: Seq<OperatorKey>,
    entries: Seq<KeyEntry>,
    i: int,
)
    requires
        are_keys_of(keys, entries),
        0 <= i < entries.len(),
    ensures
        keys.len() == entries.len(),
        keys[i].binding.scope_id == entries[i].binding.scope_id,
        keys[i].binding.profile == entries[i].binding.profile,
        keys[i].binding.route_revision == entries[i].binding.route_revision,
        hex_text(keys[i].digest@) == entries[i].digest@,
{
    assert(is_key_of(keys[i], entries[i]));
}

/// What operators are told of keys that are badly configured.
pub proof fn law_what_is_told_of_bad_keys(error: KeyError)
    ensures
        error == KeyError::Invalid ==> error.complaint() == "MILK_KEYS_JSON is invalid"@,
        error == KeyError::Count ==> error.complaint() == "MILK_KEYS_JSON must contain 1..=4096 keys"@,
        error == KeyError::NilScope ==> error.complaint() == "MILK_KEYS_JSON contains a nil scope_id"@,
        error == KeyError::RevisionMissing ==> error.complaint() == "each production scope needs a nonzero route_revision"@,
        error == KeyError::RevisionGiven ==> error.complaint() == "mechanics scopes must omit route_revision"@,
        error == KeyError::NotDigest ==> error.complaint() == "API-key digest must be 64 lowercase hexadecimal characters"@,
        error == KeyError::Conflict ==> error.complaint() == "MILK_KEYS_JSON assigns one scope conflicting bindings"@,
{
}

} // verus!
