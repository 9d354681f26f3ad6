//! Where objects lie in the store.

use vstd::prelude::*;

use crate::identity::law_uuid_text_identifies;
use crate::identity::lemma_text_shape;
use crate::identity::Uuid;
use crate::store::parent_segment_at;
use crate::store::valid_key;
use crate::text::joined;

verus! {

/// What the keys of a scope's objects start with.
pub open spec fn scope_prefix(scope_id: Uuid) -> Seq<char> {
    "milk/v2/scopes/"@ + scope_id.text()
}

/// The key of the object that holds the pointer to a scope's route.
pub open spec fn pointer_key_of(scope_id: Uuid) -> Seq<char> {
    scope_prefix(scope_id) + "/r/current.json"@
}

/// The key of the object that holds a route of a scope.
pub open spec fn route_key_of(scope_id: Uuid, route_id: Uuid) -> Seq<char> {
    scope_prefix(scope_id) + "/r/"@ + route_id.text() + ".json"@
}

/// The key of the object that holds the capture of an exchange.
pub open spec fn capture_key_of(scope_id: Uuid, exchange_id: Uuid) -> Seq<char> {
    scope_prefix(scope_id) + "/c/"@ + exchange_id.text() + ".json.zst"@
}

/// The key of the object that holds the status of a scope.
pub open spec fn status_key_of(scope_id: Uuid) -> Seq<char> {
    scope_prefix(scope_id) + "/status/current.json"@
}

/// What the keys of a scope's objects start with, and what follows there.
fn scope_key(scope_id: Uuid, rest: &str) -> (result: String)
    ensures
        result@ == scope_prefix(scope_id) + rest@,
{
    let prefix = joined("milk/v2/scopes/", scope_id.to_text().as_str());
    joined(prefix.as_str(), rest)
}

/// The key of the object that holds the pointer to a scope's route.
pub fn pointer_key(scope_id: Uuid) -> (result: String)
    ensures
        result@ == pointer_key_of(scope_id),
{
    scope_key(scope_id, "/r/current.json")
}

/// The key of the object that holds a route of a scope.
pub fn route_key(scope_id: Uuid, route_id: Uuid) -> (result: String)
    ensures
        result@ == route_key_of(scope_id, route_id),
{
    let named = joined(scope_key(scope_id, "/r/").as_str(), route_id.to_text().as_str());
    joined(named.as_str(), ".json")
}

/// The key of the object that holds the capture of an exchange.
pub fn capture_key(scope_id: Uuid, exchange_id: Uuid) -> (result: String)
    ensures
        result@ == capture_key_of(scope_id, exchange_id),
{
    let named = joined(scope_key(scope_id, "/c/").as_str(), exchange_id.to_text().as_str());
    joined(named.as_str(), ".json.zst")
}

/// The key of the object that holds the status of a scope.
pub fn status_key(scope_id: Uuid) -> (result: String)
    ensures
        result@ == status_key_of(scope_id),
{
    scope_key(scope_id, "/status/current.json")
}

/// The texts that keys are made of.
proof fn lemma_literals()
    ensures
        "milk/v2/scopes/"@.len() == 15,
        "milk/v2/scopes/"@[0] == 'm',
        forall|i: int| 0 <= i < 15 ==> #[trigger] "milk/v2/scopes/"@[i] != '.',
        "/r/current.json"@.len() == 15,
        "/r/current.json"@[0] == '/',
        "/r/current.json"@[1] == 'r',
        forall|i: int|
            0 <= i < 15 ==> (#[trigger] "/r/current.json"@[i] == '.' ==> i == 10),
        "/r/"@ == seq!['/', 'r', '/'],
        "/c/"@ == seq!['/', 'c', '/'],
        ".json"@ == seq!['.', 'j', 's', 'o', 'n'],
        ".json.zst"@ == seq!['.', 'j', 's', 'o', 'n', '.', 'z', 's', 't'],
        "/status/current.json"@.len() == 20,
        "/status/current.json"@[1] == 's',
        forall|i: int|
            0 <= i < 20 ==> (#[trigger] "/status/current.json"@[i] == '.' ==> i == 15),
{
    reveal_strlit("milk/v2/scopes/");
    reveal_strlit("/r/current.json");
    reveal_strlit("/r/");
    reveal_strlit("/c/");
    reveal_strlit(".json");
    reveal_strlit(".json.zst");
    reveal_strlit("/status/current.json");
    assert("/r/"@ =~= seq!['/', 'r', '/']);
    assert("/c/"@ =~= seq!['/', 'c', '/']);
    assert(".json"@ =~= seq!['.', 'j', 's', 'o', 'n']);
    assert(".json.zst"@ =~= seq!['.', 'j', 's', 'o', 'n', '.', 'z', 's', 't']);
}

/// A text in which no two dots are neighbours leads nowhere upwards.
proof fn lemma_no_parents(key: Seq<char>)
    requires
        forall|i: int| 0 <= i < key.len() - 1 && key[i] == '.' ==> #[trigger] key[i + 1] != '.',
    ensures
        forall|i: int| !#[trigger] parent_segment_at(key, i),
{
    assert forall|i: int| !#[trigger] parent_segment_at(key, i) by {
        if parent_segment_at(key, i) {
            assert(key[i + 1] == '.');
        }
    }
}

/// Every key under which the gateway keeps an object is one that a store takes.
pub proof fn law_keys_are_valid(scope_id: Uuid, other_id: Uuid)
    ensures
        valid_key(pointer_key_of(scope_id)),
        valid_key(route_key_of(scope_id, other_id)),
        valid_key(capture_key_of(scope_id, other_id)),
        valid_key(status_key_of(scope_id)),
{
    lemma_literals();
    lemma_text_shape(scope_id);
    lemma_text_shape(other_id);
    lemma_no_parents(pointer_key_of(scope_id));
    lemma_no_parents(route_key_of(scope_id, other_id));
    lemma_no_parents(capture_key_of(scope_id, other_id));
    lemma_no_parents(status_key_of(scope_id));
}

/// The objects of two scopes never share a key.
pub proof fn law_scopes_share_no_key(a: Uuid, b: Uuid, a_rest: Seq<char>, b_rest: Seq<char>)
    requires
        scope_prefix(a) + a_rest == scope_prefix(b) + b_rest,
    ensures
        a == b,
        a_rest == b_rest,
{
    lemma_literals();
    lemma_text_shape(a);
    lemma_text_shape(b);
    let key = scope_prefix(a) + a_rest;
    assert(key.subrange(15, 51) =~= a.text());
    assert(key.subrange(15, 51) =~= b.text());
    law_uuid_text_identifies(a, b);
    assert(key.skip(51) =~= a_rest);
    assert(key.skip(51) =~= b_rest);
}

/// The captures of two exchanges never share a key.
pub proof fn law_captures_share_no_key(
    a_scope: Uuid,
    a_exchange: Uuid,
    b_scope: Uuid,
    b_exchange: Uuid,
)
    requires
        capture_key_of(a_scope, a_exchange) == capture_key_of(b_scope, b_exchange),
    ensures
        a_scope == b_scope,
        a_exchange == b_exchange,
{
    lemma_literals();
    lemma_text_shape(a_scope);
    lemma_text_shape(b_scope);
    lemma_text_shape(a_exchange);
    lemma_text_shape(b_exchange);
    let key = capture_key_of(a_scope, a_exchange);
    assert(key.subrange(15, 51) =~= a_scope.text());
    assert(key.subrange(15, 51) =~= b_scope.text());
    assert(key.subrange(54, 90) =~= a_exchange.text());
    assert(key.subrange(54, 90) =~= b_exchange.text());
    law_uuid_text_identifies(a_scope, b_scope);
    law_uuid_text_identifies(a_exchange, b_exchange);
}

/// A capture is never kept under the key of a pointer, a route or a status.
pub proof fn law_captures_lie_apart(scope_id: Uuid, exchange_id: Uuid, other: Uuid, route_id: Uuid)
    ensures
        capture_key_of(scope_id, exchange_id) != pointer_key_of(other),
        capture_key_of(scope_id, exchange_id) != route_key_of(other, route_id),
        capture_key_of(scope_id, exchange_id) != status_key_of(other),
{
    lemma_literals();
    lemma_text_shape(scope_id);
    lemma_text_shape(other);
    assert(capture_key_of(scope_id, exchange_id)[52] == 'c');
    assert(pointer_key_of(other)[52] == 'r');
    assert(route_key_of(other, route_id)[52] == 'r');
    assert(status_key_of(other)[52] == 's');
}

/// Where objects lie: all of a scope under `milk/v2/scopes/` and the scope, the pointer to its route,
/// its routes by their names, its captures by their exchanges, and its status.
pub proof fn law_where_objects_lie(scope_id: Uuid, other_id: Uuid)
    ensures
        pointer_key_of(scope_id) == "milk/v2/scopes/"@ + scope_id.text() + "/r/current.json"@,
        route_key_of(scope_id, other_id) == "milk/v2/scopes/"@ + scope_id.text() + "/r/"@
            + other_id.text() + ".json"@,
        capture_key_of(scope_id, other_id) == "milk/v2/scopes/"@ + scope_id.text() + "/c/"@
            + other_id.text() + ".json.zst"@,
        status_key_of(scope_id) == "milk/v2/scopes/"@ + scope_id.text() + "/status/current.json"@,
{
}

} // verus!
