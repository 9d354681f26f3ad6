//! JSON objects as texts, written without white space.

use vstd::prelude::*;

use crate::boundary::json_escaped;
use crate::boundary::json_escapes;
use crate::boundary::json_quoted;
use crate::boundary::json_string;
use crate::boundary::optional_text;
use crate::text::decimal;
use crate::text::decimal_text;
use crate::text::hex_digit;
use crate::text::is_digit;
use crate::text::law_decimal_reads_back;
use crate::text::lemma_decimal_digits;
use crate::text::lemma_hex_digit_injective;
use crate::text::parsed_decimal;

verus! {

/// One member of a JSON object: its name, and its value as JSON text.
pub struct Member {
    pub name: String,
    pub value: String,
}

impl View for Member {
    type V = (Seq<char>, Seq<char>);

    open spec fn view(&self) -> (Seq<char>, Seq<char>) {
        (self.name@, self.value@)
    }
}

/// The members of an object, as texts.
pub open spec fn member_views(members: Seq<Member>) -> Seq<(Seq<char>, Seq<char>)> {
    Seq::new(members.len(), |i: int| members[i]@)
}

/// One member: the quoted name, a colon and the value.
pub open spec fn member_json(member: (Seq<char>, Seq<char>)) -> Seq<char> {
    json_quoted(member.0) + seq![':'] + member.1
}

/// Members with a comma between each two.
pub open spec fn members_json(members: Seq<(Seq<char>, Seq<char>)>) -> Seq<char>
    decreases members.len(),
{
    if members.len() == 0 {
        Seq::empty()
    } else if members.len() == 1 {
        member_json(members[0])
    } else {
        members_json(members.drop_last()) + seq![','] + member_json(members.last())
    }
}

/// A JSON object with the given members, in the given order.
pub open spec fn object_json(members: Seq<(Seq<char>, Seq<char>)>) -> Seq<char> {
    seq!['{'] + members_json(members) + seq!['}']
}

/// A Boolean in JSON.
pub open spec fn bool_json(value: bool) -> Seq<char> {
    if value {
        "true"@
    } else {
        "false"@
    }
}

/// A text that may be absent, in JSON.
pub open spec fn optional_json(text: Option<Seq<char>>) -> Seq<char> {
    match text {
        Some(text) => json_quoted(text),
        None => "null"@,
    }
}

/// A number that may be absent, in JSON.
pub open spec fn optional_number_json(value: Option<u64>) -> Seq<char> {
    match value {
        Some(value) => decimal(value as nat),
        None => "null"@,
    }
}

/// A member with the given name and JSON value.
pub fn member(name: &str, value: String) -> (result: Member)
    ensures
        result@ == (name@, value@),
{
    Member { name: name.to_owned(), value }
}

/// A member whose value is a text.
pub fn text_member(name: &str, value: &str) -> (result: Member)
    ensures
        result@ == (name@, json_quoted(value@)),
{
    member(name, json_string(value))
}

/// A member whose value is a number.
pub fn number_member(name: &str, value: u64) -> (result: Member)
    ensures
        result@ == (name@, decimal(value as nat)),
{
    member(name, decimal_text(value))
}

/// A member whose value is a Boolean.
pub fn bool_member(name: &str, value: bool) -> (result: Member)
    ensures
        result@ == (name@, bool_json(value)),
{
    member(
        name,
        if value {
            "true".to_owned()
        } else {
            "false".to_owned()
        },
    )
}

/// A member whose value is a text or null.
pub fn optional_member(name: &str, value: &Option<String>) -> (result: Member)
    ensures
        result@ == (name@, optional_json(optional_text(*value))),
{
    match value {
        Some(text) => text_member(name, text.as_str()),
        None => member(name, "null".to_owned()),
    }
}

/// A member whose value is a number or null.
pub fn optional_number_member(name: &str, value: Option<u64>) -> (result: Member)
    ensures
        result@ == (name@, optional_number_json(value)),
{
    match value {
        Some(value) => number_member(name, value),
        None => member(name, "null".to_owned()),
    }
}

/// Writes an object with the given members, in their order.
pub fn object_text(members: &Vec<Member>) -> (result: String)
    ensures
        result@ == object_json(member_views(members@)),
{
    let ghost views = member_views(members@);
    let mut result = String::new();
    result.push('{');
    assert(views.take(0) =~= Seq::empty());
    for i in 0..members.len()
        invariant
            views == member_views(members@),
            result@ =~= seq!['{'] + members_json(views.take(i as int)),
    {
        let ghost before = members_json(views.take(i as int));
        if i > 0 {
            result.push(',');
        }
        let name = json_string(members[i].name.as_str());
        result.append(name.as_str());
        result.push(':');
        result.append(members[i].value.as_str());
        proof {
            let upto = views.take(i + 1);
            assert(upto.drop_last() =~= views.take(i as int));
            assert(upto.last() == views[i as int]);
            assert(member_json(views[i as int]) =~= json_quoted(members@[i as int].name@) + seq![
                ':',
            ] + members@[i as int].value@);
            if i == 0 {
                assert(before =~= Seq::empty());
                assert(upto[0] == views[0]);
                assert(members_json(upto) == member_json(views[0]));
            } else {
                assert(members_json(upto) == before + seq![','] + member_json(views[i as int]));
            }
        }
    }
    assert(views.take(views.len() as int) =~= views);
    result.push('}');
    assert(result@ =~= object_json(views));
    result
}

/// What can follow a value in an object.
pub open spec fn stops(rest: Seq<char>) -> bool {
    rest.len() > 0 && (rest[0] == ',' || rest[0] == '}')
}

/// Two value texts can be told apart, and told from what follows them in an object.
pub open spec fn delimited(v: Seq<char>, w: Seq<char>) -> bool {
    forall|r: Seq<char>, s: Seq<char>|
        stops(r) && stops(s) && #[trigger] (v + r) == #[trigger] (w + s) ==> v == w && r == s
}

/// What a text continues with after a common beginning.
proof fn lemma_cut(head: Seq<char>, r: Seq<char>, s: Seq<char>)
    requires
        head + r == head + s,
    ensures
        r == s,
{
    assert((head + r).skip(head.len() as int) =~= r);
    assert((head + s).skip(head.len() as int) =~= s);
}

/// An escaped character is told from another, and from what follows.
proof fn lemma_escaped_apart(c: char, d: char, r: Seq<char>, s: Seq<char>)
    requires
        json_escaped(c) + r == json_escaped(d) + s,
    ensures
        c == d,
        r == s,
{
    let x = json_escaped(c) + r;
    let y = json_escaped(d) + s;
    assert(x[0] == json_escaped(c)[0]);
    assert(y[0] == json_escaped(d)[0]);
    if x[0] == '\\' {
        assert(json_escaped(c).len() > 1);
        assert(json_escaped(d).len() > 1);
        assert(x[1] == json_escaped(c)[1]);
        assert(y[1] == json_escaped(d)[1]);
        if x[1] == 'u' {
            assert(x[4] == hex_digit(c as int / 16));
            assert(x[5] == hex_digit(c as int % 16));
            assert(y[4] == hex_digit(d as int / 16));
            assert(y[5] == hex_digit(d as int % 16));
            lemma_hex_digit_injective(c as int / 16, d as int / 16);
            lemma_hex_digit_injective(c as int % 16, d as int % 16);
            assert(c as int == d as int);
        }
    }
    assert(c == d);
    lemma_cut(json_escaped(c), r, s);
}

/// Two escaped texts, each up to a closing quote, are told apart.
proof fn lemma_escapes_apart(a: Seq<char>, b: Seq<char>, r: Seq<char>, s: Seq<char>)
    requires
        json_escapes(a) + (seq!['"'] + r) == json_escapes(b) + (seq!['"'] + s),
    ensures
        a == b,
        r == s,
    decreases a.len(),
{
    let x = json_escapes(a) + (seq!['"'] + r);
    let y = json_escapes(b) + (seq!['"'] + s);
    if a.len() == 0 && b.len() == 0 {
        assert(a =~= b);
        assert(json_escapes(a) =~= json_escapes(b));
        lemma_cut(json_escapes(a), seq!['"'] + r, seq!['"'] + s);
        lemma_cut(seq!['"'], r, s);
    } else if a.len() == 0 {
        assert(x[0] == '"');
        assert(y[0] == json_escaped(b[0])[0]);
        assert(false);
    } else if b.len() == 0 {
        assert(y[0] == '"');
        assert(x[0] == json_escaped(a[0])[0]);
        assert(false);
    } else {
        let a_rest = json_escapes(a.skip(1)) + (seq!['"'] + r);
        let b_rest = json_escapes(b.skip(1)) + (seq!['"'] + s);
        assert(x =~= json_escaped(a[0]) + a_rest);
        assert(y =~= json_escaped(b[0]) + b_rest);
        lemma_escaped_apart(a[0], b[0], a_rest, b_rest);
        lemma_escapes_apart(a.skip(1), b.skip(1), r, s);
        assert(a =~= seq![a[0]] + a.skip(1));
        assert(b =~= seq![b[0]] + b.skip(1));
    }
}

/// Two quoted texts are told apart, and told from whatever follows them.
proof fn lemma_quoted_apart(a: Seq<char>, b: Seq<char>, r: Seq<char>, s: Seq<char>)
    requires
        json_quoted(a) + r == json_quoted(b) + s,
    ensures
        a == b,
        r == s,
{
    let a_rest = json_escapes(a) + (seq!['"'] + r);
    let b_rest = json_escapes(b) + (seq!['"'] + s);
    assert(json_quoted(a) + r =~= seq!['"'] + a_rest);
    assert(json_quoted(b) + s =~= seq!['"'] + b_rest);
    lemma_cut(seq!['"'], a_rest, b_rest);
    lemma_escapes_apart(a, b, r, s);
}

/// A JSON string stands for one text.
pub proof fn law_quoted_texts_identify(a: Seq<char>, b: Seq<char>)
    ensures
        delimited(json_quoted(a), json_quoted(b)),
        json_quoted(a) == json_quoted(b) ==> a == b,
{
    assert forall|r: Seq<char>, s: Seq<char>|
        stops(r) && stops(s) && #[trigger] (json_quoted(a) + r) == #[trigger] (json_quoted(b)
            + s) implies json_quoted(a) == json_quoted(b) && r == s by {
        lemma_quoted_apart(a, b, r, s);
    }
    if json_quoted(a) == json_quoted(b) {
        lemma_quoted_apart(a, b, Seq::empty(), Seq::empty());
    }
}

/// A JSON number stands for one number.
pub proof fn law_numbers_identify(n: nat, m: nat)
    ensures
        delimited(decimal(n), decimal(m)),
        decimal(n) == decimal(m) ==> n == m,
{
    lemma_decimal_digits(n);
    lemma_decimal_digits(m);
    law_decimal_reads_back(n);
    law_decimal_reads_back(m);
    assert forall|r: Seq<char>, s: Seq<char>|
        stops(r) && stops(s) && #[trigger] (decimal(n) + r) == #[trigger] (decimal(m)
            + s) implies decimal(n) == decimal(m) && r == s by {
        let x = decimal(n) + r;
        let y = decimal(m) + s;
        if decimal(n).len() < decimal(m).len() {
            assert(x[decimal(n).len() as int] == r[0]);
            assert(is_digit(decimal(m)[decimal(n).len() as int]));
            assert(false);
        }
        if decimal(m).len() < decimal(n).len() {
            assert(y[decimal(m).len() as int] == s[0]);
            assert(is_digit(decimal(n)[decimal(m).len() as int]));
            assert(false);
        }
        assert(x.take(decimal(n).len() as int) =~= decimal(n));
        assert(y.take(decimal(m).len() as int) =~= decimal(m));
        lemma_cut(decimal(n), r, s);
    }
}

/// Members from the front: the first, and where there are more a comma and the others.
proof fn lemma_members_from_front(members: Seq<(Seq<char>, Seq<char>)>)
    requires
        members.len() > 1,
    ensures
        members_json(members) == member_json(members[0]) + seq![','] + members_json(
            members.skip(1),
        ),
    decreases members.len(),
{
    let before = members.drop_last();
    if members.len() == 2 {
        assert(before[0] == members[0]);
        assert(members.skip(1)[0] == members.last());
        assert(members_json(before) == member_json(members[0]));
        assert(members_json(members.skip(1)) == member_json(members.last()));
    } else {
        lemma_members_from_front(before);
        assert(before[0] == members[0]);
        assert(before.skip(1) =~= members.skip(1).drop_last());
        assert(members.skip(1).last() == members.last());
        assert(members_json(members) =~= member_json(members[0]) + seq![','] + members_json(
            members.skip(1),
        ));
    }
}

/// What is left of an object from its first member on.
spec fn open_object(members: Seq<(Seq<char>, Seq<char>)>, rest: Seq<char>) -> Seq<char> {
    members_json(members) + (seq!['}'] + rest)
}

/// An object that is not empty, from its first member on.
proof fn lemma_open_object(members: Seq<(Seq<char>, Seq<char>)>, rest: Seq<char>)
    requires
        members.len() > 0,
    ensures
        ({
            let after = if members.len() == 1 {
                seq!['}'] + rest
            } else {
                seq![','] + open_object(members.skip(1), rest)
            };
            &&& stops(after)
            &&& open_object(members, rest) == json_quoted(members[0].0) + (seq![':'] + (members[0].1
                + after))
        }),
{
    if members.len() == 1 {
        assert(open_object(members, rest) =~= json_quoted(members[0].0) + (seq![':'] + (
        members[0].1 + (seq!['}'] + rest))));
    } else {
        lemma_members_from_front(members);
        assert(open_object(members, rest) =~= json_quoted(members[0].0) + (seq![':'] + (
        members[0].1 + (seq![','] + open_object(members.skip(1), rest)))));
    }
}

/// Two objects, from their first members on, are told apart, where the values of their members are.
proof fn lemma_objects_apart(
    a: Seq<(Seq<char>, Seq<char>)>,
    b: Seq<(Seq<char>, Seq<char>)>,
    r: Seq<char>,
    s: Seq<char>,
)
    requires
        open_object(a, r) == open_object(b, s),
        forall|i: int|
            0 <= i < a.len() && i < b.len() && (#[trigger] a[i]).0 == (#[trigger] b[i]).0
                ==> delimited(a[i].1, b[i].1),
    ensures
        a == b,
        r == s,
    decreases a.len(),
{
    if a.len() == 0 && b.len() == 0 {
        assert(a =~= b);
        assert(open_object(a, r) =~= seq!['}'] + r);
        assert(open_object(b, s) =~= seq!['}'] + s);
        lemma_cut(seq!['}'], r, s);
    } else if a.len() == 0 {
        lemma_open_object(b, s);
        assert(open_object(a, r)[0] == '}');
        assert(open_object(b, s)[0] == '"');
    } else if b.len() == 0 {
        lemma_open_object(a, r);
        assert(open_object(b, s)[0] == '}');
        assert(open_object(a, r)[0] == '"');
    } else {
        lemma_open_object(a, r);
        lemma_open_object(b, s);
        let a_after = if a.len() == 1 {
            seq!['}'] + r
        } else {
            seq![','] + open_object(a.skip(1), r)
        };
        let b_after = if b.len() == 1 {
            seq!['}'] + s
        } else {
            seq![','] + open_object(b.skip(1), s)
        };
        lemma_quoted_apart(
            a[0].0,
            b[0].0,
            seq![':'] + (a[0].1 + a_after),
            seq![':'] + (b[0].1 + b_after),
        );
        lemma_cut(seq![':'], a[0].1 + a_after, b[0].1 + b_after);
        assert(delimited(a[0].1, b[0].1));
        assert(a[0].1 == b[0].1 && a_after == b_after);
        if a.len() == 1 || b.len() == 1 {
            assert(a_after[0] == b_after[0]);
            assert(a.len() == 1 && b.len() == 1);
            lemma_cut(seq!['}'], r, s);
            assert(a =~= b);
        } else {
            lemma_cut(seq![','], open_object(a.skip(1), r), open_object(b.skip(1), s));
            assert forall|i: int|
                0 <= i < a.skip(1).len() && i < b.skip(1).len() && (#[trigger] a.skip(1)[i]).0 == (
                #[trigger] b.skip(1)[i]).0 implies delimited(a.skip(1)[i].1, b.skip(1)[i].1) by {
                assert(a.skip(1)[i] == a[i + 1]);
                assert(b.skip(1)[i] == b[i + 1]);
            }
            lemma_objects_apart(a.skip(1), b.skip(1), r, s);
            assert(a =~= seq![a[0]] + a.skip(1));
            assert(b =~= seq![b[0]] + b.skip(1));
        }
    }
}

/// The text of an object determines its members, names and values, where the texts of the values
/// under one name can be told apart.
pub proof fn law_objects_identify(
    a: Seq<(Seq<char>, Seq<char>)>,
    b: Seq<(Seq<char>, Seq<char>)>,
)
    requires
        forall|i: int|
            0 <= i < a.len() && i < b.len() && (#[trigger] a[i]).0 == (#[trigger] b[i]).0
                ==> delimited(a[i].1, b[i].1),
    ensures
        delimited(object_json(a), object_json(b)),
        object_json(a) == object_json(b) ==> a == b,
{
    assert forall|r: Seq<char>, s: Seq<char>|
        stops(r) && stops(s) && #[trigger] (object_json(a) + r) == #[trigger] (object_json(b)
            + s) implies object_json(a) == object_json(b) && r == s by {
        lemma_objects(a, b, r, s);
    }
    if object_json(a) == object_json(b) {
        lemma_objects(a, b, Seq::empty(), Seq::empty());
    }
}

/// Two objects are told apart, and told from whatever follows them.
proof fn lemma_objects(
    a: Seq<(Seq<char>, Seq<char>)>,
    b: Seq<(Seq<char>, Seq<char>)>,
    r: Seq<char>,
    s: Seq<char>,
)
    requires
        object_json(a) + r == object_json(b) + s,
        forall|i: int|
            0 <= i < a.len() && i < b.len() && (#[trigger] a[i]).0 == (#[trigger] b[i]).0
                ==> delimited(a[i].1, b[i].1),
    ensures
        a == b,
        r == s,
{
    assert(object_json(a) + r =~= seq!['{'] + open_object(a, r));
    assert(object_json(b) + s =~= seq!['{'] + open_object(b, s));
    lemma_cut(seq!['{'], open_object(a, r), open_object(b, s));
    lemma_objects_apart(a, b, r, s);
}

/// Texts that begin with different characters are told apart.
pub proof fn lemma_first_characters_differ(v: Seq<char>, w: Seq<char>)
    requires
        v.len() > 0,
        w.len() > 0,
        v[0] != w[0],
    ensures
        delimited(v, w),
        v != w,
{
    assert forall|r: Seq<char>, s: Seq<char>|
        stops(r) && stops(s) && #[trigger] (v + r) == #[trigger] (w + s) implies v == w && r
        == s by {
        assert((v + r)[0] == v[0]);
        assert((w + s)[0] == w[0]);
    }
}

/// A text is told from what follows it.
pub proof fn lemma_told_from_rest(v: Seq<char>)
    ensures
        delimited(v, v),
{
    assert forall|r: Seq<char>, s: Seq<char>|
        stops(r) && stops(s) && #[trigger] (v + r) == #[trigger] (v + s) implies r == s by {
        lemma_cut(v, r, s);
    }
}

/// A Boolean in JSON stands for one Boolean.
pub proof fn law_booleans_identify(a: bool, b: bool)
    ensures
        delimited(bool_json(a), bool_json(b)),
        bool_json(a) == bool_json(b) ==> a == b,
{
    reveal_strlit("true");
    reveal_strlit("false");
    if a == b {
        lemma_told_from_rest(bool_json(a));
    } else {
        lemma_first_characters_differ(bool_json(a), bool_json(b));
    }
}

/// A text that may be absent, in JSON, stands for one text or for none.
pub proof fn law_optional_texts_identify(a: Option<Seq<char>>, b: Option<Seq<char>>)
    ensures
        delimited(optional_json(a), optional_json(b)),
        optional_json(a) == optional_json(b) ==> a == b,
{
    reveal_strlit("null");
    match (a, b) {
        (Some(a), Some(b)) => law_quoted_texts_identify(a, b),
        (None, None) => lemma_told_from_rest("null"@),
        _ => lemma_first_characters_differ(optional_json(a), optional_json(b)),
    }
}

/// A number that may be absent, in JSON, stands for one number or for none.
pub proof fn law_optional_numbers_identify(a: Option<u64>, b: Option<u64>)
    ensures
        delimited(optional_number_json(a), optional_number_json(b)),
        optional_number_json(a) == optional_number_json(b) ==> a == b,
{
    reveal_strlit("null");
    match (a, b) {
        (Some(a), Some(b)) => law_numbers_identify(a as nat, b as nat),
        (None, None) => lemma_told_from_rest("null"@),
        (Some(a), None) => {
            lemma_decimal_digits(a as nat);
            assert(is_digit(decimal(a as nat)[0]));
            lemma_first_characters_differ(decimal(a as nat), "null"@);
        },
        (None, Some(b)) => {
            lemma_decimal_digits(b as nat);
            assert(is_digit(decimal(b as nat)[0]));
            lemma_first_characters_differ("null"@, decimal(b as nat));
        },
    }
}

/// A text says a value under a name: somewhere in it stand the quoted name, a colon and the value.
pub open spec fn says(text: Seq<char>, name: Seq<char>, value: Seq<char>) -> bool {
    exists|before: Seq<char>, after: Seq<char>|
        text == #[trigger] (before + (json_quoted(name) + seq![':'] + value) + after)
}

/// Members say each of them.
proof fn lemma_members_say(members: Seq<(Seq<char>, Seq<char>)>, i: int) -> (around: (
    Seq<char>,
    Seq<char>,
))
    requires
        0 <= i < members.len(),
    ensures
        members_json(members) == around.0 + (json_quoted(members[i].0) + seq![':'] + members[i].1)
            + around.1,
    decreases members.len(),
{
    let wanted = json_quoted(members[i].0) + seq![':'] + members[i].1;
    if members.len() == 1 {
        let none = Seq::<char>::empty();
        assert(members_json(members) =~= none + wanted + none);
        (none, none)
    } else if i == members.len() - 1 {
        let none = Seq::<char>::empty();
        let before = members_json(members.drop_last()) + seq![','];
        assert(members_json(members) =~= before + wanted + none);
        (before, none)
    } else {
        assert(members.drop_last()[i] == members[i]);
        let (before, after) = lemma_members_say(members.drop_last(), i);
        let more = after + seq![','] + member_json(members.last());
        assert(members_json(members) =~= before + wanted + more);
        (before, more)
    }
}

/// An object says each of its members.
pub proof fn law_objects_say_their_members(members: Seq<(Seq<char>, Seq<char>)>, i: int)
    requires
        0 <= i < members.len(),
    ensures
        says(object_json(members), members[i].0, members[i].1),
{
    let (before, after) = lemma_members_say(members, i);
    let wanted = json_quoted(members[i].0) + seq![':'] + members[i].1;
    assert(object_json(members) =~= (seq!['{'] + before) + wanted + (after + seq!['}']));
}

/// Objects are written member by member: braces around them, and before each but the first a comma.
pub proof fn law_objects_are_written_member_by_member(
    members: Seq<(Seq<char>, Seq<char>)>,
    name: Seq<char>,
    value: Seq<char>,
)
    ensures
        object_json(Seq::empty()) == "{}"@,
        object_json(seq![(name, value)]) == "{"@ + json_quoted(name) + ":"@ + value + "}"@,
        members.len() > 0 ==> object_json(members.push((name, value))) == object_json(
            members,
        ).drop_last() + ","@ + json_quoted(name) + ":"@ + value + "}"@,
{
    reveal_strlit("{}");
    reveal_strlit("{");
    reveal_strlit(":");
    reveal_strlit("}");
    reveal_strlit(",");
    assert(object_json(Seq::empty()) =~= "{}"@);
    assert(object_json(seq![(name, value)]) =~= "{"@ + json_quoted(name) + ":"@ + value + "}"@);
    if members.len() > 0 {
        assert(members.push((name, value)).drop_last() =~= members);
        assert(object_json(members.push((name, value))) =~= object_json(members).drop_last() + ","@
            + json_quoted(name) + ":"@ + value + "}"@);
    }
}

/// What is absent is written as null, and what is there as itself; truth is written as true.
pub proof fn law_absent_values_are_null(text: Seq<char>, n: u64)
    ensures
        optional_json(None) == "null"@,
        optional_json(Some(text)) == json_quoted(text),
        optional_number_json(None) == "null"@,
        parsed_decimal(optional_number_json(Some(n))) == Some(n as nat),
        bool_json(true) == "true"@,
        bool_json(false) == "false"@,
{
    law_decimal_reads_back(n as nat);
}

} // verus!
