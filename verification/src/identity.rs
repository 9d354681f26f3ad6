//! Identifiers: UUIDs, profiles, protocols and targets.

use vstd::prelude::*;

use crate::boundary::uuid_bytes;
use crate::boundary::uuid_digits;
use crate::boundary::uuid_format;
use crate::boundary::uuid_hyphenated;
use crate::boundary::uuid_now_v7;
use crate::boundary::uuid_parse;
use crate::boundary::uuid_reads;
use crate::boundary::uuid_text;
use crate::boundary::uuid_version;
use crate::text::hex_text;
use crate::text::lemma_hex_text_injective;
use crate::text::lowered_char;

verus! {

/// A UUID, as a number whose most significant byte comes first.
#[derive(Clone, Copy, Debug, PartialEq, Eq, Structural)]
pub struct Uuid {
    pub value: u128,
}

impl Uuid {
    /// The hyphenated text.
    pub open spec fn text(self) -> Seq<char> {
        uuid_text(self.value)
    }

    /// The sixteen bytes.
    pub open spec fn bytes(self) -> Seq<u8> {
        uuid_bytes(self.value)
    }

    /// Whether every bit is zero.
    pub fn is_nil(self) -> (result: bool)
        ensures
            result == (self.value == 0),
    {
        self.value == 0
    }

    /// The UUID that a text stands for, none where it stands for none.
    pub open spec fn of_text(text: Seq<char>) -> Option<Uuid> {
        if exists|value: u128| uuid_reads(text, value) {
            Some(Uuid { value: choose|value: u128| uuid_reads(text, value) })
        } else {
            None
        }
    }

    /// The UUID that a text stands for.
    pub fn parse_str(text: &str) -> (result: Option<Uuid>)
        ensures
            result == Uuid::of_text(text@),
            result matches Some(uuid) ==> uuid_reads(text@, uuid.value),
    {
        match uuid_parse(text) {
            Some(value) => {
                proof {
                    law_a_text_stands_for_one_uuid(
                        text@,
                        Uuid { value },
                        Uuid::of_text(text@)->Some_0,
                    );
                }
                Some(Uuid { value })
            },
            None => None,
        }
    }

    /// A new UUID of version 7.
    pub fn now_v7() -> (result: Uuid)
        ensures
            uuid_version(result.value) == 7,
    {
        Uuid { value: uuid_now_v7() }
    }

    /// The hyphenated text.
    pub fn to_text(self) -> (result: String)
        ensures
            result@ == self.text(),
    {
        uuid_format(self.value)
    }

    /// The sixteen bytes, the most significant first.
    pub fn to_bytes(self) -> (result: Vec<u8>)
        ensures
            result@ == self.bytes(),
    {
        let mut result: Vec<u8> = Vec::new();
        for i in 0..16u128
            invariant
                result@ == self.bytes().take(i as int),
        {
            #[verifier::truncate]
            let byte: u8 = (self.value >> (120 - 8 * i)) as u8;
            result.push(byte);
            assert(self.bytes().take(i + 1) =~= self.bytes().take(i as int).push(byte));
        }
        assert(self.bytes().take(16) =~= self.bytes());
        result
    }
}

/// How a key's requests are routed.
#[derive(Clone, Copy, Debug, PartialEq, Eq, Structural)]
pub enum Profile {
    /// By signed routes.
    Production,
    /// To configured upstreams alone.
    Mechanics,
}

impl Profile {
    /// The name in configuration and in captures.
    pub open spec fn name(self) -> Seq<char> {
        match self {
            Profile::Production => "production"@,
            Profile::Mechanics => "mechanics"@,
        }
    }

    /// The name in configuration and in captures.
    pub fn as_str(self) -> (result: &'static str)
        ensures
            result@ == self.name(),
    {
        match self {
            Profile::Production => "production",
            Profile::Mechanics => "mechanics",
        }
    }
}

/// An API that the gateway forwards.
#[derive(Clone, Copy, Debug, PartialEq, Eq, Structural)]
pub enum Protocol {
    ChatCompletions,
    Responses,
}

impl Protocol {
    /// The name in routes and captures.
    pub open spec fn name(self) -> Seq<char> {
        match self {
            Protocol::ChatCompletions => "chat_completions"@,
            Protocol::Responses => "responses"@,
        }
    }

    /// The name in routes and captures.
    pub fn as_str(self) -> (result: &'static str)
        ensures
            result@ == self.name(),
    {
        match self {
            Protocol::ChatCompletions => "chat_completions",
            Protocol::Responses => "responses",
        }
    }
}

/// Where a request goes.
#[derive(Clone, Copy, Debug, PartialEq, Eq, Structural)]
pub enum Target {
    Baseline,
    CandidateA,
}

impl Target {
    /// The name in captures.
    pub open spec fn name(self) -> Seq<char> {
        match self {
            Target::Baseline => "baseline"@,
            Target::CandidateA => "candidate-a"@,
        }
    }

    /// The name in captures.
    pub fn as_str(self) -> (result: &'static str)
        ensures
            result@ == self.name(),
    {
        match self {
            Target::Baseline => "baseline",
            Target::CandidateA => "candidate-a",
        }
    }
}

/// The bytes of a number identify it.
proof fn lemma_bytes_identify(a: u128, b: u128)
    requires
        uuid_bytes(a) == uuid_bytes(b),
    ensures
        a == b,
{
    assert(uuid_bytes(a)[0] == (a >> 120u128) as u8);
    assert(uuid_bytes(b)[0] == (b >> 120u128) as u8);
    assert(uuid_bytes(a)[1] == (a >> 112u128) as u8);
    assert(uuid_bytes(b)[1] == (b >> 112u128) as u8);
    assert(uuid_bytes(a)[2] == (a >> 104u128) as u8);
    assert(uuid_bytes(b)[2] == (b >> 104u128) as u8);
    assert(uuid_bytes(a)[3] == (a >> 96u128) as u8);
    assert(uuid_bytes(b)[3] == (b >> 96u128) as u8);
    assert(uuid_bytes(a)[4] == (a >> 88u128) as u8);
    assert(uuid_bytes(b)[4] == (b >> 88u128) as u8);
    assert(uuid_bytes(a)[5] == (a >> 80u128) as u8);
    assert(uuid_bytes(b)[5] == (b >> 80u128) as u8);
    assert(uuid_bytes(a)[6] == (a >> 72u128) as u8);
    assert(uuid_bytes(b)[6] == (b >> 72u128) as u8);
    assert(uuid_bytes(a)[7] == (a >> 64u128) as u8);
    assert(uuid_bytes(b)[7] == (b >> 64u128) as u8);
    assert(uuid_bytes(a)[8] == (a >> 56u128) as u8);
    assert(uuid_bytes(b)[8] == (b >> 56u128) as u8);
    assert(uuid_bytes(a)[9] == (a >> 48u128) as u8);
    assert(uuid_bytes(b)[9] == (b >> 48u128) as u8);
    assert(uuid_bytes(a)[10] == (a >> 40u128) as u8);
    assert(uuid_bytes(b)[10] == (b >> 40u128) as u8);
    assert(uuid_bytes(a)[11] == (a >> 32u128) as u8);
    assert(uuid_bytes(b)[11] == (b >> 32u128) as u8);
    assert(uuid_bytes(a)[12] == (a >> 24u128) as u8);
    assert(uuid_bytes(b)[12] == (b >> 24u128) as u8);
    assert(uuid_bytes(a)[13] == (a >> 16u128) as u8);
    assert(uuid_bytes(b)[13] == (b >> 16u128) as u8);
    assert(uuid_bytes(a)[14] == (a >> 8u128) as u8);
    assert(uuid_bytes(b)[14] == (b >> 8u128) as u8);
    assert(uuid_bytes(a)[15] == (a >> 0u128) as u8);
    assert(uuid_bytes(b)[15] == (b >> 0u128) as u8);
    assert(a == b) by (bit_vector)
        requires
            (a >> 120u128) as u8 == (b >> 120u128) as u8,
            (a >> 112u128) as u8 == (b >> 112u128) as u8,
            (a >> 104u128) as u8 == (b >> 104u128) as u8,
            (a >> 96u128) as u8 == (b >> 96u128) as u8,
            (a >> 88u128) as u8 == (b >> 88u128) as u8,
            (a >> 80u128) as u8 == (b >> 80u128) as u8,
            (a >> 72u128) as u8 == (b >> 72u128) as u8,
            (a >> 64u128) as u8 == (b >> 64u128) as u8,
            (a >> 56u128) as u8 == (b >> 56u128) as u8,
            (a >> 48u128) as u8 == (b >> 48u128) as u8,
            (a >> 40u128) as u8 == (b >> 40u128) as u8,
            (a >> 32u128) as u8 == (b >> 32u128) as u8,
            (a >> 24u128) as u8 == (b >> 24u128) as u8,
            (a >> 16u128) as u8 == (b >> 16u128) as u8,
            (a >> 8u128) as u8 == (b >> 8u128) as u8,
            (a >> 0u128) as u8 == (b >> 0u128) as u8,
    ;
}

/// The digits of a number identify it.
proof fn lemma_digits_identify(text: Seq<char>, a: u128, b: u128)
    requires
        uuid_digits(text, a),
        uuid_digits(text, b),
    ensures
        a == b,
{
    let first = hex_text(uuid_bytes(a));
    let second = hex_text(uuid_bytes(b));
    assert forall|i: int| 0 <= i < 32 implies first[i] == second[i] by {
        assert(lowered_char(text[i]) == first[i]);
    }
    assert(first =~= second);
    lemma_hex_text_injective(uuid_bytes(a), uuid_bytes(b));
    lemma_bytes_identify(a, b);
}

/// The text of a UUID has 36 characters: digits with small letters, and hyphens.
pub proof fn lemma_text_shape(uuid: Uuid)
    ensures
        uuid.text().len() == 36,
        forall|i: int|
            0 <= i < 36 ==> {
                ||| '0' <= #[trigger] uuid.text()[i] <= '9'
                ||| 'a' <= uuid.text()[i] <= 'f'
                ||| uuid.text()[i] == '-'
            },
{
    let digits = hex_text(uuid.bytes());
    assert(digits.len() == 32);
    assert forall|i: int| 0 <= i < 32 implies ('0' <= #[trigger] digits[i] <= '9' || 'a'
        <= digits[i] <= 'f') by {
    }
}

/// A text stands for one UUID at most.
pub proof fn law_a_text_stands_for_one_uuid(text: Seq<char>, a: Uuid, b: Uuid)
    requires
        uuid_reads(text, a.value),
        uuid_reads(text, b.value),
    ensures
        a == b,
{
    if text.len() == 32 {
        lemma_digits_identify(text, a.value, b.value);
    } else {
        let plain = if text.len() == 36 {
            text
        } else if text.len() == 38 {
            text.subrange(1, 37)
        } else {
            text.subrange(9, 45)
        };
        lemma_digits_identify(
            plain.subrange(0, 8) + plain.subrange(9, 13) + plain.subrange(14, 18) + plain.subrange(
                19,
                23,
            ) + plain.subrange(24, 36),
            a.value,
            b.value,
        );
    }
}

/// The text of a UUID stands for it, and for no other.
pub proof fn law_uuid_text_reads_back(uuid: Uuid)
    ensures
        uuid_reads(uuid.text(), uuid.value),
        Uuid::of_text(uuid.text()) == Some(uuid),
{
    let digits = hex_text(uuid.bytes());
    let text = uuid.text();
    lemma_text_shape(uuid);
    assert(text.subrange(0, 8) + text.subrange(9, 13) + text.subrange(14, 18) + text.subrange(
        19,
        23,
    ) + text.subrange(24, 36) =~= digits);
    assert forall|i: int| 0 <= i < 32 implies lowered_char(#[trigger] digits[i]) == digits[i] by {
    }
    assert(uuid_hyphenated(text, uuid.value));
    law_a_text_stands_for_one_uuid(text, uuid, Uuid::of_text(text)->Some_0);
}

/// The texts of two UUIDs are the same only where the UUIDs are.
pub proof fn law_uuid_text_identifies(a: Uuid, b: Uuid)
    requires
        a.text() == b.text(),
    ensures
        a == b,
{
    law_uuid_text_reads_back(a);
    law_uuid_text_reads_back(b);
    law_a_text_stands_for_one_uuid(a.text(), a, b);
}

/// A name stands for one target.
pub proof fn law_target_names_identify(a: Target, b: Target)
    requires
        a.name() == b.name(),
    ensures
        a == b,
{
    reveal_strlit("baseline");
    reveal_strlit("candidate-a");
    assert("baseline"@.len() != "candidate-a"@.len());
}

/// A name stands for one protocol.
pub proof fn law_protocol_names_identify(a: Protocol, b: Protocol)
    requires
        a.name() == b.name(),
    ensures
        a == b,
{
    reveal_strlit("chat_completions");
    reveal_strlit("responses");
    assert("chat_completions"@.len() != "responses"@.len());
}

/// A name stands for one profile.
pub proof fn law_profile_names_identify(a: Profile, b: Profile)
    requires
        a.name() == b.name(),
    ensures
        a == b,
{
    reveal_strlit("production");
    reveal_strlit("mechanics");
    assert("production"@.len() != "mechanics"@.len());
}

/// What profiles, APIs and targets are called, in configuration, in routes and in captures.
pub proof fn law_what_things_are_called()
    ensures
        Profile::Production.name() == "production"@,
        Profile::Mechanics.name() == "mechanics"@,
        Protocol::ChatCompletions.name() == "chat_completions"@,
        Protocol::Responses.name() == "responses"@,
        Target::Baseline.name() == "baseline"@,
        Target::CandidateA.name() == "candidate-a"@,
{
}

} // verus!
