//! Text as sequences of characters: comparison, case, decimal and hexadecimal digits.

use vstd::prelude::*;
use vstd::utf8::encode_utf8;

verus! {

/// `std::string::String::push`: appends one character to the end of the string.
pub assume_specification[ String::push ](s: &mut String, ch: char)
    ensures
        final(s)@ == old(s)@.push(ch),
;

/// The characters of a text, in order.
pub fn chars_of(text: &str) -> (result: Vec<char>)
    ensures
        result@ == text@,
{
    let mut result: Vec<char> = Vec::new();
    for c in it: text.chars()
        invariant
            it.seq() == text@,
            result@ == text@.take(it.index() as int),
    {
        result.push(c);
        assert(text@.take(it.index() + 1) =~= text@.take(it.index() as int).push(c));
    }
    assert(text@.take(text@.len() as int) =~= text@);
    result
}

/// The text made of the given characters.
pub fn text_of(chars: &[char]) -> (result: String)
    ensures
        result@ == chars@,
{
    let mut result = String::new();
    for i in 0..chars.len()
        invariant
            result@ == chars@.take(i as int),
    {
        result.push(chars[i]);
        assert(chars@.take(i + 1) =~= chars@.take(i as int).push(chars[i as int]));
    }
    assert(chars@.take(chars@.len() as int) =~= chars@);
    result
}

/// The text made of the characters from `start` up to `end`.
pub fn text_between(chars: &Vec<char>, start: usize, end: usize) -> (result: String)
    requires
        start <= end <= chars@.len(),
    ensures
        result@ == chars@.subrange(start as int, end as int),
{
    let mut result = String::new();
    for i in start..end
        invariant
            start <= i <= end <= chars@.len(),
            result@ == chars@.subrange(start as int, i as int),
    {
        result.push(chars[i]);
        assert(chars@.subrange(start as int, i + 1) =~= chars@.subrange(start as int, i as int).push(
            chars[i as int],
        ));
    }
    result
}

/// Whether two byte strings hold the same bytes.
pub fn same_bytes(a: &[u8], b: &[u8]) -> (result: bool)
    ensures
        result == (a@ == b@),
{
    if a.len() != b.len() {
        return false;
    }
    for i in 0..a.len()
        invariant
            a@.len() == b@.len(),
            forall|k: int| 0 <= k < i ==> a@[k] == b@[k],
    {
        if a[i] != b[i] {
            return false;
        }
    }
    assert(a@ =~= b@);
    true
}

/// Two texts with the same encoding are the same text.
pub proof fn lemma_encoding_determines_text(a: Seq<char>, b: Seq<char>)
    requires
        encode_utf8(a) == encode_utf8(b),
    ensures
        a == b,
{
    vstd::utf8::encode_utf8_decode_utf8(a);
    vstd::utf8::encode_utf8_decode_utf8(b);
}

/// Whether two texts are the same.
pub fn same_text(a: &str, b: &str) -> (result: bool)
    ensures
        result == (a@ == b@),
{
    let result = same_bytes(a.as_bytes(), b.as_bytes());
    proof {
        if result {
            lemma_encoding_determines_text(a@, b@);
        }
    }
    result
}

/// `text` begins with `prefix`.
pub open spec fn begins_with(text: Seq<char>, prefix: Seq<char>) -> bool {
    prefix.len() <= text.len() && text.take(prefix.len() as int) == prefix
}

/// `text` ends with `suffix`.
pub open spec fn ends_with(text: Seq<char>, suffix: Seq<char>) -> bool {
    suffix.len() <= text.len() && text.skip(text.len() - suffix.len()) == suffix
}

/// Whether `text` begins with `prefix`.
pub fn has_prefix(text: &str, prefix: &str) -> (result: bool)
    ensures
        result == begins_with(text@, prefix@),
{
    let all = chars_of(text);
    let head = chars_of(prefix);
    if head.len() > all.len() {
        return false;
    }
    for i in 0..head.len()
        invariant
            all@ == text@,
            head@ == prefix@,
            head@.len() <= all@.len(),
            forall|k: int| 0 <= k < i ==> all@[k] == head@[k],
    {
        if all[i] != head[i] {
            assert(text@.take(prefix@.len() as int)[i as int] != prefix@[i as int]);
            return false;
        }
    }
    assert(text@.take(prefix@.len() as int) =~= prefix@);
    true
}

/// Whether `text` ends with `suffix`.
pub fn has_suffix(text: &str, suffix: &str) -> (result: bool)
    ensures
        result == ends_with(text@, suffix@),
{
    let all = chars_of(text);
    let tail = chars_of(suffix);
    if tail.len() > all.len() {
        return false;
    }
    let start: usize = all.len() - tail.len();
    for i in 0..tail.len()
        invariant
            all@ == text@,
            tail@ == suffix@,
            tail@.len() <= all@.len(),
            start == all.len() - tail.len(),
            forall|k: int| 0 <= k < i ==> all@[start + k] == tail@[k],
    {
        if all[start + i] != tail[i] {
            assert(text@.skip(text@.len() - suffix@.len())[i as int] != suffix@[i as int]);
            return false;
        }
    }
    assert(text@.skip(text@.len() - suffix@.len()) =~= suffix@);
    true
}

/// The text without the slashes at its end.
pub open spec fn without_end_slashes(text: Seq<char>) -> Seq<char>
    decreases text.len(),
{
    if text.len() > 0 && text.last() == '/' {
        without_end_slashes(text.drop_last())
    } else {
        text
    }
}

/// Takes every slash off the end of a text.
pub fn trim_end_slashes(text: &str) -> (result: String)
    ensures
        result@ == without_end_slashes(text@),
{
    let all = chars_of(text);
    let mut end: usize = all.len();
    assert(all@.subrange(0, end as int) =~= text@);
    while end > 0 && all[end - 1] == '/'
        invariant
            all@ == text@,
            end <= all@.len(),
            without_end_slashes(all@.subrange(0, end as int)) == without_end_slashes(text@),
        decreases end,
    {
        assert(all@.subrange(0, end as int).drop_last() =~= all@.subrange(0, end - 1));
        end = end - 1;
    }
    text_between(&all, 0, end)
}

/// An ASCII capital letter becomes its small letter; every other character stays.
pub open spec fn lowered_char(c: char) -> char {
    if 'A' <= c && c <= 'Z' {
        ((c as u32) + 32) as char
    } else {
        c
    }
}

/// A text with its ASCII capitals made small.
pub open spec fn lowered(text: Seq<char>) -> Seq<char> {
    Seq::new(text.len(), |i: int| lowered_char(text[i]))
}

/// The small letter of an ASCII capital.
pub fn lower_char(c: char) -> (result: char)
    ensures
        result == lowered_char(c),
{
    if 'A' <= c && c <= 'Z' {
        ((c as u8) + 32u8) as char
    } else {
        c
    }
}

/// Makes the ASCII capitals of a text small.
pub fn to_ascii_lowercase(text: &str) -> (result: String)
    ensures
        result@ == lowered(text@),
{
    let all = chars_of(text);
    let mut result = String::new();
    for i in 0..all.len()
        invariant
            all@ == text@,
            result@ == lowered(text@).take(i as int),
    {
        result.push(lower_char(all[i]));
        assert(lowered(text@).take(i + 1) =~= lowered(text@).take(i as int).push(
            lowered_char(text@[i as int]),
        ));
    }
    assert(lowered(text@).take(text@.len() as int) =~= lowered(text@));
    result
}

/// Joins two texts.
pub fn joined(a: &str, b: &str) -> (result: String)
    ensures
        result@ == a@ + b@,
{
    let mut result = String::new();
    result.append(a);
    result.append(b);
    assert(Seq::<char>::empty() + a@ + b@ =~= a@ + b@);
    result
}

/// The character of a hexadecimal digit, with small letters.
pub open spec fn hex_digit(n: int) -> char {
    if n < 10 {
        (n + 48) as char
    } else {
        (n + 87) as char
    }
}

/// Two hexadecimal digits for each byte, the high half first.
pub open spec fn hex_text(bytes: Seq<u8>) -> Seq<char> {
    Seq::new(
        bytes.len() * 2,
        |i: int|
            if i % 2 == 0 {
                hex_digit(bytes[i / 2] as int / 16)
            } else {
                hex_digit(bytes[i / 2] as int % 16)
            },
    )
}

/// The character of a hexadecimal digit.
fn digit_char(n: u8) -> (result: char)
    requires
        n < 16,
    ensures
        result == hex_digit(n as int),
{
    if n < 10 {
        (n + 48u8) as char
    } else {
        (n + 87u8) as char
    }
}

/// Writes bytes as hexadecimal digits with small letters.
pub fn hex(value: &[u8]) -> (result: String)
    ensures
        result@ == hex_text(value@),
{
    let mut result = String::new();
    for i in 0..value.len()
        invariant
            result@ == hex_text(value@).take(i * 2),
    {
        let byte: u8 = value[i];
        result.push(digit_char(byte / 16));
        result.push(digit_char(byte % 16));
        assert(hex_text(value@).take((i + 1) * 2) =~= hex_text(value@).take(i * 2).push(
            hex_digit(byte as int / 16),
        ).push(hex_digit(byte as int % 16)));
    }
    assert(hex_text(value@).take((value@.len() * 2) as int) =~= hex_text(value@));
    result
}

/// Different byte strings have different hexadecimal texts.
pub proof fn lemma_hex_text_injective(a: Seq<u8>, b: Seq<u8>)
    requires
        hex_text(a) == hex_text(b),
    ensures
        a == b,
{
    assert(hex_text(a).len() == a.len() * 2);
    assert(hex_text(b).len() == b.len() * 2);
    assert forall|k: int| 0 <= k < a.len() implies a[k] == b[k] by {
        assert((k * 2) % 2 == 0 && (k * 2) / 2 == k);
        assert((k * 2 + 1) % 2 == 1 && (k * 2 + 1) / 2 == k);
        assert(hex_text(a)[k * 2] == hex_digit(a[k] as int / 16));
        assert(hex_text(b)[k * 2] == hex_digit(b[k] as int / 16));
        assert(hex_text(a)[k * 2 + 1] == hex_digit(a[k] as int % 16));
        assert(hex_text(b)[k * 2 + 1] == hex_digit(b[k] as int % 16));
        lemma_hex_digit_injective(a[k] as int / 16, b[k] as int / 16);
        lemma_hex_digit_injective(a[k] as int % 16, b[k] as int % 16);
    }
    assert(a =~= b);
}

/// Different digits have different characters.
pub proof fn lemma_hex_digit_injective(a: int, b: int)
    requires
        0 <= a < 16,
        0 <= b < 16,
        hex_digit(a) == hex_digit(b),
    ensures
        a == b,
{
    assert(hex_digit(a) as int == if a < 10 {
        a + 48
    } else {
        a + 87
    });
    assert(hex_digit(b) as int == if b < 10 {
        b + 48
    } else {
        b + 87
    });
}

/// A digit `0` to `9` or a letter `a` to `f`.
pub open spec fn is_small_hex(c: char) -> bool {
    ('0' <= c && c <= '9') || ('a' <= c && c <= 'f')
}

/// The number that a hexadecimal digit stands for.
pub open spec fn hex_value(c: char) -> int {
    if c <= '9' {
        c as int - 48
    } else {
        c as int - 87
    }
}

/// The text of a SHA-256 digest: 64 hexadecimal digits, letters small.
pub open spec fn is_digest_text(text: Seq<char>) -> bool {
    text.len() == 64 && forall|i: int| 0 <= i < 64 ==> is_small_hex(#[trigger] text[i])
}

/// Whether a text is 64 hexadecimal digits with small letters.
pub fn is_sha256(value: &str) -> (result: bool)
    ensures
        result == is_digest_text(value@),
{
    let all = chars_of(value);
    if all.len() != 64 {
        return false;
    }
    for i in 0..64usize
        invariant
            all@ == value@,
            all@.len() == 64,
            forall|k: int| 0 <= k < i ==> is_small_hex(#[trigger] all@[k]),
    {
        let c = all[i];
        if !(('0' <= c && c <= '9') || ('a' <= c && c <= 'f')) {
            assert(!is_small_hex(value@[i as int]));
            return false;
        }
    }
    true
}

/// The number that a hexadecimal digit stands for.
fn digit_value(c: char) -> (result: u8)
    requires
        is_small_hex(c),
    ensures
        result == hex_value(c),
        result < 16,
        hex_digit(result as int) == c,
{
    if c <= '9' {
        (c as u8) - 48u8
    } else {
        (c as u8) - 87u8
    }
}

/// Reads 64 hexadecimal digits with small letters as the 32 bytes they stand for.
pub fn decode_sha256(value: &str) -> (result: Option<[u8; 32]>)
    ensures
        result is Some <==> is_digest_text(value@),
        result matches Some(digest) ==> hex_text(digest@) == value@,
{
    if !is_sha256(value) {
        return None;
    }
    let all = chars_of(value);
    let mut output: [u8; 32] = [0u8; 32];
    for index in 0..32usize
        invariant
            all@ == value@,
            is_digest_text(value@),
            forall|k: int|
                0 <= k < index ==> {
                    &&& hex_digit((#[trigger] output@[k]) as int / 16) == value@[k * 2]
                    &&& hex_digit(output@[k] as int % 16) == value@[k * 2 + 1]
                },
    {
        assert(is_small_hex(value@[index * 2]) && is_small_hex(value@[index * 2 + 1]));
        let high: u8 = digit_value(all[index * 2]);
        let low: u8 = digit_value(all[index * 2 + 1]);
        let byte: u8 = high * 16 + low;
        output[index] = byte;
    }
    assert(hex_text(output@) =~= value@);
    Some(output)
}

/// A decimal digit.
pub open spec fn is_digit(c: char) -> bool {
    '0' <= c && c <= '9'
}

/// A number in decimal digits, without leading zeros.
pub open spec fn decimal(n: nat) -> Seq<char>
    decreases n,
{
    if n < 10 {
        seq![(n + 48) as char]
    } else {
        decimal(n / 10).push((n % 10 + 48) as char)
    }
}

/// Writes a number in decimal digits.
pub fn decimal_text(n: u64) -> (result: String)
    ensures
        result@ == decimal(n as nat),
    decreases n,
{
    let mut result = if n < 10 {
        String::new()
    } else {
        decimal_text(n / 10)
    };
    let digit: u8 = (n % 10) as u8;
    result.push((digit + 48u8) as char);
    assert(result@ =~= decimal(n as nat));
    result
}

/// A number in at least `width` decimal digits, filled with zeros at the front.
pub open spec fn padded(n: nat, width: nat) -> Seq<char> {
    Seq::new(
        if decimal(n).len() < width {
            (width - decimal(n).len()) as nat
        } else {
            0
        },
        |i: int| '0',
    ) + decimal(n)
}

/// A decimal text is not empty, and every character of it is a digit.
pub proof fn lemma_decimal_digits(n: nat)
    ensures
        decimal(n).len() >= 1,
        forall|i: int| 0 <= i < decimal(n).len() ==> is_digit(#[trigger] decimal(n)[i]),
    decreases n,
{
    if n >= 10 {
        lemma_decimal_digits(n / 10);
        assert(is_digit((n % 10 + 48) as char));
    }
}

/// Writes a number in at least `width` decimal digits.
pub fn padded_text(n: u64, width: usize) -> (result: String)
    ensures
        result@ == padded(n as nat, width as nat),
{
    let digits = decimal_text(n);
    let count: usize = chars_of(digits.as_str()).len();
    let missing: usize = if count < width {
        width - count
    } else {
        0
    };
    let mut result = String::new();
    for i in 0..missing
        invariant
            result@ == Seq::new(i as nat, |k: int| '0'),
    {
        result.push('0');
        assert(Seq::new((i + 1) as nat, |k: int| '0') =~= Seq::new(i as nat, |k: int| '0').push(
            '0',
        ));
    }
    result.append(digits.as_str());
    assert(result@ =~= padded(n as nat, width as nat));
    result
}

/// The number that a row of decimal digits stands for.
pub open spec fn digits_value(digits: Seq<char>) -> nat
    decreases digits.len(),
{
    if digits.len() == 0 {
        0
    } else {
        (digits_value(digits.drop_last()) * 10 + (digits.last() as int - 48)) as nat
    }
}

/// The digits of a number stand for it; so a decimal text is read as the number it was written for.
pub proof fn law_decimal_reads_back(n: nat)
    ensures
        digits_value(decimal(n)) == n,
        parsed_decimal(decimal(n)) == Some(n),
    decreases n,
{
    lemma_decimal_digits(n);
    let digits = decimal(n);
    if n >= 10 {
        law_decimal_reads_back(n / 10);
        assert(digits.drop_last() =~= decimal(n / 10));
        assert(digits.last() == (n % 10 + 48) as char);
        assert(digits.last() as int == n % 10 + 48);
    } else {
        assert(digits.drop_last() =~= Seq::empty());
        assert(digits_value(digits.drop_last()) == 0);
        assert(digits.last() == (n + 48) as char);
        assert(digits.last() as int == n + 48);
    }
    assert(digits_value(digits) == digits_value(digits.drop_last()) * 10 + (digits.last() as int
        - 48));
    assert(is_digit(digits[0]));
    assert(unsigned_part(digits) == digits);
}

/// The digits of a number after its optional plus sign.
pub open spec fn unsigned_part(text: Seq<char>) -> Seq<char> {
    if text.len() > 0 && text[0] == '+' {
        text.skip(1)
    } else {
        text
    }
}

/// The number that a text stands for: digits, at least one, after an optional plus sign.
pub open spec fn parsed_decimal(text: Seq<char>) -> Option<nat> {
    let digits = unsigned_part(text);
    if digits.len() > 0 && forall|i: int| 0 <= i < digits.len() ==> is_digit(#[trigger] digits[i]) {
        Some(digits_value(digits))
    } else {
        None
    }
}

/// More digits never make the number smaller.
proof fn lemma_digits_grow(digits: Seq<char>, count: int)
    requires
        0 <= count <= digits.len(),
        forall|i: int| 0 <= i < digits.len() ==> is_digit(#[trigger] digits[i]),
    ensures
        digits_value(digits.take(count)) <= digits_value(digits),
    decreases digits.len(),
{
    if count == digits.len() {
        assert(digits.take(count) =~= digits);
    } else {
        let shorter = digits.drop_last();
        assert forall|i: int| 0 <= i < shorter.len() implies is_digit(#[trigger] shorter[i]) by {
            assert(shorter[i] == digits[i]);
        }
        lemma_digits_grow(shorter, count);
        assert(shorter.take(count) =~= digits.take(count));
        assert(is_digit(digits[digits.len() - 1]));
    }
}

/// Reads a number as `str::parse::<u64>` does: digits after an optional plus sign, none if the
/// number does not fit.
pub fn parse_u64(text: &str) -> (result: Option<u64>)
    ensures
        result == (match parsed_decimal(text@) {
            Some(n) => if n <= u64::MAX {
                Some(n as u64)
            } else {
                None
            },
            None => None,
        }),
{
    let all = chars_of(text);
    let start: usize = if all.len() > 0 && all[0] == '+' {
        1
    } else {
        0
    };
    let ghost digits = unsigned_part(text@);
    assert(digits =~= all@.skip(start as int));
    if all.len() == start {
        return None;
    }
    let mut all_digits = true;
    for i in start..all.len()
        invariant
            all@ == text@,
            start <= all@.len(),
            digits == all@.skip(start as int),
            all_digits == (forall|k: int| 0 <= k < i - start ==> is_digit(#[trigger] digits[k])),
    {
        assert(digits[i - start] == all@[i as int]);
        if !('0' <= all[i] && all[i] <= '9') {
            all_digits = false;
        }
    }
    if !all_digits {
        return None;
    }
    let mut value: u64 = 0;
    assert(digits.take(0) =~= Seq::empty());
    for i in start..all.len()
        invariant
            all@ == text@,
            start <= all@.len(),
            digits == all@.skip(start as int),
            digits == unsigned_part(text@),
            digits.len() > 0,
            forall|k: int| 0 <= k < digits.len() ==> is_digit(#[trigger] digits[k]),
            value == digits_value(digits.take(i - start)),
    {
        let ghost at = i - start;
        assert(is_digit(digits[at]) && digits[at] == all@[i as int]);
        assert(digits.take(at + 1).drop_last() =~= digits.take(at));
        let digit: u64 = ((all[i] as u8) - 48u8) as u64;
        proof {
            lemma_digits_grow(digits, at + 1);
        }
        if value > (u64::MAX - digit) / 10 {
            return None;
        }
        value = value * 10 + digit;
    }
    assert(digits.take(digits.len() as int) =~= digits);
    Some(value)
}

/// Reads a number as `str::parse::<usize>` does.
pub fn parse_usize(text: &str) -> (result: Option<usize>)
    ensures
        result == (match parsed_decimal(text@) {
            Some(n) => if n <= usize::MAX {
                Some(n as usize)
            } else {
                None
            },
            None => None,
        }),
{
    match parse_u64(text) {
        Some(value) => if value <= usize::MAX as u64 {
            Some(value as usize)
        } else {
            None
        },
        None => None,
    }
}

/// A character with the Unicode property White_Space.
pub open spec fn is_white(c: char) -> bool {
    let n = c as u32;
    ||| 0x9 <= n <= 0xd
    ||| n == 0x20
    ||| n == 0x85
    ||| n == 0xa0
    ||| n == 0x1680
    ||| 0x2000 <= n <= 0x200a
    ||| n == 0x2028
    ||| n == 0x2029
    ||| n == 0x202f
    ||| n == 0x205f
    ||| n == 0x3000
}

/// Whether a character has the Unicode property White_Space.
pub fn is_whitespace(c: char) -> (result: bool)
    ensures
        result == is_white(c),
{
    let n: u32 = c as u32;
    (0x9 <= n && n <= 0xd) || n == 0x20 || n == 0x85 || n == 0xa0 || n == 0x1680 || (0x2000 <= n
        && n <= 0x200a) || n == 0x2028 || n == 0x2029 || n == 0x202f || n == 0x205f || n == 0x3000
}

/// Whether any character of a text is white space.
pub fn has_whitespace(text: &str) -> (result: bool)
    ensures
        result == exists|i: int| 0 <= i < text@.len() && is_white(#[trigger] text@[i]),
{
    let all = chars_of(text);
    for i in 0..all.len()
        invariant
            all@ == text@,
            forall|k: int| 0 <= k < i ==> !is_white(#[trigger] text@[k]),
    {
        if is_whitespace(all[i]) {
            assert(is_white(text@[i as int]));
            return true;
        }
    }
    false
}

/// The words of a text, those parts without white space, with one space between each two.
pub open spec fn collapsed(text: Seq<char>) -> Seq<char>
    decreases text.len(),
{
    if text.len() == 0 {
        text
    } else {
        let before = collapsed(text.drop_last());
        let c = text.last();
        if is_white(c) {
            before
        } else if before.len() > 0 && is_white(text[text.len() - 2]) {
            before.push(' ').push(c)
        } else {
            before.push(c)
        }
    }
}

/// Puts one space between each two words of a text and none elsewhere.
pub fn collapse_whitespace(text: &str) -> (result: String)
    ensures
        result@ == collapsed(text@),
{
    let all = chars_of(text);
    let mut result: Vec<char> = Vec::new();
    assert(all@.take(0) =~= Seq::empty());
    for i in 0..all.len()
        invariant
            all@ == text@,
            result@ == collapsed(text@.take(i as int)),
    {
        let ghost upto = text@.take(i + 1);
        assert(upto.drop_last() =~= text@.take(i as int));
        let c = all[i];
        if !is_whitespace(c) {
            if result.len() > 0 {
                assert(i > 0) by {
                    if i == 0 {
                        assert(text@.take(0).len() == 0);
                    }
                }
                assert(upto[upto.len() - 2] == text@[i - 1]);
                if is_whitespace(all[i - 1]) {
                    result.push(' ');
                }
            }
            result.push(c);
        }
    }
    assert(text@.take(text@.len() as int) =~= text@);
    text_of(result.as_slice())
}

/// A text whose encoding has only bytes below 128 has only ASCII characters, one for each byte.
pub proof fn lemma_small_bytes_are_ascii(text: Seq<char>)
    requires
        forall|i: int| 0 <= i < encode_utf8(text).len() ==> #[trigger] encode_utf8(text)[i] < 0x80,
    ensures
        vstd::utf8::is_ascii_chars(text),
        encode_utf8(text).len() == text.len(),
        forall|i: int| 0 <= i < text.len() ==> #[trigger] encode_utf8(text)[i] == text[i] as u8,
    decreases text.len(),
{
    if text.len() > 0 {
        let rest = text.drop_first();
        let first = text[0] as u32;
        let head = vstd::utf8::encode_scalar(first);
        assert(encode_utf8(text) == head + encode_utf8(rest));
        assert forall|i: int| 0 <= i < encode_utf8(rest).len() implies #[trigger] encode_utf8(
            rest,
        )[i] < 0x80 by {
            assert(encode_utf8(text)[i + head.len()] == encode_utf8(rest)[i]);
        }
        lemma_small_bytes_are_ascii(rest);
        assert(encode_utf8(text)[0] == head[0]);
        if first > 0x7f {
            assert((0xC0u8 | ((first >> 6) & 0x1F) as u8) >= 0x80) by (bit_vector);
            assert((0xE0u8 | ((first >> 12) & 0x0F) as u8) >= 0x80) by (bit_vector);
            assert((0xF0u8 | ((first >> 18) & 0x7) as u8) >= 0x80) by (bit_vector);
            assert(false);
        }
        assert forall|i: int| 0 <= i < text.len() implies '\0' <= #[trigger] text[i] <= '\u{7f}' by {
            if i > 0 {
                assert(rest[i - 1] == text[i]);
            } else {
                vstd::utf8::char_u32_cast(text[0], first);
            }
        }
    }
    vstd::utf8::is_ascii_chars_encode_utf8(text);
}

/// Making a text small changes its ASCII capitals alone, each into the letter 32 places on, and
/// leaves none.
pub proof fn law_small_texts_hold_no_capitals(text: Seq<char>, i: int)
    requires
        0 <= i < text.len(),
    ensures
        lowered(text).len() == text.len(),
        !('A' <= lowered(text)[i] && lowered(text)[i] <= 'Z'),
        'A' <= text[i] && text[i] <= 'Z' ==> lowered(text)[i] as u32 == text[i] as u32 + 32,
        !('A' <= text[i] && text[i] <= 'Z') ==> lowered(text)[i] == text[i],
{
    let c = text[i];
    if 'A' <= c && c <= 'Z' {
        assert(lowered_char(c) as u32 == c as u32 + 32);
    }
}

/// A text begins with another exactly where it is that text and something after it, and ends with
/// another exactly where it is something and that text after it.
pub proof fn law_ends_of_texts(text: Seq<char>, part: Seq<char>, rest: Seq<char>)
    ensures
        begins_with(part + rest, part),
        ends_with(rest + part, part),
        begins_with(text, part) ==> text == part + text.skip(part.len() as int),
        ends_with(text, part) ==> text == text.take(text.len() - part.len()) + part,
{
    assert((part + rest).take(part.len() as int) =~= part);
    assert((rest + part).skip(rest.len() as int) =~= part);
    if begins_with(text, part) {
        assert(text =~= text.take(part.len() as int) + text.skip(part.len() as int));
    }
    if ends_with(text, part) {
        let at = text.len() - part.len();
        assert(text =~= text.take(at) + text.skip(at));
    }
}

/// Taking slashes off the end leaves a text without one, and takes off slashes alone.
pub proof fn law_no_slash_is_left_at_the_end(text: Seq<char>)
    ensures
        without_end_slashes(text).len() > 0 ==> without_end_slashes(text).last() != '/',
        without_end_slashes(text).len() <= text.len(),
        without_end_slashes(text) == text.take(without_end_slashes(text).len() as int),
        forall|i: int|
            without_end_slashes(text).len() <= i < text.len() ==> #[trigger] text[i] == '/',
    decreases text.len(),
{
    if text.len() > 0 && text.last() == '/' {
        let shorter = text.drop_last();
        law_no_slash_is_left_at_the_end(shorter);
        let left = without_end_slashes(text);
        assert(left =~= text.take(left.len() as int));
        assert forall|i: int| left.len() <= i < text.len() implies #[trigger] text[i] == '/' by {
            if i < shorter.len() {
                assert(shorter[i] == text[i]);
            }
        }
    } else {
        assert(text =~= text.take(text.len() as int));
    }
}

/// The two characters that stand for a byte are digits of base sixteen, small letters among them,
/// and give the byte back.
pub proof fn law_hexadecimal_texts_read_back(bytes: Seq<u8>, k: int)
    requires
        0 <= k < bytes.len(),
    ensures
        ({
            let high = hex_text(bytes)[2 * k];
            let low = hex_text(bytes)[2 * k + 1];
            let value = |c: char|
                if c <= '9' {
                    c as int - '0' as int
                } else {
                    c as int - 'a' as int + 10
                };
            &&& hex_text(bytes).len() == 2 * bytes.len()
            &&& '0' <= high <= '9' || 'a' <= high <= 'f'
            &&& '0' <= low <= '9' || 'a' <= low <= 'f'
            &&& value(high) * 16 + value(low) == bytes[k]
        }),
{
    let byte = bytes[k] as int;
    assert((2 * k) % 2 == 0 && (2 * k) / 2 == k);
    assert((2 * k + 1) % 2 == 1 && (2 * k + 1) / 2 == k);
    assert(hex_text(bytes)[2 * k] == hex_digit(byte / 16));
    assert(hex_text(bytes)[2 * k + 1] == hex_digit(byte % 16));
}

/// The byte for which two digits of base sixteen stand.
proof fn lemma_digit_pair(high: char, low: char) -> (byte: u8)
    requires
        is_small_hex(high),
        is_small_hex(low),
    ensures
        hex_digit(byte as int / 16) == high,
        hex_digit(byte as int % 16) == low,
{
    let byte = (hex_value(high) * 16 + hex_value(low)) as u8;
    assert(hex_digit(hex_value(high)) == high);
    assert(hex_digit(hex_value(low)) == low);
    byte
}

/// The texts of digests are exactly the hexadecimal texts of 32 bytes.
pub proof fn law_digest_texts_stand_for_digests(text: Seq<char>)
    ensures
        is_digest_text(text) <==> exists|bytes: Seq<u8>|
            bytes.len() == 32 && #[trigger] hex_text(bytes) == text,
{
    if is_digest_text(text) {
        let bytes = Seq::new(
            32,
            |k: int| (hex_value(text[2 * k]) * 16 + hex_value(text[2 * k + 1])) as u8,
        );
        assert forall|i: int| 0 <= i < 64 implies hex_text(bytes)[i] == text[i] by {
            let k = i / 2;
            assert(is_small_hex(text[2 * k]) && is_small_hex(text[2 * k + 1]));
            let byte = lemma_digit_pair(text[2 * k], text[2 * k + 1]);
            assert(bytes[k] == byte);
        }
        assert(hex_text(bytes) =~= text);
    }
    if exists|bytes: Seq<u8>| bytes.len() == 32 && #[trigger] hex_text(bytes) == text {
        let bytes = choose|bytes: Seq<u8>| bytes.len() == 32 && #[trigger] hex_text(bytes) == text;
        assert forall|i: int| 0 <= i < 64 implies is_small_hex(#[trigger] text[i]) by {
            law_hexadecimal_texts_read_back(bytes, i / 2);
            assert(i == 2 * (i / 2) || i == 2 * (i / 2) + 1);
        }
    }
}

/// A number below ten is one digit, and a number takes one digit more than a tenth of it, so the
/// first digit of any number but zero is not zero.
pub proof fn law_decimal_texts_have_no_leading_zero(n: nat)
    ensures
        n < 10 ==> decimal(n).len() == 1 && decimal(n)[0] as int == n + '0' as int,
        n >= 10 ==> decimal(n).len() == decimal(n / 10).len() + 1,
        n >= 10 ==> decimal(n).last() as int == n % 10 + '0' as int,
        n > 0 ==> decimal(n)[0] != '0',
    decreases n,
{
    if n >= 10 {
        law_decimal_texts_have_no_leading_zero(n / 10);
    }
}

/// A number that is written with a width has at least as many digits, and is read back as itself:
/// below 100 two digits with a width of two, below 10000 four digits with a width of four.
pub proof fn law_padded_numbers_read_back(n: nat)
    ensures
        n < 100 ==> {
            &&& padded(n, 2).len() == 2
            &&& '0' <= padded(n, 2)[0] <= '9'
            &&& '0' <= padded(n, 2)[1] <= '9'
            &&& (padded(n, 2)[0] as int - 48) * 10 + (padded(n, 2)[1] as int - 48) == n
        },
        n < 10000 ==> {
            &&& padded(n, 4).len() == 4
            &&& '0' <= padded(n, 4)[0] <= '9'
            &&& '0' <= padded(n, 4)[1] <= '9'
            &&& '0' <= padded(n, 4)[2] <= '9'
            &&& '0' <= padded(n, 4)[3] <= '9'
            &&& (padded(n, 4)[0] as int - 48) * 1000 + (padded(n, 4)[1] as int - 48) * 100 + (
            padded(n, 4)[2] as int - 48) * 10 + (padded(n, 4)[3] as int - 48) == n
        },
{
    reveal_with_fuel(decimal, 5);
    if n < 10000 {
        let d = decimal(n);
        if n < 10 {
            assert(d =~= seq![(n + 48) as char]);
            assert(padded(n, 2) =~= seq!['0', (n + 48) as char]);
            assert(padded(n, 4) =~= seq!['0', '0', '0', (n + 48) as char]);
        } else if n < 100 {
            assert(d =~= seq![(n / 10 + 48) as char, (n % 10 + 48) as char]);
            assert(padded(n, 2) =~= d);
            assert(padded(n, 4) =~= seq![
                '0',
                '0',
                (n / 10 + 48) as char,
                (n % 10 + 48) as char,
            ]);
        } else if n < 1000 {
            let h = n / 10;
            assert(d =~= seq![
                (h / 10 + 48) as char,
                (h % 10 + 48) as char,
                (n % 10 + 48) as char,
            ]);
            assert(padded(n, 4) =~= seq!['0'] + d);
        } else {
            let h = n / 10;
            let t = h / 10;
            assert(d =~= seq![
                (t / 10 + 48) as char,
                (t % 10 + 48) as char,
                (h % 10 + 48) as char,
                (n % 10 + 48) as char,
            ]);
            assert(padded(n, 4) =~= d);
        }
    }
}

/// Collapsing a text without white space changes nothing.
proof fn lemma_words_stay(text: Seq<char>)
    requires
        forall|i: int| 0 <= i < text.len() ==> !is_white(#[trigger] text[i]),
    ensures
        collapsed(text) == text,
    decreases text.len(),
{
    if text.len() > 0 {
        let shorter = text.drop_last();
        assert forall|i: int| 0 <= i < shorter.len() implies !is_white(#[trigger] shorter[i]) by {
            assert(shorter[i] == text[i]);
        }
        lemma_words_stay(shorter);
        if shorter.len() > 0 {
            assert(!is_white(text[text.len() - 2]));
        }
        assert(shorter.push(text.last()) =~= text);
    }
}

/// White space at the end of a text is dropped.
proof fn lemma_white_end_is_dropped(text: Seq<char>, white: Seq<char>)
    requires
        forall|i: int| 0 <= i < white.len() ==> is_white(#[trigger] white[i]),
    ensures
        collapsed(text + white) == collapsed(text),
    decreases white.len(),
{
    if white.len() == 0 {
        assert(text + white =~= text);
    } else {
        let shorter = white.drop_last();
        assert forall|i: int| 0 <= i < shorter.len() implies is_white(#[trigger] shorter[i]) by {
            assert(shorter[i] == white[i]);
        }
        lemma_white_end_is_dropped(text, shorter);
        assert((text + white).drop_last() =~= text + shorter);
        assert(is_white(white[white.len() - 1]));
    }
}

/// Words are kept, and all white space between two words becomes one space: a text that is made of
/// a word, white space around it and after it another text is collapsed part by part, and white
/// space at either end is dropped.
pub proof fn law_words_are_kept_one_space_apart(
    before: Seq<char>,
    white: Seq<char>,
    word: Seq<char>,
)
    requires
        forall|i: int| 0 <= i < white.len() ==> is_white(#[trigger] white[i]),
        forall|i: int| 0 <= i < word.len() ==> !is_white(#[trigger] word[i]),
    ensures
        collapsed(word) == word,
        collapsed(before + white) == collapsed(before),
        word.len() > 0 && white.len() > 0 ==> collapsed(before + white + word) == if collapsed(
            before,
        ).len() == 0 {
            word
        } else {
            collapsed(before) + seq![' '] + word
        },
    decreases word.len(),
{
    lemma_words_stay(word);
    lemma_white_end_is_dropped(before, white);
    if word.len() > 0 && white.len() > 0 {
        let shorter = word.drop_last();
        let whole = before + white + word;
        assert(whole.drop_last() =~= before + white + shorter);
        assert(!is_white(word[word.len() - 1]));
        assert(whole.last() == word.last());
        if shorter.len() == 0 {
            assert(before + white + shorter =~= before + white);
            assert(whole[whole.len() - 2] == white.last());
            assert(is_white(white[white.len() - 1]));
            assert(collapsed(before).push(' ').push(word.last()) =~= collapsed(before) + seq![' ']
                + word);
            assert(Seq::<char>::empty().push(word.last()) =~= word);
            if collapsed(before).len() == 0 {
                assert(collapsed(before) =~= Seq::empty());
            }
        } else {
            assert forall|i: int| 0 <= i < shorter.len() implies !is_white(#[trigger] shorter[i]) by {
                assert(shorter[i] == word[i]);
            }
            law_words_are_kept_one_space_apart(before, white, shorter);
            assert(whole[whole.len() - 2] == shorter.last());
            assert(!is_white(shorter[shorter.len() - 1]));
            assert(shorter.push(word.last()) =~= word);
            assert((collapsed(before) + seq![' '] + shorter).push(word.last()) =~= collapsed(before)
                + seq![' '] + word);
        }
    }
}

/// White space is that of Unicode: the tabulator, the line breaks and the spaces, and no letter,
/// digit or sign that can be seen.
pub proof fn law_white_space_is_not_seen(c: char)
    ensures
        c == ' ' || c == '\t' || c == '\n' || c == '\r' || c == '\u{b}' || c == '\u{c}' ==> is_white(
            c,
        ),
        '!' <= c && c <= '~' ==> !is_white(c),
        is_white(c) && c as u32 > 0x7f ==> c as u32 == 0x85 || c as u32 == 0xa0 || c as u32
            == 0x1680 || 0x2000 <= c as u32 <= 0x200a || c as u32 == 0x2028 || c as u32 == 0x2029
            || c as u32 == 0x202f || c as u32 == 0x205f || c as u32 == 0x3000,
        c as u32 == 0x85 || c as u32 == 0xa0 || c as u32 == 0x1680 || 0x2000 <= c as u32 <= 0x200a
            || c as u32 == 0x2028 || c as u32 == 0x2029 || c as u32 == 0x202f || c as u32 == 0x205f
            || c as u32 == 0x3000 ==> is_white(c),
{
}

/// A text is read as a number where it is digits, at least one, perhaps after a plus sign, and as
/// no number otherwise; one more digit makes the number ten times as large and adds the digit.
pub proof fn law_numbers_are_read_digit_by_digit(text: Seq<char>, c: char)
    ensures
        parsed_decimal(Seq::empty()) is None,
        parsed_decimal(seq!['+']) is None,
        '0' <= c <= '9' ==> parsed_decimal(seq![c]) == Some((c as int - '0' as int) as nat),
        parsed_decimal(text) is Some && '0' <= c <= '9' ==> parsed_decimal(text.push(c)) == Some(
            (parsed_decimal(text)->Some_0 * 10 + (c as int - '0' as int)) as nat,
        ),
        !('0' <= c <= '9') && text.len() > 0 ==> parsed_decimal(text.push(c)) is None,
        !('0' <= c <= '9') && c != '+' ==> parsed_decimal(seq![c]) is None,
        text.len() > 0 && text[0] != '+' ==> parsed_decimal(seq!['+'] + text) == parsed_decimal(text),
        text.len() > 0 && text[0] == '+' ==> parsed_decimal(seq!['+'] + text) is None,
{
    assert(unsigned_part(seq!['+']) =~= Seq::empty());
    reveal_with_fuel(digits_value, 2);
    let one = seq![c];
    if '0' <= c <= '9' {
        assert(one.drop_last() =~= Seq::empty());
        assert(unsigned_part(one) == one);
    }
    let more = text.push(c);
    if text.len() > 0 {
        assert(unsigned_part(more) =~= unsigned_part(text).push(c));
        let digits = unsigned_part(more);
        assert(digits[digits.len() - 1] == c);
        if parsed_decimal(text) is Some && '0' <= c <= '9' {
            assert(digits.drop_last() =~= unsigned_part(text));
            assert forall|i: int| 0 <= i < digits.len() implies is_digit(#[trigger] digits[i]) by {
                if i < unsigned_part(text).len() {
                    assert(digits[i] == unsigned_part(text)[i]);
                }
            }
        }
    }
    if !('0' <= c <= '9') && c != '+' {
        assert(unsigned_part(one) == one);
        assert(!is_digit(one[0]));
    }
    let signed = seq!['+'] + text;
    assert(unsigned_part(signed) =~= text);
    if text.len() > 0 && text[0] == '+' {
        assert(!is_digit(unsigned_part(signed)[0]));
    }
}

/// Digits after zeros stand for the same number.
proof fn lemma_leading_zeros(zeros: nat, digits: Seq<char>)
    ensures
        digits_value(Seq::new(zeros, |i: int| '0') + digits) == digits_value(digits),
    decreases zeros + digits.len(),
{
    let row = Seq::new(zeros, |i: int| '0');
    let all = row + digits;
    if digits.len() > 0 {
        lemma_leading_zeros(zeros, digits.drop_last());
        assert(all.drop_last() =~= row + digits.drop_last());
        assert(all.last() == digits.last());
    } else if zeros > 0 {
        let fewer = Seq::new((zeros - 1) as nat, |i: int| '0');
        lemma_leading_zeros((zeros - 1) as nat, digits);
        assert(fewer + digits =~= fewer);
        assert(all =~= row);
        assert(all.drop_last() =~= fewer);
    } else {
        assert(all =~= digits);
    }
}

/// Padding keeps the number: a padded number is digits alone, as many as the width asks for or as
/// the number needs, whichever is more, and they stand for the number.
pub proof fn law_padding_keeps_the_number(n: nat, width: nat)
    ensures
        digits_value(padded(n, width)) == n,
        forall|i: int|
            0 <= i < padded(n, width).len() ==> '0' <= #[trigger] padded(n, width)[i] <= '9',
        padded(n, width).len() == if decimal(n).len() < width {
            width
        } else {
            decimal(n).len()
        },
{
    law_decimal_reads_back(n);
    lemma_decimal_digits(n);
    let zeros = if decimal(n).len() < width {
        (width - decimal(n).len()) as nat
    } else {
        0
    };
    lemma_leading_zeros(zeros, decimal(n));
    assert(padded(n, width) =~= Seq::new(zeros, |i: int| '0') + decimal(n));
    assert forall|i: int| 0 <= i < padded(n, width).len() implies '0' <= #[trigger] padded(
        n,
        width,
    )[i] <= '9' by {
        if i >= zeros {
            assert(is_digit(decimal(n)[i - zeros]));
        }
    }
}

} // verus!
