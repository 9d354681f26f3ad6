//! The calls into other crates, each with what the library relies on.

use base64::Engine;
use ed25519_dalek::Signature;
use ed25519_dalek::Verifier;
use ed25519_dalek::VerifyingKey;
use hmac::Hmac;
use hmac::Mac;
use sha2::Digest;
use sha2::Sha256;
use std::io::Cursor;
use std::sync::Arc;
use subtle::ConstantTimeEq;
use time::OffsetDateTime;
use time::format_description::well_known::Rfc3339;
use url::Url;
use vstd::prelude::*;

use crate::capture::CaptureJob;
use crate::capture::JobView;
use crate::recorder::share_total;
use crate::text::hex_digit;
use crate::text::hex_text;
use crate::text::lowered_char;

verus! {

/// The SHA-256 digest of a byte string.
pub uninterp spec fn sha256_of(data: Seq<u8>) -> Seq<u8>;

/// `sha2::Sha256::digest`: the SHA-256 digest of the data, 32 bytes that depend on it alone.
#[verifier::external_body]
pub(crate) fn sha256(data: &[u8]) -> (result: [u8; 32])
    ensures
        result@ == sha256_of(data@),
{
    Sha256::digest(data).into()
}

/// The HMAC-SHA-256 code of a byte string under a key.
pub uninterp spec fn hmac_sha256_of(key: Seq<u8>, data: Seq<u8>) -> Seq<u8>;

/// `hmac::Hmac::<Sha256>`: the code of the data under the key, which may have any length.
#[verifier::external_body]
pub(crate) fn hmac_sha256(key: &[u8], value: &[u8]) -> (result: [u8; 32])
    ensures
        result@ == hmac_sha256_of(key@, value@),
{
    let mut mac = Hmac::<Sha256>::new_from_slice(key).expect("HMAC accepts any key length");
    mac.update(value);
    mac.finalize().into_bytes().into()
}

/// The standard base64 text of a byte string, with padding.
pub uninterp spec fn base64_of(data: Seq<u8>) -> Seq<char>;

/// The byte string that a standard base64 text stands for, none where it is not such a text.
pub uninterp spec fn base64_read(text: Seq<char>) -> Option<Seq<u8>>;

/// How many characters standard base64 takes for `n` bytes.
pub open spec fn base64_len(n: int) -> int {
    (n + 2) / 3 * 4
}

/// `base64::engine::general_purpose::STANDARD.encode`: the standard base64 text of the data.
/// Reading that text gives the data back.
#[verifier::external_body]
pub(crate) fn base64_encode(data: &[u8]) -> (result: String)
    requires
        base64_len(data@.len() as int) <= isize::MAX,
    ensures
        result@ == base64_of(data@),
        base64_read(result@) == Some(data@),
{
    base64::engine::general_purpose::STANDARD.encode(data)
}

/// `base64::engine::general_purpose::STANDARD.decode`: the bytes that the text stands for. It takes
/// no text but the one that encoding those bytes gives: the padding must be there, and the bits
/// that stand for nothing must be zero.
#[verifier::external_body]
pub(crate) fn base64_decode(text: &str) -> (result: Option<Vec<u8>>)
    ensures
        result is Some <==> base64_read(text@) is Some,
        result matches Some(data) ==> base64_read(text@) == Some(data@),
        result matches Some(data) ==> base64_of(data@) == text@,
{
    base64::engine::general_purpose::STANDARD.decode(text).ok()
}

/// The 32 bytes are an Ed25519 public key.
pub uninterp spec fn is_ed25519_key(key: Seq<u8>) -> bool;

/// The 64 bytes are a signature on the message under the Ed25519 public key.
pub uninterp spec fn ed25519_verified(key: Seq<u8>, message: Seq<u8>, signature: Seq<u8>) -> bool;

/// `ed25519_dalek::VerifyingKey::from_bytes`: whether it takes the bytes for a public key.
#[verifier::external_body]
pub(crate) fn ed25519_key(bytes: &[u8; 32]) -> (result: bool)
    ensures
        result == is_ed25519_key(bytes@),
{
    VerifyingKey::from_bytes(bytes).is_ok()
}

/// `ed25519_dalek::VerifyingKey::verify`: whether the signature is the key's on the message. The
/// answer is no where the bytes are not a public key.
#[verifier::external_body]
pub(crate) fn ed25519_verify(key: &[u8; 32], message: &[u8], signature: &[u8; 64]) -> (result: bool)
    ensures
        result == ed25519_verified(key@, message@, signature@),
        result ==> is_ed25519_key(key@),
{
    match VerifyingKey::from_bytes(key) {
        Ok(key) => key.verify(message, &Signature::from_bytes(signature)).is_ok(),
        Err(_) => false,
    }
}

/// `subtle::ConstantTimeEq::ct_eq` on two digests: whether they hold the same bytes.
#[verifier::external_body]
pub(crate) fn same_digest(a: &[u8; 32], b: &[u8; 32]) -> (result: bool)
    ensures
        result == (a@ == b@),
{
    a.ct_eq(b).into()
}

/// The sixteen bytes of a UUID, the most significant first.
pub open spec fn uuid_bytes(value: u128) -> Seq<u8> {
    Seq::new(16, |i: int| (value >> ((120 - 8 * i) as u128)) as u8)
}

/// The hyphenated text of a UUID: 32 hexadecimal digits in groups of 8, 4, 4, 4 and 12.
pub open spec fn uuid_text(value: u128) -> Seq<char> {
    let digits = hex_text(uuid_bytes(value));
    digits.subrange(0, 8) + seq!['-'] + digits.subrange(8, 12) + seq!['-'] + digits.subrange(12, 16)
        + seq!['-'] + digits.subrange(16, 20) + seq!['-'] + digits.subrange(20, 32)
}

/// `uuid::Uuid::hyphenated`: the hyphenated text of a UUID, letters small.
#[verifier::external_body]
pub(crate) fn uuid_format(value: u128) -> (result: String)
    ensures
        result@ == uuid_text(value),
{
    uuid::Uuid::from_u128(value).hyphenated().to_string()
}

/// The characters are the digits of the UUID, letters small or capital.
pub open spec fn uuid_digits(text: Seq<char>, value: u128) -> bool {
    text.len() == 32 && forall|i: int|
        0 <= i < 32 ==> lowered_char(#[trigger] text[i]) == hex_text(uuid_bytes(value))[i]
}

/// The text is the UUID with hyphens after its digits 8, 12, 16 and 20.
pub open spec fn uuid_hyphenated(text: Seq<char>, value: u128) -> bool {
    &&& text.len() == 36
    &&& text[8] == '-' && text[13] == '-' && text[18] == '-' && text[23] == '-'
    &&& uuid_digits(
        text.subrange(0, 8) + text.subrange(9, 13) + text.subrange(14, 18) + text.subrange(19, 23)
            + text.subrange(24, 36),
        value,
    )
}

/// The text stands for the UUID: its digits alone, hyphenated, hyphenated in braces, or
/// hyphenated after `urn:uuid:`, letters small or capital throughout.
pub open spec fn uuid_reads(text: Seq<char>, value: u128) -> bool {
    ||| uuid_digits(text, value)
    ||| uuid_hyphenated(text, value)
    ||| text.len() == 38 && text[0] == '{' && text[37] == '}' && uuid_hyphenated(
        text.subrange(1, 37),
        value,
    )
    ||| text.len() == 45 && (forall|i: int|
        0 <= i < 9 ==> lowered_char(#[trigger] text[i]) == "urn:uuid:"@[i]) && uuid_hyphenated(
        text.subrange(9, 45),
        value,
    )
}

/// `uuid::Uuid::parse_str`: the UUID that the text stands for, none where it stands for none.
#[verifier::external_body]
pub(crate) fn uuid_parse(text: &str) -> (result: Option<u128>)
    ensures
        match result {
            Some(value) => uuid_reads(text@, value),
            None => forall|value: u128| !uuid_reads(text@, value),
        },
{
    uuid::Uuid::parse_str(text).ok().map(|value| value.as_u128())
}

/// The version number that a UUID carries.
pub open spec fn uuid_version(value: u128) -> u128 {
    (value >> 76u128) & 0xf
}

/// `uuid::Uuid::now_v7`: a UUID of version 7, made from the time and chance.
#[verifier::external_body]
pub(crate) fn uuid_now_v7() -> (result: u128)
    ensures
        uuid_version(result) == 7,
{
    uuid::Uuid::now_v7().as_u128()
}

/// A reading of the system clock, in universal time.
pub struct UtcTime {
    /// Nanoseconds since the beginning of 1970.
    pub nanos: i128,
    pub year: i32,
    pub month: u8,
    pub day: u8,
    pub hour: u8,
    pub minute: u8,
    pub second: u8,
}

impl UtcTime {
    /// Every part lies in its calendar range.
    pub open spec fn well_formed(self) -> bool {
        &&& -9999 <= self.year <= 9999
        &&& 1 <= self.month <= 12
        &&& 1 <= self.day <= 31
        &&& self.hour <= 23
        &&& self.minute <= 59
        &&& self.second <= 59
    }
}

/// `time::OffsetDateTime::now_utc`: the system clock, as a count of nanoseconds and in calendar
/// parts that lie in their ranges.
#[verifier::external_body]
pub(crate) fn utc_clock() -> (result: UtcTime)
    ensures
        result.well_formed(),
{
    let now = OffsetDateTime::now_utc();
    UtcTime {
        nanos: now.unix_timestamp_nanos(),
        year: now.year(),
        month: u8::from(now.month()),
        day: now.day(),
        hour: now.hour(),
        minute: now.minute(),
        second: now.second(),
    }
}

/// What an RFC 3339 text stands for: nanoseconds since the beginning of 1970 and the seconds by
/// which its clock is ahead of universal time; none where it is not such a text.
pub uninterp spec fn rfc3339_read(text: Seq<char>) -> Option<(i128, i32)>;

/// The RFC 3339 text of a moment in universal time, none where the year has not four digits.
pub uninterp spec fn rfc3339_of(nanos: i128) -> Option<Seq<char>>;

/// `time::OffsetDateTime::parse` with `Rfc3339`: the moment that the text stands for and its
/// offset in seconds.
#[verifier::external_body]
pub(crate) fn rfc3339_parse(text: &str) -> (result: Option<(i128, i32)>)
    ensures
        result == rfc3339_read(text@),
{
    let value = OffsetDateTime::parse(text, &Rfc3339).ok()?;
    Some((value.unix_timestamp_nanos(), value.offset().whole_seconds()))
}

/// `time::OffsetDateTime::format` with `Rfc3339`: the text of the moment in universal time.
#[verifier::external_body]
pub(crate) fn rfc3339_format(nanos: i128) -> (result: Option<String>)
    ensures
        result is Some <==> rfc3339_of(nanos) is Some,
        result matches Some(text) ==> rfc3339_of(nanos) == Some(text@),
{
    OffsetDateTime::from_unix_timestamp_nanos(nanos).ok()?.format(&Rfc3339).ok()
}

/// The parts of a URL.
pub struct UrlParts {
    pub text: String,
    pub scheme: String,
    pub username: String,
    pub password: Option<String>,
    pub host: Option<String>,
    pub port: Option<u16>,
    pub path: String,
    pub query: Option<String>,
    pub fragment: Option<String>,
}

/// The parts of a URL, as texts.
pub struct UrlView {
    pub text: Seq<char>,
    pub scheme: Seq<char>,
    pub username: Seq<char>,
    pub password: Option<Seq<char>>,
    pub host: Option<Seq<char>>,
    pub port: Option<u16>,
    pub path: Seq<char>,
    pub query: Option<Seq<char>>,
    pub fragment: Option<Seq<char>>,
}

/// The view of a text that may be absent.
pub open spec fn optional_text(text: Option<String>) -> Option<Seq<char>> {
    match text {
        Some(text) => Some(text@),
        None => None,
    }
}

impl View for UrlParts {
    type V = UrlView;

    open spec fn view(&self) -> UrlView {
        UrlView {
            text: self.text@,
            scheme: self.scheme@,
            username: self.username@,
            password: optional_text(self.password),
            host: optional_text(self.host),
            port: self.port,
            path: self.path@,
            query: optional_text(self.query),
            fragment: optional_text(self.fragment),
        }
    }
}

/// The parts of the URL that a text stands for, none where it is not an absolute URL.
pub uninterp spec fn url_read(text: Seq<char>) -> Option<UrlView>;

/// `url::Url::parse` and the accessors of `url::Url`: the parts of the URL.
#[verifier::external_body]
pub(crate) fn url_parse(text: &str) -> (result: Option<UrlParts>)
    ensures
        result is Some <==> url_read(text@) is Some,
        result matches Some(parts) ==> url_read(text@) == Some(parts@),
{
    let url = Url::parse(text).ok()?;
    Some(UrlParts {
        text: url.as_str().to_owned(),
        scheme: url.scheme().to_owned(),
        username: url.username().to_owned(),
        password: url.password().map(str::to_owned),
        host: url.host_str().map(str::to_owned),
        port: url.port(),
        path: url.path().to_owned(),
        query: url.query().map(str::to_owned),
        fragment: url.fragment().map(str::to_owned),
    })
}

/// The zstd frame of a byte string at a compression level, none where the encoder refuses them.
pub uninterp spec fn zstd_of(data: Seq<u8>, level: i32) -> Option<Seq<u8>>;

/// `zstd::encode_all`: the zstd frame of the data, or its refusal; which of the two depends on the
/// data and the level alone. That the encoder may find no memory is left aside, as it is of every
/// allocation.
#[verifier::external_body]
pub(crate) fn zstd_encode(data: &[u8], level: i32) -> (result: Option<Vec<u8>>)
    ensures
        result is Some <==> zstd_of(data@, level) is Some,
        result matches Some(frame) ==> zstd_of(data@, level) == Some(frame@),
{
    zstd::encode_all(Cursor::new(data), level).ok()
}

/// How JSON writes a character inside a string.
pub open spec fn json_escaped(c: char) -> Seq<char> {
    if c == '"' {
        seq!['\\', '"']
    } else if c == '\\' {
        seq!['\\', '\\']
    } else if c as u32 == 0x8 {
        seq!['\\', 'b']
    } else if c as u32 == 0x9 {
        seq!['\\', 't']
    } else if c as u32 == 0xa {
        seq!['\\', 'n']
    } else if c as u32 == 0xc {
        seq!['\\', 'f']
    } else if c as u32 == 0xd {
        seq!['\\', 'r']
    } else if (c as u32) < 0x20 {
        seq!['\\', 'u', '0', '0', hex_digit(c as int / 16), hex_digit(c as int % 16)]
    } else {
        seq![c]
    }
}

/// How JSON writes the characters of a text inside a string.
pub open spec fn json_escapes(text: Seq<char>) -> Seq<char>
    decreases text.len(),
{
    if text.len() == 0 {
        text
    } else {
        json_escaped(text[0]) + json_escapes(text.skip(1))
    }
}

/// A text as a JSON string.
pub open spec fn json_quoted(text: Seq<char>) -> Seq<char> {
    seq!['"'] + json_escapes(text) + seq!['"']
}

/// `serde_json::to_string` on a text: the text in double quotes, with quotes, backslashes and
/// control characters escaped and every other character as it is.
#[verifier::external_body]
pub(crate) fn json_string(text: &str) -> (result: String)
    ensures
        result@ == json_quoted(text@),
{
    serde_json::to_string(text).expect("a text is representable in JSON")
}

/// The bytes are a JSON text.
pub uninterp spec fn is_json(data: Seq<u8>) -> bool;

/// The Boolean that a JSON object holds under a name; none where the bytes are not a JSON object
/// or hold no Boolean there.
pub uninterp spec fn json_flag_of(data: Seq<u8>, name: Seq<char>) -> Option<bool>;

/// `serde_json::from_slice` into a `serde_json::Value`: whether the bytes are a JSON text.
#[verifier::external_body]
pub(crate) fn json_valid(data: &[u8]) -> (result: bool)
    ensures
        result == is_json(data@),
{
    serde_json::from_slice::<serde_json::Value>(data).is_ok()
}

/// `serde_json::Value::get` and `as_bool` on the parsed bytes: the Boolean under the name.
#[verifier::external_body]
pub(crate) fn json_flag(data: &[u8], name: &str) -> (result: Option<bool>)
    ensures
        result == json_flag_of(data@, name@),
        result is Some ==> is_json(data@),
{
    let value = serde_json::from_slice::<serde_json::Value>(data).ok()?;
    value.get(name)?.as_bool()
}

/// A byte that may stand in a header name.
pub open spec fn is_token_byte(b: u8) -> bool {
    ||| 0x30 <= b <= 0x39
    ||| 0x41 <= b <= 0x5a
    ||| 0x61 <= b <= 0x7a
    ||| b == 0x21
    ||| 0x23 <= b <= 0x27
    ||| b == 0x2a
    ||| b == 0x2b
    ||| b == 0x2d
    ||| b == 0x2e
    ||| b == 0x5e
    ||| b == 0x5f
    ||| b == 0x60
    ||| b == 0x7c
    ||| b == 0x7e
}

/// Bytes that make a header name.
pub open spec fn is_header_name(bytes: Seq<u8>) -> bool {
    &&& 1 <= bytes.len() <= 0xffff
    &&& forall|i: int| 0 <= i < bytes.len() ==> is_token_byte(#[trigger] bytes[i])
}

/// The text of a header name, its capitals made small.
pub open spec fn header_name_of(bytes: Seq<u8>) -> Seq<char> {
    Seq::new(bytes.len(), |i: int| lowered_char(bytes[i] as char))
}

/// Bytes that make a header value: no control character but the tabulator.
pub open spec fn is_header_value(bytes: Seq<u8>) -> bool {
    forall|i: int|
        0 <= i < bytes.len() ==> ((#[trigger] bytes[i]) >= 0x20 && bytes[i] != 0x7f) || bytes[i]
            == 0x9
}

/// `reqwest::header::HeaderName::from_bytes`: the header name with its capitals made small, none
/// where the bytes are empty, more than 65,535 or not all those of a token.
#[verifier::external_body]
pub(crate) fn header_name(bytes: &[u8]) -> (result: Option<String>)
    ensures
        result is Some <==> is_header_name(bytes@),
        result matches Some(name) ==> name@ == header_name_of(bytes@),
{
    reqwest::header::HeaderName::from_bytes(bytes).ok().map(|name| name.as_str().to_owned())
}

/// `reqwest::header::HeaderValue::from_bytes`: whether the bytes make a header value.
#[verifier::external_body]
pub(crate) fn header_value(bytes: &[u8]) -> (result: bool)
    ensures
        result == is_header_value(bytes@),
{
    reqwest::header::HeaderValue::from_bytes(bytes).is_ok()
}

/// The counting semaphore of `tokio`.
#[verifier::external_type_specification]
#[verifier::external_body]
pub struct ExSemaphore(tokio::sync::Semaphore);

/// A share of a `tokio` semaphore, given back when it is dropped.
#[verifier::external_type_specification]
#[verifier::external_body]
pub struct ExOwnedSemaphorePermit(tokio::sync::OwnedSemaphorePermit);

/// The sending end of a bounded `tokio` channel.
#[verifier::external_type_specification]
#[verifier::external_body]
#[verifier::reject_recursive_types(T)]
pub struct ExSender<T>(tokio::sync::mpsc::Sender<T>);

/// A share of the capture memory, given back when it is dropped.
pub struct MemoryPermit {
    pub permit: tokio::sync::OwnedSemaphorePermit,
    /// How many bytes the share is for.
    pub bytes: usize,
}

/// What was asked of the capture memory: how many bytes, and whether they were granted.
pub struct MemoryRequest {
    pub count: nat,
    pub granted: bool,
}

/// Everything that was asked of a semaphore through one handle, in order. The handle keeps no such
/// list: the name stands for what was done with it.
pub uninterp spec fn requests_through(handle: Arc<tokio::sync::Semaphore>) -> Seq<MemoryRequest>;

/// Which semaphore a handle belongs to.
pub uninterp spec fn semaphore_of(handle: Arc<tokio::sync::Semaphore>) -> int;

/// `tokio::sync::Semaphore::try_acquire_many_owned`, and `num_permits` of what it gives: asks the
/// semaphore once for that many permits, and gives a share of them, none where fewer are left or
/// the semaphore is closed. Which of the two depends on what others hold, and is left open. The
/// handle stays that of the same semaphore.
#[verifier::external_body]
pub(crate) fn try_acquire(handle: &mut Arc<tokio::sync::Semaphore>, count: u32) -> (result: Option<
    MemoryPermit,
>)
    requires
        count <= usize::MAX / 8,
    ensures
        result matches Some(share) ==> share.bytes == count,
        semaphore_of(*final(handle)) == semaphore_of(*old(handle)),
        requests_through(*final(handle)) == requests_through(*old(handle)).push(
            (MemoryRequest { count: count as nat, granted: result is Some }),
        ),
{
    let permit = Arc::clone(handle).try_acquire_many_owned(count).ok()?;
    Some(MemoryPermit { bytes: permit.num_permits(), permit })
}

/// What a channel was offered: an exchange, the capture memory that comes with it, and whether the
/// channel took them.
pub struct Offer {
    pub job: JobView,
    /// The capture memory, in bytes.
    pub reserved: nat,
    pub taken: bool,
}

/// Everything that was offered to the channel through one sending end, in order. The sending end
/// keeps no such list: the name stands for what was done with it.
pub uninterp spec fn offers_through(sender: tokio::sync::mpsc::Sender<CaptureJob>) -> Seq<Offer>;

/// Which channel a sending end belongs to.
pub uninterp spec fn channel_of(sender: tokio::sync::mpsc::Sender<CaptureJob>) -> int;

/// `tokio::sync::mpsc::Sender::try_send`: offers an exchange to the channel once, and says whether
/// the channel took it. Which of the two depends on what the receiving end has taken, and is left
/// open. The sending end stays that of the same channel.
#[verifier::external_body]
pub(crate) fn try_send(
    sender: &mut tokio::sync::mpsc::Sender<CaptureJob>,
    job: CaptureJob,
) -> (result: bool)
    ensures
        channel_of(*final(sender)) == channel_of(*old(sender)),
        offers_through(*final(sender)) == offers_through(*old(sender)).push(
            (Offer { job: job@, reserved: share_total(job.memory@), taken: result }),
        ),
{
    sender.try_send(job).is_ok()
}

/// A reading of the monotonic clock.
#[verifier::external_type_specification]
#[verifier::external_body]
pub struct ExInstant(std::time::Instant);

/// `std::time::Instant::now`: the present reading of the monotonic clock.
#[verifier::external_body]
pub(crate) fn monotonic_now() -> (result: std::time::Instant) {
    std::time::Instant::now()
}

/// `std::time::Instant::elapsed`: the nanoseconds since the reading was taken.
#[verifier::external_body]
pub(crate) fn nanos_since(start: &std::time::Instant) -> (result: u128) {
    start.elapsed().as_nanos()
}

} // verus!
