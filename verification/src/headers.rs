//! Which headers pass the gateway, and which are captured.

use vstd::prelude::*;
use vstd::utf8::encode_utf8;

use crate::boundary::header_name;
use crate::boundary::header_name_of;
use crate::boundary::header_value;
use crate::boundary::is_header_name;
use crate::boundary::is_header_value;
use crate::boundary::is_token_byte;
use crate::boundary::optional_text;
use crate::identity::Uuid;
use crate::text::begins_with;
use crate::text::has_prefix;
use crate::text::lemma_small_bytes_are_ascii;
use crate::text::lowered;
use crate::text::lowered_char;
use crate::text::same_text;
use crate::text::to_ascii_lowercase;

verus! {

/// One header line.
pub struct Header {
    pub name: String,
    pub value: Vec<u8>,
}

/// One header line: its name and the bytes of its value.
pub struct HeaderView {
    pub name: Seq<char>,
    pub value: Seq<u8>,
}

impl View for Header {
    type V = HeaderView;

    open spec fn view(&self) -> HeaderView {
        HeaderView { name: self.name@, value: self.value@ }
    }
}

/// The header lines, in order.
pub open spec fn header_views(headers: Seq<Header>) -> Seq<HeaderView> {
    Seq::new(headers.len(), |i: int| headers[i]@)
}

/// A header kept with a capture.
pub struct TextHeader {
    pub name: String,
    pub value: String,
}

impl View for TextHeader {
    type V = (Seq<char>, Seq<char>);

    open spec fn view(&self) -> (Seq<char>, Seq<char>) {
        (self.name@, self.value@)
    }
}

/// The captured headers, in order.
pub open spec fn text_header_views(headers: Seq<TextHeader>) -> Seq<(Seq<char>, Seq<char>)> {
    Seq::new(headers.len(), |i: int| headers[i]@)
}

/// Why headers are refused.
#[derive(Clone, Copy, Debug, PartialEq, Eq, Structural)]
pub enum HeaderError {
    /// A header that passes has a name or a value that HTTP does not allow.
    NotRepresentable,
    /// `x-milk-trajectory-id` stands more than once.
    TrajectoryRepeated,
    /// The value of `x-milk-trajectory-id` is not visible ASCII.
    TrajectoryNotAscii,
    /// The value of `x-milk-trajectory-id` is not a UUID.
    TrajectoryNotUuid,
    /// The value of `x-milk-trajectory-id` is the zero UUID.
    TrajectoryNil,
}

/// A header of one connection, by its lowercase name.
pub open spec fn hop_by_hop(name: Seq<char>) -> bool {
    ||| name == "connection"@
    ||| name == "keep-alive"@
    ||| name == "proxy-authenticate"@
    ||| name == "proxy-authorization"@
    ||| name == "proxy-connection"@
    ||| name == "te"@
    ||| name == "trailer"@
    ||| name == "transfer-encoding"@
    ||| name == "upgrade"@
}

/// A request header on the list of those that may pass, by its lowercase name.
pub open spec fn request_header_allowed(name: Seq<char>) -> bool {
    ||| name == "accept"@
    ||| name == "content-encoding"@
    ||| name == "content-type"@
    ||| name == "openai-beta"@
    ||| name == "user-agent"@
    ||| name == "x-client-request-id"@
    ||| begins_with(name, "x-stainless-"@)
}

/// A response header on the list of those that may pass, by its lowercase name.
pub open spec fn response_header_allowed(name: Seq<char>) -> bool {
    ||| name == "cache-control"@
    ||| name == "content-encoding"@
    ||| name == "content-length"@
    ||| name == "content-type"@
    ||| name == "etag"@
    ||| name == "retry-after"@
    ||| name == "vary"@
    ||| name == "www-authenticate"@
    ||| name == "x-request-id"@
    ||| name == "x-should-retry"@
    ||| begins_with(name, "openai-"@)
    ||| begins_with(name, "x-openai-"@)
    ||| begins_with(name, "x-ratelimit-"@)
}

/// A request header that never passes, by its lowercase name.
pub open spec fn request_header_withheld(name: Seq<char>) -> bool {
    ||| name == "authorization"@
    ||| name == "host"@
    ||| name == "content-length"@
    ||| name == "openai-organization"@
    ||| name == "openai-project"@
}

/// Whether a lowercase header name belongs to one connection.
pub fn is_hop_by_hop(name: &str) -> (result: bool)
    ensures
        result == hop_by_hop(name@),
{
    same_text(name, "connection") || same_text(name, "keep-alive") || same_text(
        name,
        "proxy-authenticate",
    ) || same_text(name, "proxy-authorization") || same_text(name, "proxy-connection")
        || same_text(name, "te") || same_text(name, "trailer") || same_text(
        name,
        "transfer-encoding",
    ) || same_text(name, "upgrade")
}

/// Whether a lowercase request header name is on the list of those that may pass.
pub fn allowed_request_header(name: &str) -> (result: bool)
    ensures
        result == request_header_allowed(name@),
{
    same_text(name, "accept") || same_text(name, "content-encoding") || same_text(
        name,
        "content-type",
    ) || same_text(name, "openai-beta") || same_text(name, "user-agent") || same_text(
        name,
        "x-client-request-id",
    ) || has_prefix(name, "x-stainless-")
}

/// Whether a lowercase response header name is on the list of those that may pass.
pub fn allowed_response_header(name: &str) -> (result: bool)
    ensures
        result == response_header_allowed(name@),
{
    same_text(name, "cache-control") || same_text(name, "content-encoding") || same_text(
        name,
        "content-length",
    ) || same_text(name, "content-type") || same_text(name, "etag") || same_text(
        name,
        "retry-after",
    ) || same_text(name, "vary") || same_text(name, "www-authenticate") || same_text(
        name,
        "x-request-id",
    ) || same_text(name, "x-should-retry") || has_prefix(name, "openai-") || has_prefix(
        name,
        "x-openai-",
    ) || has_prefix(name, "x-ratelimit-")
}

/// The way that headers take through the gateway.
#[derive(Clone, Copy, Debug, PartialEq, Eq, Structural)]
pub enum Direction {
    /// From the client to the provider.
    Request,
    /// From the provider to the client.
    Response,
}

/// A header passes in a direction, whatever the case of its name.
pub open spec fn passes(direction: Direction, name: Seq<char>) -> bool {
    let lower = lowered(name);
    &&& !hop_by_hop(lower)
    &&& !begins_with(lower, "x-milk-"@)
    &&& match direction {
        Direction::Request => !request_header_withheld(lower) && request_header_allowed(lower),
        Direction::Response => response_header_allowed(lower),
    }
}

/// Whether a header passes in a direction.
pub fn header_passes(direction: Direction, name: &str) -> (result: bool)
    ensures
        result == passes(direction, name@),
{
    let lower = to_ascii_lowercase(name);
    let lower = lower.as_str();
    if is_hop_by_hop(lower) || has_prefix(lower, "x-milk-") {
        return false;
    }
    match direction {
        Direction::Request => {
            let withheld = same_text(lower, "authorization") || same_text(lower, "host")
                || same_text(lower, "content-length") || same_text(lower, "openai-organization")
                || same_text(lower, "openai-project");
            !withheld && allowed_request_header(lower)
        },
        Direction::Response => allowed_response_header(lower),
    }
}

/// HTTP allows the header.
pub open spec fn representable(header: HeaderView) -> bool {
    is_header_name(encode_utf8(header.name)) && is_header_value(header.value)
}

/// The header with its name in lower case.
pub open spec fn normalized(header: HeaderView) -> HeaderView {
    HeaderView { name: lowered(header.name), value: header.value }
}

/// The headers that pass in a direction, in order, with lowercase names.
pub open spec fn passing(direction: Direction, headers: Seq<HeaderView>) -> Seq<HeaderView>
    decreases headers.len(),
{
    if headers.len() == 0 {
        headers
    } else if passes(direction, headers.last().name) {
        passing(direction, headers.drop_last()).push(normalized(headers.last()))
    } else {
        passing(direction, headers.drop_last())
    }
}

/// HTTP allows every header that passes.
pub open spec fn passing_representable(direction: Direction, headers: Seq<HeaderView>) -> bool {
    forall|i: int|
        0 <= i < headers.len() && passes(direction, (#[trigger] headers[i]).name) ==> representable(
            headers[i],
        )
}

/// A name that HTTP allows is normalised to its lowercase text.
proof fn lemma_name_normalized(name: Seq<char>)
    requires
        is_header_name(encode_utf8(name)),
    ensures
        header_name_of(encode_utf8(name)) == lowered(name),
{
    let bytes = encode_utf8(name);
    assert forall|i: int| 0 <= i < bytes.len() implies #[trigger] bytes[i] < 0x80 by {
        assert(is_token_byte(bytes[i]));
    }
    lemma_small_bytes_are_ascii(name);
    assert(header_name_of(bytes) =~= lowered(name));
}

/// The headers that pass in a direction, refused where HTTP does not allow one of them.
fn pass_headers(direction: Direction, headers: &[Header]) -> (result: Result<
    Vec<Header>,
    HeaderError,
>)
    ensures
        match result {
            Ok(forwarded) => passing_representable(direction, header_views(headers@))
                && header_views(forwarded@) == passing(direction, header_views(headers@)),
            Err(error) => error == HeaderError::NotRepresentable && !passing_representable(
                direction,
                header_views(headers@),
            ),
        },
{
    let ghost views = header_views(headers@);
    let mut forwarded: Vec<Header> = Vec::new();
    assert(views.take(0) =~= Seq::empty());
    assert(header_views(forwarded@) =~= Seq::empty());
    for i in 0..headers.len()
        invariant
            views == header_views(headers@),
            header_views(forwarded@) == passing(direction, views.take(i as int)),
            forall|k: int|
                0 <= k < i && passes(direction, (#[trigger] views[k]).name) ==> representable(
                    views[k],
                ),
    {
        let ghost before = header_views(forwarded@);
        assert(views.take(i + 1).drop_last() =~= views.take(i as int));
        assert(views[i as int] == headers@[i as int]@);
        if header_passes(direction, headers[i].name.as_str()) {
            let name = match header_name(headers[i].name.as_str().as_bytes()) {
                Some(name) => name,
                None => {
                    assert(!representable(views[i as int]));
                    return Err(HeaderError::NotRepresentable);
                },
            };
            if !header_value(headers[i].value.as_slice()) {
                assert(!representable(views[i as int]));
                return Err(HeaderError::NotRepresentable);
            }
            proof {
                lemma_name_normalized(views[i as int].name);
            }
            let value = headers[i].value.clone();
            assert(value@ =~= headers@[i as int].value@);
            forwarded.push(Header { name, value });
            assert(header_views(forwarded@) =~= before.push(normalized(views[i as int])));
        }
    }
    assert(views.take(views.len() as int) =~= views);
    Ok(forwarded)
}

/// The header that asks the provider for an uncompressed response.
pub open spec fn identity_encoding() -> HeaderView {
    HeaderView { name: "accept-encoding"@, value: encode_utf8("identity"@) }
}

/// The headers that go to the provider: those of the request that pass, and `accept-encoding:
/// identity`.
pub fn upstream_request_headers(headers: &[Header]) -> (result: Result<Vec<Header>, HeaderError>)
    ensures
        match result {
            Ok(forwarded) => {
                &&& passing_representable(Direction::Request, header_views(headers@))
                &&& header_views(forwarded@) == passing(
                    Direction::Request,
                    header_views(headers@),
                ).push(identity_encoding())
            },
            Err(error) => {
                &&& error == HeaderError::NotRepresentable
                &&& !passing_representable(Direction::Request, header_views(headers@))
            },
        },
{
    match pass_headers(Direction::Request, headers) {
        Ok(mut forwarded) => {
            let ghost before = header_views(forwarded@);
            forwarded.push(
                Header {
                    name: "accept-encoding".to_owned(),
                    value: "identity".as_bytes_vec(),
                },
            );
            assert(header_views(forwarded@) =~= before.push(identity_encoding()));
            Ok(forwarded)
        },
        Err(error) => Err(error),
    }
}

/// The headers that go back to the client: those of the provider's response that pass.
pub fn downstream_response_headers(headers: &[Header]) -> (result: Result<Vec<Header>, HeaderError>)
    ensures
        match result {
            Ok(forwarded) => {
                &&& passing_representable(Direction::Response, header_views(headers@))
                &&& header_views(forwarded@) == passing(
                    Direction::Response,
                    header_views(headers@),
                )
            },
            Err(error) => {
                &&& error == HeaderError::NotRepresentable
                &&& !passing_representable(Direction::Response, header_views(headers@))
            },
        },
{
    pass_headers(Direction::Response, headers)
}

/// The values of the headers with a lowercase name, in order.
pub open spec fn values_of(headers: Seq<HeaderView>, name: Seq<char>) -> Seq<Seq<u8>>
    decreases headers.len(),
{
    if headers.len() == 0 {
        Seq::empty()
    } else if lowered(headers.last().name) == name {
        values_of(headers.drop_last(), name).push(headers.last().value)
    } else {
        values_of(headers.drop_last(), name)
    }
}

/// Byte strings, in order.
pub open spec fn byte_views(values: Seq<Vec<u8>>) -> Seq<Seq<u8>> {
    Seq::new(values.len(), |i: int| values[i]@)
}

/// The values of the headers with a lowercase name, in order.
pub fn header_values(headers: &[Header], name: &str) -> (result: Vec<Vec<u8>>)
    ensures
        byte_views(result@) == values_of(header_views(headers@), name@),
{
    let ghost views = header_views(headers@);
    let mut result: Vec<Vec<u8>> = Vec::new();
    assert(views.take(0) =~= Seq::empty());
    assert(byte_views(result@) =~= Seq::empty());
    for i in 0..headers.len()
        invariant
            views == header_views(headers@),
            byte_views(result@) == values_of(views.take(i as int), name@),
    {
        let ghost before = byte_views(result@);
        assert(views.take(i + 1).drop_last() =~= views.take(i as int));
        let lower = to_ascii_lowercase(headers[i].name.as_str());
        if same_text(lower.as_str(), name) {
            let value = headers[i].value.clone();
            assert(value@ =~= headers@[i as int].value@);
            result.push(value);
            assert(byte_views(result@) =~= before.push(headers@[i as int].value@));
        }
    }
    assert(views.take(views.len() as int) =~= views);
    result
}

/// A visible ASCII character, a space or a tabulator.
pub open spec fn is_visible(b: u8) -> bool {
    (0x20 <= b && b < 0x7f) || b == 0x9
}

/// The text of a header value, none where it has a byte that is not visible ASCII.
pub open spec fn visible_text_of(value: Seq<u8>) -> Option<Seq<char>> {
    if forall|i: int| 0 <= i < value.len() ==> is_visible(#[trigger] value[i]) {
        Some(Seq::new(value.len(), |i: int| value[i] as char))
    } else {
        None
    }
}

/// The text of a header value.
pub fn visible_text(value: &[u8]) -> (result: Option<String>)
    ensures
        optional_text(result) == visible_text_of(value@),
{
    let mut text = String::new();
    for i in 0..value.len()
        invariant
            forall|k: int| 0 <= k < i ==> is_visible(#[trigger] value@[k]),
            text@ == Seq::new(i as nat, |k: int| value@[k] as char),
    {
        let byte: u8 = value[i];
        if !((0x20 <= byte && byte < 0x7f) || byte == 0x9) {
            assert(!is_visible(value@[i as int]));
            return None;
        }
        text.push(byte as char);
        assert(Seq::new((i + 1) as nat, |k: int| value@[k] as char) =~= Seq::new(
            i as nat,
            |k: int| value@[k] as char,
        ).push(value@[i as int] as char));
    }
    Some(text)
}

/// The trajectory that a request belongs to: none without the header; else its single value, a
/// UUID that is not zero.
pub open spec fn trajectory_of(headers: Seq<HeaderView>) -> Result<Option<Uuid>, HeaderError> {
    let values = values_of(headers, "x-milk-trajectory-id"@);
    if values.len() == 0 {
        Ok(None)
    } else if values.len() > 1 {
        Err(HeaderError::TrajectoryRepeated)
    } else {
        match visible_text_of(values[0]) {
            None => Err(HeaderError::TrajectoryNotAscii),
            Some(text) => match Uuid::of_text(text) {
                None => Err(HeaderError::TrajectoryNotUuid),
                Some(uuid) => if uuid.value == 0 {
                    Err(HeaderError::TrajectoryNil)
                } else {
                    Ok(Some(uuid))
                },
            },
        }
    }
}

/// The trajectory that a request belongs to.
pub fn trajectory_id(headers: &[Header]) -> (result: Result<Option<Uuid>, HeaderError>)
    ensures
        result == trajectory_of(header_views(headers@)),
{
    let values = header_values(headers, "x-milk-trajectory-id");
    assert(byte_views(values@).len() == values@.len());
    if values.len() == 0 {
        return Ok(None);
    }
    if values.len() > 1 {
        return Err(HeaderError::TrajectoryRepeated);
    }
    assert(byte_views(values@)[0] == values@[0]@);
    let text = match visible_text(values[0].as_slice()) {
        Some(text) => text,
        None => return Err(HeaderError::TrajectoryNotAscii),
    };
    match Uuid::parse_str(text.as_str()) {
        None => Err(HeaderError::TrajectoryNotUuid),
        Some(uuid) => if uuid.is_nil() {
            Err(HeaderError::TrajectoryNil)
        } else {
            Ok(Some(uuid))
        },
    }
}

/// The captured headers: of each name the first value, where there is one and it is visible
/// ASCII, in the order of the names.
pub open spec fn selected(headers: Seq<HeaderView>, names: Seq<Seq<char>>) -> Seq<
    (Seq<char>, Seq<char>),
>
    decreases names.len(),
{
    if names.len() == 0 {
        Seq::empty()
    } else {
        let before = selected(headers, names.drop_last());
        let values = values_of(headers, names.last());
        if values.len() > 0 && visible_text_of(values[0]) is Some {
            before.push((names.last(), visible_text_of(values[0])->0))
        } else {
            before
        }
    }
}

/// The texts of a row of names.
pub open spec fn name_views(names: Seq<&str>) -> Seq<Seq<char>> {
    Seq::new(names.len(), |i: int| names[i]@)
}

/// Of each name the first value, where there is one and it is visible ASCII.
pub fn safe_headers(headers: &[Header], names: &[&str]) -> (result: Vec<TextHeader>)
    ensures
        text_header_views(result@) == selected(header_views(headers@), name_views(names@)),
{
    let ghost views = header_views(headers@);
    let ghost wanted = name_views(names@);
    let mut result: Vec<TextHeader> = Vec::new();
    assert(wanted.take(0) =~= Seq::empty());
    assert(text_header_views(result@) =~= Seq::empty());
    for i in 0..names.len()
        invariant
            views == header_views(headers@),
            wanted == name_views(names@),
            text_header_views(result@) == selected(views, wanted.take(i as int)),
    {
        let ghost before = text_header_views(result@);
        assert(wanted.take(i + 1).drop_last() =~= wanted.take(i as int));
        let name: &str = names[i];
        let values = header_values(headers, name);
        assert(byte_views(values@).len() == values@.len());
        if values.len() > 0 {
            assert(byte_views(values@)[0] == values@[0]@);
            if let Some(value) = visible_text(values[0].as_slice()) {
                result.push(TextHeader { name: name.to_owned(), value });
                assert(text_header_views(result@) =~= before.push((name@, value@)));
            }
        }
    }
    assert(wanted.take(wanted.len() as int) =~= wanted);
    result
}

/// The names of the request headers that a capture keeps, in alphabetical order.
pub open spec fn captured_request_names() -> Seq<Seq<char>> {
    seq!["accept"@, "content-encoding"@, "content-type"@, "openai-beta"@]
}

/// The names of the response headers that a capture keeps, in alphabetical order.
pub open spec fn captured_response_names() -> Seq<Seq<char>> {
    seq!["content-encoding"@, "content-type"@, "openai-request-id"@, "x-request-id"@]
}

/// The request headers that a capture keeps.
pub fn safe_request_headers(headers: &[Header]) -> (result: Vec<TextHeader>)
    ensures
        text_header_views(result@) == selected(header_views(headers@), captured_request_names()),
{
    let names: [&str; 4] = ["accept", "content-encoding", "content-type", "openai-beta"];
    assert(name_views(names@) =~= captured_request_names());
    safe_headers(headers, names.as_slice())
}

/// The response headers that a capture keeps.
pub fn safe_response_headers(headers: &[Header]) -> (result: Vec<TextHeader>)
    ensures
        text_header_views(result@) == selected(header_views(headers@), captured_response_names()),
{
    let names: [&str; 4] = ["content-encoding", "content-type", "openai-request-id", "x-request-id"];
    assert(name_views(names@) =~= captured_response_names());
    safe_headers(headers, names.as_slice())
}

/// Every header that passes is a header of the message, under its lowercase name and with its
/// value unchanged, and is allowed to pass.
pub proof fn law_passing_headers_come_from_the_message(
    direction: Direction,
    headers: Seq<HeaderView>,
    k: int,
) -> (i: int)
    requires
        0 <= k < passing(direction, headers).len(),
    ensures
        0 <= i < headers.len(),
        passing(direction, headers)[k] == normalized(headers[i]),
        passes(direction, headers[i].name),
    decreases headers.len(),
{
    if k < passing(direction, headers.drop_last()).len() {
        law_passing_headers_come_from_the_message(direction, headers.drop_last(), k)
    } else {
        headers.len() - 1
    }
}

/// Lowering twice is lowering once.
proof fn lemma_lowered_twice(text: Seq<char>)
    ensures
        lowered(lowered(text)) == lowered(text),
{
    assert forall|i: int| 0 <= i < text.len() implies lowered_char(
        lowered_char(#[trigger] text[i]),
    ) == lowered_char(text[i]) by {
        let c = text[i];
        if 'A' <= c && c <= 'Z' {
            assert(lowered_char(c) as u32 == c as u32 + 32);
        }
    }
    assert(lowered(lowered(text)) =~= lowered(text));
}

/// No header that reaches the provider carries the client's credentials, the gateway's own
/// headers or those of the client's connection, and none names the client's organisation.
pub proof fn law_private_request_headers_stay(headers: Seq<HeaderView>, k: int)
    requires
        0 <= k < passing(Direction::Request, headers).push(identity_encoding()).len(),
    ensures
        ({
            let name = passing(Direction::Request, headers).push(identity_encoding())[k].name;
            &&& !request_header_withheld(name)
            &&& !begins_with(name, "x-milk-"@)
            &&& !hop_by_hop(name)
        }),
{
    if k < passing(Direction::Request, headers).len() {
        let i = law_passing_headers_come_from_the_message(Direction::Request, headers, k);
    } else {
        reveal_strlit("accept-encoding");
        reveal_strlit("authorization");
        reveal_strlit("host");
        reveal_strlit("content-length");
        reveal_strlit("openai-organization");
        reveal_strlit("openai-project");
        reveal_strlit("x-milk-");
        reveal_strlit("connection");
        reveal_strlit("keep-alive");
        reveal_strlit("proxy-authenticate");
        reveal_strlit("proxy-authorization");
        reveal_strlit("proxy-connection");
        reveal_strlit("te");
        reveal_strlit("trailer");
        reveal_strlit("transfer-encoding");
        reveal_strlit("upgrade");
        let name = "accept-encoding"@;
        assert(name.take(7)[0] != "x-milk-"@[0]);
    }
}

/// No header that reaches the client belongs to the gateway or to the provider's connection.
pub proof fn law_private_response_headers_stay(headers: Seq<HeaderView>, k: int)
    requires
        0 <= k < passing(Direction::Response, headers).len(),
    ensures
        ({
            let name = passing(Direction::Response, headers)[k].name;
            &&& !begins_with(name, "x-milk-"@)
            &&& !hop_by_hop(name)
            &&& response_header_allowed(name)
        }),
{
    let i = law_passing_headers_come_from_the_message(Direction::Response, headers, k);
}

/// Passing headers through twice changes nothing more.
pub proof fn law_passing_is_stable(direction: Direction, headers: Seq<HeaderView>)
    ensures
        passing(direction, passing(direction, headers)) == passing(direction, headers),
    decreases headers.len(),
{
    if headers.len() > 0 {
        law_passing_is_stable(direction, headers.drop_last());
        let once = passing(direction, headers);
        if passes(direction, headers.last().name) {
            lemma_lowered_twice(headers.last().name);
            assert(once.drop_last() =~= passing(direction, headers.drop_last()));
            assert(normalized(once.last()) == once.last());
        }
    }
}

/// The characters of every name that the lists of headers hold.
proof fn lemma_header_literals()
    ensures
        "connection"@.len() == 10 && "connection"@[0] == 'c' && "connection"@[3] == 'n',
        "keep-alive"@.len() == 10 && "keep-alive"@[0] == 'k',
        "proxy-authenticate"@[0] == 'p',
        "proxy-authorization"@[0] == 'p',
        "proxy-connection"@[0] == 'p',
        "te"@[0] == 't',
        "trailer"@[0] == 't',
        "transfer-encoding"@[0] == 't',
        "upgrade"@[0] == 'u' && "upgrade"@[1] == 'p',
        "x-milk-"@.len() == 7 && "x-milk-"@[0] == 'x' && "x-milk-"@[2] == 'm',
        "authorization"@.len() == 13 && "authorization"@[0] == 'a',
        "host"@[0] == 'h',
        "content-length"@.len() == 14 && "content-length"@[0] == 'c',
        "openai-organization"@.len() == 19 && "openai-organization"@[0] == 'o',
        "openai-project"@.len() == 14 && "openai-project"@[0] == 'o',
        "accept"@.len() == 6 && "accept"@[0] == 'a' && "accept"@[1] == 'c',
        "content-encoding"@.len() == 16 && "content-encoding"@[0] == 'c',
        "content-type"@.len() == 12 && "content-type"@[0] == 'c',
        "openai-beta"@.len() == 11 && "openai-beta"@[0] == 'o',
        "user-agent"@.len() == 10 && "user-agent"@[0] == 'u' && "user-agent"@[1] == 's',
        "x-client-request-id"@[0] == 'x' && "x-client-request-id"@[2] == 'c',
        "x-stainless-"@.len() == 12 && "x-stainless-"@[0] == 'x' && "x-stainless-"@[2] == 's',
        "cache-control"@.len() == 13 && "cache-control"@[0] == 'c',
        "etag"@.len() == 4 && "etag"@[0] == 'e',
        "retry-after"@[0] == 'r',
        "vary"@[0] == 'v',
        "www-authenticate"@[0] == 'w',
        "x-request-id"@[0] == 'x' && "x-request-id"@[2] == 'r',
        "x-should-retry"@[0] == 'x' && "x-should-retry"@[2] == 's',
        "openai-"@.len() == 7 && "openai-"@[0] == 'o',
        "x-openai-"@.len() == 9 && "x-openai-"@[0] == 'x' && "x-openai-"@[2] == 'o',
        "x-ratelimit-"@.len() == 12 && "x-ratelimit-"@[0] == 'x' && "x-ratelimit-"@[2] == 'r',
{
    reveal_strlit("connection");
    reveal_strlit("keep-alive");
    reveal_strlit("proxy-authenticate");
    reveal_strlit("proxy-authorization");
    reveal_strlit("proxy-connection");
    reveal_strlit("te");
    reveal_strlit("trailer");
    reveal_strlit("transfer-encoding");
    reveal_strlit("upgrade");
    reveal_strlit("x-milk-");
    reveal_strlit("authorization");
    reveal_strlit("host");
    reveal_strlit("content-length");
    reveal_strlit("openai-organization");
    reveal_strlit("openai-project");
    reveal_strlit("accept");
    reveal_strlit("content-encoding");
    reveal_strlit("content-type");
    reveal_strlit("openai-beta");
    reveal_strlit("user-agent");
    reveal_strlit("x-client-request-id");
    reveal_strlit("x-stainless-");
    reveal_strlit("cache-control");
    reveal_strlit("etag");
    reveal_strlit("retry-after");
    reveal_strlit("vary");
    reveal_strlit("www-authenticate");
    reveal_strlit("x-request-id");
    reveal_strlit("x-should-retry");
    reveal_strlit("openai-");
    reveal_strlit("x-openai-");
    reveal_strlit("x-ratelimit-");
}

/// The characters at the beginning of a text are those of a text that it begins with.
proof fn lemma_prefix_characters(text: Seq<char>, prefix: Seq<char>)
    requires
        begins_with(text, prefix),
    ensures
        text.len() >= prefix.len(),
        forall|i: int| 0 <= i < prefix.len() ==> #[trigger] text[i] == prefix[i],
{
    assert forall|i: int| 0 <= i < prefix.len() implies #[trigger] text[i] == prefix[i] by {
        assert(text.take(prefix.len() as int)[i] == prefix[i]);
    }
}

/// Which headers of a response pass: exactly those whose name, letters of either case, is on this
/// list or begins as one of these texts does. None of them belongs to a connection or to the
/// gateway.
pub proof fn law_which_response_headers_pass(name: Seq<char>)
    ensures
        passes(Direction::Response, name) <==> {
            let lower = lowered(name);
            ||| lower == "cache-control"@
            ||| lower == "content-encoding"@
            ||| lower == "content-length"@
            ||| lower == "content-type"@
            ||| lower == "etag"@
            ||| lower == "retry-after"@
            ||| lower == "vary"@
            ||| lower == "www-authenticate"@
            ||| lower == "x-request-id"@
            ||| lower == "x-should-retry"@
            ||| begins_with(lower, "openai-"@)
            ||| begins_with(lower, "x-openai-"@)
            ||| begins_with(lower, "x-ratelimit-"@)
        },
{
    lemma_header_literals();
    let lower = lowered(name);
    if begins_with(lower, "openai-"@) {
        lemma_prefix_characters(lower, "openai-"@);
    }
    if begins_with(lower, "x-openai-"@) {
        lemma_prefix_characters(lower, "x-openai-"@);
    }
    if begins_with(lower, "x-ratelimit-"@) {
        lemma_prefix_characters(lower, "x-ratelimit-"@);
    }
    if begins_with(lower, "x-milk-"@) {
        lemma_prefix_characters(lower, "x-milk-"@);
    }
}

/// Which headers of a request pass: exactly those whose name, letters of either case, is on this
/// list or begins with `x-stainless-`. None of them carries a credential, belongs to a connection or
/// to the gateway, or names an organisation or a project.
pub proof fn law_which_request_headers_pass(name: Seq<char>)
    ensures
        passes(Direction::Request, name) <==> {
            let lower = lowered(name);
            ||| lower == "accept"@
            ||| lower == "content-encoding"@
            ||| lower == "content-type"@
            ||| lower == "openai-beta"@
            ||| lower == "user-agent"@
            ||| lower == "x-client-request-id"@
            ||| begins_with(lower, "x-stainless-"@)
        },
        passes(Direction::Request, name) ==> {
            let lower = lowered(name);
            &&& lower != "authorization"@
            &&& lower != "host"@
            &&& lower != "content-length"@
            &&& lower != "openai-organization"@
            &&& lower != "openai-project"@
            &&& lower != "connection"@
            &&& lower != "transfer-encoding"@
            &&& !begins_with(lower, "x-milk-"@)
        },
{
    lemma_header_literals();
    let lower = lowered(name);
    if begins_with(lower, "x-stainless-"@) {
        lemma_prefix_characters(lower, "x-stainless-"@);
    }
    if begins_with(lower, "x-milk-"@) {
        lemma_prefix_characters(lower, "x-milk-"@);
    }
}

/// What passes of the first headers is the beginning of what passes of all.
proof fn lemma_passing_grows(direction: Direction, headers: Seq<HeaderView>, i: int)
    requires
        0 <= i <= headers.len(),
    ensures
        passing(direction, headers.take(i)).len() <= passing(direction, headers).len(),
        passing(direction, headers).take(passing(direction, headers.take(i)).len() as int)
            == passing(direction, headers.take(i)),
    decreases headers.len(),
{
    let part = passing(direction, headers.take(i));
    if i == headers.len() {
        assert(headers.take(i) =~= headers);
        assert(part.take(part.len() as int) =~= part);
    } else {
        let shorter = headers.drop_last();
        lemma_passing_grows(direction, shorter, i);
        assert(shorter.take(i) =~= headers.take(i));
        assert(passing(direction, headers).take(part.len() as int) =~= passing(
            direction,
            shorter,
        ).take(part.len() as int));
    }
}

/// A header that passes stands among those that are passed on, with its value, after all those that
/// come before it in the message and pass.
proof fn lemma_header_is_passed_on(direction: Direction, headers: Seq<HeaderView>, i: int)
    requires
        0 <= i < headers.len(),
        passes(direction, headers[i].name),
    ensures
        ({
            let k = passing(direction, headers.take(i)).len() as int;
            &&& k < passing(direction, headers).len()
            &&& passing(direction, headers)[k].name == lowered(headers[i].name)
            &&& passing(direction, headers)[k].value == headers[i].value
        }),
{
    let upto = headers.take(i + 1);
    assert(upto.drop_last() =~= headers.take(i));
    assert(upto.last() == headers[i]);
    let part = passing(direction, upto);
    lemma_passing_grows(direction, headers, i + 1);
    let k = passing(direction, headers.take(i)).len() as int;
    assert(passing(direction, headers).take(part.len() as int)[k] == part[k]);
}

/// Every header of a response that may pass goes to the client, its value unchanged, and the headers
/// keep their order: the one at `i` comes before the one at `j` where it came before it.
pub proof fn law_response_headers_reach_the_client(headers: Seq<HeaderView>, i: int, j: int) -> (at: (
    int,
    int,
))
    requires
        0 <= i < j < headers.len(),
        forall|k: int|
            #![trigger headers[k]]
            k == i || k == j ==> {
                let lower = lowered(headers[k].name);
                ||| lower == "cache-control"@
                ||| lower == "content-encoding"@
                ||| lower == "content-length"@
                ||| lower == "content-type"@
                ||| lower == "etag"@
                ||| lower == "retry-after"@
                ||| lower == "vary"@
                ||| lower == "www-authenticate"@
                ||| lower == "x-request-id"@
                ||| lower == "x-should-retry"@
                ||| begins_with(lower, "openai-"@)
                ||| begins_with(lower, "x-openai-"@)
                ||| begins_with(lower, "x-ratelimit-"@)
            },
    ensures
        ({
            let passed = passing(Direction::Response, headers);
            &&& 0 <= at.0 < at.1 < passed.len()
            &&& passed[at.0].name == lowered(headers[i].name)
            &&& passed[at.0].value == headers[i].value
            &&& passed[at.1].name == lowered(headers[j].name)
            &&& passed[at.1].value == headers[j].value
        }),
{
    law_which_response_headers_pass(headers[i].name);
    law_which_response_headers_pass(headers[j].name);
    lemma_header_is_passed_on(Direction::Response, headers, i);
    lemma_header_is_passed_on(Direction::Response, headers, j);
    let earlier = headers.take(j);
    assert(earlier.take(i) =~= headers.take(i));
    assert(earlier[i] == headers[i]);
    lemma_header_is_passed_on(Direction::Response, earlier, i);
    (
        passing(Direction::Response, headers.take(i)).len() as int,
        passing(Direction::Response, headers.take(j)).len() as int,
    )
}

/// Every header of a request that may pass goes to the provider, its value unchanged, and the
/// headers keep their order: the one at `i` comes before the one at `j` where it came before it.
pub proof fn law_request_headers_reach_the_provider(headers: Seq<HeaderView>, i: int, j: int) -> (
at: (int, int))
    requires
        0 <= i < j < headers.len(),
        forall|k: int|
            #![trigger headers[k]]
            k == i || k == j ==> {
                let lower = lowered(headers[k].name);
                ||| lower == "accept"@
                ||| lower == "content-encoding"@
                ||| lower == "content-type"@
                ||| lower == "openai-beta"@
                ||| lower == "user-agent"@
                ||| lower == "x-client-request-id"@
                ||| begins_with(lower, "x-stainless-"@)
            },
    ensures
        ({
            let passed = passing(Direction::Request, headers);
            &&& 0 <= at.0 < at.1 < passed.len()
            &&& passed[at.0].name == lowered(headers[i].name)
            &&& passed[at.0].value == headers[i].value
            &&& passed[at.1].name == lowered(headers[j].name)
            &&& passed[at.1].value == headers[j].value
        }),
{
    law_which_request_headers_pass(headers[i].name);
    law_which_request_headers_pass(headers[j].name);
    lemma_header_is_passed_on(Direction::Request, headers, i);
    lemma_header_is_passed_on(Direction::Request, headers, j);
    let earlier = headers.take(j);
    assert(earlier.take(i) =~= headers.take(i));
    assert(earlier[i] == headers[i]);
    lemma_header_is_passed_on(Direction::Request, earlier, i);
    (
        passing(Direction::Request, headers.take(i)).len() as int,
        passing(Direction::Request, headers.take(j)).len() as int,
    )
}

/// A message is passed on header by header: one more header adds itself, its name in small letters,
/// where it may pass, and nothing where it may not; of no header nothing is passed on.
pub proof fn law_headers_pass_one_by_one(
    direction: Direction,
    headers: Seq<HeaderView>,
    header: HeaderView,
)
    ensures
        passing(direction, Seq::empty()) == Seq::<HeaderView>::empty(),
        passes(direction, header.name) ==> passing(direction, headers.push(header)) == passing(
            direction,
            headers,
        ).push(HeaderView { name: lowered(header.name), value: header.value }),
        !passes(direction, header.name) ==> passing(direction, headers.push(header)) == passing(
            direction,
            headers,
        ),
{
    assert(headers.push(header).drop_last() =~= headers);
}

/// Providers are asked for uncompressed responses, whatever the client asked for.
pub proof fn law_providers_are_asked_for_plain_responses(headers: Seq<HeaderView>)
    ensures
        ({
            let sent = passing(Direction::Request, headers).push(identity_encoding());
            &&& sent.last().name == "accept-encoding"@
            &&& sent.last().value == encode_utf8("identity"@)
            &&& forall|k: int|
                0 <= k < sent.len() - 1 ==> (#[trigger] sent[k]).name != "accept-encoding"@
        }),
{
    lemma_header_literals();
    reveal_strlit("accept-encoding");
    let sent = passing(Direction::Request, headers).push(identity_encoding());
    assert forall|k: int| 0 <= k < sent.len() - 1 implies (#[trigger] sent[k]).name
        != "accept-encoding"@ by {
        let i = law_passing_headers_come_from_the_message(Direction::Request, headers, k);
        law_which_request_headers_pass(headers[i].name);
        let lower = lowered(headers[i].name);
        if begins_with(lower, "x-stainless-"@) {
            lemma_prefix_characters(lower, "x-stainless-"@);
        }
        assert("accept-encoding"@.len() == 15 && "accept-encoding"@[0] == 'a');
    }
}

/// The values of headers: none where no header has the name, and the first is that of the first
/// header with the name; there are several exactly where a later one has the name too.
proof fn lemma_values_of(headers: Seq<HeaderView>, name: Seq<char>, i: int)
    requires
        0 <= i < headers.len(),
        lowered(headers[i].name) == name,
        forall|k: int| 0 <= k < i ==> lowered((#[trigger] headers[k]).name) != name,
    ensures
        values_of(headers, name).len() > 0,
        values_of(headers, name)[0] == headers[i].value,
        values_of(headers, name).len() > 1 <==> exists|k: int|
            i < k < headers.len() && lowered((#[trigger] headers[k]).name) == name,
    decreases headers.len(),
{
    let shorter = headers.drop_last();
    if i == headers.len() - 1 {
        lemma_no_values(shorter, name);
    } else {
        assert(shorter[i] == headers[i]);
        lemma_values_of(shorter, name, i);
        if exists|k: int| i < k < shorter.len() && lowered((#[trigger] shorter[k]).name) == name {
            let k = choose|k: int|
                i < k < shorter.len() && lowered((#[trigger] shorter[k]).name) == name;
            assert(lowered(headers[k].name) == name);
        }
        if lowered(headers.last().name) == name {
            assert(lowered(headers[headers.len() - 1].name) == name);
        } else if exists|k: int|
            i < k < headers.len() && lowered((#[trigger] headers[k]).name) == name {
            let k = choose|k: int|
                i < k < headers.len() && lowered((#[trigger] headers[k]).name) == name;
            assert(lowered(shorter[k].name) == name);
        }
    }
}

/// Where no header has a name there are no values of it.
proof fn lemma_no_values(headers: Seq<HeaderView>, name: Seq<char>)
    requires
        forall|k: int| 0 <= k < headers.len() ==> lowered((#[trigger] headers[k]).name) != name,
    ensures
        values_of(headers, name).len() == 0,
    decreases headers.len(),
{
    if headers.len() > 0 {
        let shorter = headers.drop_last();
        assert forall|k: int| 0 <= k < shorter.len() implies lowered((#[trigger] shorter[k]).name)
            != name by {
            assert(shorter[k] == headers[k]);
        }
        lemma_no_values(shorter, name);
        assert(lowered(headers[headers.len() - 1].name) != name);
    }
}

/// Where there are values of a name, one header has it first.
proof fn lemma_first_with_name(headers: Seq<HeaderView>, name: Seq<char>) -> (i: int)
    requires
        values_of(headers, name).len() > 0,
    ensures
        0 <= i < headers.len(),
        lowered(headers[i].name) == name,
        forall|k: int| 0 <= k < i ==> lowered((#[trigger] headers[k]).name) != name,
    decreases headers.len(),
{
    let shorter = headers.drop_last();
    if values_of(shorter, name).len() > 0 {
        let i = lemma_first_with_name(shorter, name);
        assert forall|k: int| 0 <= k < i implies lowered((#[trigger] headers[k]).name) != name by {
            assert(shorter[k] == headers[k]);
        }
        i
    } else {
        let i = headers.len() - 1;
        assert forall|k: int| 0 <= k < i implies lowered((#[trigger] headers[k]).name) != name by {
            if lowered(headers[k].name) == name {
                assert(shorter[k] == headers[k]);
                let first = lemma_first_index(shorter, name, k);
                lemma_values_of(shorter, name, first);
            }
        }
        i
    }
}

/// Of the headers with a name one comes first.
proof fn lemma_first_index(headers: Seq<HeaderView>, name: Seq<char>, k: int) -> (i: int)
    requires
        0 <= k < headers.len(),
        lowered(headers[k].name) == name,
    ensures
        0 <= i <= k,
        lowered(headers[i].name) == name,
        forall|j: int| 0 <= j < i ==> lowered((#[trigger] headers[j]).name) != name,
    decreases k,
{
    if exists|j: int| 0 <= j < k && lowered((#[trigger] headers[j]).name) == name {
        let j = choose|j: int| 0 <= j < k && lowered((#[trigger] headers[j]).name) == name;
        lemma_first_index(headers, name, j)
    } else {
        k
    }
}

/// The text of a value is its bytes, one character each, where they are spaces, tabulators and
/// visible ASCII alone, and there is none where they are not.
pub proof fn law_values_are_read_byte_by_byte(value: Seq<u8>, i: int)
    requires
        0 <= i < value.len(),
    ensures
        visible_text_of(value) matches Some(text) ==> text.len() == value.len() && text[i] as int
            == value[i],
        !(32 <= value[i] <= 126 || value[i] == 9) ==> visible_text_of(value) is None,
        visible_text_of(value) is None ==> exists|k: int|
            0 <= k < value.len() && !(32 <= #[trigger] value[k] <= 126 || value[k] == 9),
{
    if !(32 <= value[i] <= 126 || value[i] == 9) {
        assert(!is_visible(value[i]));
    }
    if visible_text_of(value) is None {
        let k = choose|k: int| 0 <= k < value.len() && !is_visible(#[trigger] value[k]);
        assert(!(32 <= value[k] <= 126 || value[k] == 9));
    }
}

/// The trajectory of a request: none where no header is named `x-milk-trajectory-id`, in letters of
/// either case; an error where two are; and where one is, the UUID that its value stands for, but an
/// error where that is zero or the value stands for none.
pub proof fn law_a_request_names_its_trajectory(headers: Seq<HeaderView>, i: int)
    ensures
        (forall|k: int|
            0 <= k < headers.len() ==> lowered((#[trigger] headers[k]).name)
                != "x-milk-trajectory-id"@) ==> trajectory_of(headers) == Ok::<
            Option<Uuid>,
            HeaderError,
        >(None),
        0 <= i < headers.len() && lowered(headers[i].name) == "x-milk-trajectory-id"@ && (exists|k: int|
            0 <= k < headers.len() && k != i && lowered((#[trigger] headers[k]).name)
                == "x-milk-trajectory-id"@) ==> trajectory_of(headers) == Err::<
            Option<Uuid>,
            HeaderError,
        >(HeaderError::TrajectoryRepeated),
        0 <= i < headers.len() && lowered(headers[i].name) == "x-milk-trajectory-id"@ && (forall|k: int|
            0 <= k < headers.len() && k != i ==> lowered((#[trigger] headers[k]).name)
                != "x-milk-trajectory-id"@) ==> match visible_text_of(headers[i].value) {
            None => trajectory_of(headers) == Err::<Option<Uuid>, HeaderError>(
                HeaderError::TrajectoryNotAscii,
            ),
            Some(text) => match Uuid::of_text(text) {
                None => trajectory_of(headers) == Err::<Option<Uuid>, HeaderError>(
                    HeaderError::TrajectoryNotUuid,
                ),
                Some(uuid) => trajectory_of(headers) == if uuid.value == 0 {
                    Err::<Option<Uuid>, HeaderError>(HeaderError::TrajectoryNil)
                } else {
                    Ok(Some(uuid))
                },
            },
        },
{
    let name = "x-milk-trajectory-id"@;
    if forall|k: int| 0 <= k < headers.len() ==> lowered((#[trigger] headers[k]).name) != name {
        lemma_no_values(headers, name);
    }
    if 0 <= i < headers.len() && lowered(headers[i].name) == name {
        let first = lemma_first_index(headers, name, i);
        lemma_values_of(headers, name, first);
        if exists|k: int|
            0 <= k < headers.len() && k != i && lowered((#[trigger] headers[k]).name) == name {
            let k = choose|k: int|
                0 <= k < headers.len() && k != i && lowered((#[trigger] headers[k]).name) == name;
            if first < i {
                assert(lowered(headers[i].name) == name);
            } else {
                assert(first < k);
            }
        }
    }
}

/// Of a row of names, the captured headers hold each whose first value is visible.
proof fn lemma_selected_holds(headers: Seq<HeaderView>, names: Seq<Seq<char>>, j: int)
    requires
        0 <= j < names.len(),
        values_of(headers, names[j]).len() > 0,
        visible_text_of(values_of(headers, names[j])[0]) is Some,
    ensures
        selected(headers, names).contains(
            (names[j], visible_text_of(values_of(headers, names[j])[0])->Some_0),
        ),
    decreases names.len(),
{
    let all = selected(headers, names);
    let part = selected(headers, names.drop_last());
    if j == names.len() - 1 {
        assert(all[all.len() - 1] == (
            names[j],
            visible_text_of(values_of(headers, names[j])[0])->Some_0,
        ));
    } else {
        assert(names.drop_last()[j] == names[j]);
        lemma_selected_holds(headers, names.drop_last(), j);
        let wanted = (names[j], visible_text_of(values_of(headers, names[j])[0])->Some_0);
        let k = choose|k: int| 0 <= k < part.len() && part[k] == wanted;
        assert(all[k] == wanted);
    }
}

/// Each captured header is one of the names with its first value.
proof fn lemma_selected_only(headers: Seq<HeaderView>, names: Seq<Seq<char>>, k: int) -> (j: int)
    requires
        0 <= k < selected(headers, names).len(),
    ensures
        0 <= j < names.len(),
        values_of(headers, names[j]).len() > 0,
        visible_text_of(values_of(headers, names[j])[0]) is Some,
        selected(headers, names)[k] == (
            names[j],
            visible_text_of(values_of(headers, names[j])[0])->Some_0,
        ),
    decreases names.len(),
{
    if k < selected(headers, names.drop_last()).len() {
        lemma_selected_only(headers, names.drop_last(), k)
    } else {
        names.len() - 1
    }
}

/// A capture keeps, of these headers of a request, the first value of each that is visible text.
pub proof fn law_captured_request_headers(headers: Seq<HeaderView>, name: Seq<char>, i: int)
    requires
        name == "accept"@ || name == "content-encoding"@ || name == "content-type"@ || name
            == "openai-beta"@,
        0 <= i < headers.len(),
        lowered(headers[i].name) == name,
        forall|k: int| 0 <= k < i ==> lowered((#[trigger] headers[k]).name) != name,
        visible_text_of(headers[i].value) is Some,
    ensures
        selected(headers, captured_request_names()).contains(
            (name, visible_text_of(headers[i].value)->Some_0),
        ),
{
    lemma_values_of(headers, name, i);
    let names = captured_request_names();
    let j = if name == "accept"@ {
        0
    } else if name == "content-encoding"@ {
        1
    } else if name == "content-type"@ {
        2
    } else {
        3int
    };
    assert(names[j] == name);
    lemma_selected_holds(headers, names, j);
}

/// A capture keeps, of these headers of a response, the first value of each that is visible text.
pub proof fn law_captured_response_headers(headers: Seq<HeaderView>, name: Seq<char>, i: int)
    requires
        name == "content-encoding"@ || name == "content-type"@ || name == "openai-request-id"@
            || name == "x-request-id"@,
        0 <= i < headers.len(),
        lowered(headers[i].name) == name,
        forall|k: int| 0 <= k < i ==> lowered((#[trigger] headers[k]).name) != name,
        visible_text_of(headers[i].value) is Some,
    ensures
        selected(headers, captured_response_names()).contains(
            (name, visible_text_of(headers[i].value)->Some_0),
        ),
{
    lemma_values_of(headers, name, i);
    let names = captured_response_names();
    let j = if name == "content-encoding"@ {
        0
    } else if name == "content-type"@ {
        1
    } else if name == "openai-request-id"@ {
        2
    } else {
        3int
    };
    assert(names[j] == name);
    lemma_selected_holds(headers, names, j);
}

/// A capture keeps no other headers of a request or a response: no key, no cookie, no header that is
/// not on these lists, and of each name one value, the first of the message.
pub proof fn law_no_other_header_is_captured(headers: Seq<HeaderView>, k: int)
    ensures
        0 <= k < selected(headers, captured_request_names()).len() ==> {
            let kept = selected(headers, captured_request_names())[k];
            &&& kept.0 == "accept"@ || kept.0 == "content-encoding"@ || kept.0 == "content-type"@
                || kept.0 == "openai-beta"@
            &&& exists|i: int|
                0 <= i < headers.len() && lowered((#[trigger] headers[i]).name) == kept.0
                    && visible_text_of(headers[i].value) == Some(kept.1)
        },
        0 <= k < selected(headers, captured_response_names()).len() ==> {
            let kept = selected(headers, captured_response_names())[k];
            &&& kept.0 == "content-encoding"@ || kept.0 == "content-type"@ || kept.0
                == "openai-request-id"@ || kept.0 == "x-request-id"@
            &&& exists|i: int|
                0 <= i < headers.len() && lowered((#[trigger] headers[i]).name) == kept.0
                    && visible_text_of(headers[i].value) == Some(kept.1)
        },
{
    if 0 <= k < selected(headers, captured_request_names()).len() {
        let j = lemma_selected_only(headers, captured_request_names(), k);
        let i = lemma_first_with_name(headers, captured_request_names()[j]);
        lemma_values_of(headers, captured_request_names()[j], i);
        assert(j == 0 || j == 1 || j == 2 || j == 3);
    }
    if 0 <= k < selected(headers, captured_response_names()).len() {
        let j = lemma_selected_only(headers, captured_response_names(), k);
        let i = lemma_first_with_name(headers, captured_response_names()[j]);
        lemma_values_of(headers, captured_response_names()[j], i);
        assert(j == 0 || j == 1 || j == 2 || j == 3);
    }
}

/// Headers are seen whole, each with its name and its value, in their order.
pub proof fn law_headers_are_seen_whole(headers: Seq<Header>, kept: Seq<TextHeader>, i: int)
    ensures
        header_views(headers).len() == headers.len(),
        text_header_views(kept).len() == kept.len(),
        0 <= i < headers.len() ==> header_views(headers)[i].name == headers[i].name@
            && header_views(headers)[i].value == headers[i].value@,
        0 <= i < kept.len() ==> text_header_views(kept)[i] == (kept[i].name@, kept[i].value@),
{
}

} // verus!
