//! Requests to an S3 service, signed with version 4 of its scheme.

use vstd::prelude::*;
use vstd::utf8::encode_utf8;

use crate::boundary::hmac_sha256;
use crate::boundary::hmac_sha256_of;
use crate::boundary::optional_text;
use crate::boundary::sha256;
use crate::boundary::sha256_of;
use crate::boundary::url_parse;
use crate::boundary::url_read;
use crate::boundary::utc_clock;
use crate::boundary::UrlParts;
use crate::boundary::UrlView;
use crate::boundary::UtcTime;
use crate::digest::digest_text;
use crate::digest::sha256_hex;
use crate::headers::text_header_views;
use crate::headers::TextHeader;
use crate::store::valid_key;
use crate::store::validate_key;
use crate::store::StoreError;
use crate::text::chars_of;
use crate::text::collapse_whitespace;
use crate::text::collapsed;
use crate::text::decimal;
use crate::text::decimal_text;
use crate::text::digits_value;
use crate::text::hex;
use crate::text::hex_text;
use crate::text::is_white;
use crate::text::law_padded_numbers_read_back;
use crate::text::law_padding_keeps_the_number;
use crate::text::lemma_encoding_determines_text;
use crate::text::lowered;
use crate::text::padded;
use crate::text::padded_text;
use crate::text::same_text;
use crate::text::to_ascii_lowercase;

verus! {

/// A byte that stands for itself in a canonical URI.
pub open spec fn is_unreserved(b: u8) -> bool {
    ||| 0x30 <= b <= 0x39
    ||| 0x41 <= b <= 0x5a
    ||| 0x61 <= b <= 0x7a
    ||| b == 0x2d
    ||| b == 0x5f
    ||| b == 0x2e
    ||| b == 0x7e
}

/// A hexadecimal digit with capital letters.
pub open spec fn capital_digit(n: int) -> char {
    if n < 10 {
        (n + 48) as char
    } else {
        (n + 55) as char
    }
}

/// A byte in a canonical URI: itself, or a percent sign and two digits.
pub open spec fn aws_byte(b: u8) -> Seq<char> {
    if is_unreserved(b) {
        seq![b as char]
    } else {
        seq!['%', capital_digit(b as int / 16), capital_digit(b as int % 16)]
    }
}

/// A byte in a canonical URI; a slash stays where `slashes` says so.
pub open spec fn aws_code(b: u8, slashes: bool) -> Seq<char> {
    if slashes && b == 0x2f {
        seq!['/']
    } else {
        aws_byte(b)
    }
}

/// Bytes in a canonical URI, one after the other; slashes stay where `slashes` says so.
pub open spec fn aws_bytes(bytes: Seq<u8>, slashes: bool) -> Seq<char>
    decreases bytes.len(),
{
    if bytes.len() == 0 {
        Seq::empty()
    } else {
        aws_bytes(bytes.drop_last(), slashes) + aws_code(bytes.last(), slashes)
    }
}

/// The character of a hexadecimal digit with capital letters.
fn capital_digit_char(n: u8) -> (result: char)
    requires
        n < 16,
    ensures
        result == capital_digit(n as int),
{
    if n < 10 {
        (n + 48u8) as char
    } else {
        (n + 55u8) as char
    }
}

/// Encodes bytes for a canonical URI.
fn aws_encode_bytes(bytes: &[u8], slashes: bool) -> (result: String)
    ensures
        result@ == aws_bytes(bytes@, slashes),
{
    let mut result = String::new();
    assert(bytes@.take(0) =~= Seq::empty());
    for i in 0..bytes.len()
        invariant
            result@ == aws_bytes(bytes@.take(i as int), slashes),
    {
        let ghost before = result@;
        let byte: u8 = bytes[i];
        assert(bytes@.take(i + 1).drop_last() =~= bytes@.take(i as int));
        if slashes && byte == 0x2f {
            result.push('/');
            assert(result@ =~= before + seq!['/']);
        } else if (0x30 <= byte && byte <= 0x39) || (0x41 <= byte && byte <= 0x5a) || (0x61 <= byte
            && byte <= 0x7a) || byte == 0x2d || byte == 0x5f || byte == 0x2e || byte == 0x7e {
            result.push(byte as char);
            assert(result@ =~= before + aws_byte(byte));
        } else {
            result.push('%');
            result.push(capital_digit_char(byte / 16));
            result.push(capital_digit_char(byte % 16));
            assert(result@ =~= before + aws_byte(byte));
        }
    }
    assert(bytes@.take(bytes@.len() as int) =~= bytes@);
    result
}

/// Encodes a text for a canonical URI.
pub fn aws_encode(value: &str) -> (result: String)
    ensures
        result@ == aws_bytes(encode_utf8(value@), false),
{
    aws_encode_bytes(value.as_bytes(), false)
}

/// Encodes a path for a canonical URI, segment by segment.
pub fn aws_encode_path(value: &str) -> (result: String)
    ensures
        result@ == aws_bytes(encode_utf8(value@), true),
{
    aws_encode_bytes(value.as_bytes(), true)
}

/// The text `a` comes before the text `b`, character by character.
pub open spec fn comes_before(a: Seq<char>, b: Seq<char>) -> bool
    decreases a.len(),
{
    if b.len() == 0 {
        false
    } else if a.len() == 0 {
        true
    } else if a[0] != b[0] {
        a[0] < b[0]
    } else {
        comes_before(a.skip(1), b.skip(1))
    }
}

/// Whether the text `a` comes before the text `b`.
pub fn text_before(a: &str, b: &str) -> (result: bool)
    ensures
        result == comes_before(a@, b@),
{
    let x = chars_of(a);
    let y = chars_of(b);
    let mut i: usize = 0;
    assert(x@.skip(0) =~= a@ && y@.skip(0) =~= b@);
    while i < x.len() && i < y.len() && x[i] == y[i]
        invariant
            x@ == a@,
            y@ == b@,
            i <= x@.len(),
            i <= y@.len(),
            comes_before(a@, b@) == comes_before(x@.skip(i as int), y@.skip(i as int)),
        decreases x@.len() - i,
    {
        assert(x@.skip(i as int).skip(1) =~= x@.skip(i + 1));
        assert(y@.skip(i as int).skip(1) =~= y@.skip(i + 1));
        i = i + 1;
    }
    if i == y.len() {
        false
    } else if i == x.len() {
        true
    } else {
        x[i] < y[i]
    }
}

/// The fields with one more at its place in the order of the names.
pub open spec fn inserted(
    fields: Seq<(Seq<char>, Seq<char>)>,
    name: Seq<char>,
    value: Seq<char>,
) -> Seq<(Seq<char>, Seq<char>)>
    decreases fields.len(),
{
    if fields.len() > 0 && comes_before(name, fields.last().0) {
        inserted(fields.drop_last(), name, value).push(fields.last())
    } else {
        fields.push((name, value))
    }
}

/// One of the fields has this name.
pub open spec fn has_field(fields: Seq<(Seq<char>, Seq<char>)>, name: Seq<char>) -> bool {
    exists|i: int| 0 <= i < fields.len() && (#[trigger] fields[i]).0 == name
}

/// Puts a field at its place in the order of the names.
fn insert_field(fields: &mut Vec<TextHeader>, name: String, value: String)
    ensures
        text_header_views(final(fields)@) == inserted(
            text_header_views(old(fields)@),
            name@,
            value@,
        ),
{
    let ghost views = text_header_views(fields@);
    let mut at: usize = fields.len();
    assert(views.take(at as int) =~= views);
    assert(views.skip(at as int) =~= Seq::empty());
    assert(inserted(views, name@, value@) + Seq::empty() =~= inserted(views, name@, value@));
    while at > 0 && text_before(name.as_str(), fields[at - 1].name.as_str())
        invariant
            views == text_header_views(fields@),
            at <= fields@.len(),
            inserted(views, name@, value@) == inserted(views.take(at as int), name@, value@)
                + views.skip(at as int),
        decreases at,
    {
        assert(views.take(at as int).last() == fields@[at - 1]@);
        assert(views.take(at as int).drop_last() =~= views.take(at - 1));
        assert(inserted(views.take(at as int), name@, value@) == inserted(
            views.take(at - 1),
            name@,
            value@,
        ).push(views[at - 1]));
        assert(inserted(views.take(at - 1), name@, value@).push(views[at - 1]) + views.skip(
            at as int,
        ) =~= inserted(views.take(at - 1), name@, value@) + views.skip(at - 1));
        at = at - 1;
    }
    proof {
        if at > 0 {
            assert(views.take(at as int).last() == fields@[at - 1]@);
        }
        assert(inserted(views.take(at as int), name@, value@) == views.take(at as int).push(
            (name@, value@),
        ));
    }
    fields.insert(at, TextHeader { name, value });
    assert(text_header_views(fields@) =~= views.take(at as int).push((name@, value@)) + views.skip(
        at as int,
    ));
}

/// Whether one of the fields has this name.
fn field_named(fields: &Vec<TextHeader>, name: &str) -> (result: bool)
    ensures
        result == has_field(text_header_views(fields@), name@),
{
    let ghost views = text_header_views(fields@);
    for i in 0..fields.len()
        invariant
            views == text_header_views(fields@),
            forall|k: int| 0 <= k < i ==> (#[trigger] views[k]).0 != name@,
    {
        assert(views[i as int] == fields@[i as int]@);
        if same_text(fields[i].name.as_str(), name) {
            return true;
        }
    }
    false
}

/// Each field on a line of its own, its name and its value with a colon between them.
pub open spec fn field_lines(fields: Seq<(Seq<char>, Seq<char>)>) -> Seq<char>
    decreases fields.len(),
{
    if fields.len() == 0 {
        Seq::empty()
    } else {
        field_lines(fields.drop_last()) + fields.last().0 + seq![':'] + fields.last().1 + seq!['\n']
    }
}

/// The names of the fields with a semicolon between each two.
pub open spec fn field_names(fields: Seq<(Seq<char>, Seq<char>)>) -> Seq<char>
    decreases fields.len(),
{
    if fields.len() == 0 {
        Seq::empty()
    } else if fields.len() == 1 {
        fields[0].0
    } else {
        field_names(fields.drop_last()) + seq![';'] + fields.last().0
    }
}

/// Writes each field on a line of its own.
fn write_lines(fields: &Vec<TextHeader>) -> (result: String)
    ensures
        result@ == field_lines(text_header_views(fields@)),
{
    let ghost views = text_header_views(fields@);
    let mut result = String::new();
    assert(views.take(0) =~= Seq::empty());
    for i in 0..fields.len()
        invariant
            views == text_header_views(fields@),
            result@ == field_lines(views.take(i as int)),
    {
        let ghost before = result@;
        assert(views.take(i + 1).drop_last() =~= views.take(i as int));
        result.append(fields[i].name.as_str());
        result.push(':');
        result.append(fields[i].value.as_str());
        result.push('\n');
        assert(result@ =~= before + views[i as int].0 + seq![':'] + views[i as int].1 + seq!['\n']);
    }
    assert(views.take(views.len() as int) =~= views);
    result
}

/// Writes the names of the fields.
fn write_names(fields: &Vec<TextHeader>) -> (result: String)
    ensures
        result@ == field_names(text_header_views(fields@)),
{
    let ghost views = text_header_views(fields@);
    let mut result = String::new();
    assert(views.take(0) =~= Seq::empty());
    for i in 0..fields.len()
        invariant
            views == text_header_views(fields@),
            result@ == field_names(views.take(i as int)),
    {
        let ghost before = result@;
        assert(views.take(i + 1).drop_last() =~= views.take(i as int));
        if i > 0 {
            result.push(';');
        }
        result.append(fields[i].name.as_str());
        proof {
            if i == 0 {
                assert(views.take(1)[0] == views[0]);
                assert(result@ =~= views[0].0);
            } else {
                assert(result@ =~= before + seq![';'] + views[i as int].0);
            }
        }
    }
    assert(views.take(views.len() as int) =~= views);
    result
}

/// The fields with the extra headers among them: lowercase names, one space between the words of
/// a value. None where a name or a value is empty or a name stands twice.
pub open spec fn with_extras(
    fields: Seq<(Seq<char>, Seq<char>)>,
    extras: Seq<(Seq<char>, Seq<char>)>,
) -> Option<Seq<(Seq<char>, Seq<char>)>>
    decreases extras.len(),
{
    if extras.len() == 0 {
        Some(fields)
    } else {
        match with_extras(fields, extras.drop_last()) {
            None => None,
            Some(before) => {
                let name = lowered(extras.last().0);
                let value = collapsed(extras.last().1);
                if name.len() == 0 || value.len() == 0 || has_field(before, name) {
                    None
                } else {
                    Some(inserted(before, name, value))
                }
            },
        }
    }
}

/// The texts of a row of pairs.
pub open spec fn pair_views(pairs: Seq<(&str, &str)>) -> Seq<(Seq<char>, Seq<char>)> {
    Seq::new(pairs.len(), |i: int| (pairs[i].0@, pairs[i].1@))
}

/// A longer row of extra headers is refused where a shorter one is.
proof fn lemma_extras_stay_refused(
    fields: Seq<(Seq<char>, Seq<char>)>,
    extras: Seq<(Seq<char>, Seq<char>)>,
    count: int,
)
    requires
        0 <= count <= extras.len(),
        with_extras(fields, extras.take(count)) is None,
    ensures
        with_extras(fields, extras) is None,
    decreases extras.len(),
{
    if count == extras.len() {
        assert(extras.take(count) =~= extras);
    } else {
        assert(extras.drop_last().take(count) =~= extras.take(count));
        lemma_extras_stay_refused(fields, extras.drop_last(), count);
    }
}

/// Adds the extra headers to the fields.
fn add_extras(fields: &mut Vec<TextHeader>, extras: &[(&str, &str)]) -> (result: bool)
    ensures
        match with_extras(text_header_views(old(fields)@), pair_views(extras@)) {
            Some(all) => result && text_header_views(final(fields)@) == all,
            None => !result,
        },
{
    let ghost first = text_header_views(fields@);
    let ghost wanted = pair_views(extras@);
    assert(wanted.take(0) =~= Seq::empty());
    for i in 0..extras.len()
        invariant
            first == text_header_views(old(fields)@),
            wanted == pair_views(extras@),
            with_extras(first, wanted.take(i as int)) == Some(text_header_views(fields@)),
    {
        assert(wanted.take(i + 1).drop_last() =~= wanted.take(i as int));
        let name = to_ascii_lowercase(extras[i].0);
        let value = collapse_whitespace(extras[i].1);
        if name.as_str().is_empty() || value.as_str().is_empty() || field_named(
            fields,
            name.as_str(),
        ) {
            proof {
                lemma_extras_stay_refused(first, wanted, i + 1);
            }
            return false;
        }
        insert_field(fields, name, value);
    }
    assert(wanted.take(wanted.len() as int) =~= wanted);
    true
}

/// A year in at least four characters.
pub open spec fn year_text(year: int) -> Seq<char> {
    if year < 0 {
        seq!['-'] + padded((-year) as nat, 3)
    } else {
        padded(year as nat, 4)
    }
}

/// The date of a moment: year, month and day.
pub open spec fn date_text(now: UtcTime) -> Seq<char> {
    year_text(now.year as int) + padded(now.month as nat, 2) + padded(now.day as nat, 2)
}

/// The date and the time of a moment.
pub open spec fn moment_text(now: UtcTime) -> Seq<char> {
    date_text(now) + seq!['T'] + padded(now.hour as nat, 2) + padded(now.minute as nat, 2) + padded(
        now.second as nat,
        2,
    ) + seq!['Z']
}

/// Writes the date of a moment.
fn write_date(now: &UtcTime) -> (result: String)
    requires
        now.well_formed(),
    ensures
        result@ == date_text(*now),
{
    let mut result = String::new();
    if now.year < 0 {
        result.push('-');
        let positive: u64 = (-(now.year as i64)) as u64;
        result.append(padded_text(positive, 3).as_str());
    } else {
        result.append(padded_text(now.year as u64, 4).as_str());
    }
    assert(result@ =~= year_text(now.year as int));
    result.append(padded_text(now.month as u64, 2).as_str());
    result.append(padded_text(now.day as u64, 2).as_str());
    result
}

/// Writes the date and the time of a moment.
fn write_moment(now: &UtcTime) -> (result: String)
    requires
        now.well_formed(),
    ensures
        result@ == moment_text(*now),
{
    let mut result = write_date(now);
    result.push('T');
    result.append(padded_text(now.hour as u64, 2).as_str());
    result.append(padded_text(now.minute as u64, 2).as_str());
    result.append(padded_text(now.second as u64, 2).as_str());
    result.push('Z');
    assert(result@ =~= moment_text(*now));
    result
}

/// A store in a bucket of an S3 service.
pub struct S3Store {
    pub endpoint: UrlParts,
    pub region: String,
    pub bucket: String,
    /// The bucket stands in the path, not in the host name.
    pub path_style: bool,
    pub access_key_id: String,
    pub secret_access_key: String,
    pub session_token: Option<String>,
    pub timeout_seconds: u64,
}

/// A store in a bucket of an S3 service, as texts.
pub struct S3View {
    pub endpoint: UrlView,
    pub region: Seq<char>,
    pub bucket: Seq<char>,
    pub path_style: bool,
    pub access_key_id: Seq<char>,
    pub secret_access_key: Seq<char>,
    pub session_token: Option<Seq<char>>,
    pub timeout_seconds: u64,
}

impl View for S3Store {
    type V = S3View;

    open spec fn view(&self) -> S3View {
        S3View {
            endpoint: self.endpoint@,
            region: self.region@,
            bucket: self.bucket@,
            path_style: self.path_style,
            access_key_id: self.access_key_id@,
            secret_access_key: self.secret_access_key@,
            session_token: optional_text(self.session_token),
            timeout_seconds: self.timeout_seconds,
        }
    }
}

/// Where an object lies in an S3 service.
pub struct ObjectUrl {
    pub url: String,
    pub host: String,
    pub canonical_uri: String,
}

/// A signed request to an S3 service.
pub struct SignedRequest {
    pub url: String,
    pub authorization: String,
    /// The signed headers but the host, in the order of their names.
    pub headers: Vec<TextHeader>,
}

/// A signed request to an S3 service, as texts.
pub struct SignedView {
    pub url: Seq<char>,
    pub authorization: Seq<char>,
    pub headers: Seq<(Seq<char>, Seq<char>)>,
}

impl View for SignedRequest {
    type V = SignedView;

    open spec fn view(&self) -> SignedView {
        SignedView {
            url: self.url@,
            authorization: self.authorization@,
            headers: text_header_views(self.headers@),
        }
    }
}

/// The fields but the host.
pub open spec fn without_host(fields: Seq<(Seq<char>, Seq<char>)>) -> Seq<(Seq<char>, Seq<char>)>
    decreases fields.len(),
{
    if fields.len() == 0 {
        fields
    } else if fields.last().0 == "host"@ {
        without_host(fields.drop_last())
    } else {
        without_host(fields.drop_last()).push(fields.last())
    }
}

impl S3View {
    /// The host that serves an object: the endpoint's, after the bucket where that stands in the
    /// host name, with the endpoint's port.
    pub open spec fn object_host(self, endpoint_host: Seq<char>) -> Seq<char> {
        let name = if self.path_style {
            endpoint_host
        } else {
            self.bucket + seq!['.'] + endpoint_host
        };
        match self.endpoint.port {
            Some(port) => name + seq![':'] + decimal(port as nat),
            None => name,
        }
    }

    /// The canonical path of an object.
    pub open spec fn object_path(self, key: Seq<char>) -> Seq<char> {
        let path = aws_bytes(encode_utf8(key), true);
        if self.path_style {
            seq!['/'] + aws_bytes(encode_utf8(self.bucket), false) + seq!['/'] + path
        } else {
            seq!['/'] + path
        }
    }

    /// The address of an object before it is read as a URL.
    pub open spec fn object_address(self, endpoint_host: Seq<char>, key: Seq<char>) -> Seq<char> {
        self.endpoint.scheme + "://"@ + self.object_host(endpoint_host) + self.object_path(key)
    }

    /// The headers that every request signs.
    pub open spec fn own_fields(self, host: Seq<char>, payload: Seq<char>, moment: Seq<char>) -> Seq<
        (Seq<char>, Seq<char>),
    > {
        let fields = inserted(
            inserted(
                inserted(Seq::empty(), "host"@, host),
                "x-amz-content-sha256"@,
                payload,
            ),
            "x-amz-date"@,
            moment,
        );
        match self.session_token {
            Some(token) => inserted(fields, "x-amz-security-token"@, token),
            None => fields,
        }
    }

    /// The scope of a signature: a day, the region and the service.
    pub open spec fn credential_scope(self, date: Seq<char>) -> Seq<char> {
        date + seq!['/'] + self.region + "/s3/aws4_request"@
    }

    /// The key that signs requests of one day.
    pub open spec fn signing_key(self, date: Seq<char>) -> Seq<u8> {
        let date_key = hmac_sha256_of(
            encode_utf8("AWS4"@ + self.secret_access_key),
            encode_utf8(date),
        );
        let region_key = hmac_sha256_of(date_key, encode_utf8(self.region));
        let service_key = hmac_sha256_of(region_key, encode_utf8("s3"@));
        hmac_sha256_of(service_key, encode_utf8("aws4_request"@))
    }

    /// The text that is signed for a canonical request.
    pub open spec fn string_to_sign(self, canonical: Seq<char>, now: UtcTime) -> Seq<char> {
        "AWS4-HMAC-SHA256\n"@ + moment_text(now) + seq!['\n'] + self.credential_scope(date_text(now))
            + seq!['\n'] + digest_text(encode_utf8(canonical))
    }

    /// The signature of a canonical request.
    pub open spec fn signature(self, canonical: Seq<char>, now: UtcTime) -> Seq<char> {
        hex_text(
            hmac_sha256_of(
                self.signing_key(date_text(now)),
                encode_utf8(self.string_to_sign(canonical, now)),
            ),
        )
    }

    /// The value of the authorization header.
    pub open spec fn authorization(
        self,
        canonical: Seq<char>,
        fields: Seq<(Seq<char>, Seq<char>)>,
        now: UtcTime,
    ) -> Seq<char> {
        "AWS4-HMAC-SHA256 Credential="@ + self.access_key_id + seq!['/'] + self.credential_scope(
            date_text(now),
        ) + ",SignedHeaders="@ + field_names(fields) + ",Signature="@ + self.signature(
            canonical,
            now,
        )
    }

    /// The signed request for an object at a moment; else why there is none.
    pub open spec fn signed(
        self,
        method: Seq<char>,
        key: Seq<char>,
        body: Seq<u8>,
        extras: Seq<(Seq<char>, Seq<char>)>,
        now: UtcTime,
    ) -> Result<SignedView, StoreError> {
        if !valid_key(key) {
            Err(StoreError::InvalidKey)
        } else {
            match self.endpoint.host {
                None => Err(StoreError::NoHost),
                Some(endpoint_host) => match url_read(self.object_address(endpoint_host, key)) {
                    None => Err(StoreError::NotUrl),
                    Some(url) => self.signed_at(
                        url.text,
                        self.object_host(endpoint_host),
                        self.object_path(key),
                        method,
                        body,
                        extras,
                        now,
                    ),
                },
            }
        }
    }

    /// The signed request for an object whose address is known.
    pub open spec fn signed_at(
        self,
        url: Seq<char>,
        host: Seq<char>,
        path: Seq<char>,
        method: Seq<char>,
        body: Seq<u8>,
        extras: Seq<(Seq<char>, Seq<char>)>,
        now: UtcTime,
    ) -> Result<SignedView, StoreError> {
        let payload = digest_text(body);
        match with_extras(self.own_fields(host, payload, moment_text(now)), extras) {
            None => Err(StoreError::InvalidHeader),
            Some(fields) => {
                let canonical = canonical_request(method, path, fields, payload);
                Ok(
                    SignedView {
                        url,
                        authorization: self.authorization(canonical, fields, now),
                        headers: without_host(fields),
                    },
                )
            },
        }
    }
}

/// The canonical form of a request without a query.
pub open spec fn canonical_request(
    method: Seq<char>,
    path: Seq<char>,
    fields: Seq<(Seq<char>, Seq<char>)>,
    payload: Seq<char>,
) -> Seq<char> {
    method + seq!['\n'] + path + "\n\n"@ + field_lines(fields) + seq!['\n'] + field_names(fields)
        + seq!['\n'] + payload
}

/// The fields but the host.
fn drop_host(fields: Vec<TextHeader>) -> (result: Vec<TextHeader>)
    ensures
        text_header_views(result@) == without_host(text_header_views(fields@)),
{
    let ghost views = text_header_views(fields@);
    let mut result: Vec<TextHeader> = Vec::new();
    assert(views.take(0) =~= Seq::empty());
    assert(text_header_views(result@) =~= Seq::empty());
    for i in 0..fields.len()
        invariant
            views == text_header_views(fields@),
            text_header_views(result@) == without_host(views.take(i as int)),
    {
        let ghost before = text_header_views(result@);
        assert(views.take(i + 1).drop_last() =~= views.take(i as int));
        if !same_text(fields[i].name.as_str(), "host") {
            result.push(
                TextHeader { name: fields[i].name.clone(), value: fields[i].value.clone() },
            );
            assert(text_header_views(result@) =~= before.push(views[i as int]));
        }
    }
    assert(views.take(views.len() as int) =~= views);
    result
}

impl S3Store {
    /// The host and the canonical path of an object.
    fn object_place(&self, endpoint_host: &str, key: &str) -> (result: (String, String))
        ensures
            result.0@ == self@.object_host(endpoint_host@),
            result.1@ == self@.object_path(key@),
    {
        let mut host = String::new();
        let mut path = String::new();
        path.push('/');
        if self.path_style {
            path.append(aws_encode(self.bucket.as_str()).as_str());
            path.push('/');
        } else {
            host.append(self.bucket.as_str());
            host.push('.');
        }
        host.append(endpoint_host);
        path.append(aws_encode_path(key).as_str());
        if let Some(port) = self.endpoint.port {
            host.push(':');
            host.append(decimal_text(port as u64).as_str());
        }
        assert(host@ =~= self@.object_host(endpoint_host@));
        assert(path@ =~= self@.object_path(key@));
        (host, path)
    }

    /// Where an object lies.
    pub fn object_url(&self, key: &str) -> (result: Result<ObjectUrl, StoreError>)
        ensures
            match self@.endpoint.host {
                None => result matches Err(error) && error == StoreError::NoHost,
                Some(endpoint_host) => match url_read(self@.object_address(endpoint_host, key@)) {
                    None => result matches Err(error) && error == StoreError::NotUrl,
                    Some(url) => result matches Ok(place) && place.url@ == url.text && place.host@
                        == self@.object_host(endpoint_host) && place.canonical_uri@
                        == self@.object_path(key@),
                },
            },
    {
        let endpoint_host = match &self.endpoint.host {
            Some(endpoint_host) => endpoint_host,
            None => return Err(StoreError::NoHost),
        };
        let (host, canonical_uri) = self.object_place(endpoint_host.as_str(), key);
        let mut address = String::new();
        address.append(self.endpoint.scheme.as_str());
        address.append("://");
        address.append(host.as_str());
        address.append(canonical_uri.as_str());
        assert(address@ =~= self@.object_address(endpoint_host@, key@));
        match url_parse(address.as_str()) {
            Some(url) => Ok(ObjectUrl { url: url.text, host, canonical_uri }),
            None => Err(StoreError::NotUrl),
        }
    }

    /// The key that signs requests of one day.
    fn day_key(&self, date: &str) -> (result: [u8; 32])
        ensures
            result@ == self@.signing_key(date@),
    {
        let mut seed = String::new();
        seed.append("AWS4");
        seed.append(self.secret_access_key.as_str());
        assert(seed@ =~= "AWS4"@ + self.secret_access_key@);
        let date_key = hmac_sha256(seed.as_str().as_bytes(), date.as_bytes());
        let region_key = hmac_sha256(date_key.as_slice(), self.region.as_str().as_bytes());
        let service_key = hmac_sha256(region_key.as_slice(), "s3".as_bytes());
        hmac_sha256(service_key.as_slice(), "aws4_request".as_bytes())
    }

    /// The scope of a signature.
    fn scope(&self, date: &str) -> (result: String)
        ensures
            result@ == self@.credential_scope(date@),
    {
        let mut scope = String::new();
        scope.append(date);
        scope.push('/');
        scope.append(self.region.as_str());
        scope.append("/s3/aws4_request");
        assert(scope@ =~= self@.credential_scope(date@));
        scope
    }

    /// The signature of a canonical request.
    fn sign(&self, canonical: &str, now: &UtcTime) -> (result: String)
        requires
            now.well_formed(),
        ensures
            result@ == self@.signature(canonical@, *now),
    {
        let date = write_date(now);
        let mut text = String::new();
        text.append("AWS4-HMAC-SHA256\n");
        text.append(write_moment(now).as_str());
        text.push('\n');
        text.append(self.scope(date.as_str()).as_str());
        text.push('\n');
        text.append(sha256_hex(canonical.as_bytes()).as_str());
        assert(text@ =~= self@.string_to_sign(canonical@, *now));
        let key = self.day_key(date.as_str());
        let code = hmac_sha256(key.as_slice(), text.as_str().as_bytes());
        hex(code.as_slice())
    }

    /// The value of the authorization header.
    fn authorize(&self, canonical: &str, fields: &Vec<TextHeader>, now: &UtcTime) -> (result: String)
        requires
            now.well_formed(),
        ensures
            result@ == self@.authorization(canonical@, text_header_views(fields@), *now),
    {
        let mut authorization = String::new();
        authorization.append("AWS4-HMAC-SHA256 Credential=");
        authorization.append(self.access_key_id.as_str());
        authorization.push('/');
        authorization.append(self.scope(write_date(now).as_str()).as_str());
        authorization.append(",SignedHeaders=");
        authorization.append(write_names(fields).as_str());
        authorization.append(",Signature=");
        authorization.append(self.sign(canonical, now).as_str());
        assert(authorization@ =~= self@.authorization(canonical@, text_header_views(fields@), *now));
        authorization
    }

    /// Signs a request for an object whose address is known.
    pub fn signed_request_at(
        &self,
        place: ObjectUrl,
        method: &str,
        body: &[u8],
        extra_headers: &[(&str, &str)],
        now: &UtcTime,
    ) -> (result: Result<SignedRequest, StoreError>)
        requires
            now.well_formed(),
        ensures
            match self@.signed_at(
                place.url@,
                place.host@,
                place.canonical_uri@,
                method@,
                body@,
                pair_views(extra_headers@),
                *now,
            ) {
                Ok(signed) => result matches Ok(request) && request@ == signed,
                Err(problem) => result matches Err(error) && error == problem,
            },
    {
        let ObjectUrl { url, host, canonical_uri } = place;
        let payload = sha256_hex(body);
        let moment = write_moment(now);
        let mut fields: Vec<TextHeader> = Vec::new();
        assert(text_header_views(fields@) =~= Seq::empty());
        insert_field(&mut fields, "host".to_owned(), host);
        insert_field(&mut fields, "x-amz-content-sha256".to_owned(), payload.clone());
        insert_field(&mut fields, "x-amz-date".to_owned(), moment);
        if let Some(token) = &self.session_token {
            insert_field(&mut fields, "x-amz-security-token".to_owned(), token.clone());
        }
        if !add_extras(&mut fields, extra_headers) {
            return Err(StoreError::InvalidHeader);
        }
        let ghost views = text_header_views(fields@);
        let mut canonical = String::new();
        canonical.append(method);
        canonical.push('\n');
        canonical.append(canonical_uri.as_str());
        canonical.append("\n\n");
        canonical.append(write_lines(&fields).as_str());
        canonical.push('\n');
        canonical.append(write_names(&fields).as_str());
        canonical.push('\n');
        canonical.append(payload.as_str());
        assert(canonical@ =~= canonical_request(method@, canonical_uri@, views, payload@));
        let authorization = self.authorize(canonical.as_str(), &fields, now);
        Ok(SignedRequest { url, authorization, headers: drop_host(fields) })
    }

    /// Signs a request for an object with the present time.
    pub fn signed_request(
        &self,
        method: &str,
        key: &str,
        body: &[u8],
        extra_headers: &[(&str, &str)],
    ) -> (result: Result<SignedRequest, StoreError>)
        ensures
            exists|now: UtcTime|
                now.well_formed() && match #[trigger] self@.signed(
                    method@,
                    key@,
                    body@,
                    pair_views(extra_headers@),
                    now,
                ) {
                    Ok(signed) => result matches Ok(request) && request@ == signed,
                    Err(problem) => result matches Err(error) && error == problem,
                },
    {
        let now = utc_clock();
        // The moment that the contract speaks of.
        let ghost outcome = self@.signed(method@, key@, body@, pair_views(extra_headers@), now);
        if let Err(error) = validate_key(key) {
            return Err(error);
        }
        match self.object_url(key) {
            Ok(place) => self.signed_request_at(place, method, body, extra_headers, &now),
            Err(error) => Err(error),
        }
    }

    /// The request that reads an object.
    pub fn get_request(&self, key: &str) -> (result: Result<SignedRequest, StoreError>)
        ensures
            exists|now: UtcTime|
                now.well_formed() && match #[trigger] self@.signed(
                    "GET"@,
                    key@,
                    Seq::empty(),
                    Seq::empty(),
                    now,
                ) {
                    Ok(signed) => result matches Ok(request) && request@ == signed,
                    Err(problem) => result matches Err(error) && error == problem,
                },
    {
        let body: Vec<u8> = Vec::new();
        let extras: Vec<(&str, &str)> = Vec::new();
        assert(pair_views(extras@) =~= Seq::empty());
        assert(body@ =~= Seq::empty());
        self.signed_request("GET", key, body.as_slice(), extras.as_slice())
    }

    /// The request that creates an object, unless it is there already.
    pub fn create_request(&self, key: &str, value: &[u8]) -> (result: Result<
        SignedRequest,
        StoreError,
    >)
        ensures
            exists|now: UtcTime|
                now.well_formed() && match #[trigger] self@.signed(
                    "PUT"@,
                    key@,
                    value@,
                    create_headers(),
                    now,
                ) {
                    Ok(signed) => result matches Ok(request) && request@ == signed,
                    Err(problem) => result matches Err(error) && error == problem,
                },
    {
        let mut extras: Vec<(&str, &str)> = Vec::new();
        extras.push(("content-type", "application/zstd"));
        extras.push(("if-none-match", "*"));
        assert(pair_views(extras@) =~= create_headers());
        self.signed_request("PUT", key, value, extras.as_slice())
    }
}

/// The extra headers of a request that creates an object.
pub open spec fn create_headers() -> Seq<(Seq<char>, Seq<char>)> {
    seq![("content-type"@, "application/zstd"@), ("if-none-match"@, "*"@)]
}

/// Of two different texts one comes before the other.
proof fn lemma_order_total(a: Seq<char>, b: Seq<char>)
    requires
        a != b,
        !comes_before(a, b),
    ensures
        comes_before(b, a),
    decreases a.len(),
{
    if a.len() == 0 {
        assert(b.len() == 0);
        assert(a =~= b);
    } else if b.len() > 0 && a[0] == b[0] {
        if a.skip(1) == b.skip(1) {
            assert(a =~= seq![a[0]] + a.skip(1));
            assert(b =~= seq![b[0]] + b.skip(1));
        }
        lemma_order_total(a.skip(1), b.skip(1));
    }
}

/// The order of texts is transitive.
proof fn lemma_order_transitive(a: Seq<char>, b: Seq<char>, c: Seq<char>)
    requires
        comes_before(a, b),
        comes_before(b, c),
    ensures
        comes_before(a, c),
    decreases a.len(),
{
    if a.len() > 0 && a[0] == b[0] && b[0] == c[0] {
        lemma_order_transitive(a.skip(1), b.skip(1), c.skip(1));
    }
}

/// The names of the fields are in order, each once.
pub open spec fn in_order(fields: Seq<(Seq<char>, Seq<char>)>) -> bool {
    forall|i: int, j: int|
        0 <= i < j < fields.len() ==> comes_before(
            (#[trigger] fields[i]).0,
            (#[trigger] fields[j]).0,
        )
}

/// A field that is inserted is there, and so is every other field.
proof fn lemma_inserted_fields(
    fields: Seq<(Seq<char>, Seq<char>)>,
    name: Seq<char>,
    value: Seq<char>,
)
    ensures
        inserted(fields, name, value).len() == fields.len() + 1,
        inserted(fields, name, value).contains((name, value)),
        forall|i: int|
            0 <= i < fields.len() ==> inserted(fields, name, value).contains(#[trigger] fields[i]),
        forall|k: int|
            #![trigger inserted(fields, name, value)[k]]
            0 <= k < inserted(fields, name, value).len() ==> inserted(fields, name, value)[k] == (
                name,
                value,
            ) || fields.contains(inserted(fields, name, value)[k]),
    decreases fields.len(),
{
    let result = inserted(fields, name, value);
    if fields.len() > 0 && comes_before(name, fields.last().0) {
        let shorter = fields.drop_last();
        lemma_inserted_fields(shorter, name, value);
        let part = inserted(shorter, name, value);
        assert(result == part.push(fields.last()));
        assert(result[result.len() - 1] == fields.last());
        let at = choose|k: int| 0 <= k < part.len() && part[k] == (name, value);
        assert(result[at] == (name, value));
        assert forall|i: int| 0 <= i < fields.len() implies result.contains(#[trigger] fields[i]) by {
            if i < shorter.len() {
                assert(shorter[i] == fields[i]);
                let k = choose|k: int| 0 <= k < part.len() && part[k] == fields[i];
                assert(result[k] == fields[i]);
            }
        }
        assert forall|k: int|
            #![trigger result[k]]
            0 <= k < result.len() implies result[k] == (name, value) || fields.contains(
            result[k],
        ) by {
            if k < part.len() {
                assert(result[k] == part[k]);
                if part[k] != (name, value) {
                    assert(shorter.contains(part[k]));
                    let i = choose|i: int| 0 <= i < shorter.len() && shorter[i] == part[k];
                    assert(fields[i] == part[k]);
                }
            } else {
                assert(fields[fields.len() - 1] == result[k]);
            }
        }
    } else {
        assert(result[fields.len() as int] == (name, value));
        assert forall|i: int| 0 <= i < fields.len() implies result.contains(#[trigger] fields[i]) by {
            assert(result[i] == fields[i]);
        }
        assert forall|k: int|
            #![trigger result[k]]
            0 <= k < result.len() implies result[k] == (name, value) || fields.contains(
            result[k],
        ) by {
            if k < fields.len() {
                assert(fields[k] == result[k]);
            }
        }
    }
}

/// Inserting a field with a new name keeps the fields in order.
proof fn lemma_inserted_in_order(
    fields: Seq<(Seq<char>, Seq<char>)>,
    name: Seq<char>,
    value: Seq<char>,
)
    requires
        in_order(fields),
        !has_field(fields, name),
    ensures
        in_order(inserted(fields, name, value)),
        forall|other: Seq<char>| #[trigger]
            has_field(inserted(fields, name, value), other) <==> (other == name || has_field(
                fields,
                other,
            )),
    decreases fields.len(),
{
    let result = inserted(fields, name, value);
    lemma_inserted_fields(fields, name, value);
    if fields.len() > 0 {
        assert(fields[fields.len() - 1].0 != name);
        let shorter = fields.drop_last();
        assert forall|i: int, j: int| 0 <= i < j < shorter.len() implies comes_before(
            (#[trigger] shorter[i]).0,
            (#[trigger] shorter[j]).0,
        ) by {
            assert(shorter[i] == fields[i] && shorter[j] == fields[j]);
        }
        if has_field(shorter, name) {
            let i = choose|i: int| 0 <= i < shorter.len() && (#[trigger] shorter[i]).0 == name;
            assert(fields[i].0 == name);
        }
        lemma_inserted_in_order(shorter, name, value);
        let last = fields.last().0;
        if comes_before(name, last) {
            let part = inserted(shorter, name, value);
            lemma_inserted_fields(shorter, name, value);
            assert forall|i: int, j: int| 0 <= i < j < result.len() implies comes_before(
                (#[trigger] result[i]).0,
                (#[trigger] result[j]).0,
            ) by {
                if j == part.len() {
                    assert(result[i] == part[i]);
                    if part[i] != (name, value) {
                        let k = choose|k: int| 0 <= k < shorter.len() && shorter[k] == part[i];
                        assert(fields[k] == part[i]);
                        assert(comes_before(fields[k].0, fields[fields.len() - 1].0));
                    }
                } else {
                    assert(result[i] == part[i] && result[j] == part[j]);
                }
            }
        } else {
            lemma_order_total(name, last);
            assert forall|i: int, j: int| 0 <= i < j < result.len() implies comes_before(
                (#[trigger] result[i]).0,
                (#[trigger] result[j]).0,
            ) by {
                if j == fields.len() {
                    assert(result[i] == fields[i]);
                    if i < fields.len() - 1 {
                        assert(comes_before(fields[i].0, fields[fields.len() - 1].0));
                        lemma_order_transitive(fields[i].0, last, name);
                    }
                } else {
                    assert(result[i] == fields[i] && result[j] == fields[j]);
                }
            }
        }
    }
    assert forall|other: Seq<char>|
        has_field(result, other) <==> (other == name || has_field(fields, other)) by {
        if has_field(result, other) {
            let k = choose|k: int| 0 <= k < result.len() && (#[trigger] result[k]).0 == other;
            if result[k] != (name, value) {
                let i = choose|i: int| 0 <= i < fields.len() && fields[i] == result[k];
                assert(fields[i].0 == other);
            }
        }
        if other == name {
            let k = choose|k: int| 0 <= k < result.len() && result[k] == (name, value);
            assert(result[k].0 == name);
        }
        if has_field(fields, other) {
            let i = choose|i: int| 0 <= i < fields.len() && (#[trigger] fields[i]).0 == other;
            assert(result.contains(fields[i]));
            let k = choose|k: int| 0 <= k < result.len() && result[k] == fields[i];
            assert(result[k].0 == other);
        }
    }
}

/// The headers that every request signs have four names at most, in order.
proof fn lemma_own_fields(store: S3View, host: Seq<char>, payload: Seq<char>, moment: Seq<char>)
    ensures
        in_order(store.own_fields(host, payload, moment)),
        forall|name: Seq<char>| #[trigger]
            has_field(store.own_fields(host, payload, moment), name) ==> name == "host"@ || name
                == "x-amz-content-sha256"@ || name == "x-amz-date"@ || name
                == "x-amz-security-token"@,
{
    reveal_strlit("host");
    reveal_strlit("x-amz-content-sha256");
    reveal_strlit("x-amz-date");
    reveal_strlit("x-amz-security-token");
    let none = Seq::<(Seq<char>, Seq<char>)>::empty();
    lemma_inserted_in_order(none, "host"@, host);
    let one = inserted(none, "host"@, host);
    assert(forall|name: Seq<char>| #[trigger] has_field(one, name) ==> name == "host"@);
    assert("host"@.len() != "x-amz-content-sha256"@.len());
    assert(!has_field(one, "x-amz-content-sha256"@));
    lemma_inserted_in_order(one, "x-amz-content-sha256"@, payload);
    let two = inserted(one, "x-amz-content-sha256"@, payload);
    assert(forall|name: Seq<char>| #[trigger]
        has_field(two, name) ==> name == "host"@ || name == "x-amz-content-sha256"@);
    assert("host"@.len() != "x-amz-date"@.len());
    assert("x-amz-content-sha256"@.len() != "x-amz-date"@.len());
    assert(!has_field(two, "x-amz-date"@));
    lemma_inserted_in_order(two, "x-amz-date"@, moment);
    let three = inserted(two, "x-amz-date"@, moment);
    assert(forall|name: Seq<char>| #[trigger]
        has_field(three, name) ==> name == "host"@ || name == "x-amz-content-sha256"@ || name
            == "x-amz-date"@);
    assert("x-amz-content-sha256"@[6] != "x-amz-security-token"@[6]);
    assert("x-amz-date"@.len() != "x-amz-security-token"@.len());
    assert("host"@.len() != "x-amz-security-token"@.len());
    assert(!has_field(three, "x-amz-security-token"@));
    if let Some(token) = store.session_token {
        lemma_inserted_in_order(three, "x-amz-security-token"@, token);
        let four = inserted(three, "x-amz-security-token"@, token);
        assert(forall|name: Seq<char>| #[trigger]
            has_field(four, name) ==> name == "host"@ || name == "x-amz-content-sha256"@ || name
                == "x-amz-date"@ || name == "x-amz-security-token"@);
    }
}

/// Extra headers keep the fields in order.
proof fn lemma_extras_in_order(
    fields: Seq<(Seq<char>, Seq<char>)>,
    extras: Seq<(Seq<char>, Seq<char>)>,
)
    requires
        in_order(fields),
        with_extras(fields, extras) is Some,
    ensures
        in_order(with_extras(fields, extras)->0),
    decreases extras.len(),
{
    if extras.len() > 0 {
        lemma_extras_in_order(fields, extras.drop_last());
        lemma_inserted_in_order(
            with_extras(fields, extras.drop_last())->0,
            lowered(extras.last().0),
            collapsed(extras.last().1),
        );
    }
}

/// Whatever the extra headers, a request signs its headers in the order of their names, each name
/// once.
pub proof fn law_signed_headers_are_in_order(
    store: S3View,
    host: Seq<char>,
    payload: Seq<char>,
    moment: Seq<char>,
    extras: Seq<(Seq<char>, Seq<char>)>,
)
    requires
        with_extras(store.own_fields(host, payload, moment), extras) is Some,
    ensures
        in_order(with_extras(store.own_fields(host, payload, moment), extras)->0),
{
    lemma_own_fields(store, host, payload, moment);
    lemma_extras_in_order(store.own_fields(host, payload, moment), extras);
}

/// Leaving the host out keeps every other field.
proof fn lemma_without_host_keeps(fields: Seq<(Seq<char>, Seq<char>)>, i: int)
    requires
        0 <= i < fields.len(),
        fields[i].0 != "host"@,
    ensures
        without_host(fields).contains(fields[i]),
    decreases fields.len(),
{
    let result = without_host(fields);
    if i == fields.len() - 1 {
        assert(result[result.len() - 1] == fields[i]);
    } else {
        lemma_without_host_keeps(fields.drop_last(), i);
        let part = without_host(fields.drop_last());
        let k = choose|k: int| 0 <= k < part.len() && part[k] == fields[i];
        assert(result[k] == fields[i]);
    }
}

/// Objects are never overwritten: a request that creates an object is made for every valid key
/// whose address is a URL, and it tells the service to refuse if the object is there.
pub proof fn law_creation_never_overwrites(
    store: S3View,
    key: Seq<char>,
    value: Seq<u8>,
    now: UtcTime,
)
    requires
        valid_key(key),
        store.endpoint.host is Some,
        url_read(store.object_address(store.endpoint.host->0, key)) is Some,
    ensures
        store.signed("PUT"@, key, value, create_headers(), now) is Ok,
        store.signed("PUT"@, key, value, create_headers(), now)->Ok_0.headers.contains(
            ("if-none-match"@, "*"@),
        ),
{
    let fields = store.own_fields(
        store.object_host(store.endpoint.host->0),
        digest_text(value),
        moment_text(now),
    );
    lemma_own_fields(
        store,
        store.object_host(store.endpoint.host->0),
        digest_text(value),
        moment_text(now),
    );
    reveal_strlit("host");
    reveal_strlit("x-amz-content-sha256");
    reveal_strlit("x-amz-date");
    reveal_strlit("x-amz-security-token");
    reveal_strlit("content-type");
    reveal_strlit("application/zstd");
    reveal_strlit("if-none-match");
    reveal_strlit("*");
    let extras = create_headers();
    let first = extras.drop_last();
    assert(first =~= seq![("content-type"@, "application/zstd"@)]);
    assert(first.drop_last() =~= Seq::empty());
    assert(lowered("content-type"@) =~= "content-type"@);
    assert(lowered("if-none-match"@) =~= "if-none-match"@);
    lemma_collapsed_word("application/zstd"@);
    lemma_collapsed_word("*"@);
    assert("content-type"@[0] != "host"@[0] && "content-type"@[0] != "x-amz-date"@[0]);
    assert("content-type"@[0] != "x-amz-content-sha256"@[0] && "content-type"@[0]
        != "x-amz-security-token"@[0]);
    assert("if-none-match"@[0] != "host"@[0] && "if-none-match"@[0] != "x-amz-date"@[0]);
    assert("if-none-match"@[0] != "x-amz-content-sha256"@[0] && "if-none-match"@[0]
        != "x-amz-security-token"@[0]);
    assert("if-none-match"@[0] != "content-type"@[0]);
    assert(with_extras(fields, first.drop_last()) == Some(fields));
    lemma_inserted_in_order(fields, "content-type"@, "application/zstd"@);
    let one = inserted(fields, "content-type"@, "application/zstd"@);
    assert(with_extras(fields, first) == Some(one));
    assert(!has_field(fields, "if-none-match"@));
    assert(!has_field(one, "if-none-match"@));
    assert(extras.last() == ("if-none-match"@, "*"@));
    lemma_inserted_fields(one, "if-none-match"@, "*"@);
    let two = inserted(one, "if-none-match"@, "*"@);
    assert(with_extras(fields, extras) == Some(two));
    let at = choose|k: int| 0 <= k < two.len() && two[k] == ("if-none-match"@, "*"@);
    lemma_without_host_keeps(two, at);
}

/// A text without white space is one word.
proof fn lemma_collapsed_word(text: Seq<char>)
    requires
        forall|i: int| 0 <= i < text.len() ==> !is_white(#[trigger] text[i]),
    ensures
        collapsed(text) == text,
    decreases text.len(),
{
    if text.len() > 0 {
        let shorter = text.drop_last();
        assert forall|i: int| 0 <= i < shorter.len() implies !is_white(
            #[trigger] shorter[i],
        ) by {
            assert(shorter[i] == text[i]);
        }
        lemma_collapsed_word(shorter);
        assert(shorter.push(text.last()) =~= text);
    }
}

/// Encoded bytes from the front.
proof fn lemma_encoded_from_front(bytes: Seq<u8>, slashes: bool)
    requires
        bytes.len() > 0,
    ensures
        aws_bytes(bytes, slashes) == aws_code(bytes[0], slashes) + aws_bytes(
            bytes.skip(1),
            slashes,
        ),
    decreases bytes.len(),
{
    if bytes.len() == 1 {
        assert(aws_bytes(bytes.drop_last(), slashes) =~= Seq::empty());
        assert(aws_bytes(bytes.skip(1), slashes) =~= Seq::empty());
        assert(bytes.last() == bytes[0]);
    } else {
        lemma_encoded_from_front(bytes.drop_last(), slashes);
        assert(bytes.drop_last().skip(1) =~= bytes.skip(1).drop_last());
        assert(bytes.skip(1).last() == bytes.last());
        assert(aws_bytes(bytes, slashes) =~= aws_code(bytes[0], slashes) + aws_bytes(
            bytes.skip(1),
            slashes,
        ));
    }
}

/// An encoded byte is told from another, and from what follows.
proof fn lemma_codes_apart(a: u8, b: u8, slashes: bool, r: Seq<char>, s: Seq<char>)
    requires
        aws_code(a, slashes) + r == aws_code(b, slashes) + s,
    ensures
        a == b,
        r == s,
{
    let x = aws_code(a, slashes) + r;
    let y = aws_code(b, slashes) + s;
    assert(x[0] == aws_code(a, slashes)[0]);
    assert(y[0] == aws_code(b, slashes)[0]);
    if x[0] == '%' {
        assert(x[1] == capital_digit(a as int / 16));
        assert(x[2] == capital_digit(a as int % 16));
        assert(y[1] == capital_digit(b as int / 16));
        assert(y[2] == capital_digit(b as int % 16));
        lemma_capital_digits(a as int / 16, b as int / 16);
        lemma_capital_digits(a as int % 16, b as int % 16);
    } else {
        assert(x[0] as u32 == a as u32);
        assert(y[0] as u32 == b as u32);
    }
    assert(a == b);
    let head = aws_code(a, slashes);
    assert(x.skip(head.len() as int) =~= r);
    assert(y.skip(head.len() as int) =~= s);
}

/// Digits with capital letters are told apart.
proof fn lemma_capital_digits(a: int, b: int)
    requires
        0 <= a < 16,
        0 <= b < 16,
        capital_digit(a) == capital_digit(b),
    ensures
        a == b,
{
    assert(capital_digit(a) as int == if a < 10 {
        a + 48
    } else {
        a + 55
    });
    assert(capital_digit(b) as int == if b < 10 {
        b + 48
    } else {
        b + 55
    });
}

/// Encoded bytes stand for one byte string.
pub proof fn law_encoded_bytes_identify(a: Seq<u8>, b: Seq<u8>, slashes: bool)
    requires
        aws_bytes(a, slashes) == aws_bytes(b, slashes),
    ensures
        a == b,
    decreases a.len(),
{
    if a.len() > 0 {
        lemma_encoded_from_front(a, slashes);
    }
    if b.len() > 0 {
        lemma_encoded_from_front(b, slashes);
    }
    if a.len() == 0 || b.len() == 0 {
        assert(a.len() > 0 ==> aws_code(a[0], slashes).len() > 0);
        assert(b.len() > 0 ==> aws_code(b[0], slashes).len() > 0);
        assert(a.len() == 0 ==> aws_bytes(a, slashes).len() == 0);
        assert(b.len() == 0 ==> aws_bytes(b, slashes).len() == 0);
        assert(a =~= b);
    } else {
        lemma_codes_apart(
            a[0],
            b[0],
            slashes,
            aws_bytes(a.skip(1), slashes),
            aws_bytes(b.skip(1), slashes),
        );
        law_encoded_bytes_identify(a.skip(1), b.skip(1), slashes);
        assert(a =~= seq![a[0]] + a.skip(1));
        assert(b =~= seq![b[0]] + b.skip(1));
    }
}

/// Two objects of a store never share a path.
pub proof fn law_objects_have_their_own_paths(store: S3View, a: Seq<char>, b: Seq<char>)
    requires
        store.object_path(a) == store.object_path(b),
    ensures
        a == b,
{
    let head = if store.path_style {
        seq!['/'] + aws_bytes(encode_utf8(store.bucket), false) + seq!['/']
    } else {
        seq!['/']
    };
    assert(store.object_path(a).skip(head.len() as int) =~= aws_bytes(encode_utf8(a), true));
    assert(store.object_path(b).skip(head.len() as int) =~= aws_bytes(encode_utf8(b), true));
    law_encoded_bytes_identify(encode_utf8(a), encode_utf8(b), true);
    lemma_encoding_determines_text(a, b);
}

/// A date is eight digits: four for the year, two for the month and two for the day, which read as
/// numbers are the year, the month and the day.
pub proof fn law_dates_read_back(now: UtcTime)
    requires
        now.well_formed(),
        now.year >= 0,
    ensures
        date_text(now).len() == 8,
        forall|i: int| 0 <= i < 8 ==> '0' <= #[trigger] date_text(now)[i] <= '9',
        ({
            let digit = |i: int| date_text(now)[i] as int - '0' as int;
            &&& digit(0) * 1000 + digit(1) * 100 + digit(2) * 10 + digit(3) == now.year
            &&& digit(4) * 10 + digit(5) == now.month
            &&& digit(6) * 10 + digit(7) == now.day
        }),
{
    law_padded_numbers_read_back(now.year as nat);
    law_padded_numbers_read_back(now.month as nat);
    law_padded_numbers_read_back(now.day as nat);
    let text = date_text(now);
    let (y, m, d) = (
        padded(now.year as nat, 4),
        padded(now.month as nat, 2),
        padded(now.day as nat, 2),
    );
    assert(text[0] == y[0] && text[1] == y[1] && text[2] == y[2] && text[3] == y[3]);
    assert(text[4] == m[0] && text[5] == m[1]);
    assert(text[6] == d[0] && text[7] == d[1]);
    assert forall|i: int| 0 <= i < 8 implies '0' <= #[trigger] text[i] <= '9' by {
        assert(i == 0 || i == 1 || i == 2 || i == 3 || i == 4 || i == 5 || i == 6 || i == 7);
    }
}

/// A year before the first is written with its sign and three digits or four, which read as a number
/// are the year.
pub proof fn law_early_years_read_back(now: UtcTime)
    requires
        now.well_formed(),
        now.year < 0,
    ensures
        date_text(now)[0] == '-',
        ({
            let digits = date_text(now).subrange(1, date_text(now).len() - 4);
            &&& digits.len() >= 3
            &&& digits_value(digits) == -now.year
            &&& forall|i: int| 0 <= i < digits.len() ==> '0' <= #[trigger] digits[i] <= '9'
        }),
{
    law_padding_keeps_the_number((-now.year) as nat, 3);
    law_padded_numbers_read_back(now.month as nat);
    law_padded_numbers_read_back(now.day as nat);
    let year = padded((-now.year) as nat, 3);
    assert(date_text(now).subrange(1, date_text(now).len() - 4) =~= year);
}

/// A moment is its date, `T`, two digits each for the hour, the minute and the second, which read as
/// numbers are those, and `Z`: sixteen characters in all.
pub proof fn law_moments_read_back(now: UtcTime)
    requires
        now.well_formed(),
        now.year >= 0,
    ensures
        moment_text(now).len() == 16,
        moment_text(now).take(8) == date_text(now),
        moment_text(now)[8] == 'T',
        moment_text(now)[15] == 'Z',
        forall|i: int| 9 <= i < 15 ==> '0' <= #[trigger] moment_text(now)[i] <= '9',
        ({
            let digit = |i: int| moment_text(now)[i] as int - '0' as int;
            &&& digit(9) * 10 + digit(10) == now.hour
            &&& digit(11) * 10 + digit(12) == now.minute
            &&& digit(13) * 10 + digit(14) == now.second
        }),
{
    law_dates_read_back(now);
    law_padded_numbers_read_back(now.hour as nat);
    law_padded_numbers_read_back(now.minute as nat);
    law_padded_numbers_read_back(now.second as nat);
    let text = moment_text(now);
    let (h, m, s) = (
        padded(now.hour as nat, 2),
        padded(now.minute as nat, 2),
        padded(now.second as nat, 2),
    );
    assert(text.take(8) =~= date_text(now));
    assert(text[9] == h[0] && text[10] == h[1]);
    assert(text[11] == m[0] && text[12] == m[1]);
    assert(text[13] == s[0] && text[14] == s[1]);
    assert forall|i: int| 9 <= i < 15 implies '0' <= #[trigger] text[i] <= '9' by {
        assert(i == 9 || i == 10 || i == 11 || i == 12 || i == 13 || i == 14);
    }
}

/// In a canonical URI letters, digits and `-`, `_`, `.` and `~` stand for themselves, and so does a
/// slash in a path; every other byte is a percent sign and two digits of base sixteen with capital
/// letters, which give the byte back.
pub proof fn law_canonical_uris_are_encoded_byte_by_byte(
    before: Seq<u8>,
    b: u8,
    slashes: bool,
)
    ensures
        aws_bytes(Seq::empty(), slashes) == Seq::<char>::empty(),
        ({
            let kept = {
                ||| 'A' as int <= b <= 'Z' as int
                ||| 'a' as int <= b <= 'z' as int
                ||| '0' as int <= b <= '9' as int
                ||| b == '-' as int
                ||| b == '_' as int
                ||| b == '.' as int
                ||| b == '~' as int
                ||| slashes && b == '/' as int
            };
            let code = aws_bytes(before.push(b), slashes).skip(
                aws_bytes(before, slashes).len() as int,
            );
            let value = |c: char|
                if c <= '9' {
                    c as int - '0' as int
                } else {
                    c as int - 'A' as int + 10
                };
            &&& aws_bytes(before.push(b), slashes).take(aws_bytes(before, slashes).len() as int)
                == aws_bytes(before, slashes)
            &&& kept ==> code.len() == 1 && code[0] as int == b
            &&& !kept ==> {
                &&& code.len() == 3
                &&& code[0] == '%'
                &&& '0' <= code[1] <= '9' || 'A' <= code[1] <= 'F'
                &&& '0' <= code[2] <= '9' || 'A' <= code[2] <= 'F'
                &&& value(code[1]) * 16 + value(code[2]) == b
            }
        }),
{
    let all = before.push(b);
    assert(all.drop_last() =~= before);
    let head = aws_bytes(before, slashes);
    let code = aws_code(b, slashes);
    assert(aws_bytes(all, slashes) == head + code);
    assert((head + code).skip(head.len() as int) =~= code);
    assert((head + code).take(head.len() as int) =~= head);
    if slashes && b == 0x2f {
        assert(code[0] as int == 0x2f);
    } else if is_unreserved(b) {
        assert(code[0] == b as char);
        assert(code[0] as int == b);
    } else {
        assert(code[1] == capital_digit(b as int / 16));
        assert(code[2] == capital_digit(b as int % 16));
    }
}

/// Texts are ordered by their first difference: after a common beginning, the one with the smaller
/// character comes first, and one that is over comes before one that goes on; none comes before
/// itself.
pub proof fn law_texts_are_ordered_by_their_first_difference(
    common: Seq<char>,
    a: Seq<char>,
    b: Seq<char>,
)
    ensures
        !comes_before(common, common),
        a.len() > 0 && b.len() > 0 && a[0] != b[0] ==> comes_before(common + a, common + b) == (a[0]
            < b[0]),
        b.len() > 0 ==> comes_before(common, common + b),
        b.len() > 0 ==> !comes_before(common + b, common),
    decreases common.len(),
{
    if common.len() == 0 {
        assert(common + a =~= a);
        assert(common + b =~= b);
    } else {
        let rest = common.skip(1);
        law_texts_are_ordered_by_their_first_difference(rest, a, b);
        assert((common + a).skip(1) =~= rest + a);
        assert((common + b).skip(1) =~= rest + b);
    }
}

/// Extra headers join the fields: of all fields each is one that was there before, or an extra one,
/// its name in small letters and its value with one space between the words; and none is missing.
proof fn lemma_extras_join(
    fields: Seq<(Seq<char>, Seq<char>)>,
    extras: Seq<(Seq<char>, Seq<char>)>,
)
    requires
        with_extras(fields, extras) is Some,
    ensures
        ({
            let all = with_extras(fields, extras)->Some_0;
            &&& all.len() == fields.len() + extras.len()
            &&& forall|i: int| 0 <= i < fields.len() ==> all.contains(#[trigger] fields[i])
            &&& forall|i: int|
                0 <= i < extras.len() ==> all.contains(
                    (lowered((#[trigger] extras[i]).0), collapsed(extras[i].1)),
                )
            &&& forall|k: int|
                0 <= k < all.len() ==> fields.contains(#[trigger] all[k]) || exists|i: int|
                    0 <= i < extras.len() && all[k] == (
                        lowered((#[trigger] extras[i]).0),
                        collapsed(extras[i].1),
                    )
        }),
    decreases extras.len(),
{
    let all = with_extras(fields, extras)->Some_0;
    if extras.len() == 0 {
        assert forall|i: int| 0 <= i < fields.len() implies all.contains(#[trigger] fields[i]) by {
            assert(all[i] == fields[i]);
        }
    } else {
        let fewer = extras.drop_last();
        lemma_extras_join(fields, fewer);
        let before = with_extras(fields, fewer)->Some_0;
        let added = (lowered(extras.last().0), collapsed(extras.last().1));
        lemma_inserted_fields(before, added.0, added.1);
        assert forall|i: int| 0 <= i < fields.len() implies all.contains(#[trigger] fields[i]) by {
            let k = choose|k: int| 0 <= k < before.len() && before[k] == fields[i];
            assert(all.contains(before[k]));
        }
        assert forall|i: int| 0 <= i < extras.len() implies all.contains(
            (lowered((#[trigger] extras[i]).0), collapsed(extras[i].1)),
        ) by {
            if i < fewer.len() {
                assert(fewer[i] == extras[i]);
                let wanted = (lowered(fewer[i].0), collapsed(fewer[i].1));
                let k = choose|k: int| 0 <= k < before.len() && before[k] == wanted;
                assert(all.contains(before[k]));
            }
        }
        assert forall|k: int| 0 <= k < all.len() implies fields.contains(#[trigger] all[k])
            || exists|i: int|
            0 <= i < extras.len() && all[k] == (
                lowered((#[trigger] extras[i]).0),
                collapsed(extras[i].1),
            ) by {
            if all[k] == added {
                assert(extras[extras.len() - 1] == extras.last());
            } else {
                let j = choose|j: int| 0 <= j < before.len() && before[j] == all[k];
                if !fields.contains(before[j]) {
                    let i = choose|i: int|
                        0 <= i < fewer.len() && before[j] == (
                            lowered((#[trigger] fewer[i]).0),
                            collapsed(fewer[i].1),
                        );
                    assert(extras[i] == fewer[i]);
                }
            }
        }
    }
}

/// The headers that every request signs are there with their values.
proof fn lemma_own_values(store: S3View, host: Seq<char>, payload: Seq<char>, moment: Seq<char>)
    ensures
        ({
            let own = store.own_fields(host, payload, moment);
            &&& own.contains(("host"@, host))
            &&& own.contains(("x-amz-content-sha256"@, payload))
            &&& own.contains(("x-amz-date"@, moment))
            &&& store.session_token matches Some(token) ==> own.contains(
                ("x-amz-security-token"@, token),
            )
            &&& forall|k: int|
                0 <= k < own.len() ==> (#[trigger] own[k]) == ("host"@, host) || own[k] == (
                    "x-amz-content-sha256"@,
                    payload,
                ) || own[k] == ("x-amz-date"@, moment) || store.session_token is Some && own[k] == (
                    "x-amz-security-token"@,
                    store.session_token->Some_0,
                )
        }),
{
    let none = Seq::<(Seq<char>, Seq<char>)>::empty();
    lemma_inserted_fields(none, "host"@, host);
    let one = inserted(none, "host"@, host);
    lemma_inserted_fields(one, "x-amz-content-sha256"@, payload);
    let two = inserted(one, "x-amz-content-sha256"@, payload);
    lemma_inserted_fields(two, "x-amz-date"@, moment);
    let three = inserted(two, "x-amz-date"@, moment);
    lemma_inserted_keeps(one, "x-amz-content-sha256"@, payload, ("host"@, host));
    lemma_inserted_keeps(two, "x-amz-date"@, moment, ("host"@, host));
    lemma_inserted_keeps(two, "x-amz-date"@, moment, ("x-amz-content-sha256"@, payload));
    assert forall|k: int| 0 <= k < three.len() implies (#[trigger] three[k]) == ("host"@, host)
        || three[k] == ("x-amz-content-sha256"@, payload) || three[k] == ("x-amz-date"@, moment) by {
        if three[k] != ("x-amz-date"@, moment) {
            let j = choose|j: int| 0 <= j < two.len() && two[j] == three[k];
            if two[j] != ("x-amz-content-sha256"@, payload) {
                let i = choose|i: int| 0 <= i < one.len() && one[i] == two[j];
                assert(one[i] == ("host"@, host));
            }
        }
    }
    if let Some(token) = store.session_token {
        lemma_inserted_fields(three, "x-amz-security-token"@, token);
        let four = inserted(three, "x-amz-security-token"@, token);
        lemma_inserted_keeps(three, "x-amz-security-token"@, token, ("host"@, host));
        lemma_inserted_keeps(
            three,
            "x-amz-security-token"@,
            token,
            ("x-amz-content-sha256"@, payload),
        );
        lemma_inserted_keeps(three, "x-amz-security-token"@, token, ("x-amz-date"@, moment));
        assert forall|k: int| 0 <= k < four.len() implies (#[trigger] four[k]) == ("host"@, host)
            || four[k] == ("x-amz-content-sha256"@, payload) || four[k] == ("x-amz-date"@, moment)
            || four[k] == ("x-amz-security-token"@, token) by {
            if four[k] != ("x-amz-security-token"@, token) {
                let j = choose|j: int| 0 <= j < three.len() && three[j] == four[k];
                assert(three[j] == four[k]);
            }
        }
    }
}

/// A field that is there stays when another is inserted.
proof fn lemma_inserted_keeps(
    fields: Seq<(Seq<char>, Seq<char>)>,
    name: Seq<char>,
    value: Seq<char>,
    field: (Seq<char>, Seq<char>),
)
    requires
        fields.contains(field),
    ensures
        inserted(fields, name, value).contains(field),
{
    lemma_inserted_fields(fields, name, value);
    let i = choose|i: int| 0 <= i < fields.len() && fields[i] == field;
    assert(inserted(fields, name, value).contains(fields[i]));
}

/// What is left without the host are fields, and not the host.
proof fn lemma_without_host_only(fields: Seq<(Seq<char>, Seq<char>)>, k: int)
    requires
        0 <= k < without_host(fields).len(),
    ensures
        fields.contains(without_host(fields)[k]),
        without_host(fields)[k].0 != "host"@,
    decreases fields.len(),
{
    let shorter = fields.drop_last();
    let part = without_host(shorter);
    if k < part.len() {
        lemma_without_host_only(shorter, k);
        let i = choose|i: int| 0 <= i < shorter.len() && shorter[i] == part[k];
        assert(fields[i] == part[k]);
    } else {
        assert(fields[fields.len() - 1] == fields.last());
    }
}

/// Every signed request carries its moment, the digest of its body, the session's token where there
/// is one, and each extra header with its name in small letters; and no other header.
pub proof fn law_signed_requests_carry_their_headers(
    store: S3View,
    method: Seq<char>,
    key: Seq<char>,
    body: Seq<u8>,
    extras: Seq<(Seq<char>, Seq<char>)>,
    now: UtcTime,
    i: int,
    k: int,
)
    requires
        store.signed(method, key, body, extras, now) is Ok,
    ensures
        ({
            let headers = store.signed(method, key, body, extras, now)->Ok_0.headers;
            &&& headers.contains(("x-amz-date"@, moment_text(now)))
            &&& headers.contains(("x-amz-content-sha256"@, digest_text(body)))
            &&& store.session_token matches Some(token) ==> headers.contains(
                ("x-amz-security-token"@, token),
            )
            &&& 0 <= i < extras.len() && lowered(extras[i].0) != "host"@ ==> headers.contains(
                (lowered(extras[i].0), collapsed(extras[i].1)),
            )
            &&& 0 <= k < headers.len() ==> {
                ||| headers[k] == ("x-amz-date"@, moment_text(now))
                ||| headers[k] == ("x-amz-content-sha256"@, digest_text(body))
                ||| store.session_token is Some && headers[k] == (
                    "x-amz-security-token"@,
                    store.session_token->Some_0,
                )
                ||| exists|j: int|
                    0 <= j < extras.len() && headers[k] == (
                        lowered((#[trigger] extras[j]).0),
                        collapsed(extras[j].1),
                    )
            }
        }),
{
    let host = store.object_host(store.endpoint.host->Some_0);
    let own = store.own_fields(host, digest_text(body), moment_text(now));
    lemma_own_values(store, host, digest_text(body), moment_text(now));
    lemma_extras_join(own, extras);
    let all = with_extras(own, extras)->Some_0;
    let headers = store.signed(method, key, body, extras, now)->Ok_0.headers;
    reveal_strlit("host");
    reveal_strlit("x-amz-content-sha256");
    reveal_strlit("x-amz-date");
    reveal_strlit("x-amz-security-token");
    assert("host"@.len() == 4);
    lemma_signed_field(own, all, ("x-amz-date"@, moment_text(now)));
    lemma_signed_field(own, all, ("x-amz-content-sha256"@, digest_text(body)));
    if let Some(token) = store.session_token {
        lemma_signed_field(own, all, ("x-amz-security-token"@, token));
    }
    if 0 <= i < extras.len() && lowered(extras[i].0) != "host"@ {
        let wanted = (lowered(extras[i].0), collapsed(extras[i].1));
        assert(all.contains(wanted));
        let at = choose|at: int| 0 <= at < all.len() && all[at] == wanted;
        lemma_without_host_keeps(all, at);
    }
    if 0 <= k < headers.len() {
        lemma_without_host_only(all, k);
        let at = choose|at: int| 0 <= at < all.len() && all[at] == headers[k];
        if own.contains(all[at]) {
            let j = choose|j: int| 0 <= j < own.len() && own[j] == all[at];
            assert(own[j] == headers[k]);
        }
    }
}

/// A field of a request is among its headers, but for the host.
proof fn lemma_signed_field(
    own: Seq<(Seq<char>, Seq<char>)>,
    all: Seq<(Seq<char>, Seq<char>)>,
    field: (Seq<char>, Seq<char>),
)
    requires
        own.contains(field),
        forall|i: int| 0 <= i < own.len() ==> all.contains(#[trigger] own[i]),
        field.0 != "host"@,
    ensures
        without_host(all).contains(field),
{
    let i = choose|i: int| 0 <= i < own.len() && own[i] == field;
    assert(all.contains(own[i]));
    let at = choose|at: int| 0 <= at < all.len() && all[at] == field;
    lemma_without_host_keeps(all, at);
}

/// The address of an object: over the scheme of the endpoint, at the endpoint's host, with its port
/// where it has one; the bucket stands in front of the host, or where the store says so at the
/// beginning of the path; and the key, slashes kept, ends the path.
pub proof fn law_objects_are_addressed_in_their_bucket(
    store: S3View,
    method: Seq<char>,
    key: Seq<char>,
    body: Seq<u8>,
    extras: Seq<(Seq<char>, Seq<char>)>,
    now: UtcTime,
)
    requires
        store.signed(method, key, body, extras, now) is Ok,
    ensures
        ({
            &&& store.endpoint.host matches Some(endpoint)
            &&& {
                let port = match store.endpoint.port {
                    Some(port) => ":"@ + decimal(port as nat),
                    None => Seq::empty(),
                };
                let address = if store.path_style {
                    store.endpoint.scheme + "://"@ + endpoint + port + "/"@ + aws_bytes(
                        encode_utf8(store.bucket),
                        false,
                    ) + "/"@ + aws_bytes(encode_utf8(key), true)
                } else {
                    store.endpoint.scheme + "://"@ + store.bucket + "."@ + endpoint + port + "/"@
                        + aws_bytes(encode_utf8(key), true)
                };
                &&& url_read(address) matches Some(url)
                &&& store.signed(method, key, body, extras, now)->Ok_0.url == url.text
            }
        }),
{
    reveal_strlit(":");
    reveal_strlit("/");
    reveal_strlit(".");
    let endpoint = store.endpoint.host->Some_0;
    let port = match store.endpoint.port {
        Some(port) => ":"@ + decimal(port as nat),
        None => Seq::empty(),
    };
    let path = aws_bytes(encode_utf8(key), true);
    let bucket = aws_bytes(encode_utf8(store.bucket), false);
    if store.path_style {
        assert(store.object_address(endpoint, key) =~= store.endpoint.scheme + "://"@ + endpoint
            + port + "/"@ + bucket + "/"@ + path);
    } else {
        assert(store.object_address(endpoint, key) =~= store.endpoint.scheme + "://"@ + store.bucket
            + "."@ + endpoint + port + "/"@ + path);
    }
}

/// The authorization of a signed request: it names the key, the day, the region and the service,
/// then the signed headers, and its signature is the code of the day, the region and the service in
/// turn, under the secret, over the moment, the scope and the digest of the canonical request, which
/// is the method, the path of the object, its headers and the digest of its body.
pub proof fn law_the_signature_covers_the_request(
    store: S3View,
    url: Seq<char>,
    host: Seq<char>,
    path: Seq<char>,
    method: Seq<char>,
    body: Seq<u8>,
    extras: Seq<(Seq<char>, Seq<char>)>,
    now: UtcTime,
) -> (fields: Seq<(Seq<char>, Seq<char>)>)
    requires
        store.signed_at(url, host, path, method, body, extras, now) is Ok,
    ensures
        in_order(fields),
        fields.contains(("host"@, host)),
        fields.contains(("x-amz-date"@, moment_text(now))),
        fields.contains(("x-amz-content-sha256"@, hex_text(sha256_of(body)))),
        store.session_token matches Some(token) ==> fields.contains(
            ("x-amz-security-token"@, token),
        ),
        forall|i: int|
            0 <= i < extras.len() ==> fields.contains(
                (lowered((#[trigger] extras[i]).0), collapsed(extras[i].1)),
            ),
        ({
            let scope = date_text(now) + "/"@ + store.region + "/s3/aws4_request"@;
            let canonical = method + "\n"@ + path + "\n"@ + "\n"@ + field_lines(fields) + "\n"@
                + field_names(fields) + "\n"@ + hex_text(sha256_of(body));
            let signed = "AWS4-HMAC-SHA256"@ + "\n"@ + moment_text(now) + "\n"@ + scope + "\n"@
                + hex_text(sha256_of(encode_utf8(canonical)));
            let code = hmac_sha256_of(
                hmac_sha256_of(
                    hmac_sha256_of(
                        hmac_sha256_of(
                            hmac_sha256_of(
                                encode_utf8("AWS4"@ + store.secret_access_key),
                                encode_utf8(date_text(now)),
                            ),
                            encode_utf8(store.region),
                        ),
                        encode_utf8("s3"@),
                    ),
                    encode_utf8("aws4_request"@),
                ),
                encode_utf8(signed),
            );
            let request = store.signed_at(url, host, path, method, body, extras, now)->Ok_0;
            &&& request.url == url
            &&& request.authorization == "AWS4-HMAC-SHA256 Credential="@ + store.access_key_id
                + "/"@ + scope + ",SignedHeaders="@ + field_names(fields) + ",Signature="@
                + hex_text(code)
        }),
{
    let payload = digest_text(body);
    let own = store.own_fields(host, payload, moment_text(now));
    let fields = with_extras(own, extras)->Some_0;
    law_signed_headers_are_in_order(store, host, payload, moment_text(now), extras);
    lemma_own_values(store, host, payload, moment_text(now));
    lemma_extras_join(own, extras);
    lemma_field_stays(own, fields, ("host"@, host));
    lemma_field_stays(own, fields, ("x-amz-date"@, moment_text(now)));
    lemma_field_stays(own, fields, ("x-amz-content-sha256"@, payload));
    if let Some(token) = store.session_token {
        lemma_field_stays(own, fields, ("x-amz-security-token"@, token));
    }
    reveal_strlit("/");
    reveal_strlit("\n");
    reveal_strlit("\n\n");
    reveal_strlit("AWS4-HMAC-SHA256");
    reveal_strlit("AWS4-HMAC-SHA256\n");
    assert("AWS4-HMAC-SHA256\n"@ =~= "AWS4-HMAC-SHA256"@ + "\n"@);
    assert("\n\n"@ =~= "\n"@ + "\n"@);
    let scope = date_text(now) + "/"@ + store.region + "/s3/aws4_request"@;
    assert(store.credential_scope(date_text(now)) =~= scope);
    let canonical = method + "\n"@ + path + "\n"@ + "\n"@ + field_lines(fields) + "\n"@
        + field_names(fields) + "\n"@ + hex_text(sha256_of(body));
    assert(canonical_request(method, path, fields, payload) =~= canonical);
    let signed = "AWS4-HMAC-SHA256"@ + "\n"@ + moment_text(now) + "\n"@ + scope + "\n"@ + hex_text(
        sha256_of(encode_utf8(canonical)),
    );
    assert(store.string_to_sign(canonical, now) =~= signed);
    assert(store.authorization(canonical, fields, now) =~= "AWS4-HMAC-SHA256 Credential="@
        + store.access_key_id + "/"@ + scope + ",SignedHeaders="@ + field_names(fields)
        + ",Signature="@ + store.signature(canonical, now));
    fields
}

/// A field that is there is among all fields.
proof fn lemma_field_stays(
    own: Seq<(Seq<char>, Seq<char>)>,
    all: Seq<(Seq<char>, Seq<char>)>,
    field: (Seq<char>, Seq<char>),
)
    requires
        own.contains(field),
        forall|i: int| 0 <= i < own.len() ==> all.contains(#[trigger] own[i]),
    ensures
        all.contains(field),
{
    let i = choose|i: int| 0 <= i < own.len() && own[i] == field;
    assert(all.contains(own[i]));
}

/// The canonical headers are one line for each, `name:value`, and the signed headers are their names
/// with a semicolon between each two.
pub proof fn law_headers_are_signed_line_by_line(
    fields: Seq<(Seq<char>, Seq<char>)>,
    field: (Seq<char>, Seq<char>),
)
    ensures
        field_lines(Seq::empty()) == Seq::<char>::empty(),
        field_lines(fields.push(field)) == field_lines(fields) + field.0 + ":"@ + field.1 + "\n"@,
        field_names(seq![field]) == field.0,
        fields.len() > 0 ==> field_names(fields.push(field)) == field_names(fields) + ";"@ + field.0,
{
    reveal_strlit(":");
    reveal_strlit("\n");
    reveal_strlit(";");
    assert(fields.push(field).drop_last() =~= fields);
    assert(field_lines(fields.push(field)) =~= field_lines(fields) + field.0 + ":"@ + field.1
        + "\n"@);
    if fields.len() > 0 {
        assert(field_names(fields.push(field)) =~= field_names(fields) + ";"@ + field.0);
    }
}

/// An object that is created is stored as what it is, compressed with zstd.
pub proof fn law_created_objects_have_their_type(
    store: S3View,
    key: Seq<char>,
    value: Seq<u8>,
    now: UtcTime,
)
    requires
        store.signed("PUT"@, key, value, create_headers(), now) is Ok,
    ensures
        store.signed("PUT"@, key, value, create_headers(), now)->Ok_0.headers.contains(
            ("content-type"@, "application/zstd"@),
        ),
        store.signed("PUT"@, key, value, create_headers(), now)->Ok_0.headers.contains(
            ("x-amz-content-sha256"@, hex_text(sha256_of(value))),
        ),
{
    reveal_strlit("host");
    reveal_strlit("content-type");
    reveal_strlit("application/zstd");
    assert(lowered("content-type"@) =~= "content-type"@);
    assert("content-type"@.len() != "host"@.len());
    lemma_collapsed_word("application/zstd"@);
    assert(create_headers()[0] == ("content-type"@, "application/zstd"@));
    law_signed_requests_carry_their_headers(
        store,
        "PUT"@,
        key,
        value,
        create_headers(),
        now,
        0,
        -1,
    );
}

/// Every request for a valid key is signed, where the store has a host and the address is a URL and
/// no extra header is empty or stands twice; a key that is not valid is refused before all else.
pub proof fn law_when_requests_are_signed(
    store: S3View,
    method: Seq<char>,
    key: Seq<char>,
    body: Seq<u8>,
    now: UtcTime,
)
    ensures
        !valid_key(key) ==> store.signed(method, key, body, Seq::empty(), now) == Err::<
            SignedView,
            StoreError,
        >(StoreError::InvalidKey),
        valid_key(key) && store.endpoint.host is None ==> store.signed(
            method,
            key,
            body,
            Seq::empty(),
            now,
        ) == Err::<SignedView, StoreError>(StoreError::NoHost),
        valid_key(key) && store.endpoint.host is Some && url_read(
            store.object_address(store.endpoint.host->Some_0, key),
        ) is Some ==> store.signed(method, key, body, Seq::empty(), now) is Ok,
{
}

/// A store and its signed requests are seen whole: no field is left out.
pub proof fn law_stores_are_seen_whole(store: S3Store, request: SignedRequest)
    ensures
        store@.endpoint == store.endpoint@,
        store@.region == store.region@,
        store@.bucket == store.bucket@,
        store@.path_style == store.path_style,
        store@.access_key_id == store.access_key_id@,
        store@.secret_access_key == store.secret_access_key@,
        store.session_token is None ==> store@.session_token is None,
        store.session_token matches Some(token) ==> store@.session_token == Some(token@),
        store@.timeout_seconds == store.timeout_seconds,
        request@.url == request.url@,
        request@.authorization == request.authorization@,
        request@.headers == text_header_views(request.headers@),
{
}

} // verus!
