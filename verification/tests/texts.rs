//! Texts, digits, identifiers and JSON.

use milk_parlor::digest::sha256_hex;
use milk_parlor::identity::Profile;
use milk_parlor::identity::Protocol;
use milk_parlor::identity::Target;
use milk_parlor::identity::Uuid;
use milk_parlor::json::bool_member;
use milk_parlor::json::member;
use milk_parlor::json::number_member;
use milk_parlor::json::object_text;
use milk_parlor::json::optional_member;
use milk_parlor::json::optional_number_member;
use milk_parlor::json::text_member;
use milk_parlor::layout::capture_key;
use milk_parlor::layout::pointer_key;
use milk_parlor::layout::route_key;
use milk_parlor::layout::status_key;
use milk_parlor::store::validate_key;
use milk_parlor::text::chars_of;
use milk_parlor::text::collapse_whitespace;
use milk_parlor::text::decimal_text;
use milk_parlor::text::decode_sha256;
use milk_parlor::text::has_prefix;
use milk_parlor::text::has_suffix;
use milk_parlor::text::has_whitespace;
use milk_parlor::text::hex;
use milk_parlor::text::is_sha256;
use milk_parlor::text::is_whitespace;
use milk_parlor::text::joined;
use milk_parlor::text::padded_text;
use milk_parlor::text::parse_u64;
use milk_parlor::text::parse_usize;
use milk_parlor::text::same_text;
use milk_parlor::text::text_of;
use milk_parlor::text::to_ascii_lowercase;
use milk_parlor::text::trim_end_slashes;

const SCOPE: &str = "11111111-1111-4111-8111-111111111111";

fn uuid(text: &str) -> Uuid {
    Uuid::parse_str(text).unwrap()
}

#[test]
fn characters_make_their_text_again() {
    let text = "aé漢🥛";
    assert_eq!(chars_of(text).len(), 4);
    assert_eq!(text_of(&chars_of(text)), text);
    assert_eq!(joined("milk", "/v2"), "milk/v2");
}

#[test]
fn texts_are_compared_whole() {
    assert!(same_text("milk", "milk"));
    assert!(!same_text("milk", "milk "));
    assert!(!same_text("é", "e"));
    assert!(has_prefix("x-milk-a", "x-milk-"));
    assert!(!has_prefix("x-mil", "x-milk-"));
    assert!(has_suffix("/base/v1", "/v1"));
    assert!(!has_suffix("v1", "/v1"));
}

#[test]
fn slashes_at_the_end_are_trimmed() {
    assert_eq!(trim_end_slashes("https://a.example//"), "https://a.example");
    assert_eq!(trim_end_slashes("///"), "");
    assert_eq!(trim_end_slashes("/v1"), "/v1");
}

#[test]
fn only_ascii_capitals_are_made_small() {
    assert_eq!(to_ascii_lowercase("BEARER-É-z"), "bearer-É-z");
}

#[test]
fn bytes_are_written_in_small_hexadecimal_digits() {
    assert_eq!(hex(&[0, 0xff, 0x10, 0xab]), "00ff10ab");
    assert_eq!(
        sha256_hex(b"abc"),
        "ba7816bf8f01cfea414140de5dae2223b00361a396177a9cb410ff61f20015ad"
    );
    assert_eq!(
        sha256_hex(b""),
        "e3b0c44298fc1c149afbf4c8996fb92427ae41e4649b934ca495991b7852b855"
    );
}

#[test]
fn digests_have_sixty_four_small_digits() {
    let good = "ba7816bf8f01cfea414140de5dae2223b00361a396177a9cb410ff61f20015ad";
    assert!(is_sha256(good));
    assert!(!is_sha256(&good[1..]));
    assert!(!is_sha256(&good.to_uppercase()));
    assert!(!is_sha256(&format!("g{}", &good[1..])));
    let bytes = decode_sha256(good).unwrap();
    assert_eq!(bytes[0], 0xba);
    assert_eq!(bytes[31], 0xad);
    assert_eq!(hex(&bytes), good);
    assert!(decode_sha256(&good.to_uppercase()).is_none());
}

#[test]
fn numbers_read_back_as_they_are_written() {
    for n in [0u64, 7, 10, 4096, u64::MAX] {
        assert_eq!(decimal_text(n), n.to_string());
        assert_eq!(parse_u64(&decimal_text(n)), Some(n));
    }
    assert_eq!(padded_text(7, 2), "07");
    assert_eq!(padded_text(12345, 4), "12345");
}

#[test]
fn numbers_are_read_as_the_standard_library_reads_them() {
    for text in [
        "0", "7", "+7", "007", "", "+", "-1", " 1", "1 ", "1e3", "18446744073709551615",
        "18446744073709551616", "99999999999999999999999", "+18446744073709551615",
    ] {
        assert_eq!(parse_u64(text), text.parse::<u64>().ok(), "{}", text);
        assert_eq!(parse_usize(text), text.parse::<usize>().ok(), "{}", text);
    }
}

#[test]
fn white_space_is_that_of_the_standard_library() {
    for n in 0..=0x10ffffu32 {
        if let Some(c) = char::from_u32(n) {
            assert_eq!(is_whitespace(c), c.is_whitespace(), "{}", n);
        }
    }
    assert!(has_whitespace("a\u{3000}b"));
    assert!(!has_whitespace("ab"));
    for text in ["", "  ", "a", " a  b\t\nc ", "\u{2003}x\u{2003}y"] {
        let wanted = text.split_whitespace().collect::<Vec<_>>().join(" ");
        assert_eq!(collapse_whitespace(text), wanted);
    }
}

#[test]
fn a_uuid_reads_back_from_its_text() {
    let id = uuid(SCOPE);
    assert_eq!(id.value, 0x11111111_1111_4111_8111_111111111111);
    assert_eq!(id.to_text(), SCOPE);
    assert_eq!(Uuid::parse_str(&id.to_text()), Some(id));
    assert_eq!(id.to_bytes(), vec![
        0x11, 0x11, 0x11, 0x11, 0x11, 0x11, 0x41, 0x11, 0x81, 0x11, 0x11, 0x11, 0x11, 0x11, 0x11,
        0x11,
    ]);
    assert!(Uuid { value: 0 }.is_nil());
    assert!(!id.is_nil());
}

#[test]
fn a_uuid_is_read_in_each_of_its_forms() {
    let id = Uuid { value: 0xabcdef01_2345_6789_abcd_ef0123456789 };
    for text in [
        "abcdef0123456789abcdef0123456789",
        "ABCDEF01-2345-6789-abcd-ef0123456789",
        "{abcdef01-2345-6789-abcd-ef0123456789}",
        "urn:uuid:abcdef01-2345-6789-abcd-ef0123456789",
        "URN:UUID:ABCDEF01-2345-6789-ABCD-EF0123456789",
    ] {
        assert_eq!(Uuid::parse_str(text), Some(id), "{}", text);
    }
    for text in [
        "",
        "abcdef0123456789abcdef012345678",
        "abcdef01-2345-6789-abcd-ef012345678g",
        "abcdef012-345-6789-abcd-ef0123456789",
        "{abcdef0123456789abcdef0123456789}",
        "(abcdef01-2345-6789-abcd-ef0123456789)",
    ] {
        assert_eq!(Uuid::parse_str(text), None, "{}", text);
    }
}

#[test]
fn a_new_uuid_is_of_version_seven() {
    let a = Uuid::now_v7();
    let b = Uuid::now_v7();
    assert_eq!((a.value >> 76) & 0xf, 7);
    assert_ne!(a, b);
    assert_eq!(&a.to_text()[14..15], "7");
}

#[test]
fn names_are_those_of_documents_and_captures() {
    assert_eq!(Protocol::ChatCompletions.as_str(), "chat_completions");
    assert_eq!(Protocol::Responses.as_str(), "responses");
    assert_eq!(Target::Baseline.as_str(), "baseline");
    assert_eq!(Target::CandidateA.as_str(), "candidate-a");
    assert_eq!(Profile::Production.as_str(), "production");
    assert_eq!(Profile::Mechanics.as_str(), "mechanics");
}

#[test]
fn objects_are_written_without_white_space() {
    let members = vec![
        text_member("text", "a\"b\\c\n\u{1}é"),
        number_member("number", 12),
        bool_member("yes", true),
        bool_member("no", false),
        optional_member("nothing", &None),
        optional_member("something", &Some("x".to_owned())),
        optional_number_member("none", None),
        optional_number_member("some", Some(3)),
        member("empty", object_text(&Vec::new())),
    ];
    assert_eq!(
        object_text(&members),
        "{\"text\":\"a\\\"b\\\\c\\n\\u0001é\",\"number\":12,\"yes\":true,\"no\":false,\
         \"nothing\":null,\"something\":\"x\",\"none\":null,\"some\":3,\"empty\":{}}"
    );
}

#[test]
fn texts_are_quoted_as_serde_json_quotes_them() {
    for n in 0..0x180u32 {
        let c = char::from_u32(n).unwrap();
        let text = format!("a{}b", c);
        let wanted = format!("{{\"k\":{}}}", serde_json::to_string(&text).unwrap());
        assert_eq!(object_text(&vec![text_member("k", &text)]), wanted);
    }
}

#[test]
fn objects_differ_where_their_members_do() {
    let a = object_text(&vec![text_member("a", "x\",\"b\":\"y")]);
    let b = object_text(&vec![text_member("a", "x"), text_member("b", "y")]);
    assert_ne!(a, b);
    assert_ne!(
        object_text(&vec![number_member("n", 1), number_member("m", 23)]),
        object_text(&vec![number_member("n", 12), number_member("m", 3)])
    );
}

#[test]
fn objects_lie_under_the_keys_of_their_scope() {
    let scope = uuid(SCOPE);
    let other = Uuid { value: 0x22222222_2222_4222_8222_222222222222 };
    assert_eq!(
        pointer_key(scope),
        "milk/v2/scopes/11111111-1111-4111-8111-111111111111/r/current.json"
    );
    assert_eq!(
        route_key(scope, other),
        "milk/v2/scopes/11111111-1111-4111-8111-111111111111/r/22222222-2222-4222-8222-222222222222.json"
    );
    assert_eq!(
        capture_key(scope, other),
        "milk/v2/scopes/11111111-1111-4111-8111-111111111111/c/22222222-2222-4222-8222-222222222222.json.zst"
    );
    assert_eq!(
        status_key(scope),
        "milk/v2/scopes/11111111-1111-4111-8111-111111111111/status/current.json"
    );
    for key in [
        pointer_key(scope),
        route_key(scope, other),
        capture_key(scope, other),
        status_key(scope),
    ] {
        assert!(validate_key(&key).is_ok());
    }
    assert_ne!(capture_key(scope, other), capture_key(other, scope));
    assert_ne!(capture_key(scope, other), capture_key(scope, scope));
}
