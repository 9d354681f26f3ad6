//! The object store: keys, signed requests and answers.

use milk_parlor::boundary::UrlParts;
use milk_parlor::boundary::UtcTime;
use milk_parlor::config::ConfigError;
use milk_parlor::config::ConfigProblem;
use milk_parlor::config::EnvValue;
use milk_parlor::identity::Uuid;
use milk_parlor::signing::aws_encode;
use milk_parlor::signing::aws_encode_path;
use milk_parlor::signing::text_before;
use milk_parlor::signing::ObjectUrl;
use milk_parlor::signing::S3Store;
use milk_parlor::store::append_chunk;
use milk_parlor::store::create_outcome;
use milk_parlor::store::get_step;
use milk_parlor::store::require_origin;
use milk_parlor::store::validate_key;
use milk_parlor::store::GetStep;
use milk_parlor::store::LocalStore;
use milk_parlor::store::S3Values;
use milk_parlor::store::Store;
use milk_parlor::store::StoreError;
use milk_parlor::store::StoreValues;

fn text(value: &str) -> EnvValue {
    EnvValue::Text(value.to_owned())
}

fn s3_values() -> S3Values {
    S3Values {
        endpoint: text("https://s3.example.com"),
        region: text("us-east-1"),
        bucket: text("bucket"),
        access_key_id: text("access-for-tests"),
        secret_access_key: text("secret-for-tests"),
        session_token: EnvValue::Absent,
        path_style: EnvValue::Absent,
        timeout_seconds: EnvValue::Absent,
    }
}

fn s3(values: S3Values) -> S3Store {
    match S3Store::from_environment(values) {
        Ok(store) => store,
        Err(error) => panic!("{}", error.message()),
    }
}

fn s3_problem(values: S3Values) -> (String, ConfigProblem) {
    match S3Store::from_environment(values) {
        Ok(_) => panic!("accepted"),
        Err(error) => (error.name, error.problem),
    }
}

fn moment() -> UtcTime {
    UtcTime {
        nanos: 1704164645000000000,
        year: 2024,
        month: 1,
        day: 2,
        hour: 3,
        minute: 4,
        second: 5,
    }
}

fn place(store: &S3Store, key: &str) -> ObjectUrl {
    match store.object_url(key) {
        Ok(place) => place,
        Err(error) => panic!("{:?}", error),
    }
}

#[test]
fn keys_are_relative_paths_of_names() {
    for key in ["a", "a/b.json", "a/./b", "a//b", "..a", "a/...", "a/"] {
        assert_eq!(validate_key(key), Ok(()), "{}", key);
    }
    for key in ["", "/a", ".", "./a", "..", "../a", "a/..", "a/../b"] {
        assert_eq!(validate_key(key), Err(StoreError::InvalidKey), "{}", key);
    }
}

#[test]
fn keys_are_judged_as_the_standard_library_reads_paths() {
    let parts = ["a", ".", "..", "", "b."];
    for x in parts {
        for y in parts {
            for z in parts {
                let key = format!("{}/{}/{}", x, y, z);
                let path = std::path::Path::new(&key);
                let good = !path.is_absolute()
                    && path
                        .components()
                        .all(|part| matches!(part, std::path::Component::Normal(_)));
                assert_eq!(validate_key(&key).is_ok(), good, "{}", key);
            }
        }
    }
}

#[test]
fn local_objects_lie_under_the_root() {
    let store = LocalStore { root: "./data".to_owned() };
    assert_eq!(store.path("milk/v2/a"), Ok("./data/milk/v2/a".to_owned()));
    assert_eq!(LocalStore { root: "/srv/".to_owned() }.path("a"), Ok("/srv/a".to_owned()));
    assert_eq!(LocalStore { root: String::new() }.path("a"), Ok("a".to_owned()));
    assert_eq!(store.path("../a"), Err(StoreError::InvalidKey));
    assert_eq!(LocalStore::check_size(1048576), Ok(()));
    assert_eq!(LocalStore::check_size(1048577), Err(StoreError::TooLarge));
    assert_eq!(
        LocalStore::temporary_name(Uuid { value: 1 }),
        ".00000000-0000-0000-0000-000000000001.tmp"
    );
}

#[test]
fn canonical_uris_escape_all_but_unreserved_bytes() {
    assert_eq!(aws_encode("aZ09-_.~"), "aZ09-_.~");
    assert_eq!(aws_encode("a/b c+\u{e9}"), "a%2Fb%20c%2B%C3%A9");
    assert_eq!(aws_encode_path("milk/v2/a b"), "milk/v2/a%20b");
    assert_eq!(aws_encode_path("//"), "//");
}

#[test]
fn keys_that_differ_lie_apart() {
    let keys = ["a/b", "a%2Fb", "a b", "a%20b", "a+b", "\u{e9}", "e"];
    let local = LocalStore { root: "data".to_owned() };
    let remote = s3(s3_values());
    for (i, a) in keys.iter().enumerate() {
        for b in &keys[i + 1..] {
            assert_ne!(aws_encode_path(a), aws_encode_path(b));
            assert_ne!(aws_encode(a), aws_encode(b));
            assert_ne!(local.path(a), local.path(b));
            assert_ne!(place(&remote, a).canonical_uri, place(&remote, b).canonical_uri);
        }
    }
}

#[test]
fn names_are_ordered_by_their_characters() {
    assert!(text_before("host", "x-amz-date"));
    assert!(text_before("x-amz-", "x-amz-date"));
    assert!(!text_before("host", "host"));
    assert!(!text_before("b", "a"));
}

#[test]
fn objects_are_addressed_by_path() {
    let place = place(&s3(s3_values()), "milk/v2/a b.json");
    assert_eq!(place.url, "https://s3.example.com/bucket/milk/v2/a%20b.json");
    assert_eq!(place.host, "s3.example.com");
    assert_eq!(place.canonical_uri, "/bucket/milk/v2/a%20b.json");
}

#[test]
fn objects_are_addressed_by_host() {
    let mut values = s3_values();
    values.endpoint = text("http://s3.example.com:9000/");
    values.path_style = text("false");
    let place = place(&s3(values), "milk/v2/a.json");
    assert_eq!(place.url, "http://bucket.s3.example.com:9000/milk/v2/a.json");
    assert_eq!(place.host, "bucket.s3.example.com:9000");
    assert_eq!(place.canonical_uri, "/milk/v2/a.json");
}

#[test]
fn a_read_is_signed() {
    let store = s3(s3_values());
    let place = place(&store, "milk/v2/a b.json");
    let request = match store.signed_request_at(place, "GET", b"", &[], &moment()) {
        Ok(request) => request,
        Err(error) => panic!("{:?}", error),
    };
    assert_eq!(request.url, "https://s3.example.com/bucket/milk/v2/a%20b.json");
    assert_eq!(
        request.authorization,
        "AWS4-HMAC-SHA256 Credential=access-for-tests/20240102/us-east-1/s3/aws4_request,\
         SignedHeaders=host;x-amz-content-sha256;x-amz-date,\
         Signature=98d43d895a21a13070877012a184877c30d9b8bebf73b6f91da254596dda8723"
    );
    let headers: Vec<(&str, &str)> =
        request.headers.iter().map(|h| (h.name.as_str(), h.value.as_str())).collect();
    assert_eq!(headers, vec![
        (
            "x-amz-content-sha256",
            "e3b0c44298fc1c149afbf4c8996fb92427ae41e4649b934ca495991b7852b855",
        ),
        ("x-amz-date", "20240102T030405Z"),
    ]);
}

#[test]
fn a_write_is_signed_with_its_headers_in_order() {
    let mut values = s3_values();
    values.endpoint = text("http://s3.example.com:9000");
    values.region = text("auto");
    values.path_style = text("0");
    values.session_token = text("token-for-tests");
    let store = s3(values);
    let place = place(&store, "milk/v2/a.json");
    let extras = [("If-None-Match", " * "), ("content-type", "application/octet-stream")];
    let request = match store.signed_request_at(place, "PUT", b"hello", &extras, &moment()) {
        Ok(request) => request,
        Err(error) => panic!("{:?}", error),
    };
    assert_eq!(
        request.authorization,
        "AWS4-HMAC-SHA256 Credential=access-for-tests/20240102/auto/s3/aws4_request,\
         SignedHeaders=content-type;host;if-none-match;x-amz-content-sha256;x-amz-date;\
         x-amz-security-token,\
         Signature=40fe744cc47ea70c3a0c385bc9a78e9033d74d98010b8c2e4dd1b31b70d23fa3"
    );
    let names: Vec<&str> = request.headers.iter().map(|h| h.name.as_str()).collect();
    assert_eq!(names, vec![
        "content-type", "if-none-match", "x-amz-content-sha256", "x-amz-date",
        "x-amz-security-token",
    ]);
}

#[test]
fn a_header_is_signed_once_and_not_empty() {
    let store = s3(s3_values());
    for extras in [[("", "a")], [("a", " ")], [("Host", "b")], [("x-amz-date", "now")]] {
        let place = place(&store, "a");
        let result = store.signed_request_at(place, "GET", b"", &extras, &moment());
        assert_eq!(result.err(), Some(StoreError::InvalidHeader));
    }
}

#[test]
fn requests_at_the_present_moment_are_signed() {
    let store = s3(s3_values());
    let read = match store.get_request("milk/v2/a") {
        Ok(request) => request,
        Err(error) => panic!("{:?}", error),
    };
    assert!(read.authorization.contains("SignedHeaders=host;x-amz-content-sha256;x-amz-date,"));
    assert_eq!(store.get_request("/a").err(), Some(StoreError::InvalidKey));
    let write = match store.create_request("milk/v2/a", b"hello") {
        Ok(request) => request,
        Err(error) => panic!("{:?}", error),
    };
    let headers: Vec<(&str, &str)> =
        write.headers.iter().map(|h| (h.name.as_str(), h.value.as_str())).collect();
    assert!(headers.contains(&("if-none-match", "*")));
    assert!(headers.contains(&("content-type", "application/zstd")));
    assert!(headers.contains(&(
        "x-amz-content-sha256",
        "2cf24dba5fb0a30e26e83b2ac5b9e29e1b161e5c1fa7425e73043362938b9824",
    )));
    assert_eq!(store.create_request("..", b"").err(), Some(StoreError::InvalidKey));
}

#[test]
fn an_endpoint_without_a_host_has_no_objects() {
    let mut store = s3(s3_values());
    store.endpoint.host = None;
    assert_eq!(store.object_url("a").err(), Some(StoreError::NoHost));
    let mut store = s3(s3_values());
    store.endpoint.host = Some("a b".to_owned());
    assert_eq!(store.object_url("a").err(), Some(StoreError::NotUrl));
}

#[test]
fn the_settings_of_the_service_are_checked() {
    let store = s3(s3_values());
    assert!(store.path_style);
    assert_eq!(store.timeout_seconds, 30);
    assert!(store.session_token.is_none());
    let mut values = s3_values();
    values.endpoint = text("s3.example.com");
    assert_eq!(s3_problem(values), ("MILK_STORE_ENDPOINT".to_owned(), ConfigProblem::NotUrl));
    for endpoint in [
        "ftp://s3.example.com", "https://s3.example.com/x", "https://s3.example.com?x",
        "https://s3.example.com/#x", "https://u@s3.example.com", "https://u:p@s3.example.com",
    ] {
        let mut values = s3_values();
        values.endpoint = text(endpoint);
        assert_eq!(
            s3_problem(values),
            ("MILK_STORE_ENDPOINT".to_owned(), ConfigProblem::NotOrigin),
            "{}",
            endpoint
        );
    }
    let mut values = s3_values();
    values.region = text("us east");
    assert_eq!(s3_problem(values), ("MILK_STORE_REGION".to_owned(), ConfigProblem::Invalid));
    let mut values = s3_values();
    values.bucket = EnvValue::Absent;
    assert_eq!(s3_problem(values), ("MILK_STORE_BUCKET".to_owned(), ConfigProblem::Required));
    let mut values = s3_values();
    values.access_key_id = text("");
    assert_eq!(s3_problem(values), ("MILK_STORE_ACCESS_KEY_ID".to_owned(), ConfigProblem::Empty));
    let mut values = s3_values();
    values.secret_access_key = text("a b");
    assert_eq!(
        s3_problem(values),
        ("MILK_STORE_SECRET_ACCESS_KEY".to_owned(), ConfigProblem::Invalid)
    );
    let mut values = s3_values();
    values.session_token = text("a b");
    assert_eq!(s3_problem(values), ("MILK_STORE_SESSION_TOKEN".to_owned(), ConfigProblem::Invalid));
    let mut values = s3_values();
    values.session_token = text("");
    assert!(s3(values).session_token.is_none());
    let mut values = s3_values();
    values.timeout_seconds = text("121");
    assert_eq!(
        s3_problem(values),
        (
            "MILK_STORE_TIMEOUT_SECONDS".to_owned(),
            ConfigProblem::OutOfRange { minimum: 1, maximum: 120 },
        )
    );
}

#[test]
fn an_origin_is_accepted_by_its_parts() {
    let parts = UrlParts {
        text: "https://a.example/".to_owned(),
        scheme: "https".to_owned(),
        username: String::new(),
        password: None,
        host: Some("a.example".to_owned()),
        port: None,
        path: "/".to_owned(),
        query: None,
        fragment: None,
    };
    assert!(require_origin("E", Some(parts)).is_ok());
    let refused: Result<UrlParts, ConfigError> = require_origin("E", None);
    match refused {
        Err(error) => assert_eq!(error.problem, ConfigProblem::NotUrl),
        Ok(_) => panic!("accepted"),
    }
}

#[test]
fn the_store_is_local_unless_it_is_set_otherwise() {
    let values = |kind: EnvValue, root: EnvValue| StoreValues { kind, root, s3: s3_values() };
    match Store::from_environment(values(EnvValue::Absent, EnvValue::Absent)) {
        Ok(Store::Local(store)) => assert_eq!(store.root, "./data"),
        _ => panic!("not local"),
    }
    match Store::from_environment(values(text("local"), text("/srv"))) {
        Ok(Store::Local(store)) => assert_eq!(store.root, "/srv"),
        _ => panic!("not local"),
    }
    match Store::from_environment(values(text("s3"), EnvValue::Absent)) {
        Ok(Store::S3(store)) => assert_eq!(store.bucket, "bucket"),
        _ => panic!("not s3"),
    }
    match Store::from_environment(values(text("disk"), EnvValue::Absent)) {
        Err(error) => assert_eq!(error.problem, ConfigProblem::NotStoreKind),
        _ => panic!("accepted"),
    }
    match Store::from_environment(values(EnvValue::NotUnicode, EnvValue::Absent)) {
        Err(error) => assert_eq!(error.problem, ConfigProblem::Unreadable),
        _ => panic!("accepted"),
    }
}

#[test]
fn answers_of_the_service_are_understood() {
    assert_eq!(get_step(404, None), Ok(GetStep::Missing));
    assert_eq!(get_step(200, Some(1048576)), Ok(GetStep::ReadBody));
    assert_eq!(get_step(200, None), Ok(GetStep::ReadBody));
    assert_eq!(get_step(200, Some(1048577)), Err(StoreError::TooLarge));
    assert_eq!(get_step(403, None), Err(StoreError::Status(403)));
    assert_eq!(create_outcome(200), Ok(()));
    assert_eq!(create_outcome(201), Ok(()));
    assert_eq!(create_outcome(412), Err(StoreError::AlreadyExists));
    assert_eq!(create_outcome(204), Err(StoreError::Status(204)));
}

#[test]
fn an_object_is_read_up_to_its_bound() {
    let mut value = vec![0u8; 1048570];
    assert_eq!(append_chunk(&mut value, &[1; 6]), Ok(()));
    assert_eq!(value.len(), 1048576);
    assert_eq!(append_chunk(&mut value, &[1]), Err(StoreError::TooLarge));
    assert_eq!(value.len(), 1048576);
    assert_eq!(append_chunk(&mut value, &[]), Ok(()));
}
