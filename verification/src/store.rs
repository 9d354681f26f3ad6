//! The object store: its keys, its settings and what its answers mean.

use vstd::prelude::*;

use crate::boundary::optional_text;
use crate::boundary::url_parse;
use crate::boundary::url_read;
use crate::boundary::UrlParts;
use crate::boundary::UrlView;
use crate::config::bounded_identity;
use crate::config::config_error;
use crate::config::env_bool;
use crate::config::env_u64;
use crate::config::flag_setting;
use crate::config::is_identity;
use crate::config::is_secret;
use crate::config::number_setting;
use crate::config::required_env;
use crate::config::secret;
use crate::config::secret_setting;
use crate::config::validate_secret;
use crate::config::ConfigError;
use crate::config::ConfigProblem;
use crate::config::EnvValue;
use crate::identity::Uuid;
use crate::signing::S3Store;
use crate::signing::S3View;
use crate::text::chars_of;
use crate::text::lowered;
use crate::text::parsed_decimal;
use crate::text::same_text;

verus! {

/// The most bytes of an object that are read.
pub const MAX_GET_BYTES: usize = 1048576;

/// Why the store refuses a request or an answer.
#[derive(Clone, Copy, Debug, PartialEq, Eq, Structural)]
pub enum StoreError {
    InvalidKey,
    /// The endpoint has no host.
    NoHost,
    /// The object's address is not a URL.
    NotUrl,
    /// A header to be signed has no name, no value, or stands twice.
    InvalidHeader,
    /// The object is larger than what is read.
    TooLarge,
    /// The object is there already.
    AlreadyExists,
    /// The service answered with another status.
    Status(u16),
}

/// The characters from `i` on are two full stops that make a whole segment of the key.
pub open spec fn parent_segment_at(key: Seq<char>, i: int) -> bool {
    &&& 0 <= i
    &&& i + 2 <= key.len()
    &&& key[i] == '.' && key[i + 1] == '.'
    &&& i == 0 || key[i - 1] == '/'
    &&& i + 2 == key.len() || key[i + 2] == '/'
}

/// An object key: a relative path that starts with a name and never leads upwards.
pub open spec fn valid_key(key: Seq<char>) -> bool {
    &&& key.len() > 0
    &&& key[0] != '/'
    &&& !(key[0] == '.' && (key.len() == 1 || key[1] == '/'))
    &&& forall|i: int| !#[trigger] parent_segment_at(key, i)
}

/// Refuses a key that is not a relative path of names.
pub fn validate_key(key: &str) -> (result: Result<(), StoreError>)
    ensures
        match result {
            Ok(_) => valid_key(key@),
            Err(error) => !valid_key(key@) && error == StoreError::InvalidKey,
        },
{
    let all = chars_of(key);
    if all.len() == 0 || all[0] == '/' || (all[0] == '.' && (all.len() == 1 || all[1] == '/')) {
        return Err(StoreError::InvalidKey);
    }
    for i in 0..all.len()
        invariant
            all@ == key@,
            forall|k: int| 0 <= k < i ==> !#[trigger] parent_segment_at(key@, k),
    {
        if all[i] == '.' && all.len() - i >= 2 && all[i + 1] == '.' && (i == 0 || all[i - 1] == '/')
            && (all.len() - i == 2 || all[i + 2] == '/') {
            assert(parent_segment_at(key@, i as int));
            return Err(StoreError::InvalidKey);
        }
    }
    assert forall|i: int| !#[trigger] parent_segment_at(key@, i) by {
        if 0 <= i < all@.len() {
        }
    }
    Ok(())
}

/// A store in a directory.
pub struct LocalStore {
    pub root: String,
}

/// A path with a relative path after it.
pub open spec fn path_joined(root: Seq<char>, key: Seq<char>) -> Seq<char> {
    if root.len() == 0 {
        key
    } else if root.last() == '/' {
        root + key
    } else {
        root + seq!['/'] + key
    }
}

impl LocalStore {
    /// Where an object lies.
    pub fn path(&self, key: &str) -> (result: Result<String, StoreError>)
        ensures
            match result {
                Ok(path) => valid_key(key@) && path@ == path_joined(self.root@, key@),
                Err(error) => !valid_key(key@) && error == StoreError::InvalidKey,
            },
    {
        match validate_key(key) {
            Ok(_) => {
                let root = chars_of(self.root.as_str());
                let mut path = String::new();
                path.append(self.root.as_str());
                if root.len() > 0 && root[root.len() - 1] != '/' {
                    path.push('/');
                }
                path.append(key);
                assert(path@ =~= path_joined(self.root@, key@));
                Ok(path)
            },
            Err(error) => Err(error),
        }
    }
}

/// The settings of an S3 store in the environment.
pub struct S3Values {
    pub endpoint: EnvValue,
    pub region: EnvValue,
    pub bucket: EnvValue,
    pub access_key_id: EnvValue,
    pub secret_access_key: EnvValue,
    pub session_token: EnvValue,
    pub path_style: EnvValue,
    pub timeout_seconds: EnvValue,
}

/// An HTTP or HTTPS origin without credentials.
pub open spec fn is_origin(url: UrlView) -> bool {
    &&& url.scheme == "http"@ || url.scheme == "https"@
    &&& url.host is Some
    &&& url.query is None
    &&& url.fragment is None
    &&& url.username.len() == 0
    &&& url.password is None
    &&& url.path == ""@ || url.path == "/"@
}

/// Demands an HTTP or HTTPS origin of what was read as a URL.
pub fn require_origin(name: &str, url: Option<UrlParts>) -> (result: Result<UrlParts, ConfigError>)
    ensures
        match url {
            None => result matches Err(error) && error.is(name@, ConfigProblem::NotUrl),
            Some(parts) => if is_origin(parts@) {
                result matches Ok(found) && found@ == parts@
            } else {
                result matches Err(error) && error.is(name@, ConfigProblem::NotOrigin)
            },
        },
{
    match url {
        None => Err(config_error(name, ConfigProblem::NotUrl)),
        Some(parts) => {
            proof {
                reveal_strlit("");
            }
            let http = same_text(parts.scheme.as_str(), "http") || same_text(
                parts.scheme.as_str(),
                "https",
            );
            let root = same_text(parts.path.as_str(), "") || same_text(parts.path.as_str(), "/");
            if http && parts.host.is_some() && parts.query.is_none() && parts.fragment.is_none()
                && parts.username.as_str().is_empty() && parts.password.is_none() && root {
                Ok(parts)
            } else {
                Err(config_error(name, ConfigProblem::NotOrigin))
            }
        },
    }
}

/// What the setting of the endpoint comes to.
pub open spec fn endpoint_setting(value: EnvValue) -> Result<UrlView, ConfigProblem> {
    match value {
        EnvValue::Text(text) => if text@.len() == 0 {
            Err(ConfigProblem::Empty)
        } else {
            match url_read(text@) {
                None => Err(ConfigProblem::NotUrl),
                Some(url) => if is_origin(url) {
                    Ok(url)
                } else {
                    Err(ConfigProblem::NotOrigin)
                },
            }
        },
        _ => Err(ConfigProblem::Required),
    }
}

/// What the setting of a region or a bucket comes to.
pub open spec fn identity_setting(value: EnvValue) -> Result<Seq<char>, ConfigProblem> {
    match value {
        EnvValue::Text(text) => if text@.len() == 0 {
            Err(ConfigProblem::Empty)
        } else if is_identity(text@) {
            Ok(text@)
        } else {
            Err(ConfigProblem::Invalid)
        },
        _ => Err(ConfigProblem::Required),
    }
}

/// What the setting of the session token comes to: none where it is missing, unreadable or empty.
pub open spec fn token_setting(value: EnvValue) -> Result<Option<Seq<char>>, ConfigProblem> {
    match value {
        EnvValue::Text(text) => if text@.len() == 0 {
            Ok(None)
        } else if is_secret(text@) {
            Ok(Some(text@))
        } else {
            Err(ConfigProblem::Invalid)
        },
        _ => Ok(None),
    }
}

/// The endpoint of an S3 service.
fn read_endpoint(value: EnvValue) -> (result: Result<UrlParts, ConfigError>)
    ensures
        match endpoint_setting(value) {
            Ok(url) => result matches Ok(found) && found@ == url,
            Err(problem) => result matches Err(error) && error.is("MILK_STORE_ENDPOINT"@, problem),
        },
{
    match required_env("MILK_STORE_ENDPOINT", value) {
        Ok(text) => require_origin("MILK_STORE_ENDPOINT", url_parse(text.as_str())),
        Err(error) => Err(error),
    }
}

/// The name of a region or a bucket.
fn read_identity(name: &str, value: EnvValue) -> (result: Result<String, ConfigError>)
    ensures
        match identity_setting(value) {
            Ok(text) => result matches Ok(found) && found@ == text,
            Err(problem) => result matches Err(error) && error.is(name@, problem),
        },
{
    match required_env(name, value) {
        Ok(text) => bounded_identity(name, text.as_str()),
        Err(error) => Err(error),
    }
}

/// The session token, where there is one.
fn read_token(value: EnvValue) -> (result: Result<Option<String>, ConfigError>)
    ensures
        match token_setting(value) {
            Ok(token) => result matches Ok(found) && optional_text(found) == token,
            Err(problem) => result matches Err(error) && error.is(
                "MILK_STORE_SESSION_TOKEN"@,
                problem,
            ),
        },
{
    match value {
        EnvValue::Text(text) => if text.as_str().is_empty() {
            Ok(None)
        } else {
            match validate_secret("MILK_STORE_SESSION_TOKEN", text) {
                Ok(token) => Ok(Some(token)),
                Err(error) => Err(error),
            }
        },
        _ => Ok(None),
    }
}

impl S3View {
    /// What the settings come to; else the first that cannot be used, and why.
    pub open spec fn read(values: S3Values) -> Result<S3View, (Seq<char>, ConfigProblem)> {
        match endpoint_setting(values.endpoint) {
            Err(problem) => Err(("MILK_STORE_ENDPOINT"@, problem)),
            Ok(endpoint) => match identity_setting(values.region) {
                Err(problem) => Err(("MILK_STORE_REGION"@, problem)),
                Ok(region) => match identity_setting(values.bucket) {
                    Err(problem) => Err(("MILK_STORE_BUCKET"@, problem)),
                    Ok(bucket) => match secret_setting(values.access_key_id) {
                        Err(problem) => Err(("MILK_STORE_ACCESS_KEY_ID"@, problem)),
                        Ok(access_key_id) => match secret_setting(values.secret_access_key) {
                            Err(problem) => Err(("MILK_STORE_SECRET_ACCESS_KEY"@, problem)),
                            Ok(secret_access_key) => S3View::read_options(
                                values,
                                S3View {
                                    endpoint,
                                    region,
                                    bucket,
                                    path_style: true,
                                    access_key_id,
                                    secret_access_key,
                                    session_token: None,
                                    timeout_seconds: 30,
                                },
                            ),
                        },
                    },
                },
            },
        }
    }

    /// What the optional settings come to, after the required ones.
    pub open spec fn read_options(values: S3Values, required: S3View) -> Result<
        S3View,
        (Seq<char>, ConfigProblem),
    > {
        match token_setting(values.session_token) {
            Err(problem) => Err(("MILK_STORE_SESSION_TOKEN"@, problem)),
            Ok(session_token) => match flag_setting(values.path_style, true) {
                Err(problem) => Err(("MILK_STORE_PATH_STYLE"@, problem)),
                Ok(path_style) => match number_setting(
                    values.timeout_seconds,
                    30,
                    1,
                    120,
                    u64::MAX as nat,
                ) {
                    Err(problem) => Err(("MILK_STORE_TIMEOUT_SECONDS"@, problem)),
                    Ok(timeout) => Ok(
                        S3View {
                            session_token,
                            path_style,
                            timeout_seconds: timeout as u64,
                            ..required
                        },
                    ),
                },
            },
        }
    }
}

impl S3Store {
    /// Reads the settings of an S3 store.
    pub fn from_environment(values: S3Values) -> (result: Result<S3Store, ConfigError>)
        ensures
            match S3View::read(values) {
                Ok(view) => result matches Ok(store) && store@ == view,
                Err((name, problem)) => result matches Err(error) && error.is(name, problem),
            },
    {
        let endpoint = match read_endpoint(values.endpoint) {
            Ok(found) => found,
            Err(error) => return Err(error),
        };
        let region = match read_identity("MILK_STORE_REGION", values.region) {
            Ok(found) => found,
            Err(error) => return Err(error),
        };
        let bucket = match read_identity("MILK_STORE_BUCKET", values.bucket) {
            Ok(found) => found,
            Err(error) => return Err(error),
        };
        let access_key_id = match secret("MILK_STORE_ACCESS_KEY_ID", values.access_key_id) {
            Ok(found) => found,
            Err(error) => return Err(error),
        };
        let secret_access_key = match secret(
            "MILK_STORE_SECRET_ACCESS_KEY",
            values.secret_access_key,
        ) {
            Ok(found) => found,
            Err(error) => return Err(error),
        };
        let session_token = match read_token(values.session_token) {
            Ok(found) => found,
            Err(error) => return Err(error),
        };
        let path_style = match env_bool("MILK_STORE_PATH_STYLE", values.path_style, true) {
            Ok(found) => found,
            Err(error) => return Err(error),
        };
        let timeout_seconds: u64 = match env_u64(
            "MILK_STORE_TIMEOUT_SECONDS",
            values.timeout_seconds,
            30,
            1,
            120,
        ) {
            Ok(found) => found,
            Err(error) => return Err(error),
        };
        Ok(
            S3Store {
                endpoint,
                region,
                bucket,
                path_style,
                access_key_id,
                secret_access_key,
                session_token,
                timeout_seconds,
            },
        )
    }
}

/// Where objects are kept.
pub enum Store {
    Local(LocalStore),
    S3(S3Store),
}

/// The settings of the store in the environment.
pub struct StoreValues {
    pub kind: EnvValue,
    pub root: EnvValue,
    pub s3: S3Values,
}

/// The kind of store that is set: a directory unless the setting says `s3`.
pub open spec fn kind_setting(value: EnvValue) -> Result<bool, ConfigProblem> {
    match value {
        EnvValue::Text(text) => if text@ == "s3"@ {
            Ok(true)
        } else if text@ == "local"@ {
            Ok(false)
        } else {
            Err(ConfigProblem::NotStoreKind)
        },
        EnvValue::Absent => Ok(false),
        EnvValue::NotUnicode => Err(ConfigProblem::Unreadable),
    }
}

/// The directory of a local store.
pub open spec fn root_setting(value: EnvValue) -> Seq<char> {
    match value {
        EnvValue::Text(text) => text@,
        _ => "./data"@,
    }
}

impl Store {
    /// Reads the settings of the store.
    pub fn from_environment(values: StoreValues) -> (result: Result<Store, ConfigError>)
        ensures
            match kind_setting(values.kind) {
                Err(problem) => result matches Err(error) && error.is("MILK_STORE_KIND"@, problem),
                Ok(false) => result matches Ok(Store::Local(store)) && store.root@ == root_setting(
                    values.root,
                ),
                Ok(true) => match S3View::read(values.s3) {
                    Ok(view) => result matches Ok(Store::S3(store)) && store@ == view,
                    Err((name, problem)) => result matches Err(error) && error.is(name, problem),
                },
            },
    {
        let s3 = match values.kind {
            EnvValue::Text(text) => if same_text(text.as_str(), "s3") {
                true
            } else if same_text(text.as_str(), "local") {
                proof {
                    reveal_strlit("s3");
                    reveal_strlit("local");
                }
                false
            } else {
                return Err(config_error("MILK_STORE_KIND", ConfigProblem::NotStoreKind));
            },
            EnvValue::Absent => false,
            EnvValue::NotUnicode => {
                return Err(config_error("MILK_STORE_KIND", ConfigProblem::Unreadable));
            },
        };
        if s3 {
            match S3Store::from_environment(values.s3) {
                Ok(store) => Ok(Store::S3(store)),
                Err(error) => Err(error),
            }
        } else {
            let root = match values.root {
                EnvValue::Text(text) => text,
                _ => "./data".to_owned(),
            };
            Ok(Store::Local(LocalStore { root }))
        }
    }
}

/// What the answer to a read means before its body is read.
#[derive(Clone, Copy, Debug, PartialEq, Eq, Structural)]
pub enum GetStep {
    /// There is no such object.
    Missing,
    /// The body is the object.
    ReadBody,
}

/// What an S3 service's answer to a read means.
pub open spec fn read_meaning(status: u16, content_length: Option<u64>) -> Result<
    GetStep,
    StoreError,
> {
    if status == 404 {
        Ok(GetStep::Missing)
    } else if status != 200 {
        Err(StoreError::Status(status))
    } else if content_length matches Some(length) && length > MAX_GET_BYTES {
        Err(StoreError::TooLarge)
    } else {
        Ok(GetStep::ReadBody)
    }
}

/// What an S3 service's answer to a read means.
pub fn get_step(status: u16, content_length: Option<u64>) -> (result: Result<GetStep, StoreError>)
    ensures
        result == read_meaning(status, content_length),
        result == (if status == 404 {
            Ok(GetStep::Missing)
        } else if status != 200 {
            Err(StoreError::Status(status))
        } else if content_length matches Some(length) && length > 1048576 {
            Err(StoreError::TooLarge)
        } else {
            Ok(GetStep::ReadBody)
        }),
{
    if status == 404 {
        return Ok(GetStep::Missing);
    }
    if status != 200 {
        return Err(StoreError::Status(status));
    }
    match content_length {
        Some(length) => if length > MAX_GET_BYTES as u64 {
            Err(StoreError::TooLarge)
        } else {
            Ok(GetStep::ReadBody)
        },
        None => Ok(GetStep::ReadBody),
    }
}

/// An object that is being read with a part of its body more, unless that makes it larger than what
/// is read.
pub open spec fn grown(value: Seq<u8>, chunk: Seq<u8>) -> Option<Seq<u8>> {
    if value.len() + chunk.len() <= MAX_GET_BYTES {
        Some(value + chunk)
    } else {
        None
    }
}

/// Adds a part of the body to an object that is being read, unless that makes it larger than what
/// is read.
pub fn append_chunk(value: &mut Vec<u8>, chunk: &[u8]) -> (result: Result<(), StoreError>)
    ensures
        match grown(old(value)@, chunk@) {
            Some(all) => result is Ok && final(value)@ == all,
            None => result == Err::<(), StoreError>(StoreError::TooLarge) && final(value)@ == old(
                value,
            )@,
        },
        if old(value)@.len() + chunk@.len() <= 1048576 {
            result is Ok && final(value)@ == old(value)@ + chunk@
        } else {
            result == Err::<(), StoreError>(StoreError::TooLarge) && final(value)@ == old(value)@
        },
{
    if chunk.len() > MAX_GET_BYTES || value.len() > MAX_GET_BYTES - chunk.len() {
        return Err(StoreError::TooLarge);
    }
    let ghost before = value@;
    value.extend_from_slice(chunk);
    assert(value@ =~= before + chunk@);
    Ok(())
}

/// What an S3 service's answer to a creation means.
pub open spec fn creation_meaning(status: u16) -> Result<(), StoreError> {
    if status == 200 || status == 201 {
        Ok(())
    } else if status == 412 {
        Err(StoreError::AlreadyExists)
    } else {
        Err(StoreError::Status(status))
    }
}

/// What an S3 service's answer to a creation means.
pub fn create_outcome(status: u16) -> (result: Result<(), StoreError>)
    ensures
        result == creation_meaning(status),
        result == (if status == 200 || status == 201 {
            Ok(())
        } else if status == 412 {
            Err(StoreError::AlreadyExists)
        } else {
            Err(StoreError::Status(status))
        }),
{
    if status == 200 || status == 201 {
        Ok(())
    } else if status == 412 {
        Err(StoreError::AlreadyExists)
    } else {
        Err(StoreError::Status(status))
    }
}

/// Whether an object in a file of this size is read.
pub open spec fn is_readable(length: int) -> bool {
    length <= MAX_GET_BYTES
}

/// The name of the file in which an object is written before it is linked to its place.
pub open spec fn temporary_text(id: Uuid) -> Seq<char> {
    seq!['.'] + id.text() + ".tmp"@
}

impl LocalStore {
    /// Whether an object in a file of this size is read.
    pub fn check_size(length: u64) -> (result: Result<(), StoreError>)
        ensures
            result is Ok <==> is_readable(length as int),
            result == (if length > 1048576 {
                Err(StoreError::TooLarge)
            } else {
                Ok(())
            }),
    {
        if length > MAX_GET_BYTES as u64 {
            Err(StoreError::TooLarge)
        } else {
            Ok(())
        }
    }

    /// The name of the file in which an object is written before it is linked to its place.
    pub fn temporary_name(id: Uuid) -> (result: String)
        ensures
            result@ == temporary_text(id),
            result@ == seq!['.'] + id.text() + ".tmp"@,
    {
        let mut name = String::new();
        name.push('.');
        name.append(id.to_text().as_str());
        name.append(".tmp");
        assert(name@ =~= seq!['.'] + id.text() + ".tmp"@);
        name
    }
}

/// Two objects of a local store never share a path.
pub proof fn law_local_objects_have_their_own_paths(root: Seq<char>, a: Seq<char>, b: Seq<char>)
    requires
        path_joined(root, a) == path_joined(root, b),
    ensures
        a == b,
{
    let start = path_joined(root, a).len() - a.len();
    assert(path_joined(root, a).skip(start) =~= a);
    assert(path_joined(root, b).skip(start) =~= b);
}

/// Keys that lead out of the store are refused: the empty key, one that begins with a slash, one
/// whose first name is a full stop, and one with a name of two full stops anywhere.
pub proof fn law_keys_that_lead_elsewhere_are_refused(before: Seq<char>, after: Seq<char>)
    ensures
        !valid_key(Seq::empty()),
        !valid_key("/"@ + after),
        !valid_key("."@),
        !valid_key("./"@ + after),
        !valid_key(".."@),
        !valid_key("../"@ + after),
        !valid_key(before + "/.."@),
        !valid_key(before + "/../"@ + after),
{
    reveal_strlit("/");
    reveal_strlit(".");
    reveal_strlit("./");
    reveal_strlit("..");
    reveal_strlit("../");
    reveal_strlit("/..");
    reveal_strlit("/../");
    assert(parent_segment_at(".."@, 0));
    assert(parent_segment_at("../"@ + after, 0));
    let n = before.len() as int;
    assert(parent_segment_at(before + "/.."@, n + 1));
    assert(parent_segment_at(before + "/../"@ + after, n + 1));
}

/// Every other key is taken: one that is not empty, begins neither with a slash nor with a full stop,
/// and in which no two full stops stand together.
pub proof fn law_plain_keys_are_taken(key: Seq<char>)
    requires
        key.len() > 0,
        key[0] != '/',
        key[0] != '.',
        forall|i: int| 0 <= i < key.len() - 1 && key[i] == '.' ==> #[trigger] key[i + 1] != '.',
    ensures
        valid_key(key),
{
    assert forall|i: int| !#[trigger] parent_segment_at(key, i) by {
        if parent_segment_at(key, i) {
            assert(key[i + 1] == '.');
        }
    }
}

/// An object of a local store lies under the root, one slash between the root and its key.
pub proof fn law_local_objects_lie_under_the_root(root: Seq<char>, key: Seq<char>)
    ensures
        root.len() > 0 && root.last() != '/' ==> path_joined(root, key) == root + "/"@ + key,
        root.len() > 0 && root.last() == '/' ==> path_joined(root, key) == root + key,
        root.len() == 0 ==> path_joined(root, key) == key,
{
    reveal_strlit("/");
    assert("/"@ =~= seq!['/']);
}

/// Which addresses a service may have: those of an origin over HTTP or HTTPS, with a host, and
/// without a user, a password, a query, a fragment or a path.
pub proof fn law_which_origins_are_taken(url: UrlView)
    ensures
        is_origin(url) <==> {
            &&& url.scheme == "http"@ || url.scheme == "https"@
            &&& url.host is Some
            &&& url.username == Seq::<char>::empty()
            &&& url.password is None
            &&& url.query is None
            &&& url.fragment is None
            &&& url.path == Seq::<char>::empty() || url.path == seq!['/']
        },
{
    reveal_strlit("");
    reveal_strlit("/");
    assert(""@ =~= Seq::<char>::empty());
    assert("/"@ =~= seq!['/']);
    if url.username.len() == 0 {
        assert(url.username =~= Seq::<char>::empty());
    }
}

/// What the settings of a service come to: each what was set under its own name; the bucket in the
/// path unless the setting says otherwise; and 30 seconds, or what was set from 1 to 120.
pub proof fn law_a_service_is_what_was_set(values: S3Values, view: S3View)
    requires
        S3View::read(values) == Ok::<S3View, (Seq<char>, ConfigProblem)>(view),
    ensures
        values.endpoint matches EnvValue::Text(text) && url_read(text@) == Some(view.endpoint)
            && is_origin(view.endpoint),
        values.region matches EnvValue::Text(text) && view.region == text@ && is_identity(text@)
            && text@.len() > 0,
        values.bucket matches EnvValue::Text(text) && view.bucket == text@ && is_identity(text@)
            && text@.len() > 0,
        values.access_key_id matches EnvValue::Text(text) && view.access_key_id == text@
            && is_secret(text@) && text@.len() > 0,
        values.secret_access_key matches EnvValue::Text(text) && view.secret_access_key == text@
            && is_secret(text@) && text@.len() > 0,
        values.session_token matches EnvValue::Text(text) ==> view.session_token == if text@.len()
            > 0 {
            Some(text@)
        } else {
            None
        },
        values.session_token is Absent ==> view.session_token is None,
        values.path_style is Absent ==> view.path_style,
        values.path_style matches EnvValue::Text(text) ==> view.path_style == (lowered(text@)
            == "true"@ || text@ == "1"@),
        values.timeout_seconds is Absent ==> view.timeout_seconds == 30,
        values.timeout_seconds matches EnvValue::Text(text) ==> parsed_decimal(text@) == Some(
            view.timeout_seconds as nat,
        ),
        1 <= view.timeout_seconds <= 120,
{
}

/// The settings of a service are read wherever each can be used, and else the first that cannot is
/// named.
pub proof fn law_which_service_settings_are_read(values: S3Values)
    ensures
        ({
            let endpoint = values.endpoint matches EnvValue::Text(text) && text@.len() > 0
                && url_read(text@) is Some && is_origin(url_read(text@)->Some_0);
            let region = endpoint && (values.region matches EnvValue::Text(text) && text@.len() > 0
                && is_identity(text@));
            let bucket = region && (values.bucket matches EnvValue::Text(text) && text@.len() > 0
                && is_identity(text@));
            let id = bucket && (values.access_key_id matches EnvValue::Text(text) && text@.len() > 0
                && is_secret(text@));
            let secret = id && (values.secret_access_key matches EnvValue::Text(text) && text@.len()
                > 0 && is_secret(text@));
            let plain = values.session_token is Absent && values.path_style is Absent
                && values.timeout_seconds is Absent;
            &&& secret && plain ==> S3View::read(values) is Ok
            &&& !secret ==> (S3View::read(values) matches Err((name, _)) && name == if !endpoint {
                "MILK_STORE_ENDPOINT"@
            } else if !region {
                "MILK_STORE_REGION"@
            } else if !bucket {
                "MILK_STORE_BUCKET"@
            } else if !id {
                "MILK_STORE_ACCESS_KEY_ID"@
            } else {
                "MILK_STORE_SECRET_ACCESS_KEY"@
            })
        }),
{
}

/// Which store there is: a directory unless the setting says `s3`, and that directory `./data` unless
/// another is set; any other kind is refused.
pub proof fn law_which_store_there_is(text: String)
    ensures
        text@ == "s3"@ ==> kind_setting(EnvValue::Text(text)) == Ok::<bool, ConfigProblem>(true),
        text@ == "local"@ ==> kind_setting(EnvValue::Text(text)) == Ok::<bool, ConfigProblem>(
            false,
        ),
        text@ != "s3"@ && text@ != "local"@ ==> kind_setting(EnvValue::Text(text)) == Err::<
            bool,
            ConfigProblem,
        >(ConfigProblem::NotStoreKind),
        kind_setting(EnvValue::Absent) == Ok::<bool, ConfigProblem>(false),
        kind_setting(EnvValue::NotUnicode) == Err::<bool, ConfigProblem>(
            ConfigProblem::Unreadable,
        ),
        root_setting(EnvValue::Text(text)) == text@,
        root_setting(EnvValue::Absent) == "./data"@,
{
    reveal_strlit("s3");
    reveal_strlit("local");
    assert("s3"@.len() != "local"@.len());
}

/// How a service's answers to a read are understood: 404 as that there is no such object; 200 as the
/// object, unless more than a mebibyte is announced; and every other status as that error.
pub proof fn law_how_reads_are_understood(status: u16, length: u64)
    ensures
        read_meaning(404, Some(length)) == Ok::<GetStep, StoreError>(GetStep::Missing),
        read_meaning(404, None) == Ok::<GetStep, StoreError>(GetStep::Missing),
        read_meaning(200, None) == Ok::<GetStep, StoreError>(GetStep::ReadBody),
        length <= 1024 * 1024 ==> read_meaning(200, Some(length)) == Ok::<GetStep, StoreError>(
            GetStep::ReadBody,
        ),
        length > 1024 * 1024 ==> read_meaning(200, Some(length)) == Err::<GetStep, StoreError>(
            StoreError::TooLarge,
        ),
        status != 200 && status != 404 ==> read_meaning(status, Some(length)) == Err::<
            GetStep,
            StoreError,
        >(StoreError::Status(status)) && read_meaning(status, None) == Err::<GetStep, StoreError>(
            StoreError::Status(status),
        ),
{
}

/// How a service's answers to a creation are understood: 200 and 201 as that the object was created,
/// 412 as that it was there already, and every other status as that error.
pub proof fn law_how_creations_are_understood(status: u16)
    ensures
        creation_meaning(status) is Ok <==> status == 200 || status == 201,
        creation_meaning(status) == Err::<(), StoreError>(StoreError::AlreadyExists) <==> status
            == 412,
        status != 200 && status != 201 && status != 412 ==> creation_meaning(status) == Err::<
            (),
            StoreError,
        >(StoreError::Status(status)),
{
}

/// An object is read part by part up to a mebibyte: each part that keeps within that is added at the
/// end, and one that does not is refused; the same bound holds for a file.
pub proof fn law_objects_are_read_up_to_their_bound(value: Seq<u8>, chunk: Seq<u8>, length: int)
    ensures
        value.len() + chunk.len() <= 1024 * 1024 ==> grown(value, chunk) == Some(value + chunk),
        value.len() + chunk.len() > 1024 * 1024 ==> grown(value, chunk) is None,
        is_readable(length) <==> length <= 1024 * 1024,
{
}

/// Files in which objects are written are hidden, have their own ending and are told apart by their
/// names.
pub proof fn law_files_in_writing_are_hidden(id: Uuid)
    ensures
        temporary_text(id)[0] == '.',
        temporary_text(id).skip(1).take(id.text().len() as int) == id.text(),
        temporary_text(id).skip((1 + id.text().len()) as int) == ".tmp"@,
{
    assert(temporary_text(id).skip(1).take(id.text().len() as int) =~= id.text());
    assert(temporary_text(id).skip((1 + id.text().len()) as int) =~= ".tmp"@);
}

} // verus!
