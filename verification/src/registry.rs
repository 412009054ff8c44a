//! The decisions behind the registry client: which scheme and credentials
//! a host gets, the requests of the raw HTTP layer (catalog, manifest
//! deletion, the Bearer-token challenge), the annotations a pushed manifest
//! carries and how a fetched manifest becomes an `ArtifactInfo`. The
//! network itself is driven by the caller.
use vstd::prelude::*;

use crate::config::Config;
use crate::oci::{ANNOTATION_ENCRYPTED, ANNOTATION_PREFIX, ANNOTATION_VERSION, MEDIA_TYPE_LAYER, ArtifactInfo, ArtifactView, PullResult};
use crate::strmap::{StrMap, text_map};
use crate::text::{
    chars_of, string_of, push_str, push_char, starts_with, has_prefix, trim_start, trim, find_char,
    find_seq, find_str, find_in, trim_bounds, trim_start_index, lemma_find_in_agrees, lemma_trim_start, lemma_trim,
};

verus! {

/// How requests to a registry authenticate.
#[derive(Debug)]
pub enum Credentials {
    Anonymous,
    /// User name and password (or token).
    Basic(String, String),
}

pub enum CredView {
    Anonymous,
    Basic(Seq<char>, Seq<char>),
}

impl View for Credentials {
    type V = CredView;

    open spec fn view(&self) -> CredView {
        match self {
            Credentials::Anonymous => CredView::Anonymous,
            Credentials::Basic(u, p) => CredView::Basic(u@, p@),
        }
    }
}

/// Why a registry operation could not go on.
#[derive(Debug)]
pub enum RegistryError {
    /// The registry asked for credentials and no token could be had.
    AuthRequired { host: String },
    /// The Docker credential store failed; the store's message.
    CredentialStore(String),
    /// The artifact's manifest lists no layer.
    NoLayers,
    /// Annotations can only be changed on an image manifest.
    ImageIndex,
    /// A catalog reply that is not JSON.
    CatalogFormat,
    /// A token reply that is not JSON.
    TokenFormat,
}

impl RegistryError {
    /// The error's message.
    pub fn message(&self) -> (r: String)
        ensures
            match self {
                RegistryError::AuthRequired { host } => r@ == "authentication required for "@ + host@ + " (docker login "@
                    + host@ + " or set auths."@ + host@ + " in config)"@,
                RegistryError::CredentialStore(e) => r@ == "docker credential store error: "@ + e@,
                RegistryError::NoLayers => r@ == "artifact has no layers"@,
                RegistryError::ImageIndex => r@ == "cannot update annotations on an image index"@,
                RegistryError::CatalogFormat => r@ == "parse catalog response"@,
                RegistryError::TokenFormat => r@ == "HTTP error: error decoding response body"@,
            },
    {
        let mut r = String::new();
        match self {
            RegistryError::AuthRequired { host } => {
                push_str(&mut r, "authentication required for ");
                push_str(&mut r, host.as_str());
                push_str(&mut r, " (docker login ");
                push_str(&mut r, host.as_str());
                push_str(&mut r, " or set auths.");
                push_str(&mut r, host.as_str());
                push_str(&mut r, " in config)");
            },
            RegistryError::CredentialStore(e) => {
                push_str(&mut r, "docker credential store error: ");
                push_str(&mut r, e.as_str());
            },
            RegistryError::NoLayers => push_str(&mut r, "artifact has no layers"),
            RegistryError::ImageIndex => push_str(&mut r, "cannot update annotations on an image index"),
            RegistryError::CatalogFormat => push_str(&mut r, "parse catalog response"),
            RegistryError::TokenFormat => push_str(&mut r, "HTTP error: error decoding response body"),
        }
        r
    }
}

// ------------------------------------------------------------ scheme and credentials

/// Hosts reached over plain HTTP: local addresses.
pub open spec fn local_host(host: Seq<char>) -> bool {
    has_prefix(host, "localhost"@) || has_prefix(host, "127.0.0.1"@) || has_prefix(host, "[::1]"@) || has_prefix(
        host,
        "0.0.0.0"@,
    )
}

/// `http` for local hosts, `https` for every other.
pub fn registry_scheme(host: &str) -> (r: &'static str)
    ensures
        r@ == (if local_host(host@) { "http"@ } else { "https"@ }),
{
    if starts_with(host, "localhost") || starts_with(host, "127.0.0.1") || starts_with(host, "[::1]") || starts_with(
        host,
        "0.0.0.0",
    ) {
        "http"
    } else {
        "https"
    }
}

/// Credentials the config gives `host`: its `auths` entry, unless both
/// the user name and the password are empty.
pub open spec fn spec_config_credentials(cfg: Config, host: Seq<char>) -> Option<CredView> {
    let auths = cfg.auths.as_map();
    if auths.contains_key(host) && (auths[host].username@.len() > 0 || auths[host].password@.len() > 0) {
        Some(CredView::Basic(auths[host].username@, auths[host].password@))
    } else {
        None
    }
}

/// The config's credentials for `host`, which take precedence over the
/// Docker credential store.
pub fn config_credentials(cfg: &Config, host: &str) -> (r: Option<Credentials>)
    ensures
        match r {
            Some(c) => spec_config_credentials(*cfg, host@) == Some(c@),
            None => spec_config_credentials(*cfg, host@) is None,
        },
{
    match cfg.registry_auth(host) {
        Some(a) => {
            if a.username.as_str().is_empty() && a.password.as_str().is_empty() {
                None
            } else {
                Some(Credentials::Basic(a.username.clone(), a.password.clone()))
            }
        },
        None => None,
    }
}

/// What the Docker credential store answered for a host.
#[derive(Debug)]
pub enum DockerLookup {
    UsernamePassword(String, String),
    /// An identity token, which this tool does not use.
    IdentityToken,
    /// No store, no readable store, or no entry for the host.
    NotConfigured,
    /// Any other failure, with its message.
    Failed(String),
}

/// Credentials from the Docker store's answer: a user name and password
/// are used, anything else short of a failure means anonymous access.
pub fn docker_credentials(lookup: DockerLookup) -> (r: Result<Credentials, RegistryError>)
    ensures
        match lookup {
            DockerLookup::UsernamePassword(u, p) => r matches Ok(c) && c@ == CredView::Basic(u@, p@),
            DockerLookup::IdentityToken => r matches Ok(c) && c@ == CredView::Anonymous,
            DockerLookup::NotConfigured => r matches Ok(c) && c@ == CredView::Anonymous,
            DockerLookup::Failed(e) => r matches Err(RegistryError::CredentialStore(m)) && m@ == e@,
        },
{
    match lookup {
        DockerLookup::UsernamePassword(u, p) => Ok(Credentials::Basic(u, p)),
        DockerLookup::IdentityToken => Ok(Credentials::Anonymous),
        DockerLookup::NotConfigured => Ok(Credentials::Anonymous),
        DockerLookup::Failed(e) => Err(RegistryError::CredentialStore(e)),
    }
}

/// Standard base64 (with padding) of the UTF-8 bytes of `text`.
pub uninterp spec fn base64_standard(text: Seq<char>) -> Seq<char>;

/// `base64::engine::general_purpose::STANDARD.encode` of `text`'s bytes;
/// the result is named, not spelled out.
#[verifier::external_body]
fn base64_encode(text: &str) -> (r: String)
    ensures
        r@ == base64_standard(text@),
{
    base64::Engine::encode(&base64::engine::general_purpose::STANDARD, text)
}

/// `Basic <encoded>` as an Authorization header value.
pub fn basic_auth_value(encoded: &str) -> (r: String)
    ensures
        r@ == "Basic "@ + encoded@,
{
    let mut r = String::new();
    push_str(&mut r, "Basic ");
    push_str(&mut r, encoded);
    r
}

/// The Authorization header for `creds`: none when anonymous, else Basic
/// over `user:password`.
pub fn auth_header(creds: &Credentials) -> (r: Option<String>)
    ensures
        match creds@ {
            CredView::Anonymous => r is None,
            CredView::Basic(u, p) => r matches Some(h) && h@ == "Basic "@ + base64_standard(u + ":"@ + p),
        },
{
    match creds {
        Credentials::Anonymous => None,
        Credentials::Basic(u, p) => {
            let mut up = String::new();
            push_str(&mut up, u.as_str());
            push_str(&mut up, ":");
            push_str(&mut up, p.as_str());
            let enc = base64_encode(up.as_str());
            Some(basic_auth_value(enc.as_str()))
        },
    }
}

/// `Bearer <token>` as an Authorization header value.
pub fn bearer_value(token: &str) -> (r: String)
    ensures
        r@ == "Bearer "@ + token@,
{
    let mut r = String::new();
    push_str(&mut r, "Bearer ");
    push_str(&mut r, token);
    r
}

/// The User-Agent of the raw HTTP layer.
pub fn user_agent() -> (r: String)
    ensures
        r@ == "oci-sync/"@ + crate::VERSION@,
{
    let mut r = String::new();
    push_str(&mut r, "oci-sync/");
    push_str(&mut r, crate::version());
    r
}

// ------------------------------------------------------------ token challenge

/// A `WWW-Authenticate` value that asks for a Bearer token.
pub open spec fn is_bearer(challenge: Seq<char>) -> bool {
    has_prefix(trim_start(challenge), "Bearer"@)
}

/// A parameter's value from the text after its `key=` and any
/// whitespace: a quoted value runs to the closing quote (none without
/// one), an unquoted one to the next comma, trimmed.
#[verifier::opaque]
pub open spec fn param_value(rest: Seq<char>) -> Option<Seq<char>> {
    if rest.len() > 0 && rest[0] == '"' {
        let stripped = rest.skip(1);
        match find_char(stripped, '"') {
            Some(end) => Some(stripped.take(end)),
            None => None,
        }
    } else {
        let end = match find_char(rest, ',') {
            Some(e) => e,
            None => rest.len() as int,
        };
        Some(trim(rest.take(end)))
    }
}

/// The value of `key` in a challenge: what follows the first `key=`,
/// leading whitespace skipped, read by `param_value`.
#[verifier::opaque]
pub open spec fn challenge_param(challenge: Seq<char>, key: Seq<char>) -> Option<Seq<char>> {
    let key_eq = key.push('=');
    match find_seq(challenge, key_eq) {
        None => None,
        Some(idx) => param_value(trim_start(challenge.skip(idx + key_eq.len()))),
    }
}

/// Whether `challenge` asks for a Bearer token.
pub fn is_bearer_challenge(challenge: &str) -> (r: bool)
    ensures
        r == is_bearer(challenge@),
{
    let v = chars_of(challenge);
    let a = trim_start_index(&v);
    let start = string_of(&v, a, v.len());
    assert(start@ == trim_start(challenge@));
    starts_with(start.as_str(), "Bearer")
}

/// `param_value` of `rest`.
fn read_param_value(rest: &str) -> (r: Option<String>)
    ensures
        match r {
            Some(v) => param_value(rest@) == Some(v@),
            None => param_value(rest@) is None,
        },
{
    reveal(param_value);
    let rv = chars_of(rest);
    if rv.len() > 0 && rv[0] == '"' {
        let stripped = string_of(&rv, 1, rv.len());
        let sv = chars_of(stripped.as_str());
        let e = find_in(&sv, '"', 0, sv.len());
        proof {
            lemma_find_in_agrees(sv@, '"', 0, sv@.len() as int, match e { Some(k) => Some(k as int), None => None });
            assert(sv@.subrange(0, sv@.len() as int) == sv@);
            assert(stripped@ == rest@.skip(1));
        }
        match e {
            Some(end) => Some(string_of(&sv, 0, end)),
            None => None,
        }
    } else {
        let e = find_in(&rv, ',', 0, rv.len());
        proof {
            lemma_find_in_agrees(rv@, ',', 0, rv@.len() as int, match e { Some(k) => Some(k as int), None => None });
            assert(rv@.subrange(0, rv@.len() as int) == rv@);
        }
        let end = match e {
            Some(k) => k,
            None => rv.len(),
        };
        let head = string_of(&rv, 0, end);
        let hv = chars_of(head.as_str());
        let (x, y) = trim_bounds(&hv);
        assert(head@ == rest@.take(end as int));
        Some(string_of(&hv, x, y))
    }
}

/// The value of `key` in a `WWW-Authenticate` challenge.
pub fn parse_challenge_param(challenge: &str, key: &str) -> (r: Option<String>)
    ensures
        match r {
            Some(v) => challenge_param(challenge@, key@) == Some(v@),
            None => challenge_param(challenge@, key@) is None,
        },
{
    reveal(challenge_param);
    let mut key_eq = String::new();
    push_str(&mut key_eq, key);
    push_char(&mut key_eq, '=');
    let idx = match find_str(challenge, key_eq.as_str()) {
        Some(i) => i,
        None => return None,
    };
    let v = chars_of(challenge);
    let kv = chars_of(key_eq.as_str());
    assert(crate::text::occurs_at(challenge@, key_eq@, idx as int));
    let vl = v.len();
    assert(idx + kv@.len() <= vl);
    let after = string_of(&v, idx + kv.len(), vl);
    let av = chars_of(after.as_str());
    let a = trim_start_index(&av);
    let rest = string_of(&av, a, av.len());
    assert(after@ == challenge@.skip(idx + key_eq@.len()));
    assert(rest@ == trim_start(after@));
    let r = read_param_value(rest.as_str());
    assert(find_seq(challenge@, key_eq@) == Some(idx as int));
    r
}

/// Where to fetch a token for `scope`: for a Bearer challenge with a realm,
/// `<realm>?scope=<scope>`, then `&service=<service>` when the challenge
/// names one.
pub open spec fn token_request(challenge: Seq<char>, scope: Seq<char>) -> Option<Seq<char>> {
    if !is_bearer(challenge) {
        None
    } else {
        match challenge_param(challenge, "realm"@) {
            None => None,
            Some(realm) => Some(
                realm + "?scope="@ + scope + match challenge_param(challenge, "service"@) {
                    Some(service) => "&service="@ + service,
                    None => Seq::empty(),
                },
            ),
        }
    }
}

/// The token URL for a `WWW-Authenticate` challenge, if it is one this
/// client answers.
pub fn token_url(challenge: &str, scope: &str) -> (r: Option<String>)
    ensures
        match r {
            Some(u) => token_request(challenge@, scope@) == Some(u@),
            None => token_request(challenge@, scope@) is None,
        },
{
    if !is_bearer_challenge(challenge) {
        return None;
    }
    let realm = parse_challenge_param(challenge, "realm");
    let service = parse_challenge_param(challenge, "service");
    match realm {
        None => None,
        Some(realm) => {
            let mut url = realm;
            push_str(&mut url, "?scope=");
            push_str(&mut url, scope);
            match service {
                Some(service) => {
                    push_str(&mut url, "&service=");
                    push_str(&mut url, service.as_str());
                },
                None => {
                    assert(url@ + Seq::<char>::empty() == url@);
                },
            }
            Some(url)
        },
    }
}

/// What `serde_json` reads of a token reply: `None` when the text is not
/// JSON; otherwise the text of its `token` and `access_token` members,
/// each when it is a string.
pub uninterp spec fn token_json_of(body: Seq<char>) -> Option<(Option<Seq<char>>, Option<Seq<char>>)>;

pub open spec fn opt_text(o: Option<String>) -> Option<Seq<char>> {
    match o {
        Some(s) => Some(s@),
        None => None,
    }
}

/// `serde_json::from_str` into a `Value`, then its `token` and
/// `access_token` members read with `as_str`.
#[verifier::external_body]
fn parse_token_json(body: &str) -> (r: Result<(Option<String>, Option<String>), JsonFailure>)
    ensures
        match r {
            Ok((t, a)) => token_json_of(body@) == Some((opt_text(t), opt_text(a))),
            Err(_) => token_json_of(body@) is None,
        },
{
    let json: serde_json::Value = serde_json::from_str(body).map_err(|_| JsonFailure)?;
    Ok((json["token"].as_str().map(String::from), json["access_token"].as_str().map(String::from)))
}

/// The token of a token reply `body`: its `token` member, else its
/// `access_token` member; a reply that is not JSON is refused.
pub fn token_from_reply(body: &str) -> (r: Result<Option<String>, RegistryError>)
    ensures
        match token_json_of(body@) {
            None => r matches Err(RegistryError::TokenFormat),
            Some((t, a)) => r matches Ok(o) && opt_text(o) == (match t {
                Some(x) => Some(x),
                None => a,
            }),
        },
{
    match parse_token_json(body) {
        Ok((t, a)) => Ok(pick_token(t, a)),
        Err(_) => Err(RegistryError::TokenFormat),
    }
}

/// The token of a token response: its `token` field, else its
/// `access_token` field.
pub fn pick_token(token: Option<String>, access_token: Option<String>) -> (r: Option<String>)
    ensures
        r == (match token {
            Some(t) => Some(t),
            None => access_token,
        }),
{
    match token {
        Some(t) => Some(t),
        None => access_token,
    }
}

// ------------------------------------------------------------ raw requests

/// `<scheme>://<host>/v2/<repo>/manifests/<digest>`.
pub fn manifest_url(scheme: &str, host: &str, repo: &str, digest: &str) -> (r: String)
    ensures
        r@ == scheme@ + "://"@ + host@ + "/v2/"@ + repo@ + "/manifests/"@ + digest@,
{
    let mut r = String::new();
    push_str(&mut r, scheme);
    push_str(&mut r, "://");
    push_str(&mut r, host);
    push_str(&mut r, "/v2/");
    push_str(&mut r, repo);
    push_str(&mut r, "/manifests/");
    push_str(&mut r, digest);
    r
}

/// The token scope a manifest deletion asks for.
pub fn delete_scope(repo: &str) -> (r: String)
    ensures
        r@ == "repository:"@ + repo@ + ":pull,push"@,
{
    let mut r = String::new();
    push_str(&mut r, "repository:");
    push_str(&mut r, repo);
    push_str(&mut r, ":pull,push");
    r
}

/// The token scope of the catalog endpoint.
pub const CATALOG_SCOPE: &'static str = "registry:catalog:*";

/// Repositories asked for per catalog page.
pub const CATALOG_PAGE: usize = 100;

/// The catalog page after `last`, or the first page.
pub fn catalog_url(scheme: &str, host: &str, last: Option<&str>) -> (r: String)
    ensures
        r@ == scheme@ + "://"@ + host@ + "/v2/_catalog?n=100"@ + match last {
            Some(l) => "&last="@ + l@,
            None => Seq::empty(),
        },
{
    let mut r = String::new();
    push_str(&mut r, scheme);
    push_str(&mut r, "://");
    push_str(&mut r, host);
    push_str(&mut r, "/v2/_catalog?n=100");
    match last {
        Some(l) => {
            push_str(&mut r, "&last=");
            push_str(&mut r, l);
        },
        None => {
            assert(r@ + Seq::<char>::empty() == r@);
        },
    }
    r
}

/// Where the catalog walk goes on after a page: a short page ends it,
/// a full one continues after its last repository.
pub fn next_catalog_cursor(page: &Vec<String>) -> (r: Option<String>)
    ensures
        page@.len() < CATALOG_PAGE ==> r is None,
        page@.len() >= CATALOG_PAGE ==> (r matches Some(l) && l@ == page@.last()@),
{
    if page.len() < CATALOG_PAGE {
        None
    } else {
        Some(page[page.len() - 1].clone())
    }
}

/// What `serde_json` reads of a catalog reply: `None` when the text is not
/// JSON; otherwise the reply's `repositories` member when it is an array,
/// with each element's text when the element is a string.
pub uninterp spec fn catalog_json_of(body: Seq<char>) -> Option<Option<Seq<Option<Seq<char>>>>>;

struct JsonFailure;

pub open spec fn opt_text_views(v: Seq<Option<String>>) -> Seq<Option<Seq<char>>> {
    v.map_values(|o: Option<String>| match o {
        Some(s) => Some(s@),
        None => None,
    })
}

/// `serde_json::from_str` into a `Value`, then its `repositories` member
/// read with `as_array` and each element with `as_str`.
#[verifier::external_body]
fn parse_catalog_json(body: &str) -> (r: Result<Option<Vec<Option<String>>>, JsonFailure>)
    ensures
        match r {
            Ok(Some(v)) => catalog_json_of(body@) == Some(Some(opt_text_views(v@))),
            Ok(None) => catalog_json_of(body@) == Some(None::<Seq<Option<Seq<char>>>>),
            Err(_) => catalog_json_of(body@) is None,
        },
{
    let json: serde_json::Value = serde_json::from_str(body).map_err(|_| JsonFailure)?;
    let Some(items) = json["repositories"].as_array() else { return Ok(None) };
    let mut out = Vec::new();
    for v in items {
        out.push(v.as_str().map(String::from));
    }
    Ok(Some(out))
}

/// The strings among `items`, in order.
pub open spec fn strings_of(items: Seq<Option<Seq<char>>>) -> Seq<Seq<char>>
    decreases items.len(),
{
    if items.len() == 0 {
        Seq::empty()
    } else {
        match items.last() {
            Some(s) => strings_of(items.drop_last()).push(s),
            None => strings_of(items.drop_last()),
        }
    }
}

/// The repository names of a parsed catalog page: the strings of its
/// `repositories` array, none when it has no such array.
pub fn catalog_repos(items: Option<Vec<Option<String>>>) -> (r: Vec<String>)
    ensures
        key_views(r@) == match items {
            Some(v) => strings_of(opt_text_views(v@)),
            None => Seq::empty(),
        },
{
    let mut out: Vec<String> = Vec::new();
    match items {
        None => {
            proof {
                assert(key_views(out@) =~= Seq::<Seq<char>>::empty());
            }
            out
        },
        Some(v) => {
            let ghost all = opt_text_views(v@);
            let mut i: usize = 0;
            proof {
                assert(all.take(0) =~= Seq::<Option<Seq<char>>>::empty());
                assert(key_views(out@) =~= Seq::<Seq<char>>::empty());
            }
            while i < v.len()
                invariant
                    i <= v@.len(),
                    all == opt_text_views(v@),
                    key_views(out@) == strings_of(all.take(i as int)),
                decreases v.len() - i,
            {
                proof {
                    assert(all.take(i + 1).drop_last() =~= all.take(i as int));
                    assert(all.take(i + 1).last() == all[i as int]);
                }
                let ghost before = key_views(out@);
                match &v[i] {
                    Some(s) => {
                        out.push(s.clone());
                        proof {
                            assert(key_views(out@) =~= before.push(s@));
                        }
                    },
                    None => {},
                }
                i += 1;
            }
            proof {
                assert(all.take(i as int) =~= all);
            }
            out
        },
    }
}

/// The repository names of a catalog reply `body`; a reply that is not
/// JSON is refused.
pub fn catalog_repositories(body: &str) -> (r: Result<Vec<String>, RegistryError>)
    ensures
        match catalog_json_of(body@) {
            None => r matches Err(RegistryError::CatalogFormat),
            Some(j) => r matches Ok(v) && key_views(v@) == match j {
                Some(items) => strings_of(items),
                None => Seq::empty(),
            },
        },
{
    match parse_catalog_json(body) {
        Ok(items) => Ok(catalog_repos(items)),
        Err(_) => Err(RegistryError::CatalogFormat),
    }
}

/// Layer media types a pull accepts.
pub fn pull_media_types() -> (r: Vec<String>)
    ensures
        r@.len() == 3,
        r@[0]@ == MEDIA_TYPE_LAYER@,
        r@[1]@ == "application/vnd.oci.image.layer.v1.tar"@,
        r@[2]@ == "application/vnd.oci.image.layer.v1.tar+gzip"@,
{
    let mut v: Vec<String> = Vec::new();
    v.push(String::from_str(MEDIA_TYPE_LAYER));
    v.push(String::from_str("application/vnd.oci.image.layer.v1.tar"));
    v.push(String::from_str("application/vnd.oci.image.layer.v1.tar+gzip"));
    v
}

// ------------------------------------------------------------ annotations

/// What the client reads from a fetched manifest.
#[derive(Debug)]
pub struct ManifestSummary {
    /// An image manifest, as opposed to an image index.
    pub image: bool,
    pub annotations: Option<StrMap<String>>,
    /// Size of the first layer, when the manifest lists one.
    pub first_layer_size: Option<i64>,
}

/// Annotations as text to text.
pub open spec fn ann_view(a: Option<StrMap<String>>) -> Option<Map<Seq<char>, Seq<char>>> {
    match a {
        Some(m) => Some(text_map(m.as_map())),
        None => None,
    }
}

/// `key` is annotated `"true"`.
pub open spec fn flag_true(ann: Map<Seq<char>, Seq<char>>, key: Seq<char>) -> bool {
    ann.contains_key(key) && ann[key] == "true"@
}

/// The user's labels among `ann`: keys outside the tool's own prefix.
pub open spec fn user_labels(ann: Map<Seq<char>, Seq<char>>) -> Map<Seq<char>, Seq<char>> {
    Map::new(|k: Seq<char>| ann.contains_key(k) && !has_prefix(k, ANNOTATION_PREFIX@), |k: Seq<char>| ann[k])
}

/// Whether `ann` annotates `key` as `"true"`.
fn annotated_true(ann: &StrMap<String>, key: &str) -> (r: bool)
    ensures
        r == flag_true(text_map(ann.as_map()), key@),
{
    proof {
        reveal_strlit("true");
    }
    match ann.get(key) {
        Some(v) => crate::text::str_eq(v.as_str(), "true"),
        None => false,
    }
}

/// Whether a manifest marks its payload as encrypted: an image manifest
/// annotated `io.oci-sync.encrypted` = `"true"`.
pub fn manifest_encrypted(m: &ManifestSummary) -> (r: bool)
    ensures
        r == (m.image && match ann_view(m.annotations) {
            Some(a) => flag_true(a, ANNOTATION_ENCRYPTED@),
            None => false,
        }),
{
    if !m.image {
        return false;
    }
    match &m.annotations {
        Some(a) => annotated_true(a, ANNOTATION_ENCRYPTED),
        None => false,
    }
}

/// The labels of `ann`.
fn labels_of(ann: &StrMap<String>) -> (r: StrMap<String>)
    ensures
        text_map(r.as_map()) == user_labels(text_map(ann.as_map())),
{
    ann.facts();
    let n = ann.len();
    let mut labels: StrMap<String> = StrMap::new();
    let mut i: usize = 0;
    while i < n
        invariant
            i <= n == ann.spec_len(),
            ann.val_seq().len() == n,
            forall|j: int| 0 <= j < n ==> #[trigger] ann.as_map().contains_key(ann.key_seq()[j]) && ann.as_map()[ann.key_seq()[j]] == ann.val_seq()[j],
            forall|k: Seq<char>| #[trigger] labels.as_map().contains_key(k) ==> ann.as_map().contains_key(k) && !has_prefix(k, ANNOTATION_PREFIX@) && labels.as_map()[k]@ == ann.as_map()[k]@,
            forall|j: int| 0 <= j < i && !has_prefix(ann.key_seq()[j], ANNOTATION_PREFIX@) ==> labels.as_map().contains_key(#[trigger] ann.key_seq()[j]),
        decreases n - i,
    {
        let (k, v) = ann.entry(i);
        if !starts_with(k.as_str(), ANNOTATION_PREFIX) {
            labels.insert(k.clone(), v.clone());
        }
        i += 1;
    }
    proof {
        let a = text_map(ann.as_map());
        assert forall|k: Seq<char>| #[trigger] user_labels(a).contains_key(k) implies text_map(labels.as_map()).contains_key(k) by {
            ann.lemma_key(k);
        }
        assert(text_map(labels.as_map()) =~= user_labels(a));
    }
    labels
}

/// An artifact's metadata from its manifest, when it is one this tool
/// pushed: an image manifest with an `io.oci-sync.version` annotation.
pub open spec fn spec_artifact_info(
    m: ManifestSummary,
    digest: Seq<char>,
    host: Seq<char>,
    repo: Seq<char>,
    tag: Seq<char>,
) -> Option<ArtifactView> {
    if !m.image {
        None
    } else {
        match ann_view(m.annotations) {
            None => None,
            Some(a) => if !a.contains_key(ANNOTATION_VERSION@) {
                None
            } else {
                Some(
                    ArtifactView {
                        full_name: host + "/"@ + repo + ":"@ + tag,
                        repo,
                        tag,
                        digest,
                        encrypted: flag_true(a, ANNOTATION_ENCRYPTED@),
                        version: a[ANNOTATION_VERSION@],
                        size: match m.first_layer_size {
                            Some(s) => s,
                            None => 0,
                        },
                        labels: user_labels(a),
                    },
                )
            },
        }
    }
}

/// `ArtifactInfo` from a manifest, or none when the manifest is not an
/// oci-sync artifact.
pub fn artifact_info(m: &ManifestSummary, digest: &str, host: &str, repo: &str, tag: &str) -> (r: Option<ArtifactInfo>)
    ensures
        match r {
            Some(a) => spec_artifact_info(*m, digest@, host@, repo@, tag@) == Some(a@),
            None => spec_artifact_info(*m, digest@, host@, repo@, tag@) is None,
        },
{
    if !m.image {
        return None;
    }
    let ann = match &m.annotations {
        Some(a) => a,
        None => return None,
    };
    let version = match ann.get(ANNOTATION_VERSION) {
        Some(v) => v.clone(),
        None => return None,
    };
    let size: i64 = match m.first_layer_size {
        Some(s) => s,
        None => 0,
    };
    let encrypted = annotated_true(ann, ANNOTATION_ENCRYPTED);
    let labels = labels_of(ann);
    let mut full_name = String::new();
    push_str(&mut full_name, host);
    push_str(&mut full_name, "/");
    push_str(&mut full_name, repo);
    push_str(&mut full_name, ":");
    push_str(&mut full_name, tag);
    Some(
        ArtifactInfo {
            full_name,
            repo: String::from_str(repo),
            tag: String::from_str(tag),
            digest: String::from_str(digest),
            encrypted,
            version,
            size,
            labels,
        },
    )
}

/// `k` is among the first `i` keys of `m`.
pub open spec fn among_first(m: StrMap<String>, i: int, k: Seq<char>) -> bool {
    exists|j: int| 0 <= j < i && m.key_seq()[j] == k
}

/// `target` with every entry of `src` stored in it, `src` winning.
fn insert_all(target: &mut StrMap<String>, src: &StrMap<String>)
    ensures
        text_map(final(target).as_map()) == text_map(old(target).as_map()).union_prefer_right(text_map(src.as_map())),
{
    src.facts();
    let n = src.len();
    let ghost base = text_map(target.as_map());
    let mut i: usize = 0;
    assert(forall|j: int| 0 <= j < n ==> #[trigger] src.as_map().contains_key(src.key_seq()[j]) && src.as_map()[src.key_seq()[j]] == src.val_seq()[j]);
    assert forall|k: Seq<char>| #[trigger] target.as_map().contains_key(k) <==> (base.contains_key(k) || among_first(*src, 0, k)) by {
    }
    while i < n
        invariant
            i <= n == src.spec_len(),
            src.val_seq().len() == n,
            forall|j: int| 0 <= j < n ==> #[trigger] src.as_map().contains_key(src.key_seq()[j]) && src.as_map()[src.key_seq()[j]] == src.val_seq()[j],
            forall|k: Seq<char>| #[trigger] target.as_map().contains_key(k) <==> (base.contains_key(k) || among_first(*src, i as int, k)),
            forall|k: Seq<char>| #[trigger] target.as_map().contains_key(k) ==> target.as_map()[k]@ == (if among_first(*src, i as int, k) { src.as_map()[k]@ } else { base[k] }),
        decreases n - i,
    {
        let ghost prev = target.as_map();
        let (k, v) = src.entry(i);
        let ghost ki = src.key_seq()[i as int];
        target.insert(k.clone(), v.clone());
        proof {
            assert forall|kk: Seq<char>| #[trigger] among_first(*src, i + 1, kk) == (among_first(*src, i as int, kk) || kk == ki) by {
                if among_first(*src, i + 1, kk) {
                    let j = choose|j: int| 0 <= j < i + 1 && src.key_seq()[j] == kk;
                    if j < i {
                        assert(among_first(*src, i as int, kk));
                    }
                }
                if kk == ki {
                    assert(src.key_seq()[i as int] == kk);
                }
                if among_first(*src, i as int, kk) {
                    let j = choose|j: int| 0 <= j < i && src.key_seq()[j] == kk;
                    assert(0 <= j < i + 1 && src.key_seq()[j] == kk);
                }
            }
            assert(src.as_map().contains_key(src.key_seq()[i as int]));
            assert(src.as_map()[ki] == src.val_seq()[i as int]);
            assert forall|kk: Seq<char>| #[trigger] target.as_map().contains_key(kk) implies target.as_map()[kk]@ == (if among_first(*src, i + 1, kk) { src.as_map()[kk]@ } else { base[kk] }) by {
                assert(among_first(*src, i + 1, kk) == (among_first(*src, i as int, kk) || kk == ki));
                if kk != ki {
                    assert(prev.contains_key(kk));
                }
            }
            assert forall|kk: Seq<char>| #[trigger] target.as_map().contains_key(kk) <==> (base.contains_key(kk) || among_first(*src, i + 1, kk)) by {
                assert(among_first(*src, i + 1, kk) == (among_first(*src, i as int, kk) || kk == ki));
            }
        }
        i += 1;
    }
    proof {
        let right = text_map(src.as_map());
        assert forall|k: Seq<char>| #[trigger] among_first(*src, n as int, k) == right.contains_key(k) by {
            if right.contains_key(k) {
                src.lemma_key(k);
                assert(0 <= src.pos(k) < n && src.key_seq()[src.pos(k)] == k);
            }
            if among_first(*src, n as int, k) {
                let j = choose|j: int| 0 <= j < n && src.key_seq()[j] == k;
                assert(src.as_map().contains_key(src.key_seq()[j]));
            }
        }
        assert(text_map(target.as_map()) =~= base.union_prefer_right(right));
    }
}

/// The annotations of a pushed manifest: the user's labels, then the
/// tool's version and encryption flag over them, so that no label can
/// stand in for either.
pub fn push_annotations(encrypted: bool, labels: &StrMap<String>) -> (r: StrMap<String>)
    ensures
        text_map(r.as_map()) == text_map(labels.as_map()).union_prefer_right(map![
            ANNOTATION_VERSION@ => crate::VERSION@,
            ANNOTATION_ENCRYPTED@ => if encrypted { "true"@ } else { "false"@ }
        ]),
{
    let mut r: StrMap<String> = StrMap::new();
    proof {
        assert(text_map(r.as_map()) =~= Map::<Seq<char>, Seq<char>>::empty());
    }
    insert_all(&mut r, labels);
    proof {
        assert(text_map(r.as_map()) =~= text_map(labels.as_map()));
    }
    r.insert(String::from_str(ANNOTATION_VERSION), String::from_str(crate::version()));
    r.insert(String::from_str(ANNOTATION_ENCRYPTED), String::from_str(if encrypted { "true" } else { "false" }));
    proof {
        assert(text_map(r.as_map()) =~= text_map(labels.as_map()).union_prefer_right(map![
            ANNOTATION_VERSION@ => crate::VERSION@,
            ANNOTATION_ENCRYPTED@ => if encrypted { "true"@ } else { "false"@ }
        ]));
    }
    r
}

/// The characters of each string.
pub open spec fn key_views(s: Seq<String>) -> Seq<Seq<char>> {
    s.map_values(|k: String| k@)
}

/// Annotations after a label update: the current ones (none for a
/// manifest without any), `updates` stored over them, then the keys in
/// `removes` taken out. An image index cannot carry them.
pub fn updated_annotations(
    image: bool,
    annotations: Option<StrMap<String>>,
    updates: &StrMap<String>,
    removes: &Vec<String>,
) -> (r: Result<StrMap<String>, RegistryError>)
    ensures
        !image ==> r matches Err(RegistryError::ImageIndex),
        image ==> (r matches Ok(m) && text_map(m.as_map()) == (match ann_view(annotations) {
            Some(a) => a,
            None => Map::empty(),
        }).union_prefer_right(text_map(updates.as_map())).remove_keys(key_views(removes@).to_set())),
{
    if !image {
        return Err(RegistryError::ImageIndex);
    }
    let mut ann = match annotations {
        Some(a) => a,
        None => StrMap::new(),
    };
    proof {
        assert(text_map(ann.as_map()) == (match ann_view(annotations) {
            Some(a) => a,
            None => Map::<Seq<char>, Seq<char>>::empty(),
        })) by {
            assert(text_map(Map::<Seq<char>, String>::empty()) =~= Map::<Seq<char>, Seq<char>>::empty());
        }
    }
    insert_all(&mut ann, updates);
    let ghost merged = text_map(ann.as_map());
    let mut i: usize = 0;
    proof {
        assert(key_views(removes@.take(0)).to_set() =~= Set::<Seq<char>>::empty());
        assert(merged.remove_keys(Set::<Seq<char>>::empty()) =~= merged);
    }
    while i < removes.len()
        invariant
            i <= removes@.len(),
            text_map(ann.as_map()) == merged.remove_keys(key_views(removes@.take(i as int)).to_set()),
        decreases removes.len() - i,
    {
        let ghost prev = ann.as_map();
        ann.remove(removes[i].as_str());
        proof {
            let before = key_views(removes@.take(i as int));
            assert(text_map(ann.as_map()) =~= text_map(prev).remove(removes@[i as int]@));
            assert(key_views(removes@.take(i + 1)) =~= before.push(removes@[i as int]@));
            before.lemma_push_to_set_commute(removes@[i as int]@);
            assert(text_map(ann.as_map()) =~= merged.remove_keys(key_views(removes@.take(i + 1)).to_set()));
        }
        i += 1;
    }
    proof {
        assert(removes@.take(i as int) =~= removes@);
    }
    Ok(ann)
}

/// A pull's result: the first layer's payload and the encryption flag of
/// the image's annotations; an artifact without layers is an error.
pub fn pull_result(first_layer: Option<Vec<u8>>, annotations: Option<&StrMap<String>>) -> (r: Result<PullResult, RegistryError>)
    ensures
        match first_layer {
            None => r matches Err(RegistryError::NoLayers),
            Some(data) => r matches Ok(p) && p.data@ == data@ && p.encrypted == match annotations {
                Some(a) => flag_true(text_map(a.as_map()), ANNOTATION_ENCRYPTED@),
                None => false,
            },
        },
{
    match first_layer {
        None => Err(RegistryError::NoLayers),
        Some(data) => {
            let encrypted = match annotations {
                Some(a) => annotated_true(a, ANNOTATION_ENCRYPTED),
                None => false,
            };
            Ok(PullResult { data, encrypted })
        },
    }
}

} // verus!
