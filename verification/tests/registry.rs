use oci_sync::config::{Config, RegistryAuth};
use oci_sync::registry::{
    artifact_info, auth_header, catalog_repos, catalog_repositories, catalog_url, token_from_reply, config_credentials, delete_scope, docker_credentials, manifest_encrypted,
    manifest_url, next_catalog_cursor, parse_challenge_param, pick_token, pull_result, push_annotations, registry_scheme,
    token_url, updated_annotations, user_agent, Credentials, DockerLookup, ManifestSummary, RegistryError,
};
use oci_sync::strmap::StrMap;

fn smap(pairs: &[(&str, &str)]) -> StrMap<String> {
    let mut m = StrMap::new();
    for (k, v) in pairs {
        m.insert(k.to_string(), v.to_string());
    }
    m
}

#[test]
fn local_hosts_use_http() {
    assert_eq!(registry_scheme("localhost:5000"), "http");
    assert_eq!(registry_scheme("127.0.0.1:5000"), "http");
    assert_eq!(registry_scheme("[::1]:5000"), "http");
    assert_eq!(registry_scheme("0.0.0.0"), "http");
    assert_eq!(registry_scheme("registry.example.com"), "https");
}

#[test]
fn config_credentials_need_a_user_or_password() {
    let mut cfg = Config::default();
    cfg.auths.insert("a.io".into(), RegistryAuth { username: "u".into(), password: "".into() });
    cfg.auths.insert("b.io".into(), RegistryAuth { username: "".into(), password: "".into() });
    assert!(matches!(config_credentials(&cfg, "a.io"), Some(Credentials::Basic(u, p)) if u == "u" && p.is_empty()));
    assert!(config_credentials(&cfg, "b.io").is_none());
    assert!(config_credentials(&cfg, "c.io").is_none());
}

#[test]
fn docker_lookup_outcomes() {
    assert!(matches!(docker_credentials(DockerLookup::UsernamePassword("u".into(), "p".into())), Ok(Credentials::Basic(..))));
    assert!(matches!(docker_credentials(DockerLookup::IdentityToken), Ok(Credentials::Anonymous)));
    assert!(matches!(docker_credentials(DockerLookup::NotConfigured), Ok(Credentials::Anonymous)));
    match docker_credentials(DockerLookup::Failed("x".into())) {
        Err(e) => assert_eq!(e.message(), "docker credential store error: x"),
        Ok(_) => panic!("expected an error"),
    }
}

#[test]
fn basic_auth_header() {
    assert_eq!(auth_header(&Credentials::Anonymous), None);
    assert_eq!(auth_header(&Credentials::Basic("user".into(), "pass".into())).unwrap(), "Basic dXNlcjpwYXNz");
}

#[test]
fn challenge_parameters() {
    let ch = r#"Bearer realm="https://auth.io/token",service="registry.io",scope="x""#;
    assert_eq!(parse_challenge_param(ch, "realm").as_deref(), Some("https://auth.io/token"));
    assert_eq!(parse_challenge_param(ch, "service").as_deref(), Some("registry.io"));
    assert_eq!(parse_challenge_param("Bearer realm= plain , x=1", "realm").as_deref(), Some("plain"));
    assert_eq!(parse_challenge_param("Bearer realm=\"open", "realm"), None);
    assert_eq!(parse_challenge_param("Bearer x=1", "realm"), None);
    assert_eq!(token_url(ch, "repository:r:pull").unwrap(), "https://auth.io/token?scope=repository:r:pull&service=registry.io");
    assert_eq!(token_url("Basic realm=\"x\"", "s"), None);
    assert_eq!(token_url("  Bearer realm=\"https://a\"", "s").unwrap(), "https://a?scope=s");
}

#[test]
fn token_field_preference() {
    assert_eq!(pick_token(Some("a".into()), Some("b".into())).as_deref(), Some("a"));
    assert_eq!(pick_token(None, Some("b".into())).as_deref(), Some("b"));
    assert_eq!(pick_token(None, None), None);
}

#[test]
fn raw_request_urls() {
    assert_eq!(manifest_url("https", "r.io", "team/app", "sha256:1"), "https://r.io/v2/team/app/manifests/sha256:1");
    assert_eq!(delete_scope("team/app"), "repository:team/app:pull,push");
    assert_eq!(catalog_url("http", "localhost:5000", None), "http://localhost:5000/v2/_catalog?n=100");
    assert_eq!(catalog_url("http", "h", Some("z")), "http://h/v2/_catalog?n=100&last=z");
    assert_eq!(user_agent(), "oci-sync/0.7.0");
}

#[test]
fn catalog_paging() {
    let short: Vec<String> = (0..99).map(|i| format!("r{i}")).collect();
    assert_eq!(next_catalog_cursor(&short), None);
    let full: Vec<String> = (0..100).map(|i| format!("r{i}")).collect();
    assert_eq!(next_catalog_cursor(&full).as_deref(), Some("r99"));
}

#[test]
fn artifact_info_from_manifest() {
    let m = ManifestSummary {
        image: true,
        annotations: Some(smap(&[
            ("io.oci-sync.version", "0.7.0"),
            ("io.oci-sync.encrypted", "true"),
            ("app", "web"),
        ])),
        first_layer_size: Some(42),
    };
    let a = artifact_info(&m, "sha256:d", "r.io", "team/app", "v1").unwrap();
    assert_eq!(a.full_name, "r.io/team/app:v1");
    assert!(a.encrypted);
    assert_eq!(a.version, "0.7.0");
    assert_eq!(a.size, 42);
    assert_eq!(a.labels.len(), 1);
    assert_eq!(a.labels.get("app"), Some(&"web".to_string()));
    assert!(manifest_encrypted(&m));

    let foreign = ManifestSummary { image: true, annotations: Some(smap(&[("app", "web")])), first_layer_size: None };
    assert!(artifact_info(&foreign, "d", "h", "r", "t").is_none());
    let index = ManifestSummary { image: false, annotations: Some(smap(&[("io.oci-sync.version", "1")])), first_layer_size: None };
    assert!(artifact_info(&index, "d", "h", "r", "t").is_none());
    assert!(!manifest_encrypted(&index));
}

#[test]
fn annotations_of_a_push() {
    let a = push_annotations(false, &smap(&[("app", "web"), ("io.oci-sync.encrypted", "yes")]));
    assert_eq!(a.get("io.oci-sync.version"), Some(&"0.7.0".to_string()));
    assert_eq!(a.get("io.oci-sync.encrypted"), Some(&"false".to_string()));
    assert_eq!(a.get("app"), Some(&"web".to_string()));
    assert_eq!(a.len(), 3);
}

#[test]
fn label_updates_then_removals() {
    let r = updated_annotations(true, Some(smap(&[("a", "1"), ("b", "2")])), &smap(&[("b", "3"), ("c", "4")]), &vec!["a".into(), "zz".into()]).unwrap();
    assert_eq!(r.len(), 2);
    assert_eq!(r.get("b"), Some(&"3".to_string()));
    assert_eq!(r.get("c"), Some(&"4".to_string()));
    let r = updated_annotations(true, None, &smap(&[("k", "v")]), &vec![]).unwrap();
    assert_eq!(r.get("k"), Some(&"v".to_string()));
    assert!(matches!(updated_annotations(false, None, &smap(&[]), &vec![]), Err(RegistryError::ImageIndex)));
}

#[test]
fn pull_needs_a_layer() {
    assert!(matches!(pull_result(None, None), Err(RegistryError::NoLayers)));
    let ann = smap(&[("io.oci-sync.encrypted", "true")]);
    let p = pull_result(Some(vec![1, 2]), Some(&ann)).unwrap();
    assert!(p.encrypted);
    assert_eq!(p.data, vec![1, 2]);
    assert!(!pull_result(Some(vec![]), None).unwrap().encrypted);
    assert_eq!(RegistryError::AuthRequired { host: "h".into() }.message(), "authentication required for h (docker login h or set auths.h in config)");
}

#[test]
fn header_values_and_media_types() {
    assert_eq!(oci_sync::registry::bearer_value("tok"), "Bearer tok");
    assert_eq!(oci_sync::registry::pull_media_types(), vec![
        "application/octet-stream".to_string(),
        "application/vnd.oci.image.layer.v1.tar".to_string(),
        "application/vnd.oci.image.layer.v1.tar+gzip".to_string(),
    ]);
}

#[test]
fn catalog_reply_strings_only() {
    let r = catalog_repositories(r#"{"repositories":["a/x",1,null,"b"]}"#).unwrap();
    assert_eq!(r, vec!["a/x".to_string(), "b".to_string()]);
    assert_eq!(catalog_repositories(r#"{"repositories":"a"}"#).unwrap(), Vec::<String>::new());
    assert_eq!(catalog_repositories("{}").unwrap(), Vec::<String>::new());
    assert!(matches!(catalog_repositories("not json"), Err(RegistryError::CatalogFormat)));
    assert_eq!(RegistryError::CatalogFormat.message(), "parse catalog response");
    assert_eq!(catalog_repos(Some(vec![None, Some("r".into())])), vec!["r".to_string()]);
    assert!(catalog_repos(None).is_empty());
}

#[test]
fn token_reply_prefers_token() {
    assert_eq!(token_from_reply(r#"{"token":"t","access_token":"a"}"#).unwrap(), Some("t".to_string()));
    assert_eq!(token_from_reply(r#"{"access_token":"a"}"#).unwrap(), Some("a".to_string()));
    assert_eq!(token_from_reply(r#"{"token":5}"#).unwrap(), None);
    assert!(matches!(token_from_reply("<html>"), Err(RegistryError::TokenFormat)));
}
