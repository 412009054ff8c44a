use oci_sync::oci::{parse_ref, OciError};

#[test]
fn parses_repo_with_tag() {
    let r = parse_ref("registry.example.com/myteam/files:v1").unwrap();
    assert_eq!(r.host, "registry.example.com");
    assert_eq!(r.repo, "myteam/files");
    assert_eq!(r.tag.as_deref(), Some("v1"));
}

#[test]
fn parses_repo_without_tag() {
    let r = parse_ref("registry.example.com/myteam/files").unwrap();
    assert_eq!(r.host, "registry.example.com");
    assert_eq!(r.repo, "myteam/files");
    assert_eq!(r.tag, None);
}

#[test]
fn parses_host_with_port() {
    let r = parse_ref("localhost:5000/myrepo:v2").unwrap();
    assert_eq!(r.host, "localhost:5000");
    assert_eq!(r.repo, "myrepo");
    assert_eq!(r.tag.as_deref(), Some("v2"));
}

#[test]
fn parses_bare_registry() {
    let r = parse_ref("registry.example.com").unwrap();
    assert_eq!(r.host, "registry.example.com");
    assert!(r.repo.is_empty());
    assert_eq!(r.tag, None);
}

#[test]
fn rejects_empty_and_bad_refs() {
    assert!(parse_ref("").is_err());
    assert!(parse_ref("reg/repo:").is_err());
    assert!(parse_ref("/repo").is_err());
    assert!(parse_ref("reg/").is_err());
}

#[test]
fn parse_error_keeps_input() {
    match parse_ref("reg/repo:") {
        Err(OciError::InvalidReference { ref_str, .. }) => assert_eq!(ref_str, "reg/repo:"),
        other => panic!("unexpected {other:?}"),
    }
}

#[test]
fn bare_registry_with_port_is_not_tag_split() {
    let r = parse_ref("localhost:5000").unwrap();
    assert_eq!(r.host, "localhost:5000");
    assert_eq!(r.tag, None);
}
