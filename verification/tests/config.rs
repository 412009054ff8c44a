use oci_sync::config::{Config, ConfigError, RegistryAuth, Shortcut};

fn with_shortcut(name: &str, repo: &str) -> Config {
    let mut cfg = Config::default();
    cfg.shortcuts.insert(name.to_string(), Shortcut { repo: repo.to_string() });
    cfg
}

#[test]
fn empty_config_defaults() {
    let cfg = Config::default();
    assert!(cfg.auths.is_empty());
    assert!(cfg.shortcuts.is_empty());
    assert!(cfg.registry_auth("x").is_none());
}

#[test]
fn shortcut_repo_rejects_tag() {
    let cfg = with_shortcut("x", "reg/repo:tag");
    assert!(cfg.shortcut_repo("x").is_err());
}

#[test]
fn shortcut_repo_rejects_digest() {
    let cfg = with_shortcut("x", "reg/repo@sha256:abc");
    assert!(cfg.shortcut_repo("x").is_err());
}

#[test]
fn shortcut_repo_accepts_plain() {
    let cfg = with_shortcut("x", "reg/repo");
    assert_eq!(cfg.shortcut_repo("x").unwrap(), "reg/repo");
    assert_eq!(cfg.shortcut_remote_ref("x", "v1").unwrap(), "reg/repo:v1");
}

#[test]
fn shortcut_repo_port_in_host_ok() {
    // host:port/repo must not be taken for a tag
    let cfg = with_shortcut("x", "localhost:5000/repo");
    assert_eq!(cfg.shortcut_repo("x").unwrap(), "localhost:5000/repo");
}

#[test]
fn missing_shortcut_errors() {
    let cfg = Config::default();
    assert!(cfg.shortcut_repo("nope").is_err());
}

#[test]
fn shortcut_errors_name_the_reason() {
    assert!(matches!(Config::default().shortcut_repo("nope"), Err(ConfigError::ShortcutNotFound { .. })));
    assert!(matches!(with_shortcut("x", "").shortcut_repo("x"), Err(ConfigError::EmptyShortcutRepo { .. })));
    assert!(matches!(with_shortcut("x", "reg/r@sha256:1").shortcut_repo("x"), Err(ConfigError::DigestShortcutRepo { .. })));
    assert!(matches!(with_shortcut("x", "reg/r:t").shortcut_repo("x"), Err(ConfigError::TaggedShortcutRepo { .. })));
    assert!(matches!(with_shortcut("x", "reg/r").shortcut_remote_ref("x", "  "), Err(ConfigError::EmptyShortcutTag { .. })));
}

#[test]
fn shortcut_remote_ref_trims_tag() {
    let cfg = with_shortcut("x", "reg/repo");
    assert_eq!(cfg.shortcut_remote_ref("x", "  v2 ").unwrap(), "reg/repo:v2");
}

#[test]
fn all_shortcuts_sorted_by_name() {
    let mut cfg = with_shortcut("zeta", "reg/z");
    cfg.shortcuts.insert("alpha".to_string(), Shortcut { repo: "reg/a".to_string() });
    cfg.shortcuts.insert("mid".to_string(), Shortcut { repo: "reg/m".to_string() });
    let all = cfg.all_shortcuts();
    let names: Vec<&str> = all.iter().map(|(n, _)| n.as_str()).collect();
    assert_eq!(names, vec!["alpha", "mid", "zeta"]);
    assert_eq!(all[0].1, "reg/a");
}

#[test]
fn registry_auth_exact_host() {
    let mut cfg = Config::default();
    cfg.auths.insert("reg.io".to_string(), RegistryAuth { username: "u".to_string(), password: "p".to_string() });
    assert_eq!(cfg.registry_auth("reg.io").unwrap().username, "u");
    assert!(cfg.registry_auth("reg.io:443").is_none());
}

#[test]
fn config_candidate_paths_and_choice() {
    let c = Config::candidate_paths("/home/u/.config");
    assert_eq!(c, vec!["./oci-sync.yaml".to_string(), "/home/u/.config/oci-sync/oci-sync.yaml".to_string()]);
    assert_eq!(Config::file_used(&c, &vec![false, true]), Some(c[1].clone()));
    assert_eq!(Config::file_used(&c, &vec![true, true]), Some(c[0].clone()));
    assert_eq!(Config::file_used(&c, &vec![false, false]), None);
}

#[test]
fn shortcut_reference_parses_back() {
    let cfg = with_shortcut("x", "localhost:5000/team/app");
    let r = cfg.shortcut_remote_ref("x", " v1.2 ").unwrap();
    let p = oci_sync::oci::parse_ref(&r).unwrap();
    assert_eq!(p.host, "localhost:5000");
    assert_eq!(p.repo, "team/app");
    assert_eq!(p.tag.as_deref(), Some("v1.2"));
}
