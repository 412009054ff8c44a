use oci_sync::app::alias::{self, AliasError};
use oci_sync::app::delete::{confirm_answer, delete_approved, delete_prompt};
use oci_sync::app::list::{list_scope, ListScope};
use oci_sync::app::pull::{check_destination, check_passphrase, pulled_payload, PullError};
use oci_sync::app::push::{parse_labels, push_payload, verify_pushed, LabelError, PushError};
use oci_sync::app::{resolve_target, TargetError};
use oci_sync::cli::{route_shortcut, AliasAddArgs, AliasRemoveArgs, ShortcutError, ShortcutSub};
use oci_sync::cache::ActivityType;
use oci_sync::config::Config;
use oci_sync::crypto::encrypt;
use oci_sync::oci::PullResult;

#[test]
fn targets_need_tag_and_repository() {
    let t = resolve_target("reg.io/team/app:v1").unwrap();
    assert_eq!((t.host.as_str(), t.repo.as_str(), t.tag.as_str()), ("reg.io", "team/app", "v1"));
    assert!(matches!(resolve_target("reg.io/team/app"), Err(TargetError::MissingTag)));
    assert!(matches!(resolve_target("reg/"), Err(TargetError::Reference(_))));
    assert_eq!(TargetError::MissingTag.message(), Some("remote reference must include a tag, e.g. <registry>/<repo>:<tag>"));
}

#[test]
fn label_flags() {
    let m = parse_labels(&vec!["app=web".into(), "empty=".into(), "k=a=b".into()]).unwrap();
    assert_eq!(m.get("app"), Some(&"web".to_string()));
    assert_eq!(m.get("empty"), Some(&"".to_string()));
    assert_eq!(m.get("k"), Some(&"a=b".to_string()));
    assert!(matches!(parse_labels(&vec!["=v".into()]), Err(LabelError::EmptyKey { .. })));
    assert!(matches!(parse_labels(&vec!["ok=1".into(), "novalue".into()]), Err(LabelError::MissingEquals { .. })));
}

#[test]
fn alias_add_and_remove() {
    let cfg = Config::default();
    let added = alias::add(&cfg, &AliasAddArgs { name: "x".into(), repo: "reg.io/team/app".into() }).unwrap();
    assert_eq!(added.shortcut_repo("x").unwrap(), "reg.io/team/app");
    assert!(matches!(alias::add(&cfg, &AliasAddArgs { name: "x".into(), repo: "reg.io/app:v1".into() }), Err(AliasError::TaggedRepo { .. })));
    assert!(matches!(alias::add(&cfg, &AliasAddArgs { name: "x".into(), repo: "reg.io".into() }), Err(AliasError::MissingRepository)));
    let removed = alias::remove(&added, &AliasRemoveArgs { name: "x".into() }).unwrap();
    assert!(removed.shortcut_repo("x").is_err());
    assert!(matches!(alias::remove(&cfg, &AliasRemoveArgs { name: "x".into() }), Err(AliasError::ShortcutNotFound { .. })));
}

#[test]
fn pull_checks() {
    assert!(matches!(check_passphrase(true, None), Err(PullError::PassphraseRequired)));
    assert!(matches!(check_passphrase(true, Some("")), Err(PullError::PassphraseRequired)));
    assert_eq!(check_passphrase(true, Some("p")).unwrap(), false);
    assert_eq!(check_passphrase(false, Some("p")).unwrap(), true);
    assert_eq!(check_passphrase(false, None).unwrap(), false);
    assert!(check_destination(true, false, "out").is_err());
    assert!(check_destination(true, true, "out").is_ok());
    assert!(check_destination(false, false, "out").is_ok());
    assert_eq!(PullError::DestinationExists { path: "out".into() }.message(), "destination out already exists (use --force to overwrite)");
}

#[test]
fn pulled_payload_decrypts_when_marked() {
    let sealed = encrypt(b"tarball", "pw").unwrap();
    let plain = pulled_payload(PullResult { data: sealed.clone(), encrypted: true }, Some("pw")).unwrap();
    assert_eq!(plain, b"tarball");
    assert!(matches!(pulled_payload(PullResult { data: sealed.clone(), encrypted: true }, Some("no")), Err(PullError::Decrypt(_))));
    assert_eq!(pulled_payload(PullResult { data: vec![1, 2], encrypted: false }, Some("pw")).unwrap(), vec![1, 2]);
}

#[test]
fn push_payload_and_verification() {
    let (d, enc) = push_payload(vec![9, 9], None).unwrap();
    assert_eq!((d, enc), (vec![9, 9], false));
    let (d, enc) = push_payload(vec![9, 9], Some("pw")).unwrap();
    assert!(enc);
    assert_eq!(oci_sync::crypto::decrypt(&d, "pw").unwrap(), vec![9, 9]);
    let pulled = PullResult { data: d.clone(), encrypted: true };
    assert!(verify_pushed(&d, true, &pulled).is_ok());
    assert!(matches!(verify_pushed(&d, false, &pulled), Err(PushError::VerifyEncryption)));
    assert!(matches!(verify_pushed(&[1], true, &pulled), Err(PushError::VerifyContent)));
}

#[test]
fn delete_question() {
    assert_eq!(delete_prompt("r/a:v1", Some("sha256:1")), "Will delete: r/a:v1 (sha256:1)\nContinue?");
    assert_eq!(delete_prompt("r/a:v1", None), "Will delete: r/a:v1 (unknown)\nContinue?");
    assert!(delete_approved(true, false));
    assert!(!delete_approved(false, false));
}

#[test]
fn list_scopes() {
    assert!(matches!(list_scope("reg.io").unwrap(), ListScope::Registry { host } if host == "reg.io"));
    assert!(matches!(list_scope("reg.io/team/app").unwrap(), ListScope::Repository { repo, .. } if repo == "team/app"));
    assert!(list_scope("").is_err());
}

#[test]
fn shortcut_routing() {
    let raw: Vec<String> = vec!["x".into(), "push".into(), "-l".into(), "./d".into(), "-t".into(), "v1".into()];
    let call = route_shortcut(&raw).unwrap();
    assert_eq!(call.name, "x");
    assert_eq!(call.sub, ShortcutSub::Push);
    assert_eq!(call.argv, vec!["push", "-l", "./d", "-t", "v1"]);
    assert!(matches!(route_shortcut(&vec![]), Err(ShortcutError::MissingName)));
    assert!(matches!(route_shortcut(&vec!["x".into()]), Err(ShortcutError::MissingSubcommand { .. })));
    assert!(matches!(route_shortcut(&vec!["x".into(), "nuke".into()]), Err(ShortcutError::UnknownSubcommand { .. })));
}

#[test]
fn confirmation_answers() {
    assert!(confirm_answer("y\n"));
    assert!(confirm_answer("  YES "));
    assert!(!confirm_answer("\n"));
    assert!(!confirm_answer("no"));
}

#[test]
fn pull_gives_back_what_push_sent() {
    let (sent, enc) = push_payload(b"archive bytes".to_vec(), Some("k")).unwrap();
    assert!(enc);
    let back = pulled_payload(PullResult { data: sent, encrypted: enc }, Some("k")).unwrap();
    assert_eq!(back, b"archive bytes");
}

#[test]
fn history_entries() {
    let p = oci_sync::app::pull::pull_activity("r/a:v1", "./out", "t".into());
    assert_eq!(p.kind, ActivityType::Pull);
    assert_eq!(p.local_path.as_deref(), Some("./out"));
    let d = oci_sync::app::delete::delete_activity("r/a:v1", "t".into());
    assert_eq!(d.kind, ActivityType::Delete);
    assert!(d.local_path.is_none());
    let l = oci_sync::app::label::label_activity("r/a:v1", vec!["k=v".into()], "t".into());
    assert_eq!(l.labels, vec!["k=v"]);
    let u = oci_sync::app::push::push_activity("r/a:v1", "./d", vec!["a=b".into()], "t".into());
    assert_eq!(u.kind, ActivityType::Push);
    assert!(u.success);
}
