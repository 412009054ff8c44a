use oci_sync::oci::ArtifactInfo;
use oci_sync::output::{artifact_row, filter_by_labels, filter_by_tags, format_bytes, labels_text, repo_display, short_digest};
use oci_sync::strmap::StrMap;

fn mk(labels: &[(&str, &str)]) -> ArtifactInfo {
    let mut m = StrMap::new();
    for (k, v) in labels {
        m.insert(k.to_string(), v.to_string());
    }
    ArtifactInfo {
        full_name: "reg/r:t".into(),
        repo: "r".into(),
        tag: "t".into(),
        digest: "sha256:abc".into(),
        encrypted: false,
        version: "0.7.0".into(),
        size: 1,
        labels: m,
    }
}

#[test]
fn formats_bytes() {
    assert_eq!(format_bytes(0), "0 B");
    assert_eq!(format_bytes(1023), "1023 B");
    assert_eq!(format_bytes(1536), "1.5 KiB");
    assert_eq!(format_bytes(5 * 1024 * 1024), "5.0 MiB");
}

#[test]
fn label_filter_exact_and_presence() {
    let arts = vec![mk(&[("app", "web"), ("env", "prod")]), mk(&[("app", "cli")])];
    let r = filter_by_labels(&arts, &vec!["app=web".into()]);
    assert_eq!(r.len(), 1);
    assert_eq!(r[0].labels.get("env"), Some(&"prod".to_string()));
    let r = filter_by_labels(&arts, &vec!["env".into()]);
    assert_eq!(r.len(), 1);
    let r = filter_by_labels(&arts, &vec!["app=web".into(), "env=prod".into()]);
    assert_eq!(r.len(), 1);
    let r = filter_by_labels(&arts, &vec!["app=web".into(), "env=staging".into()]);
    assert_eq!(r.len(), 0);
}

#[test]
fn tag_filter() {
    let mut a1 = mk(&[]);
    a1.tag = "v1".into();
    let mut a2 = mk(&[]);
    a2.tag = "v2".into();
    let arts = vec![a1, a2];
    let r = filter_by_tags(&arts, &vec!["v1".into()]);
    assert_eq!(r.len(), 1);
    assert_eq!(r[0].tag, "v1");
}

#[test]
fn format_bytes_matches_float_rendering() {
    for n in [0i64, 1, 1023, 1024, 1025, 1536, 1024 * 1024 - 1, 1024 * 1024, 5 * 1024 * 1024 + 123_456,
        1 << 40, (1 << 50) + 7, i64::MAX, -5] {
        let expect = if n < 1024 {
            format!("{n} B")
        } else {
            const UNITS: [&str; 6] = ["B", "KiB", "MiB", "GiB", "TiB", "PiB"];
            let mut value = n as f64;
            let mut unit = 0;
            while value >= 1024.0 && unit < UNITS.len() - 1 {
                value /= 1024.0;
                unit += 1;
            }
            format!("{value:.1} {}", UNITS[unit])
        };
        assert_eq!(format_bytes(n), expect, "n = {n}");
    }
}

#[test]
fn empty_label_rules_keep_everything() {
    let arts = vec![mk(&[]), mk(&[("a", "b")])];
    assert_eq!(filter_by_labels(&arts, &vec![]).len(), 2);
    assert_eq!(filter_by_tags(&arts, &vec![]).len(), 2);
}

#[test]
fn table_cells() {
    let mut a = mk(&[("app", "web"), ("env", "prod")]);
    a.digest = "sha256:0123456789abcdef0123456789abcdef0123".into();
    a.encrypted = true;
    a.size = 1536;
    let row = artifact_row(&a);
    assert_eq!(row, vec!["r", "t", "yes", "0.7.0", "1.5 KiB", "sha256:0123456789abcdef012345678...", "app=web,env=prod"]);
    assert_eq!(short_digest("sha256:abc"), "sha256:abc");
    assert_eq!(labels_text(&a.labels, ", "), "app=web, env=prod");
}

#[test]
fn repository_line() {
    assert_eq!(repo_display(&vec![mk(&[])]), "reg/r");
    let mut a = mk(&[]);
    a.full_name = "plain".into();
    assert_eq!(repo_display(&vec![a]), "plain");
    assert_eq!(repo_display(&vec![]), "");
}
