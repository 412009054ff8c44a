use oci_sync::config::{Config, Shortcut};
use oci_sync::oci::ArtifactInfo;
use oci_sync::strmap::StrMap;
use oci_sync::tui::state::{Dialog, Focus, Key, KeyCode, TuiAction, TuiMsg, TuiState};
use oci_sync::tui::{sort_artifacts, spinner_char, spinner_frame, SortMode};

#[test]
fn sort_mode_cycles() {
    assert_eq!(SortMode::Name.next(), SortMode::SizeDesc);
    assert_eq!(SortMode::SizeDesc.next(), SortMode::SizeAsc);
    assert_eq!(SortMode::SizeAsc.next(), SortMode::Name);
}

#[test]
fn sort_mode_labels() {
    assert_eq!(SortMode::Name.label(), "name");
    assert_eq!(SortMode::SizeDesc.label(), "size ↓");
    assert_eq!(SortMode::SizeAsc.label(), "size ↑");
}

#[test]
fn spinner_frames_are_ascii_braille() {
    let c = spinner_char();
    assert!(('⠋'..='⠏').contains(&c) || "⠙⠹⠸⠼⠴⠦⠧⠇".contains(c));
}

#[test]
fn spinner_frame_per_80ms() {
    assert_eq!(spinner_frame(0), '⠋');
    assert_eq!(spinner_frame(79), '⠋');
    assert_eq!(spinner_frame(80), '⠙');
    assert_eq!(spinner_frame(80 * 9), '⠏');
    assert_eq!(spinner_frame(800), '⠋');
}

fn art(tag: &str, size: i64) -> ArtifactInfo {
    ArtifactInfo {
        full_name: format!("reg/r:{tag}"),
        repo: "r".into(),
        tag: tag.into(),
        digest: format!("sha256:{tag}"),
        encrypted: false,
        version: "0.7.0".into(),
        size,
        labels: StrMap::new(),
    }
}

fn tags(v: &[ArtifactInfo]) -> Vec<String> {
    v.iter().map(|a| a.tag.clone()).collect()
}

#[test]
fn sorting_is_stable_per_mode() {
    let v = vec![art("b", 10), art("a", 30), art("c", 10), art("d", 30)];
    let by_name = sort_artifacts(v.iter().cloned().collect(), SortMode::Name);
    assert_eq!(tags(&by_name), vec!["a", "b", "c", "d"]);
    let desc = sort_artifacts(v.iter().cloned().collect(), SortMode::SizeDesc);
    assert_eq!(tags(&desc), vec!["a", "d", "b", "c"]);
    let asc = sort_artifacts(v, SortMode::SizeAsc);
    assert_eq!(tags(&asc), vec!["b", "c", "a", "d"]);
}

fn key(c: char) -> Key {
    Key { code: KeyCode::Char(c), ctrl: false }
}

fn code(k: KeyCode) -> Key {
    Key { code: k, ctrl: false }
}

fn state() -> TuiState {
    let mut cfg = Config::default();
    cfg.shortcuts.insert("x".into(), Shortcut { repo: "reg.io/team/files".into() });
    cfg.shortcuts.insert("a".into(), Shortcut { repo: "localhost:5000/r".into() });
    TuiState::new(&cfg)
}

#[test]
fn starts_on_first_shortcut() {
    let s = state();
    assert_eq!(s.shortcuts[0].0, "a");
    assert_eq!(s.shortcut_sel, Some(0));
    assert_eq!(s.focus, Focus::Shortcuts);
    assert!(!s.quit);
}

#[test]
fn enter_loads_selected_shortcut() {
    let mut s = state();
    s.handle_key(code(KeyCode::Down), 0, "/w");
    let a = s.handle_key(code(KeyCode::Enter), 5, "/w");
    match a {
        TuiAction::Load { name, repo, host } => {
            assert_eq!(name, "x");
            assert_eq!(repo, "reg.io/team/files");
            assert_eq!(host, "reg.io");
        }
        other => panic!("unexpected {other:?}"),
    }
    assert!(s.loading);
    assert_eq!(s.toast.as_ref().unwrap().msg, "loading reg.io/team/files ...");
    s.apply_message(TuiMsg::ArtifactsLoaded { repo: "x".into(), artifacts: vec![art("v2", 1), art("v1", 2)] }, 9);
    assert!(!s.loading);
    assert_eq!(tags(&s.artifacts), vec!["v1", "v2"]);
    assert_eq!(s.artifact_sel, Some(0));
}

#[test]
fn stale_listing_is_ignored() {
    let mut s = state();
    s.handle_key(code(KeyCode::Enter), 0, "/w");
    s.apply_message(TuiMsg::ArtifactsLoaded { repo: "other".into(), artifacts: vec![art("v1", 1)] }, 1);
    assert!(s.artifacts.is_empty());
    assert!(!s.loading);
}

#[test]
fn q_quits_but_not_while_typing() {
    let mut s = state();
    s.handle_key(key('/'), 0, "/w");
    s.handle_key(key('q'), 0, "/w");
    assert!(!s.quit);
    assert_eq!(s.search, "q");
    s.handle_key(code(KeyCode::Esc), 0, "/w");
    assert_eq!(s.search, "");
    s.handle_key(key('q'), 0, "/w");
    assert!(s.quit);
}

#[test]
fn ctrl_c_quits() {
    let mut s = state();
    s.handle_key(Key { code: KeyCode::Char('c'), ctrl: true }, 0, "/w");
    assert!(s.quit);
}

fn loaded() -> TuiState {
    let mut s = state();
    s.handle_key(code(KeyCode::Down), 0, "/w");
    s.handle_key(code(KeyCode::Enter), 0, "/w");
    s.apply_message(TuiMsg::ArtifactsLoaded { repo: "x".into(), artifacts: vec![art("v1", 1), art("v2", 2)] }, 0);
    s.handle_key(code(KeyCode::Tab), 0, "/w");
    assert_eq!(s.focus, Focus::Artifacts);
    s
}

#[test]
fn delete_dialog_defaults_to_cancel() {
    let mut s = loaded();
    s.handle_key(key('d'), 0, "/w");
    assert!(matches!(s.dialog, Dialog::Delete { button: 1, busy: false }));
    let a = s.handle_key(code(KeyCode::Enter), 0, "/w");
    assert!(matches!(a, TuiAction::Nothing));
    assert!(matches!(s.dialog, Dialog::Closed));
}

#[test]
fn delete_confirmed_with_y_on_delete_button() {
    let mut s = loaded();
    s.handle_key(key('d'), 0, "/w");
    s.handle_key(code(KeyCode::Left), 0, "/w");
    let a = s.handle_key(key('y'), 0, "/w");
    match a {
        TuiAction::Delete { host, artifact, full_ref } => {
            assert_eq!(host, "reg.io");
            assert_eq!(artifact.tag, "v1");
            assert_eq!(full_ref, "reg.io/team/files:v1");
        }
        other => panic!("unexpected {other:?}"),
    }
    assert!(matches!(s.dialog, Dialog::Closed));
}

#[test]
fn pull_dialog_flow() {
    let mut s = loaded();
    s.handle_key(key('p'), 0, "/home/me");
    match &s.dialog {
        Dialog::Pull { path, passphrase, .. } => {
            assert_eq!(path, "/home/me");
            assert_eq!(passphrase, "");
        }
        other => panic!("unexpected {other:?}"),
    }
    s.handle_key(code(KeyCode::Backspace), 0, "/w");
    s.handle_key(key('X'), 0, "/w");
    s.handle_key(code(KeyCode::Tab), 0, "/w");
    s.handle_key(key('s'), 0, "/w");
    s.handle_key(key('q'), 0, "/w");
    assert!(!s.quit);
    s.handle_key(code(KeyCode::Tab), 0, "/w");
    let a = s.handle_key(code(KeyCode::Enter), 0, "/w");
    match a {
        TuiAction::Pull { path, passphrase, full_ref, .. } => {
            assert_eq!(path, "/home/mX");
            assert_eq!(passphrase, "sq");
            assert_eq!(full_ref, "reg.io/team/files:v1");
        }
        other => panic!("unexpected {other:?}"),
    }
}

#[test]
fn pull_requires_a_path() {
    let mut s = loaded();
    s.handle_key(key('p'), 0, "ab");
    s.handle_key(code(KeyCode::Backspace), 0, "/w");
    s.handle_key(code(KeyCode::Backspace), 0, "/w");
    s.handle_key(code(KeyCode::Tab), 0, "/w");
    s.handle_key(code(KeyCode::Tab), 0, "/w");
    let a = s.handle_key(code(KeyCode::Enter), 7, "/w");
    assert!(matches!(a, TuiAction::Nothing));
    let t = s.toast.as_ref().unwrap();
    assert_eq!(t.msg, "local path is required");
    assert!(t.is_error);
    assert!(matches!(s.dialog, Dialog::Pull { .. }));
}

#[test]
fn help_toggles_and_scrolls() {
    let mut s = state();
    s.handle_key(key('?'), 0, "/w");
    s.handle_key(key('j'), 0, "/w");
    s.handle_key(key('j'), 0, "/w");
    s.handle_key(key('k'), 0, "/w");
    assert!(matches!(s.dialog, Dialog::Help { scroll: 1 }));
    s.handle_key(key('?'), 0, "/w");
    assert!(matches!(s.dialog, Dialog::Closed));
}

#[test]
fn moving_is_clamped() {
    let mut s = state();
    s.move_sel(-1);
    assert_eq!(s.shortcut_sel, Some(0));
    s.move_sel(5);
    assert_eq!(s.shortcut_sel, Some(1));
}

#[test]
fn search_filters_case_insensitively() {
    let mut s = loaded();
    s.handle_key(key('/'), 0, "/w");
    s.handle_key(key('V'), 0, "/w");
    s.handle_key(key('2'), 0, "/w");
    s.handle_key(code(KeyCode::Enter), 0, "/w");
    assert!(!s.search_active);
    assert_eq!(tags(&s.filtered_artifacts()), vec!["v2"]);
}

#[test]
fn toasts_expire_after_four_seconds() {
    let mut s = state();
    s.apply_message(TuiMsg::OpFailed("boom".into()), 1000);
    assert_eq!(s.toast.as_ref().unwrap().msg, "failed: boom");
    s.expire_toast(5000);
    assert!(s.toast.is_some());
    s.expire_toast(5001);
    assert!(s.toast.is_none());
}

#[test]
fn sort_key_cycles_and_resorts() {
    let mut s = loaded();
    s.handle_key(key('s'), 0, "/w");
    assert_eq!(s.sort, SortMode::SizeDesc);
    assert_eq!(tags(&s.artifacts), vec!["v2", "v1"]);
}

#[test]
fn pane_text() {
    let mut a = art("v1", 1536);
    a.encrypted = true;
    a.labels.insert("app".into(), "web".into());
    let row = oci_sync::tui::pane_row(&a);
    assert_eq!(row, vec!["🔒 v1", "yes", "1.5 KiB", "0.7.0", "app=web"]);
    let (first, second, third) = oci_sync::tui::details_lines(&a);
    assert_eq!(first, "r:v1");
    assert_eq!(second, "Full name: reg/r:v1    Digest: sha256:v1    Version: 0.7.0    Size: 1.5 KiB");
    assert_eq!(third, "Encrypted: yes (AES-256-GCM)    Labels: app=web");
    assert_eq!(oci_sync::tui::delete_dialog_text(Some(&a)), "Delete r:v1 (sha256:v1)\n\nThis cannot be undone.");
    assert_eq!(oci_sync::tui::delete_dialog_text(None), "Nothing selected");
    assert_eq!(oci_sync::tui::masked("abc"), "***");
    let plain = art("v2", 1);
    assert_eq!(oci_sync::tui::details_lines(&plain).2, "Encrypted: no    Labels: -");
}

#[test]
fn ctrl_c_quits_while_typing() {
    let mut s = state();
    s.handle_key(key('/'), 0, "/w");
    s.handle_key(Key { code: KeyCode::Char('c'), ctrl: true }, 0, "/w");
    assert!(s.quit);
    assert_eq!(s.search, "");
}

#[test]
fn y_confirms_delete_on_cancel_focus() {
    let mut s = loaded();
    s.handle_key(key('d'), 0, "/w");
    assert!(matches!(s.dialog, Dialog::Delete { button: 1, busy: false }));
    let a = s.handle_key(key('y'), 0, "/w");
    match a {
        TuiAction::Delete { artifact, .. } => assert_eq!(artifact.tag, "v1"),
        other => panic!("unexpected {other:?}"),
    }
    assert!(matches!(s.dialog, Dialog::Closed));
}

#[test]
fn delete_under_search_takes_highlighted_row() {
    let mut s = loaded();
    s.handle_key(key('/'), 0, "/w");
    s.handle_key(key('2'), 0, "/w");
    s.handle_key(code(KeyCode::Enter), 0, "/w");
    assert_eq!(s.artifact_sel, Some(0));
    assert_eq!(s.selected_artifact().map(|a| a.tag), Some("v2".to_string()));
    s.handle_key(key('d'), 0, "/w");
    let a = s.handle_key(key('y'), 0, "/w");
    match a {
        TuiAction::Delete { artifact, full_ref, .. } => {
            assert_eq!(artifact.tag, "v2");
            assert_eq!(full_ref, "reg.io/team/files:v2");
        }
        other => panic!("unexpected {other:?}"),
    }
}
