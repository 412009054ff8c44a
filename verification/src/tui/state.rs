//! What the browser holds between key presses, and how a key press or a
//! background result changes it.
use vstd::prelude::*;

use crate::config::Config;
use crate::oci::{ArtifactInfo, ArtifactView, artifact_views};
use crate::text::{lowercase, to_lowercase, chars_of, string_of, push_str, push_char, str_eq, find_char, find_in, lemma_find_in_agrees};
use crate::tui::{SortMode, spec_next, stable_sorted, sort_artifacts, is_stable_sort, lemma_stable_sorted_is_stable};

verus! {

/// Which pane has the keyboard.
#[derive(Debug, Clone, Copy, PartialEq, Eq, Structural)]
pub enum Focus {
    Shortcuts,
    Artifacts,
}

/// Focus within the pull dialog; Tab cycles path, passphrase, buttons.
#[derive(Debug, Clone, Copy, PartialEq, Eq, Structural)]
pub enum PullField {
    Path,
    Passphrase,
    Buttons,
}

/// The modal dialog on top of the panes, if any.
#[derive(Debug)]
pub enum Dialog {
    Closed,
    /// `button`: 0 is Pull, 1 is Cancel (active only while `field` is
    /// `Buttons`).
    Pull { path: String, passphrase: String, field: PullField, button: usize, busy: bool },
    /// `button`: 0 is Delete, 1 is Cancel; Cancel has the focus at first.
    Delete { button: usize, busy: bool },
    Help { scroll: usize },
}

/// A key as the browser reads it.
#[derive(Debug, Clone, Copy, PartialEq, Eq, Structural)]
pub enum KeyCode {
    Char(char),
    Enter,
    Esc,
    Tab,
    Backspace,
    Up,
    Down,
    Left,
    Right,
    Other,
}

/// A key press: the key and whether Control was held.
#[derive(Debug, Clone, Copy, PartialEq, Eq, Structural)]
pub struct Key {
    pub code: KeyCode,
    pub ctrl: bool,
}

/// A transient message, with the time (in milliseconds) it was shown.
#[derive(Debug)]
pub struct Toast {
    pub msg: String,
    pub is_error: bool,
    pub shown_at: u64,
}

/// A result that background work hands back to the browser.
#[derive(Debug)]
pub enum TuiMsg {
    ArtifactsLoaded { repo: String, artifacts: Vec<ArtifactInfo> },
    LoadFailed(String),
    OpDone(String),
    OpFailed(String),
}

/// Work the caller must start after a key press.
#[derive(Debug)]
pub enum TuiAction {
    Nothing,
    /// List the artifacts of `repo` (shortcut `name`) on registry `host`.
    Load { name: String, repo: String, host: String },
    /// Pull `artifact` into `path`, decrypting with `passphrase`; record
    /// `full_ref` in the activity cache.
    Pull { host: String, artifact: ArtifactInfo, path: String, passphrase: String, full_ref: String },
    /// Delete `artifact`; record `full_ref` in the activity cache.
    Delete { host: String, artifact: ArtifactInfo, full_ref: String },
}

/// Milliseconds a toast stays up.
pub const TOAST_MILLIS: u64 = 4000;

/// Milliseconds after a delete starts at which an empty notice is posted.
pub const DELETE_NOTICE_MILLIS: u64 = 1200;

/// The browser's state.
#[derive(Debug)]
pub struct TuiState {
    /// `(name, repo)` of each shortcut, sorted by name.
    pub shortcuts: Vec<(String, String)>,
    pub shortcut_sel: Option<usize>,
    pub artifacts: Vec<ArtifactInfo>,
    pub artifact_sel: Option<usize>,
    /// Name of the shortcut whose artifacts are shown.
    pub artifacts_repo: Option<String>,
    pub focus: Focus,
    pub search: String,
    pub search_active: bool,
    pub sort: SortMode,
    pub loading: bool,
    pub dialog: Dialog,
    pub toast: Option<Toast>,
    pub quit: bool,
}

// ------------------------------------------------------------ views

pub enum DialogView {
    Closed,
    Pull { path: Seq<char>, passphrase: Seq<char>, field: PullField, button: usize, busy: bool },
    Delete { button: usize, busy: bool },
    Help { scroll: usize },
}

impl View for Dialog {
    type V = DialogView;

    open spec fn view(&self) -> DialogView {
        match self {
            Dialog::Closed => DialogView::Closed,
            Dialog::Pull { path, passphrase, field, button, busy } => DialogView::Pull {
                path: path@,
                passphrase: passphrase@,
                field: *field,
                button: *button,
                busy: *busy,
            },
            Dialog::Delete { button, busy } => DialogView::Delete { button: *button, busy: *busy },
            Dialog::Help { scroll } => DialogView::Help { scroll: *scroll },
        }
    }
}

pub enum ActionView {
    Nothing,
    Load { name: Seq<char>, repo: Seq<char>, host: Seq<char> },
    Pull { host: Seq<char>, artifact: ArtifactView, path: Seq<char>, passphrase: Seq<char>, full_ref: Seq<char> },
    Delete { host: Seq<char>, artifact: ArtifactView, full_ref: Seq<char> },
}

impl View for TuiAction {
    type V = ActionView;

    open spec fn view(&self) -> ActionView {
        match self {
            TuiAction::Nothing => ActionView::Nothing,
            TuiAction::Load { name, repo, host } => ActionView::Load { name: name@, repo: repo@, host: host@ },
            TuiAction::Pull { host, artifact, path, passphrase, full_ref } => ActionView::Pull {
                host: host@,
                artifact: artifact@,
                path: path@,
                passphrase: passphrase@,
                full_ref: full_ref@,
            },
            TuiAction::Delete { host, artifact, full_ref } => ActionView::Delete {
                host: host@,
                artifact: artifact@,
                full_ref: full_ref@,
            },
        }
    }
}

/// A toast as plain values: message, error flag, time shown.
pub type ToastView = (Seq<char>, bool, u64);

pub open spec fn toast_view(t: Option<Toast>) -> Option<ToastView> {
    match t {
        Some(t) => Some((t.msg@, t.is_error, t.shown_at)),
        None => None,
    }
}

pub open spec fn string_opt_view(s: Option<String>) -> Option<Seq<char>> {
    match s {
        Some(s) => Some(s@),
        None => None,
    }
}

pub open spec fn pair_views(v: Seq<(String, String)>) -> Seq<(Seq<char>, Seq<char>)> {
    v.map_values(|p: (String, String)| (p.0@, p.1@))
}

#[verifier::ext_equal]
pub struct TuiView {
    pub shortcuts: Seq<(Seq<char>, Seq<char>)>,
    pub shortcut_sel: Option<usize>,
    pub artifacts: Seq<ArtifactView>,
    pub artifact_sel: Option<usize>,
    pub artifacts_repo: Option<Seq<char>>,
    pub focus: Focus,
    pub search: Seq<char>,
    pub search_active: bool,
    pub sort: SortMode,
    pub loading: bool,
    pub dialog: DialogView,
    pub toast: Option<ToastView>,
    pub quit: bool,
}

impl View for TuiState {
    type V = TuiView;

    open spec fn view(&self) -> TuiView {
        TuiView {
            shortcuts: pair_views(self.shortcuts@),
            shortcut_sel: self.shortcut_sel,
            artifacts: artifact_views(self.artifacts@),
            artifact_sel: self.artifact_sel,
            artifacts_repo: string_opt_view(self.artifacts_repo),
            focus: self.focus,
            search: self.search@,
            search_active: self.search_active,
            sort: self.sort,
            loading: self.loading,
            dialog: self.dialog@,
            toast: toast_view(self.toast),
            quit: self.quit,
        }
    }
}

// ------------------------------------------------------------ the rules

/// Keys go to a text field: the pull dialog is open or a search is typed.
pub open spec fn typing(s: TuiView) -> bool {
    s.dialog is Pull || s.search_active
}

/// Control-C quits in every state; `q` quits unless a text field has the
/// keys.
pub open spec fn quits(s: TuiView, k: Key) -> bool {
    (k.code == KeyCode::Char('c') && k.ctrl) || (!typing(s) && k.code == KeyCode::Char('q'))
}

pub open spec fn toggle(b: usize) -> usize {
    if b == 0 {
        1
    } else {
        0
    }
}

/// Registry host of a repository: what precedes its first `/`.
pub open spec fn host_of(repo: Seq<char>) -> Seq<char> {
    match find_char(repo, '/') {
        Some(i) => repo.take(i),
        None => repo,
    }
}

pub open spec fn selected_shortcut(s: TuiView) -> Option<(Seq<char>, Seq<char>)> {
    match s.shortcut_sel {
        Some(i) => if i < s.shortcuts.len() {
            Some(s.shortcuts[i as int])
        } else {
            None
        },
        None => None,
    }
}

/// The highlighted row of the artifact list as it is shown, that is under
/// the current search.
pub open spec fn selected_artifact(s: TuiView) -> Option<ArtifactView> {
    match s.artifact_sel {
        Some(i) => if i < shown_artifacts(s).len() {
            Some(shown_artifacts(s)[i as int])
        } else {
            None
        },
        None => None,
    }
}

pub open spec fn with_dialog(s: TuiView, d: DialogView) -> TuiView {
    TuiView { dialog: d, ..s }
}

pub open spec fn with_toast(s: TuiView, msg: Seq<char>, is_error: bool, now: u64) -> TuiView {
    TuiView { toast: Some((msg, is_error, now)), ..s }
}

pub open spec fn nothing(s: TuiView) -> (TuiView, ActionView) {
    (s, ActionView::Nothing)
}

/// Loading the selected shortcut's artifacts: the list empties, the
/// spinner starts and a toast names the repository.
pub open spec fn load_step(s: TuiView, now: u64) -> (TuiView, ActionView) {
    match selected_shortcut(s) {
        None => nothing(s),
        Some((name, repo)) => (
            TuiView {
                artifacts_repo: Some(name),
                artifacts: Seq::empty(),
                artifact_sel: None,
                loading: true,
                toast: Some(("loading "@ + repo + " ..."@, false, now)),
                ..s
            },
            ActionView::Load { name, repo, host: host_of(repo) },
        ),
    }
}

/// `<repo>:<tag>` of the selected artifact under the selected shortcut.
pub open spec fn full_ref(repo: Seq<char>, a: ArtifactView) -> Seq<char> {
    repo + ":"@ + a.tag
}

/// A confirmed pull: the dialog closes; the work starts when an artifact
/// and a shortcut are selected.
pub open spec fn start_pull(s: TuiView, path: Seq<char>, passphrase: Seq<char>) -> (TuiView, ActionView) {
    let s1 = with_dialog(s, DialogView::Closed);
    match (selected_artifact(s), selected_shortcut(s)) {
        (Some(a), Some((_, repo))) => (
            s1,
            ActionView::Pull { host: host_of(repo), artifact: a, path, passphrase, full_ref: full_ref(repo, a) },
        ),
        _ => nothing(s1),
    }
}

/// A confirmed delete: the dialog closes; the work starts when an artifact
/// and a shortcut are selected.
pub open spec fn start_delete(s: TuiView) -> (TuiView, ActionView) {
    let s1 = with_dialog(s, DialogView::Closed);
    match (selected_artifact(s), selected_shortcut(s)) {
        (Some(a), Some((_, repo))) => (
            s1,
            ActionView::Delete { host: host_of(repo), artifact: a, full_ref: full_ref(repo, a) },
        ),
        _ => nothing(s1),
    }
}

pub open spec fn help_step(s: TuiView, scroll: usize, k: Key) -> (TuiView, ActionView) {
    let c = k.code;
    if c == KeyCode::Esc || c == KeyCode::Char('?') || c == KeyCode::Char('q') {
        nothing(with_dialog(s, DialogView::Closed))
    } else if c == KeyCode::Up || c == KeyCode::Char('k') {
        nothing(with_dialog(s, DialogView::Help { scroll: if scroll == 0 { 0 } else { (scroll - 1) as usize } }))
    } else if c == KeyCode::Down || c == KeyCode::Char('j') {
        nothing(with_dialog(s, DialogView::Help { scroll: if scroll == usize::MAX { scroll } else { (scroll + 1) as usize } }))
    } else {
        nothing(s)
    }
}

pub open spec fn delete_step(s: TuiView, button: usize, busy: bool, k: Key) -> (TuiView, ActionView) {
    let c = k.code;
    if busy {
        nothing(s)
    } else if c == KeyCode::Char('y') || (c == KeyCode::Enter && button == 0) {
        start_delete(s)
    } else if c == KeyCode::Enter && button == 1 {
        nothing(with_dialog(s, DialogView::Closed))
    } else if c == KeyCode::Char('n') || c == KeyCode::Char('q') || c == KeyCode::Esc {
        nothing(with_dialog(s, DialogView::Closed))
    } else if c == KeyCode::Left || c == KeyCode::Right || c == KeyCode::Char('h') || c == KeyCode::Char('l') {
        nothing(with_dialog(s, DialogView::Delete { button: toggle(button), busy }))
    } else {
        nothing(s)
    }
}

pub open spec fn next_field(f: PullField) -> PullField {
    match f {
        PullField::Path => PullField::Passphrase,
        PullField::Passphrase => PullField::Buttons,
        PullField::Buttons => PullField::Path,
    }
}

/// `s` without its last character, if it has one.
pub open spec fn pop(s: Seq<char>) -> Seq<char> {
    if s.len() == 0 {
        s
    } else {
        s.drop_last()
    }
}

pub open spec fn pull_step(
    s: TuiView,
    path: Seq<char>,
    pass: Seq<char>,
    field: PullField,
    button: usize,
    busy: bool,
    k: Key,
    now: u64,
) -> (TuiView, ActionView) {
    let c = k.code;
    let same = |p: Seq<char>, q: Seq<char>, f: PullField, b: usize|
        nothing(with_dialog(s, DialogView::Pull { path: p, passphrase: q, field: f, button: b, busy }));
    if busy {
        nothing(s)
    } else if c == KeyCode::Esc {
        nothing(with_dialog(s, DialogView::Closed))
    } else if c == KeyCode::Tab {
        same(path, pass, next_field(field), button)
    } else if c == KeyCode::Backspace {
        match field {
            PullField::Path => same(pop(path), pass, field, button),
            PullField::Passphrase => same(path, pop(pass), field, button),
            PullField::Buttons => nothing(s),
        }
    } else if (c == KeyCode::Left || c == KeyCode::Char('h') || c == KeyCode::Right || c == KeyCode::Char('l'))
        && field == PullField::Buttons {
        same(path, pass, field, toggle(button))
    } else if c == KeyCode::Enter {
        if field != PullField::Buttons {
            nothing(s)
        } else if button != 0 {
            nothing(with_dialog(s, DialogView::Closed))
        } else if path.len() == 0 {
            nothing(with_toast(s, "local path is required"@, true, now))
        } else {
            start_pull(s, path, pass)
        }
    } else {
        match c {
            KeyCode::Char(ch) => match field {
                PullField::Path => same(path.push(ch), pass, field, button),
                PullField::Passphrase => same(path, pass.push(ch), field, button),
                PullField::Buttons => nothing(s),
            },
            _ => nothing(s),
        }
    }
}

pub open spec fn search_step(s: TuiView, k: Key) -> (TuiView, ActionView) {
    match k.code {
        KeyCode::Esc => nothing(TuiView { search_active: false, search: Seq::empty(), ..s }),
        KeyCode::Enter => nothing(TuiView { search_active: false, ..s }),
        KeyCode::Backspace => nothing(TuiView { search: pop(s.search), ..s }),
        KeyCode::Char(ch) => nothing(TuiView { search: s.search.push(ch), ..s }),
        _ => nothing(s),
    }
}

/// The selection after moving `delta` rows in a list of `len` rows: from
/// the current row (the first when none), clamped to the list.
pub open spec fn moved(sel: Option<usize>, len: nat, delta: int) -> Option<usize> {
    let cur: int = match sel {
        Some(i) => i as int,
        None => 0,
    };
    let t = cur + delta;
    Some((if t < 0 { 0 } else if t > len - 1 { len - 1 } else { t }) as usize)
}

pub open spec fn move_step(s: TuiView, delta: int) -> TuiView {
    match s.focus {
        Focus::Shortcuts => if s.shortcuts.len() == 0 {
            s
        } else {
            TuiView { shortcut_sel: moved(s.shortcut_sel, s.shortcuts.len(), delta), ..s }
        },
        Focus::Artifacts => if s.artifacts.len() == 0 {
            s
        } else {
            TuiView { artifact_sel: moved(s.artifact_sel, s.artifacts.len(), delta), ..s }
        },
    }
}

pub open spec fn other_focus(f: Focus) -> Focus {
    match f {
        Focus::Shortcuts => Focus::Artifacts,
        Focus::Artifacts => Focus::Shortcuts,
    }
}

pub open spec fn browse_step(s: TuiView, k: Key, now: u64, cwd: Seq<char>) -> (TuiView, ActionView) {
    let c = k.code;
    if c == KeyCode::Tab || c == KeyCode::Left || c == KeyCode::Char('h') || c == KeyCode::Right || c
        == KeyCode::Char('l') {
        nothing(TuiView { focus: other_focus(s.focus), ..s })
    } else if c == KeyCode::Up || c == KeyCode::Char('k') {
        nothing(move_step(s, -1))
    } else if c == KeyCode::Down || c == KeyCode::Char('j') {
        nothing(move_step(s, 1))
    } else if c == KeyCode::Enter {
        if s.focus == Focus::Shortcuts {
            load_step(s, now)
        } else {
            nothing(s)
        }
    } else if c == KeyCode::Char('/') {
        nothing(TuiView { search_active: true, search: Seq::empty(), ..s })
    } else if c == KeyCode::Char('s') {
        nothing(
            TuiView {
                sort: spec_next(s.sort),
                artifacts: stable_sorted(spec_next(s.sort), s.artifacts),
                ..s
            },
        )
    } else if c == KeyCode::Char('r') {
        if s.artifacts_repo is Some {
            load_step(s, now)
        } else {
            nothing(s)
        }
    } else if c == KeyCode::Char('p') {
        if s.focus == Focus::Artifacts && s.artifacts.len() > 0 {
            nothing(
                with_dialog(
                    s,
                    DialogView::Pull {
                        path: cwd,
                        passphrase: Seq::empty(),
                        field: PullField::Path,
                        button: 0,
                        busy: false,
                    },
                ),
            )
        } else {
            nothing(s)
        }
    } else if c == KeyCode::Char('d') {
        if s.focus == Focus::Artifacts && s.artifacts.len() > 0 {
            nothing(with_dialog(s, DialogView::Delete { button: 1, busy: false }))
        } else {
            nothing(s)
        }
    } else if c == KeyCode::Char('?') {
        nothing(with_dialog(s, DialogView::Help { scroll: 0 }))
    } else if c == KeyCode::Esc {
        if s.focus == Focus::Artifacts {
            nothing(TuiView { focus: Focus::Shortcuts, ..s })
        } else {
            nothing(s)
        }
    } else {
        nothing(s)
    }
}

/// The browser's answer to key `k` at time `now`, with `cwd` the directory
/// the pull dialog offers: the next state and the work to start.
pub open spec fn key_step(s: TuiView, k: Key, now: u64, cwd: Seq<char>) -> (TuiView, ActionView) {
    if quits(s, k) {
        nothing(TuiView { quit: true, ..s })
    } else {
        match s.dialog {
            DialogView::Help { scroll } => help_step(s, scroll, k),
            DialogView::Delete { button, busy } => delete_step(s, button, busy, k),
            DialogView::Pull { path, passphrase, field, button, busy } => pull_step(
                s,
                path,
                passphrase,
                field,
                button,
                busy,
                k,
                now,
            ),
            DialogView::Closed => if s.search_active {
                search_step(s, k)
            } else {
                browse_step(s, k, now, cwd)
            },
        }
    }
}

/// The state right after start: the shortcut list, its first row
/// selected, everything else empty.
pub open spec fn initial_view(shortcuts: Seq<(Seq<char>, Seq<char>)>) -> TuiView {
    TuiView {
        shortcuts,
        shortcut_sel: if shortcuts.len() > 0 { Some(0) } else { None },
        artifacts: Seq::empty(),
        artifact_sel: None,
        artifacts_repo: None,
        focus: Focus::Shortcuts,
        search: Seq::empty(),
        search_active: false,
        sort: SortMode::Name,
        loading: false,
        dialog: DialogView::Closed,
        toast: None,
        quit: false,
    }
}

// ------------------------------------------------------------ helpers

/// `s` without its last character, if it has one (`String::pop`).
fn popped(s: &String) -> (r: String)
    ensures
        r@ == pop(s@),
{
    let v = chars_of(s.as_str());
    if v.len() == 0 {
        String::new()
    } else {
        string_of(&v, 0, v.len() - 1)
    }
}

/// The registry host of a repository.
pub fn repo_host(repo: &str) -> (h: String)
    ensures
        h@ == host_of(repo@),
{
    let v = chars_of(repo);
    let r = find_in(&v, '/', 0, v.len());
    proof {
        lemma_find_in_agrees(v@, '/', 0, v@.len() as int, match r { Some(k) => Some(k as int), None => None });
        assert(v@.subrange(0, v@.len() as int) == v@);
    }
    match r {
        Some(i) => {
            let h = string_of(&v, 0, i);
            assert(h@ == repo@.take(i as int));
            h
        },
        None => string_of(&v, 0, v.len()),
    }
}

/// `<repo>:<tag>`.
fn join_ref(repo: &str, tag: &str) -> (r: String)
    ensures
        r@ == repo@ + ":"@ + tag@,
{
    let mut r = String::new();
    push_str(&mut r, repo);
    push_str(&mut r, ":");
    push_str(&mut r, tag);
    r
}

/// An owned copy of `s`.
fn owned(s: &str) -> (r: String)
    ensures
        r@ == s@,
{
    let mut r = String::new();
    push_str(&mut r, s);
    r
}

/// `prefix`, `body` and `suffix` joined.
fn message(prefix: &str, body: &str, suffix: &str) -> (r: String)
    ensures
        r@ == prefix@ + body@ + suffix@,
{
    let mut r = String::new();
    push_str(&mut r, prefix);
    push_str(&mut r, body);
    push_str(&mut r, suffix);
    r
}

impl TuiState {
    /// A fresh browser over `cfg`'s shortcuts.
    pub fn new(cfg: &Config) -> (s: TuiState)
        ensures
            s@ == initial_view(s@.shortcuts),
            s@.shortcuts.len() == cfg.shortcuts.as_map().dom().len(),
            forall|i: int| 0 <= i < s@.shortcuts.len() ==> cfg.shortcuts.as_map().contains_key(#[trigger] s@.shortcuts[i].0)
                && s@.shortcuts[i].1 == cfg.shortcuts.as_map()[s@.shortcuts[i].0].repo@,
            forall|i: int, j: int| 0 <= i < j < s@.shortcuts.len() ==> crate::text::seq_lt(#[trigger] s@.shortcuts[i].0, #[trigger] s@.shortcuts[j].0),
    {
        let shortcuts = cfg.all_shortcuts();
        let sel = if shortcuts.len() > 0 { Some(0) } else { None };
        let s = TuiState {
            shortcuts,
            shortcut_sel: sel,
            artifacts: Vec::new(),
            artifact_sel: None,
            artifacts_repo: None,
            focus: Focus::Shortcuts,
            search: String::new(),
            search_active: false,
            sort: SortMode::Name,
            loading: false,
            dialog: Dialog::Closed,
            toast: None,
            quit: false,
        };
        proof {
            assert(artifact_views(s.artifacts@) =~= Seq::<ArtifactView>::empty());
            assert forall|i: int, j: int| 0 <= i < j < s@.shortcuts.len() implies crate::text::seq_lt(#[trigger] s@.shortcuts[i].0, #[trigger] s@.shortcuts[j].0) by {
                assert(crate::sorting::strictly_sorted(s.shortcuts@));
            }
        }
        s
    }

    /// The selected shortcut, `(name, repo)`.
    fn selected_shortcut(&self) -> (r: Option<(String, String)>)
        ensures
            match r {
                Some(p) => selected_shortcut(self@) == Some((p.0@, p.1@)),
                None => selected_shortcut(self@) is None,
            },
    {
        match self.shortcut_sel {
            Some(i) => if i < self.shortcuts.len() {
                let p = &self.shortcuts[i];
                Some((p.0.clone(), p.1.clone()))
            } else {
                None
            },
            None => None,
        }
    }

    /// The highlighted artifact of the list as shown.
    pub fn selected_artifact(&self) -> (r: Option<ArtifactInfo>)
        ensures
            match r {
                Some(a) => selected_artifact(self@) == Some(a@),
                None => selected_artifact(self@) is None,
            },
    {
        let shown = self.filtered_artifacts();
        proof {
            assert(artifact_views(shown@).len() == shown@.len());
        }
        match self.artifact_sel {
            Some(i) => if i < shown.len() {
                proof {
                    assert(artifact_views(shown@)[i as int] == shown@[i as int]@);
                }
                Some(shown[i].clone())
            } else {
                None
            },
            None => None,
        }
    }

    fn load_artifacts(&mut self, now: u64) -> (a: TuiAction)
        ensures
            (final(self)@, a@) == load_step(old(self)@, now),
    {
        match self.selected_shortcut() {
            None => TuiAction::Nothing,
            Some((name, repo)) => {
                self.artifacts_repo = Some(name.clone());
                self.artifacts = Vec::new();
                self.artifact_sel = None;
                self.loading = true;
                self.toast = Some(Toast { msg: message("loading ", repo.as_str(), " ..."), is_error: false, shown_at: now });
                let host = repo_host(repo.as_str());
                proof {
                    assert(artifact_views(self.artifacts@) =~= Seq::<ArtifactView>::empty());
                }
                TuiAction::Load { name, repo, host }
            },
        }
    }

    fn start_pull(&mut self, path: String, passphrase: String) -> (a: TuiAction)
        ensures
            (final(self)@, a@) == start_pull(old(self)@, path@, passphrase@),
    {
        let art = self.selected_artifact();
        let sc = self.selected_shortcut();
        self.dialog = Dialog::Closed;
        match (art, sc) {
            (Some(artifact), Some((_, repo))) => {
                let host = repo_host(repo.as_str());
                let full_ref = join_ref(repo.as_str(), artifact.tag.as_str());
                TuiAction::Pull { host, artifact, path, passphrase, full_ref }
            },
            _ => TuiAction::Nothing,
        }
    }

    fn start_delete(&mut self) -> (a: TuiAction)
        ensures
            (final(self)@, a@) == start_delete(old(self)@),
    {
        let art = self.selected_artifact();
        let sc = self.selected_shortcut();
        self.dialog = Dialog::Closed;
        match (art, sc) {
            (Some(artifact), Some((_, repo))) => {
                let host = repo_host(repo.as_str());
                let full_ref = join_ref(repo.as_str(), artifact.tag.as_str());
                TuiAction::Delete { host, artifact, full_ref }
            },
            _ => TuiAction::Nothing,
        }
    }

    /// Re-sorts the artifact list by the current mode.
    fn apply_sort(&mut self)
        ensures
            final(self)@ == (TuiView { artifacts: stable_sorted(old(self)@.sort, old(self)@.artifacts), ..old(self)@ }),
    {
        let mut v: Vec<ArtifactInfo> = Vec::new();
        std::mem::swap(&mut v, &mut self.artifacts);
        self.artifacts = sort_artifacts(v, self.sort);
    }

    /// Moves the selection of the focused pane by `delta` rows.
    pub fn move_sel(&mut self, delta: i32)
        ensures
            final(self)@ == move_step(old(self)@, delta as int),
    {
        match self.focus {
            Focus::Shortcuts => {
                if self.shortcuts.len() == 0 {
                    return;
                }
                self.shortcut_sel = Some(clamped(self.shortcut_sel, self.shortcuts.len(), delta));
            },
            Focus::Artifacts => {
                if self.artifacts.len() == 0 {
                    return;
                }
                self.artifact_sel = Some(clamped(self.artifact_sel, self.artifacts.len(), delta));
            },
        }
    }
}

/// The row `delta` away from `sel`, clamped to `len` rows.
fn clamped(sel: Option<usize>, len: usize, delta: i32) -> (r: usize)
    requires
        len > 0,
    ensures
        Some(r) == moved(sel, len as nat, delta as int),
{
    let cur: i128 = match sel {
        Some(i) => i as i128,
        None => 0,
    };
    let t = cur + delta as i128;
    let hi = (len - 1) as i128;
    if t < 0 {
        0
    } else if t > hi {
        len - 1
    } else {
        t as usize
    }
}

impl TuiState {
    fn help_key(&mut self, scroll: usize, key: Key)
        requires
            old(self)@.dialog == (DialogView::Help { scroll }),
        ensures
            (final(self)@, ActionView::Nothing) == help_step(old(self)@, scroll, key),
    {
        let c = key.code;
        if c == KeyCode::Esc || c == KeyCode::Char('?') || c == KeyCode::Char('q') {
            self.dialog = Dialog::Closed;
        } else if c == KeyCode::Up || c == KeyCode::Char('k') {
            self.dialog = Dialog::Help { scroll: if scroll == 0 { 0 } else { scroll - 1 } };
        } else if c == KeyCode::Down || c == KeyCode::Char('j') {
            self.dialog = Dialog::Help { scroll: if scroll == usize::MAX { scroll } else { scroll + 1 } };
        }
    }

    fn delete_key(&mut self, button: usize, busy: bool, key: Key) -> (a: TuiAction)
        requires
            old(self)@.dialog == (DialogView::Delete { button, busy }),
        ensures
            (final(self)@, a@) == delete_step(old(self)@, button, busy, key),
    {
        let c = key.code;
        if busy {
            TuiAction::Nothing
        } else if c == KeyCode::Char('y') || (c == KeyCode::Enter && button == 0) {
            self.start_delete()
        } else if c == KeyCode::Enter && button == 1 {
            self.dialog = Dialog::Closed;
            TuiAction::Nothing
        } else if c == KeyCode::Char('n') || c == KeyCode::Char('q') || c == KeyCode::Esc {
            self.dialog = Dialog::Closed;
            TuiAction::Nothing
        } else if c == KeyCode::Left || c == KeyCode::Right || c == KeyCode::Char('h') || c == KeyCode::Char('l') {
            self.dialog = Dialog::Delete { button: if button == 0 { 1 } else { 0 }, busy };
            TuiAction::Nothing
        } else {
            TuiAction::Nothing
        }
    }

    /// The pull dialog's key handling; the dialog's fields come in by value
    /// and `self.dialog` is closed meanwhile.
    fn pull_key(
        &mut self,
        path: String,
        pass: String,
        field: PullField,
        button: usize,
        busy: bool,
        key: Key,
        now: u64,
    ) -> (a: TuiAction)
        requires
            old(self)@.dialog == DialogView::Closed,
        ensures
            (final(self)@, a@) == pull_step(
                with_dialog(old(self)@, DialogView::Pull { path: path@, passphrase: pass@, field, button, busy }),
                path@,
                pass@,
                field,
                button,
                busy,
                key,
                now,
            ),
    {
        let c = key.code;
        let toggled: usize = if button == 0 { 1 } else { 0 };
        if busy {
            self.dialog = Dialog::Pull { path, passphrase: pass, field, button, busy };
            TuiAction::Nothing
        } else if c == KeyCode::Esc {
            TuiAction::Nothing
        } else if c == KeyCode::Tab {
            let f = match field {
                PullField::Path => PullField::Passphrase,
                PullField::Passphrase => PullField::Buttons,
                PullField::Buttons => PullField::Path,
            };
            self.dialog = Dialog::Pull { path, passphrase: pass, field: f, button, busy };
            TuiAction::Nothing
        } else if c == KeyCode::Backspace {
            match field {
                PullField::Path => {
                    self.dialog = Dialog::Pull { path: popped(&path), passphrase: pass, field, button, busy };
                },
                PullField::Passphrase => {
                    self.dialog = Dialog::Pull { path, passphrase: popped(&pass), field, button, busy };
                },
                PullField::Buttons => {
                    self.dialog = Dialog::Pull { path, passphrase: pass, field, button, busy };
                },
            }
            TuiAction::Nothing
        } else if (c == KeyCode::Left || c == KeyCode::Char('h') || c == KeyCode::Right || c == KeyCode::Char('l'))
            && field == PullField::Buttons {
            self.dialog = Dialog::Pull { path, passphrase: pass, field, button: toggled, busy };
            TuiAction::Nothing
        } else if c == KeyCode::Enter {
            if field != PullField::Buttons {
                self.dialog = Dialog::Pull { path, passphrase: pass, field, button, busy };
                TuiAction::Nothing
            } else if button != 0 {
                TuiAction::Nothing
            } else if path.as_str().is_empty() {
                self.toast = Some(Toast { msg: owned("local path is required"), is_error: true, shown_at: now });
                self.dialog = Dialog::Pull { path, passphrase: pass, field, button, busy };
                TuiAction::Nothing
            } else {
                self.dialog = Dialog::Pull { path: path.clone(), passphrase: pass.clone(), field, button, busy };
                self.start_pull(path, pass)
            }
        } else {
            match c {
                KeyCode::Char(ch) => {
                    let mut path = path;
                    let mut pass = pass;
                    match field {
                        PullField::Path => push_char(&mut path, ch),
                        PullField::Passphrase => push_char(&mut pass, ch),
                        PullField::Buttons => {},
                    }
                    self.dialog = Dialog::Pull { path, passphrase: pass, field, button, busy };
                },
                _ => {
                    self.dialog = Dialog::Pull { path, passphrase: pass, field, button, busy };
                },
            }
            TuiAction::Nothing
        }
    }

    fn search_key(&mut self, key: Key)
        ensures
            (final(self)@, ActionView::Nothing) == search_step(old(self)@, key),
    {
        match key.code {
            KeyCode::Esc => {
                self.search_active = false;
                self.search = String::new();
            },
            KeyCode::Enter => {
                self.search_active = false;
            },
            KeyCode::Backspace => {
                self.search = popped(&self.search);
            },
            KeyCode::Char(ch) => {
                push_char(&mut self.search, ch);
            },
            _ => {},
        }
    }

    fn browse_key(&mut self, key: Key, now: u64, cwd: &str) -> (a: TuiAction)
        ensures
            (final(self)@, a@) == browse_step(old(self)@, key, now, cwd@),
    {
        let c = key.code;
        if c == KeyCode::Tab || c == KeyCode::Left || c == KeyCode::Char('h') || c == KeyCode::Right || c
            == KeyCode::Char('l') {
            self.focus = match self.focus {
                Focus::Shortcuts => Focus::Artifacts,
                Focus::Artifacts => Focus::Shortcuts,
            };
            TuiAction::Nothing
        } else if c == KeyCode::Up || c == KeyCode::Char('k') {
            self.move_sel(-1);
            TuiAction::Nothing
        } else if c == KeyCode::Down || c == KeyCode::Char('j') {
            self.move_sel(1);
            TuiAction::Nothing
        } else if c == KeyCode::Enter {
            if self.focus == Focus::Shortcuts {
                self.load_artifacts(now)
            } else {
                TuiAction::Nothing
            }
        } else if c == KeyCode::Char('/') {
            self.search_active = true;
            self.search = String::new();
            TuiAction::Nothing
        } else if c == KeyCode::Char('s') {
            self.sort = self.sort.next();
            self.apply_sort();
            TuiAction::Nothing
        } else if c == KeyCode::Char('r') {
            if self.artifacts_repo.is_some() {
                self.load_artifacts(now)
            } else {
                TuiAction::Nothing
            }
        } else if c == KeyCode::Char('p') {
            if self.focus == Focus::Artifacts && self.artifacts.len() > 0 {
                self.dialog = Dialog::Pull {
                    path: owned(cwd),
                    passphrase: String::new(),
                    field: PullField::Path,
                    button: 0,
                    busy: false,
                };
            }
            TuiAction::Nothing
        } else if c == KeyCode::Char('d') {
            if self.focus == Focus::Artifacts && self.artifacts.len() > 0 {
                self.dialog = Dialog::Delete { button: 1, busy: false };
            }
            TuiAction::Nothing
        } else if c == KeyCode::Char('?') {
            self.dialog = Dialog::Help { scroll: 0 };
            TuiAction::Nothing
        } else if c == KeyCode::Esc {
            if self.focus == Focus::Artifacts {
                self.focus = Focus::Shortcuts;
            }
            TuiAction::Nothing
        } else {
            TuiAction::Nothing
        }
    }

    /// Handles one key press at time `now` (milliseconds); `cwd` is the
    /// directory the pull dialog offers. Returns the work to start.
    pub fn handle_key(&mut self, key: Key, now: u64, cwd: &str) -> (a: TuiAction)
        ensures
            (final(self)@, a@) == key_step(old(self)@, key, now, cwd@),
    {
        let pull_open = match &self.dialog {
            Dialog::Pull { .. } => true,
            _ => false,
        };
        let typing = pull_open || self.search_active;
        if (key.code == KeyCode::Char('c') && key.ctrl) || (!typing && key.code == KeyCode::Char('q')) {
            self.quit = true;
            return TuiAction::Nothing;
        }
        let mut d = Dialog::Closed;
        std::mem::swap(&mut d, &mut self.dialog);
        match d {
            Dialog::Help { scroll } => {
                self.dialog = Dialog::Help { scroll };
                self.help_key(scroll, key);
                TuiAction::Nothing
            },
            Dialog::Delete { button, busy } => {
                self.dialog = Dialog::Delete { button, busy };
                self.delete_key(button, busy, key)
            },
            Dialog::Pull { path, passphrase, field, button, busy } => {
                self.pull_key(path, passphrase, field, button, busy, key, now)
            },
            Dialog::Closed => {
                if self.search_active {
                    self.search_key(key);
                    TuiAction::Nothing
                } else {
                    self.browse_key(key, now, cwd)
                }
            },
        }
    }
}

// ------------------------------------------------------------ background results

pub enum MsgView {
    ArtifactsLoaded { repo: Seq<char>, artifacts: Seq<ArtifactView> },
    LoadFailed(Seq<char>),
    OpDone(Seq<char>),
    OpFailed(Seq<char>),
}

impl View for TuiMsg {
    type V = MsgView;

    open spec fn view(&self) -> MsgView {
        match self {
            TuiMsg::ArtifactsLoaded { repo, artifacts } => MsgView::ArtifactsLoaded {
                repo: repo@,
                artifacts: artifact_views(artifacts@),
            },
            TuiMsg::LoadFailed(e) => MsgView::LoadFailed(e@),
            TuiMsg::OpDone(m) => MsgView::OpDone(m@),
            TuiMsg::OpFailed(e) => MsgView::OpFailed(e@),
        }
    }
}

/// What a background result does to the state at time `now`: a listing
/// replaces the artifacts (sorted, first row selected) only when it is for
/// the shortcut still shown; failures and completions raise a toast.
pub open spec fn message_step(s: TuiView, m: MsgView, now: u64) -> TuiView {
    match m {
        MsgView::ArtifactsLoaded { repo, artifacts } => {
            let s1 = TuiView { loading: false, ..s };
            if s.artifacts_repo == Some(repo) {
                TuiView {
                    artifacts: stable_sorted(s.sort, artifacts),
                    artifact_sel: if artifacts.len() > 0 { Some(0) } else { None },
                    ..s1
                }
            } else {
                s1
            }
        },
        MsgView::LoadFailed(e) => TuiView { loading: false, toast: Some(("load failed: "@ + e, true, now)), ..s },
        MsgView::OpDone(msg) => with_toast(s, msg, false, now),
        MsgView::OpFailed(e) => with_toast(s, "failed: "@ + e, true, now),
    }
}

/// A toast older than `TOAST_MILLIS` at `now` goes away.
pub open spec fn expire_step(s: TuiView, now: u64) -> TuiView {
    match s.toast {
        Some((_, _, at)) => if now > at && now - at > TOAST_MILLIS {
            TuiView { toast: None, ..s }
        } else {
            s
        },
        None => s,
    }
}

// ------------------------------------------------------------ search filter

/// `needle` occurs in `hay` as a contiguous run.
pub open spec fn is_infix(needle: Seq<char>, hay: Seq<char>) -> bool {
    exists|i: int| 0 <= i && i + needle.len() <= hay.len() && #[trigger] hay.subrange(i, i + needle.len()) == needle
}

/// Whether `needle` occurs in `hay`.
pub fn contains_str(hay: &str, needle: &str) -> (r: bool)
    ensures
        r == is_infix(needle@, hay@),
{
    let h = chars_of(hay);
    let n = chars_of(needle);
    if n.len() > h.len() {
        return false;
    }
    let mut i: usize = 0;
    while i <= h.len() - n.len()
        invariant
            h@ == hay@,
            n@ == needle@,
            n@.len() <= h@.len(),
            i <= h@.len() - n@.len() + 1,
            h.len() == h@.len(),
            forall|j: int| 0 <= j < i ==> #[trigger] h@.subrange(j, j + n@.len()) != n@,
        decreases h.len() - i,
    {
        let mut k: usize = 0;
        while k < n.len() && h[i + k] == n[k]
            invariant
                h@ == hay@,
                n@ == needle@,
                i + n@.len() <= h@.len(),
                h.len() == h@.len(),
                k <= n@.len(),
                forall|q: int| 0 <= q < k ==> h@[i + q] == n@[q],
            decreases n.len() - k,
        {
            k += 1;
        }
        if k == n.len() {
            assert(h@.subrange(i as int, i + n@.len()) =~= n@);
            return true;
        }
        assert(h@.subrange(i as int, i + n@.len())[k as int] != n@[k as int]);
        i += 1;
    }
    proof {
        assert forall|j: int| 0 <= j && j + needle@.len() <= hay@.len() implies #[trigger] hay@.subrange(j, j + needle@.len()) != needle@ by {
            assert(j < i);
        }
    }
    false
}

/// The search filter: the tag, lowercased, holds the search text, lowercased.
pub open spec fn matches_search(search: Seq<char>, a: ArtifactView) -> bool {
    is_infix(lowercase(search), lowercase(a.tag))
}

/// The artifacts the list shows: all of them with no search text, else
/// those whose tag matches it, in order.
pub open spec fn shown_artifacts(s: TuiView) -> Seq<ArtifactView> {
    if s.search.len() == 0 {
        s.artifacts
    } else {
        s.artifacts.filter(|a: ArtifactView| matches_search(s.search, a))
    }
}

impl TuiState {
    /// Applies one background result at time `now`.
    pub fn apply_message(&mut self, msg: TuiMsg, now: u64)
        ensures
            final(self)@ == message_step(old(self)@, msg@, now),
    {
        match msg {
            TuiMsg::ArtifactsLoaded { repo, artifacts } => {
                self.loading = false;
                let current = match &self.artifacts_repo {
                    Some(r) => str_eq(r.as_str(), repo.as_str()),
                    None => false,
                };
                if current {
                    let nonempty = artifacts.len() > 0;
                    self.artifacts = artifacts;
                    self.artifact_sel = if nonempty { Some(0) } else { None };
                    self.apply_sort();
                }
            },
            TuiMsg::LoadFailed(e) => {
                self.loading = false;
                self.toast = Some(Toast { msg: message("load failed: ", e.as_str(), ""), is_error: true, shown_at: now });
                proof { reveal_strlit(""); }
            },
            TuiMsg::OpDone(m) => {
                self.toast = Some(Toast { msg: m, is_error: false, shown_at: now });
            },
            TuiMsg::OpFailed(e) => {
                self.toast = Some(Toast { msg: message("failed: ", e.as_str(), ""), is_error: true, shown_at: now });
                proof { reveal_strlit(""); }
            },
        }
    }

    /// Drops a toast that has been up for longer than `TOAST_MILLIS`.
    pub fn expire_toast(&mut self, now: u64)
        ensures
            final(self)@ == expire_step(old(self)@, now),
    {
        let old_enough = match &self.toast {
            Some(t) => now > t.shown_at && now - t.shown_at > TOAST_MILLIS,
            None => false,
        };
        if old_enough {
            self.toast = None;
        }
    }

    /// The artifacts the list shows under the current search text.
    pub fn filtered_artifacts(&self) -> (r: Vec<ArtifactInfo>)
        ensures
            artifact_views(r@) == shown_artifacts(self@),
    {
        let mut out: Vec<ArtifactInfo> = Vec::new();
        if self.search.as_str().is_empty() {
            let mut i: usize = 0;
            while i < self.artifacts.len()
                invariant
                    i <= self.artifacts@.len(),
                    artifact_views(out@) == artifact_views(self.artifacts@).take(i as int),
                decreases self.artifacts.len() - i,
            {
                let ghost before = artifact_views(out@);
                let a = self.artifacts[i].clone();
                out.push(a);
                proof {
                    assert(artifact_views(out@) =~= before.push(a@));
                    assert(artifact_views(self.artifacts@).take(i + 1) =~= artifact_views(self.artifacts@).take(i as int).push(a@));
                }
                i += 1;
            }
            proof {
                assert(artifact_views(self.artifacts@).take(i as int) =~= artifact_views(self.artifacts@));
            }
            return out;
        }
        let q = to_lowercase(self.search.as_str());
        let ghost pred = |a: ArtifactView| matches_search(self.search@, a);
        let ghost all = artifact_views(self.artifacts@);
        let mut i: usize = 0;
        proof {
            assert(all.take(0) =~= Seq::<ArtifactView>::empty());
            reveal_with_fuel(Seq::filter, 1);
            assert(artifact_views(out@) =~= Seq::<ArtifactView>::empty());
        }
        while i < self.artifacts.len()
            invariant
                i <= self.artifacts@.len(),
                all == artifact_views(self.artifacts@),
                q@ == lowercase(self.search@),
                pred == (|a: ArtifactView| matches_search(self.search@, a)),
                artifact_views(out@) == all.take(i as int).filter(pred),
            decreases self.artifacts.len() - i,
        {
            let t = to_lowercase(self.artifacts[i].tag.as_str());
            let keep = contains_str(t.as_str(), q.as_str());
            proof {
                all.take(i as int).lemma_filter_push(all[i as int], pred);
                assert(all.take(i + 1) =~= all.take(i as int).push(all[i as int]));
            }
            if keep {
                let ghost before = artifact_views(out@);
                let a = self.artifacts[i].clone();
                out.push(a);
                proof {
                    assert(artifact_views(out@) =~= before.push(a@));
                }
            }
            i += 1;
        }
        proof {
            assert(all.take(i as int) =~= all);
        }
        out
    }
}

// ------------------------------------------------------------ laws

/// A key with no modifier.
pub open spec fn plain(code: KeyCode) -> Key {
    Key { code, ctrl: false }
}

/// The delete dialog opens on Cancel: `d` then Enter deletes nothing and
/// closes the dialog.
pub proof fn lemma_delete_opens_on_cancel(s: TuiView, now: u64, cwd: Seq<char>)
    requires
        s.dialog == DialogView::Closed,
        !s.search_active,
        s.focus == Focus::Artifacts,
        s.artifacts.len() > 0,
    ensures
        key_step(s, plain(KeyCode::Char('d')), now, cwd).0.dialog == (DialogView::Delete { button: 1, busy: false }),
        key_step(key_step(s, plain(KeyCode::Char('d')), now, cwd).0, plain(KeyCode::Enter), now, cwd)
            == (s, ActionView::Nothing),
{
}

/// `?` opens the help and `?` again closes it, leaving the state as it was.
pub proof fn lemma_help_toggles(s: TuiView, now: u64, cwd: Seq<char>)
    requires
        s.dialog == DialogView::Closed,
        !s.search_active,
    ensures
        key_step(s, plain(KeyCode::Char('?')), now, cwd).0.dialog == (DialogView::Help { scroll: 0 }),
        key_step(key_step(s, plain(KeyCode::Char('?')), now, cwd).0, plain(KeyCode::Char('?')), now, cwd)
            == (s, ActionView::Nothing),
{
}

/// While a text field has the keys, no key but Control-C quits.
pub proof fn lemma_typing_never_quits(s: TuiView, k: Key, now: u64, cwd: Seq<char>)
    requires
        typing(s),
        !(k.code == KeyCode::Char('c') && k.ctrl),
    ensures
        key_step(s, k, now, cwd).0.quit == s.quit,
{
}

/// Control-C quits from every state, a text field included.
pub proof fn lemma_ctrl_c_quits(s: TuiView, now: u64, cwd: Seq<char>)
    ensures
        key_step(s, Key { code: KeyCode::Char('c'), ctrl: true }, now, cwd).0.quit,
{
}

/// In the delete dialog `y` confirms whichever button has the focus: the
/// dialog closes and the delete is for the highlighted row of the list as
/// shown under the current search.
pub proof fn lemma_y_confirms_delete(s: TuiView, button: usize, i: usize, now: u64, cwd: Seq<char>)
    requires
        s.dialog == (DialogView::Delete { button, busy: false }),
        s.artifact_sel == Some(i),
        i < shown_artifacts(s).len(),
        selected_shortcut(s) is Some,
    ensures
        key_step(s, plain(KeyCode::Char('y')), now, cwd).0.dialog == DialogView::Closed,
        key_step(s, plain(KeyCode::Char('y')), now, cwd).1 matches ActionView::Delete { artifact, .. }
            && artifact == shown_artifacts(s)[i as int],
{
}

/// `/` starts a search and Esc leaves it with the search text cleared and
/// nothing else changed.
pub proof fn lemma_search_escape(s: TuiView, now: u64, cwd: Seq<char>)
    requires
        s.dialog == DialogView::Closed,
        !s.search_active,
    ensures
        key_step(key_step(s, plain(KeyCode::Char('/')), now, cwd).0, plain(KeyCode::Esc), now, cwd)
            == (TuiView { search: Seq::empty(), ..s }, ActionView::Nothing),
{
}

/// Moving the selection of a non-empty pane keeps it on a row of that pane.
pub proof fn lemma_move_stays_in_list(s: TuiView, delta: int)
    ensures
        s.focus == Focus::Shortcuts && s.shortcuts.len() > 0 ==> (move_step(s, delta).shortcut_sel matches Some(i)
            && i < s.shortcuts.len()),
        s.focus == Focus::Artifacts && s.artifacts.len() > 0 ==> (move_step(s, delta).artifact_sel matches Some(i)
            && i < s.artifacts.len()),
{
}

/// A listing for a shortcut other than the one shown changes nothing but
/// the spinner.
pub proof fn lemma_stale_listing_ignored(s: TuiView, repo: Seq<char>, artifacts: Seq<ArtifactView>, now: u64)
    requires
        s.artifacts_repo != Some(repo),
    ensures
        message_step(s, MsgView::ArtifactsLoaded { repo, artifacts }, now) == (TuiView { loading: false, ..s }),
{
}

/// In the delete dialog, Enter on the Delete button confirms: the dialog
/// closes, nothing else changes, and the delete is for the highlighted row
/// of the list as shown, named `<repo>:<tag>` under the selected
/// shortcut's repository and sent to that repository's host.
pub proof fn lemma_enter_on_delete_button(
    s: TuiView,
    i: usize,
    name: Seq<char>,
    repo: Seq<char>,
    now: u64,
    cwd: Seq<char>,
)
    requires
        s.dialog == (DialogView::Delete { button: 0, busy: false }),
        s.artifact_sel == Some(i),
        i < shown_artifacts(s).len(),
        selected_shortcut(s) == Some((name, repo)),
    ensures
        key_step(s, plain(KeyCode::Enter), now, cwd).0 == (TuiView { dialog: DialogView::Closed, ..s }),
        key_step(s, plain(KeyCode::Enter), now, cwd).1 == (ActionView::Delete {
            host: host_of(repo),
            artifact: shown_artifacts(s)[i as int],
            full_ref: repo + ":"@ + shown_artifacts(s)[i as int].tag,
        }),
{
}

/// In the delete dialog, Enter on the Cancel button closes the dialog and
/// deletes nothing.
pub proof fn lemma_enter_on_cancel_button(s: TuiView, now: u64, cwd: Seq<char>)
    requires
        s.dialog == (DialogView::Delete { button: 1, busy: false }),
    ensures
        key_step(s, plain(KeyCode::Enter), now, cwd) == (TuiView { dialog: DialogView::Closed, ..s }, ActionView::Nothing),
{
}

/// While a search is typed, Backspace removes the last character of the
/// search text (none is left to remove in an empty one) and changes
/// nothing else; so typing a character and then Backspace gives back the
/// state as it was.
pub proof fn lemma_search_backspace(s: TuiView, ch: char, now: u64, cwd: Seq<char>)
    requires
        s.dialog == DialogView::Closed,
        s.search_active,
    ensures
        key_step(s, plain(KeyCode::Backspace), now, cwd) == (TuiView {
            search: if s.search.len() > 0 { s.search.drop_last() } else { s.search },
            ..s
        }, ActionView::Nothing),
        key_step(key_step(s, plain(KeyCode::Char(ch)), now, cwd).0, plain(KeyCode::Backspace), now, cwd) == (s, ActionView::Nothing),
{
    assert(s.search.push(ch).drop_last() =~= s.search);
}

/// With a listing shown, `r` reloads the selected shortcut's listing: the
/// list empties, the spinner starts, and a load for that shortcut's
/// repository on its host is asked for.
pub proof fn lemma_refresh_reloads(s: TuiView, name: Seq<char>, repo: Seq<char>, now: u64, cwd: Seq<char>)
    requires
        s.dialog == DialogView::Closed,
        !s.search_active,
        s.artifacts_repo is Some,
        selected_shortcut(s) == Some((name, repo)),
    ensures
        key_step(s, plain(KeyCode::Char('r')), now, cwd).1 == (ActionView::Load { name, repo, host: host_of(repo) }),
        key_step(s, plain(KeyCode::Char('r')), now, cwd).0.loading,
        key_step(s, plain(KeyCode::Char('r')), now, cwd).0.artifacts_repo == Some(name),
        key_step(s, plain(KeyCode::Char('r')), now, cwd).0.artifacts.len() == 0,
{
}

/// On the pull dialog's buttons, Left and Right (`h`, `l`) move the focus
/// to the other button and change nothing else; so from the Pull button,
/// Right then Enter cancels: the dialog closes and no pull starts.
pub proof fn lemma_pull_buttons_toggle(
    s: TuiView,
    path: Seq<char>,
    pass: Seq<char>,
    button: usize,
    k: Key,
    now: u64,
    cwd: Seq<char>,
)
    requires
        s.dialog == (DialogView::Pull { path, passphrase: pass, field: PullField::Buttons, button, busy: false }),
        button <= 1,
        !k.ctrl,
        k.code == KeyCode::Left || k.code == KeyCode::Right || k.code == KeyCode::Char('h') || k.code == KeyCode::Char('l'),
    ensures
        key_step(s, k, now, cwd) == (TuiView {
            dialog: DialogView::Pull { path, passphrase: pass, field: PullField::Buttons, button: (1 - button) as usize, busy: false },
            ..s
        }, ActionView::Nothing),
        button == 0 ==> key_step(key_step(s, plain(KeyCode::Right), now, cwd).0, plain(KeyCode::Enter), now, cwd)
            == (TuiView { dialog: DialogView::Closed, ..s }, ActionView::Nothing),
{
}

/// A listing for the shortcut shown is stored as a stable sort, by the
/// browser's current sort mode, of the artifacts received, with its first
/// row selected; the sort mode itself stays.
pub proof fn lemma_listing_sorted_by_mode(s: TuiView, repo: Seq<char>, artifacts: Seq<ArtifactView>, now: u64)
    requires
        s.artifacts_repo == Some(repo),
    ensures
        is_stable_sort(s.sort, artifacts, message_step(s, MsgView::ArtifactsLoaded { repo, artifacts }, now).artifacts),
        message_step(s, MsgView::ArtifactsLoaded { repo, artifacts }, now).artifact_sel
            == (if artifacts.len() > 0 { Some(0usize) } else { None }),
        message_step(s, MsgView::ArtifactsLoaded { repo, artifacts }, now).sort == s.sort,
        !message_step(s, MsgView::ArtifactsLoaded { repo, artifacts }, now).loading,
{
    lemma_stable_sorted_is_stable(s.sort, artifacts);
}

/// In the pull dialog, Enter on the Pull button with a local path given
/// starts the pull of the highlighted row of the list as shown into that
/// path with the typed passphrase, and closes the dialog; with no path it
/// keeps the dialog open, starts nothing and raises an error toast.
pub proof fn lemma_enter_on_pull_button(
    s: TuiView,
    path: Seq<char>,
    pass: Seq<char>,
    i: usize,
    name: Seq<char>,
    repo: Seq<char>,
    now: u64,
    cwd: Seq<char>,
)
    requires
        s.dialog == (DialogView::Pull { path, passphrase: pass, field: PullField::Buttons, button: 0, busy: false }),
        s.artifact_sel == Some(i),
        i < shown_artifacts(s).len(),
        selected_shortcut(s) == Some((name, repo)),
    ensures
        path.len() > 0 ==> key_step(s, plain(KeyCode::Enter), now, cwd) == (TuiView { dialog: DialogView::Closed, ..s }, ActionView::Pull {
            host: host_of(repo),
            artifact: shown_artifacts(s)[i as int],
            path,
            passphrase: pass,
            full_ref: repo + ":"@ + shown_artifacts(s)[i as int].tag,
        }),
        path.len() == 0 ==> key_step(s, plain(KeyCode::Enter), now, cwd) == (TuiView {
            toast: Some(("local path is required"@, true, now)),
            ..s
        }, ActionView::Nothing),
{
}

/// In the pull dialog, a typed character goes at the end of the focused
/// text field (the path or the passphrase), Backspace removes that field's
/// last character, and Tab moves the focus path, passphrase, buttons and
/// round again; nothing else changes and nothing starts.
pub proof fn lemma_pull_fields_edit(
    s: TuiView,
    path: Seq<char>,
    pass: Seq<char>,
    field: PullField,
    button: usize,
    ch: char,
    now: u64,
    cwd: Seq<char>,
)
    requires
        s.dialog == (DialogView::Pull { path, passphrase: pass, field, button, busy: false }),
    ensures
        field == PullField::Path ==> key_step(s, plain(KeyCode::Char(ch)), now, cwd) == (TuiView {
            dialog: DialogView::Pull { path: path.push(ch), passphrase: pass, field, button, busy: false },
            ..s
        }, ActionView::Nothing),
        field == PullField::Passphrase ==> key_step(s, plain(KeyCode::Char(ch)), now, cwd) == (TuiView {
            dialog: DialogView::Pull { path, passphrase: pass.push(ch), field, button, busy: false },
            ..s
        }, ActionView::Nothing),
        field == PullField::Path && path.len() > 0 ==> key_step(s, plain(KeyCode::Backspace), now, cwd) == (TuiView {
            dialog: DialogView::Pull { path: path.drop_last(), passphrase: pass, field, button, busy: false },
            ..s
        }, ActionView::Nothing),
        field == PullField::Passphrase && pass.len() > 0 ==> key_step(s, plain(KeyCode::Backspace), now, cwd) == (TuiView {
            dialog: DialogView::Pull { path, passphrase: pass.drop_last(), field, button, busy: false },
            ..s
        }, ActionView::Nothing),
        key_step(key_step(key_step(s, plain(KeyCode::Tab), now, cwd).0, plain(KeyCode::Tab), now, cwd).0, plain(KeyCode::Tab), now, cwd)
            == (s, ActionView::Nothing),
        key_step(s, plain(KeyCode::Tab), now, cwd).0.dialog != s.dialog,
{
}

/// While a search is typed, a character goes at the end of the search
/// text and nothing else changes; Enter ends the typing and keeps the
/// text, so the filter stays.
pub proof fn lemma_search_typing(s: TuiView, ch: char, now: u64, cwd: Seq<char>)
    requires
        s.dialog == DialogView::Closed,
        s.search_active,
    ensures
        key_step(s, plain(KeyCode::Char(ch)), now, cwd) == (TuiView { search: s.search.push(ch), ..s }, ActionView::Nothing),
        key_step(s, plain(KeyCode::Enter), now, cwd) == (TuiView { search_active: false, ..s }, ActionView::Nothing),
{
}

} // verus!
