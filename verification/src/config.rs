//! Configuration: registry credentials and repository shortcuts.
//!
//! Search order for the YAML file: `./oci-sync.yaml`, then
//! `<config dir>/oci-sync/oci-sync.yaml`; the first that exists is used and
//! a missing file means an empty configuration. Reading and writing the file
//! is left to the caller; this module holds the rules.
use vstd::prelude::*;

use crate::sorting::{distinct_keys, sort_by_key, strictly_sorted};
use crate::strmap::StrMap;
use crate::oci::{spec_parse_ref, split_tag, RefParts};
use crate::text::{
    chars_of, find_char, find_in, is_ws, join_path, lemma_find_in_agrees, lemma_rfind_char, lemma_rfind_in_agrees, path_join,
    push_char, push_str, rfind_char, rfind_in, string_of, trim, trim_bounds, trim_end, trim_start,
};

verus! {

/// The configuration file's name.
pub const CONFIG_FILE_NAME: &'static str = "oci-sync.yaml";

/// Credentials for one registry.
#[derive(Debug, Default, PartialEq, Eq)]
pub struct RegistryAuth {
    pub username: String,
    pub password: String,
}

impl Clone for RegistryAuth {
    fn clone(&self) -> (r: Self)
        ensures
            r == *self,
    {
        RegistryAuth { username: self.username.clone(), password: self.password.clone() }
    }
}

/// A named repository.
#[derive(Debug, Default, PartialEq, Eq)]
pub struct Shortcut {
    pub repo: String,
}

impl Clone for Shortcut {
    fn clone(&self) -> (r: Self)
        ensures
            r == *self,
    {
        Shortcut { repo: self.repo.clone() }
    }
}

/// Credentials per registry host and shortcuts per name.
#[derive(Debug)]
pub struct Config {
    pub auths: StrMap<RegistryAuth>,
    pub shortcuts: StrMap<Shortcut>,
}

/// Why a shortcut could not be resolved.
#[derive(Debug, Clone, PartialEq, Eq)]
pub enum ConfigError {
    /// No `shortcuts.<name>` entry.
    ShortcutNotFound { name: String },
    /// `shortcuts.<name>.repo` is empty.
    EmptyShortcutRepo { name: String },
    /// The repository is a digest reference (holds `@`).
    DigestShortcutRepo { name: String },
    /// The repository carries a tag (a `:` after its last `/`).
    TaggedShortcutRepo { name: String },
    /// The tag given to a shortcut command is empty.
    EmptyShortcutTag { name: String },
}

/// Which rule a shortcut repository breaks, if any.
pub enum RepoRule {
    Empty,
    Digest,
    Tagged,
}

/// The rule a shortcut's repository breaks: it must be non-empty, not a
/// digest reference, and carry no tag (no `:` after the last `/`; a `:`
/// before it belongs to a host port).
pub open spec fn repo_rule(repo: Seq<char>) -> Option<RepoRule> {
    if repo.len() == 0 {
        Some(RepoRule::Empty)
    } else if repo.contains('@') {
        Some(RepoRule::Digest)
    } else {
        match rfind_char(repo, ':') {
            Some(c) => match rfind_char(repo, '/') {
                None => Some(RepoRule::Tagged),
                Some(s) => if c > s {
                    Some(RepoRule::Tagged)
                } else {
                    None
                },
            },
            None => None,
        }
    }
}

/// What `shortcut_repo` answers for a table of shortcuts.
pub open spec fn spec_shortcut_repo(shortcuts: Map<Seq<char>, Shortcut>, name: Seq<char>) -> Result<Seq<char>, ConfigErrorKind> {
    if !shortcuts.contains_key(name) {
        Err(ConfigErrorKind::ShortcutNotFound)
    } else {
        let repo = shortcuts[name].repo@;
        match repo_rule(repo) {
            Some(RepoRule::Empty) => Err(ConfigErrorKind::EmptyShortcutRepo),
            Some(RepoRule::Digest) => Err(ConfigErrorKind::DigestShortcutRepo),
            Some(RepoRule::Tagged) => Err(ConfigErrorKind::TaggedShortcutRepo),
            None => Ok(repo),
        }
    }
}

/// The kinds of `ConfigError`.
#[derive(PartialEq, Eq)]
pub enum ConfigErrorKind {
    ShortcutNotFound,
    EmptyShortcutRepo,
    DigestShortcutRepo,
    TaggedShortcutRepo,
    EmptyShortcutTag,
}

impl ConfigError {
    pub open spec fn kind(self) -> ConfigErrorKind {
        match self {
            ConfigError::ShortcutNotFound { .. } => ConfigErrorKind::ShortcutNotFound,
            ConfigError::EmptyShortcutRepo { .. } => ConfigErrorKind::EmptyShortcutRepo,
            ConfigError::DigestShortcutRepo { .. } => ConfigErrorKind::DigestShortcutRepo,
            ConfigError::TaggedShortcutRepo { .. } => ConfigErrorKind::TaggedShortcutRepo,
            ConfigError::EmptyShortcutTag { .. } => ConfigErrorKind::EmptyShortcutTag,
        }
    }

    /// The shortcut name the error is about.
    pub open spec fn name(self) -> Seq<char> {
        match self {
            ConfigError::ShortcutNotFound { name } => name@,
            ConfigError::EmptyShortcutRepo { name } => name@,
            ConfigError::DigestShortcutRepo { name } => name@,
            ConfigError::TaggedShortcutRepo { name } => name@,
            ConfigError::EmptyShortcutTag { name } => name@,
        }
    }
}

/// The user configuration file under a configuration directory.
pub open spec fn spec_user_config_path(config_dir: Seq<char>) -> Seq<char> {
    path_join(path_join(config_dir, "oci-sync"@), "oci-sync.yaml"@)
}

/// `<config dir>/oci-sync/oci-sync.yaml`, where `save_user` writes.
pub fn user_config_path(config_dir: &str) -> (p: String)
    ensures
        p@ == spec_user_config_path(config_dir@),
{
    let dir = join_path(config_dir, "oci-sync");
    join_path(dir.as_str(), CONFIG_FILE_NAME)
}

impl Default for Config {
    fn default() -> (c: Self)
        ensures
            c.auths.as_map() == Map::<Seq<char>, RegistryAuth>::empty(),
            c.shortcuts.as_map() == Map::<Seq<char>, Shortcut>::empty(),
    {
        Config::new()
    }
}

impl Clone for Config {
    fn clone(&self) -> (c: Self)
        ensures
            c.auths.as_map() == self.auths.as_map(),
            c.shortcuts.as_map() == self.shortcuts.as_map(),
    {
        let auths = self.auths.clone();
        let shortcuts = self.shortcuts.clone();
        proof {
            assert(auths.val_seq() =~= self.auths.val_seq());
            assert(shortcuts.val_seq() =~= self.shortcuts.val_seq());
            StrMap::lemma_same_entries(auths, self.auths);
            StrMap::lemma_same_entries(shortcuts, self.shortcuts);
        }
        Config { auths, shortcuts }
    }
}

impl Config {
    /// An empty configuration.
    pub fn new() -> (c: Self)
        ensures
            c.auths.as_map() == Map::<Seq<char>, RegistryAuth>::empty(),
            c.shortcuts.as_map() == Map::<Seq<char>, Shortcut>::empty(),
    {
        Config { auths: StrMap::new(), shortcuts: StrMap::new() }
    }

    /// Candidate config paths in search order: `./oci-sync.yaml`, then the
    /// user file under `config_dir`.
    pub fn candidate_paths(config_dir: &str) -> (v: Vec<String>)
        ensures
            v@.len() == 2,
            v@[0]@ == path_join("."@, "oci-sync.yaml"@),
            v@[1]@ == spec_user_config_path(config_dir@),
    {
        let mut v = Vec::new();
        v.push(join_path(".", CONFIG_FILE_NAME));
        v.push(user_config_path(config_dir));
        v
    }

    /// The first candidate that exists (`present[i]` tells whether
    /// `candidates[i]` is a file).
    pub fn file_used(candidates: &Vec<String>, present: &Vec<bool>) -> (r: Option<String>)
        requires
            candidates@.len() == present@.len(),
        ensures
            match r {
                Some(p) => exists|i: int|
                    0 <= i < candidates@.len() && present@[i] && p@ == candidates@[i]@ && forall|j: int|
                        0 <= j < i ==> !present@[j],
                None => forall|j: int| 0 <= j < present@.len() ==> !present@[j],
            },
    {
        let mut i: usize = 0;
        while i < candidates.len()
            invariant
                i <= candidates@.len() == present@.len(),
                forall|j: int| 0 <= j < i ==> !present@[j],
            decreases candidates.len() - i,
        {
            if present[i] {
                return Some(candidates[i].clone());
            }
            i += 1;
        }
        None
    }

    /// Credentials for a registry host (exact host match).
    pub fn registry_auth(&self, host: &str) -> (r: Option<&RegistryAuth>)
        ensures
            match r {
                Some(a) => self.auths.as_map().contains_key(host@) && *a == self.auths.as_map()[host@],
                None => !self.auths.as_map().contains_key(host@),
            },
    {
        self.auths.get(host)
    }

    /// Resolve the repository for a shortcut, validating that it carries no
    /// tag and no digest.
    pub fn shortcut_repo(&self, name: &str) -> (r: Result<String, ConfigError>)
        ensures
            match spec_shortcut_repo(self.shortcuts.as_map(), name@) {
                Ok(repo) => r matches Ok(s) && s@ == repo,
                Err(k) => r matches Err(e) && e.kind() == k && e.name() == name@,
            },
    {
        let sc = match self.shortcuts.get(name) {
            Some(sc) => sc,
            None => return Err(ConfigError::ShortcutNotFound { name: String::from_str(name) }),
        };
        let v = chars_of(sc.repo.as_str());
        let n = v.len();
        if n == 0 {
            return Err(ConfigError::EmptyShortcutRepo { name: String::from_str(name) });
        }
        let at = find_in(&v, '@', 0, n);
        proof {
            assert(v@.subrange(0, n as int) =~= v@);
            if at is Some {
                assert(v@[at->0 as int] == '@');
            }
        }
        if at.is_some() {
            return Err(ConfigError::DigestShortcutRepo { name: String::from_str(name) });
        }
        let colon = rfind_in(&v, ':', 0, n);
        let slash = rfind_in(&v, '/', 0, n);
        proof {
            lemma_rfind_in_agrees(v@, ':', 0, n as int, match colon { Some(k) => Some(k as int), None => None });
            lemma_rfind_in_agrees(v@, '/', 0, n as int, match slash { Some(k) => Some(k as int), None => None });
        }
        if let Some(c) = colon {
            let tagged = match slash {
                None => true,
                Some(s) => c > s,
            };
            if tagged {
                return Err(ConfigError::TaggedShortcutRepo { name: String::from_str(name) });
            }
        }
        Ok(sc.repo.clone())
    }

    /// Build `<repo>:<tag>` for shortcut commands (the tag is trimmed and
    /// must not be empty).
    pub fn shortcut_remote_ref(&self, name: &str, tag: &str) -> (r: Result<String, ConfigError>)
        ensures
            trim(tag@).len() == 0 ==> (r matches Err(e) && e.kind() == ConfigErrorKind::EmptyShortcutTag && e.name() == name@),
            trim(tag@).len() > 0 ==> match spec_shortcut_repo(self.shortcuts.as_map(), name@) {
                Ok(repo) => r matches Ok(s) && s@ == repo + seq![':'] + trim(tag@),
                Err(k) => r matches Err(e) && e.kind() == k && e.name() == name@,
            },
    {
        let t = chars_of(tag);
        let (a, b) = trim_bounds(&t);
        if a == b {
            return Err(ConfigError::EmptyShortcutTag { name: String::from_str(name) });
        }
        let mut out = self.shortcut_repo(name)?;
        push_char(&mut out, ':');
        let trimmed = string_of(&t, a, b);
        push_str(&mut out, trimmed.as_str());
        Ok(out)
    }

    /// All shortcuts (name, repo), sorted by name.
    pub fn all_shortcuts(&self) -> (v: Vec<(String, String)>)
        ensures
            v@.len() == self.shortcuts.as_map().dom().len(),
            forall|i: int| 0 <= i < v@.len() ==> self.shortcuts.as_map().contains_key(#[trigger] v@[i].0@)
                && v@[i].1@ == self.shortcuts.as_map()[v@[i].0@].repo@,
            strictly_sorted(v@),
    {
        self.shortcuts.facts();
        let n = self.shortcuts.len();
        let mut items: Vec<(String, String)> = Vec::new();
        let mut i: usize = 0;
        while i < n
            invariant
                i <= n == self.shortcuts.spec_len(),
                items@.len() == i,
                self.shortcuts.val_seq().len() == n,
                forall|j: int| 0 <= j < i ==> (#[trigger] items@[j]).0@ == self.shortcuts.key_seq()[j]
                    && items@[j].1@ == self.shortcuts.val_seq()[j].repo@,
            decreases n - i,
        {
            let (k, sc) = self.shortcuts.entry(i);
            items.push((k.clone(), sc.repo.clone()));
            i += 1;
        }
        proof {
            assert forall|a: int, b: int| 0 <= a < b < items@.len() implies items@[a].0@ != items@[b].0@ by {
                assert(items@[a].0@ == self.shortcuts.key_seq()[a]);
                assert(items@[b].0@ == self.shortcuts.key_seq()[b]);
            }
        }
        let ghost unsorted = items@;
        let v = sort_by_key(items);
        proof {
            assert forall|i: int| 0 <= i < v@.len() implies self.shortcuts.as_map().contains_key(#[trigger] v@[i].0@)
                && v@[i].1@ == self.shortcuts.as_map()[v@[i].0@].repo@ by {
                let j = choose|j: int| 0 <= j < unsorted.len() && unsorted[j] == v@[i];
                assert(unsorted[j].0@ == self.shortcuts.key_seq()[j]);
            }
        }
        v
    }
}

/// `rfind_char` of `x`, then `c`, then a run without `c`: the `c` added.
proof fn lemma_rfind_appended(x: Seq<char>, c: char, t: Seq<char>)
    requires
        !t.contains(c),
    ensures
        rfind_char(x + seq![c] + t, c) == Some(x.len() as int),
    decreases t.len(),
{
    let s = x + seq![c] + t;
    if t.len() == 0 {
        assert(s =~= x.push(c));
        assert(s.last() == c);
    } else {
        assert(s.last() == t.last());
        assert(t.contains(t.last()) ==> t.last() != c) by {
            if t.last() == c {
                assert(t[t.len() - 1] == c);
            }
        }
        assert(t.contains(t[t.len() - 1]));
        assert(!t.drop_last().contains(c)) by {
            if t.drop_last().contains(c) {
                let k = choose|k: int| 0 <= k < t.drop_last().len() && t.drop_last()[k] == c;
                assert(t[k] == c);
            }
        }
        lemma_rfind_appended(x, c, t.drop_last());
        assert(s.drop_last() =~= x + seq![c] + t.drop_last());
    }
}

/// A shortcut repository that passes `repo_rule` carries no tag.
proof fn lemma_rule_ok_no_tag(repo: Seq<char>)
    requires
        repo_rule(repo) is None,
    ensures
        split_tag(repo) == Ok::<(Seq<char>, Option<Seq<char>>), crate::oci::RefProblem>((repo, None)),
{
    lemma_rfind_char(repo, ':');
    lemma_rfind_char(repo, '/');
    match rfind_char(repo, ':') {
        Some(ci) => {
            let si = rfind_char(repo, '/')->Some_0;
            assert(repo.skip(ci + 1)[si - ci - 1] == '/');
            assert(repo.skip(ci + 1).contains('/'));
        },
        None => {},
    }
}

/// `trim_end` leaves no whitespace at the end.
proof fn lemma_trim_end_last(y: Seq<char>)
    ensures
        trim_end(y).len() > 0 ==> !is_ws(trim_end(y).last()),
    decreases y.len(),
{
    if y.len() > 0 && is_ws(y.last()) {
        lemma_trim_end_last(y.drop_last());
    }
}

/// A text that trimming leaves alone starts and ends without whitespace.
proof fn lemma_trimmed_ends(x: Seq<char>)
    requires
        trim(x) == x,
        x.len() > 0,
    ensures
        !is_ws(x[0]),
        !is_ws(x.last()),
{
    let a = crate::text::lemma_trim_start(x);
    let b = crate::text::lemma_trim_end(trim_start(x));
    if is_ws(x[0]) {
        let a1 = crate::text::lemma_trim_start(x.drop_first());
        assert(trim_start(x) == trim_start(x.drop_first()));
        assert(trim(x).len() < x.len());
    }
    assert(trim_start(x) == x);
    lemma_trim_end_last(x);
}

/// A text without whitespace at either end trims to itself.
proof fn lemma_trim_keeps(s: Seq<char>)
    requires
        s.len() > 0,
        !is_ws(s[0]),
        !is_ws(s.last()),
    ensures
        trim(s) == s,
{
    assert(trim_start(s) == s);
    assert(trim_end(s) == s);
}

/// A shortcut command addresses the shortcut's repository with the given
/// tag: when the shortcut resolves to a repository that parses (no
/// surrounding whitespace, a registry and a repository path), the
/// reference `shortcut_remote_ref` builds parses back to that registry,
/// that repository and the trimmed tag, provided the tag holds neither
/// `:` nor `/`.
pub proof fn lemma_shortcut_ref_parses(shortcuts: Map<Seq<char>, Shortcut>, name: Seq<char>, tag: Seq<char>)
    requires
        spec_shortcut_repo(shortcuts, name) is Ok,
        trim(shortcuts[name].repo@) == shortcuts[name].repo@,
        spec_parse_ref(shortcuts[name].repo@) matches Ok(p) && p.repo.len() > 0,
        trim(tag).len() > 0,
        !trim(tag).contains(':'),
        !trim(tag).contains('/'),
    ensures
        ({
            let repo = shortcuts[name].repo@;
            let p = spec_parse_ref(repo)->Ok_0;
            spec_parse_ref(repo + seq![':'] + trim(tag)) == Ok::<RefParts, crate::oci::RefProblem>(
                RefParts { host: p.host, repo: p.repo, tag: Some(trim(tag)) },
            )
        }),
{
    let repo = shortcuts[name].repo@;
    let t = trim(tag);
    let s = repo + seq![':'] + t;
    assert(repo_rule(repo) is None);
    lemma_rule_ok_no_tag(repo);
    lemma_trimmed_ends(repo);
    lemma_trim_end_last(trim_start(tag));
    assert(s[0] == repo[0]);
    assert(s.last() == t.last());
    lemma_trim_keeps(s);
    lemma_rfind_appended(repo, ':', t);
    assert(s.skip(repo.len() + 1int) =~= t);
    assert(s.take(repo.len() as int) =~= repo);
    crate::text::lemma_find_char(repo, '/');
    let i = find_char(repo, '/')->Some_0;
    assert(s[i] == '/');
    assert(s.contains('/'));
    assert(split_tag(s) == Ok::<(Seq<char>, Option<Seq<char>>), crate::oci::RefProblem>((repo, Some(t))));
}

} // verus!
