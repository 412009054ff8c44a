//! `alias`: add and remove shortcuts.
use vstd::prelude::*;

use crate::cli::{AliasAddArgs, AliasRemoveArgs};
use crate::config::{repo_rule, spec_shortcut_repo, Config, ConfigErrorKind, Shortcut};
use crate::oci::{parse_ref, problem_reason, spec_parse_ref, split_tag, OciError};
use crate::text::{find_char, is_ws, lemma_find_char, lemma_rfind_char, lemma_trim, rfind_char, trim};

verus! {

/// Why a shortcut could not be added or removed.
#[derive(Debug, Clone)]
pub enum AliasError {
    /// The repository does not parse as a reference.
    InvalidRepo(OciError),
    /// A bare registry, without a repository path.
    MissingRepository,
    /// The repository carries a tag.
    TaggedRepo { repo: String },
    /// No shortcut of that name.
    ShortcutNotFound { name: String },
}

/// The configuration after `alias add <name> --repo <repo>`: the repository
/// must be `<registry>/<repository>` without a tag; the shortcut is then set
/// (replacing any earlier one of that name). The caller persists the result
/// to the user configuration file.
pub fn add(cfg: &Config, args: &AliasAddArgs) -> (r: Result<Config, AliasError>)
    ensures
        match spec_parse_ref(args.repo@) {
            Err(p) => r matches Err(AliasError::InvalidRepo(OciError::InvalidReference { ref_str, reason }))
                && ref_str@ == args.repo@ && reason@ == problem_reason(p),
            Ok(parts) => if parts.repo.len() == 0 {
                r matches Err(AliasError::MissingRepository)
            } else if parts.tag is Some {
                r matches Err(AliasError::TaggedRepo { repo }) && repo@ == args.repo@
            } else {
                r matches Ok(c) && c.shortcuts.as_map() == cfg.shortcuts.as_map().insert(
                    args.name@,
                    Shortcut { repo: args.repo },
                ) && c.auths.as_map() == cfg.auths.as_map()
            },
        },
{
    let parsed = match parse_ref(args.repo.as_str()) {
        Ok(p) => p,
        Err(e) => return Err(AliasError::InvalidRepo(e)),
    };
    if parsed.repo.as_str().is_empty() {
        return Err(AliasError::MissingRepository);
    }
    if parsed.tag.is_some() {
        return Err(AliasError::TaggedRepo { repo: args.repo.clone() });
    }
    let mut new_cfg = cfg.clone();
    new_cfg.shortcuts.insert(args.name.clone(), Shortcut { repo: args.repo.clone() });
    Ok(new_cfg)
}

/// The configuration after `alias remove <name>`; the shortcut must exist.
pub fn remove(cfg: &Config, args: &AliasRemoveArgs) -> (r: Result<Config, AliasError>)
    ensures
        !cfg.shortcuts.as_map().contains_key(args.name@) ==> (r matches Err(AliasError::ShortcutNotFound { name }) && name@ == args.name@),
        cfg.shortcuts.as_map().contains_key(args.name@) ==> (r matches Ok(c) && c.shortcuts.as_map() == cfg.shortcuts.as_map().remove(args.name@)
            && c.auths.as_map() == cfg.auths.as_map()),
{
    if !cfg.shortcuts.contains_key(args.name.as_str()) {
        return Err(AliasError::ShortcutNotFound { name: args.name.clone() });
    }
    let mut new_cfg = cfg.clone();
    new_cfg.shortcuts.remove(args.name.as_str());
    Ok(new_cfg)
}

/// A shortcut that `alias add` accepted resolves, through `shortcut_repo`,
/// to the very repository it was given, provided that repository is not a
/// digest reference (`alias add` does not look for `@`; `shortcut_repo`
/// rejects it).
pub proof fn lemma_added_shortcut_resolves(shortcuts: Map<Seq<char>, Shortcut>, name: Seq<char>, repo: String)
    requires
        spec_parse_ref(repo@) matches Ok(parts) && parts.repo.len() > 0 && parts.tag is None,
        !repo@.contains('@'),
    ensures
        spec_shortcut_repo(shortcuts.insert(name, Shortcut { repo }), name) == Ok::<Seq<char>, ConfigErrorKind>(repo@),
{
    let r = repo@;
    let (a, b) = lemma_trim(r);
    let t = trim(r);
    assert(t.len() > 0);
    assert(r.len() > 0);
    lemma_rfind_char(r, ':');
    lemma_rfind_char(t, ':');
    lemma_find_char(t, '/');
    match rfind_char(r, ':') {
        None => {},
        Some(c) => {
            // ':' is not whitespace, so it lies inside the trimmed part
            assert(!is_ws(':'));
            if c < a {
                assert(is_ws(r[c]));
            }
            if c >= b {
                assert(is_ws(r[c]));
            }
            assert(t[c - a] == ':');
            // t holds a '/', otherwise its body would have no repository
            if !t.contains('/') {
                assert(split_tag(t) == Ok::<(Seq<char>, Option<Seq<char>>), crate::oci::RefProblem>((t, None)));
                assert forall|j: int| 0 <= j < t.len() implies t[j] != '/' by {
                    if t[j] == '/' {
                        assert(t.contains('/'));
                    }
                }
                assert(find_char(t, '/') is None);
            }
            let idx = rfind_char(t, ':')->0;
            if idx < c - a {
                assert(t[c - a] != ':');
            }
            if idx > c - a {
                assert(r[idx + a] == t[idx]);
                assert(r[idx + a] != ':');
            }
            // no tag was split off, so a '/' follows the last ':'
            assert(t.skip(idx + 1).contains('/'));
            let tail = t.skip(idx + 1);
            let j = choose|j: int| 0 <= j < tail.len() && #[trigger] tail[j] == '/';
            assert(tail[j] == t[idx + 1 + j]);
            assert(r[a + idx + 1 + j] == '/');
            lemma_rfind_char(r, '/');
            let sl = rfind_char(r, '/')->0;
            if sl < a + idx + 1 + j {
                assert(r[a + idx + 1 + j] != '/');
            }
        },
    }
    assert(repo_rule(r) is None);
}

/// A removed shortcut no longer resolves.
pub proof fn lemma_removed_shortcut_is_gone(shortcuts: Map<Seq<char>, Shortcut>, name: Seq<char>)
    ensures
        spec_shortcut_repo(shortcuts.remove(name), name) == Err::<Seq<char>, ConfigErrorKind>(ConfigErrorKind::ShortcutNotFound),
{
}

} // verus!
