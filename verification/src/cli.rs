//! The command-line surface, as plain data.
//!
//! The argument parser itself lives with the executable; these are the values
//! it produces and the rules for re-reading dynamic shortcut commands
//! (`oci-sync <name> <push|pull|list|delete> ...`).
use vstd::prelude::*;

use crate::text::{push_str, str_eq};

verus! {

/// Output format for listings.
#[derive(Debug, Clone, Copy, PartialEq, Eq)]
pub enum OutputFormat {
    Table,
    Json,
    Yaml,
}

/// Shell for completion scripts.
#[derive(Debug, Clone, Copy, PartialEq, Eq)]
pub enum Shell {
    Bash,
    Zsh,
    Fish,
    PowerShell,
}

/// Top-level invocation.
#[derive(Debug)]
pub struct Cli {
    /// Omit informational output (errors are always shown).
    pub quiet: bool,
    pub command: Command,
}

/// The subcommands.
#[derive(Debug)]
pub enum Command {
    Push(PushArgs),
    Pull(PullArgs),
    Delete(DeleteArgs),
    List(ListArgs),
    Label(LabelArgs),
    Alias(AliasArgs),
    Recent(RecentArgs),
    Tui,
    Completion(CompletionArgs),
    /// `oci-sync <name> <sub> ...`, kept raw and re-read per shortcut.
    Shortcut(Vec<String>),
}

/// `push`: local file or directory to a registry.
#[derive(Debug)]
pub struct PushArgs {
    pub local: String,
    pub remote: String,
    pub passphrase: Option<String>,
    pub labels: Vec<String>,
    pub verify: bool,
}

/// `pull`: registry to a local directory.
#[derive(Debug)]
pub struct PullArgs {
    pub remote: String,
    pub local: String,
    pub passphrase: Option<String>,
    pub force: bool,
}

/// `delete`: remove an artifact.
#[derive(Debug)]
pub struct DeleteArgs {
    pub remote: String,
    pub yes: bool,
}

/// `list`: artifacts of a repository or a whole registry.
#[derive(Debug)]
pub struct ListArgs {
    pub remote: String,
    pub format: OutputFormat,
    pub labels: Vec<String>,
    pub tags: Vec<String>,
}

/// `label`: set or unset labels.
#[derive(Debug)]
pub struct LabelArgs {
    pub command: LabelCommand,
}

#[derive(Debug)]
pub enum LabelCommand {
    SetLabels(LabelSetArgs),
    Unset(LabelUnsetArgs),
}

#[derive(Debug)]
pub struct LabelSetArgs {
    pub remote: String,
    pub labels: Vec<String>,
}

#[derive(Debug)]
pub struct LabelUnsetArgs {
    pub remote: String,
    pub keys: Vec<String>,
}

/// `alias`: manage shortcuts.
#[derive(Debug)]
pub struct AliasArgs {
    pub command: AliasCommand,
}

#[derive(Debug)]
pub enum AliasCommand {
    List,
    Add(AliasAddArgs),
    Remove(AliasRemoveArgs),
}

#[derive(Debug)]
pub struct AliasAddArgs {
    pub name: String,
    pub repo: String,
}

#[derive(Debug)]
pub struct AliasRemoveArgs {
    pub name: String,
}

/// `recent`: activity history.
#[derive(Debug)]
pub struct RecentArgs {
    pub limit: usize,
    pub format: OutputFormat,
    pub clear: bool,
    pub stats: bool,
}

/// `completion`: shell completion script.
#[derive(Debug)]
pub struct CompletionArgs {
    pub shell: Shell,
}

/// `<name> push`.
#[derive(Debug)]
pub struct ShortcutPushArgs {
    pub local: String,
    pub tag: String,
    pub passphrase: Option<String>,
    pub labels: Vec<String>,
    pub verify: bool,
}

/// `<name> pull`.
#[derive(Debug)]
pub struct ShortcutPullArgs {
    pub tag: String,
    pub local: String,
    pub passphrase: Option<String>,
    pub force: bool,
}

/// `<name> list`.
#[derive(Debug)]
pub struct ShortcutListArgs {
    pub format: OutputFormat,
    pub labels: Vec<String>,
    pub tags: Vec<String>,
}

/// `<name> delete`.
#[derive(Debug)]
pub struct ShortcutDeleteArgs {
    pub tag: String,
    pub yes: bool,
}

/// The subcommands a shortcut accepts.
#[derive(Debug, Clone, Copy, PartialEq, Eq, Structural)]
pub enum ShortcutSub {
    Push,
    Pull,
    List,
    Delete,
}

/// A shortcut command, re-read: the shortcut's name, its subcommand, and
/// the arguments to parse for it (the subcommand's name, then the flags).
#[derive(Debug)]
pub struct ShortcutCall {
    pub name: String,
    pub sub: ShortcutSub,
    pub argv: Vec<String>,
}

/// Why a shortcut command could not be routed.
#[derive(Debug)]
pub enum ShortcutError {
    /// No shortcut name at all.
    MissingName,
    /// A name without a subcommand.
    MissingSubcommand { name: String },
    /// A subcommand other than push, pull, list and delete.
    UnknownSubcommand { name: String, sub: String },
}

/// The words' characters.
pub open spec fn word_views(s: Seq<String>) -> Seq<Seq<char>> {
    s.map_values(|a: String| a@)
}

/// The subcommand a word names.
pub open spec fn sub_named(w: Seq<char>) -> Option<ShortcutSub> {
    if w == "push"@ {
        Some(ShortcutSub::Push)
    } else if w == "pull"@ {
        Some(ShortcutSub::Pull)
    } else if w == "list"@ {
        Some(ShortcutSub::List)
    } else if w == "delete"@ {
        Some(ShortcutSub::Delete)
    } else {
        None
    }
}

fn parse_sub(w: &str) -> (r: Option<ShortcutSub>)
    ensures
        r == sub_named(w@),
{
    if str_eq(w, "push") {
        Some(ShortcutSub::Push)
    } else if str_eq(w, "pull") {
        Some(ShortcutSub::Pull)
    } else if str_eq(w, "list") {
        Some(ShortcutSub::List)
    } else if str_eq(w, "delete") {
        Some(ShortcutSub::Delete)
    } else {
        None
    }
}

/// Route `oci-sync <name> <sub> ...` (the words after the program name):
/// the first word names the shortcut, the second the subcommand, the rest
/// are its flags.
pub fn route_shortcut(raw: &Vec<String>) -> (r: Result<ShortcutCall, ShortcutError>)
    ensures
        raw@.len() == 0 ==> r matches Err(ShortcutError::MissingName),
        raw@.len() == 1 ==> (r matches Err(ShortcutError::MissingSubcommand { name }) && name@ == raw@[0]@),
        raw@.len() >= 2 ==> match sub_named(raw@[1]@) {
            None => r matches Err(ShortcutError::UnknownSubcommand { name, sub }) && name@ == raw@[0]@ && sub@
                == raw@[1]@,
            Some(k) => r matches Ok(c) && c.name@ == raw@[0]@ && c.sub == k && word_views(c.argv@)
                == word_views(raw@.skip(1)),
        },
{
    if raw.len() == 0 {
        return Err(ShortcutError::MissingName);
    }
    let name = raw[0].clone();
    if raw.len() == 1 {
        return Err(ShortcutError::MissingSubcommand { name });
    }
    let sub = match parse_sub(raw[1].as_str()) {
        Some(k) => k,
        None => return Err(ShortcutError::UnknownSubcommand { name, sub: raw[1].clone() }),
    };
    let mut argv: Vec<String> = Vec::new();
    let mut i: usize = 1;
    while i < raw.len()
        invariant
            1 <= i <= raw@.len(),
            word_views(argv@) == word_views(raw@.subrange(1, i as int)),
        decreases raw.len() - i,
    {
        let ghost before = argv@;
        let c = raw[i].clone();
        argv.push(c);
        proof {
            assert(argv@ == before.push(c));
            assert(c == raw@[i as int]);
            assert(raw@.subrange(1, i + 1) =~= raw@.subrange(1, i as int).push(raw@[i as int]));
            assert(word_views(before.push(c)) =~= word_views(before).push(c@));
            assert(word_views(raw@.subrange(1, i as int).push(raw@[i as int])) =~= word_views(raw@.subrange(1, i as int)).push(raw@[i as int]@));
            assert(word_views(argv@) =~= word_views(raw@.subrange(1, i + 1)));
        }
        i += 1;
    }
    proof {
        assert(raw@.subrange(1, raw@.len() as int) =~= raw@.skip(1));
    }
    Ok(ShortcutCall { name, sub, argv })
}

} // verus!
