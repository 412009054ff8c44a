//! The rules of each command, apart from the I/O that surrounds them.
use vstd::prelude::*;

use crate::oci::{parse_ref, spec_parse_ref, OciError, problem_reason};

pub mod alias;
pub mod delete;
pub mod label;
pub mod list;
pub mod pull;
pub mod push;

verus! {

/// Registry, repository and tag of a fully-specified remote reference.
#[derive(Debug, Clone)]
pub struct Target {
    pub host: String,
    pub repo: String,
    pub tag: String,
}

/// Why a remote reference cannot name an artifact.
#[derive(Debug, Clone)]
pub enum TargetError {
    /// The reference does not parse.
    Reference(OciError),
    /// No `:<tag>` part.
    MissingTag,
    /// A bare registry, without a repository path.
    MissingRepository,
}

/// The kinds of `TargetError`.
#[derive(PartialEq, Eq)]
pub enum TargetProblem {
    Reference,
    MissingTag,
    MissingRepository,
}

impl TargetError {
    pub open spec fn problem(self) -> TargetProblem {
        match self {
            TargetError::Reference(_) => TargetProblem::Reference,
            TargetError::MissingTag => TargetProblem::MissingTag,
            TargetError::MissingRepository => TargetProblem::MissingRepository,
        }
    }
}

/// What `resolve_target` makes of a reference: it must parse, carry a tag
/// and name a repository (the tag is checked first).
pub open spec fn spec_resolve_target(remote: Seq<char>) -> Result<(Seq<char>, Seq<char>, Seq<char>), TargetProblem> {
    match spec_parse_ref(remote) {
        Err(_) => Err(TargetProblem::Reference),
        Ok(parts) => match parts.tag {
            None => Err(TargetProblem::MissingTag),
            Some(tag) => if parts.repo.len() == 0 {
                Err(TargetProblem::MissingRepository)
            } else {
                Ok((parts.host, parts.repo, tag))
            },
        },
    }
}

/// Resolve `<registry>/<repository>:<tag>`, as push, pull, delete and label
/// require it.
pub fn resolve_target(remote: &str) -> (r: Result<Target, TargetError>)
    ensures
        match spec_resolve_target(remote@) {
            Ok((h, p, t)) => r matches Ok(tg) && tg.host@ == h && tg.repo@ == p && tg.tag@ == t,
            Err(k) => r matches Err(e) && e.problem() == k,
        },
        match spec_parse_ref(remote@) {
            Err(p) => r matches Err(TargetError::Reference(OciError::InvalidReference { ref_str, reason }))
                && ref_str@ == remote@ && reason@ == problem_reason(p),
            Ok(_) => true,
        },
{
    let parsed = match parse_ref(remote) {
        Ok(p) => p,
        Err(e) => return Err(TargetError::Reference(e)),
    };
    let tag = match parsed.tag {
        Some(t) => t,
        None => return Err(TargetError::MissingTag),
    };
    if parsed.repo.as_str().is_empty() {
        return Err(TargetError::MissingRepository);
    }
    Ok(Target { host: parsed.host, repo: parsed.repo, tag })
}

impl TargetError {
    /// The message of a missing tag or repository; a reference that does
    /// not parse carries its own error.
    pub fn message(&self) -> (r: Option<&'static str>)
        ensures
            match self {
                TargetError::Reference(_) => r is None,
                TargetError::MissingTag => r matches Some(m) && m@ == "remote reference must include a tag, e.g. <registry>/<repo>:<tag>"@,
                TargetError::MissingRepository => r matches Some(m) && m@ == "remote reference must include a repository path"@,
            },
    {
        match self {
            TargetError::Reference(_) => None,
            TargetError::MissingTag => Some("remote reference must include a tag, e.g. <registry>/<repo>:<tag>"),
            TargetError::MissingRepository => Some("remote reference must include a repository path"),
        }
    }
}

} // verus!
