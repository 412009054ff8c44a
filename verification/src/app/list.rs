//! `list`: a bare registry is listed through its catalog, a repository
//! through its tags.
use vstd::prelude::*;

use crate::oci::{parse_ref, problem_reason, spec_parse_ref, OciError};

verus! {

/// What a listing covers.
#[derive(Debug)]
pub enum ListScope {
    /// Every repository of the registry.
    Registry { host: String },
    /// One repository.
    Repository { host: String, repo: String },
}

/// The scope of `list <remote>`: the repository it names, or the whole
/// registry for a bare host; a reference that does not parse is refused.
pub fn list_scope(remote: &str) -> (r: Result<ListScope, OciError>)
    ensures
        match spec_parse_ref(remote@) {
            Err(p) => r matches Err(OciError::InvalidReference { ref_str, reason }) && ref_str@ == remote@
                && reason@ == problem_reason(p),
            Ok(p) => if p.repo.len() == 0 {
                r matches Ok(ListScope::Registry { host }) && host@ == p.host
            } else {
                r matches Ok(ListScope::Repository { host, repo }) && host@ == p.host && repo@ == p.repo
            },
        },
{
    let parsed = parse_ref(remote)?;
    if parsed.repo.as_str().is_empty() {
        Ok(ListScope::Registry { host: parsed.host })
    } else {
        Ok(ListScope::Repository { host: parsed.host, repo: parsed.repo })
    }
}

} // verus!
