//! `delete`: show what will be deleted, ask unless `--yes`, delete, record.
use vstd::prelude::*;

use crate::cache::{Activity, ActivityType};
use crate::text::{chars_of, lowercase, push_str, str_eq, string_of, to_lowercase, trim, trim_bounds};

verus! {

/// The confirmation question: the reference and its digest (`unknown`
/// when it could not be resolved).
pub fn delete_prompt(remote_ref: &str, digest: Option<&str>) -> (r: String)
    ensures
        r@ == "Will delete: "@ + remote_ref@ + " ("@ + match digest {
            Some(d) => d@,
            None => "unknown"@,
        } + ")\nContinue?"@,
{
    let mut r = String::new();
    push_str(&mut r, "Will delete: ");
    push_str(&mut r, remote_ref);
    push_str(&mut r, " (");
    match digest {
        Some(d) => push_str(&mut r, d),
        None => push_str(&mut r, "unknown"),
    }
    push_str(&mut r, ")\nContinue?");
    r
}

/// Whether the deletion goes ahead: `--yes`, or a confirmed question
/// (`confirmed` is the answer, asked only without `--yes`).
pub fn delete_approved(yes: bool, confirmed: bool) -> (r: bool)
    ensures
        r == (yes || confirmed),
{
    yes || confirmed
}

/// The history entry of a successful delete.
pub fn delete_activity(remote_ref: &str, timestamp: String) -> (a: Activity)
    ensures
        a.kind == ActivityType::Delete,
        a.timestamp == timestamp,
        a.remote_ref@ == remote_ref@,
        a.local_path is None,
        a.labels@.len() == 0,
        a.success,
        a.error is None,
{
    Activity {
        kind: ActivityType::Delete,
        timestamp,
        remote_ref: String::from_str(remote_ref),
        local_path: None,
        labels: Vec::new(),
        success: true,
        error: None,
    }
}

/// Whether an answer to the question confirms: `y` or `yes` in any case,
/// surrounding whitespace ignored.
pub fn confirm_answer(line: &str) -> (r: bool)
    ensures
        r == (lowercase(trim(line@)) == "y"@ || lowercase(trim(line@)) == "yes"@),
{
    let v = chars_of(line);
    let (a, b) = trim_bounds(&v);
    let t = string_of(&v, a, b);
    let l = to_lowercase(t.as_str());
    str_eq(l.as_str(), "y") || str_eq(l.as_str(), "yes")
}

} // verus!
