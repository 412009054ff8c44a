//! `label set` / `label unset`: change an artifact's annotations, record.
use vstd::prelude::*;

use crate::cache::{Activity, ActivityType};

verus! {

/// The history entry of a label change: the flags (`key=value` for set,
/// keys for unset) as given.
pub fn label_activity(remote_ref: &str, labels: Vec<String>, timestamp: String) -> (a: Activity)
    ensures
        a.kind == ActivityType::Label,
        a.timestamp == timestamp,
        a.remote_ref@ == remote_ref@,
        a.local_path is None,
        a.labels == labels,
        a.success,
        a.error is None,
{
    Activity {
        kind: ActivityType::Label,
        timestamp,
        remote_ref: String::from_str(remote_ref),
        local_path: None,
        labels,
        success: true,
        error: None,
    }
}

} // verus!
