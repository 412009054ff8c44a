//! Activity history: a local record of push/pull/delete/label operations.
//!
//! Stored as JSON in `<cache dir>/oci-sync/activity.json`; newest first, at
//! most [`MAX_ACTIVITIES`] entries. Reading and writing the file is left to
//! the caller; this module holds the history's rules.
use vstd::prelude::*;

use crate::text::{join_path, path_join};

verus! {

/// The history file's name.
pub const CACHE_FILE_NAME: &'static str = "activity.json";

/// The most entries the history keeps.
pub const MAX_ACTIVITIES: usize = 100;

/// Kind of a recorded operation.
#[derive(Debug, Clone, Copy, PartialEq, Eq)]
pub enum ActivityType {
    Push,
    Pull,
    Delete,
    Label,
}

/// The lower-case name of each kind.
pub open spec fn kind_name(k: ActivityType) -> Seq<char> {
    match k {
        ActivityType::Push => "push"@,
        ActivityType::Pull => "pull"@,
        ActivityType::Delete => "delete"@,
        ActivityType::Label => "label"@,
    }
}

impl ActivityType {
    /// `push`, `pull`, `delete` or `label`.
    pub fn as_str(&self) -> (s: &'static str)
        ensures
            s@ == kind_name(*self),
    {
        match self {
            ActivityType::Push => "push",
            ActivityType::Pull => "pull",
            ActivityType::Delete => "delete",
            ActivityType::Label => "label",
        }
    }
}

/// One recorded operation.
#[derive(Debug, Clone)]
pub struct Activity {
    pub kind: ActivityType,
    /// RFC 3339 local time with offset, e.g. `2024-05-01T12:00:00+08:00`.
    pub timestamp: String,
    pub remote_ref: String,
    pub local_path: Option<String>,
    pub labels: Vec<String>,
    pub success: bool,
    pub error: Option<String>,
}

/// The whole history, newest first.
#[derive(Debug)]
pub struct ActivityCache {
    pub activities: Vec<Activity>,
}

impl Default for ActivityCache {
    fn default() -> (c: Self)
        ensures
            c.activities@.len() == 0,
    {
        ActivityCache { activities: Vec::new() }
    }
}

/// Path of the history file under a cache directory.
pub open spec fn spec_cache_file_path(cache_dir: Seq<char>) -> Seq<char> {
    path_join(path_join(cache_dir, "oci-sync"@), "activity.json"@)
}

/// `<cache dir>/oci-sync/activity.json`.
pub fn cache_file_path(cache_dir: &str) -> (p: String)
    ensures
        p@ == spec_cache_file_path(cache_dir@),
{
    let dir = join_path(cache_dir, "oci-sync");
    join_path(dir.as_str(), CACHE_FILE_NAME)
}

/// The history after recording `a`: prepended, then cut to the limit.
pub open spec fn spec_add(acts: Seq<Activity>, a: Activity) -> Seq<Activity> {
    let s = seq![a] + acts;
    if s.len() > MAX_ACTIVITIES {
        s.take(MAX_ACTIVITIES as int)
    } else {
        s
    }
}

/// Prepend an activity, trimming the history to [`MAX_ACTIVITIES`].
pub fn add(cache: &mut ActivityCache, activity: Activity)
    ensures
        final(cache).activities@ == spec_add(old(cache).activities@, activity),
{
    let ghost a = activity;
    cache.activities.insert(0, activity);
    cache.activities.truncate(MAX_ACTIVITIES);
    assert(cache.activities@ =~= spec_add(old(cache).activities@, a));
}

/// Newest-first activities, limited to `limit` (0 = all).
pub fn recent(cache: ActivityCache, limit: usize) -> (v: Vec<Activity>)
    ensures
        v@ == if limit == 0 || limit >= cache.activities@.len() {
            cache.activities@
        } else {
            cache.activities@.take(limit as int)
        },
{
    let mut acts = cache.activities;
    if limit != 0 {
        acts.truncate(limit);
    }
    acts
}

/// How many activities of kind `k` the history holds.
pub open spec fn count_kind(acts: Seq<Activity>, k: ActivityType) -> nat
    decreases acts.len(),
{
    if acts.len() == 0 {
        0
    } else {
        count_kind(acts.drop_last(), k) + if acts.last().kind == k {
            1nat
        } else {
            0nat
        }
    }
}

/// Per-kind counts, as `(name, count)` in name order, omitting kinds that
/// do not occur: `delete`, `label`, `pull`, `push`.
pub open spec fn spec_stats(acts: Seq<Activity>) -> Seq<(Seq<char>, nat)> {
    let entry = |k: ActivityType|
        if count_kind(acts, k) > 0 {
            seq![(kind_name(k), count_kind(acts, k))]
        } else {
            Seq::<(Seq<char>, nat)>::empty()
        };
    entry(ActivityType::Delete) + entry(ActivityType::Label) + entry(ActivityType::Pull) + entry(
        ActivityType::Push,
    )
}

fn push_stat(out: &mut Vec<(String, usize)>, k: ActivityType, n: usize)
    ensures
        final(out)@.len() == old(out)@.len() + if n > 0 { 1int } else { 0int },
        forall|i: int| 0 <= i < old(out)@.len() ==> final(out)@[i] == old(out)@[i],
        n > 0 ==> final(out)@.last().0@ == kind_name(k) && final(out)@.last().1 == n,
{
    if n > 0 {
        out.push((String::from_str(k.as_str()), n));
    }
}

/// Count activities per type: `(name, count)` pairs in name order (the
/// order of a sorted map), only for kinds that occur.
pub fn stats(cache: &ActivityCache) -> (v: Vec<(String, usize)>)
    ensures
        v@.len() == spec_stats(cache.activities@).len(),
        forall|i: int| 0 <= i < v@.len() ==> v@[i].0@ == (#[trigger] spec_stats(cache.activities@)[i]).0
            && v@[i].1 == spec_stats(cache.activities@)[i].1,
        stats_sum(v@) == cache.activities@.len(),
{
    let acts = &cache.activities;
    let mut push: usize = 0;
    let mut pull: usize = 0;
    let mut delete: usize = 0;
    let mut label: usize = 0;
    let mut i: usize = 0;
    while i < acts.len()
        invariant
            i <= acts@.len(),
            push == count_kind(acts@.take(i as int), ActivityType::Push),
            pull == count_kind(acts@.take(i as int), ActivityType::Pull),
            delete == count_kind(acts@.take(i as int), ActivityType::Delete),
            label == count_kind(acts@.take(i as int), ActivityType::Label),
            push + pull + delete + label == i,
        decreases acts.len() - i,
    {
        assert(acts@.take(i + 1).drop_last() =~= acts@.take(i as int));
        match acts[i].kind {
            ActivityType::Push => push += 1,
            ActivityType::Pull => pull += 1,
            ActivityType::Delete => delete += 1,
            ActivityType::Label => label += 1,
        }
        i += 1;
    }
    assert(acts@.take(acts@.len() as int) =~= acts@);
    let mut out: Vec<(String, usize)> = Vec::new();
    push_stat(&mut out, ActivityType::Delete, delete);
    let ghost o1 = out@;
    push_stat(&mut out, ActivityType::Label, label);
    let ghost o2 = out@;
    push_stat(&mut out, ActivityType::Pull, pull);
    let ghost o3 = out@;
    push_stat(&mut out, ActivityType::Push, push);
    proof {
        let s = spec_stats(acts@);
        assert forall|i: int| 0 <= i < out@.len() implies out@[i].0@ == (#[trigger] s[i]).0 && out@[i].1 == s[i].1 by {
            let d = if delete > 0 { 1int } else { 0int };
            let l = if label > 0 { 1int } else { 0int };
            let p = if pull > 0 { 1int } else { 0int };
            if i < d {
                assert(out@[i] == o1[i]);
            } else if i < d + l {
                assert(out@[i] == o2[i]);
            } else if i < d + l + p {
                assert(out@[i] == o3[i]);
            }
        }
        lemma_stats_sum_rows(out@, s);
        lemma_stats_cover_history(acts@);
    }
    out
}

/// Wipe all history.
pub fn clear(cache: &mut ActivityCache)
    ensures
        final(cache).activities@.len() == 0,
{
    cache.activities = Vec::new();
}

/// Sum of the counts of a stats table.
pub open spec fn stats_sum(v: Seq<(String, usize)>) -> nat
    decreases v.len(),
{
    if v.len() == 0 {
        0
    } else {
        stats_sum(v.drop_last()) + v.last().1 as nat
    }
}

/// The `total` row of the stats table.
pub fn stats_total(v: &Vec<(String, usize)>) -> (t: usize)
    requires
        stats_sum(v@) <= usize::MAX,
    ensures
        t == stats_sum(v@),
{
    let mut t: usize = 0;
    let mut i: usize = 0;
    while i < v.len()
        invariant
            i <= v@.len(),
            t == stats_sum(v@.take(i as int)),
            stats_sum(v@) <= usize::MAX,
        decreases v.len() - i,
    {
        proof {
            assert(v@.take(i + 1).drop_last() =~= v@.take(i as int));
            lemma_stats_sum_prefix(v@, i + 1);
        }
        t = t + v[i].1;
        i += 1;
    }
    proof {
        assert(v@.take(i as int) =~= v@);
    }
    t
}

/// A prefix sums to no more than the whole.
proof fn lemma_stats_sum_prefix(v: Seq<(String, usize)>, k: int)
    requires
        0 <= k <= v.len(),
    ensures
        stats_sum(v.take(k)) <= stats_sum(v),
    decreases v.len(),
{
    if k < v.len() {
        assert(v.drop_last().take(k) =~= v.take(k));
        lemma_stats_sum_prefix(v.drop_last(), k);
    } else {
        assert(v.take(k) =~= v);
    }
}

/// Recording puts the new activity first and shifts the others back by
/// one; the history never holds more than `MAX_ACTIVITIES` entries.
pub proof fn lemma_add_newest_first(acts: Seq<Activity>, a: Activity)
    ensures
        spec_add(acts, a)[0] == a,
        spec_add(acts, a).len() as int == if acts.len() + 1 > MAX_ACTIVITIES { MAX_ACTIVITIES as int } else { acts.len() + 1 as int },
        forall|i: int| 0 < i < spec_add(acts, a).len() ==> #[trigger] spec_add(acts, a)[i] == acts[i - 1],
{
}

/// Sum of the counts of spec stats.
pub open spec fn stat_counts(s: Seq<(Seq<char>, nat)>) -> nat
    decreases s.len(),
{
    if s.len() == 0 {
        0
    } else {
        stat_counts(s.drop_last()) + s.last().1
    }
}

/// Rows with the counts of `s` add up as `s` does.
proof fn lemma_stats_sum_rows(v: Seq<(String, usize)>, s: Seq<(Seq<char>, nat)>)
    requires
        v.len() == s.len(),
        forall|i: int| 0 <= i < v.len() ==> v[i].1 == (#[trigger] s[i]).1,
    ensures
        stats_sum(v) == stat_counts(s),
    decreases v.len(),
{
    if v.len() > 0 {
        assert forall|i: int| 0 <= i < v.drop_last().len() implies v.drop_last()[i].1 == (#[trigger] s.drop_last()[i]).1 by {
            assert(s.drop_last()[i] == s[i]);
        }
        assert(v.last().1 == s[s.len() - 1].1);
        lemma_stats_sum_rows(v.drop_last(), s.drop_last());
    }
}

/// Every activity is of one of the four kinds.
proof fn lemma_kinds_cover(acts: Seq<Activity>)
    ensures
        count_kind(acts, ActivityType::Push) + count_kind(acts, ActivityType::Pull) + count_kind(acts, ActivityType::Delete)
            + count_kind(acts, ActivityType::Label) == acts.len(),
    decreases acts.len(),
{
    if acts.len() > 0 {
        lemma_kinds_cover(acts.drop_last());
    }
}

proof fn lemma_stat_counts_add(a: Seq<(Seq<char>, nat)>, b: Seq<(Seq<char>, nat)>)
    ensures
        stat_counts(a + b) == stat_counts(a) + stat_counts(b),
    decreases b.len(),
{
    if b.len() > 0 {
        lemma_stat_counts_add(a, b.drop_last());
        assert((a + b).drop_last() =~= a + b.drop_last());
    } else {
        assert(a + b =~= a);
    }
}

/// The stats account for the whole history: their counts add up to the
/// number of recorded activities.
pub proof fn lemma_stats_cover_history(acts: Seq<Activity>)
    ensures
        stat_counts(spec_stats(acts)) == acts.len(),
{
    lemma_kinds_cover(acts);
    let entry = |k: ActivityType|
        if count_kind(acts, k) > 0 {
            seq![(kind_name(k), count_kind(acts, k))]
        } else {
            Seq::<(Seq<char>, nat)>::empty()
        };
    assert forall|k: ActivityType| #[trigger] stat_counts(entry(k)) == count_kind(acts, k) by {
        reveal_with_fuel(stat_counts, 2);
        if count_kind(acts, k) > 0 {
            let e = seq![(kind_name(k), count_kind(acts, k))];
            assert(e.drop_last() =~= Seq::<(Seq<char>, nat)>::empty());
            assert(stat_counts(e) == count_kind(acts, k));
        }
    }
    let d = entry(ActivityType::Delete);
    let l = entry(ActivityType::Label);
    let p = entry(ActivityType::Pull);
    let u = entry(ActivityType::Push);
    lemma_stat_counts_add(d, l);
    lemma_stat_counts_add(d + l, p);
    lemma_stat_counts_add(d + l + p, u);
    assert(spec_stats(acts) == d + l + p + u);
    assert(stat_counts(d) == count_kind(acts, ActivityType::Delete));
    assert(stat_counts(l) == count_kind(acts, ActivityType::Label));
    assert(stat_counts(p) == count_kind(acts, ActivityType::Pull));
    assert(stat_counts(u) == count_kind(acts, ActivityType::Push));
}

/// Different kinds have different names.
proof fn lemma_kind_names_differ(a: ActivityType, b: ActivityType)
    ensures
        kind_name(a) == kind_name(b) ==> a == b,
{
    reveal_strlit("push");
    reveal_strlit("pull");
    reveal_strlit("delete");
    reveal_strlit("label");
    if kind_name(a) == kind_name(b) && a != b {
        assert(kind_name(a).len() == kind_name(b).len());
        assert(kind_name(a)[2] == kind_name(b)[2]);
    }
}

/// The stats have a row for exactly the kinds that occur in the history,
/// and each such row holds that kind's name and how many activities of
/// that kind were recorded.
pub proof fn lemma_stats_count_each_kind(acts: Seq<Activity>, k: ActivityType)
    ensures
        count_kind(acts, k) > 0 ==> spec_stats(acts).contains((kind_name(k), count_kind(acts, k))),
        count_kind(acts, k) == 0 ==> forall|i: int| 0 <= i < spec_stats(acts).len() ==> (#[trigger] spec_stats(acts)[i]).0 != kind_name(k),
{
    let entry = |j: ActivityType|
        if count_kind(acts, j) > 0 {
            seq![(kind_name(j), count_kind(acts, j))]
        } else {
            Seq::<(Seq<char>, nat)>::empty()
        };
    let d = entry(ActivityType::Delete);
    let l = entry(ActivityType::Label);
    let p = entry(ActivityType::Pull);
    let u = entry(ActivityType::Push);
    let s = spec_stats(acts);
    assert(s == d + l + p + u);
    let pre_l: int = d.len() as int;
    let pre_p: int = pre_l + l.len();
    let pre_u: int = pre_p + p.len();
    assert forall|i: int| 0 <= i < s.len() implies (#[trigger] s[i]).0 != kind_name(k) || count_kind(acts, k) > 0 by {
        lemma_kind_names_differ(ActivityType::Delete, k);
        lemma_kind_names_differ(ActivityType::Label, k);
        lemma_kind_names_differ(ActivityType::Pull, k);
        lemma_kind_names_differ(ActivityType::Push, k);
        if i < pre_l {
            assert(s[i] == d[i]);
        } else if i < pre_p {
            assert(s[i] == l[i - pre_l]);
        } else if i < pre_u {
            assert(s[i] == p[i - pre_p]);
        } else {
            assert(s[i] == u[i - pre_u]);
        }
    }
    if count_kind(acts, k) > 0 {
        let idx: int = match k {
            ActivityType::Delete => 0,
            ActivityType::Label => pre_l,
            ActivityType::Pull => pre_p,
            ActivityType::Push => pre_u,
        };
        assert(s[idx] == (kind_name(k), count_kind(acts, k)));
    }
}

} // verus!
