//! The interactive browser's state machine: two panes (shortcuts and
//! artifacts), a search filter, a sort order and modal dialogs for pull,
//! delete and help. Drawing, the terminal and the network live with the
//! caller, which feeds key presses and background results in and carries
//! out the actions handed back.
use vstd::prelude::*;

pub mod state;

use crate::oci::{ArtifactInfo, ArtifactView, artifact_views};
use crate::output::{format_bytes, joined, label_items, labels_text, spec_format_bytes, yes_no};
use crate::text::push_str;
use crate::text::{seq_lt, str_lt, lemma_seq_lt_irreflexive, lemma_seq_lt_transitive, lemma_seq_lt_total};

verus! {

broadcast use vstd::seq_lib::group_filter_ensures;

/// Order of the artifact list; `s` cycles name, size descending, size
/// ascending, and back.
#[derive(Debug, Clone, Copy, PartialEq, Eq, Structural)]
pub enum SortMode {
    Name,
    SizeDesc,
    SizeAsc,
}

/// The mode that follows `m` in the cycle.
pub open spec fn spec_next(m: SortMode) -> SortMode {
    match m {
        SortMode::Name => SortMode::SizeDesc,
        SortMode::SizeDesc => SortMode::SizeAsc,
        SortMode::SizeAsc => SortMode::Name,
    }
}

impl SortMode {
    /// The next mode in the cycle.
    pub fn next(self) -> (r: SortMode)
        ensures
            r == spec_next(self),
    {
        match self {
            SortMode::Name => SortMode::SizeDesc,
            SortMode::SizeDesc => SortMode::SizeAsc,
            SortMode::SizeAsc => SortMode::Name,
        }
    }

    /// Short label shown in the status bar.
    pub fn label(self) -> (r: &'static str)
        ensures
            self == SortMode::Name ==> r@ == "name"@,
            self == SortMode::SizeDesc ==> r@ == "size ↓"@,
            self == SortMode::SizeAsc ==> r@ == "size ↑"@,
    {
        match self {
            SortMode::Name => "name",
            SortMode::SizeDesc => "size ↓",
            SortMode::SizeAsc => "size ↑",
        }
    }
}

/// Pressing `s` three times restores the sort mode, and the three modes
/// met on the way are pairwise distinct.
pub proof fn lemma_sort_mode_cycle(m: SortMode)
    ensures
        spec_next(spec_next(spec_next(m))) == m,
        spec_next(m) != m,
        spec_next(spec_next(m)) != m,
{
}

// ------------------------------------------------------------ spinner

/// The spinner's frames, in order.
pub open spec fn spinner_frames() -> Seq<char> {
    seq!['⠋', '⠙', '⠹', '⠸', '⠼', '⠴', '⠦', '⠧', '⠇', '⠏']
}

/// The spinner frame shown at `millis` milliseconds: one frame per 80 ms.
pub fn spinner_frame(millis: u128) -> (c: char)
    ensures
        c == spinner_frames()[((millis / 80) % 10) as int],
{
    let i = (millis / 80) % 10;
    if i == 0 {
        '⠋'
    } else if i == 1 {
        '⠙'
    } else if i == 2 {
        '⠹'
    } else if i == 3 {
        '⠸'
    } else if i == 4 {
        '⠼'
    } else if i == 5 {
        '⠴'
    } else if i == 6 {
        '⠦'
    } else if i == 7 {
        '⠧'
    } else if i == 8 {
        '⠇'
    } else {
        '⠏'
    }
}

/// Milliseconds since the Unix epoch from `std::time::SystemTime::now`, or
/// 0 when the clock reads earlier than the epoch. Nothing is stated of the
/// value: it is the wall clock.
#[verifier::external_body]
fn unix_millis() -> (ms: u128) {
    match std::time::SystemTime::now().duration_since(std::time::UNIX_EPOCH) {
        Ok(d) => d.as_millis(),
        Err(_) => 0,
    }
}

/// The spinner frame for the current wall-clock time.
pub fn spinner_char() -> (c: char)
    ensures
        spinner_frames().contains(c),
{
    let ms = unix_millis();
    let c = spinner_frame(ms);
    proof {
        let i = ((ms / 80) % 10) as int;
        assert(spinner_frames()[i] == c);
    }
    c
}

// ------------------------------------------------------------ sorting

/// `a` may come before `b` in `mode`'s order.
pub open spec fn sort_le(mode: SortMode, a: ArtifactView, b: ArtifactView) -> bool {
    match mode {
        SortMode::Name => !seq_lt(b.tag, a.tag),
        SortMode::SizeDesc => a.size >= b.size,
        SortMode::SizeAsc => a.size <= b.size,
    }
}

/// `a` and `b` rank alike in `mode`'s order.
pub open spec fn same_rank(mode: SortMode, a: ArtifactView, b: ArtifactView) -> bool {
    sort_le(mode, a, b) && sort_le(mode, b, a)
}

/// `s` is in `mode`'s order.
pub open spec fn sorted_by(mode: SortMode, s: Seq<ArtifactView>) -> bool {
    forall|i: int, j: int| 0 <= i < j < s.len() ==> sort_le(mode, #[trigger] s[i], #[trigger] s[j])
}

/// Ranks alike with `y`.
pub open spec fn rank_pred(mode: SortMode, y: ArtifactView) -> spec_fn(ArtifactView) -> bool {
    |x: ArtifactView| same_rank(mode, x, y)
}

/// The elements of `s` that rank alike with `y`, in their order in `s`.
pub open spec fn rank_class(mode: SortMode, s: Seq<ArtifactView>, y: ArtifactView) -> Seq<ArtifactView> {
    s.filter(rank_pred(mode, y))
}

/// `r` is `s` sorted stably by `mode`: in order, and every group of
/// elements that rank alike keeps its order from `s`.
pub open spec fn is_stable_sort(mode: SortMode, s: Seq<ArtifactView>, r: Seq<ArtifactView>) -> bool {
    &&& sorted_by(mode, r)
    &&& forall|y: ArtifactView| #[trigger] rank_class(mode, r, y) == rank_class(mode, s, y)
}

/// `sort_le` is a total preorder.
pub proof fn lemma_sort_le_preorder(mode: SortMode, a: ArtifactView, b: ArtifactView, c: ArtifactView)
    ensures
        sort_le(mode, a, a),
        sort_le(mode, a, b) || sort_le(mode, b, a),
        sort_le(mode, a, b) && sort_le(mode, b, c) ==> sort_le(mode, a, c),
{
    lemma_seq_lt_irreflexive(a.tag);
    if seq_lt(a.tag, b.tag) && seq_lt(b.tag, a.tag) {
        lemma_seq_lt_transitive(a.tag, b.tag, a.tag);
    }
    if mode == SortMode::Name && sort_le(mode, a, b) && sort_le(mode, b, c) && seq_lt(c.tag, a.tag) {
        lemma_seq_lt_total(a.tag, b.tag);
        if a.tag != b.tag {
            lemma_seq_lt_transitive(c.tag, a.tag, b.tag);
        }
    }
}

/// `r` with `x` inserted after every element that may precede it.
pub open spec fn insert_ranked(mode: SortMode, r: Seq<ArtifactView>, x: ArtifactView) -> Seq<ArtifactView>
    decreases r.len(),
{
    if r.len() == 0 {
        seq![x]
    } else if sort_le(mode, r.last(), x) {
        r.push(x)
    } else {
        insert_ranked(mode, r.drop_last(), x).push(r.last())
    }
}

/// Insertion sort of `s` by `mode`, which is stable.
pub open spec fn stable_sorted(mode: SortMode, s: Seq<ArtifactView>) -> Seq<ArtifactView>
    decreases s.len(),
{
    if s.len() == 0 {
        s
    } else {
        insert_ranked(mode, stable_sorted(mode, s.drop_last()), s.last())
    }
}

/// `insert_ranked` places `x` at the first element that `x` must precede.
proof fn lemma_insert_ranked_at(mode: SortMode, r: Seq<ArtifactView>, x: ArtifactView, p: int)
    requires
        0 <= p <= r.len(),
        forall|q: int| 0 <= q < p ==> sort_le(mode, #[trigger] r[q], x),
        forall|q: int| p <= q < r.len() ==> !sort_le(mode, #[trigger] r[q], x),
    ensures
        insert_ranked(mode, r, x) == r.insert(p, x),
    decreases r.len(),
{
    if r.len() == 0 {
        assert(r.insert(0, x) =~= seq![x]);
    } else if p == r.len() {
        assert(sort_le(mode, r[r.len() - 1], x));
        assert(r.insert(p, x) =~= r.push(x));
    } else {
        assert(!sort_le(mode, r[r.len() - 1], x));
        lemma_insert_ranked_at(mode, r.drop_last(), x, p);
        assert(r.drop_last().insert(p, x).push(r.last()) =~= r.insert(p, x));
    }
}

/// In a sorted `r`, the elements that may precede `x` form a prefix.
proof fn lemma_insert_point(mode: SortMode, r: Seq<ArtifactView>, x: ArtifactView) -> (p: int)
    requires
        sorted_by(mode, r),
    ensures
        0 <= p <= r.len(),
        forall|q: int| 0 <= q < p ==> sort_le(mode, #[trigger] r[q], x),
        forall|q: int| p <= q < r.len() ==> !sort_le(mode, #[trigger] r[q], x),
    decreases r.len(),
{
    if r.len() == 0 {
        0
    } else if sort_le(mode, r.last(), x) {
        assert forall|q: int| 0 <= q < r.len() implies sort_le(mode, #[trigger] r[q], x) by {
            if q < r.len() - 1 {
                assert(sort_le(mode, r[q], r[r.len() - 1]));
                lemma_sort_le_preorder(mode, r[q], r[r.len() - 1], x);
            }
        }
        r.len() as int
    } else {
        let d = r.drop_last();
        assert(sorted_by(mode, d)) by {
            assert forall|i: int, j: int| 0 <= i < j < d.len() implies sort_le(mode, #[trigger] d[i], #[trigger] d[j]) by {
                assert(d[i] == r[i] && d[j] == r[j]);
            }
        }
        let p = lemma_insert_point(mode, d, x);
        assert forall|q: int| 0 <= q < p implies sort_le(mode, #[trigger] r[q], x) by {
            assert(r[q] == d[q]);
        }
        assert forall|q: int| p <= q < r.len() implies !sort_le(mode, #[trigger] r[q], x) by {
            if q < r.len() - 1 {
                assert(r[q] == d[q]);
            }
        }
        p
    }
}

/// The insertion sort `stable_sorted` is a stable sort: its result is in
/// order, and elements that rank alike keep their order.
pub proof fn lemma_stable_sorted_is_stable(mode: SortMode, s: Seq<ArtifactView>)
    ensures
        is_stable_sort(mode, s, stable_sorted(mode, s)),
    decreases s.len(),
{
    if s.len() == 0 {
    } else {
        let d = s.drop_last();
        let x = s.last();
        let out = stable_sorted(mode, d);
        lemma_stable_sorted_is_stable(mode, d);
        let p = lemma_insert_point(mode, out, x);
        lemma_stable_insert(mode, d, out, x, p);
        lemma_insert_ranked_at(mode, out, x, p);
        assert(d.push(x) =~= s);
    }
}

/// `x` goes after the element `e` when `x`'s rank is not below `e`'s.
fn goes_after(mode: SortMode, e: &ArtifactInfo, x: &ArtifactInfo) -> (r: bool)
    ensures
        r == sort_le(mode, e@, x@),
{
    match mode {
        SortMode::Name => !str_lt(&x.tag, &e.tag),
        SortMode::SizeDesc => e.size >= x.size,
        SortMode::SizeAsc => e.size <= x.size,
    }
}

/// Inserting `x` at `p` into the sorted `out`, where `p` is past every
/// element that may precede `x` and before every other one, keeps `out`
/// a stable sort of `s` extended by `x`.
proof fn lemma_stable_insert(mode: SortMode, s: Seq<ArtifactView>, out: Seq<ArtifactView>, x: ArtifactView, p: int)
    requires
        is_stable_sort(mode, s, out),
        0 <= p <= out.len(),
        forall|q: int| 0 <= q < p ==> sort_le(mode, #[trigger] out[q], x),
        forall|q: int| p <= q < out.len() ==> !sort_le(mode, #[trigger] out[q], x),
    ensures
        is_stable_sort(mode, s.push(x), out.insert(p, x)),
{
    let r = out.insert(p, x);
    assert forall|i: int, j: int| 0 <= i < j < r.len() implies sort_le(mode, #[trigger] r[i], #[trigger] r[j]) by {
        if i < p && j == p {
        } else if i == p {
            lemma_sort_le_preorder(mode, x, r[j], x);
        } else if i < p && j > p {
            assert(r[i] == out[i]);
            assert(r[j] == out[j - 1]);
            assert(sort_le(mode, out[i], out[j - 1]));
        } else if j < p {
            assert(sort_le(mode, out[i], out[j]));
        } else {
            assert(r[i] == out[i - 1]);
            assert(r[j] == out[j - 1]);
            assert(sort_le(mode, out[i - 1], out[j - 1]));
        }
    }
    let a = out.take(p);
    let b = out.skip(p);
    assert(out =~= a + b);
    assert(r =~= a + seq![x] + b);
    assert forall|y: ArtifactView| #[trigger] rank_class(mode, r, y) == rank_class(mode, s.push(x), y) by {
        let pred = rank_pred(mode, y);
        assert(rank_class(mode, out, y) == rank_class(mode, s, y));
        Seq::filter_distributes_over_add(a, b, pred);
        Seq::filter_distributes_over_add(a + seq![x], b, pred);
        Seq::filter_distributes_over_add(a, seq![x], pred);
        Seq::filter_distributes_over_add(s, seq![x], pred);
        assert(s.push(x) =~= s + seq![x]);
        let one = seq![x].filter(pred);
        assert(one == (if pred(x) { seq![x] } else { Seq::<ArtifactView>::empty() })) by {
            reveal_with_fuel(Seq::filter, 2);
            assert(seq![x].drop_last() =~= Seq::<ArtifactView>::empty());
            assert(Seq::<ArtifactView>::empty().push(x) =~= seq![x]);
        }
        if same_rank(mode, x, y) {
            assert forall|q: int| 0 <= q < b.len() implies !pred(#[trigger] b[q]) by {
                assert(b[q] == out[p + q]);
                if same_rank(mode, b[q], y) {
                    lemma_sort_le_preorder(mode, b[q], y, x);
                }
            }
            assert(b.filter(pred) =~= Seq::<ArtifactView>::empty()) by {
                if b.filter(pred).len() > 0 {
                    let e = b.filter(pred)[0];
                    assert(pred(e));
                    assert(b.filter(pred).contains(e));
                    b.lemma_filter_contains_rev(pred, e);
                }
            }
            assert(r.filter(pred) =~= a.filter(pred) + one);
            assert(out.filter(pred) =~= a.filter(pred));
        } else {
            assert(one =~= Seq::<ArtifactView>::empty());
            assert(r.filter(pred) =~= a.filter(pred) + b.filter(pred));
        }
    }
}

/// `artifacts` sorted stably by `mode`: tag for `Name`, size largest
/// first for `SizeDesc`, size smallest first for `SizeAsc`.
pub fn sort_artifacts(artifacts: Vec<ArtifactInfo>, mode: SortMode) -> (r: Vec<ArtifactInfo>)
    ensures
        artifact_views(r@) == stable_sorted(mode, artifact_views(artifacts@)),
        is_stable_sort(mode, artifact_views(artifacts@), artifact_views(r@)),
        artifact_views(r@).to_multiset() == artifact_views(artifacts@).to_multiset(),
{
    let ghost orig = artifact_views(artifacts@);
    let mut src = artifacts;
    let mut out: Vec<ArtifactInfo> = Vec::new();
    let ghost mut k: int = 0;
    proof {
        assert(orig.take(0) =~= Seq::<ArtifactView>::empty());
        assert(artifact_views(out@) =~= Seq::<ArtifactView>::empty());
        assert(artifact_views(src@) =~= orig.skip(0));
        reveal_with_fuel(Seq::filter, 1);
    }
    while src.len() > 0
        invariant
            0 <= k <= orig.len(),
            artifact_views(src@) == orig.skip(k),
            is_stable_sort(mode, orig.take(k), artifact_views(out@)),
            artifact_views(out@) == stable_sorted(mode, orig.take(k)),
            artifact_views(out@).to_multiset() == orig.take(k).to_multiset(),
        decreases src.len(),
    {
        let ghost sv = artifact_views(src@);
        let x = src.remove(0);
        let mut p: usize = 0;
        while p < out.len() && goes_after(mode, &out[p], &x)
            invariant
                p <= out.len(),
                forall|q: int| 0 <= q < p ==> sort_le(mode, #[trigger] artifact_views(out@)[q], x@),
            decreases out.len() - p,
        {
            p += 1;
        }
        let ghost ov = artifact_views(out@);
        proof {
            assert(sv.len() > 0);
            assert(k < orig.len());
            assert(sv[0] == x@);
            assert(orig.skip(k)[0] == x@);
            assert(orig[k] == x@);
            assert forall|q: int| p <= q < ov.len() implies !sort_le(mode, #[trigger] ov[q], x@) by {
                assert(sorted_by(mode, ov));
                if sort_le(mode, ov[q], x@) {
                    lemma_sort_le_preorder(mode, ov[p as int], ov[q], x@);
                }
            }
            lemma_stable_insert(mode, orig.take(k), ov, x@, p as int);
            lemma_insert_ranked_at(mode, ov, x@, p as int);
            assert(orig.take(k).push(x@) =~= orig.take(k + 1));
            assert(orig.take(k + 1).drop_last() =~= orig.take(k));
            ov.take(p as int).to_multiset_ensures();
            vstd::seq_lib::lemma_multiset_commutative(ov.take(p as int), seq![x@] + ov.skip(p as int));
            vstd::seq_lib::lemma_multiset_commutative(seq![x@], ov.skip(p as int));
            vstd::seq_lib::lemma_multiset_commutative(ov.take(p as int), ov.skip(p as int));
            assert(ov =~= ov.take(p as int) + ov.skip(p as int));
            assert(ov.insert(p as int, x@) =~= ov.take(p as int) + (seq![x@] + ov.skip(p as int)));
            vstd::seq_lib::lemma_multiset_commutative(orig.take(k), seq![x@]);
            assert(orig.take(k + 1) =~= orig.take(k) + seq![x@]);
        }
        out.insert(p, x);
        proof {
            assert(artifact_views(out@) =~= ov.insert(p as int, x@));
            k = k + 1;
            assert(artifact_views(src@) =~= sv.remove(0));
            assert(artifact_views(src@) =~= orig.skip(k));
        }
    }
    proof {
        assert(orig.take(k) =~= orig);
    }
    out
}

// ------------------------------------------------------------ text of the panes

/// The cells of an artifact's row in the artifacts pane: tag (behind a
/// lock when encrypted), encrypted, size, version and labels.
pub fn pane_row(a: &ArtifactInfo) -> (r: Vec<String>)
    ensures
        r@.len() == 5,
        r@[0]@ == (if a.encrypted { "🔒 "@ } else { Seq::empty() }) + a.tag@,
        r@[1]@ == yes_no(a.encrypted),
        r@[2]@ == spec_format_bytes(a.size as int),
        r@[3]@ == a.version@,
        r@[4]@ == joined(label_items(a.labels), ","@),
{
    let mut tag = String::new();
    if a.encrypted {
        push_str(&mut tag, "🔒 ");
    }
    push_str(&mut tag, a.tag.as_str());
    let mut r: Vec<String> = Vec::new();
    r.push(tag);
    r.push(String::from_str(if a.encrypted { "yes" } else { "no" }));
    r.push(format_bytes(a.size));
    r.push(a.version.clone());
    r.push(labels_text(&a.labels, ","));
    r
}

/// The details footer for an artifact: its reference, then full name,
/// digest, version and size, then encryption and labels (`-` for none).
pub fn details_lines(a: &ArtifactInfo) -> (r: (String, String, String))
    ensures
        r.0@ == a.repo@ + ":"@ + a.tag@,
        r.1@ == "Full name: "@ + a.full_name@ + "    Digest: "@ + a.digest@ + "    Version: "@ + a.version@
            + "    Size: "@ + spec_format_bytes(a.size as int),
        r.2@ == "Encrypted: "@ + (if a.encrypted { "yes (AES-256-GCM)"@ } else { "no"@ }) + "    Labels: "@ + (if a.labels.spec_len()
            == 0 { "-"@ } else { joined(label_items(a.labels), ", "@) }),
{
    let mut first = String::new();
    push_str(&mut first, a.repo.as_str());
    push_str(&mut first, ":");
    push_str(&mut first, a.tag.as_str());
    let mut second = String::new();
    push_str(&mut second, "Full name: ");
    push_str(&mut second, a.full_name.as_str());
    push_str(&mut second, "    Digest: ");
    push_str(&mut second, a.digest.as_str());
    push_str(&mut second, "    Version: ");
    push_str(&mut second, a.version.as_str());
    push_str(&mut second, "    Size: ");
    let size = format_bytes(a.size);
    push_str(&mut second, size.as_str());
    let mut third = String::new();
    push_str(&mut third, "Encrypted: ");
    push_str(&mut third, if a.encrypted { "yes (AES-256-GCM)" } else { "no" });
    push_str(&mut third, "    Labels: ");
    if a.labels.is_empty() {
        push_str(&mut third, "-");
    } else {
        let l = labels_text(&a.labels, ", ");
        push_str(&mut third, l.as_str());
    }
    (first, second, third)
}

/// The delete dialog's text for the selected artifact.
pub fn delete_dialog_text(a: Option<&ArtifactInfo>) -> (r: String)
    ensures
        match a {
            Some(a) => r@ == "Delete "@ + a.repo@ + ":"@ + a.tag@ + " ("@ + a.digest@ + ")\n\nThis cannot be undone."@,
            None => r@ == "Nothing selected"@,
        },
{
    let mut r = String::new();
    match a {
        Some(a) => {
            push_str(&mut r, "Delete ");
            push_str(&mut r, a.repo.as_str());
            push_str(&mut r, ":");
            push_str(&mut r, a.tag.as_str());
            push_str(&mut r, " (");
            push_str(&mut r, a.digest.as_str());
            push_str(&mut r, ")\n\nThis cannot be undone.");
        },
        None => push_str(&mut r, "Nothing selected"),
    }
    r
}

/// One `*` per character of the passphrase.
pub fn masked(passphrase: &str) -> (r: String)
    ensures
        r@.len() == passphrase@.len(),
        forall|i: int| 0 <= i < r@.len() ==> r@[i] == '*',
{
    let v = crate::text::chars_of(passphrase);
    let mut r = String::new();
    let mut i: usize = 0;
    while i < v.len()
        invariant
            i <= v@.len(),
            v@ == passphrase@,
            r@.len() == i,
            forall|j: int| 0 <= j < r@.len() ==> r@[j] == '*',
        decreases v.len() - i,
    {
        crate::text::push_char(&mut r, '*');
        i += 1;
    }
    r
}

} // verus!
