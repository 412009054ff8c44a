//! Sorting keyed records by their string key.
use vstd::prelude::*;

use crate::text::{lemma_seq_lt_total, lemma_seq_lt_transitive, seq_lt, str_lt};

verus! {

/// Keys strictly increasing in lexicographic order.
pub open spec fn strictly_sorted<T>(v: Seq<(String, T)>) -> bool {
    forall|i: int, j: int| 0 <= i < j < v.len() ==> seq_lt(#[trigger] v[i].0@, #[trigger] v[j].0@)
}

/// Pairwise distinct keys.
pub open spec fn distinct_keys<T>(v: Seq<(String, T)>) -> bool {
    forall|i: int, j: int| 0 <= i < j < v.len() ==> v[i].0@ != v[j].0@
}

/// Sorts records with distinct keys into increasing key order. The result
/// holds exactly the input records.
pub fn sort_by_key<T>(v: Vec<(String, T)>) -> (r: Vec<(String, T)>)
    requires
        distinct_keys(v@),
    ensures
        r@.len() == v@.len(),
        strictly_sorted(r@),
        forall|i: int| 0 <= i < r@.len() ==> v@.contains(#[trigger] r@[i]),
        forall|j: int| 0 <= j < v@.len() ==> r@.contains(#[trigger] v@[j]),
{
    let ghost orig = v@;
    let mut out: Vec<(String, T)> = Vec::new();
    let mut rest = v;
    // `rest` is consumed from the back; `out` holds orig[k' ..] for the
    // elements taken so far.
    while rest.len() > 0
        invariant
            rest@ == orig.take(rest@.len() as int),
            rest@.len() + out@.len() == orig.len(),
            distinct_keys(orig),
            strictly_sorted(out@),
            forall|i: int| 0 <= i < out@.len() ==> exists|j: int| rest@.len() <= j < orig.len() && #[trigger] out@[i] == orig[j],
            forall|j: int| rest@.len() <= j < orig.len() ==> out@.contains(#[trigger] orig[j]),
        decreases rest.len(),
    {
        let x = rest.pop().unwrap();
        let ghost m = rest@.len() as int;
        assert(x == orig[m]);
        // position of the first key greater than x's
        let mut p: usize = 0;
        while p < out.len() && str_lt(&out[p].0, &x.0)
            invariant
                p <= out@.len(),
                forall|i: int| 0 <= i < p ==> seq_lt(#[trigger] out@[i].0@, x.0@),
            decreases out.len() - p,
        {
            p += 1;
        }
        proof {
            // every element of out is some orig[j] with j > m, so its key differs from x's
            assert forall|i: int| 0 <= i < out@.len() implies out@[i].0@ != x.0@ by {
                let j = choose|j: int| m < j < orig.len() && out@[i] == orig[j];
            }
            assert forall|i: int| p <= i < out@.len() implies seq_lt(x.0@, #[trigger] out@[i].0@) by {
                if p < out@.len() {
                    lemma_seq_lt_total(out@[p as int].0@, x.0@);
                    if i > p {
                        lemma_seq_lt_transitive(x.0@, out@[p as int].0@, out@[i].0@);
                    }
                }
            }
        }
        let ghost before = out@;
        out.insert(p, x);
        proof {
            assert forall|i: int| 0 <= i < out@.len() implies out@[i] == (if i < p { before[i] } else if i == p { orig[m] } else { before[i - 1] }) by {}
            assert forall|i: int, j: int| 0 <= i < j < out@.len() implies seq_lt(#[trigger] out@[i].0@, #[trigger] out@[j].0@) by {
                if i < p && j == p {
                } else if i < p && j > p {
                    assert(seq_lt(before[i].0@, before[j - 1].0@));
                } else if i == p && j > p {
                } else if i > p {
                    assert(seq_lt(before[i - 1].0@, before[j - 1].0@));
                }
            }
            assert forall|i: int| 0 <= i < out@.len() implies exists|j: int| m <= j < orig.len() && #[trigger] out@[i] == orig[j] by {
                if i < p {
                    let j = choose|j: int| m < j < orig.len() && before[i] == orig[j];
                } else if i == p {
                } else {
                    let j = choose|j: int| m < j < orig.len() && before[i - 1] == orig[j];
                }
            }
            assert forall|j: int| m <= j < orig.len() implies out@.contains(#[trigger] orig[j]) by {
                if j == m {
                    assert(out@[p as int] == orig[j]);
                } else {
                    let i = choose|i: int| 0 <= i < before.len() && before[i] == orig[j];
                    if i < p {
                        assert(out@[i] == orig[j]);
                    } else {
                        assert(out@[i + 1] == orig[j]);
                    }
                }
            }
            assert(rest@ =~= orig.take(m));
        }
    }
    proof {
        assert forall|i: int| 0 <= i < out@.len() implies orig.contains(#[trigger] out@[i]) by {
            let j = choose|j: int| 0 <= j < orig.len() && out@[i] == orig[j];
        }
    }
    out
}

/// Keys in non-decreasing lexicographic order.
pub open spec fn sorted_by_key<T>(v: Seq<(String, T)>) -> bool {
    forall|i: int, j: int| 0 <= i < j < v.len() ==> !seq_lt(#[trigger] v[j].0@, #[trigger] v[i].0@)
}

/// Sorts records into non-decreasing key order; records with equal keys
/// keep their order. The result holds exactly the input records.
pub fn sort_records<T>(v: Vec<(String, T)>) -> (r: Vec<(String, T)>)
    ensures
        sorted_by_key(r@),
        r@.to_multiset() == v@.to_multiset(),
{
    let ghost orig = v@;
    let mut src = v;
    let mut out: Vec<(String, T)> = Vec::new();
    let ghost mut k: int = 0;
    proof {
        assert(orig.take(0) =~= Seq::<(String, T)>::empty());
        assert(src@ =~= orig.skip(0));
    }
    while src.len() > 0
        invariant
            0 <= k <= orig.len(),
            src@ == orig.skip(k),
            sorted_by_key(out@),
            out@.to_multiset() == orig.take(k).to_multiset(),
        decreases src.len(),
    {
        let ghost sv = src@;
        let x = src.remove(0);
        let mut p: usize = 0;
        while p < out.len() && !str_lt(&x.0, &out[p].0)
            invariant
                p <= out@.len(),
                forall|q: int| 0 <= q < p ==> !seq_lt(x.0@, #[trigger] out@[q].0@),
            decreases out.len() - p,
        {
            p += 1;
        }
        let ghost ov = out@;
        proof {
            assert(sv.len() > 0);
            assert(x == sv[0]);
            assert(orig[k] == x);
            assert forall|q: int| p <= q < ov.len() implies seq_lt(x.0@, #[trigger] ov[q].0@) by {
                if q > p {
                    assert(!seq_lt(ov[q].0@, ov[p as int].0@));
                    lemma_seq_lt_total(ov[q].0@, ov[p as int].0@);
                    if ov[q].0@ != ov[p as int].0@ {
                        lemma_seq_lt_transitive(x.0@, ov[p as int].0@, ov[q].0@);
                    }
                }
            }
        }
        out.insert(p, x);
        proof {
            let r = out@;
            assert(r =~= ov.insert(p as int, x));
            assert forall|i: int, j: int| 0 <= i < j < r.len() implies !seq_lt(#[trigger] r[j].0@, #[trigger] r[i].0@) by {
                lemma_seq_lt_total(r[i].0@, r[j].0@);
                if i < p && j == p {
                } else if i == p {
                    if seq_lt(r[j].0@, x.0@) {
                        lemma_seq_lt_transitive(x.0@, r[j].0@, x.0@);
                        crate::text::lemma_seq_lt_irreflexive(x.0@);
                    }
                } else if i < p && j > p {
                    assert(!seq_lt(ov[j - 1].0@, ov[i].0@));
                } else if j < p {
                    assert(!seq_lt(ov[j].0@, ov[i].0@));
                } else {
                    assert(!seq_lt(ov[j - 1].0@, ov[i - 1].0@));
                }
            }
            vstd::seq_lib::lemma_multiset_commutative(ov.take(p as int), seq![x] + ov.skip(p as int));
            vstd::seq_lib::lemma_multiset_commutative(seq![x], ov.skip(p as int));
            vstd::seq_lib::lemma_multiset_commutative(ov.take(p as int), ov.skip(p as int));
            assert(ov =~= ov.take(p as int) + ov.skip(p as int));
            assert(r =~= ov.take(p as int) + (seq![x] + ov.skip(p as int)));
            vstd::seq_lib::lemma_multiset_commutative(orig.take(k), seq![x]);
            assert(orig.take(k + 1) =~= orig.take(k) + seq![x]);
            k = k + 1;
            assert(src@ =~= sv.remove(0));
            assert(src@ =~= orig.skip(k));
        }
    }
    proof {
        assert(orig.take(k) =~= orig);
    }
    out
}

} // verus!
