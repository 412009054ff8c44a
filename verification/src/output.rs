//! Listing rules: label and tag filters, and human-readable sizes.
//!
//! The cells of the listing table are composed here; drawing tables,
//! JSON/YAML and prompts is left to the caller.
use vstd::prelude::*;

use crate::app::push::split_label;
use crate::oci::{artifact_views, ArtifactInfo, ArtifactView};
use crate::strmap::{text_map, StrMap};
use crate::text::{
    chars_of, decimal, digit_char, find_in, lemma_find_in_agrees, push_char, push_decimal, push_str, str_eq,
    string_of, rfind_char, rfind_in, lemma_rfind_in_agrees,
};

verus! {

/// Whether one label rule holds of a label table: `key=value` needs that
/// exact value, a bare `key` only its presence.
pub open spec fn rule_matches(labels: Map<Seq<char>, Seq<char>>, rule: Seq<char>) -> bool {
    match split_label(rule) {
        Some((k, v)) => labels.contains_key(k) && labels[k] == v,
        None => labels.contains_key(rule),
    }
}

/// Whether an artifact satisfies every rule.
pub open spec fn matches_all(a: ArtifactView, rules: Seq<Seq<char>>) -> bool {
    forall|i: int| 0 <= i < rules.len() ==> rule_matches(a.labels, #[trigger] rules[i])
}

/// Artifacts kept by a label filter, in order.
pub open spec fn spec_filter_labels(s: Seq<ArtifactView>, rules: Seq<Seq<char>>) -> Seq<ArtifactView>
    decreases s.len(),
{
    if s.len() == 0 {
        s
    } else {
        let rest = spec_filter_labels(s.drop_last(), rules);
        if matches_all(s.last(), rules) {
            rest.push(s.last())
        } else {
            rest
        }
    }
}

/// Artifacts whose tag is listed, in order.
pub open spec fn spec_filter_tags(s: Seq<ArtifactView>, tags: Seq<Seq<char>>) -> Seq<ArtifactView>
    decreases s.len(),
{
    if s.len() == 0 {
        s
    } else {
        let rest = spec_filter_tags(s.drop_last(), tags);
        if tags.contains(s.last().tag) {
            rest.push(s.last())
        } else {
            rest
        }
    }
}

/// Strings as character sequences.
pub open spec fn texts(s: Seq<String>) -> Seq<Seq<char>> {
    s.map_values(|x: String| x@)
}

fn rule_holds(a: &ArtifactInfo, rule: &String) -> (b: bool)
    ensures
        b == rule_matches(a@.labels, rule@),
{
    let v = chars_of(rule.as_str());
    let n = v.len();
    let eq = find_in(&v, '=', 0, n);
    proof {
        lemma_find_in_agrees(v@, '=', 0, n as int, match eq { Some(k) => Some(k as int), None => None });
        assert(v@.subrange(0, n as int) =~= v@);
    }
    match eq {
        Some(k) => {
            let key = string_of(&v, 0, k);
            let val = string_of(&v, k + 1, n);
            proof {
                assert(v@.take(k as int) =~= v@.subrange(0, k as int));
                assert(v@.skip(k + 1) =~= v@.subrange(k + 1, n as int));
            }
            match a.labels.get(key.as_str()) {
                Some(got) => str_eq(got.as_str(), val.as_str()),
                None => false,
            }
        },
        None => a.labels.contains_key(rule.as_str()),
    }
}

fn all_rules_hold(a: &ArtifactInfo, rules: &Vec<String>) -> (b: bool)
    ensures
        b == matches_all(a@, texts(rules@)),
{
    let mut i: usize = 0;
    while i < rules.len()
        invariant
            i <= rules@.len(),
            forall|j: int| 0 <= j < i ==> rule_matches(a@.labels, #[trigger] texts(rules@)[j]),
        decreases rules.len() - i,
    {
        if !rule_holds(a, &rules[i]) {
            assert(!rule_matches(a@.labels, texts(rules@)[i as int]));
            return false;
        }
        i += 1;
    }
    true
}

/// Filter artifacts by label rules: `key=value` exact match, bare `key` =
/// presence; an artifact is kept when every rule holds (so no rules keeps
/// all).
pub fn filter_by_labels(artifacts: &Vec<ArtifactInfo>, rules: &Vec<String>) -> (r: Vec<ArtifactInfo>)
    ensures
        artifact_views(r@) == spec_filter_labels(artifact_views(artifacts@), texts(rules@)),
{
    let mut out: Vec<ArtifactInfo> = Vec::new();
    let mut i: usize = 0;
    while i < artifacts.len()
        invariant
            i <= artifacts@.len(),
            artifact_views(out@) == spec_filter_labels(artifact_views(artifacts@).take(i as int), texts(rules@)),
        decreases artifacts.len() - i,
    {
        let ghost pre = artifact_views(artifacts@).take(i as int);
        let ghost cur = artifact_views(artifacts@).take(i + 1);
        assert(cur.drop_last() =~= pre);
        assert(cur.last() == artifacts@[i as int]@);
        if all_rules_hold(&artifacts[i], rules) {
            let c = artifacts[i].clone();
            out.push(c);
            assert(artifact_views(out@) =~= spec_filter_labels(pre, texts(rules@)).push(artifacts@[i as int]@));
        }
        i += 1;
    }
    assert(artifact_views(artifacts@).take(artifacts@.len() as int) =~= artifact_views(artifacts@));
    out
}

/// Filter artifacts by tag list (an empty list keeps all).
pub fn filter_by_tags(artifacts: &Vec<ArtifactInfo>, tags: &Vec<String>) -> (r: Vec<ArtifactInfo>)
    ensures
        tags@.len() == 0 ==> artifact_views(r@) == artifact_views(artifacts@),
        tags@.len() > 0 ==> artifact_views(r@) == spec_filter_tags(artifact_views(artifacts@), texts(tags@)),
{
    let mut out: Vec<ArtifactInfo> = Vec::new();
    let mut i: usize = 0;
    let keep_all = tags.len() == 0;
    while i < artifacts.len()
        invariant
            i <= artifacts@.len(),
            keep_all == (tags@.len() == 0),
            keep_all ==> artifact_views(out@) == artifact_views(artifacts@).take(i as int),
            !keep_all ==> artifact_views(out@) == spec_filter_tags(artifact_views(artifacts@).take(i as int), texts(tags@)),
        decreases artifacts.len() - i,
    {
        let ghost pre = artifact_views(artifacts@).take(i as int);
        let ghost cur = artifact_views(artifacts@).take(i + 1);
        assert(cur.drop_last() =~= pre);
        assert(cur.last() == artifacts@[i as int]@);
        let mut keep = keep_all;
        let mut j: usize = 0;
        while j < tags.len() && !keep
            invariant
                j <= tags@.len(),
                i < artifacts@.len(),
                keep_all == (tags@.len() == 0),
                keep ==> keep_all || texts(tags@).contains(artifacts@[i as int]@.tag),
                !keep ==> !keep_all && forall|q: int| 0 <= q < j ==> texts(tags@)[q] != artifacts@[i as int]@.tag,
            decreases tags.len() - j,
        {
            if str_eq(tags[j].as_str(), artifacts[i].tag.as_str()) {
                assert(texts(tags@)[j as int] == artifacts@[i as int]@.tag);
                keep = true;
            }
            j += 1;
        }
        if keep {
            let c = artifacts[i].clone();
            out.push(c);
            if keep_all {
                assert(artifact_views(out@) =~= cur);
            } else {
                assert(artifact_views(out@) =~= spec_filter_tags(pre, texts(tags@)).push(artifacts@[i as int]@));
            }
        } else {
            assert(!texts(tags@).contains(artifacts@[i as int]@.tag));
        }
        i += 1;
    }
    assert(artifact_views(artifacts@).take(artifacts@.len() as int) =~= artifact_views(artifacts@));
    out
}

/// `2^e`.
pub open spec fn pow2n(e: nat) -> nat
    decreases e,
{
    if e == 0 {
        1
    } else {
        2 * pow2n((e - 1) as nat)
    }
}

/// Number of binary digits of `n` (0 for 0).
pub open spec fn bitlen(n: nat) -> nat
    decreases n,
{
    if n == 0 {
        0
    } else {
        1 + bitlen(n / 2)
    }
}

/// `n / d` rounded to the nearest integer, ties to even.
pub open spec fn round_half_even(n: nat, d: nat) -> nat
    recommends
        d > 0,
{
    let q = n / d;
    let r = n % d;
    if 2 * r > d || (2 * r == d && q % 2 == 1) {
        q + 1
    } else {
        q
    }
}

/// `n as f64` for a natural number: `n` rounded to 53 significant bits,
/// ties to even.
pub open spec fn f64_of(n: nat) -> nat {
    if bitlen(n) <= 53 {
        n
    } else {
        let u = pow2n((bitlen(n) - 53) as nat);
        round_half_even(n, u) * u
    }
}

/// Index into `B, KiB, MiB, GiB, TiB, PiB` for a value of at least 1024:
/// divide by 1024 while at least 1024, at most five times.
pub open spec fn size_unit(m: nat) -> nat {
    if m >= 0x4_0000_0000_0000 {
        5
    } else if m >= 0x100_0000_0000 {
        4
    } else if m >= 0x4000_0000 {
        3
    } else if m >= 0x10_0000 {
        2
    } else {
        1
    }
}

/// `1024^k`.
pub open spec fn unit_size(k: nat) -> nat {
    if k == 5 {
        0x4_0000_0000_0000
    } else if k == 4 {
        0x100_0000_0000
    } else if k == 3 {
        0x4000_0000
    } else if k == 2 {
        0x10_0000
    } else if k == 1 {
        0x400
    } else {
        1
    }
}

/// Name of each unit.
pub open spec fn unit_name(k: nat) -> Seq<char> {
    if k == 5 {
        "PiB"@
    } else if k == 4 {
        "TiB"@
    } else if k == 3 {
        "GiB"@
    } else if k == 2 {
        "MiB"@
    } else if k == 1 {
        "KiB"@
    } else {
        "B"@
    }
}

/// Decimal rendering of an integer, with a leading `-` when negative.
pub open spec fn int_decimal(n: int) -> Seq<char> {
    if n < 0 {
        seq!['-'] + decimal((-n) as nat)
    } else {
        decimal(n as nat)
    }
}

/// `format_bytes`: below 1024 the plain count and `B`; otherwise the size
/// as an `f64`, divided by 1024 while it is at least 1024 (up to PiB), with
/// one decimal, rounded to nearest with ties to even.
pub open spec fn spec_format_bytes(n: int) -> Seq<char> {
    if n < 1024 {
        int_decimal(n) + " B"@
    } else {
        let m = f64_of(n as nat);
        let k = size_unit(m);
        let t = round_half_even(10 * m, unit_size(k));
        decimal(t / 10) + seq!['.', digit_char(t % 10), ' '] + unit_name(k)
    }
}

proof fn lemma_bitlen_bounds(n: nat)
    requires
        n > 0,
    ensures
        pow2n((bitlen(n) - 1) as nat) <= n < pow2n(bitlen(n)),
    decreases n,
{
    if n >= 2 {
        let h = n / 2;
        lemma_bitlen_bounds(h);
        let b = bitlen(h);
        assert(bitlen(n) == 1 + b);
        assert(pow2n(b + 1) == 2 * pow2n(b));
        assert(b >= 1);
        assert(pow2n(b) == 2 * pow2n((b - 1) as nat));
    } else {
        assert(n == 1);
        assert(bitlen(1) == 1 + bitlen(0));
        assert(pow2n(1) == 2 * pow2n(0));
    }
}

proof fn lemma_pow2n_monotone(a: nat, b: nat)
    requires
        a <= b,
    ensures
        pow2n(a) <= pow2n(b),
        pow2n(a) >= 1,
    decreases b,
{
    if b > a {
        lemma_pow2n_monotone(a, (b - 1) as nat);
    } else if a > 0 {
        lemma_pow2n_monotone(0, (a - 1) as nat);
    }
}

/// `n as f64` as an integer, for `1024 <= n <= i64::MAX`.
fn f64_round(n: u64) -> (m: u128)
    requires
        1024 <= n <= i64::MAX,
    ensures
        m == f64_of(n as nat),
        m <= 0x8000_0000_0000_0000,
{
    proof {
        lemma_bitlen_bounds(n as nat);
        if bitlen(n as nat) > 63 {
            lemma_pow2n_monotone(63, (bitlen(n as nat) - 1) as nat);
            lemma_pow2n_values();
        }
    }
    let mut bl: u64 = 0;
    let mut x: u64 = n;
    while x > 0
        invariant
            bitlen(n as nat) == bl + bitlen(x as nat),
            bitlen(n as nat) <= 63,
        decreases x,
    {
        assert(bitlen(x as nat) == 1 + bitlen((x / 2) as nat));
        x = x / 2;
        bl = bl + 1;
    }
    if bl <= 53 {
        return n as u128;
    }
    let e = bl - 53;
    let mut u: u128 = 1;
    let mut i: u64 = 0;
    while i < e
        invariant
            i <= e <= 10,
            u == pow2n(i as nat),
            1 <= u <= 1024,
        decreases e - i,
    {
        proof {
            lemma_pow2n_monotone((i + 1) as nat, 10);
            lemma_pow2n_values();
        }
        u = u * 2;
        i = i + 1;
    }
    let nn = n as u128;
    let q = nn / u;
    let r = nn % u;
    let qr = if 2 * r > u || (2 * r == u && q % 2 == 1) {
        q + 1
    } else {
        q
    };
    proof {
        // n < 2^bl = 2^53 * u, so q < 2^53 and (q + 1) * u <= 2^63
        assert(pow2n(bl as nat) == pow2n(53) * u) by {
            lemma_pow2n_split(53, e as nat);
        }
        lemma_pow2n_values();
        assert(q < 0x20_0000_0000_0000) by (nonlinear_arith)
            requires
                q == nn / u,
                u >= 1,
                nn < 0x20_0000_0000_0000 * u,
        {
        }
        assert(qr * u <= 0x20_0000_0000_0000 * 1024) by (nonlinear_arith)
            requires
                qr <= 0x20_0000_0000_0000,
                u <= 1024,
        {
        }
        assert(qr * u <= 0x8000_0000_0000_0000) by {
            lemma_pow2n_values();
            lemma_pow2n_monotone(bl as nat, 63);
            assert(qr * u <= 0x20_0000_0000_0000 * u) by (nonlinear_arith)
                requires
                    qr <= 0x20_0000_0000_0000,
                    u >= 1,
            {
            }
        }
    }
    qr * u
}

proof fn lemma_pow2n_values()
    ensures
        pow2n(10) == 1024,
        pow2n(53) == 0x20_0000_0000_0000,
        pow2n(63) == 0x8000_0000_0000_0000,
{
    reveal_with_fuel(pow2n, 64);
}

proof fn lemma_pow2n_split(a: nat, b: nat)
    ensures
        pow2n(a + b) == pow2n(a) * pow2n(b),
    decreases b,
{
    if b > 0 {
        let b1 = (b - 1) as nat;
        lemma_pow2n_split(a, b1);
        let pa = pow2n(a);
        let pb1 = pow2n(b1);
        assert(pow2n(a + b1) == pa * pb1);
        assert(pow2n(a + b) == 2 * pow2n(a + b1));
        assert(pow2n(b) == 2 * pb1);
        assert(pa * (2 * pb1) == 2 * (pa * pb1)) by (nonlinear_arith);
    } else {
        assert(a + b == a);
        assert(pow2n(a) * 1 == pow2n(a));
    }
}

/// Human-readable byte size (1024-based, e.g. `1.5 MiB`).
pub fn format_bytes(n: i64) -> (s: String)
    ensures
        s@ == spec_format_bytes(n as int),
{
    let mut s = String::new();
    if n < 1024 {
        if n < 0 {
            push_char(&mut s, '-');
            let mag = (0i128 - (n as i128)) as u128;
            push_decimal(&mut s, mag);
        } else {
            push_decimal(&mut s, n as u128);
        }
        push_str(&mut s, " B");
        return s;
    }
    let m = f64_round(n as u64);
    let (k, den): (u64, u128) = if m >= 0x4_0000_0000_0000 {
        (5, 0x4_0000_0000_0000)
    } else if m >= 0x100_0000_0000 {
        (4, 0x100_0000_0000)
    } else if m >= 0x4000_0000 {
        (3, 0x4000_0000)
    } else if m >= 0x10_0000 {
        (2, 0x10_0000)
    } else {
        (1, 0x400)
    };
    let num = 10 * m;
    let q = num / den;
    let r = num % den;
    let t = if 2 * r > den || (2 * r == den && q % 2 == 1) {
        q + 1
    } else {
        q
    };
    push_decimal(&mut s, t / 10);
    push_char(&mut s, '.');
    push_char(&mut s, crate::text::digit_of(t % 10));
    push_char(&mut s, ' ');
    let unit = if k == 5 {
        "PiB"
    } else if k == 4 {
        "TiB"
    } else if k == 3 {
        "GiB"
    } else if k == 2 {
        "MiB"
    } else {
        "KiB"
    };
    push_str(&mut s, unit);
    assert(s@ =~= spec_format_bytes(n as int));
    s
}

// ------------------------------------------------------------ table cells

/// `items` joined with `sep`.
pub open spec fn joined(items: Seq<Seq<char>>, sep: Seq<char>) -> Seq<char>
    decreases items.len(),
{
    if items.len() == 0 {
        Seq::empty()
    } else if items.len() == 1 {
        items[0]
    } else {
        joined(items.drop_last(), sep) + sep + items.last()
    }
}

/// A label table's entries as `key=value`, in storage order.
pub open spec fn label_items(m: StrMap<String>) -> Seq<Seq<char>> {
    Seq::new(m.spec_len(), |i: int| m.key_seq()[i] + "="@ + m.val_seq()[i]@)
}

/// The labels as `key=value` items joined with `sep`.
pub fn labels_text(labels: &StrMap<String>, sep: &str) -> (r: String)
    ensures
        r@ == joined(label_items(*labels), sep@),
{
    labels.facts();
    let n = labels.len();
    let mut r = String::new();
    let mut i: usize = 0;
    proof {
        assert(label_items(*labels).take(0) =~= Seq::<Seq<char>>::empty());
    }
    while i < n
        invariant
            i <= n == labels.spec_len(),
            labels.val_seq().len() == n,
            r@ == joined(label_items(*labels).take(i as int), sep@),
        decreases n - i,
    {
        let (k, v) = labels.entry(i);
        let ghost items = label_items(*labels);
        proof {
            assert(items.take(i + 1).drop_last() =~= items.take(i as int));
            assert(items.take(i + 1).last() == k@ + "="@ + v@);
        }
        if i > 0 {
            push_str(&mut r, sep);
        }
        push_str(&mut r, k.as_str());
        push_str(&mut r, "=");
        push_str(&mut r, v.as_str());
        proof {
            if i == 0 {
                assert(items.take(0) =~= Seq::<Seq<char>>::empty());
                assert(joined(items.take(1), sep@) == items.take(1)[0]);
                assert(r@ =~= joined(items.take(i + 1), sep@));
            } else {
                assert(r@ =~= joined(items.take(i + 1), sep@));
            }
        }
        i += 1;
    }
    proof {
        assert(label_items(*labels).take(n as int) =~= label_items(*labels));
    }
    r
}

/// A digest cut to its first 32 characters, marked with `...`.
pub open spec fn spec_short_digest(d: Seq<char>) -> Seq<char> {
    if d.len() > 32 {
        d.take(32) + "..."@
    } else {
        d
    }
}

/// The digest as the list table shows it.
pub fn short_digest(d: &str) -> (r: String)
    ensures
        r@ == spec_short_digest(d@),
{
    let v = chars_of(d);
    if v.len() > 32 {
        let mut r = string_of(&v, 0, 32);
        push_str(&mut r, "...");
        r
    } else {
        string_of(&v, 0, v.len())
    }
}

/// `yes` or `no`.
pub open spec fn yes_no(b: bool) -> Seq<char> {
    if b {
        "yes"@
    } else {
        "no"@
    }
}

fn yes_no_text(b: bool) -> (r: String)
    ensures
        r@ == yes_no(b),
{
    String::from_str(if b { "yes" } else { "no" })
}

/// The cells of an artifact's row in the list table: repository, tag,
/// encrypted, version, size, digest (shortened) and labels.
pub fn artifact_row(a: &ArtifactInfo) -> (r: Vec<String>)
    ensures
        r@.len() == 7,
        r@[0]@ == a.repo@,
        r@[1]@ == a.tag@,
        r@[2]@ == yes_no(a.encrypted),
        r@[3]@ == a.version@,
        r@[4]@ == spec_format_bytes(a.size as int),
        r@[5]@ == spec_short_digest(a.digest@),
        r@[6]@ == joined(label_items(a.labels), ","@),
{
    let mut r: Vec<String> = Vec::new();
    r.push(a.repo.clone());
    r.push(a.tag.clone());
    r.push(yes_no_text(a.encrypted));
    r.push(a.version.clone());
    r.push(format_bytes(a.size));
    r.push(short_digest(a.digest.as_str()));
    r.push(labels_text(&a.labels, ","));
    r
}

/// The repository line above the list table: the first artifact's full
/// name without its `:tag` (the whole name when it has no `:`), empty
/// when there are no artifacts.
pub open spec fn spec_repo_display(artifacts: Seq<ArtifactView>) -> Seq<char> {
    if artifacts.len() == 0 {
        Seq::empty()
    } else {
        let n = artifacts[0].full_name;
        match rfind_char(n, ':') {
            Some(i) => n.take(i),
            None => n,
        }
    }
}

/// The repository a listing shows.
pub fn repo_display(artifacts: &Vec<ArtifactInfo>) -> (r: String)
    ensures
        r@ == spec_repo_display(artifact_views(artifacts@)),
{
    if artifacts.len() == 0 {
        return String::new();
    }
    let v = chars_of(artifacts[0].full_name.as_str());
    let hit = rfind_in(&v, ':', 0, v.len());
    proof {
        lemma_rfind_in_agrees(v@, ':', 0, v@.len() as int, match hit { Some(k) => Some(k as int), None => None });
        assert(v@.subrange(0, v@.len() as int) == v@);
    }
    match hit {
        Some(i) => string_of(&v, 0, i),
        None => string_of(&v, 0, v.len()),
    }
}

} // verus!
