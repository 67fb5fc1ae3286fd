//! Ordering and selection of intersection records.
//!
//! A world intersection collects every object's hit distances and arranges
//! them by ascending distance, ties broken by the order the records were
//! produced in; the visible hit is then the first record at or beyond the
//! ray's origin. The distances themselves are floating-point values held by
//! the caller, who maps each to an order-preserving unsigned key; everything
//! after that mapping — the arrangement and the selection — is exact and
//! proved here.

use vstd::prelude::*;
use vstd::seq_lib::group_to_multiset_ensures;

verus! {

/// One intersection record ready for ordering: the order key of its hit
/// distance and the position `tag` the record held in the unordered list.
/// Distinct records carry distinct tags, so the lexicographic order on
/// `(key, tag)` is strict and the arranged list is unique.
#[derive(Copy, Clone, Debug, PartialEq, Eq, Structural)]
pub struct HitKey {
    pub key: u64,
    pub tag: usize,
}

/// Lexicographic order on (distance key, list position): ascending distance,
/// ties broken by the order the records were produced in.
pub open spec fn hit_le(a: HitKey, b: HitKey) -> bool {
    a.key < b.key || (a.key == b.key && a.tag <= b.tag)
}

/// A hit list arranged by `hit_le`.
pub open spec fn sorted_hits(s: Seq<HitKey>) -> bool {
    forall|i: int, j: int| 0 <= i < j < s.len() ==> hit_le(s[i], s[j])
}

/// Executable form of `hit_le`.
pub fn hit_le_exec(a: &HitKey, b: &HitKey) -> (r: bool)
    ensures
        r == hit_le(*a, *b),
{
    a.key < b.key || (a.key == b.key && a.tag <= b.tag)
}

/// Arranges intersection records by ascending key, ties by tag. The result
/// holds exactly the input records (as a multiset) in `hit_le` order; with
/// distinct tags that order pins the arrangement completely.
pub fn sort_hits(v: &Vec<HitKey>) -> (r: Vec<HitKey>)
    ensures
        sorted_hits(r@),
        r@.to_multiset() == v@.to_multiset(),
        r@.len() == v@.len(),
{
    broadcast use group_to_multiset_ensures;

    let mut out: Vec<HitKey> = Vec::new();
    let mut idx: usize = 0;
    while idx < v.len()
        invariant
            idx <= v@.len(),
            sorted_hits(out@),
            out@.to_multiset() == v@.subrange(0, idx as int).to_multiset(),
            out@.len() == idx,
        decreases v@.len() - idx,
    {
        broadcast use group_to_multiset_ensures;

        let x = v[idx];
        let ghost pre = out@;
        let mut p: usize = 0;
        while p < out.len() && hit_le_exec(&out[p], &x)
            invariant
                pre == out@,
                p <= pre.len(),
                forall|q: int| 0 <= q < p ==> hit_le(pre[q], x),
            decreases pre.len() - p,
        {
            p = p + 1;
        }
        proof {
            assert(p == pre.len() || !hit_le(pre[p as int], x));
        }
        out.insert(p, x);
        proof {
            let pi = p as int;
            assert(out@ == pre.insert(pi, x));
            pre.insert_ensures(pi, x);
            vstd::seq_lib::to_multiset_insert(pre, pi, x);
            assert(v@.subrange(0, idx as int + 1) =~= v@.subrange(0, idx as int).push(x));
            assert(sorted_hits(out@)) by {
                assert forall|i: int, j: int| 0 <= i < j < out@.len() implies hit_le(
                    out@[i],
                    out@[j],
                ) by {
                    if j < pi {
                        assert(out@[i] == pre[i] && out@[j] == pre[j]);
                    } else if i < pi && j == pi {
                        assert(out@[i] == pre[i] && out@[j] == x);
                    } else if i == pi {
                        assert(out@[i] == x && out@[j] == pre[j - 1]);
                        assert(pi <= j - 1 < pre.len());
                        assert(!hit_le(pre[pi], x));
                        if pi < j - 1 {
                            assert(hit_le(pre[pi], pre[j - 1]));
                        }
                    } else if i < pi {
                        assert(out@[i] == pre[i] && out@[j] == pre[j - 1]);
                        assert(i < j - 1);
                    } else {
                        assert(out@[i] == pre[i - 1] && out@[j] == pre[j - 1]);
                    }
                }
            }
        }
        idx = idx + 1;
    }
    proof {
        assert(v@.subrange(0, v@.len() as int) =~= v@);
    }
    out
}

/// Determinism of the arrangement: any two `hit_le`-sorted lists holding the
/// same records are identical, element for element. Every run that collects
/// the same intersection records therefore presents them in the same order,
/// whatever procedure arranged them.
pub proof fn lemma_hit_order_unique(x: Seq<HitKey>, y: Seq<HitKey>)
    requires
        sorted_hits(x),
        sorted_hits(y),
        x.to_multiset() == y.to_multiset(),
    ensures
        x == y,
{
    let leq = |a: HitKey, b: HitKey| hit_le(a, b);
    assert(vstd::relations::total_ordering(leq)) by {
        assert forall|a: HitKey| #[trigger] leq(a, a) by {}
        assert forall|a: HitKey, b: HitKey| #[trigger] leq(a, b) && #[trigger] leq(b, a) implies a
            == b by {}
        assert forall|a: HitKey, b: HitKey, c: HitKey| #[trigger] leq(a, b) && #[trigger] leq(
            b,
            c,
        ) implies leq(a, c) by {}
        assert forall|a: HitKey, b: HitKey| #[trigger] leq(a, b) || #[trigger] leq(b, a) by {}
    }
    assert(vstd::relations::sorted_by(x, leq));
    assert(vstd::relations::sorted_by(y, leq));
    vstd::seq_lib::lemma_sorted_unique(x, y, leq);
    assert(x =~= y);
}

/// In an arranged list the record `first_at_least` selects is the nearest
/// eligible one: every later record lies at least as far away, so the visible
/// hit is the intersection of least distance at or beyond the ray's origin.
pub proof fn lemma_visible_hit_is_nearest(s: Seq<HitKey>, i: int, threshold: u64)
    requires
        sorted_hits(s),
        0 <= i < s.len(),
        s[i].key >= threshold,
        forall|j: int| 0 <= j < i ==> s[j].key < threshold,
    ensures
        forall|j: int| i <= j < s.len() ==> s[i].key <= (#[trigger] s[j]).key,
{
    assert forall|j: int| i <= j < s.len() implies s[i].key <= (#[trigger] s[j]).key by {
        if i < j {
            assert(hit_le(s[i], s[j]));
        }
    }
}

/// The visible hit in an arranged list: the first record whose key is at or
/// beyond `threshold` (the key of distance zero). Records before it are all
/// strictly closer than the threshold; `None` means every record is.
pub fn first_at_least(v: &Vec<HitKey>, threshold: u64) -> (r: Option<usize>)
    ensures
        match r {
            Some(i) => i < v@.len() && v@[i as int].key >= threshold && forall|j: int|
                0 <= j < i ==> v@[j].key < threshold,
            None => forall|j: int| 0 <= j < v@.len() ==> v@[j].key < threshold,
        },
{
    let mut i: usize = 0;
    while i < v.len()
        invariant
            i <= v@.len(),
            forall|j: int| 0 <= j < i ==> v@[j].key < threshold,
        decreases v@.len() - i,
    {
        if v[i].key >= threshold {
            return Some(i);
        }
        i = i + 1;
    }
    None
}

} // verus!
