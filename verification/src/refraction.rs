//! The nested-medium bookkeeping of refraction.
//!
//! When a ray crosses a surface, Snell's law needs the refractive indices of
//! the medium being left (n1) and the medium being entered (n2). With
//! transparent solids nested inside one another, those media are found by
//! replaying the ray's full distance-ordered intersection list and keeping a
//! stack of the objects the ray is currently inside: meeting an object not on
//! the stack enters it, meeting one already on the stack leaves it (the first
//! matching entry is removed). The medium on either side of a boundary is the
//! object on top of the stack just before and just after the boundary's own
//! record is replayed; an empty stack is the surrounding vacuum.
//!
//! Objects are identified here by an exact key: the caller gives records that
//! compare equal the same key, so the replay is integer bookkeeping and is
//! proved in full. Mapping the returned keys to their refractive indices is
//! the caller's lookup.

use vstd::prelude::*;

verus! {

/// `s` without its first occurrence of `x` (unchanged if `x` is absent).
pub open spec fn remove_first(s: Seq<u64>, x: u64) -> Seq<u64>
    decreases s.len(),
{
    if s.len() == 0 {
        s
    } else if s[0] == x {
        s.drop_first()
    } else {
        seq![s[0]] + remove_first(s.drop_first(), x)
    }
}

/// The container stack after replaying the first `k` records of `objs`:
/// a record of an object on the stack removes its first entry (the ray
/// leaves it), any other record pushes its object (the ray enters it).
pub open spec fn containers_after(objs: Seq<u64>, k: int) -> Seq<u64>
    decreases k,
{
    if k <= 0 {
        Seq::empty()
    } else {
        let prev = containers_after(objs, k - 1);
        let x = objs[k - 1];
        if prev.contains(x) {
            remove_first(prev, x)
        } else {
            prev.push(x)
        }
    }
}

/// The medium the ray is in after the first `k` records: the innermost
/// object still entered, or `None` for the surrounding vacuum.
pub open spec fn medium_after(objs: Seq<u64>, k: int) -> Option<u64> {
    let c = containers_after(objs, k);
    if c.len() == 0 {
        None
    } else {
        Some(c.last())
    }
}

/// The media on the two sides of the boundary whose record stands at `hit`
/// in the distance-ordered list `objs` of object keys: the medium being left
/// and the medium being entered. `None` is the surrounding vacuum; the
/// caller looks the keys up to obtain n1 and n2.
pub fn refraction_boundary(objs: &Vec<u64>, hit: usize) -> (r: (Option<u64>, Option<u64>))
    requires
        hit < objs@.len(),
    ensures
        r.0 == medium_after(objs@, hit as int),
        r.1 == medium_after(objs@, hit as int + 1),
{
    let mut stack: Vec<u64> = Vec::new();
    let mut k: usize = 0;
    while k < hit
        invariant
            k <= hit,
            hit < objs@.len(),
            stack@ == containers_after(objs@, k as int),
        decreases hit - k,
    {
        replay_one(&mut stack, objs[k]);
        proof {
            assert(stack@ == containers_after(objs@, k as int + 1));
        }
        k = k + 1;
    }
    let n1 = top_of(&stack);
    replay_one(&mut stack, objs[hit]);
    let n2 = top_of(&stack);
    (n1, n2)
}

/// The innermost entered object, or `None` outside every object.
fn top_of(stack: &Vec<u64>) -> (r: Option<u64>)
    ensures
        r == (if stack@.len() == 0 {
            Option::<u64>::None
        } else {
            Option::<u64>::Some(stack@.last())
        }),
{
    if stack.len() == 0 {
        None
    } else {
        Some(stack[stack.len() - 1])
    }
}

/// Replays one record: leaves `x` if the ray is inside it, enters it
/// otherwise.
fn replay_one(stack: &mut Vec<u64>, x: u64) -> (found: bool)
    ensures
        found == old(stack)@.contains(x),
        final(stack)@ == (if old(stack)@.contains(x) {
            remove_first(old(stack)@, x)
        } else {
            old(stack)@.push(x)
        }),
{
    let ghost pre = stack@;
    let mut i: usize = 0;
    while i < stack.len()
        invariant
            pre == old(stack)@,
            stack@ == pre,
            i <= pre.len(),
            forall|q: int| 0 <= q < i ==> pre[q] != x,
        decreases pre.len() - i,
    {
        if stack[i] == x {
            proof {
                assert(pre[i as int] == x);
                assert(pre.contains(x));
                lemma_remove_first_at(pre, x, i as int);
            }
            stack.remove(i);
            return true;
        }
        i = i + 1;
    }
    proof {
        assert forall|q: int| 0 <= q < pre.len() implies pre[q] != x by {}
        assert(!pre.contains(x));
    }
    stack.push(x);
    false
}

/// How often `x` occurs among the first records of a list.
pub open spec fn occurrences(s: Seq<u64>, x: u64) -> nat
    decreases s.len(),
{
    if s.len() == 0 {
        0
    } else {
        occurrences(s.drop_last(), x) + (if s.last() == x {
            1nat
        } else {
            0nat
        })
    }
}

/// No key occurs twice.
pub open spec fn all_distinct(s: Seq<u64>) -> bool {
    forall|i: int, j: int| 0 <= i < j < s.len() ==> s[i] != s[j]
}

/// The container stack never holds an object twice, and it holds exactly the
/// objects whose surfaces were crossed an odd number of times: each record of
/// an object toggles the ray between outside and inside it.
pub proof fn lemma_containers_membership(objs: Seq<u64>, k: int)
    requires
        0 <= k <= objs.len(),
    ensures
        all_distinct(containers_after(objs, k)),
        forall|x: u64|
            containers_after(objs, k).contains(x) <==> occurrences(objs.subrange(0, k), x) % 2
                == 1,
    decreases k,
{
    if k == 0 {
        assert(containers_after(objs, 0) =~= Seq::<u64>::empty());
        assert forall|x: u64|
            containers_after(objs, k).contains(x) <==> occurrences(objs.subrange(0, k), x) % 2
                == 1 by {
            assert(objs.subrange(0, 0) =~= Seq::<u64>::empty());
            assert(occurrences(objs.subrange(0, 0), x) == 0);
            assert(!containers_after(objs, 0).contains(x));
        }
    } else {
        lemma_containers_membership(objs, k - 1);
        let prev = containers_after(objs, k - 1);
        let x = objs[k - 1];
        let cur = containers_after(objs, k);
        assert forall|y: u64| #[trigger] occurrences(objs.subrange(0, k), y) == occurrences(
            objs.subrange(0, k - 1),
            y,
        ) + (if y == x {
            1nat
        } else {
            0nat
        }) by {
            assert(objs.subrange(0, k).drop_last() =~= objs.subrange(0, k - 1));
            assert(objs.subrange(0, k).last() == x);
        }
        if prev.contains(x) {
            let first = first_index_of(prev, x);
            lemma_first_index_of(prev, x);
            lemma_remove_first_at(prev, x, first);
            assert(cur == prev.remove(first));
            prev.remove_ensures(first);
            assert forall|y: u64| cur.contains(y) <==> (prev.contains(y) && y != x) by {
                lemma_remove_contains(prev, first, y);
            }
            assert(all_distinct(cur)) by {
                assert forall|a: int, b: int| 0 <= a < b < cur.len() implies cur[a] != cur[b] by {
                    assert(cur[a] == (if a < first {
                        prev[a]
                    } else {
                        prev[a + 1]
                    }));
                    assert(cur[b] == (if b < first {
                        prev[b]
                    } else {
                        prev[b + 1]
                    }));
                }
            }
        } else {
            assert(cur == prev.push(x));
            assert forall|y: u64| cur.contains(y) <==> (prev.contains(y) || y == x) by {
                if cur.contains(y) {
                    let i = choose|i: int| 0 <= i < cur.len() && cur[i] == y;
                    if i < prev.len() {
                        assert(prev[i] == y);
                    }
                } else {
                }
                if prev.contains(y) {
                    let i = choose|i: int| 0 <= i < prev.len() && prev[i] == y;
                    assert(cur[i] == y);
                }
                if y == x {
                    assert(cur[prev.len() as int] == x);
                }
            }
            assert(all_distinct(cur)) by {
                assert forall|a: int, b: int| 0 <= a < b < cur.len() implies cur[a] != cur[b] by {
                    if b < prev.len() {
                    } else {
                        assert(cur[b] == x);
                        assert(cur[a] == prev[a]);
                        assert(prev.contains(prev[a]));
                    }
                }
            }
        }
    }
}

/// A ray that leaves every solid it entered — every object's surface crossed
/// an even number of times — ends in the surrounding vacuum.
pub proof fn lemma_balanced_traversal_ends_outside(objs: Seq<u64>)
    requires
        forall|x: u64| #[trigger] occurrences(objs, x) % 2 == 0,
    ensures
        medium_after(objs, objs.len() as int) is None,
{
    lemma_containers_membership(objs, objs.len() as int);
    let c = containers_after(objs, objs.len() as int);
    assert(objs.subrange(0, objs.len() as int) =~= objs);
    if c.len() > 0 {
        assert(c.contains(c.last()));
        assert(occurrences(objs, c.last()) % 2 == 1);
    }
}

/// The first index at which `x` stands in `s`.
spec fn first_index_of(s: Seq<u64>, x: u64) -> int
    decreases s.len(),
{
    if s.len() == 0 {
        0
    } else if s[0] == x {
        0
    } else {
        1 + first_index_of(s.drop_first(), x)
    }
}

/// For a present key, `first_index_of` finds its earliest position.
proof fn lemma_first_index_of(s: Seq<u64>, x: u64)
    requires
        s.contains(x),
    ensures
        0 <= first_index_of(s, x) < s.len(),
        s[first_index_of(s, x)] == x,
        forall|q: int| 0 <= q < first_index_of(s, x) ==> s[q] != x,
    decreases s.len(),
{
    if s[0] == x {
    } else {
        assert(s.drop_first().contains(x)) by {
            let i = choose|i: int| 0 <= i < s.len() && s[i] == x;
            assert(s.drop_first()[i - 1] == x);
        }
        lemma_first_index_of(s.drop_first(), x);
        assert forall|q: int| 0 <= q < first_index_of(s, x) implies s[q] != x by {
            if q > 0 {
                assert(s[q] == s.drop_first()[q - 1]);
            }
        }
    }
}

/// What removal at one index leaves: every other key's presence is kept, and
/// with distinct keys the removed one is gone.
proof fn lemma_remove_contains(s: Seq<u64>, i: int, y: u64)
    requires
        0 <= i < s.len(),
        all_distinct(s),
    ensures
        s.remove(i).contains(y) <==> (s.contains(y) && y != s[i]),
{
    s.remove_ensures(i);
    let r = s.remove(i);
    if r.contains(y) {
        let q = choose|q: int| 0 <= q < r.len() && r[q] == y;
        if q < i {
            assert(s[q] == y);
        } else {
            assert(s[q + 1] == y);
        }
    }
    if s.contains(y) && y != s[i] {
        let q = choose|q: int| 0 <= q < s.len() && s[q] == y;
        if q < i {
            assert(r[q] == y);
        } else {
            assert(q != i);
            assert(r[q - 1] == y);
        }
    }
}

/// Removing the first occurrence of `x` is removal at its first index.
proof fn lemma_remove_first_at(s: Seq<u64>, x: u64, i: int)
    requires
        0 <= i < s.len(),
        s[i] == x,
        forall|q: int| 0 <= q < i ==> s[q] != x,
    ensures
        remove_first(s, x) == s.remove(i),
    decreases i,
{
    if i == 0 {
        assert(remove_first(s, x) == s.drop_first());
        assert(s.drop_first() =~= s.remove(0));
    } else {
        lemma_remove_first_at(s.drop_first(), x, i - 1);
        assert(remove_first(s, x) == seq![s[0]] + remove_first(s.drop_first(), x));
        assert(seq![s[0]] + s.drop_first().remove(i - 1) =~= s.remove(i));
    }
}

} // verus!
