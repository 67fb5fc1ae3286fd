//! The scene-graph skeleton: groups of objects under composed transforms.
//!
//! A scene is a tree: leaves are objects, inner nodes are groups, and every
//! group carries its own transform parameters. Intersecting a group re-expresses
//! each child hit in the parent's space by composing the child's transform
//! parameters with the group's, innermost group first, as the recursion
//! returns. Which parameter lists are composed, and in what order, is decided
//! by the tree alone: each leaf's hits receive the parameters of its ancestor
//! groups from the nearest ancestor outward. That flattening is proved here
//! over a skeleton whose leaves and groups are identified by the caller's
//! keys; the parameter arithmetic on each chain is the caller's
//! floating-point work. Trees are built strictly top-down by value, so no
//! node can become its own descendant.

use vstd::prelude::*;

verus! {

/// Every node stores its transform as fifteen components, in this order:
/// three translations, three scales, three rotations and six shears, and the
/// transform matrix is rebuilt from them in a fixed composition order on
/// every mutation.
pub const TRANSFORM_COMPONENTS: usize = 15;

/// How a parent's transform component composes onto a child's when a group
/// is flattened onto its members: translations, rotations and shears add,
/// while the three scale components (slots three to five) multiply.
pub fn component_composes_additively(slot: usize) -> (r: bool)
    requires
        slot < TRANSFORM_COMPONENTS,
    ensures
        r == (slot <= 2 || slot >= 6),
{
    slot <= 2 || slot >= 6
}

/// A scene-graph node: an object leaf or a group of children, each
/// identified by a caller-chosen key.
#[derive(Debug)]
pub enum Node {
    Leaf(u64),
    Group(u64, Vec<Node>),
}

/// The leaves under `node` in depth-first order, each with the keys of its
/// ancestor groups, nearest ancestor first — the order in which a hit on
/// that leaf has transform parameters composed onto it.
pub open spec fn leaf_paths(node: Node) -> Seq<(u64, Seq<u64>)>
    decreases node,
{
    match node {
        Node::Leaf(id) => seq![(id, Seq::<u64>::empty())],
        Node::Group(gid, children) => group_leaf_paths(children@, gid),
    }
}

/// The leaves under a group's children, each path extended with the group's
/// own key (appended last: the group is entered outermost).
pub open spec fn group_leaf_paths(children: Seq<Node>, gid: u64) -> Seq<(u64, Seq<u64>)>
    decreases children,
{
    if children.len() == 0 {
        Seq::empty()
    } else {
        tag_with(leaf_paths(children[0]), gid) + group_leaf_paths(
            children.subrange(1, children.len() as int),
            gid,
        )
    }
}

/// Appends one ancestor key to every path.
pub open spec fn tag_with(paths: Seq<(u64, Seq<u64>)>, gid: u64) -> Seq<(u64, Seq<u64>)> {
    paths.map_values(|p: (u64, Seq<u64>)| (p.0, p.1.push(gid)))
}

/// The mathematical view of a collected path list.
pub open spec fn paths_view(paths: Seq<(u64, Vec<u64>)>) -> Seq<(u64, Seq<u64>)> {
    paths.map_values(|p: (u64, Vec<u64>)| (p.0, p.1@))
}

/// Flattens the scene tree: every leaf under `node`, in depth-first order,
/// with its chain of ancestor group keys, nearest first. A caller composes
/// each leaf's transform parameters along its chain to obtain the effective
/// world transform of every hit on that leaf.
pub fn collect_leaf_paths(node: &Node) -> (r: Vec<(u64, Vec<u64>)>)
    ensures
        paths_view(r@) == leaf_paths(*node),
    decreases *node,
{
    match node {
        Node::Leaf(id) => {
            let mut r: Vec<(u64, Vec<u64>)> = Vec::new();
            r.push((*id, Vec::new()));
            proof {
                assert(paths_view(r@) =~= leaf_paths(*node));
            }
            r
        },
        Node::Group(gid, children) => {
            let mut out: Vec<(u64, Vec<u64>)> = Vec::new();
            let mut k: usize = 0;
            proof {
                assert(paths_view(out@) =~= group_leaf_paths(children@.subrange(0, 0), *gid));
            }
            while k < children.len()
                invariant
                    k <= children@.len(),
                    *node == Node::Group(*gid, *children),
                    paths_view(out@) == group_leaf_paths(children@.subrange(0, k as int), *gid),
                decreases children@.len() - k,
            {
                proof {
                    assert(decreases_to!(*node => node->Group_1));
                    assert(decreases_to!(node->Group_1 => node->Group_1@));
                    assert(decreases_to!(node->Group_1@ => node->Group_1@[k as int]));
                    assert(node->Group_1@[k as int] == children@[k as int]);
                    assert(decreases_to!(*node => children@[k as int]));
                }
                let mut sub = collect_leaf_paths(&children[k]);
                let ghost sub_paths = leaf_paths(children@[k as int]);
                let ghost done = group_leaf_paths(children@.subrange(0, k as int), *gid);
                let mut m: usize = 0;
                proof {
                    assert(paths_view(out@) =~= done + tag_with(sub_paths, *gid).subrange(0, 0));
                }
                while m < sub.len()
                    invariant
                        m <= sub@.len(),
                        paths_view(sub@) == sub_paths,
                        paths_view(out@) == done + tag_with(sub_paths, *gid).subrange(
                            0,
                            m as int,
                        ),
                    decreases sub@.len() - m,
                {
                    let entry = &sub[m];
                    let id = entry.0;
                    let mut path: Vec<u64> = Vec::new();
                    let mut q: usize = 0;
                    while q < entry.1.len()
                        invariant
                            q <= entry.1@.len(),
                            path@ == entry.1@.subrange(0, q as int),
                            entry == sub[m as int],
                            m < sub@.len(),
                        decreases entry.1@.len() - q,
                    {
                        let x = entry.1[q];
                        path.push(x);
                        proof {
                            assert(entry.1@.subrange(0, q as int).push(entry.1@[q as int])
                                =~= entry.1@.subrange(0, q as int + 1));
                        }
                        q = q + 1;
                    }
                    proof {
                        assert(entry.1@.subrange(0, entry.1@.len() as int) =~= entry.1@);
                    }
                    path.push(*gid);
                    let ghost pre = out@;
                    out.push((id, path));
                    proof {
                        let tagged = tag_with(sub_paths, *gid);
                        assert(sub_paths[m as int] == (sub@[m as int].0, sub@[m as int].1@));
                        assert(tagged[m as int] == (sub@[m as int].0, sub@[m as int].1@.push(
                            *gid,
                        )));
                        assert(paths_view(out@) =~= paths_view(pre).push(
                            (sub@[m as int].0, sub@[m as int].1@.push(*gid)),
                        ));
                        assert(tagged.subrange(0, m as int).push(tagged[m as int])
                            =~= tagged.subrange(0, m as int + 1));
                        assert((done + tagged.subrange(0, m as int)).push(tagged[m as int]) =~= done
                            + tagged.subrange(0, m as int + 1));
                    }
                    m = m + 1;
                }
                proof {
                    let tagged = tag_with(sub_paths, *gid);
                    assert(tagged.subrange(0, tagged.len() as int) =~= tagged);
                    lemma_group_paths_snoc(children@, *gid, k as int);
                }
                k = k + 1;
            }
            proof {
                assert(children@.subrange(0, children@.len() as int) =~= children@);
            }
            out
        },
    }
}

/// Extending a child list extends its flattened leaves at the end.
proof fn lemma_group_paths_push(s: Seq<Node>, x: Node, gid: u64)
    ensures
        group_leaf_paths(s.push(x), gid) == group_leaf_paths(s, gid) + tag_with(
            leaf_paths(x),
            gid,
        ),
    decreases s.len(),
{
    if s.len() == 0 {
        assert(s.push(x)[0] == x);
        assert(s.push(x).subrange(1, s.push(x).len() as int) =~= Seq::<Node>::empty());
        assert(group_leaf_paths(s.push(x).subrange(1, s.push(x).len() as int), gid) =~= Seq::<(
            u64,
            Seq<u64>,
        )>::empty());
        assert(group_leaf_paths(s, gid) =~= Seq::<(u64, Seq<u64>)>::empty());
        assert(group_leaf_paths(s.push(x), gid) =~= group_leaf_paths(s, gid) + tag_with(
            leaf_paths(x),
            gid,
        ));
    } else {
        let rest = s.subrange(1, s.len() as int);
        lemma_group_paths_push(rest, x, gid);
        assert(s.push(x)[0] == s[0]);
        assert(s.push(x).subrange(1, s.push(x).len() as int) =~= rest.push(x));
        assert(group_leaf_paths(s.push(x), gid) == tag_with(leaf_paths(s[0]), gid)
            + group_leaf_paths(rest.push(x), gid));
        assert(group_leaf_paths(s, gid) == tag_with(leaf_paths(s[0]), gid) + group_leaf_paths(
            rest,
            gid,
        ));
        assert(tag_with(leaf_paths(s[0]), gid) + (group_leaf_paths(rest, gid) + tag_with(
            leaf_paths(x),
            gid,
        )) =~= (tag_with(leaf_paths(s[0]), gid) + group_leaf_paths(rest, gid)) + tag_with(
            leaf_paths(x),
            gid,
        ));
    }
}

/// One more child in a prefix adds that child's tagged leaves at the end.
proof fn lemma_group_paths_snoc(s: Seq<Node>, gid: u64, k: int)
    requires
        0 <= k < s.len(),
    ensures
        group_leaf_paths(s.subrange(0, k + 1), gid) == group_leaf_paths(s.subrange(0, k), gid)
            + tag_with(leaf_paths(s[k]), gid),
{
    assert(s.subrange(0, k + 1) =~= s.subrange(0, k).push(s[k]));
    lemma_group_paths_push(s.subrange(0, k), s[k], gid);
}

} // verus!
