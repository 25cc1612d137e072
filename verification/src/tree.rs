//! The shape of a frame tree: each child frame names one parent, walks
//! follow parents upward, and a ranking of the frames shows that no walk
//! returns to where it started.

use vstd::prelude::*;

verus! {

/// Each child frame with its parent frame and whether the edge is static.
pub type Edges = Map<Seq<char>, (Seq<char>, bool)>;

/// The frame reached from `frame` after `n` steps to a parent, if the walk
/// gets that far.
pub open spec fn ancestor_at(edges: Edges, frame: Seq<char>, n: nat) -> Option<Seq<char>>
    decreases n,
{
    if n == 0 {
        Some(frame)
    } else {
        match ancestor_at(edges, frame, (n - 1) as nat) {
            Some(below) => if edges.contains_key(below) {
                Some(edges[below].0)
            } else {
                None
            },
            None => None,
        }
    }
}

/// Whether `ancestor` is `frame` or lies above it.
pub open spec fn is_ancestor(edges: Edges, ancestor: Seq<char>, frame: Seq<char>) -> bool {
    exists|n: nat| #[trigger] ancestor_at(edges, frame, n) == Some(ancestor)
}

/// Whether two frames share an ancestor, that is, lie in one tree.
pub open spec fn connected(edges: Edges, a: Seq<char>, b: Seq<char>) -> bool {
    exists|root: Seq<char>| #[trigger] is_ancestor(edges, root, a) && is_ancestor(edges, root, b)
}

/// Whether the edge of `child` lies on the path between `a` and `b`: its
/// child frame is an ancestor of exactly one of them.
pub open spec fn on_path(edges: Edges, child: Seq<char>, a: Seq<char>, b: Seq<char>) -> bool {
    edges.contains_key(child) && is_ancestor(edges, child, a) != is_ancestor(edges, child, b)
}

/// A ranking under which every child ranks above its parent.
pub open spec fn ranked(edges: Edges, rank: spec_fn(Seq<char>) -> nat) -> bool {
    forall|child: Seq<char>| #[trigger]
        edges.contains_key(child) ==> rank(child) > rank(edges[child].0)
}

/// No walk to parents comes back to a frame it left.
pub open spec fn acyclic(edges: Edges) -> bool {
    exists|rank: spec_fn(Seq<char>) -> nat| ranked(edges, rank)
}

/// One step from a child frame, then `n` more, is `n + 1` steps.
pub proof fn lemma_ancestor_step(edges: Edges, frame: Seq<char>, n: nat)
    requires
        edges.contains_key(frame),
    ensures
        ancestor_at(edges, frame, n + 1) == ancestor_at(edges, edges[frame].0, n),
    decreases n,
{
    assert(ancestor_at(edges, frame, 0) == Some(frame));
    if n > 0 {
        lemma_ancestor_step(edges, frame, (n - 1) as nat);
        assert(ancestor_at(edges, frame, n) == ancestor_at(edges, edges[frame].0, (n - 1) as nat));
    }
}

/// Walking up never raises the rank.
pub proof fn lemma_rank_decreases(
    edges: Edges,
    rank: spec_fn(Seq<char>) -> nat,
    frame: Seq<char>,
    n: nat,
)
    requires
        ranked(edges, rank),
        ancestor_at(edges, frame, n) is Some,
    ensures
        rank(ancestor_at(edges, frame, n)->0) + n <= rank(frame),
    decreases n,
{
    if n > 0 {
        lemma_rank_decreases(edges, rank, frame, (n - 1) as nat);
        let below = ancestor_at(edges, frame, (n - 1) as nat)->0;
        assert(edges.contains_key(below));
    }
}

/// A frame that is no child has no ancestor but itself.
pub proof fn lemma_root_has_no_ancestor(edges: Edges, frame: Seq<char>, n: nat)
    requires
        !edges.contains_key(frame),
        n > 0,
    ensures
        ancestor_at(edges, frame, n) is None,
    decreases n,
{
    assert(ancestor_at(edges, frame, 0) == Some(frame));
    if n > 1 {
        lemma_root_has_no_ancestor(edges, frame, (n - 1) as nat);
    }
}

/// A walk in a part of the edges is a walk in all of them.
pub proof fn lemma_walk_in_submap(part: Edges, whole: Edges, frame: Seq<char>, n: nat)
    requires
        part.submap_of(whole),
        ancestor_at(part, frame, n) is Some,
    ensures
        ancestor_at(whole, frame, n) == ancestor_at(part, frame, n),
    decreases n,
{
    if n > 0 {
        lemma_walk_in_submap(part, whole, frame, (n - 1) as nat);
        let below = ancestor_at(part, frame, (n - 1) as nat)->0;
        assert(part.contains_key(below));
    }
}

/// A child is never an ancestor of its own parent.
pub proof fn lemma_child_not_above_parent(edges: Edges, child: Seq<char>)
    requires
        acyclic(edges),
        edges.contains_key(child),
    ensures
        !is_ancestor(edges, child, edges[child].0),
{
    let rank = choose|rank: spec_fn(Seq<char>) -> nat| ranked(edges, rank);
    if is_ancestor(edges, child, edges[child].0) {
        let n = choose|n: nat| #[trigger] ancestor_at(edges, edges[child].0, n) == Some(child);
        lemma_rank_decreases(edges, rank, edges[child].0, n);
    }
}

/// Adding the edge `child -> parent`, for a child that has no edge and is
/// no ancestor of `parent`, keeps the tree free of cycles.
pub proof fn lemma_insert_keeps_acyclic(edges: Edges, child: Seq<char>, parent: Seq<char>, kind: bool)
    requires
        acyclic(edges),
        !edges.contains_key(child),
        !is_ancestor(edges, child, parent),
    ensures
        acyclic(edges.insert(child, (parent, kind))),
{
    let rank = choose|rank: spec_fn(Seq<char>) -> nat| ranked(edges, rank);
    let lifted = |x: Seq<char>|
        if is_ancestor(edges, child, x) {
            rank(x) + rank(parent) + 1
        } else {
            rank(x)
        };
    let grown = edges.insert(child, (parent, kind));
    assert forall|x: Seq<char>| #[trigger] grown.contains_key(x) implies lifted(x) > lifted(
        grown[x].0,
    ) by {
        if x != child {
            let y = edges[x].0;
            assert(rank(x) > rank(y));
            if is_ancestor(edges, child, y) {
                let n = choose|n: nat| #[trigger] ancestor_at(edges, y, n) == Some(child);
                lemma_ancestor_step(edges, x, n);
                assert(ancestor_at(edges, x, n + 1) == Some(child));
            }
            if is_ancestor(edges, child, x) && !is_ancestor(edges, child, y) {
                let n = choose|n: nat| #[trigger] ancestor_at(edges, x, n) == Some(child);
                if n > 0 {
                    lemma_ancestor_step(edges, x, (n - 1) as nat);
                    assert(ancestor_at(edges, y, (n - 1) as nat) == Some(child));
                }
            }
        } else {
            assert(ancestor_at(edges, child, 0) == Some(child));
        }
    }
    assert(ranked(grown, lifted));
}

/// Dropping edges keeps a tree free of cycles.
pub proof fn lemma_submap_keeps_acyclic(part: Edges, whole: Edges)
    requires
        acyclic(whole),
        part.submap_of(whole),
    ensures
        acyclic(part),
{
    let rank = choose|rank: spec_fn(Seq<char>) -> nat| ranked(whole, rank);
    assert forall|child: Seq<char>| #[trigger] part.contains_key(child) implies rank(child) > rank(
        part[child].0,
    ) by {
        assert(part.submap_of(whole));
        assert(part.dom().contains(child));
        assert(whole.dom().contains(child));
        assert(part[child] == whole[child]);
    }
    assert(ranked(part, rank));
}

/// Frames with no edge between them and no common ancestor: after the edge
/// `child -> parent` is dropped from an acyclic tree, and `child` keeps no
/// edge, `child` and `parent` lie in different trees.
pub proof fn lemma_dropped_edge_disconnects(part: Edges, whole: Edges, child: Seq<char>)
    requires
        acyclic(whole),
        part.submap_of(whole),
        whole.contains_key(child),
        !part.contains_key(child),
    ensures
        !connected(part, whole[child].0, child),
{
    let parent = whole[child].0;
    if connected(part, parent, child) {
        let root = choose|root: Seq<char>|
            #[trigger] is_ancestor(part, root, parent) && is_ancestor(part, root, child);
        let m = choose|m: nat| #[trigger] ancestor_at(part, child, m) == Some(root);
        if m > 0 {
            lemma_root_has_no_ancestor(part, child, m);
        }
        let n = choose|n: nat| #[trigger] ancestor_at(part, parent, n) == Some(child);
        lemma_walk_in_submap(part, whole, parent, n);
        lemma_child_not_above_parent(whole, child);
    }
}

} // verus!
