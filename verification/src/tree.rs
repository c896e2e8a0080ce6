//! The routing tree: every known node and its parent, rooted at this
//! device, with reparent-on-upsert and next-hop lookup.
//!
//! The tree is kept as a list of edges in topological order: a node's
//! parent always stands earlier in the list (the root stands in no list
//! entry at all). Relocating a subtree moves its edges, in order, to the
//! end of the list; a subtree that loses its anchor is dropped from the
//! list but keeps its arena slots, counted by `spec_leaked`.

use vstd::prelude::*;

use crate::error::TreeError;
use crate::node::{broadcast_node, Node};

verus! {

/// Capacity of the leaf arena, the root included.
pub const MAX_LEAFS: usize = 32;

/// Most children one leaf can hold.
pub const MAX_CHILD_LEAFS: usize = 8;

/// One attached foreign leaf: the node and its parent, `None` meaning the
/// root.
#[derive(Clone, Copy, Debug)]
pub struct Edge {
    pub node: Node,
    pub parent: Option<Node>,
}

/// Whether some edge of `s` carries node `n`.
pub open spec fn contains_node(s: Seq<Edge>, n: Node) -> bool {
    exists|i: int| 0 <= i < s.len() && s[i].node == n
}

/// The index of the edge carrying `n`.
pub open spec fn idx_of(s: Seq<Edge>, n: Node) -> int {
    choose|i: int| 0 <= i < s.len() && s[i].node == n
}

/// Edges stand in topological order: a parent stands earlier in the list.
pub open spec fn topo_ok(s: Seq<Edge>) -> bool {
    forall|i: int|
        0 <= i < s.len() ==> ((#[trigger] s[i].parent) matches Some(p) ==> exists|j: int|
            0 <= j < i && s[j].node == p)
}

/// No node appears on two edges.
pub open spec fn nodes_distinct(s: Seq<Edge>) -> bool {
    forall|i: int, j: int| 0 <= i < j < s.len() ==> s[i].node != s[j].node
}

/// A well-formed edge list for a tree whose root is `own`: topological
/// order, distinct nodes, and neither the root's own identifier nor the
/// broadcast address on any edge.
pub open spec fn edges_wf(s: Seq<Edge>, own: Node) -> bool {
    &&& topo_ok(s)
    &&& nodes_distinct(s)
    &&& forall|i: int| 0 <= i < s.len() ==> (#[trigger] s[i].node) != own
    &&& forall|i: int| 0 <= i < s.len() ==> (#[trigger] s[i].node) != broadcast_node()
}

/// How many edges of the first `k` have parent `po`.
pub open spec fn child_count_upto(s: Seq<Edge>, po: Option<Node>, k: int) -> int
    decreases k,
{
    if k <= 0 {
        0
    } else {
        child_count_upto(s, po, k - 1) + if s[k - 1].parent == po {
            1int
        } else {
            0int
        }
    }
}

/// How many edges of `s` have parent `po`.
pub open spec fn child_count(s: Seq<Edge>, po: Option<Node>) -> int {
    child_count_upto(s, po, s.len() as int)
}

/// Whether a new child can be attached under `po`: the parent exists (the
/// root always does) and its child list is not full.
pub open spec fn parent_ok(s: Seq<Edge>, po: Option<Node>) -> bool {
    &&& (po matches Some(p) ==> contains_node(s, p))
    &&& child_count(s, po) < MAX_CHILD_LEAFS
}

/// Depth of the node on edge `i`, counting the root as 1: a child of the
/// root has depth 2.
pub open spec fn depth_of(s: Seq<Edge>, i: int) -> int
    decreases i,
{
    if !(0 <= i < s.len()) {
        1
    } else {
        match s[i].parent {
            Option::None => 2,
            Option::Some(p) => {
                if exists|j: int| 0 <= j < i && s[j].node == p {
                    1 + depth_of(s, choose|j: int| 0 <= j < i && s[j].node == p)
                } else {
                    2
                }
            },
        }
    }
}

/// The largest depth among the first `k` edges, at least 1 for the root.
pub open spec fn max_depth_upto(s: Seq<Edge>, k: int) -> int
    decreases k,
{
    if k <= 0 {
        1
    } else {
        let d = depth_of(s, k - 1);
        let m = max_depth_upto(s, k - 1);
        if d > m {
            d
        } else {
            m
        }
    }
}

/// Height of the tree: the longest root-to-leaf path, the root counting
/// as 1.
pub open spec fn height_spec(s: Seq<Edge>) -> int {
    max_depth_upto(s, s.len() as int)
}

/// The ancestor of edge `i` that hangs directly under the root.
pub open spec fn root_child_of(s: Seq<Edge>, i: int) -> Node
    decreases i,
{
    if !(0 <= i < s.len()) {
        s[i].node
    } else {
        match s[i].parent {
            Option::None => s[i].node,
            Option::Some(p) => {
                if exists|j: int| 0 <= j < i && s[j].node == p {
                    root_child_of(s, choose|j: int| 0 <= j < i && s[j].node == p)
                } else {
                    s[i].node
                }
            },
        }
    }
}

/// What `next_hop` returns: the destination's ancestor directly under the
/// root, or the error naming why there is none.
pub open spec fn next_hop_spec(s: Seq<Edge>, own: Node, destination: Node) -> Result<
    Node,
    TreeError,
> {
    if destination == own {
        Result::Err(TreeError::RootIsDestinationError)
    } else if !contains_node(s, destination) {
        Result::Err(TreeError::NodeNotFoundError)
    } else {
        Result::Ok(root_child_of(s, idx_of(s, destination)))
    }
}

/// Whether edge `i` lies in the subtree rooted at edge `r`: it is `r`
/// itself, or its parent's edge lies in the subtree.
pub open spec fn in_subtree(s: Seq<Edge>, r: int, i: int) -> bool
    decreases i,
{
    if i == r {
        true
    } else if i <= r || i >= s.len() {
        false
    } else {
        match s[i].parent {
            Option::None => false,
            Option::Some(p) => {
                if exists|j: int| 0 <= j < i && s[j].node == p {
                    in_subtree(s, r, choose|j: int| 0 <= j < i && s[j].node == p)
                } else {
                    false
                }
            },
        }
    }
}

/// Indexes below `k` whose edges lie outside the subtree at `r`, in order.
pub open spec fn keep_idxs(s: Seq<Edge>, r: int, k: int) -> Seq<int>
    decreases k,
{
    if k <= 0 {
        Seq::empty()
    } else if in_subtree(s, r, k - 1) {
        keep_idxs(s, r, k - 1)
    } else {
        keep_idxs(s, r, k - 1).push(k - 1)
    }
}

/// Indexes below `k` whose edges lie inside the subtree at `r`, in order.
pub open spec fn sub_idxs(s: Seq<Edge>, r: int, k: int) -> Seq<int>
    decreases k,
{
    if k <= 0 {
        Seq::empty()
    } else if in_subtree(s, r, k - 1) {
        sub_idxs(s, r, k - 1).push(k - 1)
    } else {
        sub_idxs(s, r, k - 1)
    }
}

/// The edges outside the subtree at `r`, in order.
pub open spec fn keep_edges(s: Seq<Edge>, r: int) -> Seq<Edge> {
    keep_idxs(s, r, s.len() as int).map_values(|j: int| s[j])
}

/// The edges of the subtree at `r`, in order, its root first.
pub open spec fn sub_edges(s: Seq<Edge>, r: int) -> Seq<Edge> {
    sub_idxs(s, r, s.len() as int).map_values(|j: int| s[j])
}

/// The two partition index lists are increasing, complete and exclusive.
proof fn lemma_partition_idxs(s: Seq<Edge>, r: int, k: int)
    ensures
        keep_idxs(s, r, k).len() + sub_idxs(s, r, k).len() == if k >= 0 {
            k
        } else {
            0
        },
        forall|a: int|
            0 <= a < keep_idxs(s, r, k).len() ==> 0 <= #[trigger] keep_idxs(s, r, k)[a] < k
                && !in_subtree(s, r, keep_idxs(s, r, k)[a]),
        forall|a: int|
            0 <= a < sub_idxs(s, r, k).len() ==> 0 <= #[trigger] sub_idxs(s, r, k)[a] < k
                && in_subtree(s, r, sub_idxs(s, r, k)[a]),
        forall|a: int, b: int|
            0 <= a < b < keep_idxs(s, r, k).len() ==> keep_idxs(s, r, k)[a] < keep_idxs(
                s,
                r,
                k,
            )[b],
        forall|a: int, b: int|
            0 <= a < b < sub_idxs(s, r, k).len() ==> sub_idxs(s, r, k)[a] < sub_idxs(s, r, k)[b],
        forall|j: int|
            0 <= j < k && !in_subtree(s, r, j) ==> #[trigger] keep_idxs(s, r, k).contains(j),
        forall|j: int|
            0 <= j < k && in_subtree(s, r, j) ==> #[trigger] sub_idxs(s, r, k).contains(j),
    decreases k,
{
    if k > 0 {
        lemma_partition_idxs(s, r, k - 1);
        let kp = keep_idxs(s, r, k - 1);
        let sp = sub_idxs(s, r, k - 1);
        if in_subtree(s, r, k - 1) {
            assert forall|j: int|
                0 <= j < k && in_subtree(s, r, j) implies #[trigger] sub_idxs(s, r, k).contains(
                j,
            ) by {
                if j < k - 1 {
                    assert(sp.contains(j));
                    let a = choose|a: int| 0 <= a < sp.len() && sp[a] == j;
                    assert(sub_idxs(s, r, k)[a] == j);
                } else {
                    assert(sub_idxs(s, r, k)[sp.len() as int] == j);
                }
            }
            assert forall|j: int|
                0 <= j < k && !in_subtree(s, r, j) implies #[trigger] keep_idxs(s, r, k).contains(
                j,
            ) by {
                assert(kp.contains(j));
            }
        } else {
            assert forall|j: int|
                0 <= j < k && !in_subtree(s, r, j) implies #[trigger] keep_idxs(s, r, k).contains(
                j,
            ) by {
                if j < k - 1 {
                    assert(kp.contains(j));
                    let a = choose|a: int| 0 <= a < kp.len() && kp[a] == j;
                    assert(keep_idxs(s, r, k)[a] == j);
                } else {
                    assert(keep_idxs(s, r, k)[kp.len() as int] == j);
                }
            }
            assert forall|j: int|
                0 <= j < k && in_subtree(s, r, j) implies #[trigger] sub_idxs(s, r, k).contains(
                j,
            ) by {
                assert(sp.contains(j));
            }
        }
    }
}

/// A nonempty subtree partition starts with the subtree's own root.
proof fn lemma_sub_first(s: Seq<Edge>, r: int, k: int)
    requires
        0 <= r < k,
    ensures
        sub_idxs(s, r, k).len() >= 1,
        sub_idxs(s, r, k)[0] == r,
    decreases k,
{
    lemma_partition_idxs(s, r, k);
    assert(in_subtree(s, r, r));
    assert(sub_idxs(s, r, k).contains(r));
    let a = choose|a: int| 0 <= a < sub_idxs(s, r, k).len() && sub_idxs(s, r, k)[a] == r;
    if a > 0 {
        assert(sub_idxs(s, r, k)[0] < sub_idxs(s, r, k)[a]);
        assert(in_subtree(s, r, sub_idxs(s, r, k)[0]));
    }
}

/// In a distinct edge list, an edge in the subtree other than its root has
/// its parent's edge in the subtree too.
proof fn lemma_in_subtree_parent(s: Seq<Edge>, r: int, i: int)
    requires
        nodes_distinct(s),
        in_subtree(s, r, i),
        i != r,
    ensures
        0 <= i < s.len(),
        s[i].parent is Some,
        exists|j: int|
            0 <= j < i && s[j].node == s[i].parent->0 && in_subtree(s, r, j),
{
    let p = s[i].parent->0;
    let j = choose|j: int| 0 <= j < i && s[j].node == p;
    assert(in_subtree(s, r, j));
}

/// The edge list after `upsert_edge(from, to)` on a tree with edges `s`
/// and `lk` lost slots.
pub open spec fn upsert_edges_spec(s: Seq<Edge>, lk: int, from: Option<Node>, to: Node) -> Seq<
    Edge,
> {
    if !contains_node(s, to) {
        if 1 + s.len() + lk >= MAX_LEAFS {
            s
        } else if parent_ok(s, from) {
            s.push(Edge { node: to, parent: from })
        } else {
            s
        }
    } else {
        let ri = idx_of(s, to);
        if parent_ok(keep_edges(s, ri), from) {
            keep_edges(s, ri) + sub_edges(s, ri).update(0, Edge { node: to, parent: from })
        } else {
            keep_edges(s, ri)
        }
    }
}

/// The lost-slot count after `upsert_edge(from, to)`.
pub open spec fn upsert_leaked_spec(s: Seq<Edge>, lk: int, from: Option<Node>, to: Node) -> int {
    if !contains_node(s, to) {
        if 1 + s.len() + lk >= MAX_LEAFS {
            lk
        } else if parent_ok(s, from) {
            lk
        } else {
            lk + 1
        }
    } else {
        let ri = idx_of(s, to);
        if parent_ok(keep_edges(s, ri), from) {
            lk
        } else {
            lk + sub_edges(s, ri).len()
        }
    }
}

/// What `upsert_edge(from, to)` returns.
pub open spec fn upsert_result_spec(s: Seq<Edge>, lk: int, from: Option<Node>, to: Node) -> Result<
    (),
    TreeError,
> {
    if !contains_node(s, to) {
        if 1 + s.len() + lk >= MAX_LEAFS {
            Result::Err(TreeError::LeafAllocationError)
        } else if parent_ok(s, from) {
            Result::Ok(())
        } else {
            Result::Err(TreeError::NodeNotFoundError)
        }
    } else {
        let ri = idx_of(s, to);
        if parent_ok(keep_edges(s, ri), from) {
            Result::Ok(())
        } else {
            Result::Err(TreeError::NodeNotFoundError)
        }
    }
}

/// In a distinct edge list, an edge carrying a node has only one index.
proof fn lemma_unique_idx(s: Seq<Edge>, i: int, j: int)
    requires
        nodes_distinct(s),
        0 <= i < s.len(),
        0 <= j < s.len(),
        s[i].node == s[j].node,
    ensures
        i == j,
{
}

/// An edge whose parent's edge lies in the subtree lies in it too.
proof fn lemma_subtree_closed(s: Seq<Edge>, r: int, i: int, j: int)
    requires
        nodes_distinct(s),
        0 <= j < i < s.len(),
        s[i].parent matches Some(p) && s[j].node == p,
        in_subtree(s, r, j),
    ensures
        in_subtree(s, r, i),
{
    assert(j == r || j > r);
    if i != r {
        let j0 = choose|j0: int| 0 <= j0 < i && s[j0].node == s[i].parent->0;
        lemma_unique_idx(s, j0, j);
    }
}

/// Detaching the subtree at `r` leaves a well-formed edge list.
proof fn lemma_detach_wf(s: Seq<Edge>, own: Node, r: int)
    requires
        edges_wf(s, own),
        0 <= r < s.len(),
    ensures
        edges_wf(keep_edges(s, r), own),
        keep_edges(s, r).len() + sub_edges(s, r).len() == s.len(),
{
    lemma_partition_idxs(s, r, s.len() as int);
    let ki = keep_idxs(s, r, s.len() as int);
    let t = keep_edges(s, r);
    assert forall|a: int, b: int| 0 <= a < b < t.len() implies t[a].node != t[b].node by {
        assert(ki[a] < ki[b]);
        assert(t[a] == s[ki[a]] && t[b] == s[ki[b]]);
    }
    assert forall|a: int|
        0 <= a < t.len() implies ((#[trigger] t[a].parent) matches Some(p) ==> exists|b: int|
            0 <= b < a && t[b].node == p) by {
        if t[a].parent is Some {
            let p = t[a].parent->0;
            let ia = ki[a];
            assert(t[a] == s[ia]);
            assert(exists|j: int| 0 <= j < ia && s[j].node == p);
            let j = choose|j: int| 0 <= j < ia && s[j].node == p;
            if in_subtree(s, r, j) {
                lemma_subtree_closed(s, r, ia, j);
            }
            assert(ki.contains(j));
            let b = choose|b: int| 0 <= b < ki.len() && ki[b] == j;
            assert(b < a) by {
                if b > a {
                    assert(ki[a] < ki[b]);
                }
            }
            assert(t[b].node == p);
        }
    }
    assert forall|a: int| 0 <= a < t.len() implies (#[trigger] t[a].node) != own by {
        assert(t[a] == s[ki[a]]);
    }
    assert forall|a: int| 0 <= a < t.len() implies (#[trigger] t[a].node) != broadcast_node() by {
        assert(t[a] == s[ki[a]]);
    }
}

/// Reattaching the subtree at `r` under a parent found outside it leaves a
/// well-formed edge list.
proof fn lemma_reattach_wf(s: Seq<Edge>, own: Node, r: int, from: Option<Node>)
    requires
        edges_wf(s, own),
        0 <= r < s.len(),
        parent_ok(keep_edges(s, r), from),
    ensures
        edges_wf(
            keep_edges(s, r) + sub_edges(s, r).update(
                0,
                Edge { node: s[r].node, parent: from },
            ),
            own,
        ),
{
    lemma_detach_wf(s, own, r);
    lemma_partition_idxs(s, r, s.len() as int);
    lemma_sub_first(s, r, s.len() as int);
    let ki = keep_idxs(s, r, s.len() as int);
    let si = sub_idxs(s, r, s.len() as int);
    let rest = keep_edges(s, r);
    let sub = sub_edges(s, r).update(0, Edge { node: s[r].node, parent: from });
    let t = rest + sub;
    let rl = rest.len() as int;
    assert(sub.len() == si.len());
    assert(forall|a: int| 0 <= a < rl ==> t[a] == rest[a]);
    assert(forall|a: int| rl <= a < t.len() ==> t[a] == sub[a - rl]);
    assert(forall|a: int| 0 <= a < sub.len() ==> (#[trigger] sub[a]).node == s[si[a]].node);
    assert forall|a: int, b: int| 0 <= a < b < t.len() implies t[a].node != t[b].node by {
        if a < rl && b < rl {
            assert(ki[a] < ki[b]);
        } else if a < rl && b >= rl {
            assert(t[a].node == s[ki[a]].node);
            assert(t[b].node == s[si[b - rl]].node);
            if ki[a] == si[b - rl] {
                assert(in_subtree(s, r, si[b - rl]));
                assert(!in_subtree(s, r, ki[a]));
            } else {
                assert(s[ki[a]].node != s[si[b - rl]].node) by {
                    if s[ki[a]].node == s[si[b - rl]].node {
                        lemma_unique_idx(s, ki[a], si[b - rl]);
                    }
                }
            }
        } else {
            assert(si[a - rl] < si[b - rl]);
            assert(s[si[a - rl]].node != s[si[b - rl]].node);
        }
    }
    assert forall|a: int|
        0 <= a < t.len() implies ((#[trigger] t[a].parent) matches Some(p) ==> exists|b: int|
            0 <= b < a && t[b].node == p) by {
        if t[a].parent is Some {
            let p = t[a].parent->0;
            if a < rl {
                assert(rest[a].parent matches Some(q) && q == p);
                assert(exists|b: int| 0 <= b < a && rest[b].node == p);
                let b = choose|b: int| 0 <= b < a && rest[b].node == p;
                assert(t[b].node == p);
            } else if a == rl {
                assert(t[a] == sub[0]);
                assert(from matches Some(q) && q == p);
                assert(contains_node(rest, p));
                let b = choose|b: int| 0 <= b < rest.len() && rest[b].node == p;
                assert(t[b].node == p);
            } else {
                let ia = si[a - rl];
                assert(in_subtree(s, r, ia));
                assert(ia != r) by {
                    if ia == r {
                        lemma_unique_idx(s, ia, r);
                        assert(a - rl == 0) by {
                            if a - rl > 0 {
                                assert(si[0] < si[a - rl]);
                                assert(si[0] == r);
                            }
                        }
                    }
                }
                assert(sub[a - rl] == s[ia]);
                lemma_in_subtree_parent(s, r, ia);
                let j = choose|j: int|
                    0 <= j < ia && s[j].node == s[ia].parent->0 && in_subtree(s, r, j);
                assert(si.contains(j));
                let b = choose|b: int| 0 <= b < si.len() && si[b] == j;
                assert(b < a - rl) by {
                    if b > a - rl {
                        assert(si[a - rl] < si[b]);
                    } else if b == a - rl {
                    }
                }
                assert(sub[b].node == s[j].node) by {
                    if b == 0 {
                        assert(si[0] == r);
                        assert(s[j] == s[r]);
                    }
                }
                assert(t[rl + b].node == p);
            }
        }
    }
    assert forall|a: int| 0 <= a < t.len() implies (#[trigger] t[a].node) != own && (
    #[trigger] t[a].node) != broadcast_node() by {
        if a < rl {
            assert(t[a].node == s[ki[a]].node);
        } else {
            assert(t[a].node == s[si[a - rl]].node);
        }
    }
}

/// Appending a fresh edge for an unknown node, under a parent that is
/// present, keeps the edge list well formed.
proof fn lemma_push_wf(s: Seq<Edge>, own: Node, e: Edge)
    requires
        edges_wf(s, own),
        !contains_node(s, e.node),
        e.node != own,
        e.node != broadcast_node(),
        e.parent matches Some(p) ==> contains_node(s, p),
    ensures
        edges_wf(s.push(e), own),
{
    let t = s.push(e);
    assert forall|i: int|
        0 <= i < t.len() implies ((#[trigger] t[i].parent) matches Some(p) ==> exists|j: int|
            0 <= j < i && t[j].node == p) by {
        if t[i].parent is Some {
            let p = t[i].parent->0;
            if i < s.len() {
                assert(s[i].parent matches Some(q) && q == p);
                let j = choose|j: int| 0 <= j < i && s[j].node == p;
                assert(t[j].node == p);
            } else {
                assert(contains_node(s, p));
                let j = choose|j: int| 0 <= j < s.len() && s[j].node == p;
                assert(t[j].node == p);
            }
        }
    }
    assert forall|i: int, j: int| 0 <= i < j < t.len() implies t[i].node != t[j].node by {
        if j == s.len() {
            assert(!contains_node(s, e.node));
        }
    }
}

/// Compares two optional nodes.
pub fn opt_node_eq(a: &Option<Node>, b: &Option<Node>) -> (r: bool)
    ensures
        r == (*a == *b),
{
    match (a, b) {
        (Option::None, Option::None) => true,
        (Option::Some(x), Option::Some(y)) => x == y,
        _ => false,
    }
}

/// Finds the first edge carrying `n`.
fn find_node(edges: &Vec<Edge>, n: Node) -> (r: Option<usize>)
    ensures
        match r {
            Some(i) => {
                &&& i < edges@.len()
                &&& edges@[i as int].node == n
                &&& forall|j: int| 0 <= j < i ==> (#[trigger] edges@[j].node) != n
            },
            None => !contains_node(edges@, n),
        },
{
    let mut i: usize = 0;
    while i < edges.len()
        invariant
            i <= edges@.len(),
            forall|j: int| 0 <= j < i ==> (#[trigger] edges@[j].node) != n,
        decreases edges@.len() - i,
    {
        if edges[i].node == n {
            return Option::Some(i);
        }
        i = i + 1;
    }
    Option::None
}

/// Counts the edges whose parent is `po`.
fn count_children(edges: &Vec<Edge>, po: &Option<Node>) -> (r: usize)
    ensures
        r == child_count(edges@, *po),
{
    let mut count: usize = 0;
    let mut i: usize = 0;
    while i < edges.len()
        invariant
            i <= edges@.len(),
            count == child_count_upto(edges@, *po, i as int),
            count <= i,
        decreases edges@.len() - i,
    {
        if opt_node_eq(&edges[i].parent, po) {
            count = count + 1;
        }
        i = i + 1;
    }
    count
}

/// Checks that a child can be attached under `po` in `edges`.
fn parent_ok_exec(edges: &Vec<Edge>, po: &Option<Node>) -> (r: bool)
    ensures
        r == parent_ok(edges@, *po),
{
    let present = match po {
        Option::None => true,
        Option::Some(p) => find_node(edges, *p).is_some(),
    };
    if !present {
        return false;
    }
    count_children(edges, po) < MAX_CHILD_LEAFS
}

/// The routing tree of one device: an arena-backed spanning tree of every
/// known node, rooted at the device itself.
pub struct Tree {
    own: Node,
    edges: Vec<Edge>,
    leaked: usize,
}

impl Tree {
    /// The identifier of this device, the root.
    pub closed spec fn spec_own(&self) -> Node {
        self.own
    }

    /// The attached foreign leaves, in topological order.
    pub closed spec fn spec_edges(&self) -> Seq<Edge> {
        self.edges@
    }

    /// Arena slots lost to detached subtrees.
    pub closed spec fn spec_leaked(&self) -> int {
        self.leaked as int
    }

    /// Well-formed edge list, and the root, the edges and the lost slots
    /// together fit the arena.
    pub open spec fn wf(&self) -> bool {
        &&& edges_wf(self.spec_edges(), self.spec_own())
        &&& 1 + self.spec_edges().len() + self.spec_leaked() <= MAX_LEAFS
    }

    /// Creates a tree holding only the root.
    pub fn new(own: Node) -> (r: Result<Tree, TreeError>)
        ensures
            r matches Ok(t) && t.wf() && t.spec_own() == own && t.spec_edges()
                == Seq::<Edge>::empty() && t.spec_leaked() == 0,
    {
        let t = Tree { own, edges: Vec::new(), leaked: 0 };
        proof {
            assert(t.spec_edges() =~= Seq::<Edge>::empty());
        }
        Ok(t)
    }

    /// A snapshot of the attached edges, for iteration without holding the
    /// tree.
    pub fn edge_list(&self) -> (r: Vec<Edge>)
        ensures
            r@ == self.spec_edges(),
    {
        let mut out: Vec<Edge> = Vec::new();
        let mut i: usize = 0;
        while i < self.edges.len()
            invariant
                i <= self.edges@.len(),
                out@ == self.edges@.take(i as int),
            decreases self.edges@.len() - i,
        {
            out.push(self.edges[i]);
            proof {
                assert(self.edges@.take(i as int).push(self.edges@[i as int]) =~= self.edges@.take(
                    i as int + 1,
                ));
            }
            i = i + 1;
        }
        proof {
            assert(self.edges@.take(self.edges@.len() as int) =~= self.edges@);
        }
        out
    }

    /// The device's own identifier.
    pub fn own_node(&self) -> (r: Node)
        ensures
            r == self.spec_own(),
    {
        self.own
    }

    /// Relocates `to` — creating it if absent — to be a child of the leaf
    /// carrying `from`, where `None` means the root. `LeafAllocationError`
    /// when a fresh leaf is needed and the arena is full;
    /// `NodeNotFoundError` when no parent leaf matches `from` or its child
    /// list is full, in which case `to` and its subtree are detached and
    /// their slots stay lost.
    pub fn upsert_edge(&mut self, from: Option<Node>, to: Node) -> (r: Result<(), TreeError>)
        requires
            old(self).wf(),
            to != old(self).spec_own(),
            to != broadcast_node(),
        ensures
            final(self).wf(),
            final(self).spec_own() == old(self).spec_own(),
            ({
                let s = old(self).spec_edges();
                let lk = old(self).spec_leaked();
                &&& final(self).spec_edges() == upsert_edges_spec(s, lk, from, to)
                &&& final(self).spec_leaked() == upsert_leaked_spec(s, lk, from, to)
                &&& r == upsert_result_spec(s, lk, from, to)
            }),
    {
        let ghost s = self.edges@;
        let ghost own = self.own;
        match find_node(&self.edges, to) {
            Option::None => {
                if 1 + self.edges.len() + self.leaked >= MAX_LEAFS {
                    return Err(TreeError::LeafAllocationError);
                }
                if parent_ok_exec(&self.edges, &from) {
                    self.edges.push(Edge { node: to, parent: from });
                    proof {
                        lemma_push_wf(s, own, Edge { node: to, parent: from });
                    }
                    Ok(())
                } else {
                    self.leaked = self.leaked + 1;
                    Err(TreeError::NodeNotFoundError)
                }
            },
            Option::Some(ri) => {
                proof {
                    lemma_unique_idx(s, ri as int, idx_of(s, to));
                }
                let n = self.edges.len();
                let mut rest: Vec<Edge> = Vec::new();
                let mut sub: Vec<Edge> = Vec::new();
                let mut i: usize = 0;
                while i < n
                    invariant
                        self.wf(),
                        s == self.edges@,
                        own == self.own,
                        n == s.len(),
                        ri < n,
                        s[ri as int].node == to,
                        i <= n,
                        rest@ == keep_idxs(s, ri as int, i as int).map_values(|j: int| s[j]),
                        sub@ == sub_idxs(s, ri as int, i as int).map_values(|j: int| s[j]),
                    decreases n - i,
                {
                    let ghost ski = sub_idxs(s, ri as int, i as int);
                    proof {
                        lemma_partition_idxs(s, ri as int, i as int);
                    }
                    let e = self.edges[i];
                    let is_sub: bool = if i == ri {
                        true
                    } else {
                        match e.parent {
                            Option::None => false,
                            Option::Some(p) => find_node(&sub, p).is_some(),
                        }
                    };
                    proof {
                        if i != ri {
                            match s[i as int].parent {
                                Option::None => {},
                                Option::Some(p) => {
                                    if contains_node(sub@, p) {
                                        let k = choose|k: int|
                                            0 <= k < sub@.len() && sub@[k].node == p;
                                        assert(sub@[k] == s[ski[k]]);
                                        lemma_subtree_closed(s, ri as int, i as int, ski[k]);
                                    }
                                    if in_subtree(s, ri as int, i as int) {
                                        lemma_in_subtree_parent(s, ri as int, i as int);
                                        let j = choose|j: int|
                                            0 <= j < i && s[j].node == p && in_subtree(
                                                s,
                                                ri as int,
                                                j,
                                            );
                                        assert(ski.contains(j));
                                        let b = choose|b: int|
                                            0 <= b < ski.len() && ski[b] == j;
                                        assert(sub@[b].node == p);
                                    }
                                },
                            }
                        }
                        assert(is_sub == in_subtree(s, ri as int, i as int));
                    }
                    if is_sub {
                        sub.push(e);
                        proof {
                            assert(sub@ =~= sub_idxs(s, ri as int, i as int + 1).map_values(
                                |j: int| s[j],
                            ));
                        }
                    } else {
                        rest.push(e);
                        proof {
                            assert(rest@ =~= keep_idxs(s, ri as int, i as int + 1).map_values(
                                |j: int| s[j],
                            ));
                        }
                    }
                    i = i + 1;
                }
                proof {
                    lemma_detach_wf(s, own, ri as int);
                    lemma_sub_first(s, ri as int, n as int);
                }
                if parent_ok_exec(&rest, &from) {
                    vstd::pervasive::VecAdditionalExecFns::set(
                        &mut sub,
                        0,
                        Edge { node: to, parent: from },
                    );
                    let mut newedges = rest;
                    newedges.append(&mut sub);
                    self.edges = newedges;
                    proof {
                        lemma_reattach_wf(s, own, ri as int, from);
                        assert(self.edges@ =~= keep_edges(s, ri as int) + sub_edges(
                            s,
                            ri as int,
                        ).update(0, Edge { node: to, parent: from }));
                    }
                    Ok(())
                } else {
                    let subn = sub.len();
                    self.edges = rest;
                    self.leaked = self.leaked + subn;
                    Err(TreeError::NodeNotFoundError)
                }
            },
        }
    }

    /// Like `upsert_edge`, after rejecting the two identifiers that can
    /// never name a leaf: the root itself (`RootIsDestinationError`) and
    /// the broadcast address (`NodeNotFoundError`).
    pub fn upsert_edge_checked(&mut self, from: Option<Node>, to: Node) -> (r: Result<
        (),
        TreeError,
    >)
        requires
            old(self).wf(),
        ensures
            final(self).wf(),
            final(self).spec_own() == old(self).spec_own(),
            ({
                let s = old(self).spec_edges();
                let lk = old(self).spec_leaked();
                if to == old(self).spec_own() {
                    &&& r matches Err(e) && e == TreeError::RootIsDestinationError
                    &&& final(self).spec_edges() == s
                    &&& final(self).spec_leaked() == lk
                } else if to == broadcast_node() {
                    &&& r matches Err(e) && e == TreeError::NodeNotFoundError
                    &&& final(self).spec_edges() == s
                    &&& final(self).spec_leaked() == lk
                } else {
                    &&& final(self).spec_edges() == upsert_edges_spec(s, lk, from, to)
                    &&& final(self).spec_leaked() == upsert_leaked_spec(s, lk, from, to)
                    &&& r == upsert_result_spec(s, lk, from, to)
                }
            }),
    {
        if to == self.own {
            return Err(TreeError::RootIsDestinationError);
        }
        let bc = crate::node::broadcast();
        if to == bc {
            return Err(TreeError::NodeNotFoundError);
        }
        self.upsert_edge(from, to)
    }

    /// Renders the tree with ASCII box-drawing prefixes; the root prints
    /// as the literal `self`.
    pub fn render(&self) -> (r: String)
        ensures
            r@ == render_spec(self.spec_edges()),
    {
        let mut out = String::new();
        out.push_str("self\n");
        let po: Option<Node> = Option::None;
        let empty_prefix = String::new();
        render_children_exec(&self.edges, 0, &po, &empty_prefix, 0, &mut out);
        out
    }

    /// The immediate neighbor through which `destination` is reached: a
    /// direct child of the root, or the destination itself when it is one.
    /// `RootIsDestinationError` when the destination is this device,
    /// `NodeNotFoundError` when it is unknown.
    pub fn next_hop(&self, destination: Node) -> (r: Result<Node, TreeError>)
        requires
            self.wf(),
        ensures
            r == next_hop_spec(self.spec_edges(), self.spec_own(), destination),
    {
        if destination == self.own {
            return Err(TreeError::RootIsDestinationError);
        }
        let mut cur = match find_node(&self.edges, destination) {
            Option::Some(i) => i,
            Option::None => {
                return Err(TreeError::NodeNotFoundError);
            },
        };
        proof {
            assert(cur as int == idx_of(self.spec_edges(), destination)) by {
                let k = idx_of(self.spec_edges(), destination);
                assert(contains_node(self.spec_edges(), destination));
                if k != cur as int {
                    assert(self.spec_edges()[k].node == self.spec_edges()[cur as int].node);
                }
            }
        }
        loop
            invariant
                self.wf(),
                cur < self.spec_edges().len(),
                destination != self.spec_own(),
                contains_node(self.spec_edges(), destination),
                root_child_of(self.spec_edges(), cur as int) == root_child_of(
                    self.spec_edges(),
                    idx_of(self.spec_edges(), destination),
                ),
            decreases cur,
        {
            let e = self.edges[cur];
            match e.parent {
                Option::None => {
                    proof {
                        assert(root_child_of(self.spec_edges(), cur as int) == e.node);
                    }
                    return Ok(e.node);
                },
                Option::Some(p) => {
                    let ghost s = self.spec_edges();
                    proof {
                        assert(exists|j: int| 0 <= j < cur && s[j].node == p);
                    }
                    let next = match find_node(&self.edges, p) {
                        Option::Some(j) => j,
                        Option::None => {
                            proof {
                                assert(false);
                            }
                            return Err(TreeError::NodeNotFoundError);
                        },
                    };
                    proof {
                        let j0 = choose|j: int| 0 <= j < cur && s[j].node == p;
                        assert(s[j0].node == s[next as int].node);
                        assert(next as int == j0);
                        assert(root_child_of(s, cur as int) == root_child_of(s, j0));
                    }
                    cur = next;
                },
            }
        }
    }

    /// The longest root-to-leaf path, counting the root as 1.
    pub fn height(&self) -> (r: usize)
        requires
            self.wf(),
        ensures
            r == height_spec(self.spec_edges()),
    {
        let ghost s = self.spec_edges();
        let n = self.edges.len();
        let mut depths: Vec<usize> = Vec::new();
        let mut best: usize = 1;
        let mut i: usize = 0;
        proof {
            lemma_depth_bounds(s, n as int);
        }
        while i < n
            invariant
                self.wf(),
                s == self.spec_edges(),
                n == s.len(),
                i <= n,
                depths@.len() == i,
                forall|k: int| 0 <= k < i ==> (#[trigger] depths@[k]) == depth_of(s, k),
                forall|k: int| 0 <= k < n ==> 1 <= #[trigger] depth_of(s, k) <= k + 2,
                best == max_depth_upto(s, i as int),
            decreases n - i,
        {
            let e = self.edges[i];
            let d: usize = match e.parent {
                Option::None => 2,
                Option::Some(p) => {
                    proof {
                        assert(exists|j: int| 0 <= j < i && s[j].node == p);
                    }
                    let j = match find_node(&self.edges, p) {
                        Option::Some(j) => j,
                        Option::None => {
                            proof {
                                assert(false);
                            }
                            return 0;
                        },
                    };
                    proof {
                        let j0 = choose|j: int| 0 <= j < i && s[j].node == p;
                        assert(s[j0].node == s[j as int].node);
                        assert(j as int == j0);
                    }
                    depths[j] + 1
                },
            };
            proof {
                assert(d == depth_of(s, i as int));
            }
            depths.push(d);
            if d > best {
                best = d;
            }
            i = i + 1;
        }
        best
    }
}

/// Whether another edge with parent `po` stands at index `k` or later.
pub open spec fn more_children(s: Seq<Edge>, po: Option<Node>, k: int) -> bool {
    exists|j: int| k <= j < s.len() && s[j].parent == po
}

/// The rendering of the subtree at edge `i`: its own line behind the
/// prefix and a tee or elbow, then its children one level deeper.
pub open spec fn render_subtree(s: Seq<Edge>, i: int, prefix: Seq<char>, last: bool) -> Seq<char>
    decreases s.len() - i, 1int, 0int,
{
    if !(0 <= i < s.len()) {
        Seq::empty()
    } else {
        let line = prefix + (if last {
            "└──"@
        } else {
            "├──"@
        }) + crate::node::mac_display(s[i].node@) + seq!['\n'];
        let deeper = prefix + (if last {
            "   "@
        } else {
            "│  "@
        });
        line + render_children(s, i, Option::Some(s[i].node), deeper, 0)
    }
}

/// The rendering of every child of `po` (the edge at `pi`, or the root for
/// `pi == -1`) from index `k` on, each followed by its own subtree.
pub open spec fn render_children(
    s: Seq<Edge>,
    pi: int,
    po: Option<Node>,
    prefix: Seq<char>,
    k: int,
) -> Seq<char>
    decreases s.len() - pi, 0int, s.len() - k,
{
    if !(0 <= k < s.len()) {
        Seq::empty()
    } else if s[k].parent == po && k > pi {
        render_subtree(s, k, prefix, !more_children(s, po, k + 1)) + render_children(
            s,
            pi,
            po,
            prefix,
            k + 1,
        )
    } else {
        render_children(s, pi, po, prefix, k + 1)
    }
}

/// The whole tree: the root prints as the literal `self`, each leaf under
/// ASCII box-drawing prefixes.
pub open spec fn render_spec(s: Seq<Edge>) -> Seq<char> {
    "self\n"@ + render_children(s, -1, Option::None, Seq::empty(), 0)
}

/// Whether another edge with parent `po` stands at index `k` or later.
fn has_more_children(edges: &Vec<Edge>, po: &Option<Node>, k: usize) -> (r: bool)
    ensures
        r == more_children(edges@, *po, k as int),
{
    if k >= edges.len() {
        return false;
    }
    let mut i: usize = k;
    while i < edges.len()
        invariant
            k <= i <= edges@.len(),
            !(exists|j: int| k <= j < i && edges@[j].parent == *po),
        decreases edges@.len() - i,
    {
        if opt_node_eq(&edges[i].parent, po) {
            return true;
        }
        i = i + 1;
    }
    false
}

/// Writes the rendering of the subtree at edge `i` onto `out`.
fn render_subtree_exec(edges: &Vec<Edge>, i: usize, prefix: &String, last: bool, out: &mut String)
    requires
        i < edges@.len(),
    ensures
        final(out)@ == old(out)@ + render_subtree(edges@, i as int, prefix@, last),
    decreases edges@.len() - i, 1int, 0int,
{
    out.push_str(prefix.as_str());
    out.push_str(
        if last {
            "└──"
        } else {
            "├──"
        },
    );
    let nd = edges[i].node.display();
    out.push_str(nd.as_str());
    out.push('\n');
    let mut deeper = prefix.clone();
    deeper.push_str(
        if last {
            "   "
        } else {
            "│  "
        },
    );
    let po = Option::Some(edges[i].node);
    proof {
        vstd::std_specs::vec::axiom_spec_len(edges);
    }
    render_children_exec(edges, i + 1, &po, &deeper, 0, out);
}

/// Writes the rendering of every child of `po` from index `k` on; the
/// parent's edge index plus one is handed over as `pp1`, 0 for the root.
fn render_children_exec(
    edges: &Vec<Edge>,
    pp1: usize,
    po: &Option<Node>,
    prefix: &String,
    k: usize,
    out: &mut String,
)
    ensures
        final(out)@ == old(out)@ + render_children(edges@, pp1 as int - 1, *po, prefix@, k as int),
    decreases edges@.len() - pp1 + 1, 0int, edges@.len() - k,
{
    if k >= edges.len() {
        return ;
    }
    let e = edges[k];
    if opt_node_eq(&e.parent, po) && k >= pp1 {
        let more = has_more_children(edges, po, k + 1);
        render_subtree_exec(edges, k, prefix, !more, out);
        render_children_exec(edges, pp1, po, prefix, k + 1, out);
    } else {
        render_children_exec(edges, pp1, po, prefix, k + 1, out);
    }
}

/// A fresh tree is only the root: its height is 1, no foreign destination
/// has a next hop, and the root itself is refused as a destination.
pub proof fn lemma_new_tree(own: Node, d: Node)
    ensures
        height_spec(Seq::<Edge>::empty()) == 1,
        d != own ==> next_hop_spec(Seq::<Edge>::empty(), own, d) == Result::<
            Node,
            TreeError,
        >::Err(TreeError::NodeNotFoundError),
        next_hop_spec(Seq::<Edge>::empty(), own, own) == Result::<Node, TreeError>::Err(
            TreeError::RootIsDestinationError,
        ),
{
}

/// A destination that hangs directly under the root is its own next hop.
pub proof fn lemma_next_hop_direct_child(t: Seq<Edge>, own: Node, x: Node)
    requires
        nodes_distinct(t),
        contains_node(t, x),
        t[idx_of(t, x)].parent is None,
        x != own,
    ensures
        next_hop_spec(t, own, x) == Result::<Node, TreeError>::Ok(x),
{
}

/// After `upsert_edge(None, x)` succeeds — on either of its two outcomes,
/// a fresh leaf or a relocated one — the next hop toward `x` is `x`.
pub proof fn lemma_upsert_edge_direct(s: Seq<Edge>, own: Node, x: Node)
    requires
        edges_wf(s, own),
        x != own,
        x != broadcast_node(),
    ensures
        !contains_node(s, x) && parent_ok(s, Option::None) ==> next_hop_spec(
            s.push(Edge { node: x, parent: Option::None }),
            own,
            x,
        ) == Result::<Node, TreeError>::Ok(x),
        contains_node(s, x) && parent_ok(keep_edges(s, idx_of(s, x)), Option::None)
            ==> next_hop_spec(
            keep_edges(s, idx_of(s, x)) + sub_edges(s, idx_of(s, x)).update(
                0,
                Edge { node: x, parent: Option::None },
            ),
            own,
            x,
        ) == Result::<Node, TreeError>::Ok(x),
{
    if !contains_node(s, x) && parent_ok(s, Option::None) {
        let t = s.push(Edge { node: x, parent: Option::None });
        lemma_push_wf(s, own, Edge { node: x, parent: Option::None });
        assert(t[s.len() as int].node == x);
        lemma_unique_idx(t, idx_of(t, x), s.len() as int);
        lemma_next_hop_direct_child(t, own, x);
    }
    if contains_node(s, x) && parent_ok(keep_edges(s, idx_of(s, x)), Option::None) {
        let ri = idx_of(s, x);
        let t = keep_edges(s, ri) + sub_edges(s, ri).update(
            0,
            Edge { node: x, parent: Option::None },
        );
        assert(s[ri].node == x);
        lemma_reattach_wf(s, own, ri, Option::None);
        lemma_sub_first(s, ri, s.len() as int);
        let rl = keep_edges(s, ri).len() as int;
        assert(t[rl].node == x);
        lemma_unique_idx(t, idx_of(t, x), rl);
        lemma_next_hop_direct_child(t, own, x);
    }
}

/// A parent that the tree does not know cannot anchor an edge: the upsert
/// refuses it with `NodeNotFoundError`.
pub proof fn lemma_unknown_parent_refused(s: Seq<Edge>, u: Node)
    requires
        !contains_node(s, u),
    ensures
        !parent_ok(s, Option::Some(u)),
{
}

/// Chaining `upsert_edge(None, a)`, `upsert_edge(Some(a), b)` and
/// `upsert_edge(Some(b), c)` onto a fresh tree builds a three-link path:
/// the height is 4 and both `b` and `c` route through `a`.
pub proof fn lemma_chain_of_three(own: Node, a: Node, b: Node, c: Node)
    requires
        a != own && b != own && c != own,
        a != b && a != c && b != c,
        a != broadcast_node() && b != broadcast_node() && c != broadcast_node(),
    ensures
        ({
            let s1 = Seq::<Edge>::empty().push(Edge { node: a, parent: Option::None });
            let s2 = s1.push(Edge { node: b, parent: Option::Some(a) });
            let s3 = s2.push(Edge { node: c, parent: Option::Some(b) });
            &&& !contains_node(Seq::<Edge>::empty(), a) && parent_ok(
                Seq::<Edge>::empty(),
                Option::None,
            )
            &&& !contains_node(s1, b) && parent_ok(s1, Option::Some(a))
            &&& !contains_node(s2, c) && parent_ok(s2, Option::Some(b))
            &&& height_spec(s3) == 4
            &&& next_hop_spec(s3, own, b) == Result::<Node, TreeError>::Ok(a)
            &&& next_hop_spec(s3, own, c) == Result::<Node, TreeError>::Ok(a)
        }),
{
    let s0 = Seq::<Edge>::empty();
    let s1 = s0.push(Edge { node: a, parent: Option::None });
    let s2 = s1.push(Edge { node: b, parent: Option::Some(a) });
    let s3 = s2.push(Edge { node: c, parent: Option::Some(b) });
    assert(child_count(s0, Option::None) == 0);
    assert(child_count_upto(s1, Option::Some(a), 0) == 0);
    assert(child_count_upto(s1, Option::Some(a), 1) == 0);
    assert(child_count_upto(s2, Option::Some(b), 0) == 0);
    assert(child_count_upto(s2, Option::Some(b), 1) == 0);
    assert(child_count_upto(s2, Option::Some(b), 2) == 0);
    assert(s1[0].node == a);
    assert(s2[1].node == b);
    assert(depth_of(s3, 0) == 2);
    assert(depth_of(s3, 1) == 3) by {
        let j = choose|j: int| 0 <= j < 1 && s3[j].node == a;
        assert(s3[0].node == a);
        assert(j == 0);
    }
    assert(depth_of(s3, 2) == 4) by {
        let j = choose|j: int| 0 <= j < 2 && s3[j].node == b;
        assert(s3[1].node == b);
        assert(j == 1);
        assert(depth_of(s3, 1) == 3);
    }
    assert(max_depth_upto(s3, 0) == 1);
    assert(max_depth_upto(s3, 1) == 2);
    assert(max_depth_upto(s3, 2) == 3);
    assert(max_depth_upto(s3, 3) == 4);
    assert(root_child_of(s3, 0) == a);
    assert(root_child_of(s3, 1) == a) by {
        let j = choose|j: int| 0 <= j < 1 && s3[j].node == a;
        assert(s3[0].node == a);
        assert(j == 0);
    }
    assert(root_child_of(s3, 2) == a) by {
        let j = choose|j: int| 0 <= j < 2 && s3[j].node == b;
        assert(s3[1].node == b);
        assert(j == 1);
        assert(root_child_of(s3, 1) == a);
    }
    assert(idx_of(s3, b) == 1) by {
        assert(s3[1].node == b);
        let k = choose|i: int| 0 <= i < s3.len() && s3[i].node == b;
        assert(s3[k].node == b);
    }
    assert(idx_of(s3, c) == 2) by {
        assert(s3[2].node == c);
        let k = choose|i: int| 0 <= i < s3.len() && s3[i].node == c;
        assert(s3[k].node == c);
    }
    assert(contains_node(s3, b)) by {
        assert(s3[1].node == b);
    }
    assert(contains_node(s3, c)) by {
        assert(s3[2].node == c);
    }
}

/// Reparenting a nested leaf directly under the root: after
/// `upsert_edge(None, a)`, `upsert_edge(Some(a), b)` and then
/// `upsert_edge(None, b)`, `b` is its own next hop and the height is 2.
pub proof fn lemma_reparent(own: Node, a: Node, b: Node)
    requires
        a != own && b != own,
        a != b,
        a != broadcast_node() && b != broadcast_node(),
    ensures
        ({
            let s1 = Seq::<Edge>::empty().push(Edge { node: a, parent: Option::None });
            let s2 = s1.push(Edge { node: b, parent: Option::Some(a) });
            let ri = idx_of(s2, b);
            let t = keep_edges(s2, ri) + sub_edges(s2, ri).update(
                0,
                Edge { node: b, parent: Option::None },
            );
            &&& contains_node(s2, b)
            &&& parent_ok(keep_edges(s2, ri), Option::None)
            &&& next_hop_spec(t, own, b) == Result::<Node, TreeError>::Ok(b)
            &&& height_spec(t) == 2
        }),
{
    let s0 = Seq::<Edge>::empty();
    let s1 = s0.push(Edge { node: a, parent: Option::None });
    let s2 = s1.push(Edge { node: b, parent: Option::Some(a) });
    assert(contains_node(s2, b)) by {
        assert(s2[1].node == b);
    }
    let ri = idx_of(s2, b);
    assert(ri == 1) by {
        assert(s2[1].node == b);
        let k = choose|i: int| 0 <= i < s2.len() && s2[i].node == b;
        assert(s2[k].node == b);
    }
    assert(!in_subtree(s2, 1, 0));
    assert(in_subtree(s2, 1, 1));
    assert(keep_idxs(s2, 1, 0) =~= Seq::<int>::empty());
    assert(keep_idxs(s2, 1, 1) =~= Seq::<int>::empty().push(0));
    assert(keep_idxs(s2, 1, 2) =~= Seq::<int>::empty().push(0));
    assert(sub_idxs(s2, 1, 0) =~= Seq::<int>::empty());
    assert(sub_idxs(s2, 1, 1) =~= Seq::<int>::empty());
    assert(sub_idxs(s2, 1, 2) =~= Seq::<int>::empty().push(1));
    let rest = keep_edges(s2, 1);
    let sub = sub_edges(s2, 1);
    assert(rest =~= Seq::<Edge>::empty().push(s2[0]));
    assert(sub =~= Seq::<Edge>::empty().push(s2[1]));
    assert(child_count_upto(rest, Option::None, 0) == 0);
    assert(child_count_upto(rest, Option::None, 1) == 1);
    assert(parent_ok(rest, Option::None));
    let t = rest + sub.update(0, Edge { node: b, parent: Option::None });
    assert(t.len() == 2);
    assert(t[0] == s2[0]);
    assert(t[1] == Edge { node: b, parent: Option::None });
    assert(contains_node(t, b)) by {
        assert(t[1].node == b);
    }
    assert(idx_of(t, b) == 1) by {
        let k = choose|i: int| 0 <= i < t.len() && t[i].node == b;
        assert(t[k].node == b);
    }
    assert(root_child_of(t, 1) == b);
    assert(depth_of(t, 0) == 2);
    assert(depth_of(t, 1) == 2);
    assert(max_depth_upto(t, 0) == 1);
    assert(max_depth_upto(t, 1) == 2);
    assert(max_depth_upto(t, 2) == 2);
}

/// Every edge's depth is positive and bounded by its position.
proof fn lemma_depth_bounds(s: Seq<Edge>, k: int)
    ensures
        forall|i: int| 0 <= i < k ==> 1 <= #[trigger] depth_of(s, i) <= i + 2,
    decreases k,
{
    if k > 0 {
        lemma_depth_bounds(s, k - 1);
        assert forall|i: int| 0 <= i < k implies 1 <= #[trigger] depth_of(s, i) <= i + 2 by {
            if i == k - 1 {
                if 0 <= i < s.len() {
                    match s[i].parent {
                        Option::None => {},
                        Option::Some(p) => {
                            if exists|j: int| 0 <= j < i && s[j].node == p {
                                let j0 = choose|j: int| 0 <= j < i && s[j].node == p;
                                assert(1 <= depth_of(s, j0) <= j0 + 2);
                            }
                        },
                    }
                }
            }
        }
    }
}

} // verus!
