//! What holds of the node found at a position.

use crate::navigate::spans_points;
use crate::server::utils::{locate, scan_children};
use crate::syntax::{node_ok, Point, Range, SyntaxTree};
use vstd::prelude::*;

verus! {

/// `a` is `n` or an ancestor of `n`.
pub open spec fn is_ancestor_or_self(tree: &SyntaxTree, a: int, n: int) -> bool
    decreases n,
{
    a == n || match tree.nodes@[n].parent {
        Some(q) => 0 <= q < n && is_ancestor_or_self(tree, a, q as int),
        None => false,
    }
}

/// The range of a node lies inside the range of each of its ancestors.
pub proof fn lemma_ancestor_contains(tree: &SyntaxTree, a: int, n: int)
    requires
        tree.wf(),
        0 <= n < tree.nodes@.len(),
        is_ancestor_or_self(tree, a, n),
    ensures
        0 <= a <= n,
        tree.nodes@[a].range.contains(tree.nodes@[n].range),
    decreases n,
{
    assert(node_ok(tree.nodes@, n));
    if a != n {
        let q = tree.nodes@[n].parent->0 as int;
        lemma_ancestor_contains(tree, a, q);
        assert(node_ok(tree.nodes@, a));
    }
}

/// The root encloses every node.
pub proof fn lemma_root_encloses(tree: &SyntaxTree, n: int)
    requires
        tree.wf(),
        0 <= n < tree.nodes@.len(),
    ensures
        is_ancestor_or_self(tree, 0, n),
        tree.nodes@[0].range.contains(tree.nodes@[n].range),
    decreases n,
{
    assert(node_ok(tree.nodes@, n));
    if n > 0 {
        lemma_root_encloses(tree, tree.nodes@[n].parent->0 as int);
    }
    lemma_ancestor_contains(tree, 0, n);
}

/// A child of a node below `n` is below `n`.
pub proof fn lemma_child_is_below(tree: &SyntaxTree, n: int, x: int, c: int)
    requires
        tree.wf(),
        0 <= x < c < tree.nodes@.len(),
        tree.nodes@[c].parent is Some,
        tree.nodes@[c].parent->0 == x,
        is_ancestor_or_self(tree, n, x),
    ensures
        is_ancestor_or_self(tree, n, c),
{
}

/// What the scan for a child that spans the points finds: a child at or
/// after `from` that spans them, before which none does.
pub proof fn lemma_child_at_points(tree: &SyntaxTree, i: int, start: Point, end: Point, from: int)
    requires
        0 <= from,
    ensures
        match tree.child_at_points(i, start, end, from) {
            Some(c) => exists|k: int|
                from <= k < tree.nodes@[i].children@.len() && #[trigger] tree.nodes@[i].children@[k]
                    == c && spans_points(tree.nodes@[c as int].range, start, end),
            None => forall|k: int|
                from <= k < tree.nodes@[i].children@.len() ==> !spans_points(
                    tree.nodes@[#[trigger] tree.nodes@[i].children@[k] as int].range,
                    start,
                    end,
                ),
        },
    decreases tree.nodes@[i].children@.len() - from,
{
    let kids = tree.nodes@[i].children@;
    if from >= kids.len() {
    } else if spans_points(tree.nodes@[kids[from] as int].range, start, end) {
        assert(kids[from] == kids[from]);
    } else {
        lemma_child_at_points(tree, i, start, end, from + 1);
    }
}

/// Where the child at position `k` is the first from `from` on to span the
/// points, the scan finds it.
proof fn lemma_scan_finds(tree: &SyntaxTree, i: int, p: Point, from: int, k: int)
    requires
        0 <= from <= k < tree.nodes@[i].children@.len(),
        spans_points(tree.nodes@[tree.nodes@[i].children@[k] as int].range, p, p),
        forall|j: int|
            from <= j < k ==> !spans_points(
                tree.nodes@[#[trigger] tree.nodes@[i].children@[j] as int].range,
                p,
                p,
            ),
    ensures
        tree.child_at_points(i, p, p, from) == Some(tree.nodes@[i].children@[k]),
    decreases k - from,
{
    if from < k {
        assert(!spans_points(tree.nodes@[tree.nodes@[i].children@[from] as int].range, p, p));
        lemma_scan_finds(tree, i, p, from + 1, k);
    }
}

/// The range is empty and lies at the point.
pub open spec fn empty_at(r: Range, p: Point) -> bool {
    r.start_point == p && r.end_point == p
}

/// A descent towards the point can enter node `a` from its parent, as far as
/// `a` and the siblings before it go: `a` does not end at the point unless
/// it is empty, and no sibling before `a` is an empty node at the point.
pub open spec fn can_enter(tree: &SyntaxTree, a: int, p: Point) -> bool {
    let r = tree.nodes@[a].range;
    &&& r.start_point == r.end_point || p.before(r.end_point)
    &&& match tree.nodes@[a].parent {
        Some(q) => forall|j: int|
            0 <= j < tree.nodes@[a].slot ==> !empty_at(
                tree.nodes@[#[trigger] tree.nodes@[q as int].children@[j] as int].range,
                p,
            ),
        None => true,
    }
}

/// The way from the root down to node `n` is clear at the point: a descent
/// can enter every node on it.
pub open spec fn way_is_clear(tree: &SyntaxTree, n: int, p: Point) -> bool {
    forall|a: int| 0 < a && #[trigger] is_ancestor_or_self(tree, a, n) ==> can_enter(tree, a, p)
}

/// A descent towards a point that `a` spans enters `a` from its parent,
/// where no sibling before `a` is an empty node at the point.
proof fn lemma_enters(tree: &SyntaxTree, a: int, p: Point)
    requires
        tree.wf(),
        0 < a < tree.nodes@.len(),
        spans_points(tree.nodes@[a].range, p, p),
        can_enter(tree, a, p),
    ensures
        tree.child_at_points(tree.nodes@[a].parent->0 as int, p, p, 0) == Some(a as usize),
{
    assert(node_ok(tree.nodes@, a));
    let q = tree.nodes@[a].parent->0 as int;
    let slot = tree.nodes@[a].slot as int;
    let kids = tree.nodes@[q].children@;
    assert(node_ok(tree.nodes@, q));
    assert forall|j: int| 0 <= j < slot implies !spans_points(
        tree.nodes@[#[trigger] kids[j] as int].range,
        p,
        p,
    ) by {
        assert(tree.nodes@[kids[j] as int].range.ends_before(tree.nodes@[kids[slot] as int].range));
        assert(!empty_at(tree.nodes@[kids[j] as int].range, p));
        assert(node_ok(tree.nodes@, kids[j] as int));
    }
    lemma_scan_finds(tree, q, p, 0, slot);
}

/// A descent from the root towards the start of a named node `n` passes
/// through `n`, where the way to `n` is clear, and from there on remembers
/// `n`.
proof fn lemma_descent_reaches(tree: &SyntaxTree, n: int, a: int, p: Point) -> (best: usize)
    requires
        tree.wf(),
        0 <= n < tree.nodes@.len(),
        tree.nodes@[n].named,
        p == tree.nodes@[n].range.start_point,
        way_is_clear(tree, n, p),
        is_ancestor_or_self(tree, a, n),
    ensures
        tree.spec_descendant_for_point_range(0, p, p, true) == tree.descend_points(
            a,
            p,
            p,
            true,
            best,
        ),
        a == n ==> best == n,
    decreases a,
{
    lemma_ancestor_contains(tree, a, n);
    if a == 0 {
        0
    } else {
        assert(node_ok(tree.nodes@, a));
        assert(node_ok(tree.nodes@, n));
        let q = tree.nodes@[a].parent->0 as int;
        lemma_parent_is_ancestor(tree, a, n);
        let before = lemma_descent_reaches(tree, n, q, p);
        assert(can_enter(tree, a, p));
        lemma_enters(tree, a, p);
        if tree.nodes@[a].named {
            a as usize
        } else {
            before
        }
    }
}

/// The parent of an ancestor of `n` other than the root is an ancestor of
/// `n`.
pub proof fn lemma_parent_is_ancestor(tree: &SyntaxTree, a: int, n: int)
    requires
        tree.wf(),
        0 <= n < tree.nodes@.len(),
        0 < a,
        is_ancestor_or_self(tree, a, n),
    ensures
        tree.nodes@[a].parent is Some,
        is_ancestor_or_self(tree, tree.nodes@[a].parent->0 as int, n),
    decreases n,
{
    assert(node_ok(tree.nodes@, n));
    if a == n {
        let q = tree.nodes@[n].parent->0 as int;
        assert(is_ancestor_or_self(tree, q, q));
    } else {
        let q = tree.nodes@[n].parent->0 as int;
        lemma_parent_is_ancestor(tree, a, q);
    }
}

/// A descent that starts at or below `n`, at a node that starts at the
/// point, ends at or below `n`, at a node that starts at the point.
proof fn lemma_descent_stays(tree: &SyntaxTree, n: int, x: int, p: Point, best: usize)
    requires
        tree.wf(),
        0 <= x < tree.nodes@.len(),
        0 <= best < tree.nodes@.len(),
        is_ancestor_or_self(tree, n, x),
        is_ancestor_or_self(tree, n, best as int),
        tree.nodes@[x].range.start_point == p,
        tree.nodes@[best as int].range.start_point == p,
    ensures
        ({
            let r = tree.descend_points(x, p, p, true, best);
            &&& 0 <= r < tree.nodes@.len()
            &&& is_ancestor_or_self(tree, n, r as int)
            &&& tree.nodes@[r as int].range.start_point == p
        }),
    decreases tree.nodes@.len() - x,
{
    lemma_child_at_points(tree, x, p, p, 0);
    match tree.child_at_points(x, p, p, 0) {
        Some(c) => {
            assert(node_ok(tree.nodes@, x));
            assert(x < c < tree.nodes@.len());
            assert(node_ok(tree.nodes@, c as int));
            lemma_child_is_below(tree, n, x, c as int);
            let next = if tree.nodes@[c as int].named {
                c
            } else {
                best
            };
            lemma_descent_stays(tree, n, c as int, p, next);
        },
        None => {},
    }
}

/// Where the scan over the children of `m` ends: at `cur`, or at a child that
/// does not start after the point.
proof fn lemma_scan_children(tree: &SyntaxTree, kids: Seq<usize>, p: Point, from: int, cur: usize)
    requires
        0 <= from,
    ensures
        ({
            let r = scan_children(tree, kids, p, from, cur);
            r == cur || exists|k: int|
                from <= k < kids.len() && #[trigger] kids[k] == r && !p.before(
                    tree.nodes@[r as int].range.start_point,
                )
        }),
    decreases kids.len() - from,
{
    if from >= kids.len() {
    } else if p.before(tree.nodes@[kids[from] as int].range.start_point) {
    } else {
        lemma_scan_children(tree, kids, p, from + 1, kids[from]);
        let r = scan_children(tree, kids, p, from + 1, kids[from]);
        if r == kids[from] {
            assert(kids[from] == r);
        }
    }
}

/// Looking up the start of a named node finds that node or one below it that
/// starts at the same point, and never one above it, where the way to the
/// node is clear at that point. A node may be empty. The way is not clear
/// where an empty node at the point stands before the node, or before a node
/// above it, as a sibling, and where the node is empty and lies at the end of
/// a node above it that is not: there the descent stops short or goes into
/// the sibling.
pub proof fn lemma_locate_start_of_named(tree: &SyntaxTree, n: int)
    requires
        tree.wf(),
        0 <= n < tree.nodes@.len(),
        tree.nodes@[n].named,
        way_is_clear(tree, n, tree.nodes@[n].range.start_point),
    ensures
        ({
            let r = locate(tree, tree.nodes@[n].range.start_point);
            &&& 0 <= r < tree.nodes@.len()
            &&& is_ancestor_or_self(tree, n, r as int)
            &&& tree.nodes@[r as int].range.start_point == tree.nodes@[n].range.start_point
        }),
{
    let p = tree.nodes@[n].range.start_point;
    let best = lemma_descent_reaches(tree, n, n, p);
    lemma_descent_stays(tree, n, n, p, n as usize);
    let m = tree.spec_descendant_for_point_range(0, p, p, true);
    let kids = tree.nodes@[m as int].children@;
    lemma_scan_children(tree, kids, p, 0, m);
    let r = scan_children(tree, kids, p, 0, m);
    if r != m {
        assert(node_ok(tree.nodes@, m as int));
        let k = choose|k: int|
            0 <= k < kids.len() && #[trigger] kids[k] == r && !p.before(
                tree.nodes@[r as int].range.start_point,
            );
        assert(m < kids[k] < tree.nodes@.len());
        assert(node_ok(tree.nodes@, r as int));
        lemma_child_is_below(tree, n, m as int, r as int);
    }
}

/// No node of the tree is empty.
pub open spec fn no_empty_node(tree: &SyntaxTree) -> bool {
    forall|i: int|
        0 <= i < tree.nodes@.len() ==> (#[trigger] tree.nodes@[i]).range.start_point
            != tree.nodes@[i].range.end_point
}

/// In a tree without empty nodes, looking up the start of any named node
/// finds that node or one below it that starts at the same point.
pub proof fn lemma_locate_start_without_empty_nodes(tree: &SyntaxTree, n: int)
    requires
        tree.wf(),
        no_empty_node(tree),
        0 <= n < tree.nodes@.len(),
        tree.nodes@[n].named,
    ensures
        ({
            let r = locate(tree, tree.nodes@[n].range.start_point);
            &&& 0 <= r < tree.nodes@.len()
            &&& is_ancestor_or_self(tree, n, r as int)
            &&& tree.nodes@[r as int].range.start_point == tree.nodes@[n].range.start_point
        }),
{
    let p = tree.nodes@[n].range.start_point;
    assert(node_ok(tree.nodes@, n));
    assert forall|a: int| 0 < a && #[trigger] is_ancestor_or_self(tree, a, n) implies can_enter(
        tree,
        a,
        p,
    ) by {
        lemma_ancestor_contains(tree, a, n);
        assert(node_ok(tree.nodes@, a));
        let q = tree.nodes@[a].parent->0 as int;
        assert(node_ok(tree.nodes@, q));
        assert forall|j: int| 0 <= j < tree.nodes@[a].slot implies !empty_at(
            tree.nodes@[#[trigger] tree.nodes@[q].children@[j] as int].range,
            p,
        ) by {
            let s = tree.nodes@[q].children@[j] as int;
            assert(tree.nodes@[s].range.start_point != tree.nodes@[s].range.end_point);
        }
    }
    lemma_locate_start_of_named(tree, n);
}


/// One of the two ranges ends before the other starts.
pub open spec fn apart(a: Range, b: Range) -> bool {
    a.ends_before(b) || b.ends_before(a)
}

/// Below a node that encloses `x` there is a child that is `x` or encloses
/// `x`.
proof fn lemma_child_on_way(tree: &SyntaxTree, q: int, x: int) -> (c: int)
    requires
        tree.wf(),
        0 <= x < tree.nodes@.len(),
        is_ancestor_or_self(tree, q, x),
        q != x,
    ensures
        0 <= q < c <= x,
        tree.nodes@[c].parent is Some,
        tree.nodes@[c].parent->0 == q,
        is_ancestor_or_self(tree, c, x),
    decreases x,
{
    assert(node_ok(tree.nodes@, x));
    lemma_ancestor_contains(tree, q, x);
    let px = tree.nodes@[x].parent->0 as int;
    if px == q {
        x
    } else {
        lemma_child_on_way(tree, q, px)
    }
}

/// Two nodes of which neither encloses the other lie apart: one ends before
/// the other starts.
pub proof fn lemma_apart(tree: &SyntaxTree, x: int, y: int)
    requires
        tree.wf(),
        0 <= x < tree.nodes@.len(),
        0 <= y < tree.nodes@.len(),
        !is_ancestor_or_self(tree, x, y),
        !is_ancestor_or_self(tree, y, x),
    ensures
        apart(tree.nodes@[x].range, tree.nodes@[y].range),
    decreases y,
{
    lemma_root_encloses(tree, x);
    assert(node_ok(tree.nodes@, y));
    assert(node_ok(tree.nodes@, x));
    let q = tree.nodes@[y].parent->0 as int;
    assert(node_ok(tree.nodes@, q));
    if is_ancestor_or_self(tree, q, x) {
        let c = lemma_child_on_way(tree, q, x);
        assert(node_ok(tree.nodes@, c));
        lemma_ancestor_contains(tree, c, x);
        let kids = tree.nodes@[q].children@;
        let sc = tree.nodes@[c].slot as int;
        let sy = tree.nodes@[y].slot as int;
        assert(kids[sc] == c && kids[sy] == y);
        if sc < sy {
            assert(tree.nodes@[kids[sc] as int].range.ends_before(tree.nodes@[kids[sy] as int].range));
        } else {
            assert(sy < sc);
            assert(tree.nodes@[kids[sy] as int].range.ends_before(tree.nodes@[kids[sc] as int].range));
        }
    } else {
        lemma_apart(tree, x, q);
    }
}

} // verus!
