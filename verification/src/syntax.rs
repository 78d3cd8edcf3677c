//! The concrete syntax tree that every query runs on.
//!
//! A tree is an arena of nodes in document order (a node comes before its
//! descendants). Each node records its kind, the field it fills in its parent,
//! its byte and point range, and its links to parent and children.

use vstd::prelude::*;

verus! {

/// A position in a text, counted in rows and columns from zero.
#[derive(Clone, Copy, Debug, PartialEq, Eq, Structural)]
pub struct Point {
    pub row: usize,
    pub column: usize,
}

impl Point {
    /// `self` is at `other` or earlier in the text.
    pub open spec fn at_or_before(self, other: Point) -> bool {
        self.row < other.row || (self.row == other.row && self.column <= other.column)
    }

    /// `self` is strictly earlier in the text than `other`.
    pub open spec fn before(self, other: Point) -> bool {
        self.row < other.row || (self.row == other.row && self.column < other.column)
    }

    /// Whether `self` is at `other` or earlier in the text.
    pub fn is_at_or_before(&self, other: &Point) -> (b: bool)
        ensures
            b == self.at_or_before(*other),
    {
        self.row < other.row || (self.row == other.row && self.column <= other.column)
    }

    /// Whether `self` is strictly earlier in the text than `other`.
    pub fn is_before(&self, other: &Point) -> (b: bool)
        ensures
            b == self.before(*other),
    {
        self.row < other.row || (self.row == other.row && self.column < other.column)
    }
}

/// A span of text, both in bytes and in points.
#[derive(Clone, Copy, Debug, PartialEq, Eq, Structural)]
pub struct Range {
    pub start_byte: usize,
    pub end_byte: usize,
    pub start_point: Point,
    pub end_point: Point,
}

impl Range {
    /// The span does not end before it starts.
    pub open spec fn ordered(self) -> bool {
        self.start_byte <= self.end_byte && self.start_point.at_or_before(self.end_point)
    }

    /// `inner` lies inside `self`.
    pub open spec fn contains(self, inner: Range) -> bool {
        &&& self.start_byte <= inner.start_byte
        &&& inner.end_byte <= self.end_byte
        &&& self.start_point.at_or_before(inner.start_point)
        &&& inner.end_point.at_or_before(self.end_point)
    }

    /// `self` ends where `next` starts, or earlier.
    pub open spec fn ends_before(self, next: Range) -> bool {
        self.end_byte <= next.start_byte && self.end_point.at_or_before(next.start_point)
    }

    /// Whether the span does not end before it starts.
    pub fn is_ordered(&self) -> (b: bool)
        ensures
            b == self.ordered(),
    {
        self.start_byte <= self.end_byte && self.start_point.is_at_or_before(&self.end_point)
    }

    /// Whether `inner` lies inside `self`.
    pub fn does_contain(&self, inner: &Range) -> (b: bool)
        ensures
            b == self.contains(*inner),
    {
        self.start_byte <= inner.start_byte && inner.end_byte <= self.end_byte
            && self.start_point.is_at_or_before(&inner.start_point)
            && inner.end_point.is_at_or_before(&self.end_point)
    }

    /// Whether `self` ends where `next` starts, or earlier.
    pub fn does_end_before(&self, next: &Range) -> (b: bool)
        ensures
            b == self.ends_before(*next),
    {
        self.end_byte <= next.start_byte && self.end_point.is_at_or_before(&next.start_point)
    }
}

/// One node as a parser hands it out: what it is, where it is, and how deep
/// it sits below the root. A tree is given as the list of its nodes in
/// document order.
#[derive(Clone, Debug)]
pub struct RawNode {
    pub kind: String,
    pub named: bool,
    pub field: Option<String>,
    pub range: Range,
    pub depth: usize,
}

/// A [`RawNode`] as a plain value.
pub struct RawNodeView {
    pub kind: Seq<char>,
    pub named: bool,
    pub field: Option<Seq<char>>,
    pub range: Range,
    pub depth: usize,
}

impl View for RawNode {
    type V = RawNodeView;

    open spec fn view(&self) -> RawNodeView {
        RawNodeView {
            kind: self.kind@,
            named: self.named,
            field: opt_text(self.field),
            range: self.range,
            depth: self.depth,
        }
    }
}

/// The views of a list of nodes.
pub open spec fn raw_views(raw: Seq<RawNode>) -> Seq<RawNodeView> {
    raw.map_values(|n: RawNode| n@)
}

/// A node of a [`SyntaxTree`].
#[derive(Debug)]
pub struct SyntaxNode {
    pub kind: String,
    pub named: bool,
    /// The field of the parent that this node fills, if any.
    pub field: Option<String>,
    pub range: Range,
    pub parent: Option<usize>,
    /// The position of this node among its parent's children.
    pub slot: usize,
    pub children: Vec<usize>,
}

/// The view of an optional string.
pub open spec fn opt_text(s: Option<String>) -> Option<Seq<char>> {
    match s {
        Some(t) => Some(t@),
        None => None,
    }
}

/// The greatest index up to `upto` whose node sits at `depth`, or -1.
pub open spec fn last_at_depth(raw: Seq<RawNodeView>, upto: int, depth: int) -> int
    decreases upto + 1,
{
    if upto < 0 || upto >= raw.len() {
        -1
    } else if raw[upto].depth == depth {
        upto
    } else {
        last_at_depth(raw, upto - 1, depth)
    }
}

/// The parent of node `i` in a list in document order: the nearest earlier
/// node that sits one level higher.
pub open spec fn raw_parent(raw: Seq<RawNodeView>, i: int) -> int {
    last_at_depth(raw, i - 1, raw[i].depth - 1)
}

/// Node `i` (not the root) continues a well-formed list: it sits at most one
/// level below its predecessor, inside its parent's range and after the
/// sibling before it.
pub open spec fn raw_node_valid(raw: Seq<RawNodeView>, i: int) -> bool {
    let d = raw[i].depth as int;
    let p = raw_parent(raw, i);
    let s = last_at_depth(raw, i - 1, d);
    &&& 1 <= d <= raw[i - 1].depth + 1
    &&& raw[i].range.ordered()
    &&& raw[p].range.contains(raw[i].range)
    &&& (s > p ==> raw[s].range.ends_before(raw[i].range))
}

/// The list describes a tree: a root at depth 0 followed by valid nodes.
pub open spec fn raw_valid(raw: Seq<RawNodeView>) -> bool {
    &&& raw.len() >= 1
    &&& raw[0].depth == 0
    &&& raw[0].range.ordered()
    &&& forall|i: int| 1 <= i < raw.len() ==> raw_node_valid(raw, i)
}

/// The nearest earlier node at a depth, where there is one, lies in the list,
/// at or before `upto`, and sits at that depth.
pub proof fn lemma_last_at_depth_bounds(raw: Seq<RawNodeView>, upto: int, depth: int)
    ensures
        -1 <= last_at_depth(raw, upto, depth) <= upto || last_at_depth(raw, upto, depth) == -1,
        last_at_depth(raw, upto, depth) >= 0 ==> {
            &&& last_at_depth(raw, upto, depth) < raw.len()
            &&& raw[last_at_depth(raw, upto, depth)].depth == depth
        },
    decreases upto + 1,
{
    if upto < 0 || upto >= raw.len() {
    } else if raw[upto].depth == depth {
    } else {
        lemma_last_at_depth_bounds(raw, upto - 1, depth);
    }
}

/// A syntax tree: its nodes in document order, the root first.
#[derive(Debug)]
pub struct SyntaxTree {
    pub nodes: Vec<SyntaxNode>,
}

/// Node `i` is linked consistently with its parent and children, the
/// children stand in document order, and ranges nest: a child lies inside its
/// parent, and children follow one another without overlap.
pub open spec fn node_ok(nodes: Seq<SyntaxNode>, i: int) -> bool {
    let n = nodes[i];
    &&& n.range.ordered()
    &&& (i == 0 ==> n.parent is None && n.slot == 0)
    &&& (i > 0 ==> {
        &&& n.parent is Some
        &&& n.parent->0 < i
        &&& n.slot < nodes[n.parent->0 as int].children@.len()
        &&& nodes[n.parent->0 as int].children@[n.slot as int] == i
        &&& nodes[n.parent->0 as int].range.contains(n.range)
    })
    &&& forall|k: int|
        0 <= k < n.children@.len() ==> {
            &&& i < (#[trigger] n.children@[k]) < nodes.len()
            &&& nodes[n.children@[k] as int].parent == Some(i as usize)
            &&& nodes[n.children@[k] as int].slot == k
        }
    &&& forall|j: int, k: int|
        0 <= j < k < n.children@.len() ==> (#[trigger] n.children@[j]) < (#[trigger] n.children@[k])
            && nodes[n.children@[j] as int].range.ends_before(nodes[n.children@[k] as int].range)
}

/// The nodes form a tree: there is a root, and every node is linked
/// consistently.
pub open spec fn nodes_ok(nodes: Seq<SyntaxNode>) -> bool {
    &&& nodes.len() >= 1
    &&& forall|i: int| 0 <= i < nodes.len() ==> #[trigger] node_ok(nodes, i)
}

impl SyntaxTree {
    /// The tree is well formed.
    pub open spec fn wf(&self) -> bool {
        nodes_ok(self.nodes@)
    }

    /// The tree holds the nodes of `raw`, one for one, each under the parent
    /// that the depths give it.
    pub open spec fn mirrors(&self, raw: Seq<RawNodeView>) -> bool {
        &&& self.nodes@.len() == raw.len()
        &&& forall|i: int|
            0 <= i < raw.len() ==> {
                &&& (#[trigger] self.nodes@[i]).kind@ == raw[i].kind
                &&& self.nodes@[i].named == raw[i].named
                &&& opt_text(self.nodes@[i].field) == raw[i].field
                &&& self.nodes@[i].range == raw[i].range
                &&& (i > 0 ==> self.nodes@[i].parent == Some(raw_parent(raw, i) as usize))
            }
    }

    /// The number of nodes.
    pub fn len(&self) -> (n: usize)
        ensures
            n == self.nodes@.len(),
    {
        self.nodes.len()
    }

    /// The index of the root.
    pub fn root(&self) -> (r: usize)
        ensures
            r == 0,
    {
        0
    }

    /// Node `i`.
    pub fn node(&self, i: usize) -> (n: &SyntaxNode)
        requires
            i < self.nodes@.len(),
        ensures
            *n == self.nodes@[i as int],
    {
        &self.nodes[i]
    }

    /// The kind of node `i`.
    pub fn kind(&self, i: usize) -> (k: &str)
        requires
            i < self.nodes@.len(),
        ensures
            k@ == self.nodes@[i as int].kind@,
    {
        self.nodes[i].kind.as_str()
    }

    /// The range of node `i`.
    pub fn range(&self, i: usize) -> (r: Range)
        requires
            i < self.nodes@.len(),
        ensures
            r == self.nodes@[i as int].range,
    {
        self.nodes[i].range
    }

    /// The parent of node `i`; none for the root.
    pub fn parent(&self, i: usize) -> (p: Option<usize>)
        requires
            self.wf(),
            i < self.nodes@.len(),
        ensures
            p == self.nodes@[i as int].parent,
            p matches Some(q) ==> q < i,
    {
        assert(node_ok(self.nodes@, i as int));
        self.nodes[i].parent
    }

    /// The number of children of node `i`.
    pub fn child_count(&self, i: usize) -> (n: usize)
        requires
            i < self.nodes@.len(),
        ensures
            n == self.nodes@[i as int].children@.len(),
    {
        self.nodes[i].children.len()
    }

    /// The child of `i` at position `k`, if there is one.
    pub open spec fn spec_child(&self, i: int, k: int) -> Option<usize> {
        if 0 <= k < self.nodes@[i].children@.len() {
            Some(self.nodes@[i].children@[k])
        } else {
            None
        }
    }

    /// The child of `i` at position `k`, if there is one.
    pub fn child(&self, i: usize, k: usize) -> (c: Option<usize>)
        requires
            self.wf(),
            i < self.nodes@.len(),
        ensures
            c == self.spec_child(i as int, k as int),
            c matches Some(j) ==> i < j < self.nodes@.len(),
    {
        assert(node_ok(self.nodes@, i as int));
        if k < self.nodes[i].children.len() {
            Some(self.nodes[i].children[k])
        } else {
            None
        }
    }

    /// The sibling just before `i`, if there is one.
    pub open spec fn spec_prev_sibling(&self, i: int) -> Option<usize> {
        match self.nodes@[i].parent {
            Some(p) => if self.nodes@[i].slot > 0 {
                Some(self.nodes@[p as int].children@[self.nodes@[i].slot - 1])
            } else {
                None
            },
            None => None,
        }
    }

    /// The sibling just before `i`, if there is one.
    pub fn prev_sibling(&self, i: usize) -> (s: Option<usize>)
        requires
            self.wf(),
            i < self.nodes@.len(),
        ensures
            s == self.spec_prev_sibling(i as int),
            s matches Some(j) ==> j < self.nodes@.len() && self.nodes@[j as int].parent
                == self.nodes@[i as int].parent && self.nodes@[j as int].slot + 1
                == self.nodes@[i as int].slot,
    {
        match self.nodes[i].parent {
            Some(p) => {
                let slot = self.nodes[i].slot;
                assert(node_ok(self.nodes@, i as int));
                assert(node_ok(self.nodes@, p as int));
                if slot > 0 {
                    let j = self.nodes[p].children[slot - 1];
                    Some(j)
                } else {
                    None
                }
            },
            None => None,
        }
    }

    /// The sibling just after `i`, if there is one.
    pub open spec fn spec_next_sibling(&self, i: int) -> Option<usize> {
        match self.nodes@[i].parent {
            Some(p) => if self.nodes@[i].slot + 1 < self.nodes@[p as int].children@.len() {
                Some(self.nodes@[p as int].children@[self.nodes@[i].slot + 1])
            } else {
                None
            },
            None => None,
        }
    }

    /// The sibling just after `i`, if there is one.
    pub fn next_sibling(&self, i: usize) -> (s: Option<usize>)
        requires
            self.wf(),
            i < self.nodes@.len(),
        ensures
            s == self.spec_next_sibling(i as int),
            s matches Some(j) ==> j < self.nodes@.len() && self.nodes@[j as int].parent
                == self.nodes@[i as int].parent && self.nodes@[j as int].slot
                == self.nodes@[i as int].slot + 1,
    {
        match self.nodes[i].parent {
            Some(p) => {
                let slot = self.nodes[i].slot;
                assert(node_ok(self.nodes@, i as int));
                assert(node_ok(self.nodes@, p as int));
                if slot < self.nodes[p].children.len() - 1 {
                    let j = self.nodes[p].children[slot + 1];
                    assert(self.nodes@[p as int].children@[slot as int] == i);
                    assert(node_ok(self.nodes@, j as int));
                    Some(j)
                } else {
                    None
                }
            },
            None => None,
        }
    }
}

fn clone_field(field: &Option<String>) -> (r: Option<String>)
    ensures
        opt_text(r) == opt_text(*field),
{
    match field {
        Some(s) => Some(s.clone()),
        None => None,
    }
}

/// What [`SyntaxTree::from_raw`] keeps true while it reads the list: the
/// ancestors of the node read last, outermost first, and how far the list has
/// been checked.
#[verifier::opaque]
spec fn build_inv(raw: Seq<RawNodeView>, nodes: Seq<SyntaxNode>, path: Seq<usize>, i: int) -> bool {
    &&& 1 <= i <= raw.len()
    &&& nodes.len() == i
    &&& nodes_ok(nodes)
    &&& raw[0].depth == 0
    &&& raw[0].range.ordered()
    &&& forall|j: int| 1 <= j < i ==> raw_node_valid(raw, j)
    &&& forall|j: int|
        0 <= j < i ==> {
            &&& (#[trigger] nodes[j]).kind@ == raw[j].kind
            &&& nodes[j].named == raw[j].named
            &&& opt_text(nodes[j].field) == raw[j].field
            &&& nodes[j].range == raw[j].range
            &&& (j > 0 ==> nodes[j].parent == Some(raw_parent(raw, j) as usize))
        }
    &&& path.len() == raw[i - 1].depth + 1
    &&& forall|k: int| 0 <= k < path.len() ==> (#[trigger] path[k]) == last_at_depth(raw, i - 1, k)
    &&& forall|k: int| 0 <= k < path.len() ==> 0 <= (#[trigger] path[k]) < i
    &&& forall|k: int|
        0 <= k < path.len() - 1 ==> {
            let kids = nodes[(#[trigger] path[k]) as int].children@;
            kids.len() > 0 && kids[kids.len() - 1] == path[k + 1]
        }
    &&& nodes[path[path.len() - 1] as int].children@.len() == 0
}

/// What the next node's parent and the sibling before it are, read off the
/// path of ancestors.
proof fn lemma_build_read(raw: Seq<RawNodeView>, nodes: Seq<SyntaxNode>, path: Seq<usize>, i: int)
    requires
        build_inv(raw, nodes, path, i),
        i < raw.len(),
    ensures
        nodes.len() == i,
        path.len() == raw[i - 1].depth + 1,
        forall|k: int| 0 <= k < path.len() ==> 0 <= (#[trigger] path[k]) < i,
        1 <= raw[i].depth <= path.len() ==> {
            let d = raw[i].depth as int;
            let p = path[d - 1] as int;
            &&& raw_parent(raw, i) == p
            &&& nodes[p].range == raw[p].range
            &&& (d < path.len() ==> {
                let s = path[d] as int;
                &&& s == last_at_depth(raw, i - 1, d)
                &&& s > p
                &&& nodes[s].range == raw[s].range
            })
            &&& (d == path.len() ==> last_at_depth(raw, i - 1, d) <= p)
        },
{
    reveal(build_inv);
    if 1 <= raw[i].depth <= path.len() {
        let d = raw[i].depth as int;
        let p = path[d - 1] as int;
        assert(nodes[p].range == raw[p].range);
        if d < path.len() {
            let s = path[d] as int;
            assert(nodes[s].range == raw[s].range);
            assert(node_ok(nodes, p));
            let kids = nodes[p].children@;
            assert(kids[kids.len() - 1] == s);
        } else {
            assert(path[d - 1] == last_at_depth(raw, i - 1, d - 1));
            lemma_last_at_depth_bounds(raw, i - 2, d);
        }
    }
}

/// Adding a valid node under its parent keeps what
/// [`SyntaxTree::from_raw`] relies on.
proof fn lemma_build_step(
    raw: Seq<RawNodeView>,
    old_nodes: Seq<SyntaxNode>,
    old_path: Seq<usize>,
    nodes: Seq<SyntaxNode>,
    path: Seq<usize>,
    i: int,
)
    requires
        build_inv(raw, old_nodes, old_path, i),
        i < raw.len(),
        i <= usize::MAX,
        raw_node_valid(raw, i),
        1 <= raw[i].depth <= old_path.len(),
        nodes.len() == i + 1,
        forall|j: int| 0 <= j < i && j != old_path[raw[i].depth - 1] ==> nodes[j] == old_nodes[j],
        ({
            let p = old_path[raw[i].depth - 1] as int;
            &&& nodes[p].kind == old_nodes[p].kind
            &&& nodes[p].named == old_nodes[p].named
            &&& nodes[p].field == old_nodes[p].field
            &&& nodes[p].range == old_nodes[p].range
            &&& nodes[p].parent == old_nodes[p].parent
            &&& nodes[p].slot == old_nodes[p].slot
            &&& nodes[p].children@ == old_nodes[p].children@.push(i as usize)
            &&& nodes[i].parent == Some(p as usize)
            &&& nodes[i].slot == old_nodes[p].children@.len()
        }),
        nodes[i].kind@ == raw[i].kind,
        nodes[i].named == raw[i].named,
        opt_text(nodes[i].field) == raw[i].field,
        nodes[i].range == raw[i].range,
        nodes[i].children@.len() == 0,
        path == old_path.subrange(0, raw[i].depth as int).push(i as usize),
    ensures
        build_inv(raw, nodes, path, i + 1),
{
    reveal(build_inv);
    lemma_build_read(raw, old_nodes, old_path, i);
    let d = raw[i].depth as int;
    let p = old_path[d - 1] as int;
    assert(0 <= p < i);
    assert forall|j: int| 0 <= j < nodes.len() implies #[trigger] node_ok(nodes, j) by {
        if j == i {
        } else if j == p {
            assert(node_ok(old_nodes, j));
            let kids = nodes[j].children@;
            let old_kids = old_nodes[j].children@;
            assert forall|k: int| 0 <= k < kids.len() implies {
                &&& j < (#[trigger] kids[k]) < nodes.len()
                &&& nodes[kids[k] as int].parent == Some(j as usize)
                &&& nodes[kids[k] as int].slot == k
            } by {
                if k < old_kids.len() {
                    let c = old_kids[k] as int;
                    assert(kids[k] == c);
                    assert(p < c < i);
                    assert(nodes[c] == old_nodes[c]);
                } else {
                    assert(kids[k] == i);
                }
            }
            assert forall|a: int, b: int| 0 <= a < b < kids.len() implies (#[trigger] kids[a]) < (
            #[trigger] kids[b]) && nodes[kids[a] as int].range.ends_before(
                nodes[kids[b] as int].range,
            ) by {
                let ca = old_kids[a] as int;
                assert(kids[a] == ca);
                assert(p < ca < i);
                assert(nodes[ca] == old_nodes[ca]);
                if b < old_kids.len() {
                    let cb = old_kids[b] as int;
                    assert(kids[b] == cb);
                    assert(p < cb < i);
                    assert(nodes[cb] == old_nodes[cb]);
                } else {
                    assert(kids[b] == i);
                    assert(d < old_path.len());
                    let last = old_kids.len() - 1;
                    assert(old_kids[last] == old_path[d]);
                    assert(node_ok(old_nodes, old_kids[last] as int));
                    if a < last {
                        assert(old_nodes[old_kids[a] as int].range.ends_before(
                            old_nodes[old_kids[last] as int].range,
                        ));
                    }
                }
            }
            if j > 0 {
                let q = nodes[j].parent->0 as int;
                assert(nodes[q].children@[nodes[j].slot as int] == j);
            }
        } else {
            assert(node_ok(old_nodes, j));
            let kids = nodes[j].children@;
            assert forall|k: int| 0 <= k < kids.len() implies {
                &&& j < (#[trigger] kids[k]) < nodes.len()
                &&& nodes[kids[k] as int].parent == Some(j as usize)
                &&& nodes[kids[k] as int].slot == k
            } by {
                assert(old_nodes[j].children@[k] == kids[k]);
            }
            if j > 0 {
                let q = nodes[j].parent->0 as int;
                if q == p {
                    assert(nodes[q].children@[nodes[j].slot as int] == j);
                }
            }
        }
    }
    assert forall|k: int| 0 <= k < path.len() implies (#[trigger] path[k]) == last_at_depth(
        raw,
        i,
        k,
    ) by {
        if k < d {
            assert(path[k] == old_path[k]);
        }
    }
    assert forall|k: int| 0 <= k < path.len() - 1 implies {
        let kids = nodes[(#[trigger] path[k]) as int].children@;
        kids.len() > 0 && kids[kids.len() - 1] == path[k + 1]
    } by {
        assert(path[k] == old_path[k]);
        if k < d - 1 {
            assert(path[k + 1] == old_path[k + 1]);
            lemma_last_at_depth_bounds(raw, i - 1, k);
            lemma_last_at_depth_bounds(raw, i - 1, d - 1);
            assert(old_path[k] != p);
        }
    }
    assert forall|j: int| 0 <= j < i + 1 implies {
        &&& (#[trigger] nodes[j]).kind@ == raw[j].kind
        &&& nodes[j].named == raw[j].named
        &&& opt_text(nodes[j].field) == raw[j].field
        &&& nodes[j].range == raw[j].range
        &&& (j > 0 ==> nodes[j].parent == Some(raw_parent(raw, j) as usize))
    } by {
        if j < i {
            assert(old_nodes[j].kind@ == raw[j].kind);
        }
    }
}

/// Once the whole list is read, it is valid and the tree mirrors it.
proof fn lemma_build_done(raw: Seq<RawNodeView>, nodes: Seq<SyntaxNode>, path: Seq<usize>)
    requires
        build_inv(raw, nodes, path, raw.len() as int),
    ensures
        raw_valid(raw),
        nodes_ok(nodes),
        nodes.len() == raw.len(),
        forall|i: int|
            0 <= i < raw.len() ==> {
                &&& (#[trigger] nodes[i]).kind@ == raw[i].kind
                &&& nodes[i].named == raw[i].named
                &&& opt_text(nodes[i].field) == raw[i].field
                &&& nodes[i].range == raw[i].range
                &&& (i > 0 ==> nodes[i].parent == Some(raw_parent(raw, i) as usize))
            },
{
    reveal(build_inv);
}

impl SyntaxTree {
    /// Builds the tree that a list of nodes in document order describes.
    ///
    /// The list is accepted exactly when it is valid: it starts with a root at
    /// depth 0, no node sits more than one level below the node before it,
    /// every node lies inside its parent, and siblings do not overlap.
    pub fn from_raw(raw: &Vec<RawNode>) -> (r: Option<SyntaxTree>)
        ensures
            r is Some <==> raw_valid(raw_views(raw@)),
            r matches Some(t) ==> t.wf() && t.mirrors(raw_views(raw@)),
    {
        let n = raw.len();
        let ghost views = raw_views(raw@);
        if n == 0 {
            return None;
        }
        if raw[0].depth != 0 || !raw[0].range.is_ordered() {
            return None;
        }
        assert(views[0] == raw@[0]@);
        let mut nodes: Vec<SyntaxNode> = Vec::new();
        nodes.push(
            SyntaxNode {
                kind: raw[0].kind.clone(),
                named: raw[0].named,
                field: clone_field(&raw[0].field),
                range: raw[0].range,
                parent: None,
                slot: 0,
                children: Vec::new(),
            },
        );
        let mut path: Vec<usize> = Vec::new();
        path.push(0);
        proof {
            reveal(build_inv);
            assert(node_ok(nodes@, 0));
            assert(last_at_depth(views, 0, 0) == 0);
        }
        let mut i: usize = 1;
        while i < n
            invariant
                n == raw.len(),
                views == raw_views(raw@),
                1 <= i <= n,
                build_inv(views, nodes@, path@, i as int),
            decreases n - i,
        {
            proof {
                lemma_build_read(views, nodes@, path@, i as int);
                assert(views[i as int] == raw@[i as int]@);
            }
            let d = raw[i].depth;
            if d == 0 || d > path.len() {
                assert(!raw_node_valid(views, i as int));
                return None;
            }
            let p = path[d - 1];
            if !raw[i].range.is_ordered() || !nodes[p].range.does_contain(&raw[i].range) {
                assert(!raw_node_valid(views, i as int));
                return None;
            }
            if d < path.len() {
                let s = path[d];
                if !nodes[s].range.does_end_before(&raw[i].range) {
                    assert(!raw_node_valid(views, i as int));
                    return None;
                }
            }
            assert(raw_node_valid(views, i as int));
            let ghost old_nodes = nodes@;
            let ghost old_path = path@;
            let slot = nodes[p].children.len();
            nodes.push(
                SyntaxNode {
                    kind: raw[i].kind.clone(),
                    named: raw[i].named,
                    field: clone_field(&raw[i].field),
                    range: raw[i].range,
                    parent: Some(p),
                    slot,
                    children: Vec::new(),
                },
            );
            nodes[p].children.push(i);
            path.truncate(d);
            path.push(i);
            proof {
                lemma_build_step(views, old_nodes, old_path, nodes@, path@, i as int);
            }
            i += 1;
        }
        proof {
            lemma_build_done(views, nodes@, path@);
        }
        Some(SyntaxTree { nodes })
    }
}


/// The two trees are the same, node for node: the same kind, field and
/// range, under the same parent, over the same children.
pub open spec fn same_tree(a: &SyntaxTree, b: &SyntaxTree) -> bool {
    &&& a.nodes@.len() == b.nodes@.len()
    &&& forall|i: int|
        0 <= i < a.nodes@.len() ==> {
            &&& (#[trigger] a.nodes@[i]).kind@ == b.nodes@[i].kind@
            &&& a.nodes@[i].named == b.nodes@[i].named
            &&& opt_text(a.nodes@[i].field) == opt_text(b.nodes@[i].field)
            &&& a.nodes@[i].range == b.nodes@[i].range
            &&& a.nodes@[i].parent == b.nodes@[i].parent
            &&& a.nodes@[i].slot == b.nodes@[i].slot
            &&& a.nodes@[i].children@ == b.nodes@[i].children@
        }
}

/// Two well-formed trees that mirror the same list have the same child at
/// each position under each node.
proof fn lemma_same_child(a: &SyntaxTree, b: &SyntaxTree, raw: Seq<RawNodeView>, p: int, k: int)
    requires
        a.wf(),
        b.wf(),
        a.mirrors(raw),
        b.mirrors(raw),
        0 <= p < raw.len(),
        0 <= k < a.nodes@[p].children@.len(),
    ensures
        k < b.nodes@[p].children@.len(),
        a.nodes@[p].children@[k] == b.nodes@[p].children@[k],
    decreases k,
{
    let kids_a = a.nodes@[p].children@;
    let kids_b = b.nodes@[p].children@;
    assert(node_ok(a.nodes@, p));
    assert(node_ok(b.nodes@, p));
    // The child of `a` at `k` is a child of `b`, at `k` or later.
    let c = kids_a[k] as int;
    assert(a.nodes@[c].parent == Some(p as usize));
    assert(b.nodes@[c].parent == a.nodes@[c].parent);
    assert(node_ok(b.nodes@, c));
    let m = b.nodes@[c].slot as int;
    assert(kids_b[m] == c);
    if m < k {
        lemma_same_child(a, b, raw, p, m);
        assert(kids_a[m] < kids_a[k]);
    }
    // The child of `b` at `k` is a child of `a`, at `k` or later.
    let d = kids_b[k] as int;
    assert(b.nodes@[d].parent == Some(p as usize));
    assert(a.nodes@[d].parent == b.nodes@[d].parent);
    assert(node_ok(a.nodes@, d));
    let n = a.nodes@[d].slot as int;
    assert(kids_a[n] == d);
    if n < k {
        lemma_same_child(a, b, raw, p, n);
        assert(kids_b[n] < kids_b[k]);
    }
    if k < m {
        assert(kids_b[k] < kids_b[m]);
    }
    if k < n {
        assert(kids_a[k] < kids_a[n]);
    }
}

/// A list of nodes describes one tree: two well-formed trees that mirror the
/// same list are the same.
pub proof fn lemma_one_tree(a: &SyntaxTree, b: &SyntaxTree, raw: Seq<RawNodeView>)
    requires
        a.wf(),
        b.wf(),
        a.mirrors(raw),
        b.mirrors(raw),
    ensures
        same_tree(a, b),
{
    assert forall|i: int| 0 <= i < a.nodes@.len() implies {
        &&& (#[trigger] a.nodes@[i]).kind@ == b.nodes@[i].kind@
        &&& a.nodes@[i].named == b.nodes@[i].named
        &&& opt_text(a.nodes@[i].field) == opt_text(b.nodes@[i].field)
        &&& a.nodes@[i].range == b.nodes@[i].range
        &&& a.nodes@[i].parent == b.nodes@[i].parent
        &&& a.nodes@[i].slot == b.nodes@[i].slot
        &&& a.nodes@[i].children@ == b.nodes@[i].children@
    } by {
        assert(b.nodes@[i].kind@ == raw[i].kind);
        assert(node_ok(a.nodes@, i));
        assert(node_ok(b.nodes@, i));
        let kids_a = a.nodes@[i].children@;
        let kids_b = b.nodes@[i].children@;
        assert forall|k: int| 0 <= k < kids_a.len() implies k < kids_b.len() && kids_a[k]
            == kids_b[k] by {
            lemma_same_child(a, b, raw, i, k);
        }
        if kids_a.len() > 0 {
            lemma_same_child(a, b, raw, i, kids_a.len() - 1);
        }
        if kids_b.len() > 0 {
            lemma_same_child(b, a, raw, i, kids_b.len() - 1);
        }
        assert(kids_a =~= kids_b);
        if i > 0 {
            let p = a.nodes@[i].parent->0 as int;
            assert(node_ok(a.nodes@, p));
            assert(node_ok(b.nodes@, p));
            let sa = a.nodes@[i].slot as int;
            let sb = b.nodes@[i].slot as int;
            lemma_same_child(a, b, raw, p, sa);
            let kids = a.nodes@[p].children@;
            assert(b.nodes@[p].children@[sa] == i);
            assert(b.nodes@[p].children@[sb] == i);
            if sa < sb {
                assert(b.nodes@[p].children@[sa] < b.nodes@[p].children@[sb]);
            }
            if sb < sa {
                assert(b.nodes@[p].children@[sb] < b.nodes@[p].children@[sa]);
            }
        }
    }
}

} // verus!
