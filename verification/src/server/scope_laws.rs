//! What holds of the variables in scope at a node.

use crate::server::document::{declared, globals_upto, spec_global_vars, VariableView};
use crate::server::locate_laws::is_ancestor_or_self;
use crate::server::utils::{declared_list, level_decls, resolve, scope_locals};
use crate::syntax::{node_ok, SyntaxTree};
use vstd::prelude::*;

verus! {

/// Node `d` is `a` or a sibling before `a`, and both sit below the top
/// level.
pub open spec fn visible_at(tree: &SyntaxTree, d: int, a: int) -> bool {
    &&& 0 <= d < tree.nodes@.len()
    &&& 0 <= a < tree.nodes@.len()
    &&& tree.nodes@[a].parent is Some
    &&& tree.nodes@[a].parent->0 != 0
    &&& tree.nodes@[d].parent == tree.nodes@[a].parent
    &&& tree.nodes@[d].slot <= tree.nodes@[a].slot
}

/// What node `d` declares is in scope at node `n`: on the way from `n` up to
/// the root there is a node that `d` is, or that `d` comes before as a
/// sibling.
pub open spec fn in_scope(tree: &SyntaxTree, d: int, n: int) -> bool {
    exists|a: int| is_ancestor_or_self(tree, a, n) && #[trigger] visible_at(tree, d, a)
}

/// Every global is in scope at every node, in document order, ahead of the
/// locals.
pub proof fn lemma_globals_in_scope(tree: &SyntaxTree, content: Seq<u8>, n: int)
    ensures
        resolve(tree, content, n).len() >= spec_global_vars(tree, content).len(),
        forall|k: int|
            0 <= k < spec_global_vars(tree, content).len() ==> resolve(tree, content, n)[k]
                == spec_global_vars(tree, content)[k],
{
}

/// Each declaration of a level comes from the node on the way or from a
/// sibling before it.
proof fn lemma_level_sound(tree: &SyntaxTree, content: Seq<u8>, kids: Seq<usize>, j: int, k: int) -> (m:
    int)
    requires
        0 <= j < kids.len(),
        0 <= k < level_decls(tree, content, kids, j).len(),
    ensures
        0 <= m <= j,
        declared(tree, content, kids[m] as int) == Some(level_decls(tree, content, kids, j)[k]),
    decreases j,
{
    let head = declared_list(tree, content, kids[j] as int);
    if k < head.len() {
        j
    } else {
        assert(j > 0) by {
            if j == 0 {
                assert(level_decls(tree, content, kids, -1).len() == 0);
            }
        }
        lemma_level_sound(tree, content, kids, j - 1, k - head.len())
    }
}

/// What the node on the way, or a sibling before it, declares is among the
/// declarations of the level.
proof fn lemma_level_complete(tree: &SyntaxTree, content: Seq<u8>, kids: Seq<usize>, j: int, m: int)
    requires
        0 <= m <= j < kids.len(),
        declared(tree, content, kids[m] as int) is Some,
    ensures
        level_decls(tree, content, kids, j).contains(declared(tree, content, kids[m] as int)->0),
    decreases j,
{
    let head = declared_list(tree, content, kids[j] as int);
    let rest = level_decls(tree, content, kids, j - 1);
    let v = declared(tree, content, kids[m] as int)->0;
    if m == j {
        assert((head + rest)[0] == v);
    } else {
        lemma_level_complete(tree, content, kids, j - 1, m);
        let i = choose|i: int| 0 <= i < rest.len() && rest[i] == v;
        assert((head + rest)[head.len() + i] == v);
    }
}

/// Every local in scope at `n` is declared by a node that is on the way from
/// `n` to the root or a sibling before such a node. So nothing that is
/// declared inside a block beside the way, one that does not enclose `n`, is
/// in scope.
pub proof fn lemma_scope_sound(tree: &SyntaxTree, content: Seq<u8>, n: int, k: int) -> (d: int)
    requires
        tree.wf(),
        0 <= n < tree.nodes@.len(),
        0 <= k < scope_locals(tree, content, n).len(),
    ensures
        in_scope(tree, d, n),
        declared(tree, content, d) == Some(scope_locals(tree, content, n)[k]),
    decreases n,
{
    assert(node_ok(tree.nodes@, n));
    let q = tree.nodes@[n].parent->0 as int;
    let kids = tree.nodes@[q].children@;
    let slot = tree.nodes@[n].slot as int;
    let level = if q == 0 {
        Seq::<VariableView>::empty()
    } else {
        level_decls(tree, content, kids, slot)
    };
    if k < level.len() {
        let m = lemma_level_sound(tree, content, kids, slot, k);
        assert(node_ok(tree.nodes@, q));
        let d = kids[m] as int;
        assert(visible_at(tree, d, n));
        assert(is_ancestor_or_self(tree, n, n));
        d
    } else {
        let d = lemma_scope_sound(tree, content, q, k - level.len());
        let a = choose|a: int| is_ancestor_or_self(tree, a, q) && #[trigger] visible_at(tree, d, a);
        assert(is_ancestor_or_self(tree, a, n));
        d
    }
}

/// What a node declares is in scope at every node from which it is visible:
/// at the node itself, at the siblings after it, and at everything below
/// them.
pub proof fn lemma_scope_complete(tree: &SyntaxTree, content: Seq<u8>, n: int, d: int)
    requires
        tree.wf(),
        0 <= n < tree.nodes@.len(),
        in_scope(tree, d, n),
        declared(tree, content, d) is Some,
    ensures
        scope_locals(tree, content, n).contains(declared(tree, content, d)->0),
    decreases n,
{
    let v = declared(tree, content, d)->0;
    let a = choose|a: int| is_ancestor_or_self(tree, a, n) && #[trigger] visible_at(tree, d, a);
    assert(node_ok(tree.nodes@, n));
    if a == n {
        let q = tree.nodes@[n].parent->0 as int;
        let kids = tree.nodes@[q].children@;
        let slot = tree.nodes@[n].slot as int;
        assert(node_ok(tree.nodes@, d));
        assert(kids[tree.nodes@[d].slot as int] == d);
        lemma_level_complete(tree, content, kids, slot, tree.nodes@[d].slot as int);
        let level = level_decls(tree, content, kids, slot);
        let rest = scope_locals(tree, content, q);
        let i = choose|i: int| 0 <= i < level.len() && level[i] == v;
        assert((level + rest)[i] == v);
    } else {
        let q = tree.nodes@[n].parent->0 as int;
        assert(is_ancestor_or_self(tree, a, q));
        assert(in_scope(tree, d, q));
        lemma_scope_complete(tree, content, q, d);
        let level = if q == 0 {
            Seq::<VariableView>::empty()
        } else {
            level_decls(tree, content, tree.nodes@[q].children@, tree.nodes@[n].slot as int)
        };
        let rest = scope_locals(tree, content, q);
        let i = choose|i: int| 0 <= i < rest.len() && rest[i] == v;
        assert((level + rest)[level.len() + i] == v);
    }
}

/// A node whose declaration is in scope at `n` sits directly under a node
/// that encloses `n`.
pub proof fn lemma_in_scope_under_ancestor(tree: &SyntaxTree, n: int, d: int)
    requires
        tree.wf(),
        0 <= n < tree.nodes@.len(),
        in_scope(tree, d, n),
    ensures
        tree.nodes@[d].parent is Some,
        tree.nodes@[d].parent->0 != n,
        is_ancestor_or_self(tree, tree.nodes@[d].parent->0 as int, n),
{
    let a = choose|a: int| is_ancestor_or_self(tree, a, n) && #[trigger] visible_at(tree, d, a);
    crate::server::locate_laws::lemma_ancestor_contains(tree, a, n);
    assert(node_ok(tree.nodes@, a));
    crate::server::locate_laws::lemma_parent_is_ancestor(tree, a, n);
}


/// Each global among those of the first `upto` children of the root is
/// declared by one of these children.
proof fn lemma_global_slot(tree: &SyntaxTree, content: Seq<u8>, upto: int, k: int) -> (slot: int)
    requires
        0 <= k < globals_upto(tree, content, upto).len(),
    ensures
        0 <= slot < upto <= tree.nodes@[0].children@.len(),
        declared(tree, content, tree.nodes@[0].children@[slot] as int) == Some(
            globals_upto(tree, content, upto)[k],
        ),
    decreases upto,
{
    let before = globals_upto(tree, content, upto - 1);
    if k < before.len() {
        lemma_global_slot(tree, content, upto - 1, k)
    } else {
        upto - 1
    }
}

/// The globals stand in document order: of two globals, the one that comes
/// first in the list is declared first in the document, and its declaration
/// ends before the other starts.
pub proof fn lemma_globals_in_document_order(tree: &SyntaxTree, content: Seq<u8>, upto: int, i: int, j: int)
    requires
        tree.wf(),
        0 <= i < j < globals_upto(tree, content, upto).len(),
    ensures
        globals_upto(tree, content, upto)[i].range.ends_before(
            globals_upto(tree, content, upto)[j].range,
        ),
    decreases upto,
{
    let kids = tree.nodes@[0].children@;
    let before = globals_upto(tree, content, upto - 1);
    if j < before.len() {
        lemma_globals_in_document_order(tree, content, upto - 1, i, j);
    } else {
        let slot = lemma_global_slot(tree, content, upto - 1, i);
        assert(node_ok(tree.nodes@, 0));
        assert(tree.nodes@[kids[slot] as int].range.ends_before(tree.nodes@[kids[upto - 1] as int].range));
    }
}


/// No other declaration has the range of the node `d`.
pub open spec fn range_is_its_own(tree: &SyntaxTree, content: Seq<u8>, d: int) -> bool {
    forall|e: int|
        0 <= e < tree.nodes@.len() && e != d && #[trigger] declared(tree, content, e) is Some
            ==> tree.nodes@[e].range != tree.nodes@[d].range
}

/// A declaration that is not in scope at a node is not among the variables
/// there, told by its range: no variable in scope at `n`, global or local,
/// has the range of a declaration `d` below the top level that is neither on
/// the way from `n` to the root nor a sibling before a node on the way. No
/// other declaration may have the very range of `d`.
pub proof fn lemma_out_of_scope_by_range(tree: &SyntaxTree, content: Seq<u8>, n: int, d: int, k: int)
    requires
        tree.wf(),
        0 <= n < tree.nodes@.len(),
        0 < d < tree.nodes@.len(),
        tree.nodes@[d].parent != Some(0usize),
        range_is_its_own(tree, content, d),
        !in_scope(tree, d, n),
        0 <= k < resolve(tree, content, n).len(),
    ensures
        resolve(tree, content, n)[k].range != tree.nodes@[d].range,
{
    let globals = spec_global_vars(tree, content);
    let e = if k < globals.len() {
        let slot = lemma_global_slot(tree, content, tree.nodes@[0].children@.len() as int, k);
        assert(node_ok(tree.nodes@, 0));
        tree.nodes@[0].children@[slot] as int
    } else {
        lemma_scope_sound(tree, content, n, k - globals.len())
    };
    assert(declared(tree, content, e) == Some(resolve(tree, content, n)[k]));
    assert(e != d);
}

} // verus!
