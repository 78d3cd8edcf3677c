//! How often a rename edits a node, and in what order its edits come.

use crate::server::locate_laws::{is_ancestor_or_self, lemma_ancestor_contains};
use crate::server::rename::{
    following_siblings, opt_node, parent_or_root, rename_targets, RenameType,
};
use crate::server::rename_laws::{
    lemma_below_is_transitive, lemma_children_with_field, lemma_field_child, own_site, rename_sites, rename_sites_in, variable_rename_sites,
};
use crate::syntax::{node_ok, Range, SyntaxTree};
use vstd::prelude::*;

verus! {

/// The nodes of the list are children of `node`, and none stands twice.
pub open spec fn children_once(tree: &SyntaxTree, node: int, targets: Seq<usize>) -> bool {
    &&& forall|m: int|
        0 <= m < targets.len() ==> node < (#[trigger] targets[m]) < tree.nodes@.len()
            && tree.nodes@[targets[m] as int].parent == Some(node as usize)
    &&& forall|a: int, b: int|
        0 <= a < b < targets.len() ==> (#[trigger] targets[a]) != (#[trigger] targets[b])
}

/// The nodes that a rename goes on into from `node` are children of `node`,
/// and none stands twice.
pub open spec fn targets_are_children(tree: &SyntaxTree, node: int) -> bool {
    children_once(tree, node, rename_targets(tree, node))
}

/// Two lists of at most one child each, of which one child fills one field
/// and the other another, hold children of the node, and no child twice.
proof fn lemma_two_fields(
    tree: &SyntaxTree,
    node: int,
    first: Seq<usize>,
    second: Seq<usize>,
    one: Seq<char>,
    other: Seq<char>,
)
    requires
        one != other,
        first.len() <= 1,
        second.len() <= 1,
        forall|m: int|
            0 <= m < first.len() ==> node < (#[trigger] first[m]) < tree.nodes@.len()
                && tree.nodes@[first[m] as int].parent == Some(node as usize) && tree.has_field(
                first[m] as int,
                one,
            ),
        forall|m: int|
            0 <= m < second.len() ==> node < (#[trigger] second[m]) < tree.nodes@.len()
                && tree.nodes@[second[m] as int].parent == Some(node as usize) && tree.has_field(
                second[m] as int,
                other,
            ),
    ensures
        forall|m: int|
            0 <= m < (first + second).len() ==> node < (#[trigger] (first + second)[m])
                < tree.nodes@.len() && tree.nodes@[(first + second)[m] as int].parent == Some(
                node as usize,
            ),
        forall|a: int, b: int|
            0 <= a < b < (first + second).len() ==> (#[trigger] (first + second)[a]) != (#[trigger] (
                first + second)[b]),
{
    let both = first + second;
    assert forall|m: int| 0 <= m < both.len() implies node < (#[trigger] both[m]) < tree.nodes@.len()
        && tree.nodes@[both[m] as int].parent == Some(node as usize) by {
        if m < first.len() {
            assert(both[m] == first[m]);
        } else {
            assert(both[m] == second[m - first.len()]);
        }
    }
    assert forall|a: int, b: int| 0 <= a < b < both.len() implies (#[trigger] both[a]) != (
    #[trigger] both[b]) by {
        assert(both[a] == first[a]);
        assert(both[b] == second[b - first.len()]);
    }
}

/// The nodes that a rename goes on into are children of the node, and none
/// of them twice.
pub proof fn lemma_targets_are_children(tree: &SyntaxTree, node: int)
    requires
        tree.wf(),
        0 <= node < tree.nodes@.len(),
    ensures
        targets_are_children(tree, node),
{
    reveal_strlit("condition");
    reveal_strlit("body");
    reveal_strlit("else");
    reveal_strlit("name");
    reveal_strlit("value");
    reveal_strlit("left");
    reveal_strlit("right");
    assert("body"@[0] != "else"@[0]);
    assert("name"@.len() == 4 && "value"@.len() == 5);
    assert("left"@.len() == 4 && "right"@.len() == 5);
    assert(node_ok(tree.nodes@, node));
    lemma_field_child(tree, node, "condition"@, 0);
    lemma_field_child(tree, node, "body"@, 0);
    lemma_field_child(tree, node, "else"@, 0);
    lemma_field_child(tree, node, "value"@, 0);
    lemma_field_child(tree, node, "left"@, 0);
    lemma_field_child(tree, node, "right"@, 0);
    lemma_field_child(tree, node, "operand"@, 0);
    lemma_field_child(tree, node, "name"@, 0);
    lemma_children_with_field(tree, node, "argument"@, tree.nodes@[node].children@.len() as int);
    let targets = rename_targets(tree, node);
    if node == 0 || tree.is_kind(node, "source_file"@) || tree.is_kind(node, "body"@) {
    } else if tree.is_kind(node, "while_statement"@) || tree.is_kind(node, "if_statement"@) {
        let c = opt_node(tree.spec_child_by_field(node, "condition"@));
        let b = opt_node(tree.spec_child_by_field(node, "body"@));
        let e = opt_node(tree.spec_child_by_field(node, "else"@));
        assert forall|m: int| 0 <= m < targets.len() implies node < (#[trigger] targets[m])
            < tree.nodes@.len() && tree.nodes@[targets[m] as int].parent == Some(node as usize) && (
        if m < c.len() {
            tree.has_field(targets[m] as int, "condition"@)
        } else if m < c.len() + b.len() {
            tree.has_field(targets[m] as int, "body"@)
        } else {
            tree.has_field(targets[m] as int, "else"@)
        }) by {
            if m < c.len() {
                assert(targets[m] == c[m]);
            } else if m < c.len() + b.len() {
                assert(targets[m] == b[m - c.len()]);
            } else {
                assert(targets[m] == e[m - c.len() - b.len()]);
            }
        }
    } else if tree.is_kind(node, "assignment"@) {
        let c = opt_node(tree.spec_child_by_field(node, "name"@));
        let b = opt_node(tree.spec_child_by_field(node, "value"@));
        lemma_two_fields(tree, node, c, b, "name"@, "value"@);
    } else if tree.is_kind(node, "binary_expression"@) {
        let c = opt_node(tree.spec_child_by_field(node, "left"@));
        let b = opt_node(tree.spec_child_by_field(node, "right"@));
        lemma_two_fields(tree, node, c, b, "left"@, "right"@);
    }
}

/// Two children of one node enclose no node in common.
pub proof fn lemma_siblings_share_nothing(tree: &SyntaxTree, a: int, b: int, s: int)
    requires
        tree.wf(),
        0 <= s < tree.nodes@.len(),
        0 < a < tree.nodes@.len(),
        0 < b < tree.nodes@.len(),
        a != b,
        tree.nodes@[a].parent == tree.nodes@[b].parent,
        is_ancestor_or_self(tree, a, s),
    ensures
        !is_ancestor_or_self(tree, b, s),
    decreases s,
{
    assert(node_ok(tree.nodes@, a));
    assert(node_ok(tree.nodes@, b));
    assert(node_ok(tree.nodes@, s));
    let q = tree.nodes@[a].parent->0 as int;
    if is_ancestor_or_self(tree, b, s) {
        if a == s {
            lemma_ancestor_contains(tree, b, q);
        } else if b == s {
            lemma_ancestor_contains(tree, a, q);
        } else {
            lemma_siblings_share_nothing(tree, a, b, tree.nodes@[s].parent->0 as int);
        }
    }
}

/// Node `s` is where a rename that starts at `top` may edit: for a variable,
/// at `top` or below it; for a function, right under such a node.
pub open spec fn hangs_below(tree: &SyntaxTree, top: int, s: int, rename_type: RenameType) -> bool {
    if rename_type == RenameType::Function {
        tree.nodes@[s].parent matches Some(w) && w < s && is_ancestor_or_self(tree, top, w as int)
    } else {
        is_ancestor_or_self(tree, top, s)
    }
}

/// Every node that a rename edits from `node` on lies at `node` or below it.
pub proof fn lemma_sites_hang_below(
    tree: &SyntaxTree,
    content: Seq<u8>,
    node: int,
    name: Seq<char>,
    rename_type: RenameType,
    k: int,
)
    requires
        tree.wf(),
        0 <= node < tree.nodes@.len(),
        0 <= k < rename_sites(tree, content, node, name, rename_type).len(),
    ensures
        node <= rename_sites(tree, content, node, name, rename_type)[k] < tree.nodes@.len(),
        hangs_below(tree, node, rename_sites(tree, content, node, name, rename_type)[k], rename_type),
        is_ancestor_or_self(tree, node, rename_sites(tree, content, node, name, rename_type)[k]),
    decreases tree.nodes@.len() - node, 1int, 0int,
{
    let own = own_site(tree, content, node, name, rename_type);
    let targets = rename_targets(tree, node);
    let s = rename_sites(tree, content, node, name, rename_type)[k];
    assert(is_ancestor_or_self(tree, node, node));
    if k < own.len() {
        lemma_field_child(tree, node, "name"@, 0);
    } else {
        lemma_targets_are_children(tree, node);
        let m = lemma_sites_in_hang_below(
            tree,
            content,
            node,
            targets,
            targets.len() as int,
            name,
            rename_type,
            k - own.len(),
        );
        let t = targets[m] as int;
        assert(is_ancestor_or_self(tree, node, t));
        if rename_type == RenameType::Function {
            lemma_below_is_transitive(tree, node, t, tree.nodes@[s].parent->0 as int);
        } else {
            lemma_below_is_transitive(tree, node, t, s);
        }
    }
    lemma_ancestor_contains(tree, node, s);
}

/// Every node that a rename edits below the first `upto` targets lies at
/// one of these targets or below it.
pub proof fn lemma_sites_in_hang_below(
    tree: &SyntaxTree,
    content: Seq<u8>,
    node: int,
    targets: Seq<usize>,
    upto: int,
    name: Seq<char>,
    rename_type: RenameType,
    k: int,
) -> (m: int)
    requires
        tree.wf(),
        0 <= node < tree.nodes@.len(),
        0 <= k < rename_sites_in(tree, content, node, targets, upto, name, rename_type).len(),
    ensures
        0 <= m < upto <= targets.len(),
        node < targets[m] < tree.nodes@.len(),
        0 <= rename_sites_in(tree, content, node, targets, upto, name, rename_type)[k]
            < tree.nodes@.len(),
        hangs_below(
            tree,
            targets[m] as int,
            rename_sites_in(tree, content, node, targets, upto, name, rename_type)[k],
            rename_type,
        ),
    decreases tree.nodes@.len() - node, 0int, upto,
{
    let before = rename_sites_in(tree, content, node, targets, upto - 1, name, rename_type);
    if k < before.len() {
        lemma_sites_in_hang_below(tree, content, node, targets, upto - 1, name, rename_type, k)
    } else {
        let t = targets[upto - 1] as int;
        lemma_sites_hang_below(tree, content, t, name, rename_type, k - before.len());
        upto - 1
    }
}

/// A rename edits each node once: no node stands twice among the nodes that
/// it edits.
pub proof fn lemma_rename_edits_each_node_once(
    tree: &SyntaxTree,
    content: Seq<u8>,
    node: int,
    name: Seq<char>,
    rename_type: RenameType,
    i: int,
    j: int,
)
    requires
        tree.wf(),
        0 <= node < tree.nodes@.len(),
        0 <= i < j < rename_sites(tree, content, node, name, rename_type).len(),
    ensures
        rename_sites(tree, content, node, name, rename_type)[i] != rename_sites(
            tree,
            content,
            node,
            name,
            rename_type,
        )[j],
    decreases tree.nodes@.len() - node, 1int, 0int,
{
    let own = own_site(tree, content, node, name, rename_type);
    let targets = rename_targets(tree, node);
    let sites = rename_sites(tree, content, node, name, rename_type);
    lemma_targets_are_children(tree, node);
    if i >= own.len() {
        lemma_sites_in_differ(
            tree,
            content,
            node,
            targets,
            targets.len() as int,
            name,
            rename_type,
            i - own.len(),
            j - own.len(),
        );
    } else {
        // The node edited at `node` itself is not below any of the targets.
        lemma_field_child(tree, node, "name"@, 0);
        let m = lemma_sites_in_hang_below(
            tree,
            content,
            node,
            targets,
            targets.len() as int,
            name,
            rename_type,
            j - own.len(),
        );
        if rename_type == RenameType::Function {
            lemma_ancestor_contains(tree, targets[m] as int, tree.nodes@[sites[j]].parent->0 as int);
        } else {
            lemma_ancestor_contains(tree, targets[m] as int, sites[j]);
        }
    }
}

/// No node stands twice among the nodes that a rename edits below the first
/// `upto` of the children `targets` of `node`.
proof fn lemma_sites_in_differ(
    tree: &SyntaxTree,
    content: Seq<u8>,
    node: int,
    targets: Seq<usize>,
    upto: int,
    name: Seq<char>,
    rename_type: RenameType,
    i: int,
    j: int,
)
    requires
        tree.wf(),
        0 <= node < tree.nodes@.len(),
        children_once(tree, node, targets),
        0 <= i < j < rename_sites_in(tree, content, node, targets, upto, name, rename_type).len(),
    ensures
        rename_sites_in(tree, content, node, targets, upto, name, rename_type)[i] != rename_sites_in(
            tree,
            content,
            node,
            targets,
            upto,
            name,
            rename_type,
        )[j],
    decreases tree.nodes@.len() - node, 0int, upto,
{
    let before = rename_sites_in(tree, content, node, targets, upto - 1, name, rename_type);
    let sites = rename_sites_in(tree, content, node, targets, upto, name, rename_type);
    let t = targets[upto - 1] as int;
    if j < before.len() {
        lemma_sites_in_differ(tree, content, node, targets, upto - 1, name, rename_type, i, j);
    } else if i >= before.len() {
        lemma_rename_edits_each_node_once(
            tree,
            content,
            t,
            name,
            rename_type,
            i - before.len(),
            j - before.len(),
        );
    } else {
        // The two nodes lie below two different children of `node`.
        let m = lemma_sites_in_hang_below(tree, content, node, targets, upto - 1, name, rename_type, i);
        lemma_sites_hang_below(tree, content, t, name, rename_type, j - before.len());
        let a = targets[m] as int;
        assert(targets[m] != targets[upto - 1]);
        if sites[i] == sites[j] {
            if rename_type == RenameType::Function {
                lemma_siblings_share_nothing(tree, a, t, tree.nodes@[sites[i]].parent->0 as int);
            } else {
                lemma_siblings_share_nothing(tree, a, t, sites[i]);
            }
        }
    }
}

/// The siblings that follow a node are children of its parent, in their
/// order, and the node is not among them.
proof fn lemma_following_siblings(tree: &SyntaxTree, decl: int)
    requires
        tree.wf(),
        0 <= decl < tree.nodes@.len(),
    ensures
        children_once(tree, parent_or_root(tree, decl), following_siblings(tree, decl)),
        in_child_order(following_siblings(tree, decl)),
        forall|m: int|
            0 <= m < following_siblings(tree, decl).len() ==> decl < (
            #[trigger] following_siblings(tree, decl)[m]) && tree.nodes@[decl].range.ends_before(
                tree.nodes@[following_siblings(tree, decl)[m] as int].range,
            ),
{
    assert(node_ok(tree.nodes@, decl));
    assert(node_ok(tree.nodes@, parent_or_root(tree, decl)));
}

/// Every node that the rename of a variable edits is a node of the tree.
pub proof fn lemma_variable_sites_are_nodes(
    tree: &SyntaxTree,
    content: Seq<u8>,
    decl: int,
    name: Seq<char>,
    k: int,
)
    requires
        tree.wf(),
        0 <= decl < tree.nodes@.len(),
        variable_rename_sites(tree, content, decl, name) is Some,
        0 <= k < variable_rename_sites(tree, content, decl, name)->0.len(),
    ensures
        0 <= variable_rename_sites(tree, content, decl, name)->0[k] < tree.nodes@.len(),
{
    let siblings = following_siblings(tree, decl);
    assert(node_ok(tree.nodes@, decl));
    lemma_field_child(tree, decl, "name"@, 0);
    if k >= 1 {
        lemma_sites_in_hang_below(
            tree,
            content,
            parent_or_root(tree, decl),
            siblings,
            siblings.len() as int,
            name,
            RenameType::Variable,
            k - 1,
        );
    }
}

/// The rename of a variable edits each node once: no node stands twice
/// among the nodes that it edits.
pub proof fn lemma_variable_rename_edits_each_node_once(
    tree: &SyntaxTree,
    content: Seq<u8>,
    decl: int,
    name: Seq<char>,
    i: int,
    j: int,
)
    requires
        tree.wf(),
        0 <= decl < tree.nodes@.len(),
        variable_rename_sites(tree, content, decl, name) is Some,
        0 <= i < j < variable_rename_sites(tree, content, decl, name)->0.len(),
    ensures
        variable_rename_sites(tree, content, decl, name)->0[i] != variable_rename_sites(
            tree,
            content,
            decl,
            name,
        )->0[j],
{
    let parent = parent_or_root(tree, decl);
    let siblings = following_siblings(tree, decl);
    let sites = variable_rename_sites(tree, content, decl, name)->0;
    lemma_following_siblings(tree, decl);
    assert(node_ok(tree.nodes@, decl));
    if i >= 1 {
        lemma_sites_in_differ(
            tree,
            content,
            parent,
            siblings,
            siblings.len() as int,
            name,
            RenameType::Variable,
            i - 1,
            j - 1,
        );
    } else {
        // The name lies in the declaration, the other nodes below siblings.
        lemma_field_child(tree, decl, "name"@, 0);
        let m = lemma_sites_in_hang_below(
            tree,
            content,
            parent,
            siblings,
            siblings.len() as int,
            name,
            RenameType::Variable,
            j - 1,
        );
        let n = tree.spec_child_by_field(decl, "name"@)->0 as int;
        assert(is_ancestor_or_self(tree, decl, decl));
        assert(is_ancestor_or_self(tree, decl, n));
        if sites[j] == n {
            lemma_siblings_share_nothing(tree, decl, siblings[m] as int, n);
        }
    }
}

/// The list rises: each node has a greater number than the one before it.
pub open spec fn in_child_order(targets: Seq<usize>) -> bool {
    forall|a: int, b: int| 0 <= a < b < targets.len() ==> (#[trigger] targets[a]) < (#[trigger] targets[b])
}

/// A rename takes the parts of `node` in the order of the text: the nodes
/// that it goes on into rise, the name of a call or of a declaration of a
/// function stands before them, and it goes on into no part of an
/// identifier.
pub open spec fn takes_in_order(tree: &SyntaxTree, node: int) -> bool {
    let targets = rename_targets(tree, node);
    &&& in_child_order(targets)
    &&& (tree.is_kind(node, "function_call"@) || tree.is_kind(node, "function_declaration"@))
        ==> match tree.spec_child_by_field(node, "name"@) {
        Some(n) => forall|m: int| 0 <= m < targets.len() ==> n < #[trigger] targets[m],
        None => true,
    }
    &&& tree.is_kind(node, "identifier"@) ==> targets.len() == 0
}

/// A rename takes the parts of every node in the order of the text, as it
/// does where the fields of each node stand in the order of the grammar.
pub open spec fn walk_in_order(tree: &SyntaxTree) -> bool {
    forall|q: int| 0 <= q < tree.nodes@.len() ==> #[trigger] takes_in_order(tree, q)
}

/// Of two children of one node, the one with the smaller number ends before
/// the other starts.
proof fn lemma_siblings_in_order(tree: &SyntaxTree, a: int, b: int)
    requires
        tree.wf(),
        0 < a < b < tree.nodes@.len(),
        tree.nodes@[a].parent == tree.nodes@[b].parent,
    ensures
        tree.nodes@[a].range.ends_before(tree.nodes@[b].range),
{
    assert(node_ok(tree.nodes@, a));
    assert(node_ok(tree.nodes@, b));
    let q = tree.nodes@[a].parent->0 as int;
    assert(node_ok(tree.nodes@, q));
    let kids = tree.nodes@[q].children@;
    let sa = tree.nodes@[a].slot as int;
    let sb = tree.nodes@[b].slot as int;
    assert(kids[sa] == a && kids[sb] == b);
    if sb < sa {
        assert(kids[sb] < kids[sa]);
    }
}

/// What lies inside a range that ends before another starts ends before
/// what lies inside the other.
proof fn lemma_inside_in_order(a: Range, b: Range, c: Range, d: Range)
    requires
        a.ends_before(b),
        a.contains(c),
        b.contains(d),
    ensures
        c.ends_before(d),
{
}

/// The edits of a rename come in the order of the text, and none overlaps
/// another: of two nodes that it edits, the one edited first ends before the
/// other starts. This holds where the rename takes the parts of every node
/// in the order of the text.
pub proof fn lemma_rename_edits_in_document_order(
    tree: &SyntaxTree,
    content: Seq<u8>,
    node: int,
    name: Seq<char>,
    rename_type: RenameType,
    i: int,
    j: int,
)
    requires
        tree.wf(),
        walk_in_order(tree),
        0 <= node < tree.nodes@.len(),
        0 <= i < j < rename_sites(tree, content, node, name, rename_type).len(),
    ensures
        tree.nodes@[rename_sites(tree, content, node, name, rename_type)[i]].range.ends_before(
            tree.nodes@[rename_sites(tree, content, node, name, rename_type)[j]].range,
        ),
    decreases tree.nodes@.len() - node, 1int, 0int,
{
    let own = own_site(tree, content, node, name, rename_type);
    let targets = rename_targets(tree, node);
    let sites = rename_sites(tree, content, node, name, rename_type);
    lemma_targets_are_children(tree, node);
    assert(takes_in_order(tree, node));
    if i >= own.len() {
        lemma_sites_in_order(
            tree,
            content,
            node,
            targets,
            targets.len() as int,
            name,
            rename_type,
            i - own.len(),
            j - own.len(),
        );
    } else {
        // The name at `node` itself stands before every target.
        lemma_field_child(tree, node, "name"@, 0);
        let m = lemma_sites_in_hang_below(
            tree,
            content,
            node,
            targets,
            targets.len() as int,
            name,
            rename_type,
            j - own.len(),
        );
        let t = targets[m] as int;
        let n = sites[i];
        lemma_siblings_in_order(tree, n, t);
        lemma_ancestor_contains(tree, t, sites[j]);
        assert(node_ok(tree.nodes@, n));
        lemma_inside_in_order(
            tree.nodes@[n].range,
            tree.nodes@[t].range,
            tree.nodes@[n].range,
            tree.nodes@[sites[j]].range,
        );
    }
}

/// Of two nodes that a rename edits below the first `upto` of the children
/// `targets` of `node`, the one edited first ends before the other starts.
proof fn lemma_sites_in_order(
    tree: &SyntaxTree,
    content: Seq<u8>,
    node: int,
    targets: Seq<usize>,
    upto: int,
    name: Seq<char>,
    rename_type: RenameType,
    i: int,
    j: int,
)
    requires
        tree.wf(),
        walk_in_order(tree),
        0 <= node < tree.nodes@.len(),
        children_once(tree, node, targets),
        in_child_order(targets),
        0 <= i < j < rename_sites_in(tree, content, node, targets, upto, name, rename_type).len(),
    ensures
        tree.nodes@[rename_sites_in(
            tree,
            content,
            node,
            targets,
            upto,
            name,
            rename_type,
        )[i]].range.ends_before(
            tree.nodes@[rename_sites_in(tree, content, node, targets, upto, name, rename_type)[j]].range,
        ),
    decreases tree.nodes@.len() - node, 0int, upto,
{
    let before = rename_sites_in(tree, content, node, targets, upto - 1, name, rename_type);
    let sites = rename_sites_in(tree, content, node, targets, upto, name, rename_type);
    let t = targets[upto - 1] as int;
    if j < before.len() {
        lemma_sites_in_order(tree, content, node, targets, upto - 1, name, rename_type, i, j);
    } else if i >= before.len() {
        lemma_rename_edits_in_document_order(
            tree,
            content,
            t,
            name,
            rename_type,
            i - before.len(),
            j - before.len(),
        );
    } else {
        // The first node lies below an earlier child of `node`.
        let m = lemma_sites_in_hang_below(tree, content, node, targets, upto - 1, name, rename_type, i);
        lemma_sites_hang_below(tree, content, t, name, rename_type, j - before.len());
        let a = targets[m] as int;
        assert(targets[m] < targets[upto - 1]);
        lemma_siblings_in_order(tree, a, t);
        lemma_ancestor_contains(tree, a, sites[i]);
        lemma_ancestor_contains(tree, t, sites[j]);
        lemma_inside_in_order(
            tree.nodes@[a].range,
            tree.nodes@[t].range,
            tree.nodes@[sites[i]].range,
            tree.nodes@[sites[j]].range,
        );
    }
}

/// The edits of the rename of a variable come in the order of the text, and
/// none overlaps another: of two nodes that it edits, the one edited first
/// ends before the other starts. This holds where the rename takes the parts
/// of every node in the order of the text.
pub proof fn lemma_variable_rename_edits_in_document_order(
    tree: &SyntaxTree,
    content: Seq<u8>,
    decl: int,
    name: Seq<char>,
    i: int,
    j: int,
)
    requires
        tree.wf(),
        walk_in_order(tree),
        0 <= decl < tree.nodes@.len(),
        variable_rename_sites(tree, content, decl, name) is Some,
        0 <= i < j < variable_rename_sites(tree, content, decl, name)->0.len(),
    ensures
        tree.nodes@[variable_rename_sites(tree, content, decl, name)->0[i]].range.ends_before(
            tree.nodes@[variable_rename_sites(tree, content, decl, name)->0[j]].range,
        ),
{
    let parent = parent_or_root(tree, decl);
    let siblings = following_siblings(tree, decl);
    let sites = variable_rename_sites(tree, content, decl, name)->0;
    lemma_following_siblings(tree, decl);
    if i >= 1 {
        lemma_sites_in_order(
            tree,
            content,
            parent,
            siblings,
            siblings.len() as int,
            name,
            RenameType::Variable,
            i - 1,
            j - 1,
        );
    } else {
        lemma_field_child(tree, decl, "name"@, 0);
        let m = lemma_sites_in_hang_below(
            tree,
            content,
            parent,
            siblings,
            siblings.len() as int,
            name,
            RenameType::Variable,
            j - 1,
        );
        let n = tree.spec_child_by_field(decl, "name"@)->0 as int;
        let t = siblings[m] as int;
        assert(node_ok(tree.nodes@, n));
        lemma_ancestor_contains(tree, t, sites[j]);
        lemma_inside_in_order(
            tree.nodes@[decl].range,
            tree.nodes@[t].range,
            tree.nodes@[n].range,
            tree.nodes@[sites[j]].range,
        );
    }
}

} // verus!
