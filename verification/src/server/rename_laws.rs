//! What holds of the edits of a rename.

use crate::server::document::{is_declaration, node_text};
use crate::server::locate_laws::{
    apart, is_ancestor_or_self, lemma_ancestor_contains, lemma_apart,
};
use crate::server::rename::{
    following_siblings, own_edit, parent_or_root, rename_edits, rename_edits_in,
    rename_targets, variable_rename_edits, EditView, RenameType,
};
use crate::syntax::opt_text;
use crate::server::utils::lsp_range;
use crate::syntax::{node_ok, SyntaxTree};
use vstd::prelude::*;
use vstd::utf8::encode_utf8;

verus! {

/// Edit `e` replaces node `n`, which reads as `old_name`, by `new_name`.
pub open spec fn replaces_name(
    tree: &SyntaxTree,
    content: Seq<u8>,
    e: EditView,
    n: int,
    old_name: Seq<char>,
    new_name: Seq<char>,
) -> bool {
    &&& 0 <= n < tree.nodes@.len()
    &&& e == (EditView { range: lsp_range(tree.nodes@[n].range), new_text: new_name })
    &&& node_text(tree, content, n) == encode_utf8(old_name)
}

/// Every edit of a rename below `node` replaces a node at or below `node`
/// that reads as the old name, by the new name.
pub proof fn lemma_rename_edits_replace_names(
    tree: &SyntaxTree,
    content: Seq<u8>,
    node: int,
    old_name: Seq<char>,
    new_name: Seq<char>,
    rename_type: RenameType,
    k: int,
) -> (n: int)
    requires
        tree.wf(),
        0 <= node < tree.nodes@.len(),
        0 <= k < rename_edits(tree, content, node, old_name, new_name, rename_type).len(),
    ensures
        replaces_name(
            tree,
            content,
            rename_edits(tree, content, node, old_name, new_name, rename_type)[k],
            n,
            old_name,
            new_name,
        ),
        is_ancestor_or_self(tree, node, n),
    decreases tree.nodes@.len() - node, 1int, 0int,
{
    let own = own_edit(tree, content, node, old_name, new_name, rename_type);
    let targets = rename_targets(tree, node);
    if k < own.len() {
        if tree.is_kind(node, "function_call"@) || tree.is_kind(node, "function_declaration"@) {
            lemma_field_child(tree, node, "name"@, 0);
            let c = tree.spec_child_by_field(node, "name"@)->0 as int;
            assert(is_ancestor_or_self(tree, node, node));
            c
        } else {
            node
        }
    } else {
        lemma_targets_are_below(tree, node);
        lemma_rename_edits_in_replace_names(
            tree,
            content,
            node,
            targets,
            targets.len() as int,
            old_name,
            new_name,
            rename_type,
            k - own.len(),
        )
    }
}

/// Every edit of a rename below the first `upto` of `targets` replaces a
/// node below `node` that reads as the old name, by the new name.
pub proof fn lemma_rename_edits_in_replace_names(
    tree: &SyntaxTree,
    content: Seq<u8>,
    node: int,
    targets: Seq<usize>,
    upto: int,
    old_name: Seq<char>,
    new_name: Seq<char>,
    rename_type: RenameType,
    k: int,
) -> (n: int)
    requires
        tree.wf(),
        0 <= node < tree.nodes@.len(),
        forall|m: int|
            0 <= m < targets.len() ==> is_ancestor_or_self(tree, node, (#[trigger] targets[m]) as int),
        0 <= k < rename_edits_in(
            tree,
            content,
            node,
            targets,
            upto,
            old_name,
            new_name,
            rename_type,
        ).len(),
    ensures
        replaces_name(
            tree,
            content,
            rename_edits_in(tree, content, node, targets, upto, old_name, new_name, rename_type)[k],
            n,
            old_name,
            new_name,
        ),
        is_ancestor_or_self(tree, node, n),
        exists|m: int|
            0 <= m < upto && m < targets.len() && is_ancestor_or_self(
                tree,
                (#[trigger] targets[m]) as int,
                n,
            ),
    decreases tree.nodes@.len() - node, 0int, upto,
{
    let before = rename_edits_in(
        tree,
        content,
        node,
        targets,
        upto - 1,
        old_name,
        new_name,
        rename_type,
    );
    let t = targets[upto - 1] as int;
    if k < before.len() {
        let n = lemma_rename_edits_in_replace_names(
            tree,
            content,
            node,
            targets,
            upto - 1,
            old_name,
            new_name,
            rename_type,
            k,
        );
        n
    } else {
        assert(node < t < tree.nodes@.len());
        let n = lemma_rename_edits_replace_names(
            tree,
            content,
            t,
            old_name,
            new_name,
            rename_type,
            k - before.len(),
        );
        lemma_below_is_transitive(tree, node, t, n);
        assert(is_ancestor_or_self(tree, targets[upto - 1] as int, n));
        n
    }
}

/// What is below a node below `a` is below `a`.
pub proof fn lemma_below_is_transitive(tree: &SyntaxTree, a: int, b: int, n: int)
    requires
        is_ancestor_or_self(tree, a, b),
        is_ancestor_or_self(tree, b, n),
    ensures
        is_ancestor_or_self(tree, a, n),
    decreases n,
{
    if b != n {
        let q = tree.nodes@[n].parent->0 as int;
        lemma_below_is_transitive(tree, a, b, q);
    }
}

/// The nodes that a rename goes on into sit below the node.
pub proof fn lemma_targets_are_below(tree: &SyntaxTree, node: int)
    requires
        tree.wf(),
        0 <= node < tree.nodes@.len(),
    ensures
        forall|m: int|
            0 <= m < rename_targets(tree, node).len() ==> is_ancestor_or_self(
                tree,
                node,
                (#[trigger] rename_targets(tree, node)[m]) as int,
            ),
{
    let targets = rename_targets(tree, node);
    assert(node_ok(tree.nodes@, node));
    assert(is_ancestor_or_self(tree, node, node));
    lemma_field_child(tree, node, "condition"@, 0);
    lemma_field_child(tree, node, "body"@, 0);
    lemma_field_child(tree, node, "else"@, 0);
    lemma_field_child(tree, node, "value"@, 0);
    lemma_field_child(tree, node, "left"@, 0);
    lemma_field_child(tree, node, "right"@, 0);
    lemma_field_child(tree, node, "operand"@, 0);
    lemma_field_child(tree, node, "name"@, 0);
    lemma_children_with_field(tree, node, "argument"@, tree.nodes@[node].children@.len() as int);
    assert forall|m: int| 0 <= m < targets.len() implies is_ancestor_or_self(
        tree,
        node,
        (#[trigger] targets[m]) as int,
    ) by {
        let t = targets[m] as int;
        assert(node < t < tree.nodes@.len() && tree.nodes@[t].parent == Some(node as usize));
    }
}

/// The first child that fills a field is a child of the node, and fills the
/// field.
pub proof fn lemma_field_child(tree: &SyntaxTree, node: int, name: Seq<char>, from: int)
    requires
        tree.wf(),
        0 <= node < tree.nodes@.len(),
        0 <= from,
    ensures
        tree.first_with_field(node, name, from) matches Some(c) ==> node < c < tree.nodes@.len()
            && tree.nodes@[c as int].parent == Some(node as usize) && tree.has_field(
            c as int,
            name,
        ),
    decreases tree.nodes@[node].children@.len() - from,
{
    let kids = tree.nodes@[node].children@;
    assert(node_ok(tree.nodes@, node));
    if from >= kids.len() {
    } else if tree.has_field(kids[from] as int, name) {
    } else {
        lemma_field_child(tree, node, name, from + 1);
    }
}

/// The children that fill a field are children of the node, in their order.
pub proof fn lemma_children_with_field(tree: &SyntaxTree, node: int, name: Seq<char>, upto: int)
    requires
        tree.wf(),
        0 <= node < tree.nodes@.len(),
    ensures
        forall|m: int|
            0 <= m < tree.with_field_upto(node, name, upto).len() ==> {
                let c = (#[trigger] tree.with_field_upto(node, name, upto)[m]) as int;
                &&& node < c < tree.nodes@.len()
                &&& tree.nodes@[c].parent == Some(node as usize)
                &&& tree.nodes@[c].slot < upto
            },
        forall|a: int, b: int|
            0 <= a < b < tree.with_field_upto(node, name, upto).len() ==> (
            #[trigger] tree.with_field_upto(node, name, upto)[a]) < (#[trigger] tree.with_field_upto(
                node,
                name,
                upto,
            )[b]),
    decreases upto,
{
    let kids = tree.nodes@[node].children@;
    assert(node_ok(tree.nodes@, node));
    if upto <= 0 || upto > kids.len() {
    } else {
        lemma_children_with_field(tree, node, name, upto - 1);
        let before = tree.with_field_upto(node, name, upto - 1);
        assert forall|a: int| 0 <= a < before.len() implies (#[trigger] before[a]) < kids[upto - 1] by {
            let s = tree.nodes@[before[a] as int].slot as int;
            assert(node_ok(tree.nodes@, before[a] as int));
            assert(kids[s] == before[a]);
        }
    }
}

/// A rename of a variable edits the name in the declaration first. Every
/// edit after that replaces an identifier that reads as the old name, by the
/// new name, and that identifier comes after the declaration: nothing before
/// the declaration, and nothing inside it, is touched.
pub proof fn lemma_variable_rename_goes_forward(
    tree: &SyntaxTree,
    content: Seq<u8>,
    decl: int,
    old_name: Seq<char>,
    new_name: Seq<char>,
    k: int,
) -> (n: int)
    requires
        tree.wf(),
        0 <= decl < tree.nodes@.len(),
        variable_rename_edits(tree, content, decl, old_name, new_name) is Some,
        1 <= k < variable_rename_edits(tree, content, decl, old_name, new_name)->0.len(),
    ensures
        replaces_name(
            tree,
            content,
            variable_rename_edits(tree, content, decl, old_name, new_name)->0[k],
            n,
            old_name,
            new_name,
        ),
        tree.nodes@[decl].range.ends_before(tree.nodes@[n].range),
{
    let parent = parent_or_root(tree, decl);
    let siblings = following_siblings(tree, decl);
    assert(node_ok(tree.nodes@, decl));
    assert(node_ok(tree.nodes@, parent));
    let kids = tree.nodes@[parent].children@;
    let slot = tree.nodes@[decl].slot as int;
    assert forall|m: int| 0 <= m < siblings.len() implies is_ancestor_or_self(
        tree,
        parent,
        (#[trigger] siblings[m]) as int,
    ) by {
        let s = kids[slot + 1 + m] as int;
        assert(siblings[m] == s);
        assert(is_ancestor_or_self(tree, parent, parent));
        assert(parent < s < tree.nodes@.len());
    }
    let n = lemma_rename_edits_in_replace_names(
        tree,
        content,
        parent,
        siblings,
        siblings.len() as int,
        old_name,
        new_name,
        RenameType::Variable,
        k - 1,
    );
    let m = choose|m: int|
        0 <= m < siblings.len() && is_ancestor_or_self(tree, (#[trigger] siblings[m]) as int, n);
    let s = kids[slot + 1 + m] as int;
    assert(siblings[m] == s);
    lemma_ancestor_contains(tree, s, n);
    assert(kids[slot] == decl);
    assert(tree.nodes@[kids[slot] as int].range.ends_before(tree.nodes@[kids[slot + 1 + m] as int].range));
    n
}

/// Node `n` as a site of a rename, if it reads as `name`.
pub open spec fn site_if_named(tree: &SyntaxTree, content: Seq<u8>, n: int, name: Seq<char>) -> Seq<int> {
    if node_text(tree, content, n) == encode_utf8(name) {
        seq![n]
    } else {
        Seq::empty()
    }
}

/// The node that a rename of `name` edits at `node` itself: the name of a
/// call or of a declaration for a function, an identifier for a variable.
pub open spec fn own_site(
    tree: &SyntaxTree,
    content: Seq<u8>,
    node: int,
    name: Seq<char>,
    rename_type: RenameType,
) -> Seq<int> {
    if tree.is_kind(node, "function_call"@) || tree.is_kind(node, "function_declaration"@) {
        if rename_type == RenameType::Function {
            match tree.spec_child_by_field(node, "name"@) {
                Some(n) => site_if_named(tree, content, n as int, name),
                None => Seq::empty(),
            }
        } else {
            Seq::empty()
        }
    } else if tree.is_kind(node, "identifier"@) {
        if rename_type == RenameType::Variable {
            site_if_named(tree, content, node, name)
        } else {
            Seq::empty()
        }
    } else {
        Seq::empty()
    }
}

/// The nodes that a rename of `name` edits at or below `node`, in document
/// order.
pub open spec fn rename_sites(
    tree: &SyntaxTree,
    content: Seq<u8>,
    node: int,
    name: Seq<char>,
    rename_type: RenameType,
) -> Seq<int>
    decreases tree.nodes@.len() - node, 1int, 0int,
{
    own_site(tree, content, node, name, rename_type) + rename_sites_in(
        tree,
        content,
        node,
        rename_targets(tree, node),
        rename_targets(tree, node).len() as int,
        name,
        rename_type,
    )
}

/// The nodes that a rename of `name` edits below the first `upto` of the
/// `targets` of `node`.
pub open spec fn rename_sites_in(
    tree: &SyntaxTree,
    content: Seq<u8>,
    node: int,
    targets: Seq<usize>,
    upto: int,
    name: Seq<char>,
    rename_type: RenameType,
) -> Seq<int>
    decreases tree.nodes@.len() - node, 0int, upto,
{
    if upto <= 0 || upto > targets.len() {
        Seq::empty()
    } else {
        let t = targets[upto - 1] as int;
        rename_sites_in(tree, content, node, targets, upto - 1, name, rename_type) + if node < t
            < tree.nodes@.len() {
            rename_sites(tree, content, t, name, rename_type)
        } else {
            Seq::empty()
        }
    }
}

/// The edit that writes `new_name` over node `n`.
pub open spec fn edit_at(tree: &SyntaxTree, n: int, new_name: Seq<char>) -> EditView {
    EditView { range: lsp_range(tree.nodes@[n].range), new_text: new_name }
}

/// The edits that write `new_name` over each of the nodes.
pub open spec fn edits_at(tree: &SyntaxTree, sites: Seq<int>, new_name: Seq<char>) -> Seq<EditView> {
    sites.map_values(|n: int| edit_at(tree, n, new_name))
}

/// The edits of a rename write the new name over the nodes that the rename
/// edits, one edit for each node, in order.
pub proof fn lemma_edits_are_at_sites(
    tree: &SyntaxTree,
    content: Seq<u8>,
    node: int,
    old_name: Seq<char>,
    new_name: Seq<char>,
    rename_type: RenameType,
)
    ensures
        rename_edits(tree, content, node, old_name, new_name, rename_type) == edits_at(
            tree,
            rename_sites(tree, content, node, old_name, rename_type),
            new_name,
        ),
    decreases tree.nodes@.len() - node, 1int, 0int,
{
    let targets = rename_targets(tree, node);
    lemma_edits_in_are_at_sites(
        tree,
        content,
        node,
        targets,
        targets.len() as int,
        old_name,
        new_name,
        rename_type,
    );
    let own = own_site(tree, content, node, old_name, rename_type);
    let rest = rename_sites_in(
        tree,
        content,
        node,
        targets,
        targets.len() as int,
        old_name,
        rename_type,
    );
    assert(own_edit(tree, content, node, old_name, new_name, rename_type) =~= edits_at(
        tree,
        own,
        new_name,
    ));
    assert(edits_at(tree, own + rest, new_name) =~= edits_at(tree, own, new_name) + edits_at(
        tree,
        rest,
        new_name,
    ));
}

/// The same, for the edits below the first `upto` of `targets`.
pub proof fn lemma_edits_in_are_at_sites(
    tree: &SyntaxTree,
    content: Seq<u8>,
    node: int,
    targets: Seq<usize>,
    upto: int,
    old_name: Seq<char>,
    new_name: Seq<char>,
    rename_type: RenameType,
)
    ensures
        rename_edits_in(tree, content, node, targets, upto, old_name, new_name, rename_type)
            == edits_at(
            tree,
            rename_sites_in(tree, content, node, targets, upto, old_name, rename_type),
            new_name,
        ),
    decreases tree.nodes@.len() - node, 0int, upto,
{
    if upto <= 0 || upto > targets.len() {
        assert(edits_at(tree, Seq::<int>::empty(), new_name) =~= Seq::<EditView>::empty());
    } else {
        let t = targets[upto - 1] as int;
        lemma_edits_in_are_at_sites(
            tree,
            content,
            node,
            targets,
            upto - 1,
            old_name,
            new_name,
            rename_type,
        );
        let before = rename_sites_in(tree, content, node, targets, upto - 1, old_name, rename_type);
        let last = if node < t < tree.nodes@.len() {
            rename_sites(tree, content, t, old_name, rename_type)
        } else {
            Seq::<int>::empty()
        };
        if node < t < tree.nodes@.len() {
            lemma_edits_are_at_sites(tree, content, t, old_name, new_name, rename_type);
        } else {
            assert(edits_at(tree, Seq::<int>::empty(), new_name) =~= Seq::<EditView>::empty());
        }
        assert(edits_at(tree, before + last, new_name) =~= edits_at(tree, before, new_name)
            + edits_at(tree, last, new_name));
    }
}

/// The two trees have the same shape: node for node the same kind, the same
/// field, the same parent and the same children. Where the nodes are and
/// what they read may differ.
pub open spec fn same_shape(a: &SyntaxTree, b: &SyntaxTree) -> bool {
    &&& a.nodes@.len() == b.nodes@.len()
    &&& forall|i: int|
        0 <= i < a.nodes@.len() ==> {
            &&& (#[trigger] a.nodes@[i]).kind@ == b.nodes@[i].kind@
            &&& opt_text(a.nodes@[i].field) == opt_text(b.nodes@[i].field)
            &&& a.nodes@[i].parent == b.nodes@[i].parent
            &&& a.nodes@[i].slot == b.nodes@[i].slot
            &&& a.nodes@[i].children@ == b.nodes@[i].children@
        }
}

/// The names that a rename reads are tokens: an identifier has no children,
/// and neither has the name of a call or of a declaration of a function.
pub open spec fn names_are_tokens(tree: &SyntaxTree) -> bool {
    forall|i: int|
        0 <= i < tree.nodes@.len() ==> {
            &&& (tree.is_kind(i, "identifier"@) ==> (#[trigger] tree.nodes@[i]).children@.len() == 0)
            &&& (tree_names_call(tree, i) ==> match tree.spec_child_by_field(i, "name"@) {
                Some(c) => tree.nodes@[c as int].children@.len() == 0,
                None => true,
            })
        }
}

/// The second document is the first with `new_name` written over the nodes
/// `renamed`, all of which read `old_name`: the trees have the same shape,
/// the renamed nodes read as `new_name`, and every other token reads as it
/// did. (A node that encloses a renamed node reads differently, as it must.)
pub open spec fn renamed_document(
    a: &SyntaxTree,
    text_a: Seq<u8>,
    b: &SyntaxTree,
    text_b: Seq<u8>,
    renamed: Set<int>,
    old_name: Seq<char>,
    new_name: Seq<char>,
) -> bool {
    &&& same_shape(a, b)
    &&& forall|n: int| #[trigger]
        renamed.contains(n) ==> 0 <= n < a.nodes@.len() && node_text(a, text_a, n) == encode_utf8(
            old_name,
        )
    &&& forall|n: int|
        0 <= n < a.nodes@.len() && a.nodes@[n].children@.len() == 0 ==> #[trigger] node_text(
            b,
            text_b,
            n,
        ) == if renamed.contains(n) {
            encode_utf8(new_name)
        } else {
            node_text(a, text_a, n)
        }
}

/// Trees of the same shape have the same children under each field.
proof fn lemma_same_field_child(a: &SyntaxTree, b: &SyntaxTree, node: int, name: Seq<char>, from: int)
    requires
        a.wf(),
        same_shape(a, b),
        0 <= node < a.nodes@.len(),
        0 <= from,
    ensures
        a.first_with_field(node, name, from) == b.first_with_field(node, name, from),
    decreases a.nodes@[node].children@.len() - from,
{
    let kids = a.nodes@[node].children@;
    assert(node_ok(a.nodes@, node));
    assert(a.nodes@[node].children@ == b.nodes@[node].children@);
    if from < kids.len() {
        let c = kids[from] as int;
        assert(a.nodes@[c].kind@ == b.nodes@[c].kind@);
        if !a.has_field(c, name) {
            lemma_same_field_child(a, b, node, name, from + 1);
        }
    }
}

/// Trees of the same shape have the same children under each field, all of
/// them.
proof fn lemma_same_field_children(a: &SyntaxTree, b: &SyntaxTree, node: int, name: Seq<char>, upto: int)
    requires
        a.wf(),
        same_shape(a, b),
        0 <= node < a.nodes@.len(),
    ensures
        a.with_field_upto(node, name, upto) == b.with_field_upto(node, name, upto),
    decreases upto,
{
    let kids = a.nodes@[node].children@;
    assert(node_ok(a.nodes@, node));
    assert(a.nodes@[node].children@ == b.nodes@[node].children@);
    if 0 < upto <= kids.len() {
        let c = kids[upto - 1] as int;
        assert(a.nodes@[c].kind@ == b.nodes@[c].kind@);
        lemma_same_field_children(a, b, node, name, upto - 1);
    }
}

/// In trees of the same shape a rename goes on into the same nodes.
proof fn lemma_same_targets(a: &SyntaxTree, b: &SyntaxTree, node: int)
    requires
        a.wf(),
        same_shape(a, b),
        0 <= node < a.nodes@.len(),
    ensures
        rename_targets(a, node) == rename_targets(b, node),
{
    assert(a.nodes@[node].kind@ == b.nodes@[node].kind@);
    assert(a.nodes@[node].children@ == b.nodes@[node].children@);
    lemma_same_field_child(a, b, node, "condition"@, 0);
    lemma_same_field_child(a, b, node, "body"@, 0);
    lemma_same_field_child(a, b, node, "else"@, 0);
    lemma_same_field_child(a, b, node, "value"@, 0);
    lemma_same_field_child(a, b, node, "left"@, 0);
    lemma_same_field_child(a, b, node, "right"@, 0);
    lemma_same_field_child(a, b, node, "operand"@, 0);
    lemma_same_field_child(a, b, node, "name"@, 0);
    lemma_same_field_children(a, b, node, "argument"@, a.nodes@[node].children@.len() as int);
}

/// Renaming back edits the nodes that the renaming edited. Let the second
/// document be the first with the new name written over a set of nodes that
/// read the old name, among them every node that the rename from the old
/// name edits at or below `node`. If the new name did not occur in the first
/// document where a rename looks, then a rename from the new name in the
/// second document edits, at or below `node`, exactly the nodes that the
/// rename from the old name edited in the first.
///
/// This says nothing of how the second document comes about: that the tree
/// parsed from the renamed text has the shape of the tree before is for the
/// parser to see to.
pub proof fn lemma_rename_back_edits_the_same_nodes(
    a: &SyntaxTree,
    text_a: Seq<u8>,
    b: &SyntaxTree,
    text_b: Seq<u8>,
    renamed: Set<int>,
    node: int,
    old_name: Seq<char>,
    new_name: Seq<char>,
    rename_type: RenameType,
)
    requires
        a.wf(),
        names_are_tokens(a),
        0 <= node < a.nodes@.len(),
        renamed_document(a, text_a, b, text_b, renamed, old_name, new_name),
        forall|k: int|
            0 <= k < rename_sites(a, text_a, node, old_name, rename_type).len()
                ==> renamed.contains(
                #[trigger] rename_sites(a, text_a, node, old_name, rename_type)[k],
            ),
        rename_sites(a, text_a, node, new_name, rename_type).len() == 0,
    ensures
        rename_sites(b, text_b, node, new_name, rename_type) == rename_sites(
            a,
            text_a,
            node,
            old_name,
            rename_type,
        ),
    decreases a.nodes@.len() - node, 1int, 0int,
{
    let targets = rename_targets(a, node);
    lemma_same_targets(a, b, node);
    lemma_field_child(a, node, "name"@, 0);
    lemma_same_field_child(a, b, node, "name"@, 0);
    assert(a.nodes@[node].kind@ == b.nodes@[node].kind@);
    let own_old = own_site(a, text_a, node, old_name, rename_type);
    let own_new = own_site(a, text_a, node, new_name, rename_type);
    let rest_old = rename_sites_in(
        a,
        text_a,
        node,
        targets,
        targets.len() as int,
        old_name,
        rename_type,
    );
    let rest_new = rename_sites_in(
        a,
        text_a,
        node,
        targets,
        targets.len() as int,
        new_name,
        rename_type,
    );
    let all_old = rename_sites(a, text_a, node, old_name, rename_type);
    assert(all_old == own_old + rest_old);
    assert((own_new + rest_new).len() == 0);
    // The node itself.
    assert(own_site(b, text_b, node, new_name, rename_type) == own_old) by {
        if own_old.len() > 0 {
            assert(all_old[0] == own_old[0]);
            assert(renamed.contains(own_old[0]));
        }
        let n = if tree_names_call(a, node) {
            a.spec_child_by_field(node, "name"@)->0 as int
        } else {
            node
        };
        assert(a.nodes@[node].children@.len() >= 0);
        if 0 <= n < a.nodes@.len() && a.nodes@[n].children@.len() == 0 {
            assert(node_text(b, text_b, n) == if renamed.contains(n) {
                encode_utf8(new_name)
            } else {
                node_text(a, text_a, n)
            });
        }
    }
    // What is below it.
    assert forall|k: int| 0 <= k < rest_old.len() implies renamed.contains(
        #[trigger] rest_old[k],
    ) by {
        assert(all_old[own_old.len() + k] == rest_old[k]);
    }
    lemma_targets_are_below(a, node);
    lemma_rename_back_in(
        a,
        text_a,
        b,
        text_b,
        renamed,
        node,
        targets,
        targets.len() as int,
        old_name,
        new_name,
        rename_type,
    );
}

/// Node `node` is a call or a declaration of a function.
pub open spec fn tree_names_call(tree: &SyntaxTree, node: int) -> bool {
    tree.is_kind(node, "function_call"@) || tree.is_kind(node, "function_declaration"@)
}

/// The same, below the first `upto` of `targets`.
pub proof fn lemma_rename_back_in(
    a: &SyntaxTree,
    text_a: Seq<u8>,
    b: &SyntaxTree,
    text_b: Seq<u8>,
    renamed: Set<int>,
    node: int,
    targets: Seq<usize>,
    upto: int,
    old_name: Seq<char>,
    new_name: Seq<char>,
    rename_type: RenameType,
)
    requires
        a.wf(),
        names_are_tokens(a),
        0 <= node < a.nodes@.len(),
        renamed_document(a, text_a, b, text_b, renamed, old_name, new_name),
        forall|k: int|
            0 <= k < rename_sites_in(a, text_a, node, targets, upto, old_name, rename_type).len()
                ==> renamed.contains(
                #[trigger] rename_sites_in(a, text_a, node, targets, upto, old_name, rename_type)[k],
            ),
        rename_sites_in(a, text_a, node, targets, upto, new_name, rename_type).len() == 0,
    ensures
        rename_sites_in(b, text_b, node, targets, upto, new_name, rename_type) == rename_sites_in(
            a,
            text_a,
            node,
            targets,
            upto,
            old_name,
            rename_type,
        ),
    decreases a.nodes@.len() - node, 0int, upto,
{
    if upto <= 0 || upto > targets.len() {
    } else {
        let t = targets[upto - 1] as int;
        let before_old = rename_sites_in(
            a,
            text_a,
            node,
            targets,
            upto - 1,
            old_name,
            rename_type,
        );
        let before_new = rename_sites_in(
            a,
            text_a,
            node,
            targets,
            upto - 1,
            new_name,
            rename_type,
        );
        let all_old = rename_sites_in(a, text_a, node, targets, upto, old_name, rename_type);
        let last_old = if node < t < a.nodes@.len() {
            rename_sites(a, text_a, t, old_name, rename_type)
        } else {
            Seq::<int>::empty()
        };
        let last_new = if node < t < a.nodes@.len() {
            rename_sites(a, text_a, t, new_name, rename_type)
        } else {
            Seq::<int>::empty()
        };
        assert(all_old == before_old + last_old);
        assert((before_new + last_new).len() == 0);
        assert forall|k: int| 0 <= k < before_old.len() implies renamed.contains(
            #[trigger] before_old[k],
        ) by {
            assert(all_old[k] == before_old[k]);
        }
        lemma_rename_back_in(
            a,
            text_a,
            b,
            text_b,
            renamed,
            node,
            targets,
            upto - 1,
            old_name,
            new_name,
            rename_type,
        );
        if node < t < a.nodes@.len() {
            assert forall|k: int| 0 <= k < last_old.len() implies renamed.contains(
                #[trigger] last_old[k],
            ) by {
                assert(all_old[before_old.len() + k] == last_old[k]);
            }
            lemma_rename_back_edits_the_same_nodes(
                a,
                text_a,
                b,
                text_b,
                renamed,
                t,
                old_name,
                new_name,
                rename_type,
            );
        }
    }
}

/// The nodes that the rename of the variable declared by `decl` edits: the
/// name in the declaration, then the identifiers that read as `name` in the
/// siblings that follow the declaration and below them. There are none where
/// `decl` is not a declaration with a name.
pub open spec fn variable_rename_sites(tree: &SyntaxTree, content: Seq<u8>, decl: int, name: Seq<char>) -> Option<
    Seq<int>,
> {
    if !is_declaration(tree, decl) {
        None
    } else {
        match tree.spec_child_by_field(decl, "name"@) {
            Some(n) => Some(
                seq![n as int] + rename_sites_in(
                    tree,
                    content,
                    parent_or_root(tree, decl),
                    following_siblings(tree, decl),
                    following_siblings(tree, decl).len() as int,
                    name,
                    RenameType::Variable,
                ),
            ),
            None => None,
        }
    }
}

/// The edits of the rename of a variable write the new name over the nodes
/// that the rename edits, one edit for each node, in order.
pub proof fn lemma_variable_edits_are_at_sites(
    tree: &SyntaxTree,
    content: Seq<u8>,
    decl: int,
    old_name: Seq<char>,
    new_name: Seq<char>,
)
    ensures
        match variable_rename_sites(tree, content, decl, old_name) {
            Some(sites) => variable_rename_edits(tree, content, decl, old_name, new_name) == Some(
                edits_at(tree, sites, new_name),
            ),
            None => variable_rename_edits(tree, content, decl, old_name, new_name) is None,
        },
{
    if variable_rename_sites(tree, content, decl, old_name) is Some {
        let n = tree.spec_child_by_field(decl, "name"@)->0 as int;
        let siblings = following_siblings(tree, decl);
        let rest = rename_sites_in(
            tree,
            content,
            parent_or_root(tree, decl),
            siblings,
            siblings.len() as int,
            old_name,
            RenameType::Variable,
        );
        lemma_edits_in_are_at_sites(
            tree,
            content,
            parent_or_root(tree, decl),
            siblings,
            siblings.len() as int,
            old_name,
            new_name,
            RenameType::Variable,
        );
        assert(edits_at(tree, seq![n] + rest, new_name) =~= seq![edit_at(tree, n, new_name)]
            + edits_at(tree, rest, new_name));
    }
}

/// Renaming a variable back edits the nodes that the renaming edited. Let
/// the second document be the first with the new name written over the
/// nodes that the rename of the variable declared by `decl` edits, and maybe
/// over more nodes that read the old name. If the new name did not occur in
/// the first document after the declaration, where the rename looks, then
/// the rename from the new name in the second document edits exactly the
/// nodes that the rename from the old name edited in the first.
///
/// This says nothing of how the second document comes about: that the tree
/// parsed from the renamed text has the shape of the tree before is for the
/// parser to see to.
pub proof fn lemma_variable_rename_back_edits_the_same_nodes(
    a: &SyntaxTree,
    text_a: Seq<u8>,
    b: &SyntaxTree,
    text_b: Seq<u8>,
    renamed: Set<int>,
    decl: int,
    old_name: Seq<char>,
    new_name: Seq<char>,
)
    requires
        a.wf(),
        names_are_tokens(a),
        0 <= decl < a.nodes@.len(),
        renamed_document(a, text_a, b, text_b, renamed, old_name, new_name),
        variable_rename_sites(a, text_a, decl, old_name) is Some,
        forall|k: int|
            0 <= k < variable_rename_sites(a, text_a, decl, old_name)->0.len() ==> renamed.contains(
                #[trigger] variable_rename_sites(a, text_a, decl, old_name)->0[k],
            ),
        rename_sites_in(
            a,
            text_a,
            parent_or_root(a, decl),
            following_siblings(a, decl),
            following_siblings(a, decl).len() as int,
            new_name,
            RenameType::Variable,
        ).len() == 0,
    ensures
        variable_rename_sites(b, text_b, decl, new_name) == variable_rename_sites(
            a,
            text_a,
            decl,
            old_name,
        ),
{
    let parent = parent_or_root(a, decl);
    let siblings = following_siblings(a, decl);
    let all = variable_rename_sites(a, text_a, decl, old_name)->0;
    let rest = rename_sites_in(
        a,
        text_a,
        parent,
        siblings,
        siblings.len() as int,
        old_name,
        RenameType::Variable,
    );
    assert(a.nodes@[decl].kind@ == b.nodes@[decl].kind@);
    assert(node_ok(a.nodes@, decl));
    assert(node_ok(a.nodes@, parent));
    assert(a.nodes@[parent].children@ == b.nodes@[parent].children@);
    assert(following_siblings(b, decl) == siblings);
    assert(parent_or_root(b, decl) == parent);
    lemma_same_field_child(a, b, decl, "name"@, 0);
    assert forall|k: int| 0 <= k < rest.len() implies renamed.contains(#[trigger] rest[k]) by {
        assert(all[1 + k] == rest[k]);
    }
    lemma_rename_back_in(
        a,
        text_a,
        b,
        text_b,
        renamed,
        parent,
        siblings,
        siblings.len() as int,
        old_name,
        new_name,
        RenameType::Variable,
    );
}


/// Node `n` is what a rename of the given kind may edit: for a function, the
/// name of a call or of a declaration of a function; for a variable, an
/// identifier.
pub open spec fn is_site_of(tree: &SyntaxTree, n: int, rename_type: RenameType) -> bool {
    match rename_type {
        RenameType::Function => exists|p: int|
            0 <= p < tree.nodes@.len() && #[trigger] tree_names_call(tree, p)
                && tree.spec_child_by_field(p, "name"@) is Some && tree.spec_child_by_field(
                p,
                "name"@,
            )->0 == n,
        RenameType::Variable => tree.is_kind(n, "identifier"@),
    }
}

/// A rename of a function edits names of calls and of declarations of
/// functions only, and a rename of a variable edits identifiers only. So the
/// rename of a function leaves alone a variable that bears its name, in the
/// declaration of the variable and wherever the variable is read.
pub proof fn lemma_rename_edits_its_kind_only(
    tree: &SyntaxTree,
    content: Seq<u8>,
    node: int,
    name: Seq<char>,
    rename_type: RenameType,
    k: int,
)
    requires
        tree.wf(),
        0 <= node < tree.nodes@.len(),
        0 <= k < rename_sites(tree, content, node, name, rename_type).len(),
    ensures
        is_site_of(tree, rename_sites(tree, content, node, name, rename_type)[k], rename_type),
    decreases tree.nodes@.len() - node, 1int, 0int,
{
    let own = own_site(tree, content, node, name, rename_type);
    let targets = rename_targets(tree, node);
    if k < own.len() {
        if tree_names_call(tree, node) {
            lemma_field_child(tree, node, "name"@, 0);
            assert(tree_names_call(tree, node));
        }
    } else {
        lemma_rename_in_edits_its_kind_only(
            tree,
            content,
            node,
            targets,
            targets.len() as int,
            name,
            rename_type,
            k - own.len(),
        );
    }
}

/// The same, below the first `upto` of `targets`.
pub proof fn lemma_rename_in_edits_its_kind_only(
    tree: &SyntaxTree,
    content: Seq<u8>,
    node: int,
    targets: Seq<usize>,
    upto: int,
    name: Seq<char>,
    rename_type: RenameType,
    k: int,
)
    requires
        tree.wf(),
        0 <= node < tree.nodes@.len(),
        0 <= k < rename_sites_in(tree, content, node, targets, upto, name, rename_type).len(),
    ensures
        is_site_of(
            tree,
            rename_sites_in(tree, content, node, targets, upto, name, rename_type)[k],
            rename_type,
        ),
    decreases tree.nodes@.len() - node, 0int, upto,
{
    let before = rename_sites_in(tree, content, node, targets, upto - 1, name, rename_type);
    let t = targets[upto - 1] as int;
    if k < before.len() {
        lemma_rename_in_edits_its_kind_only(
            tree,
            content,
            node,
            targets,
            upto - 1,
            name,
            rename_type,
            k,
        );
    } else {
        lemma_rename_edits_its_kind_only(tree, content, t, name, rename_type, k - before.len());
    }
}


/// A rename goes on from node `q` into node `n`.
pub open spec fn is_target(tree: &SyntaxTree, q: int, n: int) -> bool {
    exists|m: int|
        0 <= m < rename_targets(tree, q).len() && #[trigger] rename_targets(tree, q)[m] == n
}

/// The walk of a rename that starts at `top` reaches node `n`: `n` is `top`,
/// or the walk reaches the parent of `n` and goes on from there into `n`.
pub open spec fn on_walk(tree: &SyntaxTree, top: int, n: int) -> bool
    decreases n,
{
    n == top || match tree.nodes@[n].parent {
        Some(q) => 0 <= q < n && on_walk(tree, top, q as int) && is_target(tree, q as int, n),
        None => false,
    }
}

/// What a rename edits below one of the targets of a node, it edits below the
/// node.
proof fn lemma_sites_in_hold(
    tree: &SyntaxTree,
    content: Seq<u8>,
    node: int,
    targets: Seq<usize>,
    upto: int,
    m: int,
    name: Seq<char>,
    rename_type: RenameType,
    x: int,
)
    requires
        0 <= m < upto <= targets.len(),
        node < targets[m] < tree.nodes@.len(),
        rename_sites(tree, content, targets[m] as int, name, rename_type).contains(x),
    ensures
        rename_sites_in(tree, content, node, targets, upto, name, rename_type).contains(x),
    decreases upto,
{
    let before = rename_sites_in(tree, content, node, targets, upto - 1, name, rename_type);
    let t = targets[upto - 1] as int;
    let last = if node < t < tree.nodes@.len() {
        rename_sites(tree, content, t, name, rename_type)
    } else {
        Seq::<int>::empty()
    };
    if m == upto - 1 {
        let i = choose|i: int| 0 <= i < last.len() && last[i] == x;
        assert((before + last)[before.len() + i] == x);
    } else {
        lemma_sites_in_hold(tree, content, node, targets, upto - 1, m, name, rename_type, x);
        let i = choose|i: int| 0 <= i < before.len() && before[i] == x;
        assert((before + last)[i] == x);
    }
}

/// What a rename edits at or below a node that the walk reaches, the rename
/// from the top edits.
pub proof fn lemma_walk_holds_sites(
    tree: &SyntaxTree,
    content: Seq<u8>,
    top: int,
    n: int,
    name: Seq<char>,
    rename_type: RenameType,
    x: int,
)
    requires
        tree.wf(),
        0 <= n < tree.nodes@.len(),
        on_walk(tree, top, n),
        rename_sites(tree, content, n, name, rename_type).contains(x),
    ensures
        rename_sites(tree, content, top, name, rename_type).contains(x),
    decreases n,
{
    if n != top {
        let q = tree.nodes@[n].parent->0 as int;
        let targets = rename_targets(tree, q);
        let m = choose|m: int| 0 <= m < targets.len() && #[trigger] targets[m] == n;
        lemma_sites_in_hold(
            tree,
            content,
            q,
            targets,
            targets.len() as int,
            m,
            name,
            rename_type,
            x,
        );
        let own = own_site(tree, content, q, name, rename_type);
        let rest = rename_sites_in(
            tree,
            content,
            q,
            targets,
            targets.len() as int,
            name,
            rename_type,
        );
        let i = choose|i: int| 0 <= i < rest.len() && rest[i] == x;
        assert((own + rest)[own.len() + i] == x);
        lemma_walk_holds_sites(tree, content, top, q, name, rename_type, x);
    }
}

/// A rename is complete on its walk. The rename of a function edits the name
/// of every call and of every declaration of a function that the walk
/// reaches and whose name reads as the old name; the rename of a variable
/// edits every identifier that the walk reaches and that reads as the old
/// name. The walk goes through the whole document from the root, and through
/// bodies, conditions, `else` parts, initial values, assignments, returned
/// values, arguments, operands and bracketed expressions.
pub proof fn lemma_rename_edits_all_on_its_walk(
    tree: &SyntaxTree,
    content: Seq<u8>,
    top: int,
    n: int,
    name: Seq<char>,
    rename_type: RenameType,
    k: int,
)
    requires
        tree.wf(),
        0 <= n < tree.nodes@.len(),
        on_walk(tree, top, n),
        0 <= k < own_site(tree, content, n, name, rename_type).len(),
    ensures
        rename_sites(tree, content, top, name, rename_type).contains(
            own_site(tree, content, n, name, rename_type)[k],
        ),
{
    let own = own_site(tree, content, n, name, rename_type);
    let all = rename_sites(tree, content, n, name, rename_type);
    assert(all[k] == own[k]);
    lemma_walk_holds_sites(tree, content, top, n, name, rename_type, own[k]);
}

/// The rename of a helper from the root edits the name in every declaration
/// of a function at the top level whose name reads as the old name.
pub proof fn lemma_helper_rename_edits_the_declaration(
    tree: &SyntaxTree,
    content: Seq<u8>,
    decl: int,
    old_name: Seq<char>,
)
    requires
        tree.wf(),
        0 < decl < tree.nodes@.len(),
        tree.nodes@[decl].parent == Some(0usize),
        tree.is_kind(decl, "function_declaration"@),
        tree.spec_child_by_field(decl, "name"@) is Some,
        node_text(tree, content, tree.spec_child_by_field(decl, "name"@)->0 as int) == encode_utf8(
            old_name,
        ),
    ensures
        rename_sites(tree, content, 0, old_name, RenameType::Function).contains(
            tree.spec_child_by_field(decl, "name"@)->0 as int,
        ),
{
    assert(node_ok(tree.nodes@, decl));
    assert(node_ok(tree.nodes@, 0));
    let kids = tree.nodes@[0].children@;
    assert(kids[tree.nodes@[decl].slot as int] == decl);
    assert(on_walk(tree, 0, 0));
    assert(rename_targets(tree, 0)[tree.nodes@[decl].slot as int] == decl);
    assert(is_target(tree, 0, decl));
    assert(on_walk(tree, 0, decl));
    lemma_rename_edits_all_on_its_walk(
        tree,
        content,
        0,
        decl,
        old_name,
        RenameType::Function,
        0,
    );
}


/// The rename of a variable edits every identifier of the old name after the
/// declaration: every identifier that reads as the old name and that the walk
/// reaches from a sibling that follows the declaration.
pub proof fn lemma_variable_rename_edits_all_after(
    tree: &SyntaxTree,
    content: Seq<u8>,
    decl: int,
    m: int,
    i: int,
    old_name: Seq<char>,
)
    requires
        tree.wf(),
        0 <= decl < tree.nodes@.len(),
        variable_rename_sites(tree, content, decl, old_name) is Some,
        0 <= m < following_siblings(tree, decl).len(),
        0 <= i < tree.nodes@.len(),
        on_walk(tree, following_siblings(tree, decl)[m] as int, i),
        tree.is_kind(i, "identifier"@),
        node_text(tree, content, i) == encode_utf8(old_name),
    ensures
        variable_rename_sites(tree, content, decl, old_name)->0.contains(i),
{
    let parent = parent_or_root(tree, decl);
    let siblings = following_siblings(tree, decl);
    assert(node_ok(tree.nodes@, decl));
    assert(node_ok(tree.nodes@, parent));
    let kids = tree.nodes@[parent].children@;
    let slot = tree.nodes@[decl].slot as int;
    let s = kids[slot + 1 + m] as int;
    assert(siblings[m] == s);
    assert(parent < s < tree.nodes@.len());
    let own = own_site(tree, content, i, old_name, RenameType::Variable);
    reveal_strlit("identifier");
    reveal_strlit("function_call");
    reveal_strlit("function_declaration");
    assert("identifier"@.len() == 10 && "function_call"@.len() == 13
        && "function_declaration"@.len() == 20);
    assert(!tree_names_call(tree, i));
    assert(own =~= seq![i]);
    lemma_rename_edits_all_on_its_walk(tree, content, s, i, old_name, RenameType::Variable, 0);
    lemma_sites_in_hold(
        tree,
        content,
        parent,
        siblings,
        siblings.len() as int,
        m,
        old_name,
        RenameType::Variable,
        i,
    );
    let rest = rename_sites_in(
        tree,
        content,
        parent,
        siblings,
        siblings.len() as int,
        old_name,
        RenameType::Variable,
    );
    let n = tree.spec_child_by_field(decl, "name"@)->0 as int;
    let at = choose|at: int| 0 <= at < rest.len() && rest[at] == i;
    assert((seq![n] + rest)[1 + at] == i);
}


/// A node without children encloses no other node.
proof fn lemma_token_encloses_nothing(tree: &SyntaxTree, t: int, x: int)
    requires
        tree.wf(),
        0 <= x < tree.nodes@.len(),
        0 <= t < tree.nodes@.len(),
        tree.nodes@[t].children@.len() == 0,
        t != x,
    ensures
        !is_ancestor_or_self(tree, t, x),
    decreases x,
{
    assert(node_ok(tree.nodes@, x));
    if is_ancestor_or_self(tree, t, x) {
        let q = tree.nodes@[x].parent->0 as int;
        if q == t {
            assert(tree.nodes@[x].slot < tree.nodes@[t].children@.len());
        } else {
            lemma_token_encloses_nothing(tree, t, q);
        }
    }
}

/// The rename of a function leaves every other identifier as it is: where
/// names are tokens, no edit touches an identifier that is not the name of a
/// call or of a declaration of a function. The node that an edit replaces and
/// such an identifier lie apart in the text.
pub proof fn lemma_function_rename_spares_other_names(
    tree: &SyntaxTree,
    content: Seq<u8>,
    node: int,
    name: Seq<char>,
    k: int,
    i: int,
)
    requires
        tree.wf(),
        names_are_tokens(tree),
        0 <= node < tree.nodes@.len(),
        0 <= k < rename_sites(tree, content, node, name, RenameType::Function).len(),
        0 <= i < tree.nodes@.len(),
        tree.is_kind(i, "identifier"@),
        !is_site_of(tree, i, RenameType::Function),
    ensures
        apart(
            tree.nodes@[rename_sites(tree, content, node, name, RenameType::Function)[k]].range,
            tree.nodes@[i].range,
        ),
{
    let n = rename_sites(tree, content, node, name, RenameType::Function)[k];
    lemma_rename_edits_its_kind_only(tree, content, node, name, RenameType::Function, k);
    let p = choose|p: int|
        0 <= p < tree.nodes@.len() && #[trigger] tree_names_call(tree, p)
            && tree.spec_child_by_field(p, "name"@) is Some && tree.spec_child_by_field(
            p,
            "name"@,
        )->0 == n;
    lemma_field_child(tree, p, "name"@, 0);
    assert(tree.nodes@[p].children@.len() >= 0);
    assert(tree.nodes@[i].children@.len() == 0);
    assert(tree.nodes@[n].children@.len() == 0);
    lemma_token_encloses_nothing(tree, n, i);
    lemma_token_encloses_nothing(tree, i, n);
    lemma_apart(tree, n, i);
}

} // verus!
