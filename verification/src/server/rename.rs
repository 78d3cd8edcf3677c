//! Rename: the edits that give a variable or a helper function a new name.

use crate::server::document::{
    function_views, is_declaration, node_get_content, node_text, spec_global_vars, variable_views,
    Document,
};
use crate::server::hover::{find_helper, first_function_named};
use crate::server::name_map::{Entry, NameMap};
use crate::server::utils::{
    get_spot_info, innermost, lsp_range, point_of, resolve, treesitter_range_to_lsp, LspRange,
    Position,
};
use crate::syntax::Point;
use crate::syntax::{node_ok, SyntaxTree};
use crate::text::str_is_bytes;
use vstd::prelude::*;
use vstd::utf8::encode_utf8;

verus! {

/// What is being renamed.
#[derive(Clone, Copy, Debug, PartialEq, Eq, Structural)]
pub enum RenameType {
    Variable,
    Function,
}

/// An edit: the text at `range` is replaced by `new_text`.
#[derive(Debug)]
pub struct TextEdit {
    pub range: LspRange,
    pub new_text: String,
}

/// A [`TextEdit`] as a plain value.
pub struct EditView {
    pub range: LspRange,
    pub new_text: Seq<char>,
}

impl View for TextEdit {
    type V = EditView;

    open spec fn view(&self) -> EditView {
        EditView { range: self.range, new_text: self.new_text@ }
    }
}

/// The views of a list of edits.
pub open spec fn edit_views(edits: Seq<TextEdit>) -> Seq<EditView> {
    edits.map_values(|e: TextEdit| e@)
}

impl TextEdit {
    /// The edit that replaces the text at `range` by `new_text`.
    pub fn new(range: LspRange, new_text: String) -> (e: TextEdit)
        ensures
            e@ == (EditView { range, new_text: new_text@ }),
    {
        TextEdit { range, new_text }
    }
}

/// The list of a node that may be missing.
pub open spec fn opt_node(n: Option<usize>) -> Seq<usize> {
    match n {
        Some(i) => seq![i],
        None => Seq::empty(),
    }
}

/// The nodes that a rename walks through or edits: the root, whatever its
/// kind, and the statements and expressions in which a name can occur.
pub open spec fn rename_supported(tree: &SyntaxTree, node: int) -> bool {
    ||| node == 0
    ||| tree.is_kind(node, "assignment"@)
    ||| tree.is_kind(node, "contained_expression"@)
    ||| tree.is_kind(node, "while_statement"@)
    ||| tree.is_kind(node, "if_statement"@)
    ||| tree.is_kind(node, "source_file"@)
    ||| tree.is_kind(node, "body"@)
    ||| tree.is_kind(node, "variable_declaration"@)
    ||| tree.is_kind(node, "function_call"@)
    ||| tree.is_kind(node, "argument"@)
    ||| tree.is_kind(node, "identifier"@)
    ||| tree.is_kind(node, "function_declaration"@)
    ||| tree.is_kind(node, "binary_expression"@)
    ||| tree.is_kind(node, "unary_expression"@)
    ||| tree.is_kind(node, "return_statement"@)
}

/// The nodes below `node` that a rename goes on into, in order: the parts of
/// a statement or an expression in which a name can occur.
pub open spec fn rename_targets(tree: &SyntaxTree, node: int) -> Seq<usize> {
    if node == 0 || tree.is_kind(node, "source_file"@) || tree.is_kind(node, "body"@) {
        tree.nodes@[node].children@
    } else if tree.is_kind(node, "while_statement"@) || tree.is_kind(node, "if_statement"@) {
        opt_node(tree.spec_child_by_field(node, "condition"@)) + opt_node(
            tree.spec_child_by_field(node, "body"@),
        ) + opt_node(tree.spec_child_by_field(node, "else"@))
    } else if tree.is_kind(node, "assignment"@) {
        opt_node(tree.spec_child_by_field(node, "name"@)) + opt_node(
            tree.spec_child_by_field(node, "value"@),
        )
    } else if tree.is_kind(node, "contained_expression"@) {
        opt_node(tree.spec_child(node, 1))
    } else if tree.is_kind(node, "variable_declaration"@) {
        opt_node(tree.spec_child_by_field(node, "value"@))
    } else if tree.is_kind(node, "function_call"@) {
        tree.spec_children_by_field(node, "argument"@)
    } else if tree.is_kind(node, "argument"@) {
        opt_node(tree.spec_child(node, 0))
    } else if tree.is_kind(node, "identifier"@) {
        Seq::empty()
    } else if tree.is_kind(node, "function_declaration"@) {
        opt_node(tree.spec_child_by_field(node, "body"@))
    } else if tree.is_kind(node, "binary_expression"@) {
        opt_node(tree.spec_child_by_field(node, "left"@)) + opt_node(
            tree.spec_child_by_field(node, "right"@),
        )
    } else if tree.is_kind(node, "unary_expression"@) {
        opt_node(tree.spec_child_by_field(node, "operand"@))
    } else if tree.is_kind(node, "return_statement"@) {
        opt_node(tree.spec_child_by_field(node, "value"@))
    } else {
        Seq::empty()
    }
}

/// The edit that replaces the text of node `n` by `new_name`, if that text is
/// `old_name`.
pub open spec fn edit_if_named(
    tree: &SyntaxTree,
    content: Seq<u8>,
    n: int,
    old_name: Seq<char>,
    new_name: Seq<char>,
) -> Seq<EditView> {
    if node_text(tree, content, n) == encode_utf8(old_name) {
        seq![EditView { range: lsp_range(tree.nodes@[n].range), new_text: new_name }]
    } else {
        Seq::empty()
    }
}

/// The edit at `node` itself. A function rename edits the name of a call or
/// of a declaration; a variable rename edits an identifier.
pub open spec fn own_edit(
    tree: &SyntaxTree,
    content: Seq<u8>,
    node: int,
    old_name: Seq<char>,
    new_name: Seq<char>,
    rename_type: RenameType,
) -> Seq<EditView> {
    if tree.is_kind(node, "function_call"@) || tree.is_kind(node, "function_declaration"@) {
        if rename_type == RenameType::Function {
            match tree.spec_child_by_field(node, "name"@) {
                Some(n) => edit_if_named(tree, content, n as int, old_name, new_name),
                None => Seq::empty(),
            }
        } else {
            Seq::empty()
        }
    } else if tree.is_kind(node, "identifier"@) {
        if rename_type == RenameType::Variable {
            edit_if_named(tree, content, node, old_name, new_name)
        } else {
            Seq::empty()
        }
    } else {
        Seq::empty()
    }
}

/// The edits of a rename in the tree below `node`, `node` included, in
/// document order.
pub open spec fn rename_edits(
    tree: &SyntaxTree,
    content: Seq<u8>,
    node: int,
    old_name: Seq<char>,
    new_name: Seq<char>,
    rename_type: RenameType,
) -> Seq<EditView>
    decreases tree.nodes@.len() - node, 1int, 0int,
{
    own_edit(tree, content, node, old_name, new_name, rename_type) + rename_edits_in(
        tree,
        content,
        node,
        rename_targets(tree, node),
        rename_targets(tree, node).len() as int,
        old_name,
        new_name,
        rename_type,
    )
}

/// The edits of a rename below the first `upto` of the `targets` of `node`.
pub open spec fn rename_edits_in(
    tree: &SyntaxTree,
    content: Seq<u8>,
    node: int,
    targets: Seq<usize>,
    upto: int,
    old_name: Seq<char>,
    new_name: Seq<char>,
    rename_type: RenameType,
) -> Seq<EditView>
    decreases tree.nodes@.len() - node, 0int, upto,
{
    if upto <= 0 || upto > targets.len() {
        Seq::empty()
    } else {
        let t = targets[upto - 1] as int;
        rename_edits_in(tree, content, node, targets, upto - 1, old_name, new_name, rename_type)
            + if node < t < tree.nodes@.len() {
            rename_edits(tree, content, t, old_name, new_name, rename_type)
        } else {
            Seq::empty()
        }
    }
}

/// The nodes below `node`, `node` included, that a rename reaches and cannot
/// handle, in document order. Names inside them are not renamed.
pub open spec fn rename_unsupported(tree: &SyntaxTree, node: int) -> Seq<usize>
    decreases tree.nodes@.len() - node, 1int, 0int,
{
    if rename_supported(tree, node) {
        rename_unsupported_in(
            tree,
            node,
            rename_targets(tree, node),
            rename_targets(tree, node).len() as int,
        )
    } else {
        seq![node as usize]
    }
}

/// The nodes that a rename cannot handle below the first `upto` of the
/// `targets` of `node`.
pub open spec fn rename_unsupported_in(tree: &SyntaxTree, node: int, targets: Seq<usize>, upto: int) -> Seq<
    usize,
>
    decreases tree.nodes@.len() - node, 0int, upto,
{
    if upto <= 0 || upto > targets.len() {
        Seq::empty()
    } else {
        let t = targets[upto - 1] as int;
        rename_unsupported_in(tree, node, targets, upto - 1) + if node < t < tree.nodes@.len() {
            rename_unsupported(tree, t)
        } else {
            Seq::empty()
        }
    }
}

/// The edits of a rename, and the nodes it could not handle.
#[derive(Debug)]
pub struct RenameEdits {
    pub edits: Vec<TextEdit>,
    pub unsupported: Vec<usize>,
}

fn push_node(out: &mut Vec<usize>, n: Option<usize>)
    ensures
        final(out)@ == old(out)@ + opt_node(n),
{
    match n {
        Some(i) => {
            out.push(i);
            assert(out@ =~= old(out)@ + seq![i]);
        },
        None => {
            assert(out@ =~= old(out)@ + Seq::<usize>::empty());
        },
    }
}

/// Whether a rename handles node `node`, and the nodes below it that it goes
/// on into.
pub fn rename_targets_of(tree: &SyntaxTree, node: usize) -> (r: (bool, Vec<usize>))
    requires
        tree.wf(),
        node < tree.nodes@.len(),
    ensures
        r.0 == rename_supported(tree, node as int),
        r.1@ == rename_targets(tree, node as int),
        forall|k: int| 0 <= k < r.1@.len() ==> node < (#[trigger] r.1@[k]) < tree.nodes@.len(),
{
    let mut out: Vec<usize> = Vec::new();
    assert(out@ =~= Seq::<usize>::empty());
    if node == 0 || tree.kind_is(node, "source_file") || tree.kind_is(node, "body") {
        let count = tree.child_count(node);
        let mut k: usize = 0;
        while k < count
            invariant
                tree.wf(),
                node < tree.nodes@.len(),
                count == tree.nodes@[node as int].children@.len(),
                k <= count,
                out@ == tree.nodes@[node as int].children@.subrange(0, k as int),
            decreases count - k,
        {
            let ghost before = out@;
            out.push(tree.node(node).children[k]);
            assert(out@ =~= tree.nodes@[node as int].children@.subrange(0, k + 1));
            k += 1;
        }
        assert(out@ =~= tree.nodes@[node as int].children@);
        assert(node_ok(tree.nodes@, node as int));
        (true, out)
    } else if tree.kind_is(node, "while_statement") || tree.kind_is(node, "if_statement") {
        push_node(&mut out, tree.child_by_field_name(node, "condition"));
        push_node(&mut out, tree.child_by_field_name(node, "body"));
        push_node(&mut out, tree.child_by_field_name(node, "else"));
        assert(out@ =~= rename_targets(tree, node as int));
        (true, out)
    } else if tree.kind_is(node, "assignment") {
        push_node(&mut out, tree.child_by_field_name(node, "name"));
        push_node(&mut out, tree.child_by_field_name(node, "value"));
        assert(out@ =~= rename_targets(tree, node as int));
        (true, out)
    } else if tree.kind_is(node, "contained_expression") {
        push_node(&mut out, tree.child(node, 1));
        assert(out@ =~= rename_targets(tree, node as int));
        (true, out)
    } else if tree.kind_is(node, "variable_declaration") {
        push_node(&mut out, tree.child_by_field_name(node, "value"));
        assert(out@ =~= rename_targets(tree, node as int));
        (true, out)
    } else if tree.kind_is(node, "function_call") {
        (true, tree.children_by_field_name(node, "argument"))
    } else if tree.kind_is(node, "argument") {
        push_node(&mut out, tree.child(node, 0));
        assert(out@ =~= rename_targets(tree, node as int));
        (true, out)
    } else if tree.kind_is(node, "identifier") {
        (true, out)
    } else if tree.kind_is(node, "function_declaration") {
        push_node(&mut out, tree.child_by_field_name(node, "body"));
        assert(out@ =~= rename_targets(tree, node as int));
        (true, out)
    } else if tree.kind_is(node, "binary_expression") {
        push_node(&mut out, tree.child_by_field_name(node, "left"));
        push_node(&mut out, tree.child_by_field_name(node, "right"));
        assert(out@ =~= rename_targets(tree, node as int));
        (true, out)
    } else if tree.kind_is(node, "unary_expression") {
        push_node(&mut out, tree.child_by_field_name(node, "operand"));
        assert(out@ =~= rename_targets(tree, node as int));
        (true, out)
    } else if tree.kind_is(node, "return_statement") {
        push_node(&mut out, tree.child_by_field_name(node, "value"));
        assert(out@ =~= rename_targets(tree, node as int));
        (true, out)
    } else {
        (false, out)
    }
}

fn push_edit_if_named(
    edits: &mut Vec<TextEdit>,
    document: &Document,
    n: usize,
    old_name: &str,
    new_name: &str,
)
    requires
        n < document.tree.nodes@.len(),
    ensures
        edit_views(final(edits)@) == edit_views(old(edits)@) + edit_if_named(
            &document.tree,
            document.content@,
            n as int,
            old_name@,
            new_name@,
        ),
{
    let name = node_get_content(document.content.as_slice(), &document.tree, n);
    if str_is_bytes(old_name, name) {
        let range = treesitter_range_to_lsp(&document.tree.range(n));
        let edit = TextEdit::new(range, new_name.to_owned());
        edits.push(edit);
        assert(edit_views(edits@) =~= edit_views(old(edits)@) + seq![edit@]);
    } else {
        assert(edit_views(edits@) =~= edit_views(old(edits)@) + Seq::<EditView>::empty());
    }
}

fn push_own_edit(
    edits: &mut Vec<TextEdit>,
    document: &Document,
    node: usize,
    old_name: &str,
    new_name: &str,
    rename_type: RenameType,
)
    requires
        document.tree.wf(),
        node < document.tree.nodes@.len(),
    ensures
        edit_views(final(edits)@) == edit_views(old(edits)@) + own_edit(
            &document.tree,
            document.content@,
            node as int,
            old_name@,
            new_name@,
            rename_type,
        ),
{
    let tree = &document.tree;
    let ghost before = edit_views(edits@);
    if tree.kind_is(node, "function_call") || tree.kind_is(node, "function_declaration") {
        if rename_type == RenameType::Function {
            match tree.child_by_field_name(node, "name") {
                Some(n) => {
                    push_edit_if_named(edits, document, n, old_name, new_name);
                    return ;
                },
                None => {},
            }
        }
    } else if tree.kind_is(node, "identifier") {
        if rename_type == RenameType::Variable {
            push_edit_if_named(edits, document, node, old_name, new_name);
            return ;
        }
    }
    assert(edit_views(edits@) =~= before + Seq::<EditView>::empty());
}

fn append_edits(edits: &mut Vec<TextEdit>, more: Vec<TextEdit>)
    ensures
        edit_views(final(edits)@) == edit_views(old(edits)@) + edit_views(more@),
{
    let mut more = more;
    let ghost added = more@;
    edits.append(&mut more);
    assert(edit_views(edits@) =~= edit_views(old(edits)@) + edit_views(added));
}

fn append_nodes(nodes: &mut Vec<usize>, more: Vec<usize>)
    ensures
        final(nodes)@ == old(nodes)@ + more@,
{
    let mut more = more;
    nodes.append(&mut more);
}

/// Collects the edits of a rename in the tree below `node`, and the nodes it
/// cannot handle.
pub fn rename_in_node(
    document: &Document,
    node: usize,
    old_name: &str,
    new_name: &str,
    rename_type: RenameType,
) -> (r: RenameEdits)
    requires
        document.tree.wf(),
        node < document.tree.nodes@.len(),
    ensures
        edit_views(r.edits@) == rename_edits(
            &document.tree,
            document.content@,
            node as int,
            old_name@,
            new_name@,
            rename_type,
        ),
        r.unsupported@ == rename_unsupported(&document.tree, node as int),
    decreases document.tree.nodes@.len() - node,
{
    let tree = &document.tree;
    let mut edits: Vec<TextEdit> = Vec::new();
    let mut unsupported: Vec<usize> = Vec::new();
    let (supported, targets) = rename_targets_of(tree, node);
    if !supported {
        unsupported.push(node);
        assert(edit_views(edits@) =~= rename_edits(
            tree,
            document.content@,
            node as int,
            old_name@,
            new_name@,
            rename_type,
        ));
        return RenameEdits { edits, unsupported };
    }
    assert(edit_views(edits@) =~= Seq::<EditView>::empty());
    push_own_edit(&mut edits, document, node, old_name, new_name, rename_type);
    let ghost own = edit_views(edits@);
    assert(own =~= own_edit(
        tree,
        document.content@,
        node as int,
        old_name@,
        new_name@,
        rename_type,
    ));
    let mut k: usize = 0;
    while k < targets.len()
        invariant
            tree.wf(),
            *tree == document.tree,
            node < tree.nodes@.len(),
            k <= targets@.len(),
            forall|m: int|
                0 <= m < targets@.len() ==> node < (#[trigger] targets@[m]) < tree.nodes@.len(),
            edit_views(edits@) == own + rename_edits_in(
                tree,
                document.content@,
                node as int,
                targets@,
                k as int,
                old_name@,
                new_name@,
                rename_type,
            ),
            unsupported@ == rename_unsupported_in(tree, node as int, targets@, k as int),
        decreases targets@.len() - k,
    {
        let inner = rename_in_node(document, targets[k], old_name, new_name, rename_type);
        let ghost before = edit_views(edits@);
        let ghost inner_edits = edit_views(inner.edits@);
        append_edits(&mut edits, inner.edits);
        append_nodes(&mut unsupported, inner.unsupported);
        assert(edit_views(edits@) =~= own + (rename_edits_in(
            tree,
            document.content@,
            node as int,
            targets@,
            k as int,
            old_name@,
            new_name@,
            rename_type,
        ) + inner_edits));
        k += 1;
    }
    RenameEdits { edits, unsupported }
}

/// Collects the edits of a rename below each of `targets`, which sit below
/// `node`, and the nodes it cannot handle.
pub fn rename_in_nodes(
    document: &Document,
    node: usize,
    targets: &Vec<usize>,
    old_name: &str,
    new_name: &str,
    rename_type: RenameType,
) -> (r: RenameEdits)
    requires
        document.tree.wf(),
        node < document.tree.nodes@.len(),
        forall|m: int|
            0 <= m < targets@.len() ==> node < (#[trigger] targets@[m]) < document.tree.nodes@.len(),
    ensures
        edit_views(r.edits@) == rename_edits_in(
            &document.tree,
            document.content@,
            node as int,
            targets@,
            targets@.len() as int,
            old_name@,
            new_name@,
            rename_type,
        ),
        r.unsupported@ == rename_unsupported_in(
            &document.tree,
            node as int,
            targets@,
            targets@.len() as int,
        ),
{
    let tree = &document.tree;
    let mut edits: Vec<TextEdit> = Vec::new();
    let mut unsupported: Vec<usize> = Vec::new();
    assert(edit_views(edits@) =~= Seq::<EditView>::empty());
    let mut k: usize = 0;
    while k < targets.len()
        invariant
            tree.wf(),
            *tree == document.tree,
            node < tree.nodes@.len(),
            k <= targets@.len(),
            forall|m: int|
                0 <= m < targets@.len() ==> node < (#[trigger] targets@[m]) < tree.nodes@.len(),
            edit_views(edits@) == rename_edits_in(
                tree,
                document.content@,
                node as int,
                targets@,
                k as int,
                old_name@,
                new_name@,
                rename_type,
            ),
            unsupported@ == rename_unsupported_in(tree, node as int, targets@, k as int),
        decreases targets@.len() - k,
    {
        let inner = rename_in_node(document, targets[k], old_name, new_name, rename_type);
        append_edits(&mut edits, inner.edits);
        append_nodes(&mut unsupported, inner.unsupported);
        k += 1;
    }
    RenameEdits { edits, unsupported }
}

/// The siblings that follow node `decl`, in order.
pub open spec fn following_siblings(tree: &SyntaxTree, decl: int) -> Seq<usize> {
    match tree.nodes@[decl].parent {
        Some(q) => {
            let kids = tree.nodes@[q as int].children@;
            if tree.nodes@[decl].slot < kids.len() {
                kids.subrange(tree.nodes@[decl].slot + 1, kids.len() as int)
            } else {
                Seq::empty()
            }
        },
        None => Seq::empty(),
    }
}

/// The node under which the siblings of `decl` sit; the root for the root.
pub open spec fn parent_or_root(tree: &SyntaxTree, decl: int) -> int {
    match tree.nodes@[decl].parent {
        Some(q) => q as int,
        None => 0,
    }
}

/// The edits that rename the variable declared by `decl`: the name in the
/// declaration, then every identifier of the old name in the siblings that
/// follow the declaration and below them. Nothing before the declaration is
/// touched. There are none where `decl` is not a declaration with a name.
pub open spec fn variable_rename_edits(
    tree: &SyntaxTree,
    content: Seq<u8>,
    decl: int,
    old_name: Seq<char>,
    new_name: Seq<char>,
) -> Option<Seq<EditView>> {
    if !is_declaration(tree, decl) {
        None
    } else {
        match tree.spec_child_by_field(decl, "name"@) {
            Some(n) => Some(
                seq![EditView { range: lsp_range(tree.nodes@[n as int].range), new_text: new_name }]
                    + rename_edits_in(
                    tree,
                    content,
                    parent_or_root(tree, decl),
                    following_siblings(tree, decl),
                    following_siblings(tree, decl).len() as int,
                    old_name,
                    new_name,
                    RenameType::Variable,
                ),
            ),
            None => None,
        }
    }
}

/// The nodes that the rename of the variable declared by `decl` reaches and
/// cannot handle.
pub open spec fn variable_rename_unsupported(tree: &SyntaxTree, decl: int) -> Seq<usize> {
    rename_unsupported_in(
        tree,
        parent_or_root(tree, decl),
        following_siblings(tree, decl),
        following_siblings(tree, decl).len() as int,
    )
}

fn siblings_after(tree: &SyntaxTree, decl: usize) -> (r: (usize, Vec<usize>))
    requires
        tree.wf(),
        decl < tree.nodes@.len(),
    ensures
        r.0 == parent_or_root(tree, decl as int),
        r.0 < tree.nodes@.len(),
        r.1@ == following_siblings(tree, decl as int),
        forall|m: int| 0 <= m < r.1@.len() ==> r.0 < (#[trigger] r.1@[m]) < tree.nodes@.len(),
{
    let mut out: Vec<usize> = Vec::new();
    match tree.parent(decl) {
        Some(q) => {
            assert(node_ok(tree.nodes@, decl as int));
            assert(node_ok(tree.nodes@, q as int));
            let slot = tree.node(decl).slot;
            let count = tree.child_count(q);
            let ghost kids = tree.nodes@[q as int].children@;
            let mut k: usize = slot + 1;
            while k < count
                invariant
                    tree.wf(),
                    q < tree.nodes@.len(),
                    kids == tree.nodes@[q as int].children@,
                    count == kids.len(),
                    slot + 1 <= k <= count,
                    out@ == kids.subrange(slot + 1, k as int),
                decreases count - k,
            {
                out.push(tree.node(q).children[k]);
                assert(out@ =~= kids.subrange(slot + 1, k + 1));
                k += 1;
            }
            (q, out)
        },
        None => (0, out),
    }
}

/// Renames the variable that `node` declares.
pub fn rename_var(document: &Document, node: usize, old_name: &str, new_name: &str) -> (r: Option<
    RenameEdits,
>)
    requires
        document.tree.wf(),
        node < document.tree.nodes@.len(),
    ensures
        match r {
            Some(found) => {
                &&& variable_rename_edits(
                    &document.tree,
                    document.content@,
                    node as int,
                    old_name@,
                    new_name@,
                ) == Some(edit_views(found.edits@))
                &&& found.unsupported@ == variable_rename_unsupported(&document.tree, node as int)
            },
            None => variable_rename_edits(
                &document.tree,
                document.content@,
                node as int,
                old_name@,
                new_name@,
            ) is None,
        },
{
    let tree = &document.tree;
    if !tree.kind_is(node, "variable_declaration") && !tree.kind_is(node, "function_parameter") {
        return None;
    }
    let name = match tree.child_by_field_name(node, "name") {
        Some(n) => n,
        None => {
            return None;
        },
    };
    let mut edits: Vec<TextEdit> = Vec::new();
    let range = treesitter_range_to_lsp(&tree.range(name));
    let first = TextEdit::new(range, new_name.to_owned());
    edits.push(first);
    assert(edit_views(edits@) =~= seq![first@]);
    let (parent, siblings) = siblings_after(tree, node);
    let rest = rename_in_nodes(
        document,
        parent,
        &siblings,
        old_name,
        new_name,
        RenameType::Variable,
    );
    append_edits(&mut edits, rest.edits);
    Some(RenameEdits { edits, unsupported: rest.unsupported })
}

/// Renames a helper function: its declaration and every call of it, anywhere
/// below `node`, which is the root of the document.
pub fn rename_helper(document: &Document, node: usize, old_name: &str, new_name: &str) -> (r:
    RenameEdits)
    requires
        document.tree.wf(),
        node < document.tree.nodes@.len(),
    ensures
        edit_views(r.edits@) == rename_edits(
            &document.tree,
            document.content@,
            node as int,
            old_name@,
            new_name@,
            RenameType::Function,
        ),
        r.unsupported@ == rename_unsupported(&document.tree, node as int),
{
    rename_in_node(document, node, old_name, new_name, RenameType::Function)
}

/// The edits of a rename, by document.
#[derive(Debug)]
pub struct WorkspaceEdit {
    pub changes: NameMap<Vec<TextEdit>>,
    /// The nodes that the rename reached and could not handle.
    pub unsupported: Vec<usize>,
}

/// What a rename at a point comes to: the edits and the nodes it cannot
/// handle.
pub struct RenamePlan {
    pub edits: Seq<EditView>,
    pub unsupported: Seq<usize>,
}

/// The node that a rename at the point is about: the smallest node that
/// holds it.
pub open spec fn renamed_node(document: &Document, p: Point) -> usize {
    document.tree.spec_descendant_for_point_range(0, p, p, false)
}

/// The name under the cursor can be renamed: it is an identifier or the name
/// of a function.
pub open spec fn is_name(tree: &SyntaxTree, node: int) -> bool {
    tree.is_kind(node, "identifier"@) || tree.is_kind(node, "on_identifier"@) || tree.is_kind(
        node,
        "helper_identifier"@,
    )
}

/// The rename of the name at node `node` to `new_name`. A name that a
/// variable in scope bears renames that variable, the innermost of that name;
/// failing that, a name that a helper of the document bears renames the
/// helper; any other name renames nothing.
pub open spec fn rename_plan(document: &Document, node: int, new_name: Seq<char>) -> Option<RenamePlan> {
    let tree = &document.tree;
    let content = document.content@;
    let name = node_text(tree, content, node);
    let vars = resolve(tree, content, node);
    let helpers = function_views(document.helpers@);
    if !is_name(tree, node) {
        None
    } else {
        match innermost(vars, spec_global_vars(tree, content).len() as int, name) {
            Some(i) => {
                let decl = tree.descend_bytes(
                    0,
                    vars[i].range.start_byte as int,
                    vars[i].range.end_byte as int,
                ) as int;
                match variable_rename_edits(tree, content, decl, vars[i].name, new_name) {
                    Some(edits) => Some(
                        RenamePlan { edits, unsupported: variable_rename_unsupported(tree, decl) },
                    ),
                    None => None,
                }
            },
            None => match first_function_named(helpers, name, 0) {
                Some(h) => Some(
                    RenamePlan {
                        edits: rename_edits(
                            tree,
                            content,
                            0,
                            helpers[h].name,
                            new_name,
                            RenameType::Function,
                        ),
                        unsupported: rename_unsupported(tree, 0),
                    },
                ),
                None => None,
            },
        }
    }
}

/// A [`WorkspaceEdit`] as a plain value: the one document it changes, the
/// edits, and the nodes that the rename could not handle.
pub struct WorkspaceEditView {
    pub uri: Seq<char>,
    pub edits: Seq<EditView>,
    pub unsupported: Seq<usize>,
}

/// The answer to a rename request, as a plain value. An answer changes one
/// document.
pub open spec fn opt_workspace_edit(e: Option<WorkspaceEdit>) -> Option<WorkspaceEditView> {
    match e {
        Some(e) => if e.changes.entries@.len() == 1 {
            Some(
                WorkspaceEditView {
                    uri: e.changes.entries@[0].name@,
                    edits: edit_views(e.changes.entries@[0].value@),
                    unsupported: e.unsupported@,
                },
            )
        } else {
            None
        },
        None => None,
    }
}

/// The answer to a rename request at a position of the document `uri`: the
/// edits of the rename of the name there, under the document's identifier.
pub open spec fn rename_answer(
    document: &Document,
    uri: Seq<char>,
    position: Position,
    new_name: Seq<char>,
) -> Option<WorkspaceEditView> {
    match rename_plan(document, renamed_node(document, point_of(position)) as int, new_name) {
        Some(plan) => Some(
            WorkspaceEditView { uri, edits: plan.edits, unsupported: plan.unsupported },
        ),
        None => None,
    }
}

/// Answers a rename request at a position of the document `uri`.
pub fn rename_at(document: &Document, uri: String, position: Position, new_name: &str) -> (r: Option<
    WorkspaceEdit,
>)
    requires
        document.wf(),
    ensures
        opt_workspace_edit(r) == rename_answer(document, uri@, position, new_name@),
        r is Some <==> rename_answer(document, uri@, position, new_name@) is Some,
{
    let tree = &document.tree;
    let point = Point { row: position.line as usize, column: position.character as usize };
    let node = tree.descendant_for_point_range(0, point, point, false);
    if !tree.kind_is(node, "identifier") && !tree.kind_is(node, "on_identifier") && !tree.kind_is(
        node,
        "helper_identifier",
    ) {
        return None;
    }
    let name = node_get_content(document.content.as_slice(), tree, node);
    let spot_info = get_spot_info(document, node);
    let ghost vars = variable_views(spot_info.variables@);
    assert(variable_views(document.global_vars@).len() == document.global_vars@.len());
    let found = match spot_info.innermost(document.global_vars.len(), name) {
        Some(i) => {
            let var = &spot_info.variables[i];
            assert(vars[i as int] == var@);
            let decl = tree.descendant_for_byte_range(0, var.range.start_byte, var.range.end_byte);
            rename_var(document, decl, var.name.as_str(), new_name)
        },
        None => match find_helper(document, name) {
            Some(h) => {
                assert(function_views(document.helpers@)[h as int] == document.helpers@[h as int]@);
                Some(rename_helper(document, 0, document.helpers[h].name.as_str(), new_name))
            },
            None => None,
        },
    };
    match found {
        Some(found) => {
            let mut changes: NameMap<Vec<TextEdit>> = NameMap::new();
            changes.entries.push(Entry { name: uri, value: found.edits });
            Some(WorkspaceEdit { changes, unsupported: found.unsupported })
        },
        None => None,
    }
}

} // verus!
