//! What hover shows for a variable in scope.

use crate::server::document::{
    declared, node_text, spec_global_vars, type_label, variable_text, Document, VariableView,
};
use crate::server::hover::hover_of;
use crate::server::mod_api::ModApi;
use crate::server::scope_laws::{in_scope, lemma_scope_complete};
use crate::server::utils::{first_named, innermost, lemma_first_named, resolve, scope_locals};
use vstd::prelude::*;
use vstd::utf8::{encode_utf8, encode_utf8_decode_utf8};

verus! {

/// Where some variable from `from` up to `upto` is written with the bytes
/// `name`, the search finds one.
proof fn lemma_first_named_finds(vars: Seq<VariableView>, name: Seq<u8>, from: int, upto: int, j: int)
    requires
        0 <= from <= j < upto <= vars.len(),
        encode_utf8(vars[j].name) == name,
    ensures
        first_named(vars, name, from, upto) is Some,
    decreases upto - from,
{
    if encode_utf8(vars[from].name) == name {
    } else {
        lemma_first_named_finds(vars, name, from + 1, upto, j);
    }
}

/// Hover on an identifier that names a variable in scope shows a variable of
/// that name, as `name: type`, and no text. Where only one variable in scope
/// has the name, it is that one that is shown.
pub proof fn lemma_hover_names_variable(api: &ModApi, document: &Document, node: int, j: int)
    requires
        document.wf(),
        0 <= node < document.tree.nodes@.len(),
        document.tree.is_kind(node, "identifier"@),
        0 <= j < resolve(&document.tree, document.content@, node).len(),
        encode_utf8(resolve(&document.tree, document.content@, node)[j].name) == node_text(
            &document.tree,
            document.content@,
            node,
        ),
    ensures
        ({
            let vars = resolve(&document.tree, document.content@, node);
            let v = vars[j];
            &&& hover_of(api, document, node) matches Some(h)
            &&& h.text.len() == 0
            &&& exists|i: int|
                0 <= i < vars.len() && (#[trigger] vars[i]).name == v.name && h.code == v.name
                    + ": "@ + type_label(vars[i].ty)
            &&& ((forall|i: int| 0 <= i < vars.len() && (#[trigger] vars[i]).name == v.name ==> vars[i] == v)
                ==> h.code == v.name + ": "@ + type_label(v.ty))
        }),
{
    let vars = resolve(&document.tree, document.content@, node);
    let name = node_text(&document.tree, document.content@, node);
    let first_local = spec_global_vars(&document.tree, document.content@).len() as int;
    let v = vars[j];
    if j >= first_local {
        lemma_first_named_finds(vars, name, first_local, vars.len() as int, j);
    } else {
        lemma_first_named_finds(vars, name, 0, first_local, j);
    }
    lemma_first_named(vars, name, first_local, vars.len() as int);
    lemma_first_named(vars, name, 0, first_local);
    let i = innermost(vars, first_local, name)->0;
    assert(encode_utf8(vars[i].name) == encode_utf8(v.name));
    encode_utf8_decode_utf8(vars[i].name);
    encode_utf8_decode_utf8(v.name);
    assert(vars[i].name == v.name);
    assert(variable_text(vars[i]) == v.name + ": "@ + type_label(vars[i].ty));
}

/// Hover on an identifier inside the region where a declaration is visible,
/// written as the declared name, shows `name: type` for the innermost
/// declaration of that name; that is the declaration itself where no other
/// variable in scope shares the name.
pub proof fn lemma_hover_in_visible_region(api: &ModApi, document: &Document, node: int, d: int)
    requires
        document.wf(),
        0 <= node < document.tree.nodes@.len(),
        document.tree.is_kind(node, "identifier"@),
        in_scope(&document.tree, d, node),
        declared(&document.tree, document.content@, d) is Some,
        encode_utf8(declared(&document.tree, document.content@, d)->0.name) == node_text(
            &document.tree,
            document.content@,
            node,
        ),
    ensures
        ({
            let vars = resolve(&document.tree, document.content@, node);
            let v = declared(&document.tree, document.content@, d)->0;
            &&& hover_of(api, document, node) matches Some(h)
            &&& h.text.len() == 0
            &&& exists|i: int|
                0 <= i < vars.len() && (#[trigger] vars[i]).name == v.name && h.code == v.name
                    + ": "@ + type_label(vars[i].ty)
            &&& ((forall|i: int| 0 <= i < vars.len() && (#[trigger] vars[i]).name == v.name ==> vars[i] == v)
                ==> h.code == v.name + ": "@ + type_label(v.ty))
        }),
{
    let tree = &document.tree;
    let content = document.content@;
    let v = declared(tree, content, d)->0;
    lemma_scope_complete(tree, content, node, d);
    let locals = scope_locals(tree, content, node);
    let globals = spec_global_vars(tree, content);
    let k = choose|k: int| 0 <= k < locals.len() && locals[k] == v;
    let j = globals.len() + k;
    assert(resolve(tree, content, node)[j] == v);
    lemma_hover_names_variable(api, document, node, j);
}

} // verus!
