//! Go to definition: where the name under the cursor is declared, in the
//! document or in the schema.

use crate::server::document::{
    function_views, node_get_content, node_text, spec_global_vars, variable_views, Document,
};
use crate::server::hover::{find_helper, first_function_named};
use crate::server::mod_api::ModApi;
use crate::server::name_map::lookup;
use crate::server::utils::{
    get_spot_info, innermost, is_function_call, lsp_range, point_of, resolve,
    treesitter_range_to_lsp, under_function_call, LspRange, Position,
};
use crate::syntax::{Point, Range, SyntaxTree};
use crate::text::string_from_utf8;
use vstd::prelude::*;
use vstd::utf8::{decode_utf8, valid_utf8};

verus! {

/// Where a definition is: the document, the range of the whole definition,
/// and the range of the name in it.
#[derive(Debug)]
pub struct LocationLink {
    pub target_uri: String,
    pub target_range: LspRange,
    pub target_selection_range: LspRange,
}

/// A [`LocationLink`] as a plain value.
pub struct LinkView {
    pub target_uri: Seq<char>,
    pub target_range: LspRange,
    pub target_selection_range: LspRange,
}

impl View for LocationLink {
    type V = LinkView;

    open spec fn view(&self) -> LinkView {
        LinkView {
            target_uri: self.target_uri@,
            target_range: self.target_range,
            target_selection_range: self.target_selection_range,
        }
    }
}

/// The view of an optional link.
pub open spec fn opt_link(l: Option<LocationLink>) -> Option<LinkView> {
    match l {
        Some(l) => Some(l@),
        None => None,
    }
}

/// The link to the declaration in the document that covers `range`: the
/// smallest node that spans the range, and in it the name, or the whole node
/// where it has no name.
pub open spec fn declaration_link(tree: &SyntaxTree, uri: Seq<char>, range: Range) -> LinkView {
    let decl = tree.descend_bytes(0, range.start_byte as int, range.end_byte as int) as int;
    LinkView {
        target_uri: uri,
        target_range: lsp_range(tree.nodes@[decl].range),
        target_selection_range: match tree.spec_child_by_field(decl, "name"@) {
            Some(n) => lsp_range(tree.nodes@[n as int].range),
            None => lsp_range(tree.nodes@[decl].range),
        },
    }
}

/// The link to an entry of the schema.
pub open spec fn schema_link(schema_uri: Seq<char>, range: Range) -> LinkView {
    LinkView {
        target_uri: schema_uri,
        target_range: lsp_range(range),
        target_selection_range: lsp_range(range),
    }
}

/// The definition of an identifier: the variable in scope that it names
/// (unless it is the name of a call), or else the entity type of that name,
/// or else the game function of that name.
pub open spec fn identifier_definition(
    api: &ModApi,
    schema_uri: Seq<char>,
    uri: Seq<char>,
    document: &Document,
    node: int,
) -> Option<LinkView> {
    let tree = &document.tree;
    let content = document.content@;
    let name = node_text(tree, content, node);
    let vars = resolve(tree, content, node);
    let found = if under_function_call(tree, node) {
        None
    } else {
        innermost(vars, spec_global_vars(tree, content).len() as int, name)
    };
    match found {
        Some(i) => Some(declaration_link(tree, uri, vars[i].range)),
        None => match lookup(api.entities.entries@, decode_utf8(name)) {
            Some(entity) => Some(schema_link(schema_uri, entity.range)),
            None => match lookup(api.game_functions.entries@, decode_utf8(name)) {
                Some(func) => Some(schema_link(schema_uri, func.range)),
                None => None,
            },
        },
    }
}

/// The definition of the name at node `node`, by its kind. The text of the
/// node must be UTF-8; other kinds than names have no definition.
pub open spec fn definition_of(
    api: &ModApi,
    schema_uri: Seq<char>,
    uri: Seq<char>,
    document: &Document,
    node: int,
) -> Option<LinkView> {
    let tree = &document.tree;
    let name = node_text(tree, document.content@, node);
    if !valid_utf8(name) {
        None
    } else if tree.is_kind(node, "identifier"@) {
        identifier_definition(api, schema_uri, uri, document, node)
    } else if tree.is_kind(node, "helper_identifier"@) {
        match first_function_named(function_views(document.helpers@), name, 0) {
            Some(h) => Some(
                declaration_link(tree, uri, function_views(document.helpers@)[h].range),
            ),
            None => None,
        }
    } else if tree.is_kind(node, "on_identifier"@) {
        match lookup(api.entities.entries@, document.entity_type@) {
            Some(entity) => match lookup(entity.on_functions.entries@, decode_utf8(name)) {
                Some(f) => Some(schema_link(schema_uri, f.range)),
                None => None,
            },
            None => None,
        }
    } else {
        None
    }
}

fn link_to_declaration(document: &Document, uri: &str, range: &Range) -> (l: LocationLink)
    requires
        document.tree.wf(),
    ensures
        l@ == declaration_link(&document.tree, uri@, *range),
{
    let tree = &document.tree;
    let decl = tree.descendant_for_byte_range(0, range.start_byte, range.end_byte);
    let target = treesitter_range_to_lsp(&tree.range(decl));
    let selection = match tree.child_by_field_name(decl, "name") {
        Some(n) => treesitter_range_to_lsp(&tree.range(n)),
        None => target,
    };
    LocationLink {
        target_uri: uri.to_owned(),
        target_range: target,
        target_selection_range: selection,
    }
}

fn link_to_schema(schema_uri: &str, range: &Range) -> (l: LocationLink)
    ensures
        l@ == schema_link(schema_uri@, *range),
{
    LocationLink {
        target_uri: schema_uri.to_owned(),
        target_range: treesitter_range_to_lsp(range),
        target_selection_range: treesitter_range_to_lsp(range),
    }
}

/// Finds the definition of the name at `node`. `uri` names the document,
/// `schema_uri` the schema file.
pub fn get_definition(
    mod_api: &ModApi,
    schema_uri: &str,
    uri: &str,
    document: &Document,
    node: usize,
) -> (r: Option<LocationLink>)
    requires
        document.wf(),
        node < document.tree.nodes@.len(),
    ensures
        opt_link(r) == definition_of(mod_api, schema_uri@, uri@, document, node as int),
{
    let tree = &document.tree;
    let bytes = node_get_content(document.content.as_slice(), tree, node);
    let text = match string_from_utf8(bytes) {
        Ok(s) => s,
        Err(_) => {
            return None;
        },
    };
    proof {
        vstd::utf8::decode_utf8_encode_utf8(bytes@);
    }
    if tree.kind_is(node, "identifier") {
        if !is_function_call(tree, node) {
            let spot_info = get_spot_info(document, node);
            let ghost vars = variable_views(spot_info.variables@);
            assert(variable_views(document.global_vars@).len() == document.global_vars@.len());
            match spot_info.innermost(document.global_vars.len(), bytes) {
                Some(i) => {
                    assert(vars[i as int] == spot_info.variables@[i as int]@);
                    return Some(link_to_declaration(document, uri, &spot_info.variables[i].range));
                },
                None => {},
            }
        }
        match mod_api.entities.get(text.as_str()) {
            Some(entity) => {
                return Some(link_to_schema(schema_uri, &entity.range));
            },
            None => {},
        }
        match mod_api.game_functions.get(text.as_str()) {
            Some(func) => Some(link_to_schema(schema_uri, &func.range)),
            None => None,
        }
    } else if tree.kind_is(node, "helper_identifier") {
        match find_helper(document, bytes) {
            Some(h) => {
                assert(function_views(document.helpers@)[h as int] == document.helpers@[h as int]@);
                Some(link_to_declaration(document, uri, &document.helpers[h].range))
            },
            None => None,
        }
    } else if tree.kind_is(node, "on_identifier") {
        match mod_api.entities.get(document.entity_type.as_str()) {
            Some(entity) => match entity.on_functions.get(text.as_str()) {
                Some(on_func) => Some(link_to_schema(schema_uri, &on_func.range)),
                None => None,
            },
            None => None,
        }
    } else {
        None
    }
}

/// The node that a definition request at the point is about: the smallest
/// named node that holds it.
pub open spec fn defined_node(document: &Document, p: Point) -> usize {
    document.tree.spec_descendant_for_point_range(0, p, p, true)
}

/// Answers a definition request at a position of the document `uri`.
pub fn definition_at(
    mod_api: &ModApi,
    schema_uri: &str,
    uri: &str,
    document: &Document,
    position: Position,
) -> (r: Option<LocationLink>)
    requires
        document.wf(),
    ensures
        opt_link(r) == definition_of(
            mod_api,
            schema_uri@,
            uri@,
            document,
            defined_node(document, point_of(position)) as int,
        ),
{
    let point = Point { row: position.line as usize, column: position.character as usize };
    let node = document.tree.descendant_for_point_range(0, point, point, true);
    get_definition(mod_api, schema_uri, uri, document, node)
}

} // verus!
