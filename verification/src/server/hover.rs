//! Hover: what to show for the name under the cursor.

use crate::server::document::{
    function_views, node_get_content, node_text, spec_global_vars, variable_text, Document,
    FunctionView,
};
use crate::server::mod_api::ModApi;
use crate::server::name_map::lookup;
use crate::server::utils::{
    get_spot_info, innermost, lsp_range, point_of, resolve, treesitter_range_to_lsp, LspRange,
    Position,
};
use crate::syntax::Point;
use crate::text::{str_is, str_is_bytes, string_from_utf8};
use vstd::prelude::*;
use vstd::string::StringExecFns;
use vstd::utf8::{decode_utf8, encode_utf8, valid_utf8};

verus! {

/// What a hover shows: a line of code and a text, either of which may be
/// empty.
#[derive(Debug)]
pub struct HoverContent {
    pub code: String,
    pub text: String,
}

/// A [`HoverContent`] as a plain value.
pub struct HoverView {
    pub code: Seq<char>,
    pub text: Seq<char>,
}

impl View for HoverContent {
    type V = HoverView;

    open spec fn view(&self) -> HoverView {
        HoverView { code: self.code@, text: self.text@ }
    }
}

/// The view of an optional hover.
pub open spec fn opt_hover(h: Option<HoverContent>) -> Option<HoverView> {
    match h {
        Some(h) => Some(h@),
        None => None,
    }
}

impl HoverContent {
    /// A hover that shows a line of code and no text.
    pub fn new_code_only(code: String) -> (h: HoverContent)
        ensures
            h@ == (HoverView { code: code@, text: Seq::empty() }),
    {
        HoverContent { code, text: String::new() }
    }
}

/// What a primitive type means, by its name.
pub open spec fn primitive_description(name: Seq<char>) -> Option<Seq<char>> {
    if name == "resource"@ {
        Some("A resource, such as an image or audio file"@)
    } else if name == "f32"@ {
        Some("A 32 bit floating point number"@)
    } else if name == "i32"@ {
        Some("A 32 bit integer"@)
    } else if name == "id"@ {
        Some("An opaque type. It can represent anything external to the language."@)
    } else if name == "entity"@ {
        Some("Holds names of types of entities (e.g. modname:entityname)"@)
    } else if name == "string"@ {
        Some("Represents text"@)
    } else {
        None
    }
}

/// What the primitive type of the name means, if there is one.
pub fn primitive_type_description(name: &str) -> (r: Option<&'static str>)
    ensures
        match r {
            Some(d) => primitive_description(name@) == Some(d@),
            None => primitive_description(name@) is None,
        },
{
    if str_is(name, "resource") {
        Some("A resource, such as an image or audio file")
    } else if str_is(name, "f32") {
        Some("A 32 bit floating point number")
    } else if str_is(name, "i32") {
        Some("A 32 bit integer")
    } else if str_is(name, "id") {
        Some("An opaque type. It can represent anything external to the language.")
    } else if str_is(name, "entity") {
        Some("Holds names of types of entities (e.g. modname:entityname)")
    } else if str_is(name, "string") {
        Some("Represents text")
    } else {
        None
    }
}

/// The first function, from position `from` on, that is written with exactly
/// the bytes `name`.
pub open spec fn first_function_named(funcs: Seq<FunctionView>, name: Seq<u8>, from: int) -> Option<int>
    decreases funcs.len() - from,
{
    if from < 0 || from >= funcs.len() {
        None
    } else if encode_utf8(funcs[from].name) == name {
        Some(from)
    } else {
        first_function_named(funcs, name, from + 1)
    }
}

/// The hover for an identifier: the variable in scope that it names, or else
/// the game function of that name.
pub open spec fn identifier_hover(api: &ModApi, document: &Document, node: int) -> Option<HoverView> {
    let name = node_text(&document.tree, document.content@, node);
    let vars = resolve(&document.tree, document.content@, node);
    let first_local = spec_global_vars(&document.tree, document.content@).len() as int;
    match innermost(vars, first_local, name) {
        Some(i) => Some(HoverView { code: variable_text(vars[i]), text: Seq::empty() }),
        None => if valid_utf8(name) {
            match lookup(api.game_functions.entries@, decode_utf8(name)) {
                Some(f) => Some(
                    HoverView { code: f.signature(decode_utf8(name)), text: f.description@ },
                ),
                None => None,
            }
        } else {
            None
        },
    }
}

/// The hover for the name of a helper: the signature of the first helper of
/// that name in the document.
pub open spec fn helper_hover(document: &Document, node: int) -> Option<HoverView> {
    let name = node_text(&document.tree, document.content@, node);
    let helpers = function_views(document.helpers@);
    match first_function_named(helpers, name, 0) {
        Some(i) => Some(
            HoverView {
                code: crate::server::document::signature_text(
                    helpers[i].name,
                    helpers[i].params,
                    helpers[i].ret_type,
                ),
                text: Seq::empty(),
            },
        ),
        None => None,
    }
}

/// The hover for the name of a lifecycle function: what the schema says of it
/// for the document's entity type.
pub open spec fn on_function_hover(api: &ModApi, document: &Document, node: int) -> Option<HoverView> {
    let name = node_text(&document.tree, document.content@, node);
    if valid_utf8(name) {
        match lookup(api.entities.entries@, document.entity_type@) {
            Some(entity) => match lookup(entity.on_functions.entries@, decode_utf8(name)) {
                Some(f) => Some(HoverView { code: decode_utf8(name), text: f.description@ }),
                None => None,
            },
            None => None,
        }
    } else {
        None
    }
}

/// The hover for a type: what the primitive type of that name means.
pub open spec fn type_hover(document: &Document, node: int) -> Option<HoverView> {
    let name = node_text(&document.tree, document.content@, node);
    if valid_utf8(name) {
        match primitive_description(decode_utf8(name)) {
            Some(d) => Some(HoverView { code: decode_utf8(name), text: d }),
            None => None,
        }
    } else {
        None
    }
}

/// What to show for node `node`, by its kind. Other kinds show nothing.
pub open spec fn hover_of(api: &ModApi, document: &Document, node: int) -> Option<HoverView> {
    let tree = &document.tree;
    if tree.is_kind(node, "identifier"@) {
        identifier_hover(api, document, node)
    } else if tree.is_kind(node, "helper_identifier"@) {
        helper_hover(document, node)
    } else if tree.is_kind(node, "on_identifier"@) {
        on_function_hover(api, document, node)
    } else if tree.is_kind(node, "type"@) {
        type_hover(document, node)
    } else {
        None
    }
}

/// The position of the first helper of the document that is written with
/// exactly the bytes `name`.
pub fn find_helper(document: &Document, name: &[u8]) -> (r: Option<usize>)
    ensures
        r matches Some(i) ==> i < document.helpers@.len(),
        match r {
            Some(i) => first_function_named(function_views(document.helpers@), name@, 0) == Some(
                i as int,
            ),
            None => first_function_named(function_views(document.helpers@), name@, 0) is None,
        },
{
    let ghost helpers = function_views(document.helpers@);
    let mut k: usize = 0;
    while k < document.helpers.len()
        invariant
            k <= document.helpers@.len(),
            helpers == function_views(document.helpers@),
            first_function_named(helpers, name@, k as int) == first_function_named(
                helpers,
                name@,
                0,
            ),
        decreases document.helpers@.len() - k,
    {
        assert(helpers[k as int] == document.helpers@[k as int]@);
        if str_is_bytes(document.helpers[k].name.as_str(), name) {
            return Some(k);
        }
        k += 1;
    }
    None
}

/// What to show for node `node`.
pub fn get_hover(mod_api: &ModApi, document: &Document, node: usize) -> (r: Option<HoverContent>)
    requires
        document.wf(),
        node < document.tree.nodes@.len(),
    ensures
        opt_hover(r) == hover_of(mod_api, document, node as int),
{
    let tree = &document.tree;
    let content = document.content.as_slice();
    let name = node_get_content(content, tree, node);
    if tree.kind_is(node, "identifier") {
        let spot_info = get_spot_info(document, node);
        let ghost vars = crate::server::document::variable_views(spot_info.variables@);
        match spot_info.innermost(document.global_vars.len(), name) {
            Some(i) => {
                assert(vars[i as int] == spot_info.variables@[i as int]@);
                assert(crate::server::document::variable_views(document.global_vars@).len()
                    == document.global_vars@.len());
                return Some(HoverContent::new_code_only(spot_info.variables[i].format()));
            },
            None => {
                assert(crate::server::document::variable_views(document.global_vars@).len()
                    == document.global_vars@.len());
            },
        }
        let name = match string_from_utf8(name) {
            Ok(s) => s,
            Err(_) => {
                return None;
            },
        };
        match mod_api.game_functions.get(name.as_str()) {
            Some(func) => Some(
                HoverContent { code: func.format(name.as_str()), text: func.description.clone() },
            ),
            None => None,
        }
    } else if tree.kind_is(node, "helper_identifier") {
        match find_helper(document, name) {
            Some(i) => {
                assert(function_views(document.helpers@)[i as int] == document.helpers@[i as int]@);
                Some(HoverContent::new_code_only(document.helpers[i].format()))
            },
            None => None,
        }
    } else if tree.kind_is(node, "on_identifier") {
        let name = match string_from_utf8(name) {
            Ok(s) => s,
            Err(_) => {
                return None;
            },
        };
        match mod_api.entities.get(document.entity_type.as_str()) {
            Some(entity) => match entity.on_functions.get(name.as_str()) {
                Some(on_func) => Some(
                    HoverContent { code: name, text: on_func.description.clone() },
                ),
                None => None,
            },
            None => None,
        }
    } else if tree.kind_is(node, "type") {
        let name = match string_from_utf8(name) {
            Ok(s) => s,
            Err(_) => {
                return None;
            },
        };
        match primitive_type_description(name.as_str()) {
            Some(desc) => Some(HoverContent { code: name, text: desc.to_owned() }),
            None => None,
        }
    } else {
        None
    }
}

/// The text of a hover: the code in a fenced block, then the text. An empty
/// code and an empty text are each left out.
pub open spec fn hover_markdown(h: HoverView) -> Seq<char> {
    let block = if h.code.len() > 0 {
        "```rust\n"@ + h.code + "\n```"@
    } else {
        Seq::empty()
    };
    if h.text.len() > 0 {
        if h.code.len() > 0 {
            block + "\n"@ + h.text
        } else {
            h.text
        }
    } else {
        block
    }
}

/// The text of a hover, as Markdown.
pub fn hover_text(content: &HoverContent) -> (s: String)
    ensures
        s@ == hover_markdown(content@),
{
    let mut hover_text = String::new();
    if !content.code.as_str().is_empty() {
        hover_text.append("```rust\n");
        hover_text.append(content.code.as_str());
        hover_text.append("\n```");
    }
    if !content.text.as_str().is_empty() {
        if !content.code.as_str().is_empty() {
            hover_text.append("\n");
        }
        hover_text.append(content.text.as_str());
    }
    assert(hover_text@ =~= hover_markdown(content@));
    hover_text
}

/// The answer to a hover request: the text, in Markdown, and the range of the
/// node it is about.
#[derive(Debug)]
pub struct Hover {
    pub contents: String,
    pub range: LspRange,
}

/// The node that a hover at the point is about: the smallest named node that
/// holds it.
pub open spec fn hovered_node(document: &Document, p: Point) -> usize {
    document.tree.spec_descendant_for_point_range(0, p, p, true)
}

/// A [`Hover`] as a plain value.
pub struct HoverAnswer {
    pub contents: Seq<char>,
    pub range: LspRange,
}

impl View for Hover {
    type V = HoverAnswer;

    open spec fn view(&self) -> HoverAnswer {
        HoverAnswer { contents: self.contents@, range: self.range }
    }
}

/// The view of an optional answer.
pub open spec fn opt_answer(h: Option<Hover>) -> Option<HoverAnswer> {
    match h {
        Some(h) => Some(h@),
        None => None,
    }
}

/// The answer to a hover request at a position: what the node there shows,
/// as Markdown, with the range of the node; none where it shows nothing.
pub open spec fn hover_answer(api: &ModApi, document: &Document, position: Position) -> Option<
    HoverAnswer,
> {
    let node = hovered_node(document, point_of(position)) as int;
    match hover_of(api, document, node) {
        Some(h) => Some(
            HoverAnswer {
                contents: hover_markdown(h),
                range: lsp_range(document.tree.nodes@[node].range),
            },
        ),
        None => None,
    }
}

/// Answers a hover request at a position of the document.
pub fn hover_at(mod_api: &ModApi, document: &Document, position: Position) -> (r: Option<Hover>)
    requires
        document.wf(),
    ensures
        opt_answer(r) == hover_answer(mod_api, document, position),
{
    let point = Point { row: position.line as usize, column: position.character as usize };
    let node = document.tree.descendant_for_point_range(0, point, point, true);
    match get_hover(mod_api, document, node) {
        Some(content) => {
            let range = document.tree.range(node);
            Some(Hover { contents: hover_text(&content), range: treesitter_range_to_lsp(&range) })
        },
        None => None,
    }
}

} // verus!
