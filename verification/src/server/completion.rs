//! Completion: what can be written at the cursor.

use crate::server::document::{
    function_views, signature_text, variable_text, variable_views, Document, FunctionView,
    VariableView,
};
use crate::server::mod_api::{
    argument_name, GrugArgument, GrugEntity, GrugGameFunction, GrugOnFunction, ModApi,
};
use crate::server::name_map::{lookup, Entry};
use crate::server::utils::{get_nearest_node, get_spot_info, locate, point_of, resolve, Position};
use crate::syntax::SyntaxTree;
use crate::text::{decimal, string_from_utf8, to_decimal};
use vstd::prelude::*;
use vstd::string::StringExecFns;
use vstd::utf8::valid_utf8;

verus! {

/// What kind of thing a completion item stands for.
#[derive(Clone, Copy, Debug, PartialEq, Eq, Structural)]
pub enum CompletionItemKind {
    Variable,
    Function,
    Snippet,
    Keyword,
    Class,
    TypeParameter,
}

/// The documentation of a completion item: Markdown, or plain text.
#[derive(Debug)]
pub enum Documentation {
    Markdown(String),
    Plain(String),
}

/// A [`Documentation`] as a plain value.
pub enum DocumentationView {
    Markdown(Seq<char>),
    Plain(Seq<char>),
}

/// One proposal of a completion.
#[derive(Debug)]
pub struct CompletionItem {
    pub label: String,
    pub detail: Option<String>,
    pub documentation: Option<Documentation>,
    pub kind: CompletionItemKind,
    /// The text to insert, where it differs from the label.
    pub insert_text: Option<String>,
    /// The text to insert is a snippet with placeholders.
    pub snippet: bool,
}

/// A [`CompletionItem`] as a plain value.
pub struct CompletionView {
    pub label: Seq<char>,
    pub detail: Option<Seq<char>>,
    pub documentation: Option<DocumentationView>,
    pub kind: CompletionItemKind,
    pub insert_text: Option<Seq<char>>,
    pub snippet: bool,
}

impl View for CompletionItem {
    type V = CompletionView;

    open spec fn view(&self) -> CompletionView {
        CompletionView {
            label: self.label@,
            detail: crate::syntax::opt_text(self.detail),
            documentation: match self.documentation {
                Some(Documentation::Markdown(s)) => Some(DocumentationView::Markdown(s@)),
                Some(Documentation::Plain(s)) => Some(DocumentationView::Plain(s@)),
                None => None,
            },
            kind: self.kind,
            insert_text: crate::syntax::opt_text(self.insert_text),
            snippet: self.snippet,
        }
    }
}

/// The views of a list of items.
pub open spec fn completion_views(items: Seq<CompletionItem>) -> Seq<CompletionView> {
    items.map_values(|i: CompletionItem| i@)
}

/// The item for a variable in scope.
pub open spec fn variable_item(v: VariableView) -> CompletionView {
    CompletionView {
        label: v.name,
        detail: Some(variable_text(v)),
        documentation: None,
        kind: CompletionItemKind::Variable,
        insert_text: None,
        snippet: false,
    }
}

/// The item for a helper of the document.
pub open spec fn helper_item(f: FunctionView) -> CompletionView {
    CompletionView {
        label: f.name,
        detail: Some(signature_text(f.name, f.params, f.ret_type)),
        documentation: None,
        kind: CompletionItemKind::Variable,
        insert_text: None,
        snippet: false,
    }
}

/// The placeholder for the argument at position `k`: `${k+1:name}`.
pub open spec fn placeholder(args: Seq<GrugArgument>, k: int) -> Seq<char> {
    "${"@ + decimal((k + 1) as nat) + ":"@ + argument_name(args[k]) + "}"@
}

/// The placeholders for the first `upto` arguments, separated by commas.
pub open spec fn placeholders(args: Seq<GrugArgument>, upto: int) -> Seq<char>
    decreases upto,
{
    if upto <= 0 || upto > args.len() {
        Seq::empty()
    } else if upto == 1 {
        placeholder(args, 0)
    } else {
        placeholders(args, upto - 1) + ", "@ + placeholder(args, upto - 1)
    }
}

/// The call of a game function as a snippet, with one placeholder for each
/// argument.
pub open spec fn call_snippet(name: Seq<char>, args: Seq<GrugArgument>) -> Seq<char> {
    name + "("@ + placeholders(args, args.len() as int) + ")"@
}

/// The item for a game function.
pub open spec fn function_item(e: Entry<GrugGameFunction>) -> CompletionView {
    CompletionView {
        label: e.name@,
        detail: Some(e.value.signature(e.name@) + "\n"@),
        documentation: Some(DocumentationView::Markdown(e.value.description@)),
        kind: CompletionItemKind::Function,
        insert_text: Some(call_snippet(e.name@, e.value.arguments@)),
        snippet: true,
    }
}

/// The item for a statement snippet.
pub open spec fn snippet_item(label: Seq<char>, snippet: Seq<char>, doc: Seq<char>) -> CompletionView {
    CompletionView {
        label,
        detail: None,
        documentation: Some(DocumentationView::Markdown(doc)),
        kind: CompletionItemKind::Snippet,
        insert_text: Some(snippet),
        snippet: true,
    }
}

/// The item for a keyword.
pub open spec fn keyword_item(name: Seq<char>, doc: Seq<char>) -> CompletionView {
    CompletionView {
        label: name,
        detail: None,
        documentation: Some(DocumentationView::Markdown(doc)),
        kind: CompletionItemKind::Keyword,
        insert_text: None,
        snippet: false,
    }
}

/// The item for a lifecycle function that the schema offers.
pub open spec fn on_function_item(e: Entry<GrugOnFunction>) -> CompletionView {
    CompletionView {
        label: e.name@,
        detail: Some(e.name@),
        documentation: Some(DocumentationView::Markdown(e.value.description@)),
        kind: CompletionItemKind::Function,
        insert_text: None,
        snippet: false,
    }
}

/// The item for an entity type.
pub open spec fn entity_item(e: Entry<GrugEntity>) -> CompletionView {
    CompletionView {
        label: e.name@,
        detail: None,
        documentation: Some(DocumentationView::Plain(e.value.description@)),
        kind: CompletionItemKind::Class,
        insert_text: None,
        snippet: false,
    }
}

/// The item for a primitive type.
pub open spec fn primitive_item(name: Seq<char>, doc: Seq<char>) -> CompletionView {
    CompletionView {
        label: name,
        detail: None,
        documentation: Some(DocumentationView::Plain(doc)),
        kind: CompletionItemKind::TypeParameter,
        insert_text: None,
        snippet: false,
    }
}

/// The statement snippets.
pub open spec fn statement_snippet_items() -> Seq<CompletionView> {
    seq![
        snippet_item(
            "if"@,
            "if ${1:condition} {\n    $0\n}"@,
            "Runs the body when the condition holds."@,
        ),
        snippet_item(
            "if else"@,
            "if ${1:condition} {\n    $2\n} else {\n    $0\n}"@,
            "Runs the first body when the condition holds, and the second when it does not."@,
        ),
        snippet_item(
            "while"@,
            "while ${1:condition} {\n    $0\n}"@,
            "Runs the body for as long as the condition holds."@,
        ),
    ]
}

/// The keywords.
pub open spec fn keyword_items() -> Seq<CompletionView> {
    seq![
        keyword_item("if"@, "Starts a conditional statement."@),
        keyword_item("else"@, "Starts the alternative of a conditional statement."@),
        keyword_item("while"@, "Starts a loop."@),
        keyword_item("return"@, "Leaves the function, with a value or without."@),
        keyword_item("and"@, "Holds when both sides hold."@),
        keyword_item("or"@, "Holds when either side holds."@),
        keyword_item("not"@, "Holds when the operand does not."@),
        keyword_item("true"@, "The boolean that holds."@),
        keyword_item("false"@, "The boolean that does not hold."@),
        keyword_item("me"@, "The entity that the script belongs to."@),
    ]
}

/// The primitive types, each with what it means.
pub open spec fn primitive_items() -> Seq<CompletionView> {
    seq![
        primitive_item("resource"@, "A resource, such as an image or audio file"@),
        primitive_item("f32"@, "A 32 bit floating point number"@),
        primitive_item("i32"@, "A 32 bit integer"@),
        primitive_item(
            "id"@,
            "An opaque type. It can represent anything external to the language."@,
        ),
        primitive_item("entity"@, "Holds names of types of entities (e.g. modname:entityname)"@),
        primitive_item("string"@, "Represents text"@),
    ]
}

/// The document declares a lifecycle function of the name.
pub open spec fn implemented(on_functions: Seq<FunctionView>, name: Seq<char>) -> bool {
    exists|i: int| 0 <= i < on_functions.len() && (#[trigger] on_functions[i]).name == name
}

/// The items for the lifecycle functions among the first `upto` offered that
/// the document does not declare.
pub open spec fn missing_on_functions(
    offered: Seq<Entry<GrugOnFunction>>,
    declared: Seq<FunctionView>,
    upto: int,
) -> Seq<CompletionView>
    decreases upto,
{
    if upto <= 0 || upto > offered.len() {
        Seq::empty()
    } else if implemented(declared, offered[upto - 1].name@) {
        missing_on_functions(offered, declared, upto - 1)
    } else {
        missing_on_functions(offered, declared, upto - 1).push(on_function_item(offered[upto - 1]))
    }
}

/// Node `node` sits at the top level: directly under the root, or it is the
/// root.
pub open spec fn at_top_level(tree: &SyntaxTree, node: int) -> bool {
    match tree.nodes@[node].parent {
        Some(p) => p == 0,
        None => true,
    }
}

/// The lifecycle functions to offer at node `node`: at the top level, those
/// of the document's entity type that the document does not declare yet.
pub open spec fn offered_on_functions(api: &ModApi, document: &Document, node: int) -> Seq<
    CompletionView,
> {
    if at_top_level(&document.tree, node) {
        match lookup(api.entities.entries@, document.entity_type@) {
            Some(entity) => missing_on_functions(
                entity.on_functions.entries@,
                function_views(document.on_functions@),
                entity.on_functions.entries@.len() as int,
            ),
            None => Seq::empty(),
        }
    } else {
        Seq::empty()
    }
}

/// What can be written at node `node`, in this order: the variables in
/// scope, the helpers of the document, the game functions, the statement
/// snippets, the keywords, and the lifecycle functions still to declare.
pub open spec fn general_completion(api: &ModApi, document: &Document, node: int) -> Seq<CompletionView> {
    resolve(&document.tree, document.content@, node).map_values(|v: VariableView| variable_item(v))
        + function_views(document.helpers@).map_values(|f: FunctionView| helper_item(f))
        + api.game_functions.entries@.map_values(|e: Entry<GrugGameFunction>| function_item(e))
        + statement_snippet_items() + keyword_items() + offered_on_functions(api, document, node)
}

/// What can be written where a type is expected: the entity types of the
/// schema, then the primitive types.
pub open spec fn type_completion(api: &ModApi) -> Seq<CompletionView> {
    api.entities.entries@.map_values(|e: Entry<GrugEntity>| entity_item(e)) + primitive_items()
}

fn push_item(items: &mut Vec<CompletionItem>, item: CompletionItem)
    ensures
        completion_views(final(items)@) == completion_views(old(items)@).push(item@),
{
    items.push(item);
    assert(completion_views(items@) =~= completion_views(old(items)@).push(item@));
}

fn plain_item(label: &str, doc: &str, kind: CompletionItemKind, markdown: bool) -> (item:
    CompletionItem)
    ensures
        item@ == (CompletionView {
            label: label@,
            detail: None,
            documentation: Some(
                if markdown {
                    DocumentationView::Markdown(doc@)
                } else {
                    DocumentationView::Plain(doc@)
                },
            ),
            kind,
            insert_text: None,
            snippet: false,
        }),
{
    CompletionItem {
        label: label.to_owned(),
        detail: None,
        documentation: Some(
            if markdown {
                Documentation::Markdown(doc.to_owned())
            } else {
                Documentation::Plain(doc.to_owned())
            },
        ),
        kind,
        insert_text: None,
        snippet: false,
    }
}

fn statement_item(label: &str, snippet: &str, doc: &str) -> (item: CompletionItem)
    ensures
        item@ == snippet_item(label@, snippet@, doc@),
{
    CompletionItem {
        label: label.to_owned(),
        detail: None,
        documentation: Some(Documentation::Markdown(doc.to_owned())),
        kind: CompletionItemKind::Snippet,
        insert_text: Some(snippet.to_owned()),
        snippet: true,
    }
}

fn push_statement_snippets(items: &mut Vec<CompletionItem>)
    ensures
        completion_views(final(items)@) == completion_views(old(items)@)
            + statement_snippet_items(),
{
    push_item(
        items,
        statement_item(
            "if",
            "if ${1:condition} {\n    $0\n}",
            "Runs the body when the condition holds.",
        ),
    );
    push_item(
        items,
        statement_item(
            "if else",
            "if ${1:condition} {\n    $2\n} else {\n    $0\n}",
            "Runs the first body when the condition holds, and the second when it does not.",
        ),
    );
    push_item(
        items,
        statement_item(
            "while",
            "while ${1:condition} {\n    $0\n}",
            "Runs the body for as long as the condition holds.",
        ),
    );
    assert(completion_views(items@) =~= completion_views(old(items)@) + statement_snippet_items());
}

fn push_keywords(items: &mut Vec<CompletionItem>)
    ensures
        completion_views(final(items)@) == completion_views(old(items)@) + keyword_items(),
{
    let kind = CompletionItemKind::Keyword;
    push_item(items, plain_item("if", "Starts a conditional statement.", kind, true));
    push_item(
        items,
        plain_item("else", "Starts the alternative of a conditional statement.", kind, true),
    );
    push_item(items, plain_item("while", "Starts a loop.", kind, true));
    push_item(
        items,
        plain_item("return", "Leaves the function, with a value or without.", kind, true),
    );
    push_item(items, plain_item("and", "Holds when both sides hold.", kind, true));
    push_item(items, plain_item("or", "Holds when either side holds.", kind, true));
    push_item(items, plain_item("not", "Holds when the operand does not.", kind, true));
    push_item(items, plain_item("true", "The boolean that holds.", kind, true));
    push_item(items, plain_item("false", "The boolean that does not hold.", kind, true));
    push_item(items, plain_item("me", "The entity that the script belongs to.", kind, true));
    assert(completion_views(items@) =~= completion_views(old(items)@) + keyword_items());
}

fn push_primitives(items: &mut Vec<CompletionItem>)
    ensures
        completion_views(final(items)@) == completion_views(old(items)@) + primitive_items(),
{
    let kind = CompletionItemKind::TypeParameter;
    push_item(
        items,
        plain_item("resource", "A resource, such as an image or audio file", kind, false),
    );
    push_item(items, plain_item("f32", "A 32 bit floating point number", kind, false));
    push_item(items, plain_item("i32", "A 32 bit integer", kind, false));
    push_item(
        items,
        plain_item(
            "id",
            "An opaque type. It can represent anything external to the language.",
            kind,
            false,
        ),
    );
    push_item(
        items,
        plain_item(
            "entity",
            "Holds names of types of entities (e.g. modname:entityname)",
            kind,
            false,
        ),
    );
    push_item(items, plain_item("string", "Represents text", kind, false));
    assert(completion_views(items@) =~= completion_views(old(items)@) + primitive_items());
}

fn make_call_snippet(name: &str, func: &GrugGameFunction) -> (s: String)
    ensures
        s@ == call_snippet(name@, func.arguments@),
{
    let mut snippet = name.to_owned();
    snippet.append("(");
    let ghost head = snippet@;
    let mut idx: usize = 0;
    while idx < func.arguments.len()
        invariant
            idx <= func.arguments@.len(),
            snippet@ == head + placeholders(func.arguments@, idx as int),
        decreases func.arguments@.len() - idx,
    {
        let ghost before = snippet@;
        if idx > 0 {
            snippet.append(", ");
        }
        snippet.append("${");
        let number = to_decimal(idx + 1);
        snippet.append(number.as_str());
        snippet.append(":");
        snippet.append(func.arguments[idx].get_name());
        snippet.append("}");
        proof {
            let piece = placeholder(func.arguments@, idx as int);
            if idx > 0 {
                assert(snippet@ =~= head + (placeholders(func.arguments@, idx as int) + ", "@
                    + piece));
            } else {
                assert(placeholders(func.arguments@, 0) =~= Seq::<char>::empty());
                assert(snippet@ =~= head + piece);
            }
        }
        idx += 1;
    }
    snippet.append(")");
    snippet
}

fn is_implemented(document: &Document, name: &str) -> (b: bool)
    ensures
        b == implemented(function_views(document.on_functions@), name@),
{
    let ghost declared = function_views(document.on_functions@);
    let mut k: usize = 0;
    while k < document.on_functions.len()
        invariant
            k <= document.on_functions@.len(),
            declared == function_views(document.on_functions@),
            forall|i: int| 0 <= i < k ==> (#[trigger] declared[i]).name != name@,
        decreases document.on_functions@.len() - k,
    {
        assert(declared[k as int] == document.on_functions@[k as int]@);
        if crate::text::str_is(document.on_functions[k].name.as_str(), name) {
            return true;
        }
        k += 1;
    }
    false
}

fn push_offered_on_functions(
    items: &mut Vec<CompletionItem>,
    mod_api: &ModApi,
    document: &Document,
    node: usize,
)
    requires
        document.tree.wf(),
        node < document.tree.nodes@.len(),
    ensures
        completion_views(final(items)@) == completion_views(old(items)@) + offered_on_functions(
            mod_api,
            document,
            node as int,
        ),
{
    let ghost start = completion_views(items@);
    let top = match document.tree.parent(node) {
        Some(p) => p == 0,
        None => true,
    };
    if top {
        match mod_api.entities.get(document.entity_type.as_str()) {
            Some(entity) => {
                let ghost offered = entity.on_functions.entries@;
                let ghost declared = function_views(document.on_functions@);
                let mut k: usize = 0;
                assert(completion_views(items@) =~= start + missing_on_functions(
                    offered,
                    declared,
                    0,
                ));
                while k < entity.on_functions.entries.len()
                    invariant
                        k <= entity.on_functions.entries@.len(),
                        offered == entity.on_functions.entries@,
                        declared == function_views(document.on_functions@),
                        completion_views(items@) == start + missing_on_functions(
                            offered,
                            declared,
                            k as int,
                        ),
                    decreases entity.on_functions.entries@.len() - k,
                {
                    let entry = &entity.on_functions.entries[k];
                    if !is_implemented(document, entry.name.as_str()) {
                        let item = CompletionItem {
                            label: entry.name.clone(),
                            detail: Some(entry.name.clone()),
                            documentation: Some(
                                Documentation::Markdown(entry.value.description.clone()),
                            ),
                            kind: CompletionItemKind::Function,
                            insert_text: None,
                            snippet: false,
                        };
                        assert(item@ == on_function_item(*entry));
                        push_item(items, item);
                        assert(completion_views(items@) =~= start + missing_on_functions(
                            offered,
                            declared,
                            k + 1,
                        ));
                    }
                    k += 1;
                }
                return ;
            },
            None => {},
        }
    }
    assert(completion_views(items@) =~= start + Seq::<CompletionView>::empty());
}

/// Lists what can be written at `node`.
pub fn get_completion(mod_api: &ModApi, document: &Document, node: usize) -> (r: Vec<CompletionItem>)
    requires
        document.wf(),
        node < document.tree.nodes@.len(),
    ensures
        completion_views(r@) == general_completion(mod_api, document, node as int),
{
    let mut items: Vec<CompletionItem> = Vec::new();
    let spot_info = get_spot_info(document, node);
    let ghost vars = resolve(&document.tree, document.content@, node as int);
    let ghost var_items = vars.map_values(|v: VariableView| variable_item(v));
    let mut k: usize = 0;
    assert(completion_views(items@) =~= var_items.subrange(0, 0));
    while k < spot_info.variables.len()
        invariant
            k <= spot_info.variables@.len(),
            vars == variable_views(spot_info.variables@),
            var_items == vars.map_values(|v: VariableView| variable_item(v)),
            completion_views(items@) == var_items.subrange(0, k as int),
        decreases spot_info.variables@.len() - k,
    {
        let var = &spot_info.variables[k];
        assert(vars[k as int] == var@);
        let item = CompletionItem {
            label: var.name.clone(),
            detail: Some(var.format()),
            documentation: None,
            kind: CompletionItemKind::Variable,
            insert_text: None,
            snippet: false,
        };
        assert(item@ == variable_item(var@));
        push_item(&mut items, item);
        assert(completion_views(items@) =~= var_items.subrange(0, k + 1));
        k += 1;
    }
    assert(completion_views(items@) =~= var_items);
    let ghost helpers = function_views(document.helpers@);
    let ghost helper_items = helpers.map_values(|f: FunctionView| helper_item(f));
    let mut k: usize = 0;
    assert(completion_views(items@) =~= var_items + helper_items.subrange(0, 0));
    while k < document.helpers.len()
        invariant
            k <= document.helpers@.len(),
            helpers == function_views(document.helpers@),
            helper_items == helpers.map_values(|f: FunctionView| helper_item(f)),
            completion_views(items@) == var_items + helper_items.subrange(0, k as int),
        decreases document.helpers@.len() - k,
    {
        let helper = &document.helpers[k];
        assert(helpers[k as int] == helper@);
        let item = CompletionItem {
            label: helper.name.clone(),
            detail: Some(helper.format()),
            documentation: None,
            kind: CompletionItemKind::Variable,
            insert_text: None,
            snippet: false,
        };
        assert(item@ == helper_item(helper@));
        push_item(&mut items, item);
        assert(completion_views(items@) =~= var_items + helper_items.subrange(0, k + 1));
        k += 1;
    }
    assert(completion_views(items@) =~= var_items + helper_items);
    let ghost funcs = mod_api.game_functions.entries@;
    let ghost func_items = funcs.map_values(|e: Entry<GrugGameFunction>| function_item(e));
    let mut k: usize = 0;
    assert(completion_views(items@) =~= var_items + helper_items + func_items.subrange(0, 0));
    while k < mod_api.game_functions.entries.len()
        invariant
            k <= mod_api.game_functions.entries@.len(),
            funcs == mod_api.game_functions.entries@,
            func_items == funcs.map_values(|e: Entry<GrugGameFunction>| function_item(e)),
            completion_views(items@) == var_items + helper_items + func_items.subrange(
                0,
                k as int,
            ),
        decreases mod_api.game_functions.entries@.len() - k,
    {
        let entry = &mod_api.game_functions.entries[k];
        let name = entry.name.as_str();
        let mut detail = entry.value.format(name);
        detail.append("\n");
        let item = CompletionItem {
            label: entry.name.clone(),
            detail: Some(detail),
            documentation: Some(Documentation::Markdown(entry.value.description.clone())),
            kind: CompletionItemKind::Function,
            insert_text: Some(make_call_snippet(name, &entry.value)),
            snippet: true,
        };
        assert(item@ == function_item(*entry));
        push_item(&mut items, item);
        assert(completion_views(items@) =~= var_items + helper_items + func_items.subrange(
            0,
            k + 1,
        ));
        k += 1;
    }
    assert(completion_views(items@) =~= var_items + helper_items + func_items);
    push_statement_snippets(&mut items);
    push_keywords(&mut items);
    push_offered_on_functions(&mut items, mod_api, document, node);
    items
}

/// Lists what can be written where a type is expected.
pub fn get_type_completion(mod_api: &ModApi) -> (r: Vec<CompletionItem>)
    ensures
        completion_views(r@) == type_completion(mod_api),
{
    let mut items: Vec<CompletionItem> = Vec::new();
    let ghost entities = mod_api.entities.entries@;
    let ghost entity_items = entities.map_values(|e: Entry<GrugEntity>| entity_item(e));
    let mut k: usize = 0;
    assert(completion_views(items@) =~= entity_items.subrange(0, 0));
    while k < mod_api.entities.entries.len()
        invariant
            k <= mod_api.entities.entries@.len(),
            entities == mod_api.entities.entries@,
            entity_items == entities.map_values(|e: Entry<GrugEntity>| entity_item(e)),
            completion_views(items@) == entity_items.subrange(0, k as int),
        decreases mod_api.entities.entries@.len() - k,
    {
        let entry = &mod_api.entities.entries[k];
        let item = CompletionItem {
            label: entry.name.clone(),
            detail: None,
            documentation: Some(Documentation::Plain(entry.value.description.clone())),
            kind: CompletionItemKind::Class,
            insert_text: None,
            snippet: false,
        };
        assert(item@ == entity_item(*entry));
        push_item(&mut items, item);
        assert(completion_views(items@) =~= entity_items.subrange(0, k + 1));
        k += 1;
    }
    assert(completion_views(items@) =~= entity_items);
    push_primitives(&mut items);
    items
}

/// The position of the first line feed at or after `from`, or the length of
/// the text where there is none.
pub open spec fn line_end(content: Seq<u8>, from: int) -> int
    decreases content.len() - from,
{
    if from < 0 || from >= content.len() {
        content.len() as int
    } else if content[from] == 10u8 {
        from
    } else {
        line_end(content, from + 1)
    }
}

/// Where line `line` of the text starts, if the text has that many lines. A
/// line starts at the start of the text or after a line feed, and holds at
/// least one byte, be it only its line feed.
pub open spec fn line_start(content: Seq<u8>, line: nat) -> Option<int>
    decreases line,
{
    if line == 0 {
        if content.len() > 0 {
            Some(0)
        } else {
            None
        }
    } else {
        match line_start(content, (line - 1) as nat) {
            Some(s) => {
                let e = line_end(content, s);
                if e + 1 < content.len() {
                    Some(e + 1)
                } else {
                    None
                }
            },
            None => None,
        }
    }
}

/// Where the text of the line that starts at `start` ends: before its line
/// feed, and before the carriage return in front of that, if there is one.
pub open spec fn line_text_end(content: Seq<u8>, start: int) -> int {
    let e = line_end(content, start);
    if e < content.len() && e > start && content[e - 1] == 13u8 {
        e - 1
    } else {
        e
    }
}

/// The text of line `line` up to the column `character`, or up to the end of
/// the line where it is shorter.
pub open spec fn line_prefix(content: Seq<u8>, line: nat, character: nat) -> Option<Seq<u8>> {
    match line_start(content, line) {
        Some(s) => {
            let e = line_text_end(content, s);
            Some(
                content.subrange(
                    s,
                    if s + character < e {
                        s + character
                    } else {
                        e
                    },
                ),
            )
        },
        None => None,
    }
}

/// The first `upto` bytes of the text end in a colon, blanks and tabs after
/// it apart.
pub open spec fn follows_colon(prefix: Seq<u8>, upto: int) -> bool
    decreases upto,
{
    if upto <= 0 || upto > prefix.len() {
        false
    } else if prefix[upto - 1] == 58u8 {
        true
    } else if prefix[upto - 1] == 32u8 || prefix[upto - 1] == 9u8 {
        follows_colon(prefix, upto - 1)
    } else {
        false
    }
}

fn find_line_end(content: &[u8], from: usize) -> (e: usize)
    requires
        from <= content@.len(),
    ensures
        e == line_end(content@, from as int),
        from <= e <= content@.len(),
{
    let mut k = from;
    while k < content.len()
        invariant
            from <= k <= content@.len(),
            line_end(content@, k as int) == line_end(content@, from as int),
        decreases content@.len() - k,
    {
        if content[k] == 10u8 {
            return k;
        }
        k += 1;
    }
    k
}

fn find_line_start(content: &[u8], line: usize) -> (r: Option<usize>)
    ensures
        match r {
            Some(s) => line_start(content@, line as nat) == Some(s as int) && s < content@.len(),
            None => line_start(content@, line as nat) is None,
        },
{
    if content.len() == 0 {
        assert(line_start(content@, line as nat) is None) by {
            lemma_no_lines(content@, line as nat);
        }
        return None;
    }
    let mut start: usize = 0;
    let mut k: usize = 0;
    while k < line
        invariant
            k <= line,
            start < content@.len(),
            line_start(content@, k as nat) == Some(start as int),
        decreases line - k,
    {
        let e = find_line_end(content, start);
        if e >= content.len() - 1 {
            assert(line_start(content@, (k + 1) as nat) is None);
            assert(line_start(content@, line as nat) is None) by {
                lemma_lines_stop(content@, (k + 1) as nat, line as nat);
            }
            return None;
        }
        start = e + 1;
        k += 1;
    }
    Some(start)
}

/// A text without bytes has no lines.
proof fn lemma_no_lines(content: Seq<u8>, line: nat)
    requires
        content.len() == 0,
    ensures
        line_start(content, line) is None,
    decreases line,
{
    if line > 0 {
        lemma_no_lines(content, (line - 1) as nat);
    }
}

/// After the last line there are no more lines.
proof fn lemma_lines_stop(content: Seq<u8>, k: nat, line: nat)
    requires
        k <= line,
        line_start(content, k) is None,
    ensures
        line_start(content, line) is None,
    decreases line,
{
    if line > k {
        lemma_lines_stop(content, k, (line - 1) as nat);
    }
}

fn prefix_follows_colon(content: &[u8], start: usize, end: usize) -> (b: bool)
    requires
        start <= end <= content@.len(),
    ensures
        b == follows_colon(content@.subrange(start as int, end as int), end - start),
{
    let ghost prefix = content@.subrange(start as int, end as int);
    let mut k = end;
    while k > start
        invariant
            start <= k <= end <= content@.len(),
            prefix == content@.subrange(start as int, end as int),
            follows_colon(prefix, k - start) == follows_colon(prefix, end - start),
        decreases k - start,
    {
        let c = content[k - 1];
        assert(prefix[k - start - 1] == c);
        if c == 58u8 {
            return true;
        }
        if c != 32u8 && c != 9u8 {
            return false;
        }
        k -= 1;
    }
    false
}

/// Node `node` is a string or a comment: inside it nothing is proposed.
pub open spec fn in_text(tree: &SyntaxTree, node: int) -> bool {
    tree.is_kind(node, "string"@) || tree.is_kind(node, "comment"@)
}

/// The answer to a completion request at a position. There is none where the
/// document is not UTF-8 or has no such line. Inside a string or a comment
/// nothing is proposed; right after a colon, types are; elsewhere, whatever
/// can be written at the node found at the position.
pub open spec fn completion_of(api: &ModApi, document: &Document, position: Position) -> Option<
    Seq<CompletionView>,
> {
    let content = document.content@;
    if !valid_utf8(content) {
        None
    } else {
        match line_prefix(content, position.line as nat, position.character as nat) {
            Some(prefix) => {
                let node = locate(&document.tree, point_of(position)) as int;
                if in_text(&document.tree, node) {
                    Some(Seq::empty())
                } else if follows_colon(prefix, prefix.len() as int) {
                    Some(type_completion(api))
                } else {
                    Some(general_completion(api, document, node))
                }
            },
            None => None,
        }
    }
}

/// The views of an optional list of items.
pub open spec fn opt_completion(items: Option<Vec<CompletionItem>>) -> Option<Seq<CompletionView>> {
    match items {
        Some(items) => Some(completion_views(items@)),
        None => None,
    }
}

/// Answers a completion request at a position of the document.
pub fn completion_at(mod_api: &ModApi, document: &Document, position: Position) -> (r: Option<
    Vec<CompletionItem>,
>)
    requires
        document.wf(),
    ensures
        opt_completion(r) == completion_of(mod_api, document, position),
        in_text(&document.tree, locate(&document.tree, point_of(position)) as int) ==> (r matches Some(
            items,
        ) ==> items@.len() == 0),
{
    let content = document.content.as_slice();
    if string_from_utf8(content).is_err() {
        return None;
    }
    let start = match find_line_start(content, position.line as usize) {
        Some(s) => s,
        None => {
            return None;
        },
    };
    let end = find_line_end(content, start);
    let text_end = if end < content.len() && end > start && content[end - 1] == 13u8 {
        end - 1
    } else {
        end
    };
    let character = position.character as usize;
    let cut = if character < text_end - start {
        start + character
    } else {
        text_end
    };
    let is_type = prefix_follows_colon(content, start, cut);
    let node = get_nearest_node(document, position);
    let tree = &document.tree;
    if tree.kind_is(node, "string") || tree.kind_is(node, "comment") {
        let items: Vec<CompletionItem> = Vec::new();
        assert(completion_views(items@) =~= Seq::<CompletionView>::empty());
        Some(items)
    } else if is_type {
        Some(get_type_completion(mod_api))
    } else {
        Some(get_completion(mod_api, document, node))
    }
}

} // verus!
