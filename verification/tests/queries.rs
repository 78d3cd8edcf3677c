use grug_ls::server::completion::{
    completion_at, get_completion, CompletionItem, CompletionItemKind, Documentation,
};
use grug_ls::server::document::{Document, Function, Type, Variable};
use grug_ls::server::goto_definition::definition_at;
use grug_ls::server::hover::{get_hover, hover_at, hover_text, HoverContent};
use grug_ls::server::mod_api::{
    default_range, GrugArgument, GrugDetailedType, GrugEntity, GrugGameFunction, GrugOnFunction,
    ModApi,
};
use grug_ls::server::name_map::NameMap;
use grug_ls::server::rename::{rename_at, TextEdit};
use grug_ls::server::utils::{
    get_nearest_node, get_spot_info, treesitter_range_to_lsp, LspRange, Position,
};
use grug_ls::syntax::{Point, Range};

fn grug_parser() -> tree_sitter::Parser {
    let mut parser = tree_sitter::Parser::new();
    parser
        .set_language(&tree_sitter_grug::LANGUAGE.into())
        .unwrap();
    parser
}

fn document(source: &str) -> Document {
    let mut parser = grug_parser();
    Document::new(
        &mut parser,
        source.as_bytes().to_vec(),
        "tired-box.grug".to_string(),
    )
    .unwrap()
}

fn at(line: u32, character: u32) -> Position {
    Position { line, character }
}

fn lsp(start: (u32, u32), end: (u32, u32)) -> LspRange {
    LspRange {
        start: at(start.0, start.1),
        end: at(end.0, end.1),
    }
}

fn schema() -> ModApi {
    let mut on_functions = NameMap::new();
    on_functions.insert(
        "on_spawn".to_string(),
        GrugOnFunction {
            description: "Called when the entity is spawned.".to_string(),
            range: Range {
                start_byte: 40,
                end_byte: 60,
                start_point: Point { row: 3, column: 4 },
                end_point: Point { row: 3, column: 24 },
            },
        },
    );
    on_functions.insert(
        "on_tick".to_string(),
        GrugOnFunction {
            description: "Called every tick.".to_string(),
            range: default_range(),
        },
    );
    let mut entities = NameMap::new();
    entities.insert(
        "box".to_string(),
        GrugEntity {
            description: "A static or dynamic box.".to_string(),
            on_functions,
            range: Range {
                start_byte: 10,
                end_byte: 90,
                start_point: Point { row: 1, column: 2 },
                end_point: Point { row: 5, column: 3 },
            },
        },
    );
    let mut game_functions = NameMap::new();
    game_functions.insert(
        "rand".to_string(),
        GrugGameFunction {
            description: "Gets a random f32 between min and max.".to_string(),
            arguments: vec![
                GrugArgument::F32 {
                    name: "min".to_string(),
                },
                GrugArgument::F32 {
                    name: "max".to_string(),
                },
            ],
            return_type: Some(GrugDetailedType::F32),
            range: Range {
                start_byte: 100,
                end_byte: 120,
                start_point: Point { row: 7, column: 2 },
                end_point: Point { row: 7, column: 22 },
            },
        },
    );
    ModApi {
        entities,
        game_functions,
    }
}

fn labels(items: &[CompletionItem]) -> Vec<String> {
    items.iter().map(|i| i.label.clone()).collect()
}

const SCRIPT: &str = "a: i32 = 2\n\nhelper_twice(x: i32) i32 {\n    return x\n}\n\non_spawn(str: string) {\n    c: f32 = 6\n    if a == 2 {\n        inner: i32 = 1\n        print(inner)\n    } else {\n        print(c)\n    }\n    rand(c, c)\n}\n";

#[test]
fn hover_on_a_local_shows_name_and_type() {
    let document = document(SCRIPT);
    let hover = hover_at(&schema(), &document, at(12, 14)).unwrap();
    assert_eq!(hover.contents, "```rust\nc: f32\n```");
    assert_eq!(hover.range, lsp((12, 14), (12, 15)));
}

#[test]
fn hover_on_a_global_shows_name_and_type() {
    let document = document(SCRIPT);
    let hover = hover_at(&schema(), &document, at(8, 7)).unwrap();
    assert_eq!(hover.contents, "```rust\na: i32\n```");
}

#[test]
fn hover_on_a_parameter_shows_name_and_type() {
    let document = document("on_spawn(str: string) {\n    print(str)\n}\n");
    let hover = hover_at(&schema(), &document, at(1, 11)).unwrap();
    assert_eq!(hover.contents, "```rust\nstr: string\n```");
}

#[test]
fn hover_on_a_game_function_shows_signature_and_description() {
    let document = document(SCRIPT);
    let hover = hover_at(&schema(), &document, at(14, 5)).unwrap();
    assert_eq!(
        hover.contents,
        "```rust\nrand(min: f32, max: f32) f32\n```\nGets a random f32 between min and max."
    );
}

#[test]
fn hover_on_a_lifecycle_function_shows_the_schema_entry() {
    let document = document(SCRIPT);
    let hover = hover_at(&schema(), &document, at(6, 2)).unwrap();
    assert_eq!(
        hover.contents,
        "```rust\non_spawn\n```\nCalled when the entity is spawned."
    );
}

#[test]
fn hover_on_a_helper_shows_its_signature() {
    let document = document(SCRIPT);
    let hover = hover_at(&schema(), &document, at(2, 3)).unwrap();
    assert_eq!(hover.contents, "```rust\nhelper_twice(x: i32) i32\n```");
}

#[test]
fn hover_on_a_primitive_type_explains_it() {
    let document = document(SCRIPT);
    let hover = hover_at(&schema(), &document, at(0, 4)).unwrap();
    assert_eq!(hover.contents, "```rust\ni32\n```\nA 32 bit integer");
}

#[test]
fn hover_on_an_unknown_name_shows_nothing() {
    let document = document(SCRIPT);
    // `print` is neither a variable nor a game function of the schema.
    assert!(hover_at(&schema(), &document, at(12, 9)).is_none());
    // A keyword shows nothing either.
    assert!(hover_at(&schema(), &document, at(3, 5)).is_none());
}

#[test]
fn hover_text_leaves_out_what_is_empty() {
    let both = HoverContent {
        code: "a".to_string(),
        text: "b".to_string(),
    };
    assert_eq!(hover_text(&both), "```rust\na\n```\nb");
    assert_eq!(
        hover_text(&HoverContent::new_code_only("a".to_string())),
        "```rust\na\n```"
    );
    let text_only = HoverContent {
        code: String::new(),
        text: "b".to_string(),
    };
    assert_eq!(hover_text(&text_only), "b");
    let neither = HoverContent {
        code: String::new(),
        text: String::new(),
    };
    assert_eq!(hover_text(&neither), "");
}

#[test]
fn a_variable_of_one_branch_is_not_in_scope_in_the_other() {
    let document = document(SCRIPT);
    let tree = &document.tree;
    let p = Point { row: 12, column: 14 };
    let node = tree.descendant_for_point_range(0, p, p, true);
    assert_eq!(tree.kind(node), "identifier");
    let names: Vec<String> = get_spot_info(&document, node)
        .variables
        .iter()
        .map(|v| v.name.clone())
        .collect();
    assert_eq!(names, vec!["a", "c", "str"]);

    let q = Point { row: 10, column: 15 };
    let inside = tree.descendant_for_point_range(0, q, q, true);
    let names: Vec<String> = get_spot_info(&document, inside)
        .variables
        .iter()
        .map(|v| v.name.clone())
        .collect();
    assert_eq!(names, vec!["a", "inner", "c", "str"]);
}

#[test]
fn a_variable_is_not_in_scope_before_its_declaration() {
    let document = document("on_a() {\n    print(1)\n    late: i32 = 1\n    print(2)\n}\n");
    let tree = &document.tree;
    let before = Point { row: 1, column: 5 };
    let after = Point { row: 3, column: 5 };
    let first = tree.descendant_for_point_range(0, before, before, true);
    let second = tree.descendant_for_point_range(0, after, after, true);
    assert!(get_spot_info(&document, first).variables.is_empty());
    let names: Vec<String> = get_spot_info(&document, second)
        .variables
        .iter()
        .map(|v| v.name.clone())
        .collect();
    assert_eq!(names, vec!["late"]);
}

#[test]
fn the_innermost_declaration_of_a_name_wins() {
    let document = document("v: i32 = 1\n\non_a() {\n    v: f32 = 2.\n    print(v)\n}\n");
    let hover = hover_at(&schema(), &document, at(4, 10)).unwrap();
    assert_eq!(hover.contents, "```rust\nv: f32\n```");
    let tree = &document.tree;
    let p = Point { row: 4, column: 10 };
    let node = tree.descendant_for_point_range(0, p, p, true);
    let spot = get_spot_info(&document, node);
    assert_eq!(spot.innermost(1, b"v"), Some(1));
    assert_eq!(spot.innermost(1, b"w"), None);
}

#[test]
fn locating_the_start_of_a_named_node_finds_it_or_a_node_inside_it() {
    let document = document(SCRIPT);
    let tree = &document.tree;
    for node in 0..tree.len() {
        let range = tree.range(node);
        if !tree.node(node).named || range.start_point == range.end_point {
            continue;
        }
        let found = get_nearest_node(
            &document,
            at(
                range.start_point.row as u32,
                range.start_point.column as u32,
            ),
        );
        let mut up = Some(found);
        let mut below = false;
        while let Some(n) = up {
            if n == node {
                below = true;
            }
            up = tree.parent(n);
        }
        assert!(below, "node {} found {}", node, found);
        assert_eq!(tree.range(found).start_point, range.start_point);
    }
}

#[test]
fn locating_a_call_name_lands_on_the_identifier() {
    let document = document(SCRIPT);
    let found = get_nearest_node(&document, at(12, 8));
    assert_eq!(document.tree.kind(found), "identifier");
    assert_eq!(
        treesitter_range_to_lsp(&document.tree.range(found)),
        lsp((12, 8), (12, 13))
    );
}

#[test]
fn completion_lists_scope_then_helpers_then_the_schema() {
    let document = document(SCRIPT);
    let api = schema();
    let items = completion_at(&api, &document, at(14, 4)).unwrap();
    let got = labels(&items);
    assert_eq!(
        got,
        vec![
            "a",
            "c",
            "str",
            "helper_twice",
            "rand",
            "if",
            "if else",
            "while",
            "if",
            "else",
            "while",
            "return",
            "and",
            "or",
            "not",
            "true",
            "false",
            "me",
        ]
    );
    assert_eq!(items[0].detail.as_deref(), Some("a: i32"));
    assert_eq!(items[0].kind, CompletionItemKind::Variable);
    assert_eq!(items[3].detail.as_deref(), Some("helper_twice(x: i32) i32"));
    let rand = &items[4];
    assert_eq!(rand.kind, CompletionItemKind::Function);
    assert_eq!(rand.detail.as_deref(), Some("rand(min: f32, max: f32) f32\n"));
    assert_eq!(rand.insert_text.as_deref(), Some("rand(${1:min}, ${2:max})"));
    assert!(rand.snippet);
    assert!(matches!(
        &rand.documentation,
        Some(Documentation::Markdown(d)) if d == "Gets a random f32 between min and max."
    ));
    assert_eq!(items[5].kind, CompletionItemKind::Snippet);
    assert_eq!(items[8].kind, CompletionItemKind::Keyword);
}

#[test]
fn completion_at_the_top_level_offers_the_lifecycle_functions_still_to_declare() {
    let document = document(SCRIPT);
    let api = schema();
    let root = get_completion(&api, &document, 0);
    let got = labels(&root);
    assert_eq!(got.last().map(|s| s.as_str()), Some("on_tick"));
    assert!(!got.contains(&"on_spawn".to_string()));
    let offered = root.last().unwrap();
    assert_eq!(offered.detail.as_deref(), Some("on_tick"));
    assert_eq!(offered.kind, CompletionItemKind::Function);
}

#[test]
fn completion_after_a_colon_lists_types() {
    let document = document("on_a() {\n    x: \n}\n");
    let items = completion_at(&schema(), &document, at(1, 7)).unwrap();
    assert_eq!(
        labels(&items),
        vec!["box", "resource", "f32", "i32", "id", "entity", "string"]
    );
    assert_eq!(items[0].kind, CompletionItemKind::Class);
    assert!(matches!(
        &items[0].documentation,
        Some(Documentation::Plain(d)) if d == "A static or dynamic box."
    ));
    assert_eq!(items[1].kind, CompletionItemKind::TypeParameter);
    // Right after the colon, without a blank, types are listed too.
    let items = completion_at(&schema(), &document, at(1, 6)).unwrap();
    assert_eq!(items.len(), 7);
    // After the name, before the colon, they are not.
    let items = completion_at(&schema(), &document, at(1, 5)).unwrap();
    assert_ne!(items.len(), 7);
}

#[test]
fn completion_inside_a_string_or_a_comment_is_empty() {
    let document = document("a: i32 = 2\n# a: \non_a() {\n    print(\"a: \")\n}\n");
    let api = schema();
    let in_comment = completion_at(&api, &document, at(1, 5)).unwrap();
    assert!(in_comment.is_empty());
    let in_string = completion_at(&api, &document, at(3, 14)).unwrap();
    assert!(in_string.is_empty());
}

#[test]
fn completion_beyond_the_last_line_has_no_answer() {
    let document = document("a: i32 = 2\n");
    assert!(completion_at(&schema(), &document, at(1, 0)).is_none());
    assert!(completion_at(&schema(), &document, at(0, 0)).is_some());
}

#[test]
fn definition_of_a_variable_is_its_declaration() {
    let document = document(SCRIPT);
    let link = definition_at(
        &schema(),
        "file:///mods/mod_api.json",
        "file:///mods/tired-box.grug",
        &document,
        at(12, 14),
    )
    .unwrap();
    assert_eq!(link.target_uri, "file:///mods/tired-box.grug");
    assert_eq!(link.target_range, lsp((7, 4), (7, 14)));
    assert_eq!(link.target_selection_range, lsp((7, 4), (7, 5)));
}

#[test]
fn definition_of_a_helper_is_its_declaration() {
    let document = document(
        "helper_twice(x: i32) i32 {\n    return x\n}\n\non_a() {\n    helper_twice(2)\n}\n",
    );
    let link = definition_at(
        &schema(),
        "file:///mods/mod_api.json",
        "file:///mods/tired-box.grug",
        &document,
        at(5, 6),
    )
    .unwrap();
    assert_eq!(link.target_uri, "file:///mods/tired-box.grug");
    assert_eq!(link.target_range, lsp((0, 0), (2, 1)));
    assert_eq!(link.target_selection_range, lsp((0, 0), (0, 12)));
}

#[test]
fn definition_of_schema_names_is_in_the_schema_file() {
    let document = document(SCRIPT);
    let api = schema();
    let game = definition_at(
        &api,
        "file:///mods/mod_api.json",
        "file:///mods/tired-box.grug",
        &document,
        at(14, 5),
    )
    .unwrap();
    assert_eq!(game.target_uri, "file:///mods/mod_api.json");
    assert_eq!(game.target_range, lsp((7, 2), (7, 22)));
    assert_eq!(game.target_selection_range, lsp((7, 2), (7, 22)));
    let on = definition_at(
        &api,
        "file:///mods/mod_api.json",
        "file:///mods/tired-box.grug",
        &document,
        at(6, 2),
    )
    .unwrap();
    assert_eq!(on.target_uri, "file:///mods/mod_api.json");
    assert_eq!(on.target_range, lsp((3, 4), (3, 24)));
    let typed = document_with_entity_type();
    let entity = definition_at(
        &api,
        "file:///mods/mod_api.json",
        "file:///mods/tired-box.grug",
        &typed,
        at(0, 4),
    )
    .unwrap();
    // The name of an entity type is an identifier inside the type.
    assert_eq!(entity.target_uri, "file:///mods/mod_api.json");
    assert_eq!(entity.target_range, lsp((1, 2), (5, 3)));
    let none = definition_at(
        &api,
        "file:///mods/mod_api.json",
        "file:///mods/tired-box.grug",
        &document,
        at(12, 9),
    );
    assert!(none.is_none());
}

fn document_with_entity_type() -> Document {
    document("b: box = 1\n")
}

fn offset(text: &str, position: Position) -> usize {
    let mut line = 0;
    let mut start = 0;
    for (i, c) in text.char_indices() {
        if line == position.line {
            break;
        }
        if c == '\n' {
            line += 1;
            start = i + 1;
        }
    }
    start + position.character as usize
}

fn apply(text: &str, edits: &[TextEdit]) -> String {
    let mut spans: Vec<(usize, usize, String)> = edits
        .iter()
        .map(|e| {
            (
                offset(text, e.range.start),
                offset(text, e.range.end),
                e.new_text.clone(),
            )
        })
        .collect();
    spans.sort();
    let mut out = text.to_string();
    for (start, end, new_text) in spans.into_iter().rev() {
        out.replace_range(start..end, &new_text);
    }
    out
}

#[test]
fn renaming_a_variable_edits_the_declaration_and_what_follows() {
    let source = "on_a() {\n    print(c)\n    c: f32 = 6\n    if c == 2 {\n        print(c)\n    }\n    other(1, c + c)\n}\n";
    let document = document(source);
    let edit = rename_at(
        &document,
        "file:///mods/tired-box.grug".to_string(),
        at(4, 14),
        "speed",
    )
    .unwrap();
    assert_eq!(edit.changes.len(), 1);
    let edits = edit.changes.get("file:///mods/tired-box.grug").unwrap();
    let ranges: Vec<LspRange> = edits.iter().map(|e| e.range).collect();
    assert_eq!(
        ranges,
        vec![
            lsp((2, 4), (2, 5)),
            lsp((3, 7), (3, 8)),
            lsp((4, 14), (4, 15)),
            lsp((6, 13), (6, 14)),
            lsp((6, 17), (6, 18)),
        ]
    );
    assert!(edits.iter().all(|e| e.new_text == "speed"));
    assert_eq!(
        apply(source, edits),
        "on_a() {\n    print(c)\n    speed: f32 = 6\n    if speed == 2 {\n        print(speed)\n    }\n    other(1, speed + speed)\n}\n"
    );
}

#[test]
fn renaming_a_variable_and_back_restores_the_text() {
    let source = "total: i32 = 0\n\non_a(step: i32) {\n    count: i32 = step\n    while count < 10 {\n        print(count)\n    }\n    print(total)\n}\n";
    let uri = "file:///mods/tired-box.grug";
    for (position, old_name) in [(at(5, 15), "count"), (at(7, 11), "total"), (at(3, 18), "step")] {
        let first = document(source);
        let there = rename_at(&first, uri.to_string(), position, "renamed").unwrap();
        let renamed = apply(source, there.changes.get(uri).unwrap());
        assert_ne!(renamed, source);
        assert!(!renamed.contains(old_name));
        let second = document(&renamed);
        let declared = there.changes.get(uri).unwrap()[0].range.start;
        let back = rename_at(&second, uri.to_string(), declared, old_name).unwrap();
        assert_eq!(apply(&renamed, back.changes.get(uri).unwrap()), source);
    }
}

#[test]
fn renaming_a_helper_edits_its_declaration_and_every_call() {
    let source = "helper_f(x: i32) i32 {\n    return x\n}\n\non_a() {\n    if true {\n        helper_f(1)\n    }\n    while false {\n        helper_f(helper_f(2))\n    }\n    f: i32 = 1\n}\n";
    let document = document(source);
    let uri = "file:///mods/tired-box.grug";
    let edit = rename_at(&document, uri.to_string(), at(6, 10), "helper_g").unwrap();
    let edits = edit.changes.get(uri).unwrap();
    let ranges: Vec<LspRange> = edits.iter().map(|e| e.range).collect();
    assert_eq!(
        ranges,
        vec![
            lsp((0, 0), (0, 8)),
            lsp((6, 8), (6, 16)),
            lsp((9, 8), (9, 16)),
            lsp((9, 17), (9, 25)),
        ]
    );
    assert_eq!(
        apply(source, edits),
        "helper_g(x: i32) i32 {\n    return x\n}\n\non_a() {\n    if true {\n        helper_g(1)\n    }\n    while false {\n        helper_g(helper_g(2))\n    }\n    f: i32 = 1\n}\n"
    );
    // Literals are of kinds that a rename does not walk into; they are reported.
    assert!(!edit.unsupported.is_empty());
}

#[test]
fn renaming_something_that_is_no_name_gives_nothing() {
    let document = document(SCRIPT);
    let uri = "file:///mods/tired-box.grug";
    assert!(rename_at(&document, uri.to_string(), at(8, 4), "x").is_none());
    assert!(rename_at(&document, uri.to_string(), at(12, 9), "x").is_none());
}

#[test]
fn the_tables_of_a_document_hold_its_top_level() {
    let document = document(SCRIPT);
    let globals: Vec<(String, Type)> = document
        .global_vars
        .iter()
        .map(|v: &Variable| (v.name.clone(), v.ty.clone()))
        .collect();
    assert_eq!(globals, vec![("a".to_string(), Type::I32)]);
    let helpers: Vec<String> = document.helpers.iter().map(|f: &Function| f.format()).collect();
    assert_eq!(helpers, vec!["helper_twice(x: i32) i32"]);
    let ons: Vec<String> = document.on_functions.iter().map(|f| f.format()).collect();
    assert_eq!(ons, vec!["on_spawn(str: string)"]);
    assert_eq!(document.on_functions[0].ret_type, None);
    assert_eq!(document.entity_type, "box");
}

#[test]
fn a_declaration_that_is_not_utf8_is_left_out() {
    let mut parser = grug_parser();
    let mut source = b"a: i32 = 2\nb: f32 = 1\n".to_vec();
    let document = Document::new(&mut parser, source.clone(), "x-box.grug".to_string()).unwrap();
    assert_eq!(document.global_vars.len(), 2);
    // Put a byte that no UTF-8 text holds where the second name stands. The
    // parser may then see no declaration there at all; either way only the
    // first is left.
    source[11] = 0xff;
    let broken = Document::new(&mut parser, source, "x-box.grug".to_string()).unwrap();
    let names: Vec<String> = broken.global_vars.iter().map(|v| v.name.clone()).collect();
    assert_eq!(names, vec!["a"]);
}

#[test]
fn a_document_needs_a_name_with_the_extension() {
    let mut parser = grug_parser();
    assert!(Document::new(&mut parser, b"a: i32 = 2\n".to_vec(), "box.txt".to_string()).is_none());
}

#[test]
fn a_parser_without_a_language_gives_no_document() {
    let mut parser = tree_sitter::Parser::new();
    assert!(Document::new(&mut parser, b"a: i32 = 2\n".to_vec(), "a-box.grug".to_string()).is_none());
}

#[test]
fn a_result_type_is_read_like_any_type() {
    let document = document(
        "helper_a() i32 {\n    return 1\n}\nhelper_b() bool {\n    return true\n}\nhelper_d() {\n}\n",
    );
    let types: Vec<(String, Option<Type>)> = document
        .helpers
        .iter()
        .map(|f| (f.name.clone(), f.ret_type.clone()))
        .collect();
    assert_eq!(
        types,
        vec![
            ("helper_a".to_string(), Some(Type::I32)),
            ("helper_b".to_string(), Some(Type::Bool)),
            ("helper_d".to_string(), None),
        ]
    );
    assert_eq!(document.helpers[0].name, "helper_a");
    assert!(document.on_functions.is_empty());
}

#[test]
fn renaming_a_helper_reaches_assignments_and_brackets() {
    let source = "helper_f() i32 {\n    return 1\n}\n\non_a() {\n    x: i32 = 0\n    x = helper_f()\n    x = (helper_f() + 1) * (2 - helper_f())\n}\n";
    let document = document(source);
    let uri = "file:///mods/tired-box.grug";
    let edit = rename_at(&document, uri.to_string(), at(0, 2), "helper_g").unwrap();
    let edits = edit.changes.get(uri).unwrap();
    let ranges: Vec<LspRange> = edits.iter().map(|e| e.range).collect();
    assert_eq!(
        ranges,
        vec![
            lsp((0, 0), (0, 8)),
            lsp((6, 8), (6, 16)),
            lsp((7, 9), (7, 17)),
            lsp((7, 32), (7, 40)),
        ]
    );
    assert_eq!(
        apply(source, edits),
        "helper_g() i32 {\n    return 1\n}\n\non_a() {\n    x: i32 = 0\n    x = helper_g()\n    x = (helper_g() + 1) * (2 - helper_g())\n}\n"
    );
}

#[test]
fn renaming_a_variable_reaches_assignments_and_brackets() {
    let source = "on_a() {\n    c: i32 = 6\n    c = 1\n    c = (c + 1) * c\n    d: i32 = (c)\n}\n";
    let document = document(source);
    let uri = "file:///mods/tired-box.grug";
    let edit = rename_at(&document, uri.to_string(), at(2, 4), "n").unwrap();
    let edits = edit.changes.get(uri).unwrap();
    assert_eq!(
        apply(source, edits),
        "on_a() {\n    n: i32 = 6\n    n = 1\n    n = (n + 1) * n\n    d: i32 = (n)\n}\n"
    );
    assert_eq!(edits.len(), 6);
}

#[test]
fn renaming_a_helper_edits_each_call_once_in_the_order_of_the_text() {
    let source = "helper_f(a: i32) i32 {\n    return a\n}\n\non_a() {\n    if helper_f(1) > 0 {\n        while helper_f(2) < 3 {\n            helper_f(helper_f(4))\n        }\n    } else {\n        x: i32 = helper_f(5)\n    }\n}\n";
    let document = document(source);
    let uri = "file:///mods/tired-box.grug";
    let edit = rename_at(&document, uri.to_string(), at(0, 2), "helper_g").unwrap();
    let edits = edit.changes.get(uri).unwrap();
    let starts: Vec<(u32, u32)> = edits
        .iter()
        .map(|e| (e.range.start.line, e.range.start.character))
        .collect();
    assert_eq!(
        starts,
        vec![(0, 0), (5, 7), (6, 14), (7, 12), (7, 21), (10, 17)]
    );
    for pair in edits.windows(2) {
        let end = (pair[0].range.end.line, pair[0].range.end.character);
        let start = (pair[1].range.start.line, pair[1].range.start.character);
        assert!(end <= start);
    }
    let renamed = apply(source, edits);
    assert_eq!(renamed.matches("helper_g").count(), 6);
    assert_eq!(renamed.matches("helper_f").count(), 0);
}
