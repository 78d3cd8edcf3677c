use grug_ls::server::document::{
    parse_variable_declaration, Document, ParseVariableDeclarationErr, Type,
};
use grug_ls::server::formatting::{format_node, FormatError};
use grug_ls::server::init::{ServerState, TransitionError};
use grug_ls::server::mod_api::ModApi;
use grug_ls::server::rename::{rename_helper, rename_var};
use grug_ls::server::utils::{
    get_nearest_node, get_spot_info, is_function_call, treesitter_range_to_lsp, LspRange, Position,
};
use grug_ls::server::Server;
use grug_ls::syntax::{Point, Range, RawNode, SyntaxTree};

fn span(bytes: (usize, usize), start: (usize, usize), end: (usize, usize)) -> Range {
    Range {
        start_byte: bytes.0,
        end_byte: bytes.1,
        start_point: Point { row: start.0, column: start.1 },
        end_point: Point { row: end.0, column: end.1 },
    }
}

// A node on the first line.
fn node(kind: &str, field: Option<&str>, depth: usize, from: usize, to: usize) -> RawNode {
    RawNode {
        kind: kind.to_string(),
        named: true,
        field: field.map(|f| f.to_string()),
        range: span((from, to), (0, from), (0, to)),
        depth,
    }
}

fn lsp(start: (u32, u32), end: (u32, u32)) -> LspRange {
    LspRange {
        start: Position {
            line: start.0,
            character: start.1,
        },
        end: Position {
            line: end.0,
            character: end.1,
        },
    }
}

// `x: i32` with the parts of a declaration.
fn declaration(kind: &str) -> SyntaxTree {
    SyntaxTree::from_raw(&vec![
        node("source_file", None, 0, 0, 6),
        node(kind, None, 1, 0, 6),
        node("identifier", Some("name"), 2, 0, 1),
        node("type", Some("type"), 2, 3, 6),
    ])
    .unwrap()
}

#[test]
fn a_declaration_is_read_from_its_name_and_its_type() {
    for kind in ["variable_declaration", "function_parameter"] {
        let tree = declaration(kind);
        let variable = parse_variable_declaration(b"x: i32", &tree, 1).unwrap();
        assert_eq!(variable.name, "x");
        assert_eq!(variable.ty, Type::I32);
        assert_eq!(variable.range, tree.range(1));
    }
    let tree = declaration("variable_declaration");
    let variable = parse_variable_declaration(b"\xc3\xa9: gun", &tree, 1);
    // The name covers one byte only, half of a character.
    assert!(matches!(
        variable,
        Err(ParseVariableDeclarationErr::StringParseError(_))
    ));
    let entity = parse_variable_declaration(b"g: gun", &tree, 1).unwrap();
    assert_eq!(entity.ty, Type::Entity("gun".to_string()));
}

#[test]
fn a_declaration_with_bytes_that_are_no_text_is_refused() {
    let tree = declaration("variable_declaration");
    assert!(matches!(
        parse_variable_declaration(b"\xff: i32", &tree, 1),
        Err(ParseVariableDeclarationErr::StringParseError(_))
    ));
    assert!(matches!(
        parse_variable_declaration(b"x: \xff32", &tree, 1),
        Err(ParseVariableDeclarationErr::StringParseError(_))
    ));
}

#[test]
fn a_node_of_another_kind_is_no_declaration() {
    let tree = declaration("assignment");
    match parse_variable_declaration(b"x: i32", &tree, 1) {
        Err(ParseVariableDeclarationErr::UnsupportedNodeType(kind)) => {
            assert_eq!(kind, "assignment")
        }
        other => panic!("{:?}", other),
    }
}

#[test]
fn a_declaration_without_a_type_is_refused() {
    let tree = SyntaxTree::from_raw(&vec![
        node("source_file", None, 0, 0, 6),
        node("variable_declaration", None, 1, 0, 6),
        node("identifier", Some("name"), 2, 0, 1),
    ])
    .unwrap();
    assert!(matches!(
        parse_variable_declaration(b"x: i32", &tree, 1),
        Err(ParseVariableDeclarationErr::MissingField)
    ));
    // Such a declaration is left out of the tables of the document.
    let document = Document::from_tree(tree, b"x: i32".to_vec(), "a-box.grug").unwrap();
    assert!(document.global_vars.is_empty());
    // And it cannot be formatted.
    assert_eq!(
        format_node(&document.content, &document.tree, 1),
        Err(FormatError::Malformed(1))
    );
}

// `f(){f()}` on the first line and `x=f` on the second: a helper named `f`,
// a call of it, and a variable that reads an identifier `f`.
fn helper_and_variable() -> Document {
    let mut nodes = vec![
        node("source_file", None, 0, 0, 12),
        node("function_declaration", None, 1, 0, 8),
        node("helper_identifier", Some("name"), 2, 0, 1),
        node("body", Some("body"), 2, 3, 8),
        node("function_call", None, 3, 4, 7),
        node("identifier", Some("name"), 4, 4, 5),
        node("variable_declaration", None, 1, 9, 12),
        node("identifier", Some("name"), 2, 9, 10),
        node("identifier", Some("value"), 2, 11, 12),
    ];
    nodes[0].range = span((0, 12), (0, 0), (1, 3));
    nodes[6].range = span((9, 12), (1, 0), (1, 3));
    nodes[7].range = span((9, 10), (1, 0), (1, 1));
    nodes[8].range = span((11, 12), (1, 2), (1, 3));
    let tree = SyntaxTree::from_raw(&nodes).unwrap();
    Document::from_tree(tree, b"f(){f()}\nx=f".to_vec(), "a-box.grug").unwrap()
}

#[test]
fn renaming_a_helper_leaves_a_variable_of_its_name_alone() {
    let document = helper_and_variable();
    let renamed = rename_helper(&document, 0, "f", "g");
    let ranges: Vec<LspRange> = renamed.edits.iter().map(|e| e.range).collect();
    assert_eq!(ranges, vec![lsp((0, 0), (0, 1)), lsp((0, 4), (0, 5))]);
    assert!(renamed.edits.iter().all(|e| e.new_text == "g"));
    assert!(renamed.unsupported.is_empty());
}

#[test]
fn renaming_a_variable_leaves_a_helper_of_its_name_alone() {
    let document = helper_and_variable();
    // The declaration of `x`, renamed as if it were called `f`: the value
    // after it reads `f` and is edited, the helper and its call are not.
    let renamed = rename_var(&document, 6, "f", "g").unwrap();
    let ranges: Vec<LspRange> = renamed.edits.iter().map(|e| e.range).collect();
    assert_eq!(ranges, vec![lsp((1, 0), (1, 1))]);
    // A node that is no declaration cannot be renamed as a variable.
    assert!(rename_var(&document, 1, "f", "g").is_none());
}

#[test]
fn a_name_under_a_call_is_the_name_of_the_call() {
    let document = helper_and_variable();
    assert!(is_function_call(&document.tree, 5));
    assert!(!is_function_call(&document.tree, 8));
    assert!(!is_function_call(&document.tree, 0));
}

#[test]
fn a_declaration_that_cannot_be_read_declares_nothing() {
    let document = helper_and_variable();
    // The declaration of `x` has no type and so declares nothing; at its
    // value nothing is in scope, neither as a global nor as a local.
    assert!(get_spot_info(&document, 8).variables.is_empty());
    assert_eq!(document.global_vars.len(), 0);
    assert_eq!(document.helpers.len(), 1);
    assert_eq!(document.helpers[0].name, "f");
}

#[test]
fn ranges_are_cut_down_to_what_an_editor_takes() {
    let wide = span((0, 1), (1usize << 32, 7), ((1usize << 32) + 5, (1usize << 33) + 9));
    assert_eq!(treesitter_range_to_lsp(&wide), lsp((0, 7), (5, 9)));
    let small = span((3, 9), (2, 3), (4, 5));
    assert_eq!(treesitter_range_to_lsp(&small), lsp((2, 3), (4, 5)));
}

#[test]
fn a_server_is_started_once_and_shut_down_once() {
    let server = || Server::new("/mods".to_string(), ModApi::default());
    let mut state = ServerState::new();
    assert_eq!(state.shutdown(), Err(TransitionError::NotActive));
    assert!(matches!(state, ServerState::Inactive));
    assert_eq!(state.activate(server()), Ok(()));
    assert!(matches!(state, ServerState::Active(_)));
    assert_eq!(state.activate(server()), Err(TransitionError::AlreadyActive));
    assert!(matches!(state, ServerState::Active(_)));
    assert_eq!(state.shutdown(), Ok(()));
    assert!(matches!(state, ServerState::Shutdown));
    assert_eq!(state.shutdown(), Err(TransitionError::AlreadyShutdown));
    assert_eq!(state.activate(server()), Err(TransitionError::AlreadyShutdown));
    assert!(matches!(state, ServerState::Shutdown));
}

#[test]
fn a_tree_that_reaches_beyond_the_content_gives_no_document() {
    let tree = || declaration("variable_declaration");
    assert!(Document::from_tree(tree(), b"x: i32".to_vec(), "a-box.grug").is_some());
    assert!(Document::from_tree(tree(), b"x: i32 = 1".to_vec(), "a-box.grug").is_some());
    assert!(Document::from_tree(tree(), b"x: i3".to_vec(), "a-box.grug").is_none());
    assert!(Document::from_tree(tree(), b"x: i32".to_vec(), "a-box.txt").is_none());
}

fn empty_at(kind: &str, depth: usize, at: usize) -> RawNode {
    node(kind, None, depth, at, at)
}

#[test]
fn an_empty_node_at_the_point_is_found() {
    // A body with two empty named nodes at its start, one inside the other,
    // and a statement after them.
    let nodes = vec![
        node("source_file", None, 0, 0, 5),
        node("body", None, 1, 0, 5),
        empty_at("outer", 2, 0),
        empty_at("inner", 3, 0),
        node("statement", None, 2, 1, 5),
    ];
    let tree = SyntaxTree::from_raw(&nodes).unwrap();
    let document = Document::from_tree(tree, b"xxxxx".to_vec(), "a-box.grug").unwrap();
    let start = Position {
        line: 0,
        character: 0,
    };
    assert_eq!(get_nearest_node(&document, start), 3);
    let p = Point { row: 0, column: 0 };
    assert_eq!(document.tree.descendant_for_point_range(0, p, p, true), 3);
    assert_eq!(document.tree.descendant_for_byte_range(0, 0, 0), 3);
    // Past the empty nodes the statement is found.
    let inside = Position {
        line: 0,
        character: 2,
    };
    assert_eq!(get_nearest_node(&document, inside), 4);
    // A range out of order is spanned by nothing.
    let q = Point { row: 0, column: 3 };
    assert_eq!(document.tree.descendant_for_point_range(0, q, p, true), 0);
    assert_eq!(document.tree.descendant_for_byte_range(0, 3, 1), 0);
}

#[test]
fn an_empty_node_before_a_node_at_the_same_point_is_found_first() {
    // An empty node and, right after it, a statement that starts at the same
    // point: the descent goes into the first that spans the point.
    let nodes = vec![
        node("source_file", None, 0, 0, 5),
        empty_at("missing", 1, 0),
        node("statement", None, 1, 0, 5),
    ];
    let tree = SyntaxTree::from_raw(&nodes).unwrap();
    let p = Point { row: 0, column: 0 };
    assert_eq!(tree.descendant_for_point_range(0, p, p, true), 1);
}

#[test]
fn a_result_type_outside_the_fixed_set_is_an_entity_type() {
    // `helper_c() gun {}` as a parser would hand it out.
    let nodes = vec![
        node("source_file", None, 0, 0, 17),
        node("function_declaration", None, 1, 0, 17),
        node("helper_identifier", Some("name"), 2, 0, 8),
        node("type", Some("ret_type"), 2, 11, 14),
        node("body", Some("body"), 2, 15, 17),
    ];
    let tree = SyntaxTree::from_raw(&nodes).unwrap();
    let document =
        Document::from_tree(tree, b"helper_c() gun {}".to_vec(), "a-box.grug").unwrap();
    assert_eq!(document.helpers.len(), 1);
    assert_eq!(document.helpers[0].name, "helper_c");
    assert_eq!(
        document.helpers[0].ret_type,
        Some(Type::Entity("gun".to_string()))
    );
    assert_eq!(document.helpers[0].format(), "helper_c() gun");
}
