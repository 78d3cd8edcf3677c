use grug_ls::server::document::Document;
use grug_ls::server::formatting::{format_node, formatting_at, FormatError};
use grug_ls::server::utils::{LspRange, Position};

fn document(source: &str) -> Document {
    let mut parser = tree_sitter::Parser::new();
    parser
        .set_language(&tree_sitter_grug::LANGUAGE.into())
        .unwrap();
    Document::new(
        &mut parser,
        source.as_bytes().to_vec(),
        "tired-box.grug".to_string(),
    )
    .unwrap()
}

fn formatted(source: &str) -> String {
    formatting_at(&document(source)).unwrap().new_text
}

#[test]
fn formatting_keeps_text_that_is_formatted() {
    let source = "a: i32 = 2\n\non_spawn(str: string) {\n    c: f32 = 6\n    print(c, str)\n}";
    assert_eq!(formatted(source), source);
}

#[test]
fn formatting_sets_blanks_and_indents() {
    let source = "a:i32=2\n\n\n\non_spawn(  str :string){\nc:f32=6\n\n\n    print( c,str )\n}\n";
    assert_eq!(
        formatted(source),
        "a: i32 = 2\n\non_spawn(str: string) {\n    c: f32 = 6\n\n    print(c, str)\n}"
    );
}

#[test]
fn formatting_writes_statements_and_expressions() {
    let source = "helper_sum(a: i32, b: i32) i32 {\nreturn a+b*2\n}\non_tick() {\nx: i32 = helper_sum(1,( 2 - 3 ))\nif x>=1 and not x==2 {\nx = -x\n} else if x<0 {\nreturn\n} else {\nwhile true {\nprint(\"hi\",me)\n}\n}\n}\n";
    assert_eq!(
        formatted(source),
        "helper_sum(a: i32, b: i32) i32 {\n    return a + b * 2\n}\non_tick() {\n    x: i32 = helper_sum(1, (2 - 3))\n    if x >= 1 and not x == 2 {\n        x = -x\n    } else if x < 0 {\n        return\n    } else {\n        while true {\n            print(\"hi\", me)\n        }\n    }\n}"
    );
}

#[test]
fn formatting_an_empty_body_leaves_an_empty_line() {
    assert_eq!(formatted("on_a() {\n}\n"), "on_a() {\n\n}");
}

#[test]
fn formatting_replaces_the_whole_document() {
    let edit = formatting_at(&document("a:i32=2\nb:i32=3\n")).unwrap();
    assert_eq!(
        edit.range,
        LspRange {
            start: Position {
                line: 0,
                character: 0
            },
            end: Position {
                line: 2,
                character: 0
            },
        }
    );
    assert_eq!(edit.new_text, "a: i32 = 2\nb: i32 = 3");
}

#[test]
fn formatting_reports_a_node_it_does_not_know() {
    // The remainder operator is none of the tokens that the formatter writes.
    let document = document("on_a() {\n    x: i32 = 5 % 2\n}\n");
    let tree = &document.tree;
    match formatting_at(&document) {
        Err(FormatError::Unsupported(node)) => assert_eq!(tree.kind(node), "%"),
        other => panic!("{:?}", other),
    }
}

#[test]
fn formatting_a_token_drops_its_line_feed() {
    let source = "# note\na: i32 = 2\n";
    let document = document(source);
    let tree = &document.tree;
    let comment = tree.child(0, 0).unwrap();
    assert_eq!(tree.kind(comment), "comment");
    assert_eq!(
        format_node(&document.content, tree, comment).unwrap(),
        vec!["# note".to_string()]
    );
    assert_eq!(formatted(source), "# note\na: i32 = 2");
}
