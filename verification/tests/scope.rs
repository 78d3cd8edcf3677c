use grug_ls::server::document::{Document, Type};
use grug_ls::server::utils::get_spot_info;
use grug_ls::syntax::Point;

fn grug_parser() -> tree_sitter::Parser {
    let mut parser = tree_sitter::Parser::new();
    parser
        .set_language(&tree_sitter_grug::LANGUAGE.into())
        .unwrap();
    parser
}

#[test]
pub fn test_var_get() {
    let source = r#"a: i32 = 2
b: f32 = 4.

on_spawn(str: string) {
    c: f32 = 6
    if true {
        no: i32 = 3
    }
    print()
    
    d: f32 = 5
}
"#;

    let mut parser = grug_parser();

    let document = Document::new(
        &mut parser,
        source.as_bytes().to_vec(),
        "tired-box.grug".to_string(),
    )
    .unwrap();
    let tree = &document.tree;
    let func_call = tree.descendant_for_point_range(
        tree.root(),
        Point { row: 8, column: 5 },
        Point { row: 8, column: 11 },
        true,
    );

    assert!(tree.kind(func_call) == "function_call");
    assert!(tree.kind(tree.child_by_field_name(func_call, "name").unwrap()) == "identifier");

    assert_eq!(document.entity_type, "box");

    let spot_info = get_spot_info(&document, func_call);

    let names = ["a", "b", "c", "str"];
    let types = [Type::I32, Type::F32, Type::F32, Type::String];

    assert!(spot_info.variables.iter().any(|var| {
        names
            .iter()
            .zip(types.iter())
            .any(|(name, kind)| var.name == **name && var.ty == *kind)
    }));
}

#[test]
fn scope_at_call_lists_globals_then_locals() {
    let source = "a: i32 = 2\nb: f32 = 4.\n\non_spawn(str: string) {\n    c: f32 = 6\n    print()\n}\n";
    let mut parser = grug_parser();
    let document = Document::new(
        &mut parser,
        source.as_bytes().to_vec(),
        "tired-box.grug".to_string(),
    )
    .unwrap();
    let tree = &document.tree;
    let call = tree.descendant_for_point_range(
        tree.root(),
        Point { row: 5, column: 4 },
        Point { row: 5, column: 11 },
        true,
    );
    assert_eq!(tree.kind(call), "function_call");
    let spot = get_spot_info(&document, call);
    let got: Vec<(String, Type)> = spot
        .variables
        .iter()
        .map(|v| (v.name.clone(), v.ty.clone()))
        .collect();
    assert_eq!(
        got,
        vec![
            ("a".to_string(), Type::I32),
            ("b".to_string(), Type::F32),
            ("c".to_string(), Type::F32),
            ("str".to_string(), Type::String),
        ]
    );
}
