use grug_ls::server::document::{entity_type_from_name, Type, Variable};
use grug_ls::syntax::{Point, Range, RawNode, SyntaxTree};

fn span(bytes: (usize, usize), start: (usize, usize), end: (usize, usize)) -> Range {
    Range {
        start_byte: bytes.0,
        end_byte: bytes.1,
        start_point: Point { row: start.0, column: start.1 },
        end_point: Point { row: end.0, column: end.1 },
    }
}

fn raw(kind: &str, named: bool, field: Option<&str>, depth: usize, range: Range) -> RawNode {
    RawNode {
        kind: kind.to_string(),
        named,
        field: field.map(|f| f.to_string()),
        range,
        depth,
    }
}

// `x: i32` as a parser would hand it out.
fn declaration() -> Vec<RawNode> {
    vec![
        raw("source_file", true, None, 0, span((0, 6), (0, 0), (0, 6))),
        raw("variable_declaration", true, None, 1, span((0, 6), (0, 0), (0, 6))),
        raw("identifier", true, Some("name"), 2, span((0, 1), (0, 0), (0, 1))),
        raw(":", false, None, 2, span((1, 2), (0, 1), (0, 2))),
        raw("type", true, Some("type"), 2, span((3, 6), (0, 3), (0, 6))),
    ]
}

#[test]
fn from_raw_links_parents_and_children() {
    let tree = SyntaxTree::from_raw(&declaration()).unwrap();
    assert_eq!(tree.len(), 5);
    assert_eq!(tree.parent(0), None);
    assert_eq!(tree.parent(1), Some(0));
    assert_eq!(tree.parent(2), Some(1));
    assert_eq!(tree.parent(3), Some(1));
    assert_eq!(tree.parent(4), Some(1));
    assert_eq!(tree.child_count(1), 3);
    assert_eq!(tree.child(1, 0), Some(2));
    assert_eq!(tree.child(1, 2), Some(4));
    assert_eq!(tree.child(1, 3), None);
    assert_eq!(tree.prev_sibling(4), Some(3));
    assert_eq!(tree.prev_sibling(2), None);
    assert_eq!(tree.next_sibling(2), Some(3));
    assert_eq!(tree.next_sibling(4), None);
    assert_eq!(tree.child_by_field_name(1, "type"), Some(4));
    assert_eq!(tree.child_by_field_name(1, "value"), None);
    assert_eq!(tree.kind(4), "type");
}

#[test]
fn from_raw_refuses_a_list_without_a_root() {
    assert!(SyntaxTree::from_raw(&Vec::new()).is_none());
    let mut nodes = declaration();
    nodes[0].depth = 1;
    assert!(SyntaxTree::from_raw(&nodes).is_none());
}

#[test]
fn from_raw_refuses_a_jump_in_depth() {
    let mut nodes = declaration();
    nodes[2].depth = 3;
    assert!(SyntaxTree::from_raw(&nodes).is_none());
}

#[test]
fn from_raw_refuses_a_child_outside_its_parent() {
    let mut nodes = declaration();
    nodes[4].range = span((3, 7), (0, 3), (0, 7));
    assert!(SyntaxTree::from_raw(&nodes).is_none());
}

#[test]
fn from_raw_refuses_overlapping_siblings() {
    let mut nodes = declaration();
    nodes[3].range = span((0, 2), (0, 0), (0, 2));
    assert!(SyntaxTree::from_raw(&nodes).is_none());
}

#[test]
fn descent_finds_the_smallest_node_at_a_point() {
    let tree = SyntaxTree::from_raw(&declaration()).unwrap();
    let at = |column: usize, named: bool| {
        let p = Point { row: 0, column };
        tree.descendant_for_point_range(0, p, p, named)
    };
    assert_eq!(at(0, true), 2);
    assert_eq!(at(1, false), 3);
    // The colon has no name: the smallest named node around it is the declaration.
    assert_eq!(at(1, true), 1);
    // Between the colon and the type there is only the declaration.
    assert_eq!(at(2, false), 1);
    assert_eq!(at(4, true), 4);
    // The end of a range is outside it.
    assert_eq!(at(6, true), 0);
    assert_eq!(tree.descendant_for_byte_range(0, 0, 6), 1);
    assert_eq!(tree.descendant_for_byte_range(0, 3, 6), 4);
}

#[test]
fn types_are_read_and_written_by_name() {
    assert_eq!(Type::from_str("f32"), Type::F32);
    assert_eq!(Type::from_str("i32"), Type::I32);
    assert_eq!(Type::from_str("string"), Type::String);
    assert_eq!(Type::from_str("bool"), Type::Bool);
    assert_eq!(Type::from_str("id"), Type::ID);
    assert_eq!(Type::from_str("resource"), Type::Resource);
    assert_eq!(Type::from_str("gun"), Type::Entity("gun".to_string()));
    assert_eq!(Type::ID.as_str(), "id");
    assert_eq!(Type::Bool.as_str(), "bool");
    assert_eq!(Type::String.as_str(), "string");
    assert_eq!(Type::I32.as_str(), "i32");
    assert_eq!(Type::F32.as_str(), "f32");
    assert_eq!(Type::Resource.as_str(), "resource");
    assert_eq!(Type::Entity("gun".to_string()).as_str(), "gun");
}

#[test]
fn a_variable_is_shown_as_name_and_type() {
    let v = Variable {
        name: "speed".to_string(),
        ty: Type::F32,
        range: span((0, 0), (0, 0), (0, 0)),
    };
    assert_eq!(v.format(), "speed: f32");
}

#[test]
fn the_entity_type_follows_the_last_dash() {
    assert_eq!(entity_type_from_name("tired-box.grug"), Some("box".to_string()));
    assert_eq!(entity_type_from_name("a-b-gun.grug"), Some("gun".to_string()));
    assert_eq!(entity_type_from_name("box.grug"), Some("box".to_string()));
    assert_eq!(entity_type_from_name("-.grug"), Some("".to_string()));
    assert_eq!(entity_type_from_name("tired-box.txt"), None);
    assert_eq!(entity_type_from_name("box.grug-x"), None);
    assert_eq!(entity_type_from_name("grug"), None);
}

#[test]
fn a_parsed_tree_is_read_out_node_for_node() {
    let text = "{\"a\": [1, true],\n \"b\": {}}";
    let mut parser = tree_sitter::Parser::new();
    parser
        .set_language(&tree_sitter_json::LANGUAGE.into())
        .unwrap();
    let parsed = parser.parse(text, None).unwrap();
    let tree = SyntaxTree::from_parsed(&parsed).unwrap();
    assert_eq!(tree.len(), parsed.root_node().descendant_count());
    let mut cursor = parsed.walk();
    for i in 0..tree.len() {
        cursor.goto_descendant(i);
        let node = cursor.node();
        assert_eq!(tree.kind(i), node.kind());
        assert_eq!(tree.node(i).named, node.is_named());
        assert_eq!(tree.node(i).field.as_deref(), cursor.field_name());
        assert_eq!(tree.range(i).start_byte, node.start_byte());
        assert_eq!(tree.range(i).end_byte, node.end_byte());
        assert_eq!(tree.range(i).start_point.row, node.start_position().row);
        assert_eq!(tree.range(i).start_point.column, node.start_position().column);
        assert_eq!(tree.range(i).end_point.row, node.end_position().row);
        assert_eq!(tree.range(i).end_point.column, node.end_position().column);
        assert_eq!(tree.child_count(i), node.child_count() as usize);
        let parent = node.parent().map(|p| (p.kind().to_string(), p.start_byte(), p.end_byte()));
        let found = tree
            .parent(i)
            .map(|p| (tree.kind(p).to_string(), tree.range(p).start_byte, tree.range(p).end_byte));
        assert_eq!(found, parent);
    }
    let same = SyntaxTree::parse_json(text.as_bytes()).unwrap();
    assert_eq!(same.len(), tree.len());
    assert_eq!(same.kind(1), "object");
    assert_eq!(same.kind(0), "document");
}

#[test]
fn the_same_text_gives_the_same_tree() {
    let text = b"{\"entities\": {\"box\": {}}}";
    let first = SyntaxTree::parse_json(text).unwrap();
    let second = SyntaxTree::parse_json(text).unwrap();
    assert_eq!(first.len(), second.len());
    for i in 0..first.len() {
        assert_eq!(first.kind(i), second.kind(i));
        assert_eq!(first.range(i), second.range(i));
        assert_eq!(first.parent(i), second.parent(i));
        assert_eq!(first.node(i).children, second.node(i).children);
        assert_eq!(first.node(i).field, second.node(i).field);
    }
}

fn depth_of(node: tree_sitter::Node) -> usize {
    let mut depth = 0;
    let mut at = node;
    while let Some(parent) = at.parent() {
        depth += 1;
        at = parent;
    }
    depth
}

fn depth_in(tree: &SyntaxTree, i: usize) -> usize {
    let mut depth = 0;
    let mut at = i;
    while let Some(parent) = tree.parent(at) {
        depth += 1;
        at = parent;
    }
    depth
}

fn assert_same_node(tree: &SyntaxTree, i: usize, node: tree_sitter::Node, what: &str) {
    let ours = (
        tree.kind(i).to_string(),
        tree.range(i).start_byte,
        tree.range(i).end_byte,
        depth_in(tree, i),
    );
    let theirs = (
        node.kind().to_string(),
        node.start_byte(),
        node.end_byte(),
        depth_of(node),
    );
    assert_eq!(ours, theirs, "{}", what);
}

fn sample_texts() -> Vec<&'static str> {
    vec![
        "a: i32 = 2\n\non_spawn() {\n    print(a)\n}\n",
        "helper_f(a: i32, b: string) i32 {\n    if a > 1 and not (b == \"x\") {\n        return a + 1\n    } else {\n        while a < 3 {\n            a = a * 2\n        }\n    }\n    return -a\n}\n# note\n",
        "on_a() {\n    x: i32 = helper_f(1,\n}\n",
        "on_a( {\n  x: = \n  ) y(\n",
        "",
        "\n\n",
    ]
}

#[test]
fn the_descent_by_bytes_agrees_with_the_parser_everywhere() {
    for text in sample_texts() {
        let mut parser = tree_sitter::Parser::new();
        parser
            .set_language(&tree_sitter_grug::LANGUAGE.into())
            .unwrap();
        let parsed = parser.parse(text, None).unwrap();
        let tree = SyntaxTree::from_parsed(&parsed).unwrap();
        for start in 0..=text.len() {
            for end in start..=text.len().min(start + 4) {
                let ours = tree.descendant_for_byte_range(0, start, end);
                let theirs = parsed
                    .root_node()
                    .descendant_for_byte_range(start, end)
                    .unwrap();
                assert_same_node(&tree, ours, theirs, &format!("{:?} {}..{}", text, start, end));
            }
        }
    }
}

#[test]
fn the_descent_by_points_agrees_with_the_parser_everywhere() {
    for text in sample_texts() {
        let mut parser = tree_sitter::Parser::new();
        parser
            .set_language(&tree_sitter_grug::LANGUAGE.into())
            .unwrap();
        let parsed = parser.parse(text, None).unwrap();
        let tree = SyntaxTree::from_parsed(&parsed).unwrap();
        let mut places: Vec<(usize, usize)> = Vec::new();
        for (row, line) in text.split('\n').enumerate() {
            for column in 0..=line.len() + 1 {
                places.push((row, column));
            }
        }
        for (k, &(row, column)) in places.iter().enumerate() {
            for &(end_row, end_column) in places.iter().skip(k).take(4) {
                let ours = tree.descendant_for_point_range(
                    0,
                    Point { row, column },
                    Point { row: end_row, column: end_column },
                    false,
                );
                let ours_named = tree.descendant_for_point_range(
                    0,
                    Point { row, column },
                    Point { row: end_row, column: end_column },
                    true,
                );
                let start = tree_sitter::Point { row, column };
                let end = tree_sitter::Point { row: end_row, column: end_column };
                let theirs = parsed.root_node().descendant_for_point_range(start, end).unwrap();
                let theirs_named = parsed
                    .root_node()
                    .named_descendant_for_point_range(start, end)
                    .unwrap();
                let what = format!("{:?} {:?}..{:?}", text, start, end);
                assert_same_node(&tree, ours, theirs, &what);
                assert_same_node(&tree, ours_named, theirs_named, &what);
            }
        }
    }
}

#[test]
fn the_children_by_field_agree_with_the_parser_everywhere() {
    let fields = [
        "name", "type", "value", "body", "condition", "else", "argument", "param", "ret_type",
        "left", "right", "operator", "operand",
    ];
    for text in sample_texts() {
        let mut parser = tree_sitter::Parser::new();
        parser
            .set_language(&tree_sitter_grug::LANGUAGE.into())
            .unwrap();
        let parsed = parser.parse(text, None).unwrap();
        let tree = SyntaxTree::from_parsed(&parsed).unwrap();
        let mut cursor = parsed.walk();
        for i in 0..tree.len() {
            cursor.goto_descendant(i);
            let node = cursor.node();
            for field in fields {
                let what = format!("{:?} node {} field {}", text, i, field);
                match (tree.child_by_field_name(i, field), node.child_by_field_name(field)) {
                    (Some(ours), Some(theirs)) => assert_same_node(&tree, ours, theirs, &what),
                    (None, None) => {}
                    other => panic!("{} {:?}", what, other),
                }
                let ours = tree.children_by_field_name(i, field);
                let mut walk = node.walk();
                let theirs: Vec<tree_sitter::Node> =
                    node.children_by_field_name(field, &mut walk).collect();
                assert_eq!(ours.len(), theirs.len(), "{}", what);
                for (o, t) in ours.iter().zip(theirs) {
                    assert_same_node(&tree, *o, t, &what);
                }
            }
        }
    }
}
