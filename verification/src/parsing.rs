//! Where syntax trees come from: the tree-sitter parser, read out node by
//! node into a [`SyntaxTree`].

use crate::syntax::{raw_valid, raw_views, Point, Range, RawNode, RawNodeView, SyntaxTree};
use vstd::prelude::*;

verus! {

/// `tree_sitter::Parser`: a parser, with the language it was given.
#[verifier::external_type_specification]
#[verifier::external_body]
pub struct ExParser(tree_sitter::Parser);

/// `tree_sitter::Tree`: what a parser makes of a text.
#[verifier::external_type_specification]
#[verifier::external_body]
pub struct ExTree(tree_sitter::Tree);

/// `tree_sitter::TreeCursor`: a place in a tree, which can be moved.
#[verifier::external_type_specification]
#[verifier::external_body]
pub struct ExTreeCursor<'a>(tree_sitter::TreeCursor<'a>);

/// The nodes of a parsed tree in document order, the root first, each with
/// its kind, the field it fills, its range and its depth below the root.
pub uninterp spec fn tree_nodes(tree: tree_sitter::Tree) -> Seq<RawNodeView>;

/// The nodes of the tree that a cursor walks.
pub uninterp spec fn cursor_nodes(cursor: tree_sitter::TreeCursor) -> Seq<RawNodeView>;

/// The number, in document order, of the node that a cursor stands on.
pub uninterp spec fn cursor_index(cursor: tree_sitter::TreeCursor) -> int;

/// The nodes of the tree that a parser, with the language and the settings
/// it has, makes of a text, in document order; none where it gives no tree.
pub uninterp spec fn parsed_nodes(parser: tree_sitter::Parser, content: Seq<u8>) -> Option<
    Seq<RawNodeView>,
>;

/// The nodes of the tree that the JSON grammar makes of a text, in document
/// order; none where the parser gives no tree.
pub uninterp spec fn json_nodes(json: Seq<u8>) -> Option<Seq<RawNodeView>>;

/// The cursor stands on a node of its tree.
pub open spec fn on_node(cursor: tree_sitter::TreeCursor) -> bool {
    0 <= cursor_index(cursor) < cursor_nodes(cursor).len()
}

/// The node that the cursor stands on.
pub open spec fn node_under(cursor: tree_sitter::TreeCursor) -> RawNodeView {
    cursor_nodes(cursor)[cursor_index(cursor)]
}

/// `tree_sitter::Parser::parse` on `content`, with no earlier tree. What
/// comes back is for the parser, as it stands before the call, and the text
/// to decide: the contract only gives that outcome its name.
#[verifier::external_body]
fn run_parser(parser: &mut tree_sitter::Parser, content: &[u8]) -> (r: Option<tree_sitter::Tree>)
    ensures
        match r {
            Some(tree) => parsed_nodes(*old(parser), content@) == Some(tree_nodes(tree)),
            None => parsed_nodes(*old(parser), content@) is None,
        },
{
    parser.parse(content, None)
}

/// `tree_sitter::Parser::parse` on `json`, by a parser made with
/// `Parser::new` and given the grammar of `tree_sitter_json` with
/// `Parser::set_language`. No state comes into it but the text: the same text
/// gives a tree with the same nodes, or no tree, every time.
#[verifier::external_body]
fn json_tree(json: &[u8]) -> (r: Option<tree_sitter::Tree>)
    ensures
        match r {
            Some(tree) => json_nodes(json@) == Some(tree_nodes(tree)),
            None => json_nodes(json@) is None,
        },
{
    let mut parser = tree_sitter::Parser::new();
    parser.set_language(&tree_sitter_json::LANGUAGE.into()).ok()?;
    parser.parse(json, None)
}

/// `Node::descendant_count` of the root: the number of nodes in the tree, the
/// root included.
#[verifier::external_body]
fn node_count(tree: &tree_sitter::Tree) -> (r: usize)
    ensures
        r == tree_nodes(*tree).len(),
{
    tree.root_node().descendant_count()
}

/// `Tree::walk`: a cursor over the tree, on the root.
#[verifier::external_body]
fn walk<'a>(tree: &'a tree_sitter::Tree) -> (r: tree_sitter::TreeCursor<'a>)
    ensures
        cursor_nodes(r) == tree_nodes(*tree),
        cursor_index(r) == 0,
{
    tree.walk()
}

/// `TreeCursor::goto_descendant`: moves the cursor to the node with the given
/// number in document order, where the tree has that many nodes. The cursor
/// stays in its tree.
#[verifier::external_body]
fn goto_descendant<'a>(cursor: &mut tree_sitter::TreeCursor<'a>, index: usize)
    ensures
        cursor_nodes(*final(cursor)) == cursor_nodes(*old(cursor)),
        index < cursor_nodes(*old(cursor)).len() ==> cursor_index(*final(cursor)) == index,
{
    cursor.goto_descendant(index)
}

/// `Node::kind` of the cursor's node.
#[verifier::external_body]
fn cursor_kind<'a>(cursor: &tree_sitter::TreeCursor<'a>) -> (r: String)
    ensures
        on_node(*cursor) ==> r@ == node_under(*cursor).kind,
{
    cursor.node().kind().to_string()
}

/// `Node::is_named` of the cursor's node.
#[verifier::external_body]
fn cursor_named<'a>(cursor: &tree_sitter::TreeCursor<'a>) -> (r: bool)
    ensures
        on_node(*cursor) ==> r == node_under(*cursor).named,
{
    cursor.node().is_named()
}

/// `TreeCursor::field_name`: the field that the cursor's node fills.
#[verifier::external_body]
fn cursor_field<'a>(cursor: &tree_sitter::TreeCursor<'a>) -> (r: Option<String>)
    ensures
        on_node(*cursor) ==> crate::syntax::opt_text(r) == node_under(*cursor).field,
{
    match cursor.field_name() {
        Some(name) => Some(name.to_string()),
        None => None,
    }
}

/// `Node::range` of the cursor's node.
#[verifier::external_body]
fn cursor_range<'a>(cursor: &tree_sitter::TreeCursor<'a>) -> (r: Range)
    ensures
        on_node(*cursor) ==> r == node_under(*cursor).range,
{
    let range = cursor.node().range();
    Range {
        start_byte: range.start_byte,
        end_byte: range.end_byte,
        start_point: Point { row: range.start_point.row, column: range.start_point.column },
        end_point: Point { row: range.end_point.row, column: range.end_point.column },
    }
}

/// `TreeCursor::depth`: how far below the root the cursor's node sits.
#[verifier::external_body]
fn cursor_depth<'a>(cursor: &tree_sitter::TreeCursor<'a>) -> (r: usize)
    ensures
        on_node(*cursor) ==> r == node_under(*cursor).depth,
{
    cursor.depth() as usize
}

/// Reads the nodes of a parsed tree out in document order.
fn flatten(tree: &tree_sitter::Tree) -> (r: Vec<RawNode>)
    ensures
        raw_views(r@) == tree_nodes(*tree),
{
    let count = node_count(tree);
    let mut cursor = walk(tree);
    let mut out: Vec<RawNode> = Vec::new();
    let mut i: usize = 0;
    assert(raw_views(out@) =~= tree_nodes(*tree).subrange(0, 0));
    while i < count
        invariant
            i <= count,
            count == tree_nodes(*tree).len(),
            cursor_nodes(cursor) == tree_nodes(*tree),
            raw_views(out@) == tree_nodes(*tree).subrange(0, i as int),
        decreases count - i,
    {
        goto_descendant(&mut cursor, i);
        let node = RawNode {
            kind: cursor_kind(&cursor),
            named: cursor_named(&cursor),
            field: cursor_field(&cursor),
            range: cursor_range(&cursor),
            depth: cursor_depth(&cursor),
        };
        assert(node@ == tree_nodes(*tree)[i as int]);
        let ghost before = out@;
        out.push(node);
        assert(raw_views(out@) =~= raw_views(before).push(node@));
        assert(raw_views(out@) =~= tree_nodes(*tree).subrange(0, i + 1));
        i += 1;
    }
    assert(tree_nodes(*tree).subrange(0, count as int) =~= tree_nodes(*tree));
    out
}

/// What reading a list of nodes into a tree gives: a tree exactly when the
/// list is valid, and then the well-formed tree that mirrors the list.
pub open spec fn is_tree_of(r: Option<SyntaxTree>, nodes: Seq<RawNodeView>) -> bool {
    &&& r is Some <==> raw_valid(nodes)
    &&& r matches Some(t) ==> t.wf() && t.mirrors(nodes)
}

impl SyntaxTree {
    /// Reads a parsed tree into a tree: the tree of its nodes. There is none
    /// where the nodes are no valid list.
    pub fn from_parsed(parsed: &tree_sitter::Tree) -> (r: Option<SyntaxTree>)
        ensures
            is_tree_of(r, tree_nodes(*parsed)),
    {
        let raw = flatten(parsed);
        SyntaxTree::from_raw(&raw)
    }

    /// Parses `content` and reads the result into a tree: the tree of the
    /// nodes that the parser makes of the text. There is none where the
    /// parser gives no tree, or gives nodes that are no valid list.
    pub fn parse(parser: &mut tree_sitter::Parser, content: &[u8]) -> (r: Option<SyntaxTree>)
        ensures
            match parsed_nodes(*old(parser), content@) {
                Some(nodes) => is_tree_of(r, nodes),
                None => r is None,
            },
    {
        match run_parser(parser, content) {
            Some(parsed) => SyntaxTree::from_parsed(&parsed),
            None => None,
        }
    }

    /// Parses `json` as JSON and reads the result into a tree: the tree of
    /// the nodes that the JSON grammar makes of the text. There is none where
    /// the parser gives no tree, or gives nodes that are no valid list.
    pub fn parse_json(json: &[u8]) -> (r: Option<SyntaxTree>)
        ensures
            match json_nodes(json@) {
                Some(nodes) => is_tree_of(r, nodes),
                None => r is None,
            },
    {
        match json_tree(json) {
            Some(parsed) => SyntaxTree::from_parsed(&parsed),
            None => None,
        }
    }
}

} // verus!
