//! Reading the schema file. Its syntax tree is walked pair by pair, so that
//! every entry keeps the range of the pair that defines it. An entry that
//! does not have the expected shape is left out; the others still load.
//!
//! The walk yields frames: the name and the range of each entry, and the span
//! of the bytes of its value. Decoding those bytes into a typed record is
//! left to the caller, who hands the records back to be assembled.

use crate::server::document::node_text;
use crate::server::mod_api::{default_description, ModApi};
use crate::parsing::json_nodes;
use crate::syntax::{node_ok, raw_valid, Range, RawNodeView, SyntaxTree};
use crate::text::{slice_span, str_is_bytes, string_from_utf8};
use vstd::prelude::*;
use vstd::utf8::{decode_utf8, encode_utf8, valid_utf8};

verus! {

/// An entry whose value is to be decoded: its name, the range of the pair
/// that defines it, and the span of the bytes of its value.
#[derive(Debug)]
pub struct EntryFrame {
    pub name: String,
    pub range: Range,
    pub value_start: usize,
    pub value_end: usize,
}

/// An [`EntryFrame`] as a plain value.
pub struct EntryFrameView {
    pub name: Seq<char>,
    pub range: Range,
    pub value_start: usize,
    pub value_end: usize,
}

impl View for EntryFrame {
    type V = EntryFrameView;

    open spec fn view(&self) -> EntryFrameView {
        EntryFrameView {
            name: self.name@,
            range: self.range,
            value_start: self.value_start,
            value_end: self.value_end,
        }
    }
}

/// The views of a list of entry frames.
pub open spec fn entry_views(frames: Seq<EntryFrame>) -> Seq<EntryFrameView> {
    frames.map_values(|f: EntryFrame| f@)
}

/// An entity type as the walk finds it: name, description, the range of the
/// pair that defines it, the span of the bytes of its value, and its
/// lifecycle functions still to be decoded. Whether the value has the shape
/// of an entity is for the decoder to say.
#[derive(Debug)]
pub struct EntityFrame {
    pub name: String,
    pub description: String,
    pub range: Range,
    pub value_start: usize,
    pub value_end: usize,
    pub on_functions: Vec<EntryFrame>,
}

/// An [`EntityFrame`] as a plain value.
pub struct EntityFrameView {
    pub name: Seq<char>,
    pub description: Seq<char>,
    pub range: Range,
    pub value_start: usize,
    pub value_end: usize,
    pub on_functions: Seq<EntryFrameView>,
}

impl View for EntityFrame {
    type V = EntityFrameView;

    open spec fn view(&self) -> EntityFrameView {
        EntityFrameView {
            name: self.name@,
            description: self.description@,
            range: self.range,
            value_start: self.value_start,
            value_end: self.value_end,
            on_functions: entry_views(self.on_functions@),
        }
    }
}

/// The views of a list of entity frames.
pub open spec fn entity_views(frames: Seq<EntityFrame>) -> Seq<EntityFrameView> {
    frames.map_values(|f: EntityFrame| f@)
}

/// What the walk over a schema file finds.
#[derive(Debug)]
pub struct SchemaFrames {
    pub entities: Vec<EntityFrame>,
    pub game_functions: Vec<EntryFrame>,
}

/// [`SchemaFrames`] as a plain value.
pub struct SchemaFramesView {
    pub entities: Seq<EntityFrameView>,
    pub game_functions: Seq<EntryFrameView>,
}

impl View for SchemaFrames {
    type V = SchemaFramesView;

    open spec fn view(&self) -> SchemaFramesView {
        SchemaFramesView {
            entities: entity_views(self.entities@),
            game_functions: entry_views(self.game_functions@),
        }
    }
}

/// The bytes between the quotes of the key of a pair: the text of the second
/// child of its key.
pub open spec fn key_text(tree: &SyntaxTree, json: Seq<u8>, pair: int) -> Option<Seq<u8>> {
    match tree.spec_child_by_field(pair, "key"@) {
        Some(k) => match tree.spec_child(k as int, 1) {
            Some(c) => Some(node_text(tree, json, c as int)),
            None => None,
        },
        None => None,
    }
}

/// A named object: a name and the node of the object.
pub struct NamedObject {
    pub name: Seq<char>,
    pub value: usize,
}

/// Node `node` as an entry: a pair whose key is a string that reads as UTF-8
/// and whose value is an object.
pub open spec fn entry_of(tree: &SyntaxTree, json: Seq<u8>, node: int) -> Option<NamedObject> {
    if !tree.is_kind(node, "pair"@) {
        None
    } else {
        match tree.spec_child_by_field(node, "key"@) {
            Some(k) => match (key_text(tree, json, node), tree.spec_child_by_field(node, "value"@)) {
                (Some(text), Some(v)) => if tree.is_kind(k as int, "string"@) && valid_utf8(text)
                    && tree.is_kind(v as int, "object"@) {
                    Some(NamedObject { name: decode_utf8(text), value: v })
                } else {
                    None
                },
                _ => None,
            },
            None => None,
        }
    }
}

/// The frame of node `node`, if it is an entry.
pub open spec fn entry_frame_of(tree: &SyntaxTree, json: Seq<u8>, node: int) -> Option<EntryFrameView> {
    match entry_of(tree, json, node) {
        Some(e) => Some(
            EntryFrameView {
                name: e.name,
                range: tree.nodes@[node].range,
                value_start: tree.nodes@[e.value as int].range.start_byte,
                value_end: tree.nodes@[e.value as int].range.end_byte,
            },
        ),
        None => None,
    }
}

/// The frames of the entries among the first `upto` children of the object
/// `obj`, in order.
pub open spec fn entry_frames_upto(tree: &SyntaxTree, json: Seq<u8>, obj: int, upto: int) -> Seq<
    EntryFrameView,
>
    decreases upto,
{
    let kids = tree.nodes@[obj].children@;
    if upto <= 0 || upto > kids.len() {
        Seq::empty()
    } else {
        let before = entry_frames_upto(tree, json, obj, upto - 1);
        match entry_frame_of(tree, json, kids[upto - 1] as int) {
            Some(f) => before.push(f),
            None => before,
        }
    }
}

/// The frames of all entries of the object `obj`.
pub open spec fn entry_frames(tree: &SyntaxTree, json: Seq<u8>, obj: int) -> Seq<EntryFrameView> {
    entry_frames_upto(tree, json, obj, tree.nodes@[obj].children@.len() as int)
}

/// The value of the pair `pair`, if the pair has a key with the text `key`.
pub open spec fn value_under(tree: &SyntaxTree, json: Seq<u8>, pair: int, key: Seq<char>) -> Option<usize> {
    if tree.is_kind(pair, "pair"@) && key_text(tree, json, pair) == Some(encode_utf8(key)) {
        tree.spec_child_by_field(pair, "value"@)
    } else {
        None
    }
}

/// The description that the pair `pair` gives: the text between the quotes
/// of its value, where its key is `description` and its value a string that
/// reads as UTF-8.
pub open spec fn description_of(tree: &SyntaxTree, json: Seq<u8>, pair: int) -> Option<Seq<char>> {
    match value_under(tree, json, pair, "description"@) {
        Some(v) => match tree.spec_child(v as int, 1) {
            Some(c) => if tree.is_kind(v as int, "string"@) && valid_utf8(
                node_text(tree, json, c as int),
            ) {
                Some(decode_utf8(node_text(tree, json, c as int)))
            } else {
                None
            },
            None => None,
        },
        None => None,
    }
}

/// The description of the entity whose object is `obj`, as far as its first
/// `upto` children give it: the last description given, or the default.
pub open spec fn entity_description_upto(tree: &SyntaxTree, json: Seq<u8>, obj: int, upto: int) -> Seq<
    char,
>
    decreases upto,
{
    let kids = tree.nodes@[obj].children@;
    if upto <= 0 || upto > kids.len() {
        "<NO DESCRIPTION>"@
    } else {
        match description_of(tree, json, kids[upto - 1] as int) {
            Some(d) => d,
            None => entity_description_upto(tree, json, obj, upto - 1),
        }
    }
}

/// The lifecycle functions that the pair `pair` gives: the entries of its
/// value, where its key is `on_functions` and its value an object.
pub open spec fn on_functions_of(tree: &SyntaxTree, json: Seq<u8>, pair: int) -> Seq<EntryFrameView> {
    match value_under(tree, json, pair, "on_functions"@) {
        Some(v) => if tree.is_kind(v as int, "object"@) {
            entry_frames(tree, json, v as int)
        } else {
            Seq::empty()
        },
        None => Seq::empty(),
    }
}

/// The lifecycle functions of the entity whose object is `obj`, as far as
/// its first `upto` children give them.
pub open spec fn entity_on_functions_upto(tree: &SyntaxTree, json: Seq<u8>, obj: int, upto: int) -> Seq<
    EntryFrameView,
>
    decreases upto,
{
    let kids = tree.nodes@[obj].children@;
    if upto <= 0 || upto > kids.len() {
        Seq::empty()
    } else {
        entity_on_functions_upto(tree, json, obj, upto - 1) + on_functions_of(
            tree,
            json,
            kids[upto - 1] as int,
        )
    }
}

/// The entity that node `node` defines, if it is an entry.
pub open spec fn entity_frame_of(tree: &SyntaxTree, json: Seq<u8>, node: int) -> Option<EntityFrameView> {
    match entry_of(tree, json, node) {
        Some(e) => {
            let count = tree.nodes@[e.value as int].children@.len() as int;
            Some(
                EntityFrameView {
                    name: e.name,
                    description: entity_description_upto(tree, json, e.value as int, count),
                    range: tree.nodes@[node].range,
                    value_start: tree.nodes@[e.value as int].range.start_byte,
                    value_end: tree.nodes@[e.value as int].range.end_byte,
                    on_functions: entity_on_functions_upto(tree, json, e.value as int, count),
                },
            )
        },
        None => None,
    }
}

/// The entities that the first `upto` children of the object `obj` define,
/// in order.
pub open spec fn entity_frames_upto(tree: &SyntaxTree, json: Seq<u8>, obj: int, upto: int) -> Seq<
    EntityFrameView,
>
    decreases upto,
{
    let kids = tree.nodes@[obj].children@;
    if upto <= 0 || upto > kids.len() {
        Seq::empty()
    } else {
        let before = entity_frames_upto(tree, json, obj, upto - 1);
        match entity_frame_of(tree, json, kids[upto - 1] as int) {
            Some(f) => before.push(f),
            None => before,
        }
    }
}

/// The entities that the object `obj` defines.
pub open spec fn entity_frames(tree: &SyntaxTree, json: Seq<u8>, obj: int) -> Seq<EntityFrameView> {
    entity_frames_upto(tree, json, obj, tree.nodes@[obj].children@.len() as int)
}

/// The object that the pair `pair` holds under the key `key`, quotes
/// included, if it holds one.
pub open spec fn section_of(tree: &SyntaxTree, json: Seq<u8>, pair: int, key: Seq<char>) -> Option<usize> {
    if !tree.is_kind(pair, "pair"@) {
        None
    } else {
        match (tree.spec_child_by_field(pair, "key"@), tree.spec_child_by_field(pair, "value"@)) {
            (Some(k), Some(v)) => if node_text(tree, json, k as int) == encode_utf8(key)
                && tree.is_kind(v as int, "object"@) {
                Some(v)
            } else {
                None
            },
            _ => None,
        }
    }
}

/// What the first `upto` children of the top object `obj` hold: the entities
/// of each `entities` section and the game functions of each
/// `game_functions` section. Other keys are passed over.
pub open spec fn schema_frames_upto(tree: &SyntaxTree, json: Seq<u8>, obj: int, upto: int) -> SchemaFramesView
    decreases upto,
{
    let kids = tree.nodes@[obj].children@;
    if upto <= 0 || upto > kids.len() {
        SchemaFramesView { entities: Seq::empty(), game_functions: Seq::empty() }
    } else {
        let before = schema_frames_upto(tree, json, obj, upto - 1);
        let pair = kids[upto - 1] as int;
        match section_of(tree, json, pair, "\"entities\""@) {
            Some(v) => SchemaFramesView {
                entities: before.entities + entity_frames(tree, json, v as int),
                game_functions: before.game_functions,
            },
            None => match section_of(tree, json, pair, "\"game_functions\""@) {
                Some(v) => SchemaFramesView {
                    entities: before.entities,
                    game_functions: before.game_functions + entry_frames(tree, json, v as int),
                },
                None => before,
            },
        }
    }
}

/// The view of optional frames.
pub open spec fn opt_frames(r: Option<SchemaFrames>) -> Option<SchemaFramesView> {
    match r {
        Some(f) => Some(f@),
        None => None,
    }
}

/// What framing the text of a schema file gives, by the nodes that the parser
/// makes of the text. Where the nodes are a valid list, it is what the tree
/// of the nodes holds (a valid list describes one tree); where they are not,
/// or the parser gives none, there is no result.
pub open spec fn frames_of_nodes(
    r: Option<SchemaFrames>,
    nodes: Option<Seq<RawNodeView>>,
    json: Seq<u8>,
) -> bool {
    match nodes {
        Some(nodes) => if raw_valid(nodes) {
            exists|tree: SyntaxTree|
                tree.wf() && #[trigger] tree.mirrors(nodes) && schema_frames(&tree, json)
                    == opt_frames(r)
        } else {
            r is None
        },
        None => r is None,
    }
}

/// The top object of the schema file: the first child of the root, if it is
/// an object.
pub open spec fn top_object(tree: &SyntaxTree) -> Option<usize> {
    match tree.spec_child(0, 0) {
        Some(c) => if tree.is_kind(c as int, "object"@) {
            Some(c)
        } else {
            None
        },
        None => None,
    }
}

/// What the schema file holds, if it holds a top object.
pub open spec fn schema_frames(tree: &SyntaxTree, json: Seq<u8>) -> Option<SchemaFramesView> {
    match top_object(tree) {
        Some(obj) => Some(
            schema_frames_upto(tree, json, obj as int, tree.nodes@[obj as int].children@.len() as int),
        ),
        None => None,
    }
}

fn read_key_text<'a>(tree: &SyntaxTree, json: &'a [u8], pair: usize) -> (r: Option<&'a [u8]>)
    requires
        tree.wf(),
        pair < tree.nodes@.len(),
    ensures
        match r {
            Some(t) => key_text(tree, json@, pair as int) == Some(t@),
            None => key_text(tree, json@, pair as int) is None,
        },
{
    match tree.child_by_field_name(pair, "key") {
        Some(k) => match tree.child(k, 1) {
            Some(c) => {
                let range = tree.range(c);
                Some(slice_span(json, range.start_byte, range.end_byte))
            },
            None => None,
        },
        None => None,
    }
}

fn read_entry(tree: &SyntaxTree, json: &[u8], node: usize) -> (r: Option<(String, usize)>)
    requires
        tree.wf(),
        node < tree.nodes@.len(),
    ensures
        match r {
            Some(e) => entry_of(tree, json@, node as int) == Some(
                NamedObject { name: e.0@, value: e.1 },
            ) && e.1 < tree.nodes@.len(),
            None => entry_of(tree, json@, node as int) is None,
        },
{
    if !tree.kind_is(node, "pair") {
        return None;
    }
    let key = match tree.child_by_field_name(node, "key") {
        Some(k) => k,
        None => {
            return None;
        },
    };
    if !tree.kind_is(key, "string") {
        return None;
    }
    let text = match read_key_text(tree, json, node) {
        Some(t) => t,
        None => {
            return None;
        },
    };
    let name = match string_from_utf8(text) {
        Ok(s) => s,
        Err(_) => {
            return None;
        },
    };
    let value = match tree.child_by_field_name(node, "value") {
        Some(v) => v,
        None => {
            return None;
        },
    };
    if !tree.kind_is(value, "object") {
        return None;
    }
    Some((name, value))
}

fn read_entry_frame(tree: &SyntaxTree, json: &[u8], node: usize) -> (r: Option<EntryFrame>)
    requires
        tree.wf(),
        node < tree.nodes@.len(),
    ensures
        match r {
            Some(f) => entry_frame_of(tree, json@, node as int) == Some(f@),
            None => entry_frame_of(tree, json@, node as int) is None,
        },
{
    match read_entry(tree, json, node) {
        Some((name, value)) => {
            let span = tree.range(value);
            Some(
                EntryFrame {
                    name,
                    range: tree.range(node),
                    value_start: span.start_byte,
                    value_end: span.end_byte,
                },
            )
        },
        None => None,
    }
}

fn read_entry_frames(tree: &SyntaxTree, json: &[u8], obj: usize) -> (r: Vec<EntryFrame>)
    requires
        tree.wf(),
        obj < tree.nodes@.len(),
    ensures
        entry_views(r@) == entry_frames(tree, json@, obj as int),
{
    let mut out: Vec<EntryFrame> = Vec::new();
    let count = tree.child_count(obj);
    let mut k: usize = 0;
    assert(entry_views(out@) =~= Seq::<EntryFrameView>::empty());
    while k < count
        invariant
            tree.wf(),
            obj < tree.nodes@.len(),
            count == tree.nodes@[obj as int].children@.len(),
            k <= count,
            entry_views(out@) == entry_frames_upto(tree, json@, obj as int, k as int),
        decreases count - k,
    {
        let child = tree.node(obj).children[k];
        assert(node_ok(tree.nodes@, obj as int));
        match read_entry_frame(tree, json, child) {
            Some(f) => {
                let ghost before = out@;
                out.push(f);
                assert(entry_views(out@) =~= entry_views(before).push(f@));
            },
            None => {},
        }
        k += 1;
    }
    out
}

fn append_entry_frames(out: &mut Vec<EntryFrame>, more: Vec<EntryFrame>)
    ensures
        entry_views(final(out)@) == entry_views(old(out)@) + entry_views(more@),
{
    let mut more = more;
    let ghost added = more@;
    out.append(&mut more);
    assert(entry_views(out@) =~= entry_views(old(out)@) + entry_views(added));
}

fn append_entity_frames(out: &mut Vec<EntityFrame>, more: Vec<EntityFrame>)
    ensures
        entity_views(final(out)@) == entity_views(old(out)@) + entity_views(more@),
{
    let mut more = more;
    let ghost added = more@;
    out.append(&mut more);
    assert(entity_views(out@) =~= entity_views(old(out)@) + entity_views(added));
}

fn read_value_under(tree: &SyntaxTree, json: &[u8], pair: usize, key: &str) -> (r: Option<usize>)
    requires
        tree.wf(),
        pair < tree.nodes@.len(),
    ensures
        r == value_under(tree, json@, pair as int, key@),
        r matches Some(v) ==> v < tree.nodes@.len(),
{
    if !tree.kind_is(pair, "pair") {
        return None;
    }
    match read_key_text(tree, json, pair) {
        Some(text) => if str_is_bytes(key, text) {
            tree.child_by_field_name(pair, "value")
        } else {
            None
        },
        None => None,
    }
}

fn read_description(tree: &SyntaxTree, json: &[u8], pair: usize) -> (r: Option<String>)
    requires
        tree.wf(),
        pair < tree.nodes@.len(),
    ensures
        crate::syntax::opt_text(r) == description_of(tree, json@, pair as int),
{
    let value = match read_value_under(tree, json, pair, "description") {
        Some(v) => v,
        None => {
            return None;
        },
    };
    let inner = match tree.child(value, 1) {
        Some(c) => c,
        None => {
            return None;
        },
    };
    if !tree.kind_is(value, "string") {
        return None;
    }
    let range = tree.range(inner);
    match string_from_utf8(slice_span(json, range.start_byte, range.end_byte)) {
        Ok(s) => Some(s),
        Err(_) => None,
    }
}

fn read_on_functions(tree: &SyntaxTree, json: &[u8], pair: usize) -> (r: Vec<EntryFrame>)
    requires
        tree.wf(),
        pair < tree.nodes@.len(),
    ensures
        entry_views(r@) == on_functions_of(tree, json@, pair as int),
{
    match read_value_under(tree, json, pair, "on_functions") {
        Some(v) => if tree.kind_is(v, "object") {
            return read_entry_frames(tree, json, v);
        },
        None => {},
    }
    let out: Vec<EntryFrame> = Vec::new();
    assert(entry_views(out@) =~= Seq::<EntryFrameView>::empty());
    out
}

/// Reads the entity that `node` defines, if it is an entry.
fn parse_entity(tree: &SyntaxTree, json: &[u8], node: usize) -> (r: Option<EntityFrame>)
    requires
        tree.wf(),
        node < tree.nodes@.len(),
    ensures
        match r {
            Some(f) => entity_frame_of(tree, json@, node as int) == Some(f@),
            None => entity_frame_of(tree, json@, node as int) is None,
        },
{
    let (name, obj) = match read_entry(tree, json, node) {
        Some(e) => e,
        None => {
            return None;
        },
    };
    let mut description = default_description();
    let mut on_functions: Vec<EntryFrame> = Vec::new();
    assert(entry_views(on_functions@) =~= Seq::<EntryFrameView>::empty());
    let count = tree.child_count(obj);
    let mut k: usize = 0;
    while k < count
        invariant
            tree.wf(),
            obj < tree.nodes@.len(),
            count == tree.nodes@[obj as int].children@.len(),
            k <= count,
            description@ == entity_description_upto(tree, json@, obj as int, k as int),
            entry_views(on_functions@) == entity_on_functions_upto(
                tree,
                json@,
                obj as int,
                k as int,
            ),
        decreases count - k,
    {
        let child = tree.node(obj).children[k];
        assert(node_ok(tree.nodes@, obj as int));
        match read_description(tree, json, child) {
            Some(d) => {
                description = d;
            },
            None => {},
        }
        append_entry_frames(&mut on_functions, read_on_functions(tree, json, child));
        k += 1;
    }
    let span = tree.range(obj);
    Some(
        EntityFrame {
            name,
            description,
            range: tree.range(node),
            value_start: span.start_byte,
            value_end: span.end_byte,
            on_functions,
        },
    )
}

fn parse_entities(tree: &SyntaxTree, json: &[u8], obj: usize) -> (r: Vec<EntityFrame>)
    requires
        tree.wf(),
        obj < tree.nodes@.len(),
    ensures
        entity_views(r@) == entity_frames(tree, json@, obj as int),
{
    let mut out: Vec<EntityFrame> = Vec::new();
    let count = tree.child_count(obj);
    let mut k: usize = 0;
    assert(entity_views(out@) =~= Seq::<EntityFrameView>::empty());
    while k < count
        invariant
            tree.wf(),
            obj < tree.nodes@.len(),
            count == tree.nodes@[obj as int].children@.len(),
            k <= count,
            entity_views(out@) == entity_frames_upto(tree, json@, obj as int, k as int),
        decreases count - k,
    {
        let child = tree.node(obj).children[k];
        assert(node_ok(tree.nodes@, obj as int));
        match parse_entity(tree, json, child) {
            Some(f) => {
                let ghost before = out@;
                out.push(f);
                assert(entity_views(out@) =~= entity_views(before).push(f@));
            },
            None => {},
        }
        k += 1;
    }
    out
}

fn parse_game_functions(tree: &SyntaxTree, json: &[u8], obj: usize) -> (r: Vec<EntryFrame>)
    requires
        tree.wf(),
        obj < tree.nodes@.len(),
    ensures
        entry_views(r@) == entry_frames(tree, json@, obj as int),
{
    read_entry_frames(tree, json, obj)
}

fn read_section(tree: &SyntaxTree, json: &[u8], pair: usize, key: &str) -> (r: Option<usize>)
    requires
        tree.wf(),
        pair < tree.nodes@.len(),
    ensures
        r == section_of(tree, json@, pair as int, key@),
        r matches Some(v) ==> v < tree.nodes@.len(),
{
    if !tree.kind_is(pair, "pair") {
        return None;
    }
    let k = match tree.child_by_field_name(pair, "key") {
        Some(k) => k,
        None => {
            return None;
        },
    };
    let v = match tree.child_by_field_name(pair, "value") {
        Some(v) => v,
        None => {
            return None;
        },
    };
    let range = tree.range(k);
    if str_is_bytes(key, slice_span(json, range.start_byte, range.end_byte)) && tree.kind_is(
        v,
        "object",
    ) {
        Some(v)
    } else {
        None
    }
}

impl ModApi {
    /// Walks the syntax tree of a schema file and frames its entries. There
    /// is no result where the file does not hold a top object.
    pub fn frames(tree: &SyntaxTree, json: &[u8]) -> (r: Option<SchemaFrames>)
        requires
            tree.wf(),
        ensures
            match r {
                Some(f) => schema_frames(tree, json@) == Some(f@),
                None => schema_frames(tree, json@) is None,
            },
    {
        let root = match tree.child(0, 0) {
            Some(c) => c,
            None => {
                return None;
            },
        };
        if !tree.kind_is(root, "object") {
            return None;
        }
        let mut entities: Vec<EntityFrame> = Vec::new();
        let mut game_functions: Vec<EntryFrame> = Vec::new();
        assert(entity_views(entities@) =~= Seq::<EntityFrameView>::empty());
        assert(entry_views(game_functions@) =~= Seq::<EntryFrameView>::empty());
        let count = tree.child_count(root);
        let mut k: usize = 0;
        while k < count
            invariant
                tree.wf(),
                root < tree.nodes@.len(),
                count == tree.nodes@[root as int].children@.len(),
                k <= count,
                (SchemaFramesView {
                    entities: entity_views(entities@),
                    game_functions: entry_views(game_functions@),
                }) == schema_frames_upto(tree, json@, root as int, k as int),
            decreases count - k,
        {
            let pair = tree.node(root).children[k];
            assert(node_ok(tree.nodes@, root as int));
            match read_section(tree, json, pair, "\"entities\"") {
                Some(v) => {
                    append_entity_frames(&mut entities, parse_entities(tree, json, v));
                },
                None => match read_section(tree, json, pair, "\"game_functions\"") {
                    Some(v) => {
                        append_entry_frames(
                            &mut game_functions,
                            parse_game_functions(tree, json, v),
                        );
                    },
                    None => {},
                },
            }
            k += 1;
        }
        Some(SchemaFrames { entities, game_functions })
    }

    /// Parses a schema file and frames its entries: the frames of the tree of
    /// the nodes that the JSON grammar makes of the text. There is no result
    /// where the parser gives no tree or nodes that are no valid list, or
    /// where the file holds no top object.
    pub fn frames_from_json(json: &str) -> (r: Option<SchemaFrames>)
        ensures
            frames_of_nodes(r, json_nodes(encode_utf8(json@)), encode_utf8(json@)),
    {
        let bytes = json.as_bytes();
        match SyntaxTree::parse_json(bytes) {
            Some(tree) => {
                let r = ModApi::frames(&tree, bytes);
                assert(tree.mirrors(json_nodes(bytes@)->0) && schema_frames(&tree, bytes@)
                    == opt_frames(r));
                r
            },
            None => None,
        }
    }
}

} // verus!
