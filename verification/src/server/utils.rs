//! The two lookups every query starts with: the node at a position, and the
//! variables in scope at a node.

use crate::server::document::{
    declared, parse_variable_declaration, spec_global_vars, variable_views, Document, Variable,
    VariableView,
};
use crate::syntax::{node_ok, Point, Range, SyntaxTree};
use vstd::prelude::*;

verus! {

/// A position as an editor gives it: a line and a character on it.
#[derive(Clone, Copy, Debug, PartialEq, Eq, Structural)]
pub struct Position {
    pub line: u32,
    pub character: u32,
}

/// A range as an editor takes it.
#[derive(Clone, Copy, Debug, PartialEq, Eq, Structural)]
pub struct LspRange {
    pub start: Position,
    pub end: Position,
}

/// The variables in scope at some node: the globals first, then the locals
/// from the innermost scope outwards.
#[derive(PartialEq, Eq, Debug)]
pub struct SpotInfo {
    pub variables: Vec<Variable>,
}

/// The point that an editor's position denotes.
pub open spec fn point_of(position: Position) -> Point {
    Point { row: position.line as usize, column: position.character as usize }
}

/// Where a scan over `kids` from position `from` ends: it moves on to a child
/// as long as the child does not start after the point, and stops at the
/// first that does.
pub open spec fn scan_children(tree: &SyntaxTree, kids: Seq<usize>, p: Point, from: int, cur: usize) -> usize
    decreases kids.len() - from,
{
    if from < 0 || from >= kids.len() {
        cur
    } else if p.before(tree.nodes@[kids[from] as int].range.start_point) {
        cur
    } else {
        scan_children(tree, kids, p, from + 1, kids[from])
    }
}

/// The node at a point: the smallest named node that holds the point, or the
/// last of its children that starts at or before the point.
pub open spec fn locate(tree: &SyntaxTree, p: Point) -> usize {
    let m = tree.spec_descendant_for_point_range(0, p, p, true);
    scan_children(tree, tree.nodes@[m as int].children@, p, 0, m)
}

/// The node at a position of the document.
pub fn get_nearest_node(document: &Document, position: Position) -> (r: usize)
    requires
        document.tree.wf(),
    ensures
        r == locate(&document.tree, point_of(position)),
        r < document.tree.nodes@.len(),
{
    let tree = &document.tree;
    let point = Point { row: position.line as usize, column: position.character as usize };
    let nearest = tree.descendant_for_point_range(0, point, point, true);
    let mut ret = nearest;
    let count = tree.child_count(nearest);
    let mut k: usize = 0;
    while k < count
        invariant
            tree.wf(),
            *tree == document.tree,
            point == point_of(position),
            nearest < tree.nodes@.len(),
            ret < tree.nodes@.len(),
            count == tree.nodes@[nearest as int].children@.len(),
            k <= count,
            scan_children(tree, tree.nodes@[nearest as int].children@, point, k as int, ret)
                == locate(tree, point),
        decreases count - k,
    {
        let child = match tree.child(nearest, k) {
            Some(c) => c,
            None => {
                return ret;
            },
        };
        if point.is_before(&tree.range(child).start_point) {
            return ret;
        }
        ret = child;
        k += 1;
    }
    ret
}

/// The declaration that node `i` holds, as a list of one; the empty list
/// where it holds none that can be read.
pub open spec fn declared_list(tree: &SyntaxTree, content: Seq<u8>, i: int) -> Seq<VariableView> {
    match declared(tree, content, i) {
        Some(v) => seq![v],
        None => Seq::empty(),
    }
}

/// The declarations held by `kids[k]` and the siblings before it, the
/// nearest first.
pub open spec fn level_decls(tree: &SyntaxTree, content: Seq<u8>, kids: Seq<usize>, k: int) -> Seq<
    VariableView,
>
    decreases k + 1,
{
    if k < 0 || k >= kids.len() {
        Seq::empty()
    } else {
        declared_list(tree, content, kids[k] as int) + level_decls(tree, content, kids, k - 1)
    }
}

/// The local declarations in scope at node `i`: at each level from `i`
/// upwards, the node on the way and the siblings before it. The children of
/// the root are left out; they are the globals.
pub open spec fn scope_locals(tree: &SyntaxTree, content: Seq<u8>, i: int) -> Seq<VariableView>
    decreases i,
{
    match tree.nodes@[i].parent {
        Some(q) => if 0 <= q < i {
            let level = if q == 0 {
                Seq::empty()
            } else {
                level_decls(tree, content, tree.nodes@[q as int].children@, tree.nodes@[i].slot as int)
            };
            level + scope_locals(tree, content, q as int)
        } else {
            Seq::empty()
        },
        None => Seq::empty(),
    }
}

/// Everything that can be named at node `i`: the globals in document order,
/// then the locals from the innermost scope outwards.
pub open spec fn resolve(tree: &SyntaxTree, content: Seq<u8>, i: int) -> Seq<VariableView> {
    spec_global_vars(tree, content) + scope_locals(tree, content, i)
}

/// The variables in scope at node `node`.
pub fn get_spot_info(document: &Document, node: usize) -> (r: SpotInfo)
    requires
        document.wf(),
        node < document.tree.nodes@.len(),
    ensures
        variable_views(r.variables@) == resolve(&document.tree, document.content@, node as int),
{
    let tree = &document.tree;
    let content = document.content.as_slice();
    let mut variables: Vec<Variable> = Vec::new();
    let mut g: usize = 0;
    while g < document.global_vars.len()
        invariant
            g <= document.global_vars@.len(),
            variable_views(variables@) == variable_views(document.global_vars@).subrange(
                0,
                g as int,
            ),
        decreases document.global_vars@.len() - g,
    {
        let ghost before = variables@;
        variables.push(document.global_vars[g].duplicate());
        assert(variable_views(variables@) =~= variable_views(before).push(
            document.global_vars@[g as int]@,
        ));
        g += 1;
    }
    assert(variable_views(variables@) =~= spec_global_vars(tree, content@));
    let ghost target = resolve(tree, content@, node as int);
    let mut cur = node;
    loop
        invariant
            tree.wf(),
            cur < tree.nodes@.len(),
            target == variable_views(variables@) + scope_locals(tree, content@, cur as int),
        ensures
            target == variable_views(variables@),
        decreases cur,
    {
        let next = match tree.parent(cur) {
            Some(q) => q,
            None => {
                assert(variable_views(variables@) + Seq::<VariableView>::empty()
                    =~= variable_views(variables@));
                break ;
            },
        };
        let ghost outer = scope_locals(tree, content@, next as int);
        if next != 0 {
            let ghost kids = tree.nodes@[next as int].children@;
            let mut s = cur;
            proof {
                assert(node_ok(tree.nodes@, cur as int));
            }
            loop
                invariant_except_break
                    target == variable_views(variables@) + (level_decls(
                        tree,
                        content@,
                        kids,
                        tree.nodes@[s as int].slot as int,
                    ) + outer),
                invariant
                    tree.wf(),
                    s < tree.nodes@.len(),
                    next < tree.nodes@.len(),
                    kids == tree.nodes@[next as int].children@,
                    tree.nodes@[s as int].parent == Some(next),
                    tree.nodes@[s as int].slot < kids.len(),
                    kids[tree.nodes@[s as int].slot as int] == s,
                ensures
                    target == variable_views(variables@) + outer,
                decreases tree.nodes@[s as int].slot,
            {
                let ghost before = variables@;
                let ghost slot = tree.nodes@[s as int].slot as int;
                match parse_variable_declaration(content, tree, s) {
                    Ok(v) => {
                        variables.push(v);
                        assert(variable_views(variables@) =~= variable_views(before) + seq![v@]);
                    },
                    Err(_) => {
                        assert(variable_views(variables@) =~= variable_views(before)
                            + Seq::<VariableView>::empty());
                    },
                }
                assert(variable_views(variables@) =~= variable_views(before) + declared_list(
                    tree,
                    content@,
                    s as int,
                ));
                assert(target =~= variable_views(variables@) + (level_decls(
                    tree,
                    content@,
                    kids,
                    slot - 1,
                ) + outer));
                match tree.prev_sibling(s) {
                    Some(t) => {
                        proof {
                            assert(node_ok(tree.nodes@, t as int));
                        }
                        s = t;
                    },
                    None => {
                        assert(level_decls(tree, content@, kids, slot - 1) + outer =~= outer);
                        break ;
                    },
                }
            }
        } else {
            assert(Seq::<VariableView>::empty() + outer =~= outer);
        }
        cur = next;
    }
    SpotInfo { variables }
}

/// The range an editor takes for a range of the tree. Rows and columns are
/// cut down to 32 bits.
pub open spec fn lsp_range(range: Range) -> LspRange {
    LspRange {
        start: Position {
            line: range.start_point.row as u32,
            character: range.start_point.column as u32,
        },
        end: Position {
            line: range.end_point.row as u32,
            character: range.end_point.column as u32,
        },
    }
}

/// The range an editor takes for a range of the tree.
pub fn treesitter_range_to_lsp(range: &Range) -> (r: LspRange)
    ensures
        r == lsp_range(*range),
{
    LspRange {
        start: Position {
            line: #[verifier::truncate]
            (range.start_point.row as u32),
            character: #[verifier::truncate]
            (range.start_point.column as u32),
        },
        end: Position {
            line: #[verifier::truncate]
            (range.end_point.row as u32),
            character: #[verifier::truncate]
            (range.end_point.column as u32),
        },
    }
}

/// Node `i` sits directly under a function call.
pub open spec fn under_function_call(tree: &SyntaxTree, i: int) -> bool {
    match tree.nodes@[i].parent {
        Some(p) => tree.is_kind(p as int, "function_call"@),
        None => false,
    }
}

/// Whether node `node` sits directly under a function call.
pub fn is_function_call(tree: &SyntaxTree, node: usize) -> (b: bool)
    requires
        tree.wf(),
        node < tree.nodes@.len(),
    ensures
        b == under_function_call(tree, node as int),
{
    match tree.parent(node) {
        Some(parent) => tree.kind_is(parent, "function_call"),
        None => false,
    }
}

/// The first position from `from` up to `upto` whose variable is written
/// with exactly the bytes `name`.
pub open spec fn first_named(vars: Seq<VariableView>, name: Seq<u8>, from: int, upto: int) -> Option<int>
    decreases upto - from,
{
    if from < 0 || from >= upto || upto > vars.len() {
        None
    } else if vstd::utf8::encode_utf8(vars[from].name) == name {
        Some(from)
    } else {
        first_named(vars, name, from + 1, upto)
    }
}

/// The declaration that a name refers to among the variables in scope: the
/// innermost local of that name, or else the first global of that name.
/// `first_local` is where the locals start.
pub open spec fn innermost(vars: Seq<VariableView>, first_local: int, name: Seq<u8>) -> Option<int> {
    match first_named(vars, name, first_local, vars.len() as int) {
        Some(i) => Some(i),
        None => first_named(vars, name, 0, first_local),
    }
}

/// What the search for a name finds lies between `from` and `upto` and is
/// written with the name.
pub proof fn lemma_first_named(vars: Seq<VariableView>, name: Seq<u8>, from: int, upto: int)
    ensures
        match first_named(vars, name, from, upto) {
            Some(i) => from <= i < upto <= vars.len() && 0 <= i && vstd::utf8::encode_utf8(
                vars[i].name,
            ) == name,
            None => true,
        },
    decreases upto - from,
{
    if from < 0 || from >= upto || upto > vars.len() {
    } else if vstd::utf8::encode_utf8(vars[from].name) == name {
    } else {
        lemma_first_named(vars, name, from + 1, upto);
    }
}

impl SpotInfo {
    fn find_named(&self, name: &[u8], from: usize, upto: usize) -> (r: Option<usize>)
        requires
            upto <= self.variables@.len(),
        ensures
            r matches Some(i) ==> i < self.variables@.len(),
            match r {
                Some(i) => first_named(
                    variable_views(self.variables@),
                    name@,
                    from as int,
                    upto as int,
                ) == Some(i as int),
                None => first_named(
                    variable_views(self.variables@),
                    name@,
                    from as int,
                    upto as int,
                ) is None,
            },
    {
        let ghost vars = variable_views(self.variables@);
        let mut k = from;
        while k < upto
            invariant
                from <= k,
                upto <= self.variables@.len(),
                vars == variable_views(self.variables@),
                first_named(vars, name@, k as int, upto as int) == first_named(
                    vars,
                    name@,
                    from as int,
                    upto as int,
                ),
            decreases upto - k,
        {
            assert(vars[k as int] == self.variables@[k as int]@);
            if crate::text::str_is_bytes(self.variables[k].name.as_str(), name) {
                return Some(k);
            }
            k += 1;
        }
        None
    }

    /// The position of the variable that `name` refers to: the innermost
    /// local of that name, or else the first global of that name. The locals
    /// start at `first_local`.
    pub fn innermost(&self, first_local: usize, name: &[u8]) -> (r: Option<usize>)
        ensures
            r matches Some(i) ==> i < self.variables@.len(),
            match r {
                Some(i) => innermost(variable_views(self.variables@), first_local as int, name@)
                    == Some(i as int),
                None => innermost(variable_views(self.variables@), first_local as int, name@)
                    is None,
            },
    {
        let n = self.variables.len();
        if first_local > n {
            return None;
        }
        match self.find_named(name, first_local, n) {
            Some(i) => Some(i),
            None => self.find_named(name, 0, first_local),
        }
    }
}

} // verus!
