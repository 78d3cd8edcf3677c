//! Formatting: the document written out again in the house style, one
//! statement to a line, bodies indented by four blanks, blank lines between
//! statements kept (one at most).

use crate::server::document::{node_get_content, node_text, Document};
use crate::server::rename::{EditView, TextEdit};
use crate::server::utils::{lsp_range, treesitter_range_to_lsp};
use crate::syntax::{node_ok, SyntaxTree};
use crate::text::{concat2, concat3, line_views, push_char, string_from_utf8};
use vstd::prelude::*;
use vstd::string::StringExecFns;
use vstd::utf8::valid_utf8;

verus! {

/// Why a node could not be formatted.
#[derive(Clone, Copy, Debug, PartialEq, Eq, Structural)]
pub enum FormatError {
    /// The node is of a kind that the formatter does not know.
    Unsupported(usize),
    /// The node lacks a part that its kind must have, or a part of it does
    /// not come out as the single line it must be, or the document is not
    /// UTF-8.
    Malformed(usize),
}

/// The lines of a formatted node, or why there are none.
pub enum Formatted {
    Lines(Seq<Seq<char>>),
    Failed(FormatError),
}

/// Node `node` is a token that is written as it stands.
pub open spec fn is_token(tree: &SyntaxTree, node: int) -> bool {
    ||| tree.is_kind(node, "identifier"@)
    ||| tree.is_kind(node, "number"@)
    ||| tree.is_kind(node, "type"@)
    ||| tree.is_kind(node, "on_identifier"@)
    ||| tree.is_kind(node, "helper_identifier"@)
    ||| tree.is_kind(node, "comment"@)
    ||| tree.is_kind(node, "me"@)
    ||| tree.is_kind(node, "+"@)
    ||| tree.is_kind(node, "-"@)
    ||| tree.is_kind(node, "*"@)
    ||| tree.is_kind(node, "/"@)
    ||| tree.is_kind(node, "string"@)
    ||| tree.is_kind(node, "not"@)
    ||| tree.is_kind(node, "empty_return"@)
    ||| tree.is_kind(node, "<"@)
    ||| tree.is_kind(node, ">"@)
    ||| tree.is_kind(node, "<="@)
    ||| tree.is_kind(node, ">="@)
    ||| tree.is_kind(node, "=="@)
    ||| tree.is_kind(node, "!="@)
    ||| tree.is_kind(node, "and"@)
    ||| tree.is_kind(node, "or"@)
    ||| tree.is_kind(node, "boolean"@)
}

/// The first `upto` bytes as text, each byte as the character of that
/// number, line feeds left out.
pub open spec fn token_text(bytes: Seq<u8>, upto: int) -> Seq<char>
    decreases upto,
{
    if upto <= 0 || upto > bytes.len() {
        Seq::empty()
    } else if bytes[upto - 1] == 10u8 {
        token_text(bytes, upto - 1)
    } else {
        token_text(bytes, upto - 1).push(bytes[upto - 1] as char)
    }
}

/// Where the lines of the text start, from `from` on: at `from`, and after
/// each line feed that is not the last byte.
pub open spec fn line_starts(content: Seq<u8>, from: int) -> Seq<int>
    decreases content.len() - from,
{
    if from < 0 || from >= content.len() {
        Seq::empty()
    } else if from < next_line(content, from) <= content.len() {
        seq![from] + line_starts(content, next_line(content, from))
    } else {
        seq![from]
    }
}

/// Where the line after the one that holds position `from` starts: after the
/// next line feed, or at the end of the text.
pub open spec fn next_line(content: Seq<u8>, from: int) -> int
    decreases content.len() - from,
{
    if from < 0 || from >= content.len() {
        content.len() as int
    } else if content[from] == 10u8 {
        from + 1
    } else {
        next_line(content, from + 1)
    }
}

/// The line that starts at `from` holds only blanks, tabs, and a carriage
/// return before its line feed.
pub open spec fn blank_line(content: Seq<u8>, from: int) -> bool
    decreases content.len() - from,
{
    if from < 0 || from >= content.len() {
        true
    } else if content[from] == 10u8 {
        true
    } else if content[from] == 32u8 || content[from] == 9u8 {
        blank_line(content, from + 1)
    } else if content[from] == 13u8 && from + 1 < content.len() && content[from + 1] == 10u8 {
        true
    } else {
        false
    }
}

/// The lines, each behind four blanks.
pub open spec fn indented(lines: Seq<Seq<char>>) -> Seq<Seq<char>> {
    lines.map_values(|l: Seq<char>| "    "@ + l)
}

/// The children of `node` among its first `upto` that are not braces.
pub open spec fn statements_upto(tree: &SyntaxTree, node: int, upto: int) -> Seq<usize>
    decreases upto,
{
    let kids = tree.nodes@[node].children@;
    if upto <= 0 || upto > kids.len() {
        Seq::empty()
    } else if tree.is_kind(kids[upto - 1] as int, "{"@) || tree.is_kind(kids[upto - 1] as int, "}"@) {
        statements_upto(tree, node, upto - 1)
    } else {
        statements_upto(tree, node, upto - 1).push(kids[upto - 1])
    }
}

/// The children of `node` that are not braces.
pub open spec fn statements(tree: &SyntaxTree, node: int) -> Seq<usize> {
    statements_upto(tree, node, tree.nodes@[node].children@.len() as int)
}

/// The one line of a part that must come out as a single line.
pub open spec fn single_line(part: Formatted, node: int) -> Formatted {
    match part {
        Formatted::Lines(lines) => if lines.len() == 1 {
            part
        } else {
            Formatted::Failed(FormatError::Malformed(node as usize))
        },
        Formatted::Failed(_) => part,
    }
}

/// The first line of a part that must have one.
pub open spec fn first_line(part: Formatted, node: int) -> Formatted {
    match part {
        Formatted::Lines(lines) => if lines.len() >= 1 {
            Formatted::Lines(seq![lines[0]])
        } else {
            Formatted::Failed(FormatError::Malformed(node as usize))
        },
        Formatted::Failed(_) => part,
    }
}

/// The part of `node` that fills the field `field`, formatted. A part that
/// is missing makes the node malformed.
pub open spec fn format_field(tree: &SyntaxTree, content: Seq<u8>, node: int, field: Seq<char>) -> Formatted
    decreases tree.nodes@.len() - node, 0int, 0int,
{
    match tree.spec_child_by_field(node, field) {
        Some(c) => if node < c < tree.nodes@.len() {
            format_lines(tree, content, c as int)
        } else {
            Formatted::Failed(FormatError::Malformed(node as usize))
        },
        None => Formatted::Failed(FormatError::Malformed(node as usize)),
    }
}

/// The child of `node` at position `k`, formatted. A child that is missing
/// makes the node malformed.
pub open spec fn format_child(tree: &SyntaxTree, content: Seq<u8>, node: int, k: int) -> Formatted
    decreases tree.nodes@.len() - node, 0int, 0int,
{
    match tree.spec_child(node, k) {
        Some(c) => if node < c < tree.nodes@.len() {
            format_lines(tree, content, c as int)
        } else {
            Formatted::Failed(FormatError::Malformed(node as usize))
        },
        None => Formatted::Failed(FormatError::Malformed(node as usize)),
    }
}

/// The first `upto` of the arguments `args` of the call `node`, each as one
/// line, with a comma and a blank after each but the last of all.
pub open spec fn format_arguments(
    tree: &SyntaxTree,
    content: Seq<u8>,
    node: int,
    args: Seq<usize>,
    upto: int,
) -> Formatted
    decreases tree.nodes@.len() - node, 0int, upto,
{
    if upto <= 0 || upto > args.len() {
        Formatted::Lines(seq![Seq::empty()])
    } else {
        match format_arguments(tree, content, node, args, upto - 1) {
            Formatted::Lines(before) => {
                let a = args[upto - 1] as int;
                let part = if node < a < tree.nodes@.len() {
                    single_line(format_lines(tree, content, a), node)
                } else {
                    Formatted::Failed(FormatError::Malformed(node as usize))
                };
                match part {
                    Formatted::Lines(arg) => Formatted::Lines(
                        seq![
                            before[0] + arg[0] + if upto < args.len() {
                                ", "@
                            } else {
                                Seq::empty()
                            },
                        ],
                    ),
                    Formatted::Failed(e) => Formatted::Failed(e),
                }
            },
            Formatted::Failed(e) => Formatted::Failed(e),
        }
    }
}

/// The first `upto` of the parameters `params` of the declaration `node`,
/// each by its first line, with a comma and a blank after each but the last
/// of all. Commas among the children are passed over.
pub open spec fn format_params(
    tree: &SyntaxTree,
    content: Seq<u8>,
    node: int,
    params: Seq<usize>,
    upto: int,
) -> Formatted
    decreases tree.nodes@.len() - node, 0int, upto,
{
    if upto <= 0 || upto > params.len() {
        Formatted::Lines(seq![Seq::empty()])
    } else {
        match format_params(tree, content, node, params, upto - 1) {
            Formatted::Lines(before) => {
                let p = params[upto - 1] as int;
                if tree.is_kind(p, ","@) {
                    Formatted::Lines(before)
                } else {
                    let part = if node < p < tree.nodes@.len() {
                        first_line(format_lines(tree, content, p), node)
                    } else {
                        Formatted::Failed(FormatError::Malformed(node as usize))
                    };
                    match part {
                        Formatted::Lines(param) => Formatted::Lines(
                            seq![
                                before[0] + param[0] + if upto < params.len() {
                                    ", "@
                                } else {
                                    Seq::empty()
                                },
                            ],
                        ),
                        Formatted::Failed(e) => Formatted::Failed(e),
                    }
                }
            },
            Formatted::Failed(e) => Formatted::Failed(e),
        }
    }
}

/// The state of the walk that lays statements out line by line.
pub struct Layout {
    /// The line of the document that the walk has reached.
    pub line: int,
    /// The statement that comes next.
    pub next: int,
    /// A blank line may be written: a statement was, since the last one.
    pub may_blank: bool,
    /// The lines written so far.
    pub lines: Seq<Seq<char>>,
}

/// The statements `kids` of `node` laid out, from the state `at` on. The
/// walk goes down the lines of the document. A statement is written once
/// its line is reached; a blank line of the document is written where it
/// follows a statement, once. Statements of a body are indented. The walk
/// ends with the last line or the last statement.
pub open spec fn layout(
    tree: &SyntaxTree,
    content: Seq<u8>,
    node: int,
    kids: Seq<usize>,
    starts: Seq<int>,
    indent: bool,
    at: Layout,
) -> Formatted
    decreases tree.nodes@.len() - node, 0int, (starts.len() - at.line) + (kids.len() - at.next),
{
    if at.line < 0 || at.next < 0 || at.line >= starts.len() || at.next >= kids.len() {
        Formatted::Lines(at.lines)
    } else {
        let child = kids[at.next] as int;
        if at.line >= tree.nodes@[child].range.start_point.row {
            let part = if node < child < tree.nodes@.len() {
                format_lines(tree, content, child)
            } else {
                Formatted::Failed(FormatError::Malformed(node as usize))
            };
            match part {
                Formatted::Lines(lines) => {
                    let written = at.lines + if indent {
                        indented(lines)
                    } else {
                        lines
                    };
                    if at.next + 1 >= kids.len() {
                        Formatted::Lines(written)
                    } else {
                        let following = kids[at.next + 1] as int;
                        let blank = blank_line(content, starts[at.line]);
                        layout(
                            tree,
                            content,
                            node,
                            kids,
                            starts,
                            indent,
                            Layout {
                                line: if at.line < tree.nodes@[following].range.start_point.row {
                                    at.line + 1
                                } else {
                                    at.line
                                },
                                next: at.next + 1,
                                may_blank: !blank,
                                lines: if blank {
                                    written.push(Seq::empty())
                                } else {
                                    written
                                },
                            },
                        )
                    }
                },
                Formatted::Failed(e) => Formatted::Failed(e),
            }
        } else {
            let blank = blank_line(content, starts[at.line]) && at.may_blank;
            layout(
                tree,
                content,
                node,
                kids,
                starts,
                indent,
                Layout {
                    line: at.line + 1,
                    next: at.next,
                    may_blank: at.may_blank && !blank,
                    lines: if blank {
                        at.lines.push(Seq::empty())
                    } else {
                        at.lines
                    },
                },
            )
        }
    }
}

/// The statements of `node` laid out from the first line on.
pub open spec fn layout_all(tree: &SyntaxTree, content: Seq<u8>, node: int, indent: bool) -> Formatted
    decreases tree.nodes@.len() - node, 1int, 0int,
{
    if !valid_utf8(content) {
        Formatted::Failed(FormatError::Malformed(node as usize))
    } else {
        layout(
            tree,
            content,
            node,
            statements(tree, node),
            line_starts(content, 0),
            indent,
            Layout { line: 0, next: 0, may_blank: false, lines: Seq::empty() },
        )
    }
}

/// `head`, a blank, and the first of `lines`, followed by the rest of
/// `lines`. Without a first line the node is malformed.
pub open spec fn headed(head: Seq<char>, lines: Seq<Seq<char>>, node: int) -> Formatted {
    if lines.len() >= 1 {
        Formatted::Lines(lines.update(0, head + " "@ + lines[0]))
    } else {
        Formatted::Failed(FormatError::Malformed(node as usize))
    }
}

/// The lines of an `if` or a `while` after the `else` part is joined on: the
/// last line, ` else `, and the first line of the part, then the rest of the
/// part.
pub open spec fn with_else(lines: Seq<Seq<char>>, part: Seq<Seq<char>>, node: int) -> Formatted {
    if lines.len() >= 1 && part.len() >= 1 {
        Formatted::Lines(
            lines.update(lines.len() - 1, lines[lines.len() - 1] + " else "@ + part[0])
                + part.subrange(1, part.len() as int),
        )
    } else {
        Formatted::Failed(FormatError::Malformed(node as usize))
    }
}

/// The lines that node `node` is written as.
pub open spec fn format_lines(tree: &SyntaxTree, content: Seq<u8>, node: int) -> Formatted
    decreases tree.nodes@.len() - node, 2int, 0int,
{
    let bad = Formatted::Failed(FormatError::Malformed(node as usize));
    if tree.is_kind(node, "variable_declaration"@) {
        match (
            single_line(format_field(tree, content, node, "name"@), node),
            single_line(format_field(tree, content, node, "type"@), node),
        ) {
            (Formatted::Lines(name), Formatted::Lines(ty)) => {
                let text = name[0] + ": "@ + ty[0];
                if tree.spec_child_by_field(node, "value"@) is Some {
                    match single_line(format_field(tree, content, node, "value"@), node) {
                        Formatted::Lines(value) => Formatted::Lines(
                            seq![text + " = "@ + value[0]],
                        ),
                        Formatted::Failed(e) => Formatted::Failed(e),
                    }
                } else {
                    Formatted::Lines(seq![text])
                }
            },
            (Formatted::Failed(e), _) => Formatted::Failed(e),
            (_, Formatted::Failed(e)) => Formatted::Failed(e),
        }
    } else if tree.is_kind(node, "function_call"@) {
        let args = tree.spec_children_by_field(node, "argument"@);
        match (
            single_line(format_field(tree, content, node, "name"@), node),
            format_arguments(tree, content, node, args, args.len() as int),
        ) {
            (Formatted::Lines(name), Formatted::Lines(list)) => Formatted::Lines(
                seq![name[0] + "("@ + list[0] + ")"@],
            ),
            (Formatted::Failed(e), _) => Formatted::Failed(e),
            (_, Formatted::Failed(e)) => Formatted::Failed(e),
        }
    } else if is_token(tree, node) {
        let bytes = node_text(tree, content, node);
        Formatted::Lines(seq![token_text(bytes, bytes.len() as int)])
    } else if tree.is_kind(node, "argument"@) {
        format_child(tree, content, node, 0)
    } else if tree.is_kind(node, "binary_expression"@) {
        match (
            first_line(format_field(tree, content, node, "left"@), node),
            first_line(format_field(tree, content, node, "right"@), node),
            first_line(format_field(tree, content, node, "operator"@), node),
        ) {
            (Formatted::Lines(left), Formatted::Lines(right), Formatted::Lines(op)) => Formatted::Lines(
                seq![left[0] + " "@ + op[0] + " "@ + right[0]],
            ),
            (Formatted::Failed(e), _, _) => Formatted::Failed(e),
            (_, Formatted::Failed(e), _) => Formatted::Failed(e),
            (_, _, Formatted::Failed(e)) => Formatted::Failed(e),
        }
    } else if tree.is_kind(node, "unary_expression"@) {
        match (
            first_line(format_field(tree, content, node, "operand"@), node),
            first_line(format_field(tree, content, node, "operator"@), node),
        ) {
            (Formatted::Lines(operand), Formatted::Lines(op)) => Formatted::Lines(
                seq![
                    if op[0] == "not"@ {
                        "not "@ + operand[0]
                    } else {
                        op[0] + operand[0]
                    },
                ],
            ),
            (Formatted::Failed(e), _) => Formatted::Failed(e),
            (_, Formatted::Failed(e)) => Formatted::Failed(e),
        }
    } else if tree.is_kind(node, "contained_expression"@) {
        match first_line(format_child(tree, content, node, 1), node) {
            Formatted::Lines(expr) => Formatted::Lines(seq!["("@ + expr[0] + ")"@]),
            Formatted::Failed(e) => Formatted::Failed(e),
        }
    } else if tree.is_kind(node, "assignment"@) {
        match (
            first_line(format_field(tree, content, node, "name"@), node),
            first_line(format_field(tree, content, node, "value"@), node),
        ) {
            (Formatted::Lines(name), Formatted::Lines(value)) => Formatted::Lines(
                seq![name[0] + " = "@ + value[0]],
            ),
            (Formatted::Failed(e), _) => Formatted::Failed(e),
            (_, Formatted::Failed(e)) => Formatted::Failed(e),
        }
    } else if tree.is_kind(node, "return_statement"@) {
        match first_line(format_field(tree, content, node, "value"@), node) {
            Formatted::Lines(value) => Formatted::Lines(seq!["return "@ + value[0]]),
            Formatted::Failed(e) => Formatted::Failed(e),
        }
    } else if tree.is_kind(node, "if_statement"@) || tree.is_kind(node, "while_statement"@) {
        let keyword = if tree.is_kind(node, "if_statement"@) {
            "if"@
        } else {
            "while"@
        };
        match (
            single_line(format_field(tree, content, node, "condition"@), node),
            format_field(tree, content, node, "body"@),
        ) {
            (Formatted::Lines(condition), Formatted::Lines(body)) => match headed(
                keyword + " "@ + condition[0],
                body,
                node,
            ) {
                Formatted::Lines(lines) => if tree.spec_child_by_field(node, "else"@) is Some {
                    match format_field(tree, content, node, "else"@) {
                        Formatted::Lines(part) => with_else(lines, part, node),
                        Formatted::Failed(e) => Formatted::Failed(e),
                    }
                } else {
                    Formatted::Lines(lines)
                },
                Formatted::Failed(e) => Formatted::Failed(e),
            },
            (Formatted::Failed(e), _) => Formatted::Failed(e),
            (_, Formatted::Failed(e)) => Formatted::Failed(e),
        }
    } else if tree.is_kind(node, "body"@) {
        match layout_all(tree, content, node, true) {
            Formatted::Lines(lines) => Formatted::Lines(
                seq!["{"@] + (if statements(tree, node).len() == 0 {
                    lines.push(Seq::empty())
                } else {
                    lines
                }) + seq!["}"@],
            ),
            Formatted::Failed(e) => Formatted::Failed(e),
        }
    } else if tree.is_kind(node, "source_file"@) {
        layout_all(tree, content, node, false)
    } else if tree.is_kind(node, "function_declaration"@) {
        let params = tree.spec_children_by_field(node, "param"@);
        match (
            first_line(format_field(tree, content, node, "name"@), node),
            format_field(tree, content, node, "body"@),
            format_params(tree, content, node, params, params.len() as int),
        ) {
            (Formatted::Lines(name), Formatted::Lines(body), Formatted::Lines(list)) => {
                let decl = name[0] + "("@ + list[0] + ")"@;
                if tree.spec_child_by_field(node, "ret_type"@) is Some {
                    match first_line(format_field(tree, content, node, "ret_type"@), node) {
                        Formatted::Lines(ret) => headed(decl + " "@ + ret[0], body, node),
                        Formatted::Failed(e) => Formatted::Failed(e),
                    }
                } else {
                    headed(decl, body, node)
                }
            },
            (Formatted::Failed(e), _, _) => Formatted::Failed(e),
            (_, Formatted::Failed(e), _) => Formatted::Failed(e),
            (_, _, Formatted::Failed(e)) => Formatted::Failed(e),
        }
    } else if tree.is_kind(node, "function_parameter"@) {
        match (
            first_line(format_field(tree, content, node, "name"@), node),
            first_line(format_field(tree, content, node, "type"@), node),
        ) {
            (Formatted::Lines(name), Formatted::Lines(ty)) => Formatted::Lines(
                seq![name[0] + ": "@ + ty[0]],
            ),
            (Formatted::Failed(e), _) => Formatted::Failed(e),
            (_, Formatted::Failed(e)) => Formatted::Failed(e),
        }
    } else {
        Formatted::Failed(FormatError::Unsupported(node as usize))
    }
}

/// The next line starts after the position, and within the text or at its
/// end.
pub proof fn lemma_next_line_bounds(content: Seq<u8>, from: int)
    requires
        0 <= from < content.len(),
    ensures
        from < next_line(content, from) <= content.len(),
    decreases content.len() - from,
{
    if content[from] != 10u8 {
        if from + 1 < content.len() {
            lemma_next_line_bounds(content, from + 1);
        } else {
            assert(next_line(content, from + 1) == content.len());
        }
    }
}

fn find_next_line(content: &[u8], from: usize) -> (r: usize)
    requires
        from < content@.len(),
    ensures
        r == next_line(content@, from as int),
        from < r <= content@.len(),
{
    let mut k = from;
    while k < content.len()
        invariant
            from <= k <= content@.len(),
            next_line(content@, k as int) == next_line(content@, from as int),
        decreases content@.len() - k,
    {
        if content[k] == 10u8 {
            return k + 1;
        }
        k += 1;
    }
    proof {
        lemma_next_line_bounds(content@, from as int);
    }
    k
}

/// The starts as numbers.
pub open spec fn as_ints(starts: Seq<usize>) -> Seq<int> {
    starts.map_values(|s: usize| s as int)
}

fn find_line_starts(content: &[u8]) -> (r: Vec<usize>)
    ensures
        as_ints(r@) == line_starts(content@, 0),
        forall|k: int| 0 <= k < r@.len() ==> (#[trigger] r@[k]) < content@.len(),
{
    let mut out: Vec<usize> = Vec::new();
    let mut from: usize = 0;
    assert(as_ints(out@) + line_starts(content@, 0) =~= line_starts(content@, 0));
    while from < content.len()
        invariant
            from <= content@.len(),
            as_ints(out@) + line_starts(content@, from as int) == line_starts(content@, 0),
            forall|k: int| 0 <= k < out@.len() ==> (#[trigger] out@[k]) < content@.len(),
        decreases content@.len() - from,
    {
        let next = find_next_line(content, from);
        let ghost before = out@;
        out.push(from);
        assert(as_ints(out@) + line_starts(content@, next as int) =~= as_ints(before) + (seq![
            from as int,
        ] + line_starts(content@, next as int)));
        from = next;
    }
    assert(as_ints(out@) + line_starts(content@, from as int) =~= as_ints(out@));
    out
}

fn is_blank_line(content: &[u8], from: usize) -> (b: bool)
    requires
        from <= content@.len(),
    ensures
        b == blank_line(content@, from as int),
{
    let mut k = from;
    while k < content.len()
        invariant
            from <= k <= content@.len(),
            blank_line(content@, k as int) == blank_line(content@, from as int),
        decreases content@.len() - k,
    {
        let c = content[k];
        if c == 10u8 {
            return true;
        }
        if c != 32u8 && c != 9u8 {
            return c == 13u8 && k + 1 < content.len() && content[k + 1] == 10u8;
        }
        k += 1;
    }
    true
}

fn statements_of(tree: &SyntaxTree, node: usize) -> (r: Vec<usize>)
    requires
        tree.wf(),
        node < tree.nodes@.len(),
    ensures
        r@ == statements(tree, node as int),
        forall|k: int| 0 <= k < r@.len() ==> node < (#[trigger] r@[k]) < tree.nodes@.len(),
{
    let mut out: Vec<usize> = Vec::new();
    let count = tree.child_count(node);
    let mut k: usize = 0;
    while k < count
        invariant
            tree.wf(),
            node < tree.nodes@.len(),
            count == tree.nodes@[node as int].children@.len(),
            k <= count,
            out@ == statements_upto(tree, node as int, k as int),
            forall|m: int| 0 <= m < out@.len() ==> node < (#[trigger] out@[m]) < tree.nodes@.len(),
        decreases count - k,
    {
        let child = tree.node(node).children[k];
        assert(node_ok(tree.nodes@, node as int));
        if !tree.kind_is(child, "{") && !tree.kind_is(child, "}") {
            out.push(child);
        }
        k += 1;
    }
    out
}

fn token_string(bytes: &[u8]) -> (s: String)
    ensures
        s@ == token_text(bytes@, bytes@.len() as int),
{
    let mut text = String::new();
    let mut k: usize = 0;
    while k < bytes.len()
        invariant
            k <= bytes@.len(),
            text@ == token_text(bytes@, k as int),
        decreases bytes@.len() - k,
    {
        let c = bytes[k];
        if c != 10u8 {
            push_char(&mut text, c as char);
        }
        k += 1;
    }
    text
}

fn check_token(tree: &SyntaxTree, node: usize) -> (b: bool)
    requires
        node < tree.nodes@.len(),
    ensures
        b == is_token(tree, node as int),
{
    tree.kind_is(node, "identifier") || tree.kind_is(node, "number") || tree.kind_is(node, "type")
        || tree.kind_is(node, "on_identifier") || tree.kind_is(node, "helper_identifier")
        || tree.kind_is(node, "comment") || tree.kind_is(node, "me") || tree.kind_is(node, "+")
        || tree.kind_is(node, "-") || tree.kind_is(node, "*") || tree.kind_is(node, "/")
        || tree.kind_is(node, "string") || tree.kind_is(node, "not") || tree.kind_is(
        node,
        "empty_return",
    ) || tree.kind_is(node, "<") || tree.kind_is(node, ">") || tree.kind_is(node, "<=")
        || tree.kind_is(node, ">=") || tree.kind_is(node, "==") || tree.kind_is(node, "!=")
        || tree.kind_is(node, "and") || tree.kind_is(node, "or") || tree.kind_is(node, "boolean")
}

/// What a result of the formatter stands for.
pub open spec fn formatted_of(r: Result<Vec<String>, FormatError>) -> Formatted {
    match r {
        Ok(lines) => Formatted::Lines(line_views(lines@)),
        Err(e) => Formatted::Failed(e),
    }
}

/// What a result of one line stands for.
pub open spec fn formatted_line(r: Result<String, FormatError>) -> Formatted {
    match r {
        Ok(line) => Formatted::Lines(seq![line@]),
        Err(e) => Formatted::Failed(e),
    }
}

fn one_line(text: String) -> (v: Vec<String>)
    ensures
        line_views(v@) == seq![text@],
{
    let mut v: Vec<String> = Vec::new();
    v.push(text);
    assert(line_views(v@) =~= seq![text@]);
    v
}

fn single(part: Result<Vec<String>, FormatError>, node: usize) -> (r: Result<String, FormatError>)
    ensures
        formatted_line(r) == single_line(formatted_of(part), node as int),
{
    match part {
        Ok(lines) => {
            if lines.len() == 1 {
                assert(line_views(lines@) =~= seq![lines@[0]@]);
                Ok(lines[0].clone())
            } else {
                Err(FormatError::Malformed(node))
            }
        },
        Err(e) => Err(e),
    }
}

fn first(part: Result<Vec<String>, FormatError>, node: usize) -> (r: Result<String, FormatError>)
    ensures
        formatted_line(r) == first_line(formatted_of(part), node as int),
{
    match part {
        Ok(lines) => {
            if lines.len() >= 1 {
                assert(line_views(lines@)[0] == lines@[0]@);
                Ok(lines[0].clone())
            } else {
                Err(FormatError::Malformed(node))
            }
        },
        Err(e) => Err(e),
    }
}

fn put_head(head: &str, lines: Vec<String>, node: usize) -> (r: Result<Vec<String>, FormatError>)
    ensures
        formatted_of(r) == headed(head@, line_views(lines@), node as int),
{
    let mut lines = lines;
    if lines.len() >= 1 {
        let ghost before = line_views(lines@);
        let joined = concat3(head, " ", lines[0].as_str());
        lines.set(0, joined);
        assert(line_views(lines@) =~= before.update(0, head@ + " "@ + before[0]));
        Ok(lines)
    } else {
        Err(FormatError::Malformed(node))
    }
}

fn join_else(lines: Vec<String>, part: Vec<String>, node: usize) -> (r: Result<
    Vec<String>,
    FormatError,
>)
    ensures
        formatted_of(r) == with_else(line_views(lines@), line_views(part@), node as int),
{
    let mut lines = lines;
    if lines.len() >= 1 && part.len() >= 1 {
        let ghost before = line_views(lines@);
        let ghost added = line_views(part@);
        let last = lines.len() - 1;
        let joined = concat3(lines[last].as_str(), " else ", part[0].as_str());
        lines.set(last, joined);
        let ghost joined_lines = line_views(lines@);
        assert(joined_lines =~= before.update(last as int, before[last as int] + " else "@ + added[0]));
        let mut k: usize = 1;
        while k < part.len()
            invariant
                1 <= k <= part@.len(),
                added == line_views(part@),
                line_views(lines@) == joined_lines + added.subrange(1, k as int),
            decreases part@.len() - k,
        {
            let ghost so_far = line_views(lines@);
            lines.push(part[k].clone());
            assert(line_views(lines@) =~= so_far.push(added[k as int]));
            assert(line_views(lines@) =~= joined_lines + added.subrange(1, k + 1));
            k += 1;
        }
        Ok(lines)
    } else {
        Err(FormatError::Malformed(node))
    }
}

fn append_lines(lines: &mut Vec<String>, more: &Vec<String>, indent: bool)
    ensures
        line_views(final(lines)@) == line_views(old(lines)@) + if indent {
            indented(line_views(more@))
        } else {
            line_views(more@)
        },
{
    let ghost start = line_views(lines@);
    let ghost added = if indent {
        indented(line_views(more@))
    } else {
        line_views(more@)
    };
    let mut k: usize = 0;
    assert(line_views(lines@) =~= start + added.subrange(0, 0));
    while k < more.len()
        invariant
            k <= more@.len(),
            added == if indent {
                indented(line_views(more@))
            } else {
                line_views(more@)
            },
            line_views(lines@) == start + added.subrange(0, k as int),
        decreases more@.len() - k,
    {
        let ghost so_far = line_views(lines@);
        let line = if indent {
            concat2("    ", more[k].as_str())
        } else {
            more[k].clone()
        };
        assert(line@ == added[k as int]);
        lines.push(line);
        assert(line_views(lines@) =~= so_far.push(added[k as int]));
        assert(line_views(lines@) =~= start + added.subrange(0, k + 1));
        k += 1;
    }
    assert(added.subrange(0, more@.len() as int) =~= added);
}

fn push_blank(lines: &mut Vec<String>)
    ensures
        line_views(final(lines)@) == line_views(old(lines)@).push(Seq::empty()),
{
    lines.push(String::new());
    assert(line_views(lines@) =~= line_views(old(lines)@).push(Seq::empty()));
}

fn format_field_of(content: &[u8], tree: &SyntaxTree, node: usize, field: &str) -> (r: Result<
    Vec<String>,
    FormatError,
>)
    requires
        tree.wf(),
        node < tree.nodes@.len(),
    ensures
        formatted_of(r) == format_field(tree, content@, node as int, field@),
    decreases tree.nodes@.len() - node, 0int, 0int,
{
    match tree.child_by_field_name(node, field) {
        Some(c) => format_node(content, tree, c),
        None => Err(FormatError::Malformed(node)),
    }
}

fn format_child_of(content: &[u8], tree: &SyntaxTree, node: usize, k: usize) -> (r: Result<
    Vec<String>,
    FormatError,
>)
    requires
        tree.wf(),
        node < tree.nodes@.len(),
    ensures
        formatted_of(r) == format_child(tree, content@, node as int, k as int),
    decreases tree.nodes@.len() - node, 0int, 0int,
{
    match tree.child(node, k) {
        Some(c) => format_node(content, tree, c),
        None => Err(FormatError::Malformed(node)),
    }
}

fn format_arguments_of(content: &[u8], tree: &SyntaxTree, node: usize) -> (r: Result<
    String,
    FormatError,
>)
    requires
        tree.wf(),
        node < tree.nodes@.len(),
    ensures
        formatted_line(r) == format_arguments(
            tree,
            content@,
            node as int,
            tree.spec_children_by_field(node as int, "argument"@),
            tree.spec_children_by_field(node as int, "argument"@).len() as int,
        ),
    decreases tree.nodes@.len() - node, 0int, 0int,
{
    let args = tree.children_by_field_name(node, "argument");
    let mut text = String::new();
    let mut k: usize = 0;
    while k < args.len()
        invariant
            tree.wf(),
            node < tree.nodes@.len(),
            k <= args@.len(),
            args@ == tree.spec_children_by_field(node as int, "argument"@),
            forall|m: int| 0 <= m < args@.len() ==> node < (#[trigger] args@[m]) < tree.nodes@.len(),
            format_arguments(tree, content@, node as int, args@, k as int) == Formatted::Lines(
                seq![text@],
            ),
        decreases args@.len() - k,
    {
        let arg = match single(format_node(content, tree, args[k]), node) {
            Ok(a) => a,
            Err(e) => {
                proof {
                    lemma_arguments_fail(tree, content@, node as int, args@, k + 1, e);
                }
                return Err(e);
            },
        };
        text.append(arg.as_str());
        if k < args.len() - 1 {
            text.append(", ");
        }
        proof {
            let before = format_arguments(tree, content@, node as int, args@, k as int);
            assert(format_arguments(tree, content@, node as int, args@, k + 1) == Formatted::Lines(
                seq![
                    before->Lines_0[0] + arg@ + if k + 1 < args@.len() {
                        ", "@
                    } else {
                        Seq::empty()
                    },
                ],
            ));
            assert(text@ =~= before->Lines_0[0] + arg@ + if k + 1 < args@.len() {
                ", "@
            } else {
                Seq::<char>::empty()
            });
        }
        k += 1;
    }
    Ok(text)
}

/// Once an argument fails, the whole list of arguments fails in the same
/// way.
proof fn lemma_arguments_fail(
    tree: &SyntaxTree,
    content: Seq<u8>,
    node: int,
    args: Seq<usize>,
    at: int,
    e: FormatError,
)
    requires
        1 <= at <= args.len(),
        format_arguments(tree, content, node, args, at) == Formatted::Failed(e),
    ensures
        format_arguments(tree, content, node, args, args.len() as int) == Formatted::Failed(e),
    decreases args.len() - at,
{
    if at < args.len() {
        assert(format_arguments(tree, content, node, args, at + 1) == Formatted::Failed(e));
        lemma_arguments_fail(tree, content, node, args, at + 1, e);
    }
}

/// Once a parameter fails, the whole list of parameters fails in the same
/// way.
proof fn lemma_params_fail(
    tree: &SyntaxTree,
    content: Seq<u8>,
    node: int,
    params: Seq<usize>,
    at: int,
    e: FormatError,
)
    requires
        1 <= at <= params.len(),
        format_params(tree, content, node, params, at) == Formatted::Failed(e),
    ensures
        format_params(tree, content, node, params, params.len() as int) == Formatted::Failed(e),
    decreases params.len() - at,
{
    if at < params.len() {
        assert(format_params(tree, content, node, params, at + 1) == Formatted::Failed(e));
        lemma_params_fail(tree, content, node, params, at + 1, e);
    }
}

fn format_params_of(content: &[u8], tree: &SyntaxTree, node: usize) -> (r: Result<
    String,
    FormatError,
>)
    requires
        tree.wf(),
        node < tree.nodes@.len(),
    ensures
        formatted_line(r) == format_params(
            tree,
            content@,
            node as int,
            tree.spec_children_by_field(node as int, "param"@),
            tree.spec_children_by_field(node as int, "param"@).len() as int,
        ),
    decreases tree.nodes@.len() - node, 0int, 0int,
{
    let params = tree.children_by_field_name(node, "param");
    let mut text = String::new();
    let mut k: usize = 0;
    while k < params.len()
        invariant
            tree.wf(),
            node < tree.nodes@.len(),
            k <= params@.len(),
            params@ == tree.spec_children_by_field(node as int, "param"@),
            forall|m: int|
                0 <= m < params@.len() ==> node < (#[trigger] params@[m]) < tree.nodes@.len(),
            format_params(tree, content@, node as int, params@, k as int) == Formatted::Lines(
                seq![text@],
            ),
        decreases params@.len() - k,
    {
        if !tree.kind_is(params[k], ",") {
            let param = match first(format_node(content, tree, params[k]), node) {
                Ok(p) => p,
                Err(e) => {
                    proof {
                        lemma_params_fail(tree, content@, node as int, params@, k + 1, e);
                    }
                    return Err(e);
                },
            };
            text.append(param.as_str());
            if k < params.len() - 1 {
                text.append(", ");
            }
            proof {
                let before = format_params(tree, content@, node as int, params@, k as int);
                assert(text@ =~= before->Lines_0[0] + param@ + if k + 1 < params@.len() {
                    ", "@
                } else {
                    Seq::<char>::empty()
                });
            }
        }
        k += 1;
    }
    Ok(text)
}

fn layout_statements(content: &[u8], tree: &SyntaxTree, node: usize, indent: bool) -> (r: Result<
    Vec<String>,
    FormatError,
>)
    requires
        tree.wf(),
        node < tree.nodes@.len(),
    ensures
        formatted_of(r) == layout_all(tree, content@, node as int, indent),
    decreases tree.nodes@.len() - node, 1int, 0int,
{
    if string_from_utf8(content).is_err() {
        return Err(FormatError::Malformed(node));
    }
    let kids = statements_of(tree, node);
    let starts = find_line_starts(content);
    let ghost all_starts = line_starts(content@, 0);
    let ghost target = layout_all(tree, content@, node as int, indent);
    let mut lines: Vec<String> = Vec::new();
    let mut line: usize = 0;
    let mut next: usize = 0;
    let mut may_blank = false;
    assert(line_views(lines@) =~= Seq::<Seq<char>>::empty());
    assert(starts@.len() == all_starts.len()) by {
        assert(as_ints(starts@).len() == starts@.len());
    }
    while line < starts.len() && next < kids.len()
        invariant
            tree.wf(),
            node < tree.nodes@.len(),
            kids@ == statements(tree, node as int),
            forall|m: int| 0 <= m < kids@.len() ==> node < (#[trigger] kids@[m]) < tree.nodes@.len(),
            all_starts == as_ints(starts@),
            forall|m: int| 0 <= m < starts@.len() ==> (#[trigger] starts@[m]) < content@.len(),
            line <= starts@.len(),
            next <= kids@.len(),
            target == layout_all(tree, content@, node as int, indent),
            target == layout(
                tree,
                content@,
                node as int,
                kids@,
                all_starts,
                indent,
                Layout {
                    line: line as int,
                    next: next as int,
                    may_blank,
                    lines: line_views(lines@),
                },
            ),
        decreases (starts@.len() - line) + (kids@.len() - next),
    {
        let child = kids[next];
        assert(all_starts[line as int] == starts@[line as int]);
        if line >= tree.range(child).start_point.row {
            let part = match format_node(content, tree, child) {
                Ok(p) => p,
                Err(e) => {
                    return Err(e);
                },
            };
            append_lines(&mut lines, &part, indent);
            if next + 1 >= kids.len() {
                return Ok(lines);
            }
            let following = kids[next + 1];
            let blank = is_blank_line(content, starts[line]);
            if blank {
                push_blank(&mut lines);
            }
            may_blank = !blank;
            if line < tree.range(following).start_point.row {
                line += 1;
            }
            next += 1;
        } else {
            let blank = is_blank_line(content, starts[line]) && may_blank;
            if blank {
                push_blank(&mut lines);
                may_blank = false;
            }
            line += 1;
        }
    }
    Ok(lines)
}

/// Writes node `node` out as lines.
pub fn format_node(content: &[u8], tree: &SyntaxTree, node: usize) -> (r: Result<
    Vec<String>,
    FormatError,
>)
    requires
        tree.wf(),
        node < tree.nodes@.len(),
    ensures
        formatted_of(r) == format_lines(tree, content@, node as int),
    decreases tree.nodes@.len() - node, 2int, 0int,
{
    if tree.kind_is(node, "variable_declaration") {
        let name = match single(format_field_of(content, tree, node, "name"), node) {
            Ok(s) => s,
            Err(e) => {
                return Err(e);
            },
        };
        let ty = match single(format_field_of(content, tree, node, "type"), node) {
            Ok(s) => s,
            Err(e) => {
                return Err(e);
            },
        };
        let mut text = concat3(name.as_str(), ": ", ty.as_str());
        if tree.child_by_field_name(node, "value").is_some() {
            let value = match single(format_field_of(content, tree, node, "value"), node) {
                Ok(s) => s,
                Err(e) => {
                    return Err(e);
                },
            };
            text.append(" = ");
            text.append(value.as_str());
        }
        Ok(one_line(text))
    } else if tree.kind_is(node, "function_call") {
        let name = match single(format_field_of(content, tree, node, "name"), node) {
            Ok(s) => s,
            Err(e) => {
                return Err(e);
            },
        };
        let list = match format_arguments_of(content, tree, node) {
            Ok(s) => s,
            Err(e) => {
                return Err(e);
            },
        };
        let mut text = concat3(name.as_str(), "(", list.as_str());
        text.append(")");
        Ok(one_line(text))
    } else if check_token(tree, node) {
        Ok(one_line(token_string(node_get_content(content, tree, node))))
    } else if tree.kind_is(node, "argument") {
        format_child_of(content, tree, node, 0)
    } else if tree.kind_is(node, "binary_expression") {
        let left = match first(format_field_of(content, tree, node, "left"), node) {
            Ok(s) => s,
            Err(e) => {
                return Err(e);
            },
        };
        let right = match first(format_field_of(content, tree, node, "right"), node) {
            Ok(s) => s,
            Err(e) => {
                return Err(e);
            },
        };
        let op = match first(format_field_of(content, tree, node, "operator"), node) {
            Ok(s) => s,
            Err(e) => {
                return Err(e);
            },
        };
        let mut text = concat3(left.as_str(), " ", op.as_str());
        text.append(" ");
        text.append(right.as_str());
        Ok(one_line(text))
    } else if tree.kind_is(node, "unary_expression") {
        let operand = match first(format_field_of(content, tree, node, "operand"), node) {
            Ok(s) => s,
            Err(e) => {
                return Err(e);
            },
        };
        let op = match first(format_field_of(content, tree, node, "operator"), node) {
            Ok(s) => s,
            Err(e) => {
                return Err(e);
            },
        };
        let text = if crate::text::str_is(op.as_str(), "not") {
            concat2("not ", operand.as_str())
        } else {
            concat2(op.as_str(), operand.as_str())
        };
        Ok(one_line(text))
    } else if tree.kind_is(node, "contained_expression") {
        let expr = match first(format_child_of(content, tree, node, 1), node) {
            Ok(s) => s,
            Err(e) => {
                return Err(e);
            },
        };
        Ok(one_line(concat3("(", expr.as_str(), ")")))
    } else if tree.kind_is(node, "assignment") {
        let name = match first(format_field_of(content, tree, node, "name"), node) {
            Ok(s) => s,
            Err(e) => {
                return Err(e);
            },
        };
        let value = match first(format_field_of(content, tree, node, "value"), node) {
            Ok(s) => s,
            Err(e) => {
                return Err(e);
            },
        };
        Ok(one_line(concat3(name.as_str(), " = ", value.as_str())))
    } else if tree.kind_is(node, "return_statement") {
        let value = match first(format_field_of(content, tree, node, "value"), node) {
            Ok(s) => s,
            Err(e) => {
                return Err(e);
            },
        };
        Ok(one_line(concat2("return ", value.as_str())))
    } else if tree.kind_is(node, "if_statement") || tree.kind_is(node, "while_statement") {
        let keyword = if tree.kind_is(node, "if_statement") {
            "if"
        } else {
            "while"
        };
        let condition = match single(format_field_of(content, tree, node, "condition"), node) {
            Ok(s) => s,
            Err(e) => {
                return Err(e);
            },
        };
        let body = match format_field_of(content, tree, node, "body") {
            Ok(b) => b,
            Err(e) => {
                return Err(e);
            },
        };
        let head = concat3(keyword, " ", condition.as_str());
        let lines = match put_head(head.as_str(), body, node) {
            Ok(l) => l,
            Err(e) => {
                return Err(e);
            },
        };
        if tree.child_by_field_name(node, "else").is_some() {
            let part = match format_field_of(content, tree, node, "else") {
                Ok(p) => p,
                Err(e) => {
                    return Err(e);
                },
            };
            join_else(lines, part, node)
        } else {
            Ok(lines)
        }
    } else if tree.kind_is(node, "body") {
        let inner = match layout_statements(content, tree, node, true) {
            Ok(l) => l,
            Err(e) => {
                return Err(e);
            },
        };
        let mut lines = one_line("{".to_owned());
        append_lines(&mut lines, &inner, false);
        let kids = statements_of(tree, node);
        if kids.len() == 0 {
            push_blank(&mut lines);
        }
        let ghost so_far = line_views(lines@);
        lines.push("}".to_owned());
        assert(line_views(lines@) =~= so_far + seq!["}"@]);
        assert(line_views(lines@) =~= seq!["{"@] + (if statements(tree, node as int).len() == 0 {
            line_views(inner@).push(Seq::empty())
        } else {
            line_views(inner@)
        }) + seq!["}"@]);
        Ok(lines)
    } else if tree.kind_is(node, "source_file") {
        layout_statements(content, tree, node, false)
    } else if tree.kind_is(node, "function_declaration") {
        let name = match first(format_field_of(content, tree, node, "name"), node) {
            Ok(s) => s,
            Err(e) => {
                return Err(e);
            },
        };
        let body = match format_field_of(content, tree, node, "body") {
            Ok(b) => b,
            Err(e) => {
                return Err(e);
            },
        };
        let list = match format_params_of(content, tree, node) {
            Ok(s) => s,
            Err(e) => {
                return Err(e);
            },
        };
        let mut decl = concat3(name.as_str(), "(", list.as_str());
        decl.append(")");
        if tree.child_by_field_name(node, "ret_type").is_some() {
            let ret = match first(format_field_of(content, tree, node, "ret_type"), node) {
                Ok(s) => s,
                Err(e) => {
                    return Err(e);
                },
            };
            decl.append(" ");
            decl.append(ret.as_str());
        }
        put_head(decl.as_str(), body, node)
    } else if tree.kind_is(node, "function_parameter") {
        let name = match first(format_field_of(content, tree, node, "name"), node) {
            Ok(s) => s,
            Err(e) => {
                return Err(e);
            },
        };
        let ty = match first(format_field_of(content, tree, node, "type"), node) {
            Ok(s) => s,
            Err(e) => {
                return Err(e);
            },
        };
        Ok(one_line(concat3(name.as_str(), ": ", ty.as_str())))
    } else {
        Err(FormatError::Unsupported(node))
    }
}

/// The first `upto` lines, with a line feed between one and the next.
pub open spec fn joined(lines: Seq<Seq<char>>, upto: int) -> Seq<char>
    decreases upto,
{
    if upto <= 0 || upto > lines.len() {
        Seq::empty()
    } else if upto == 1 {
        lines[0]
    } else {
        joined(lines, upto - 1) + "\n"@ + lines[upto - 1]
    }
}

/// What formatting a document comes to: one edit that replaces the whole
/// document by its formatted lines; or why it could not be formatted.
pub enum FormattingAnswer {
    Edit(EditView),
    Failed(FormatError),
}

/// The answer to a formatting request for the document.
pub open spec fn formatting_answer(document: &Document) -> FormattingAnswer {
    match format_lines(&document.tree, document.content@, 0) {
        Formatted::Lines(lines) => FormattingAnswer::Edit(
            EditView {
                range: lsp_range(document.tree.nodes@[0].range),
                new_text: joined(lines, lines.len() as int),
            },
        ),
        Formatted::Failed(e) => FormattingAnswer::Failed(e),
    }
}

/// What a result of a formatting request stands for.
pub open spec fn answer_of(r: Result<TextEdit, FormatError>) -> FormattingAnswer {
    match r {
        Ok(edit) => FormattingAnswer::Edit(edit@),
        Err(e) => FormattingAnswer::Failed(e),
    }
}

/// Formats the whole document.
pub fn formatting_at(document: &Document) -> (r: Result<TextEdit, FormatError>)
    requires
        document.tree.wf(),
    ensures
        answer_of(r) == formatting_answer(document),
{
    let tree = &document.tree;
    let range = treesitter_range_to_lsp(&tree.range(0));
    let new_lines = match format_node(document.content.as_slice(), tree, 0) {
        Ok(l) => l,
        Err(e) => {
            return Err(e);
        },
    };
    let ghost lines = line_views(new_lines@);
    let mut text = String::new();
    let mut k: usize = 0;
    while k < new_lines.len()
        invariant
            k <= new_lines@.len(),
            lines == line_views(new_lines@),
            text@ == joined(lines, k as int),
        decreases new_lines@.len() - k,
    {
        if k > 0 {
            text.append("\n");
        }
        text.append(new_lines[k].as_str());
        assert(lines[k as int] == new_lines@[k as int]@);
        assert(text@ =~= joined(lines, k + 1));
        k += 1;
    }
    Ok(TextEdit::new(range, text))
}

} // verus!
