//! What holds of a text when the nodes that a rename edits are written over,
//! and written over again with the old name.

use crate::server::document::node_text;
use crate::server::locate_laws::lemma_root_encloses;
use crate::server::rename::{following_siblings, parent_or_root, RenameType};
use crate::server::rename_laws::{
    lemma_variable_rename_back_edits_the_same_nodes, names_are_tokens, rename_sites_in,
    renamed_document, variable_rename_sites,
};
use crate::server::rename_order_laws::{
    lemma_variable_rename_edits_in_document_order, lemma_variable_sites_are_nodes, walk_in_order,
};
use crate::syntax::{node_ok, SyntaxTree};
use vstd::prelude::*;
use vstd::utf8::encode_utf8;

verus! {

/// A span of bytes in a text, from `start` up to `end`.
pub struct Span {
    pub start: int,
    pub end: int,
}

/// The first `upto` spans lie in a text of `len` bytes, in order and without
/// overlap.
pub open spec fn spans_in_order(spans: Seq<Span>, upto: int, len: int) -> bool {
    &&& 0 <= upto <= spans.len()
    &&& forall|k: int| 0 <= k < upto ==> 0 <= (#[trigger] spans[k]).start <= spans[k].end <= len
    &&& forall|j: int, k: int|
        0 <= j < k < upto ==> (#[trigger] spans[j]).end <= (#[trigger] spans[k]).start
}

/// The text with `with` written over each of its first `upto` spans.
pub open spec fn written_over(text: Seq<u8>, spans: Seq<Span>, upto: int, with: Seq<u8>) -> Seq<u8>
    decreases upto,
{
    if upto <= 0 || upto > spans.len() {
        text
    } else {
        let s = spans[upto - 1];
        written_over(text.subrange(0, s.start), spans, upto - 1, with) + with + text.subrange(
            s.end,
            text.len() as int,
        )
    }
}

/// Each of the first `upto` spans of the text reads as `old`.
pub open spec fn all_read(text: Seq<u8>, spans: Seq<Span>, upto: int, old: Seq<u8>) -> bool {
    forall|k: int|
        0 <= k < upto ==> text.subrange((#[trigger] spans[k]).start, spans[k].end) == old
}

/// Where the first `upto` spans have gone once `with` is written over each
/// of them in the text: span `k` starts where the text before it, written
/// over, ends, and is as long as `with`.
pub open spec fn moved_spans(
    text: Seq<u8>,
    spans: Seq<Span>,
    moved: Seq<Span>,
    upto: int,
    with: Seq<u8>,
) -> bool {
    &&& upto <= moved.len()
    &&& forall|k: int|
        0 <= k < upto ==> (#[trigger] moved[k]).start == written_over(
            text.subrange(0, spans[k].start),
            spans,
            k,
            with,
        ).len() && moved[k].end == moved[k].start + with.len()
}

/// Writing the new name over the nodes that read as the old name, and then
/// the old name over the places to which they have gone, gives back the text
/// byte for byte.
pub proof fn lemma_written_back(
    text: Seq<u8>,
    spans: Seq<Span>,
    moved: Seq<Span>,
    upto: int,
    old: Seq<u8>,
    new: Seq<u8>,
)
    requires
        spans_in_order(spans, upto, text.len() as int),
        all_read(text, spans, upto, old),
        moved_spans(text, spans, moved, upto, new),
    ensures
        written_over(written_over(text, spans, upto, new), moved, upto, old) == text,
    decreases upto,
{
    if upto > 0 {
        let s = spans[upto - 1];
        let front = text.subrange(0, s.start);
        let back = text.subrange(s.end, text.len() as int);
        let front_new = written_over(front, spans, upto - 1, new);
        let after = written_over(text, spans, upto, new);
        assert(after == front_new + new + back);
        let m = moved[upto - 1];
        assert(m.start == front_new.len());
        assert(after.subrange(0, m.start) =~= front_new);
        assert(after.subrange(m.end, after.len() as int) =~= back);
        // The spans before the last lie in the front of the text.
        assert(spans_in_order(spans, upto - 1, front.len() as int)) by {
            assert forall|k: int| 0 <= k < upto - 1 implies 0 <= (#[trigger] spans[k]).start
                <= spans[k].end <= front.len() by {
                assert(spans[k].end <= spans[upto - 1].start);
            }
        }
        assert(all_read(front, spans, upto - 1, old)) by {
            assert forall|k: int| 0 <= k < upto - 1 implies front.subrange(
                (#[trigger] spans[k]).start,
                spans[k].end,
            ) == old by {
                assert(spans[k].end <= spans[upto - 1].start);
                assert(front.subrange(spans[k].start, spans[k].end) =~= text.subrange(
                    spans[k].start,
                    spans[k].end,
                ));
            }
        }
        assert(moved_spans(front, spans, moved, upto - 1, new)) by {
            assert forall|k: int| 0 <= k < upto - 1 implies (#[trigger] moved[k]).start
                == written_over(front.subrange(0, spans[k].start), spans, k, new).len()
                && moved[k].end == moved[k].start + new.len() by {
                assert(spans[k].end <= spans[upto - 1].start);
                assert(front.subrange(0, spans[k].start) =~= text.subrange(0, spans[k].start));
            }
        }
        lemma_written_back(front, spans, moved, upto - 1, old, new);
        assert(text.subrange(s.start, s.end) == old);
        assert(text =~= front + old + back);
    }
}

/// Where each span reads as `old`, writing `new` over the first `upto` of
/// them changes the length of the text `upto` times by the difference of
/// the two lengths: a span then moves by that much for each span before it.
pub proof fn lemma_written_over_len(
    text: Seq<u8>,
    spans: Seq<Span>,
    upto: int,
    old: Seq<u8>,
    new: Seq<u8>,
)
    requires
        spans_in_order(spans, upto, text.len() as int),
        all_read(text, spans, upto, old),
    ensures
        written_over(text, spans, upto, new).len() == text.len() + upto * (new.len() - old.len()),
    decreases upto,
{
    if upto > 0 {
        let s = spans[upto - 1];
        let front = text.subrange(0, s.start);
        assert(spans_in_order(spans, upto - 1, front.len() as int)) by {
            assert forall|k: int| 0 <= k < upto - 1 implies 0 <= (#[trigger] spans[k]).start
                <= spans[k].end <= front.len() by {
                assert(spans[k].end <= spans[upto - 1].start);
            }
        }
        assert(all_read(front, spans, upto - 1, old)) by {
            assert forall|k: int| 0 <= k < upto - 1 implies front.subrange(
                (#[trigger] spans[k]).start,
                spans[k].end,
            ) == old by {
                assert(spans[k].end <= spans[upto - 1].start);
                assert(front.subrange(spans[k].start, spans[k].end) =~= text.subrange(
                    spans[k].start,
                    spans[k].end,
                ));
            }
        }
        lemma_written_over_len(front, spans, upto - 1, old, new);
        assert(text.subrange(s.start, s.end) == old);
        assert(s.end - s.start == old.len());
        let d = new.len() - old.len();
        assert(upto * d == (upto - 1) * d + d) by (nonlinear_arith);
        let front_new = written_over(front, spans, upto - 1, new);
        assert(front_new.len() == front.len() + (upto - 1) * d);
        assert(written_over(text, spans, upto, new) == front_new + new + text.subrange(
            s.end,
            text.len() as int,
        ));
    } else {
        assert(upto * (new.len() - old.len()) == 0) by (nonlinear_arith)
            requires
                upto == 0,
        ;
    }
}

/// The spans of the nodes in the text of a tree.
pub open spec fn node_spans(tree: &SyntaxTree, nodes: Seq<int>) -> Seq<Span> {
    nodes.map_values(
        |n: int|
            Span {
                start: tree.nodes@[n].range.start_byte as int,
                end: tree.nodes@[n].range.end_byte as int,
            },
    )
}

/// Renaming and renaming back gives the text back byte for byte. Let `nodes`
/// be the nodes that a rename from the old name edits in the first document,
/// in the order of the text. Let the second text be the first with the new
/// name written over them, and let the same nodes lie, in the second tree,
/// where the new names now stand. Then the second text with the old name
/// written over these nodes is the first text.
///
/// That a rename from the new name in the second document edits these same
/// nodes is what `lemma_rename_back_edits_the_same_nodes` says. That the
/// second tree is as described is for the parser to see to.
pub proof fn lemma_rename_and_back_restores_the_text(
    a: &SyntaxTree,
    text_a: Seq<u8>,
    b: &SyntaxTree,
    text_b: Seq<u8>,
    nodes: Seq<int>,
    old_name: Seq<u8>,
    new_name: Seq<u8>,
)
    requires
        spans_in_order(node_spans(a, nodes), nodes.len() as int, text_a.len() as int),
        forall|k: int| 0 <= k < nodes.len() ==> node_text(a, text_a, #[trigger] nodes[k]) == old_name,
        text_b == written_over(text_a, node_spans(a, nodes), nodes.len() as int, new_name),
        moved_spans(text_a, node_spans(a, nodes), node_spans(b, nodes), nodes.len() as int, new_name),
    ensures
        written_over(text_b, node_spans(b, nodes), nodes.len() as int, old_name) == text_a,
{
    let spans = node_spans(a, nodes);
    assert(all_read(text_a, spans, nodes.len() as int, old_name)) by {
        assert forall|k: int| 0 <= k < nodes.len() implies text_a.subrange(
            (#[trigger] spans[k]).start,
            spans[k].end,
        ) == old_name by {
            assert(node_text(a, text_a, nodes[k]) == old_name);
        }
    }
    lemma_written_back(
        text_a,
        spans,
        node_spans(b, nodes),
        nodes.len() as int,
        old_name,
        new_name,
    );
}

/// Renaming a variable and renaming it back gives the text back byte for
/// byte. Let the rename of the variable declared by `decl` edit certain
/// nodes of the first document, and let the new name not occur after the
/// declaration, where the rename looks. Let the second text be the first
/// with the new name written over these nodes, and the second tree what
/// becomes of the first by it: of the same shape, with the renamed nodes
/// where the new names now stand, and every other token reading as before.
/// Then the rename from the new name in the second document edits the same
/// nodes, and the second text with the old name written over them is the
/// first text.
///
/// That the tree parsed from the second text is as described is for the
/// parser to see to, and so is the order of the fields under each node.
pub proof fn lemma_variable_rename_and_back_restores_the_text(
    a: &SyntaxTree,
    text_a: Seq<u8>,
    b: &SyntaxTree,
    text_b: Seq<u8>,
    decl: int,
    old_name: Seq<char>,
    new_name: Seq<char>,
)
    requires
        a.wf(),
        a.nodes@[0].range.end_byte <= text_a.len(),
        names_are_tokens(a),
        walk_in_order(a),
        0 <= decl < a.nodes@.len(),
        variable_rename_sites(a, text_a, decl, old_name) is Some,
        rename_sites_in(
            a,
            text_a,
            parent_or_root(a, decl),
            following_siblings(a, decl),
            following_siblings(a, decl).len() as int,
            new_name,
            RenameType::Variable,
        ).len() == 0,
        renamed_document(
            a,
            text_a,
            b,
            text_b,
            variable_rename_sites(a, text_a, decl, old_name)->0.to_set(),
            old_name,
            new_name,
        ),
        text_b == written_over(
            text_a,
            node_spans(a, variable_rename_sites(a, text_a, decl, old_name)->0),
            variable_rename_sites(a, text_a, decl, old_name)->0.len() as int,
            encode_utf8(new_name),
        ),
        moved_spans(
            text_a,
            node_spans(a, variable_rename_sites(a, text_a, decl, old_name)->0),
            node_spans(b, variable_rename_sites(a, text_a, decl, old_name)->0),
            variable_rename_sites(a, text_a, decl, old_name)->0.len() as int,
            encode_utf8(new_name),
        ),
    ensures
        variable_rename_sites(b, text_b, decl, new_name) == variable_rename_sites(
            a,
            text_a,
            decl,
            old_name,
        ),
        written_over(
            text_b,
            node_spans(b, variable_rename_sites(b, text_b, decl, new_name)->0),
            variable_rename_sites(b, text_b, decl, new_name)->0.len() as int,
            encode_utf8(old_name),
        ) == text_a,
{
    let sites = variable_rename_sites(a, text_a, decl, old_name)->0;
    let renamed = sites.to_set();
    let spans = node_spans(a, sites);
    assert forall|k: int| 0 <= k < sites.len() implies renamed.contains(#[trigger] sites[k]) by {
        assert(sites.contains(sites[k]));
    }
    lemma_variable_rename_back_edits_the_same_nodes(
        a,
        text_a,
        b,
        text_b,
        renamed,
        decl,
        old_name,
        new_name,
    );
    assert forall|k: int| 0 <= k < sites.len() implies 0 <= (#[trigger] spans[k]).start
        <= spans[k].end <= text_a.len() by {
        lemma_variable_sites_are_nodes(a, text_a, decl, old_name, k);
        lemma_root_encloses(a, sites[k]);
        assert(node_ok(a.nodes@, sites[k]));
    }
    assert forall|j: int, k: int| 0 <= j < k < sites.len() implies (#[trigger] spans[j]).end <= (
    #[trigger] spans[k]).start by {
        lemma_variable_rename_edits_in_document_order(a, text_a, decl, old_name, j, k);
    }
    lemma_rename_and_back_restores_the_text(
        a,
        text_a,
        b,
        text_b,
        sites,
        encode_utf8(old_name),
        encode_utf8(new_name),
    );
}

} // verus!
