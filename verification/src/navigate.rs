//! Looking things up in a [`SyntaxTree`]: children by field, and the smallest
//! node around a position.

use crate::syntax::{node_ok, opt_text, Point, Range, SyntaxTree};
use crate::text::str_is;
use vstd::prelude::*;

verus! {

/// The range spans the points from `start` to `end`: it starts at or before
/// `start`, ends at or after `end`, and reaches beyond `start`, unless it is
/// empty; an empty range spans the point at which it lies. A pair of points
/// out of order is spanned by no range.
pub open spec fn spans_points(r: Range, start: Point, end: Point) -> bool {
    &&& start.at_or_before(end)
    &&& r.start_point.at_or_before(start)
    &&& end.at_or_before(r.end_point)
    &&& (r.start_point == r.end_point || start.before(r.end_point))
}

/// The range spans the bytes from `start` to `end`: it starts at or before
/// `start`, ends at or after `end`, and reaches beyond `start`, unless it is
/// empty; an empty range spans the place at which it lies. A pair of places
/// out of order is spanned by no range.
pub open spec fn spans_bytes(r: Range, start: int, end: int) -> bool {
    &&& start <= end
    &&& r.start_byte <= start
    &&& end <= r.end_byte
    &&& (r.start_byte == r.end_byte || start < r.end_byte)
}

/// Whether the range spans the points from `start` to `end`.
pub fn range_spans_points(r: &Range, start: &Point, end: &Point) -> (b: bool)
    ensures
        b == spans_points(*r, *start, *end),
{
    start.is_at_or_before(end) && r.start_point.is_at_or_before(start) && end.is_at_or_before(
        &r.end_point,
    ) && (r.start_point == r.end_point || start.is_before(&r.end_point))
}

/// Whether the range spans the bytes from `start` to `end`.
pub fn range_spans_bytes(r: &Range, start: usize, end: usize) -> (b: bool)
    ensures
        b == spans_bytes(*r, start as int, end as int),
{
    start <= end && r.start_byte <= start && end <= r.end_byte && (r.start_byte == r.end_byte
        || start < r.end_byte)
}

impl SyntaxTree {
    /// Node `i` is of the kind `kind`.
    pub open spec fn is_kind(&self, i: int, kind: Seq<char>) -> bool {
        self.nodes@[i].kind@ == kind
    }

    /// Whether node `i` is of the kind `kind`.
    pub fn kind_is(&self, i: usize, kind: &str) -> (b: bool)
        requires
            i < self.nodes@.len(),
        ensures
            b == self.is_kind(i as int, kind@),
    {
        str_is(self.nodes[i].kind.as_str(), kind)
    }

    /// Node `i` fills the field `name` of its parent.
    pub open spec fn has_field(&self, i: int, name: Seq<char>) -> bool {
        opt_text(self.nodes@[i].field) == Some(name)
    }

    /// Whether node `i` fills the field `name` of its parent.
    pub fn field_is(&self, i: usize, name: &str) -> (b: bool)
        requires
            i < self.nodes@.len(),
        ensures
            b == self.has_field(i as int, name@),
    {
        match &self.nodes[i].field {
            Some(f) => str_is(f.as_str(), name),
            None => false,
        }
    }

    /// The first child of `i`, from position `from` on, that fills the field
    /// `name`.
    pub open spec fn first_with_field(&self, i: int, name: Seq<char>, from: int) -> Option<usize>
        decreases self.nodes@[i].children@.len() - from,
    {
        let kids = self.nodes@[i].children@;
        if from < 0 || from >= kids.len() {
            None
        } else if self.has_field(kids[from] as int, name) {
            Some(kids[from])
        } else {
            self.first_with_field(i, name, from + 1)
        }
    }

    /// The first child of `i` that fills the field `name`.
    pub open spec fn spec_child_by_field(&self, i: int, name: Seq<char>) -> Option<usize> {
        self.first_with_field(i, name, 0)
    }

    /// The first child of `i` that fills the field `name`.
    pub fn child_by_field_name(&self, i: usize, name: &str) -> (c: Option<usize>)
        requires
            self.wf(),
            i < self.nodes@.len(),
        ensures
            c == self.spec_child_by_field(i as int, name@),
            c matches Some(j) ==> i < j < self.nodes@.len() && self.nodes@[j as int].parent
                == Some(i) && self.has_field(j as int, name@),
    {
        let count = self.nodes[i].children.len();
        let mut k: usize = 0;
        assert(node_ok(self.nodes@, i as int));
        while k < count
            invariant
                self.wf(),
                i < self.nodes@.len(),
                count == self.nodes@[i as int].children@.len(),
                k <= count,
                self.first_with_field(i as int, name@, k as int) == self.spec_child_by_field(
                    i as int,
                    name@,
                ),
            decreases count - k,
        {
            let c = self.nodes[i].children[k];
            assert(node_ok(self.nodes@, i as int));
            if self.field_is(c, name) {
                return Some(c);
            }
            k += 1;
        }
        None
    }

    /// The children of `i` among its first `upto` that fill the field `name`,
    /// in order.
    pub open spec fn with_field_upto(&self, i: int, name: Seq<char>, upto: int) -> Seq<usize>
        decreases upto,
    {
        let kids = self.nodes@[i].children@;
        if upto <= 0 || upto > kids.len() {
            Seq::empty()
        } else if self.has_field(kids[upto - 1] as int, name) {
            self.with_field_upto(i, name, upto - 1).push(kids[upto - 1])
        } else {
            self.with_field_upto(i, name, upto - 1)
        }
    }

    /// All children of `i` that fill the field `name`, in order.
    pub open spec fn spec_children_by_field(&self, i: int, name: Seq<char>) -> Seq<usize> {
        self.with_field_upto(i, name, self.nodes@[i].children@.len() as int)
    }

    /// All children of `i` that fill the field `name`, in order.
    pub fn children_by_field_name(&self, i: usize, name: &str) -> (r: Vec<usize>)
        requires
            self.wf(),
            i < self.nodes@.len(),
        ensures
            r@ == self.spec_children_by_field(i as int, name@),
            forall|k: int|
                0 <= k < r@.len() ==> i < (#[trigger] r@[k]) < self.nodes@.len() && self.has_field(
                    r@[k] as int,
                    name@,
                ),
    {
        let count = self.nodes[i].children.len();
        let mut out: Vec<usize> = Vec::new();
        let mut k: usize = 0;
        while k < count
            invariant
                self.wf(),
                i < self.nodes@.len(),
                count == self.nodes@[i as int].children@.len(),
                k <= count,
                out@ == self.with_field_upto(i as int, name@, k as int),
                forall|m: int|
                    0 <= m < out@.len() ==> i < (#[trigger] out@[m]) < self.nodes@.len()
                        && self.has_field(out@[m] as int, name@),
            decreases count - k,
        {
            let c = self.nodes[i].children[k];
            assert(node_ok(self.nodes@, i as int));
            if self.field_is(c, name) {
                out.push(c);
            }
            k += 1;
        }
        out
    }

    /// The first child of `i`, from position `from` on, whose range spans the
    /// points.
    pub open spec fn child_at_points(&self, i: int, start: Point, end: Point, from: int) -> Option<
        usize,
    >
        decreases self.nodes@[i].children@.len() - from,
    {
        let kids = self.nodes@[i].children@;
        if from < 0 || from >= kids.len() {
            None
        } else if spans_points(self.nodes@[kids[from] as int].range, start, end) {
            Some(kids[from])
        } else {
            self.child_at_points(i, start, end, from + 1)
        }
    }

    /// Where a descent from `i` towards the points ends: it enters, level by
    /// level, the child that spans them, and remembers in `best` the last
    /// node entered (the last named one, when `named_only`).
    pub open spec fn descend_points(
        &self,
        i: int,
        start: Point,
        end: Point,
        named_only: bool,
        best: usize,
    ) -> usize
        decreases self.nodes@.len() - i,
    {
        match self.child_at_points(i, start, end, 0) {
            Some(c) => if i < c < self.nodes@.len() {
                self.descend_points(
                    c as int,
                    start,
                    end,
                    named_only,
                    if !named_only || self.nodes@[c as int].named {
                        c
                    } else {
                        best
                    },
                )
            } else {
                best
            },
            None => best,
        }
    }

    /// The smallest node at or below `i` that spans the points from `start`
    /// to `end` (the smallest named one, when `named_only`); `i` itself when
    /// no child spans them.
    pub open spec fn spec_descendant_for_point_range(
        &self,
        i: int,
        start: Point,
        end: Point,
        named_only: bool,
    ) -> usize {
        self.descend_points(i, start, end, named_only, i as usize)
    }

    fn find_child_at_points(&self, i: usize, start: &Point, end: &Point) -> (c: Option<usize>)
        requires
            self.wf(),
            i < self.nodes@.len(),
        ensures
            c == self.child_at_points(i as int, *start, *end, 0),
            c matches Some(j) ==> i < j < self.nodes@.len(),
    {
        let count = self.nodes[i].children.len();
        let mut k: usize = 0;
        while k < count
            invariant
                self.wf(),
                i < self.nodes@.len(),
                count == self.nodes@[i as int].children@.len(),
                k <= count,
                self.child_at_points(i as int, *start, *end, k as int) == self.child_at_points(
                    i as int,
                    *start,
                    *end,
                    0,
                ),
            decreases count - k,
        {
            let c = self.nodes[i].children[k];
            assert(node_ok(self.nodes@, i as int));
            if range_spans_points(&self.nodes[c].range, start, end) {
                return Some(c);
            }
            k += 1;
        }
        None
    }

    /// The smallest node at or below `i` that spans the points from `start` to
    /// `end`; the smallest named one, when `named_only`.
    pub fn descendant_for_point_range(&self, i: usize, start: Point, end: Point, named_only: bool) -> (r:
        usize)
        requires
            self.wf(),
            i < self.nodes@.len(),
        ensures
            r == self.spec_descendant_for_point_range(i as int, start, end, named_only),
            i <= r < self.nodes@.len(),
    {
        let mut cur = i;
        let mut best = i;
        loop
            invariant
                self.wf(),
                i <= best <= cur < self.nodes@.len(),
                self.descend_points(cur as int, start, end, named_only, best)
                    == self.spec_descendant_for_point_range(i as int, start, end, named_only),
            ensures
                best == self.spec_descendant_for_point_range(i as int, start, end, named_only),
                i <= best < self.nodes@.len(),
            decreases self.nodes@.len() - cur,
        {
            match self.find_child_at_points(cur, &start, &end) {
                Some(c) => {
                    if !named_only || self.nodes[c].named {
                        best = c;
                    }
                    cur = c;
                },
                None => {
                    break ;
                },
            }
        }
        best
    }

    /// The first child of `i`, from position `from` on, whose range spans the
    /// bytes.
    pub open spec fn child_spanning(&self, i: int, start: int, end: int, from: int) -> Option<usize>
        decreases self.nodes@[i].children@.len() - from,
    {
        let kids = self.nodes@[i].children@;
        if from < 0 || from >= kids.len() {
            None
        } else if spans_bytes(self.nodes@[kids[from] as int].range, start, end) {
            Some(kids[from])
        } else {
            self.child_spanning(i, start, end, from + 1)
        }
    }

    /// Where a descent from `i` ends that enters, level by level, the child
    /// that spans the bytes.
    pub open spec fn descend_bytes(&self, i: int, start: int, end: int) -> usize
        decreases self.nodes@.len() - i,
    {
        match self.child_spanning(i, start, end, 0) {
            Some(c) => if i < c < self.nodes@.len() {
                self.descend_bytes(c as int, start, end)
            } else {
                i as usize
            },
            None => i as usize,
        }
    }

    fn find_child_spanning(&self, i: usize, start: usize, end: usize) -> (c: Option<usize>)
        requires
            self.wf(),
            i < self.nodes@.len(),
        ensures
            c == self.child_spanning(i as int, start as int, end as int, 0),
            c matches Some(j) ==> i < j < self.nodes@.len(),
    {
        let count = self.nodes[i].children.len();
        let mut k: usize = 0;
        while k < count
            invariant
                self.wf(),
                i < self.nodes@.len(),
                count == self.nodes@[i as int].children@.len(),
                k <= count,
                self.child_spanning(i as int, start as int, end as int, k as int)
                    == self.child_spanning(i as int, start as int, end as int, 0),
            decreases count - k,
        {
            let c = self.nodes[i].children[k];
            assert(node_ok(self.nodes@, i as int));
            if range_spans_bytes(&self.nodes[c].range, start, end) {
                return Some(c);
            }
            k += 1;
        }
        None
    }

    /// The smallest node at or below `i` that spans the bytes from `start` to
    /// `end`; `i` itself when no child spans them.
    pub fn descendant_for_byte_range(&self, i: usize, start: usize, end: usize) -> (r: usize)
        requires
            self.wf(),
            i < self.nodes@.len(),
        ensures
            r == self.descend_bytes(i as int, start as int, end as int),
            i <= r < self.nodes@.len(),
    {
        let mut cur = i;
        loop
            invariant
                self.wf(),
                i <= cur < self.nodes@.len(),
                self.descend_bytes(cur as int, start as int, end as int) == self.descend_bytes(
                    i as int,
                    start as int,
                    end as int,
                ),
            ensures
                cur == self.descend_bytes(i as int, start as int, end as int),
                i <= cur < self.nodes@.len(),
            decreases self.nodes@.len() - cur,
        {
            match self.find_child_spanning(cur, start, end) {
                Some(c) => {
                    cur = c;
                },
                None => {
                    break ;
                },
            }
        }
        cur
    }
}

} // verus!
