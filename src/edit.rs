//! The edit builder: accumulates disjoint replacements, a cursor offset and a
//! highlighted target range, and finalizes them into an immutable action.
use vstd::prelude::*;
use crate::input::TextRange;
use crate::indent::{leading_indent, reindent, leading_indent_of, reindented};

verus! {

/// Replace the text of `delete` by `insert`.
#[derive(Debug)]
pub struct AtomEdit {
    pub delete: TextRange,
    pub insert: Vec<char>,
}

/// A finalized edit: disjoint replacements ordered by where they start
/// (among ranges that start at the same offset, the shorter first, then in the
/// order they were recorded), an optional cursor offset and an optional
/// highlighted range.
#[derive(Debug)]
pub struct AssistAction {
    pub edit: Vec<AtomEdit>,
    pub cursor_position: Option<u32>,
    pub target: Option<TextRange>,
}

/// An edit was asked for over a range that overlaps one already recorded.
#[derive(Clone, Copy, Debug, PartialEq, Eq, Structural)]
pub struct OverlappingEdit;

/// Two ranges share no character, and neither lies strictly inside the other.
pub open spec fn disjoint(a: TextRange, b: TextRange) -> bool {
    a.end <= b.start || b.end <= a.start
}

pub open spec fn atoms_view(v: Seq<AtomEdit>) -> Seq<(TextRange, Seq<char>)> {
    v.map_values(|a: AtomEdit| (a.delete, a.insert@))
}

/// Every range is well formed and disjoint from every other one.
pub open spec fn pairwise_disjoint(es: Seq<(TextRange, Seq<char>)>) -> bool {
    &&& forall|i: int| 0 <= i < es.len() ==> (#[trigger] es[i]).0.wf()
    &&& forall|i: int, j: int| 0 <= i < es.len() && 0 <= j < es.len() && i != j ==> disjoint(
        #[trigger] es[i].0,
        #[trigger] es[j].0,
    )
}

/// `a` comes no later than `b`: by start, then by end.
pub open spec fn starts_before(a: TextRange, b: TextRange) -> bool {
    a.start < b.start || (a.start == b.start && a.end <= b.end)
}

/// The ranges are ordered by start, then by end.
pub open spec fn sorted_by_start(es: Seq<(TextRange, Seq<char>)>) -> bool {
    forall|i: int, j: int| 0 <= i < j < es.len() ==> starts_before(#[trigger] es[i].0, #[trigger] es[j].0)
}

/// Each range ends at or before every later one starts.
pub open spec fn chained(es: Seq<(TextRange, Seq<char>)>) -> bool {
    forall|i: int, j: int| 0 <= i < j < es.len() ==> (#[trigger] es[i].0).end <= (#[trigger] es[j].0).start
}

/// Sorted disjoint ranges are chained.
pub proof fn lemma_sorted_disjoint_chained(es: Seq<(TextRange, Seq<char>)>)
    requires
        pairwise_disjoint(es),
        sorted_by_start(es),
    ensures
        chained(es),
{
    assert forall|i: int, j: int| 0 <= i < j < es.len() implies (#[trigger] es[i].0).end <= (#[trigger] es[j].0).start by {
        assert(disjoint(es[i].0, es[j].0));
        assert(starts_before(es[i].0, es[j].0));
    }
}

/// `new` is `old` with `(range, text)` placed after every recorded range
/// that comes no later than it and before every other one.
pub open spec fn recorded_in_order(
    old: Seq<(TextRange, Seq<char>)>,
    range: TextRange,
    text: Seq<char>,
    new: Seq<(TextRange, Seq<char>)>,
) -> bool {
    exists|p: int|
        0 <= p <= old.len()
        && (forall|k: int| 0 <= k < p ==> starts_before(#[trigger] old[k].0, range))
        && (forall|k: int| p <= k < old.len() ==> !starts_before(#[trigger] old[k].0, range))
        && new == old.insert(p, (range, text))
}

/// Some recorded range overlaps `range`.
pub open spec fn overlaps_any(es: Seq<(TextRange, Seq<char>)>, range: TextRange) -> bool {
    exists|i: int| 0 <= i < es.len() && !disjoint(#[trigger] es[i].0, range)
}

impl AssistAction {
    pub open spec fn edits(&self) -> Seq<(TextRange, Seq<char>)> {
        atoms_view(self.edit@)
    }
}

/// Accumulates the edit of one assist.
pub struct AssistBuilder {
    edit: Vec<AtomEdit>,
    cursor_position: Option<u32>,
    target: Option<TextRange>,
}

impl AssistBuilder {
    pub closed spec fn edits(&self) -> Seq<(TextRange, Seq<char>)> {
        atoms_view(self.edit@)
    }

    pub closed spec fn cursor(&self) -> Option<u32> {
        self.cursor_position
    }

    pub closed spec fn target_range(&self) -> Option<TextRange> {
        self.target
    }

    /// The recorded ranges are well formed, pairwise disjoint, and kept
    /// ordered by start.
    pub open spec fn wf(&self) -> bool {
        pairwise_disjoint(self.edits()) && sorted_by_start(self.edits())
    }

    #[verifier::type_invariant]
    spec fn inv(&self) -> bool {
        self.wf()
    }

    pub open spec fn is_empty(&self) -> bool {
        &&& self.edits() == Seq::<(TextRange, Seq<char>)>::empty()
        &&& self.cursor() is None
        &&& self.target_range() is None
    }

    /// A builder with no edits, cursor or target.
    pub fn new() -> (r: AssistBuilder)
        ensures
            r.is_empty(),
            r.wf(),
    {
        let r = AssistBuilder { edit: Vec::new(), cursor_position: None, target: None };
        assert(r.edits() =~= Seq::<(TextRange, Seq<char>)>::empty());
        r
    }

    /// Records the replacement of `range` by `replace_with`, in order of
    /// start; rejected, with nothing recorded, when `range` overlaps a range
    /// already recorded.
    pub fn replace(&mut self, range: TextRange, replace_with: Vec<char>) -> (r: Result<(), OverlappingEdit>)
        requires
            range.wf(),
        ensures
            final(self).cursor() == old(self).cursor(),
            final(self).target_range() == old(self).target_range(),
            r is Err <==> overlaps_any(old(self).edits(), range),
            r is Err ==> final(self).edits() == old(self).edits(),
            r is Ok ==> recorded_in_order(old(self).edits(), range, replace_with@, final(self).edits()),
    {
        proof {
            use_type_invariant(&*self);
        }
        let mut i: usize = 0;
        while i < self.edit.len()
            invariant
                i <= self.edit@.len(),
                range.wf(),
                forall|j: int| 0 <= j < i ==> disjoint(#[trigger] self.edits()[j].0, range),
            decreases self.edit.len() - i,
        {
            let d = self.edit[i].delete;
            if !(d.end <= range.start || range.end <= d.start) {
                assert(!disjoint(self.edits()[i as int].0, range));
                return Err(OverlappingEdit);
            }
            i = i + 1;
        }
        let mut p: usize = 0;
        while p < self.edit.len() && (self.edit[p].delete.start < range.start || (self.edit[p].delete.start
            == range.start && self.edit[p].delete.end <= range.end))
            invariant
                p <= self.edit@.len(),
                forall|k: int| 0 <= k < p ==> starts_before(#[trigger] self.edits()[k].0, range),
            decreases self.edit.len() - p,
        {
            p = p + 1;
        }
        let ghost pre = self.edits();
        let ghost x = (range, replace_with@);
        proof {
            assert forall|k: int| p <= k < pre.len() implies !starts_before(#[trigger] pre[k].0, range) by {
                assert(starts_before(pre[p as int].0, pre[k].0) || k == p);
            }
            let post = pre.insert(p as int, x);
            assert forall|i: int| 0 <= i < post.len() implies (#[trigger] post[i]).0.wf() by {
                if i > p {
                    assert(post[i] == pre[i - 1]);
                }
            }
            assert forall|i: int, j: int| 0 <= i < post.len() && 0 <= j < post.len() && i != j implies disjoint(
                #[trigger] post[i].0,
                #[trigger] post[j].0,
            ) by {
                let a = if i < p { i } else { i - 1 };
                let b = if j < p { j } else { j - 1 };
                if i != p && j != p {
                    assert(post[i] == pre[a] && post[j] == pre[b]);
                } else if i == p {
                    assert(post[j] == pre[b]);
                } else {
                    assert(post[i] == pre[a]);
                }
            }
            assert forall|i: int, j: int| 0 <= i < j < post.len() implies starts_before(
                #[trigger] post[i].0,
                #[trigger] post[j].0,
            ) by {
                let a = if i < p { i } else { i - 1 };
                let b = if j < p { j } else { j - 1 };
                if i != p && j != p {
                    assert(post[i] == pre[a] && post[j] == pre[b]);
                } else if i == p {
                    assert(post[j] == pre[b]);
                    assert(!starts_before(pre[b].0, range));
                } else {
                    assert(post[i] == pre[a]);
                }
            }
        }
        let mut edits: Vec<AtomEdit> = Vec::new();
        std::mem::swap(&mut self.edit, &mut edits);
        edits.insert(p, AtomEdit { delete: range, insert: replace_with });
        assert(atoms_view(edits@) =~= pre.insert(p as int, x));
        std::mem::swap(&mut self.edit, &mut edits);
        Ok(())
    }

    /// Records the deletion of `range`.
    pub fn delete(&mut self, range: TextRange) -> (r: Result<(), OverlappingEdit>)
        requires
            range.wf(),
        ensures
            final(self).cursor() == old(self).cursor(),
            final(self).target_range() == old(self).target_range(),
            r is Err <==> overlaps_any(old(self).edits(), range),
            r is Err ==> final(self).edits() == old(self).edits(),
            r is Ok ==> recorded_in_order(old(self).edits(), range, Seq::<char>::empty(), final(self).edits()),
    {
        let r = self.replace(range, Vec::new());
        r
    }

    /// Records the insertion of `text` at `offset`.
    pub fn insert(&mut self, offset: u32, text: Vec<char>) -> (r: Result<(), OverlappingEdit>)
        ensures
            final(self).cursor() == old(self).cursor(),
            final(self).target_range() == old(self).target_range(),
            r is Err <==> overlaps_any(old(self).edits(), TextRange { start: offset, end: offset }),
            r is Err ==> final(self).edits() == old(self).edits(),
            r is Ok ==> recorded_in_order(old(self).edits(), TextRange { start: offset, end: offset }, text@, final(self).edits()),
    {
        self.replace(TextRange { start: offset, end: offset }, text)
    }

    /// Replaces the node spanning `node` in `file_text` by `replace_with`,
    /// re-indenting every line of it but the first by the indentation in
    /// front of the node.
    pub fn replace_node_and_indent(&mut self, file_text: &Vec<char>, node: TextRange, replace_with: Vec<char>) -> (r: Result<(), OverlappingEdit>)
        requires
            node.wf(),
            node.end <= file_text@.len(),
        ensures
            final(self).cursor() == old(self).cursor(),
            final(self).target_range() == old(self).target_range(),
            r is Err <==> overlaps_any(old(self).edits(), node),
            r is Err ==> final(self).edits() == old(self).edits(),
            r is Ok ==> recorded_in_order(old(self).edits(), node, match leading_indent_of(file_text@, node.start as int) {
                Some(ind) => reindented(replace_with@, ind),
                None => replace_with@,
            }, final(self).edits()),
    {
        let text = match leading_indent(file_text, node.start as usize) {
            Some(ind) => reindent(&replace_with, &ind),
            None => replace_with,
        };
        self.replace(node, text)
    }

    /// Sets the cursor offset, replacing any earlier one.
    pub fn set_cursor(&mut self, offset: u32)
        ensures
            final(self).edits() == old(self).edits(),
            final(self).cursor() == Some(offset),
            final(self).target_range() == old(self).target_range(),
    {
        proof {
            use_type_invariant(&*self);
        }
        self.cursor_position = Some(offset);
    }

    /// Sets the highlighted range, replacing any earlier one.
    pub fn target(&mut self, target: TextRange)
        ensures
            final(self).edits() == old(self).edits(),
            final(self).cursor() == old(self).cursor(),
            final(self).target_range() == Some(target),
    {
        proof {
            use_type_invariant(&*self);
        }
        self.target = Some(target);
    }

    /// Finalizes the builder into an action; the builder is consumed. The
    /// action holds the recorded edits ordered by start, each ending at or
    /// before the next one starts.
    pub fn build(self) -> (r: AssistAction)
        ensures
            r.edits() == self.edits(),
            sorted_by_start(r.edits()),
            chained(r.edits()),
            pairwise_disjoint(r.edits()),
            r.cursor_position == self.cursor(),
            r.target == self.target_range(),
    {
        proof {
            use_type_invariant(&self);
            lemma_sorted_disjoint_chained(self.edits());
        }
        AssistAction { edit: self.edit, cursor_position: self.cursor_position, target: self.target }
    }
}

} // verus!
