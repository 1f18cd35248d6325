//! Identifiers, text positions and ranges shared by the whole crate.
use vstd::prelude::*;

verus! {

/// Identifier of a source file.
#[derive(Clone, Copy, Debug, PartialEq, Eq, Structural)]
pub struct FileId(pub u32);

/// Identifier of a source root (a set of files).
#[derive(Clone, Copy, Debug, PartialEq, Eq, Structural)]
pub struct SourceRootId(pub u32);

/// Identifier of a crate in the crate graph.
#[derive(Clone, Copy, Debug, PartialEq, Eq, Structural)]
pub struct CrateId(pub u32);

/// Half-open interval `[start, end)` of character offsets in a file.
#[derive(Clone, Copy, Debug, PartialEq, Eq, Structural)]
pub struct TextRange {
    pub start: u32,
    pub end: u32,
}

impl TextRange {
    pub open spec fn wf(self) -> bool {
        self.start <= self.end
    }

    /// The range from `start` to `end`.
    pub fn from_to(start: u32, end: u32) -> (r: TextRange)
        requires
            start <= end,
        ensures
            r.start == start,
            r.end == end,
            r.wf(),
    {
        TextRange { start, end }
    }

    /// True when `self` lies entirely within `outer`.
    pub fn is_subrange_of(&self, outer: &TextRange) -> (r: bool)
        ensures
            r == (outer.start <= self.start && self.end <= outer.end),
    {
        outer.start <= self.start && self.end <= outer.end
    }

    /// True when `offset` lies in the closed interval `[start, end]`.
    pub fn touches(&self, offset: u32) -> (r: bool)
        ensures
            r == (self.start <= offset && offset <= self.end),
    {
        self.start <= offset && offset <= self.end
    }
}

/// A position in a file.
#[derive(Clone, Copy, Debug, PartialEq, Eq, Structural)]
pub struct FilePosition {
    pub file_id: FileId,
    pub offset: u32,
}

/// A range in a file.
#[derive(Clone, Copy, Debug, PartialEq, Eq, Structural)]
pub struct FileRange {
    pub file_id: FileId,
    pub range: TextRange,
}

/// Marker for a computation that was aborted because its revision went stale.
#[derive(Clone, Copy, Debug, PartialEq, Eq, Structural)]
pub struct Canceled;

/// A copy of a vector of plain values.
pub fn copy_vec<T: Copy>(v: &Vec<T>) -> (r: Vec<T>)
    ensures
        r@ == v@,
{
    let mut r: Vec<T> = Vec::new();
    let mut i: usize = 0;
    while i < v.len()
        invariant
            i <= v.len(),
            r@ == v@.take(i as int),
        decreases v.len() - i,
    {
        r.push(v[i]);
        i = i + 1;
        assert(r@ =~= v@.take(i as int));
    }
    assert(r@ =~= v@);
    r
}

} // verus!
