//! The incremental database: an input store that advances a revision on every
//! write, memoized derived queries that record the inputs they read, and
//! read sessions that are canceled when a write makes them stale.
use vstd::prelude::*;
use crate::input::{FileId, SourceRootId, CrateId, Canceled, copy_vec};
use crate::syntax::{Parse, parse_text, is_tokenization};

verus! {

/// Identity of an input fact.
#[derive(Clone, Copy, Debug, PartialEq, Eq, Structural)]
pub enum InputKey {
    FileText(FileId),
    FileRelativePath(FileId),
    FileSourceRoot(FileId),
    SourceRoot(SourceRootId),
    CrateGraph,
}

/// Failure of a query.
#[derive(Clone, Copy, Debug, PartialEq, Eq, Structural)]
pub enum QueryError {
    /// The input was read before it was ever set.
    UnknownKey,
    /// A write made the read session stale; retry against the new revision.
    Canceled,
}

/// A read session: the revision it runs against and the inputs it has read.
pub struct QueryCtx {
    revision: u64,
    deps: Vec<InputKey>,
}

impl QueryCtx {
    pub closed spec fn snapshot(&self) -> nat {
        self.revision as nat
    }

    pub closed spec fn reads(&self) -> Seq<InputKey> {
        self.deps@
    }

    /// The revision this session runs against.
    pub fn revision(&self) -> (r: u64)
        ensures
            r == self.snapshot(),
    {
        self.revision
    }
}

struct Input<V> {
    value: V,
    changed_at: u64,
}

struct Memo<V> {
    value: V,
    verified_at: u64,
    deps: Vec<InputKey>,
}

/// Writes `v` at `idx`, growing `slots` with empty entries as needed.
fn put_slot<T>(slots: &mut Vec<Option<T>>, idx: usize, v: T)
    ensures
        final(slots)@.len() == if idx < old(slots)@.len() { old(slots)@.len() as int } else { idx + 1 },
        final(slots)@[idx as int] == Some(v),
        forall|j: int| 0 <= j < old(slots)@.len() && j != idx ==> final(slots)@[j] == old(slots)@[j],
        forall|j: int| old(slots)@.len() <= j < final(slots)@.len() && j != idx ==> final(slots)@[j] is None,
{
    while slots.len() <= idx
        invariant
            old(slots)@.len() <= slots@.len() <= if idx < old(slots)@.len() { old(slots)@.len() as int } else { idx + 1 },
            forall|j: int| 0 <= j < old(slots)@.len() ==> slots@[j] == old(slots)@[j],
            forall|j: int| old(slots)@.len() <= j < slots@.len() ==> slots@[j] is None,
        decreases idx + 1 - slots.len(),
    {
        slots.push(None);
    }
    slots[idx] = Some(v);
}

/// The crate rooted at `f`: the index of the first entry of `roots` equal to `f`.
pub open spec fn crate_of_root(roots: Seq<FileId>, f: FileId) -> Option<CrateId>
    decreases roots.len(),
{
    if roots.len() == 0 {
        None
    } else {
        match crate_of_root(roots.drop_last(), f) {
            Some(c) => Some(c),
            None => if roots.last() == f {
                Some(CrateId((roots.len() - 1) as u32))
            } else {
                None
            },
        }
    }
}

/// The crates whose root files are among `files`, in the order of `files`.
pub open spec fn crates_of(files: Seq<FileId>, roots: Seq<FileId>) -> Seq<CrateId>
    decreases files.len(),
{
    if files.len() == 0 {
        Seq::empty()
    } else {
        let rest = crates_of(files.drop_last(), roots);
        match crate_of_root(roots, files.last()) {
            Some(c) => rest.push(c),
            None => rest,
        }
    }
}


/// A parse computed against a revision snapshot, not yet written to the cache.
pub struct PendingParse {
    file: FileId,
    revision: u64,
    deps: Vec<InputKey>,
    parse: Parse,
}

impl PendingParse {
    pub closed spec fn file(&self) -> FileId {
        self.file
    }

    pub closed spec fn snapshot(&self) -> nat {
        self.revision as nat
    }

    pub closed spec fn text(&self) -> Seq<char> {
        self.parse.text@
    }

    pub closed spec fn tokens(&self) -> Seq<crate::input::TextRange> {
        self.parse.tokens@
    }

    pub closed spec fn reads(&self) -> Seq<InputKey> {
        self.deps@
    }

    /// The pending value is a tokenization of the text read, and the text of
    /// its file is the one input read.
    pub open spec fn well_formed(&self) -> bool {
        &&& is_tokenization(self.text(), self.tokens())
        &&& self.reads() == seq![InputKey::FileText(self.file())]
    }
}

/// True when the two sequences are equal.
fn same_chars(a: &Vec<char>, b: &Vec<char>) -> (r: bool)
    ensures
        r == (a@ == b@),
{
    if a.len() != b.len() {
        return false;
    }
    let mut i: usize = 0;
    while i < a.len()
        invariant
            a@.len() == b@.len(),
            i <= a@.len(),
            forall|j: int| 0 <= j < i ==> a@[j] == b@[j],
        decreases a.len() - i,
    {
        if a[i] != b[i] {
            return false;
        }
        i = i + 1;
    }
    assert(a@ =~= b@);
    true
}

/// The crate rooted at file `f`, if any: the first crate whose root is `f`.
pub fn crate_id_for_crate_root(roots: &Vec<FileId>, f: FileId) -> (r: Option<CrateId>)
    requires
        roots@.len() <= u32::MAX + 1,
    ensures
        r == crate_of_root(roots@, f),
{
    let mut i: usize = 0;
    while i < roots.len()
        invariant
            i <= roots@.len() <= u32::MAX + 1,
            crate_of_root(roots@.take(i as int), f) is None,
        decreases roots.len() - i,
    {
        assert(roots@.take(i as int + 1).drop_last() =~= roots@.take(i as int));
        if roots[i] == f {
            proof {
                lemma_crate_of_root_prefix(roots@, f, i as int + 1);
            }
            return Some(CrateId(i as u32));
        }
        i = i + 1;
    }
    assert(roots@.take(i as int) =~= roots@);
    None
}

/// Once found in a prefix, the crate of a root stays the same in longer prefixes.
proof fn lemma_crate_of_root_prefix(roots: Seq<FileId>, f: FileId, n: int)
    requires
        0 < n <= roots.len(),
        crate_of_root(roots.take(n), f) is Some,
    ensures
        crate_of_root(roots, f) == crate_of_root(roots.take(n), f),
    decreases roots.len() - n,
{
    if n < roots.len() {
        assert(roots.take(n + 1).drop_last() =~= roots.take(n));
        lemma_crate_of_root_prefix(roots, f, n + 1);
    } else {
        assert(roots.take(n) =~= roots);
    }
}

/// The crates rooted at the given files, in the order of `files`.
pub fn crates_for_files(files: &Vec<FileId>, roots: &Vec<FileId>) -> (r: Vec<CrateId>)
    requires
        roots@.len() <= u32::MAX + 1,
    ensures
        r@ == crates_of(files@, roots@),
{
    let mut res: Vec<CrateId> = Vec::new();
    let mut i: usize = 0;
    while i < files.len()
        invariant
            i <= files@.len(),
            roots@.len() <= u32::MAX + 1,
            res@ == crates_of(files@.take(i as int), roots@),
        decreases files.len() - i,
    {
        assert(files@.take(i as int + 1).drop_last() =~= files@.take(i as int));
        if let Some(c) = crate_id_for_crate_root(roots, files[i]) {
            res.push(c);
        }
        i = i + 1;
    }
    assert(files@.take(i as int) =~= files@);
    res
}

/// The crate graph: crate `i` is rooted at `crate_roots[i]`, and each pair
/// `(from, to)` of `dependencies` says that crate `from` depends on `to`.
pub struct CrateGraph {
    pub crate_roots: Vec<FileId>,
    pub dependencies: Vec<(CrateId, CrateId)>,
}

/// The database: inputs, memo tables and the current revision.
pub struct SourceDatabase {
    revision: u64,
    file_texts: Vec<Option<Input<Vec<char>>>>,
    file_paths: Vec<Option<Input<String>>>,
    file_roots: Vec<Option<Input<SourceRootId>>>,
    source_roots: Vec<Option<Input<Vec<FileId>>>>,
    crate_graph: Option<Input<CrateGraph>>,
    parses: Vec<Option<Memo<Parse>>>,
    root_crates: Vec<Option<Memo<Vec<CrateId>>>>,
}

impl SourceDatabase {
    /// The current revision.
    pub closed spec fn rev(&self) -> nat {
        self.revision as nat
    }

    /// Text of a file, if it was set.
    pub closed spec fn text_of(&self, f: FileId) -> Option<Seq<char>> {
        if (f.0 as int) < self.file_texts@.len() {
            match self.file_texts@[f.0 as int] {
                Some(i) => Some(i.value@),
                None => None,
            }
        } else {
            None
        }
    }

    /// Path of a file relative to its source root, if it was set.
    pub closed spec fn path_of(&self, f: FileId) -> Option<Seq<char>> {
        if (f.0 as int) < self.file_paths@.len() {
            match self.file_paths@[f.0 as int] {
                Some(i) => Some(i.value@),
                None => None,
            }
        } else {
            None
        }
    }

    /// Source root of a file, if it was set.
    pub closed spec fn source_root_of(&self, f: FileId) -> Option<SourceRootId> {
        if (f.0 as int) < self.file_roots@.len() {
            match self.file_roots@[f.0 as int] {
                Some(i) => Some(i.value),
                None => None,
            }
        } else {
            None
        }
    }

    /// Files of a source root, if it was set.
    pub closed spec fn root_files(&self, id: SourceRootId) -> Option<Seq<FileId>> {
        if (id.0 as int) < self.source_roots@.len() {
            match self.source_roots@[id.0 as int] {
                Some(i) => Some(i.value@),
                None => None,
            }
        } else {
            None
        }
    }

    /// Root file of each crate (crate `i` is rooted at entry `i`), if set.
    pub closed spec fn graph_roots(&self) -> Option<Seq<FileId>> {
        match self.crate_graph {
            Some(i) => Some(i.value.crate_roots@),
            None => None,
        }
    }

    /// Dependency edges of the crate graph, if it was set.
    pub closed spec fn graph_edges(&self) -> Option<Seq<(CrateId, CrateId)>> {
        match self.crate_graph {
            Some(i) => Some(i.value.dependencies@),
            None => None,
        }
    }

    /// The revision at which an input was last written, if it was set.
    pub closed spec fn changed_at(&self, k: InputKey) -> Option<nat> {
        match k {
            InputKey::FileText(f) => if (f.0 as int) < self.file_texts@.len() {
                match self.file_texts@[f.0 as int] {
                    Some(i) => Some(i.changed_at as nat),
                    None => None,
                }
            } else {
                None
            },
            InputKey::FileRelativePath(f) => if (f.0 as int) < self.file_paths@.len() {
                match self.file_paths@[f.0 as int] {
                    Some(i) => Some(i.changed_at as nat),
                    None => None,
                }
            } else {
                None
            },
            InputKey::FileSourceRoot(f) => if (f.0 as int) < self.file_roots@.len() {
                match self.file_roots@[f.0 as int] {
                    Some(i) => Some(i.changed_at as nat),
                    None => None,
                }
            } else {
                None
            },
            InputKey::SourceRoot(id) => if (id.0 as int) < self.source_roots@.len() {
                match self.source_roots@[id.0 as int] {
                    Some(i) => Some(i.changed_at as nat),
                    None => None,
                }
            } else {
                None
            },
            InputKey::CrateGraph => match self.crate_graph {
                Some(i) => Some(i.changed_at as nat),
                None => None,
            },
        }
    }

    /// Every input in `deps` is set and unchanged since revision `at`.
    pub open spec fn deps_fresh(&self, deps: Seq<InputKey>, at: nat) -> bool {
        forall|i: int|
            0 <= i < deps.len() ==> ((#[trigger] self.changed_at(deps[i])) matches Some(c) && c <= at)
    }

    /// The memoized parse of a file: text, tokens, verified-at revision, reads.
    pub closed spec fn parse_memo(&self, f: FileId) -> Option<
        (Seq<char>, Seq<crate::input::TextRange>, nat, Seq<InputKey>),
    > {
        if (f.0 as int) < self.parses@.len() {
            match self.parses@[f.0 as int] {
                Some(m) => Some((m.value.text@, m.value.tokens@, m.verified_at as nat, m.deps@)),
                None => None,
            }
        } else {
            None
        }
    }

    /// The memoized crates of a source root: value, verified-at revision, reads.
    pub closed spec fn crates_memo(&self, id: SourceRootId) -> Option<
        (Seq<CrateId>, nat, Seq<InputKey>),
    > {
        if (id.0 as int) < self.root_crates@.len() {
            match self.root_crates@[id.0 as int] {
                Some(m) => Some((m.value@, m.verified_at as nat, m.deps@)),
                None => None,
            }
        } else {
            None
        }
    }

    /// The memoized parse of `f` exists and none of its reads changed since.
    pub open spec fn parse_fresh(&self, f: FileId) -> bool {
        self.parse_memo(f) matches Some(m) && self.deps_fresh(m.3, m.2)
    }

    /// The memoized crates of `id` exist and none of their reads changed since.
    pub open spec fn crates_fresh(&self, id: SourceRootId) -> bool {
        self.crates_memo(id) matches Some(m) && self.deps_fresh(m.2, m.1)
    }

    /// Stored texts have offsets that fit in `u32`; stamps never exceed the
    /// revision; a memo records exactly the inputs it reads and, while fresh,
    /// holds the value its computation gives on the current inputs.
    pub closed spec fn wf(&self) -> bool {
        &&& forall|f: FileId| #[trigger] self.text_of(f) matches Some(t) ==> t.len() <= u32::MAX
        &&& forall|k: InputKey| #[trigger] self.changed_at(k) matches Some(c) ==> c <= self.rev()
        &&& self.graph_roots() matches Some(rs) ==> rs.len() <= u32::MAX + 1
        &&& forall|f: FileId| #[trigger] self.parse_entry_ok(f)
        &&& forall|id: SourceRootId| #[trigger] self.crates_entry_ok(id)
    }

    /// The parse memo of `f`, if any, is stamped no later than now, reads
    /// exactly the text of `f`, holds a tokenization, and while fresh holds
    /// the current text.
    pub open spec fn parse_entry_ok(&self, f: FileId) -> bool {
        match self.parse_memo(f) {
            Some(m) => {
                &&& m.2 <= self.rev()
                &&& m.3 == seq![InputKey::FileText(f)]
                &&& is_tokenization(m.0, m.1)
                &&& self.deps_fresh(m.3, m.2) ==> self.text_of(f) == Some(m.0)
            },
            None => true,
        }
    }

    /// The crates memo of `id`, if any, is stamped no later than now, reads
    /// exactly the source root and the crate graph, and while fresh holds the
    /// crates computed from their current values.
    pub open spec fn crates_entry_ok(&self, id: SourceRootId) -> bool {
        match self.crates_memo(id) {
            Some(m) => {
                &&& m.1 <= self.rev()
                &&& m.2 == seq![InputKey::SourceRoot(id), InputKey::CrateGraph]
                &&& self.deps_fresh(m.2, m.1) ==> (self.root_files(id) matches Some(files)
                    && self.graph_roots() matches Some(roots) && m.0 == crates_of(files, roots))
            },
            None => true,
        }
    }

    /// `new` is `self` after one write to input `k`: the revision advanced
    /// by one, `k` is stamped with it, every other stamp and every memo entry
    /// is as it was.
    pub open spec fn wrote(&self, k: InputKey, new: &SourceDatabase) -> bool {
        &&& new.rev() == self.rev() + 1
        &&& new.changed_at(k) == Some(new.rev())
        &&& forall|j: InputKey| j != k ==> #[trigger] new.changed_at(j) == self.changed_at(j)
        &&& forall|g: FileId| #[trigger] new.parse_memo(g) == self.parse_memo(g)
        &&& forall|id: SourceRootId| #[trigger] new.crates_memo(id) == self.crates_memo(id)
    }

    /// Inputs and stamps of `self` and `other` agree.
    pub open spec fn same_inputs(&self, other: &SourceDatabase) -> bool {
        &&& self.rev() == other.rev()
        &&& forall|f: FileId| #[trigger] self.text_of(f) == other.text_of(f)
        &&& forall|f: FileId| #[trigger] self.path_of(f) == other.path_of(f)
        &&& forall|f: FileId| #[trigger] self.source_root_of(f) == other.source_root_of(f)
        &&& forall|id: SourceRootId| #[trigger] self.root_files(id) == other.root_files(id)
        &&& self.graph_roots() == other.graph_roots()
        &&& self.graph_edges() == other.graph_edges()
        &&& forall|k: InputKey| #[trigger] self.changed_at(k) == other.changed_at(k)
    }

    /// One write to input `k` keeps the database well formed, provided only
    /// `k`'s value changed and stored values stay within their limits.
    proof fn lemma_write_keeps_wf(pre: SourceDatabase, post: SourceDatabase, k: InputKey)
        requires
            pre.wf(),
            pre.wrote(k, &post),
            forall|f: FileId| k != InputKey::FileText(f) ==> #[trigger] post.text_of(f) == pre.text_of(f),
            forall|f: FileId| #[trigger] post.text_of(f) matches Some(t) ==> t.len() <= u32::MAX,
            forall|id: SourceRootId| k != InputKey::SourceRoot(id) ==> #[trigger] post.root_files(id) == pre.root_files(id),
            k != InputKey::CrateGraph ==> post.graph_roots() == pre.graph_roots(),
            post.graph_roots() matches Some(rs) ==> rs.len() <= u32::MAX + 1,
        ensures
            post.wf(),
    {
        assert forall|j: InputKey| #[trigger] post.changed_at(j) is Some implies post.changed_at(j).unwrap() <= post.rev() by {
            if j != k {
                assert(post.changed_at(j) == pre.changed_at(j));
            }
        }
        assert forall|g: FileId| #[trigger] post.parse_entry_ok(g) by {
            assert(pre.parse_memo(g) == post.parse_memo(g));
            assert(pre.parse_entry_ok(g));
            if let Some(m) = post.parse_memo(g) {
                if post.deps_fresh(m.3, m.2) {
                    assert(post.changed_at(m.3[0]) matches Some(c) && c <= m.2);
                    if m.3[0] != k {
                        assert(pre.changed_at(m.3[0]) == post.changed_at(m.3[0]));
                        assert(pre.deps_fresh(m.3, m.2));
                    }
                }
            }
        }
        assert forall|id: SourceRootId| #[trigger] post.crates_entry_ok(id) by {
            assert(pre.crates_memo(id) == post.crates_memo(id));
            assert(pre.crates_entry_ok(id));
            if let Some(m) = post.crates_memo(id) {
                if post.deps_fresh(m.2, m.1) {
                    assert(post.changed_at(m.2[0]) matches Some(c) && c <= m.1);
                    assert(post.changed_at(m.2[1]) matches Some(c) && c <= m.1);
                    if m.2[0] != k && m.2[1] != k {
                        assert(pre.changed_at(m.2[0]) == post.changed_at(m.2[0]));
                        assert(pre.changed_at(m.2[1]) == post.changed_at(m.2[1]));
                        assert(pre.deps_fresh(m.2, m.1));
                    }
                }
            }
        }
    }

    /// What a write of `text` to file `f` does: the revision advances by one,
    /// the file's text and stamp change, and nothing else does. Memo entries
    /// are left in place; whether they are still fresh is judged at read time.
    pub open spec fn set_text_post(&self, f: FileId, text: Seq<char>, new: &SourceDatabase) -> bool {
        &&& new.rev() == self.rev() + 1
        &&& new.text_of(f) == Some(text)
        &&& forall|g: FileId| g != f ==> #[trigger] new.text_of(g) == self.text_of(g)
        &&& forall|g: FileId| #[trigger] new.path_of(g) == self.path_of(g)
        &&& forall|g: FileId| #[trigger] new.source_root_of(g) == self.source_root_of(g)
        &&& forall|id: SourceRootId| #[trigger] new.root_files(id) == self.root_files(id)
        &&& new.graph_roots() == self.graph_roots()
        &&& new.graph_edges() == self.graph_edges()
        &&& new.changed_at(InputKey::FileText(f)) == Some(new.rev())
        &&& forall|k: InputKey| k != InputKey::FileText(f) ==> #[trigger] new.changed_at(k) == self.changed_at(k)
        &&& forall|g: FileId| #[trigger] new.parse_memo(g) == self.parse_memo(g)
        &&& forall|id: SourceRootId| #[trigger] new.crates_memo(id) == self.crates_memo(id)
    }

    /// Sets the text of file `f`, advancing the revision.
    pub fn set_file_text(&mut self, f: FileId, text: Vec<char>)
        requires
            old(self).wf(),
            old(self).rev() < u64::MAX,
            text@.len() <= u32::MAX,
        ensures
            final(self).wf(),
            old(self).set_text_post(f, text@, final(self)),
            old(self).wrote(InputKey::FileText(f), final(self)),
    {
        let ghost pre = *self;
        self.revision = self.revision + 1;
        let at = self.revision;
        put_slot(&mut self.file_texts, f.0 as usize, Input { value: text, changed_at: at });
        proof {
            assert forall|g: FileId| g != f implies #[trigger] self.text_of(g) == pre.text_of(g) by {
                if (g.0 as int) < pre.file_texts@.len() {
                    assert(self.file_texts@[g.0 as int] == pre.file_texts@[g.0 as int]);
                }
            }
            assert forall|k: InputKey| k != InputKey::FileText(f) implies #[trigger] self.changed_at(k) == pre.changed_at(k) by {
                if let InputKey::FileText(g) = k {
                    if (g.0 as int) < pre.file_texts@.len() {
                        assert(self.file_texts@[g.0 as int] == pre.file_texts@[g.0 as int]);
                    }
                }
            }
            Self::lemma_write_keeps_wf(pre, *self, InputKey::FileText(f));
        }
    }

    /// What a write of `files` to source root `id` does.
    pub open spec fn set_root_post(&self, id: SourceRootId, files: Seq<FileId>, new: &SourceDatabase) -> bool {
        &&& new.rev() == self.rev() + 1
        &&& new.root_files(id) == Some(files)
        &&& forall|f: FileId| #[trigger] new.text_of(f) == self.text_of(f)
        &&& forall|g: FileId| #[trigger] new.path_of(g) == self.path_of(g)
        &&& forall|g: FileId| #[trigger] new.source_root_of(g) == self.source_root_of(g)
        &&& forall|j: SourceRootId| j != id ==> #[trigger] new.root_files(j) == self.root_files(j)
        &&& new.graph_roots() == self.graph_roots()
        &&& new.graph_edges() == self.graph_edges()
        &&& new.changed_at(InputKey::SourceRoot(id)) == Some(new.rev())
        &&& forall|k: InputKey| k != InputKey::SourceRoot(id) ==> #[trigger] new.changed_at(k) == self.changed_at(k)
        &&& forall|g: FileId| #[trigger] new.parse_memo(g) == self.parse_memo(g)
        &&& forall|j: SourceRootId| #[trigger] new.crates_memo(j) == self.crates_memo(j)
    }

    /// Sets the files of source root `id`, advancing the revision.
    pub fn set_source_root(&mut self, id: SourceRootId, files: Vec<FileId>)
        requires
            old(self).wf(),
            old(self).rev() < u64::MAX,
        ensures
            final(self).wf(),
            old(self).set_root_post(id, files@, final(self)),
            old(self).wrote(InputKey::SourceRoot(id), final(self)),
    {
        let ghost pre = *self;
        self.revision = self.revision + 1;
        let at = self.revision;
        put_slot(&mut self.source_roots, id.0 as usize, Input { value: files, changed_at: at });
        proof {
            assert forall|f: FileId| #[trigger] self.text_of(f) == pre.text_of(f) by {}
            assert(forall|f: FileId| #[trigger] pre.text_of(f) matches Some(t) ==> t.len() <= u32::MAX);
            assert forall|j: SourceRootId| j != id implies #[trigger] self.root_files(j) == pre.root_files(j) by {
                if (j.0 as int) < pre.source_roots@.len() {
                    assert(self.source_roots@[j.0 as int] == pre.source_roots@[j.0 as int]);
                }
            }
            assert forall|k: InputKey| k != InputKey::SourceRoot(id) implies #[trigger] self.changed_at(k) == pre.changed_at(k) by {
                if let InputKey::SourceRoot(j) = k {
                    if (j.0 as int) < pre.source_roots@.len() {
                        assert(self.source_roots@[j.0 as int] == pre.source_roots@[j.0 as int]);
                    }
                }
            }
            Self::lemma_write_keeps_wf(pre, *self, InputKey::SourceRoot(id));
        }
    }

    /// What a write of a graph with `roots` and `edges` to the crate graph does.
    pub open spec fn set_graph_post(&self, roots: Seq<FileId>, edges: Seq<(CrateId, CrateId)>, new: &SourceDatabase) -> bool {
        &&& new.rev() == self.rev() + 1
        &&& new.graph_roots() == Some(roots)
        &&& new.graph_edges() == Some(edges)
        &&& forall|f: FileId| #[trigger] new.text_of(f) == self.text_of(f)
        &&& forall|g: FileId| #[trigger] new.path_of(g) == self.path_of(g)
        &&& forall|g: FileId| #[trigger] new.source_root_of(g) == self.source_root_of(g)
        &&& forall|j: SourceRootId| #[trigger] new.root_files(j) == self.root_files(j)
        &&& new.changed_at(InputKey::CrateGraph) == Some(new.rev())
        &&& forall|k: InputKey| k != InputKey::CrateGraph ==> #[trigger] new.changed_at(k) == self.changed_at(k)
        &&& forall|g: FileId| #[trigger] new.parse_memo(g) == self.parse_memo(g)
        &&& forall|j: SourceRootId| #[trigger] new.crates_memo(j) == self.crates_memo(j)
    }

    /// Sets the crate graph, advancing the revision.
    pub fn set_crate_graph(&mut self, graph: CrateGraph)
        requires
            old(self).wf(),
            old(self).rev() < u64::MAX,
            graph.crate_roots@.len() <= u32::MAX + 1,
        ensures
            final(self).wf(),
            old(self).set_graph_post(graph.crate_roots@, graph.dependencies@, final(self)),
            old(self).wrote(InputKey::CrateGraph, final(self)),
    {
        let ghost pre = *self;
        self.revision = self.revision + 1;
        self.crate_graph = Some(Input { value: graph, changed_at: self.revision });
        proof {
            assert forall|f: FileId| #[trigger] self.text_of(f) == pre.text_of(f) by {}
            assert(forall|f: FileId| #[trigger] pre.text_of(f) matches Some(t) ==> t.len() <= u32::MAX);
            assert forall|k: InputKey| k != InputKey::CrateGraph implies #[trigger] self.changed_at(k) == pre.changed_at(k) by {}
            Self::lemma_write_keeps_wf(pre, *self, InputKey::CrateGraph);
        }
    }

    /// Reads the text of `f` in session `ctx`, recording the read.
    pub fn file_text(&self, ctx: &mut QueryCtx, f: FileId) -> (r: Result<Vec<char>, QueryError>)
        ensures
            final(ctx).snapshot() == old(ctx).snapshot(),
            old(ctx).snapshot() != self.rev() ==> r == Err::<Vec<char>, QueryError>(QueryError::Canceled)
                && final(ctx).reads() == old(ctx).reads(),
            old(ctx).snapshot() == self.rev() ==> match self.text_of(f) {
                None => r == Err::<Vec<char>, QueryError>(QueryError::UnknownKey)
                    && final(ctx).reads() == old(ctx).reads(),
                Some(t) => r matches Ok(v) && v@ == t
                    && final(ctx).reads() == old(ctx).reads().push(InputKey::FileText(f)),
            },
    {
        if ctx.revision != self.revision {
            return Err(QueryError::Canceled);
        }
        let idx = f.0 as usize;
        if idx < self.file_texts.len() {
            if let Some(input) = &self.file_texts[idx] {
                ctx.deps.push(InputKey::FileText(f));
                return Ok(copy_vec(&input.value));
            }
        }
        Err(QueryError::UnknownKey)
    }

    /// Reads the files of source root `id` in session `ctx`, recording the read.
    pub fn source_root(&self, ctx: &mut QueryCtx, id: SourceRootId) -> (r: Result<Vec<FileId>, QueryError>)
        ensures
            final(ctx).snapshot() == old(ctx).snapshot(),
            old(ctx).snapshot() != self.rev() ==> r == Err::<Vec<FileId>, QueryError>(QueryError::Canceled)
                && final(ctx).reads() == old(ctx).reads(),
            old(ctx).snapshot() == self.rev() ==> match self.root_files(id) {
                None => r == Err::<Vec<FileId>, QueryError>(QueryError::UnknownKey)
                    && final(ctx).reads() == old(ctx).reads(),
                Some(fs) => r matches Ok(v) && v@ == fs
                    && final(ctx).reads() == old(ctx).reads().push(InputKey::SourceRoot(id)),
            },
    {
        if ctx.revision != self.revision {
            return Err(QueryError::Canceled);
        }
        let idx = id.0 as usize;
        if idx < self.source_roots.len() {
            if let Some(input) = &self.source_roots[idx] {
                ctx.deps.push(InputKey::SourceRoot(id));
                return Ok(copy_vec(&input.value));
            }
        }
        Err(QueryError::UnknownKey)
    }

    /// Reads the crate graph in session `ctx`, recording the read.
    pub fn crate_graph(&self, ctx: &mut QueryCtx) -> (r: Result<CrateGraph, QueryError>)
        ensures
            final(ctx).snapshot() == old(ctx).snapshot(),
            old(ctx).snapshot() != self.rev() ==> r == Err::<CrateGraph, QueryError>(QueryError::Canceled)
                && final(ctx).reads() == old(ctx).reads(),
            old(ctx).snapshot() == self.rev() ==> match self.graph_roots() {
                None => r == Err::<CrateGraph, QueryError>(QueryError::UnknownKey)
                    && final(ctx).reads() == old(ctx).reads(),
                Some(rs) => r matches Ok(v) && v.crate_roots@ == rs
                    && Some(v.dependencies@) == self.graph_edges()
                    && final(ctx).reads() == old(ctx).reads().push(InputKey::CrateGraph),
            },
    {
        if ctx.revision != self.revision {
            return Err(QueryError::Canceled);
        }
        if let Some(input) = &self.crate_graph {
            ctx.deps.push(InputKey::CrateGraph);
            return Ok(CrateGraph {
                crate_roots: copy_vec(&input.value.crate_roots),
                dependencies: copy_vec(&input.value.dependencies),
            });
        }
        Err(QueryError::UnknownKey)
    }

    /// The stamp of input `k`, if it was set.
    fn stamp(&self, k: InputKey) -> (r: Option<u64>)
        ensures
            match r {
                Some(c) => self.changed_at(k) == Some(c as nat),
                None => self.changed_at(k) is None,
            },
    {
        match k {
            InputKey::FileText(f) => {
                let idx = f.0 as usize;
                if idx < self.file_texts.len() {
                    if let Some(i) = &self.file_texts[idx] {
                        return Some(i.changed_at);
                    }
                }
                None
            },
            InputKey::FileRelativePath(f) => {
                let idx = f.0 as usize;
                if idx < self.file_paths.len() {
                    if let Some(i) = &self.file_paths[idx] {
                        return Some(i.changed_at);
                    }
                }
                None
            },
            InputKey::FileSourceRoot(f) => {
                let idx = f.0 as usize;
                if idx < self.file_roots.len() {
                    if let Some(i) = &self.file_roots[idx] {
                        return Some(i.changed_at);
                    }
                }
                None
            },
            InputKey::SourceRoot(id) => {
                let idx = id.0 as usize;
                if idx < self.source_roots.len() {
                    if let Some(i) = &self.source_roots[idx] {
                        return Some(i.changed_at);
                    }
                }
                None
            },
            InputKey::CrateGraph => match &self.crate_graph {
                Some(i) => Some(i.changed_at),
                None => None,
            },
        }
    }

    /// Walks the recorded reads of a memo: true when none changed after `at`.
    fn deps_are_fresh(&self, deps: &Vec<InputKey>, at: u64) -> (r: bool)
        ensures
            r == self.deps_fresh(deps@, at as nat),
    {
        let mut i: usize = 0;
        while i < deps.len()
            invariant
                i <= deps@.len(),
                forall|j: int| 0 <= j < i ==> ((#[trigger] self.changed_at(deps@[j])) matches Some(c) && c <= at),
            decreases deps.len() - i,
        {
            match self.stamp(deps[i]) {
                Some(c) => {
                    if c > at {
                        return false;
                    }
                },
                None => {
                    return false;
                },
            }
            i = i + 1;
        }
        true
    }

    /// Runs the parse of `f` against the current revision without touching
    /// the cache.
    pub fn compute_parse(&self, f: FileId) -> (r: Result<PendingParse, QueryError>)
        requires
            self.wf(),
        ensures
            match self.text_of(f) {
                None => r == Err::<PendingParse, QueryError>(QueryError::UnknownKey),
                Some(t) => r matches Ok(p) && p.well_formed() && p.file() == f && p.snapshot()
                    == self.rev() && p.text() == t,
            },
    {
        let mut ctx = self.start_session();
        let text = self.file_text(&mut ctx, f)?;
        assert(ctx.deps@ =~= seq![InputKey::FileText(f)]);
        let parse = parse_text(&text);
        Ok(PendingParse { file: f, revision: ctx.revision, deps: ctx.deps, parse })
    }

    /// The outcome of writing a pending parse to the cache.
    pub open spec fn commit_post(&self, p: PendingParse, new: &SourceDatabase, r: Result<Parse, QueryError>) -> bool {
        if p.snapshot() != self.rev() || self.text_of(p.file()) != Some(p.text()) {
            r == Err::<Parse, QueryError>(QueryError::Canceled) && *new == *self
        } else {
            &&& r matches Ok(v) && v.text@ == p.text() && v.tokens@ == p.tokens()
            &&& new.same_inputs(self)
            &&& new.parse_memo(p.file()) == Some((p.text(), p.tokens(), self.rev(), p.reads()))
            &&& new.parse_fresh(p.file())
            &&& forall|g: FileId| g != p.file() ==> #[trigger] new.parse_memo(g) == self.parse_memo(g)
            &&& forall|j: SourceRootId| #[trigger] new.crates_memo(j) == self.crates_memo(j)
        }
    }

    /// Writes a pending parse to the cache, unless a write made it stale or
    /// the input it read no longer holds the value it read: then nothing is
    /// written and the result is `Canceled`.
    pub fn commit_parse(&mut self, p: PendingParse) -> (r: Result<Parse, QueryError>)
        requires
            old(self).wf(),
            p.well_formed(),
        ensures
            final(self).wf(),
            old(self).commit_post(p, final(self), r),
    {
        if p.revision != self.revision {
            return Err(QueryError::Canceled);
        }
        let idx = p.file.0 as usize;
        let mut current = false;
        if idx < self.file_texts.len() {
            if let Some(i) = &self.file_texts[idx] {
                current = same_chars(&i.value, &p.parse.text);
            }
        }
        if !current {
            return Err(QueryError::Canceled);
        }
        let ghost pre = *self;
        let f = p.file;
        let out = p.parse.duplicate();
        put_slot(&mut self.parses, idx, Memo { value: p.parse, verified_at: self.revision, deps: p.deps });
        proof {
            assert forall|g: FileId| g != f implies #[trigger] self.parse_memo(g) == pre.parse_memo(g) by {
                if (g.0 as int) < pre.parses@.len() {
                    assert(self.parses@[g.0 as int] == pre.parses@[g.0 as int]);
                }
            }
            let key = InputKey::FileText(f);
            assert(pre.text_of(f) is Some);
            assert(pre.changed_at(key) matches Some(c) && c <= pre.rev());
            assert(self.changed_at(key) == pre.changed_at(key));
            assert(seq![key][0] == key);
            assert(self.deps_fresh(seq![key], self.rev()));
            assert(forall|g: FileId| #[trigger] self.text_of(g) == pre.text_of(g));
            assert(forall|j: SourceRootId| #[trigger] self.root_files(j) == pre.root_files(j));
            assert(self.graph_roots() == pre.graph_roots());
            assert(forall|k: InputKey| #[trigger] self.changed_at(k) == pre.changed_at(k));
            assert forall|g: FileId| #[trigger] self.parse_entry_ok(g) by {
                if g != f {
                    assert(pre.parse_entry_ok(g));
                    if let Some(m) = self.parse_memo(g) {
                        if self.deps_fresh(m.3, m.2) {
                            assert(self.changed_at(m.3[0]) == pre.changed_at(m.3[0]));
                            assert(pre.deps_fresh(m.3, m.2));
                        }
                    }
                } else {
                    assert(self.parse_memo(f) == Some((p.text(), p.tokens(), self.rev(), p.reads())));
                    assert(self.text_of(f) == Some(p.text()));
                }
            }
            assert forall|j: SourceRootId| #[trigger] self.crates_entry_ok(j) by {
                assert(pre.crates_entry_ok(j));
                assert(self.crates_memo(j) == pre.crates_memo(j));
                if let Some(m) = self.crates_memo(j) {
                    if self.deps_fresh(m.2, m.1) {
                        assert(self.changed_at(m.2[0]) == pre.changed_at(m.2[0]));
                        assert(self.changed_at(m.2[1]) == pre.changed_at(m.2[1]));
                        assert(pre.deps_fresh(m.2, m.1));
                    }
                }
            }
        }
        Ok(out)
    }

    /// The outcome of the `parse` query on file `f`.
    pub open spec fn parse_post(&self, f: FileId, new: &SourceDatabase, r: Result<Parse, QueryError>) -> bool {
        &&& new.same_inputs(self)
        &&& (r is Err <==> self.text_of(f) is None)
        &&& (r is Err ==> r == Err::<Parse, QueryError>(QueryError::UnknownKey) && *new == *self)
        &&& (self.parse_fresh(f) ==> *new == *self)
        &&& (r matches Ok(v) ==> {
            &&& Some(v.text@) == self.text_of(f)
            &&& is_tokenization(v.text@, v.tokens@)
            &&& new.parse_fresh(f)
            &&& new.parse_memo(f) matches Some(m) && m.0 == v.text@ && m.1 == v.tokens@
                && m.2 <= self.rev() && m.3 == seq![InputKey::FileText(f)]
        })
        &&& (r is Ok && !self.parse_fresh(f) ==> (new.parse_memo(f) matches Some(m) && m.2 == self.rev()))
        &&& forall|g: FileId| g != f ==> #[trigger] new.parse_memo(g) == self.parse_memo(g)
        &&& forall|j: SourceRootId| #[trigger] new.crates_memo(j) == self.crates_memo(j)
    }

    /// The parse of file `f`: served from the cache while none of its reads
    /// changed, otherwise computed and cached at the current revision.
    pub fn parse(&mut self, f: FileId) -> (r: Result<Parse, QueryError>)
        requires
            old(self).wf(),
        ensures
            final(self).wf(),
            old(self).parse_post(f, final(self), r),
    {
        let idx = f.0 as usize;
        if idx < self.parses.len() {
            if let Some(m) = &self.parses[idx] {
                if self.deps_are_fresh(&m.deps, m.verified_at) {
                    proof {
                        assert(self.parse_entry_ok(f));
                    }
                    return Ok(m.value.duplicate());
                }
            }
        }
        let pending = self.compute_parse(f)?;
        self.commit_parse(pending)
    }

    /// The outcome of the `source_root_crates` query on root `id`.
    pub open spec fn crates_post(&self, id: SourceRootId, new: &SourceDatabase, r: Result<Vec<CrateId>, QueryError>) -> bool {
        &&& new.same_inputs(self)
        &&& (r is Err <==> self.root_files(id) is None || self.graph_roots() is None)
        &&& (r is Err ==> r == Err::<Vec<CrateId>, QueryError>(QueryError::UnknownKey) && *new == *self)
        &&& (self.crates_fresh(id) ==> *new == *self)
        &&& (r matches Ok(v) ==> {
            &&& v@ == crates_of(self.root_files(id).unwrap(), self.graph_roots().unwrap())
            &&& new.crates_fresh(id)
            &&& new.crates_memo(id) matches Some(m) && m.0 == v@ && m.1 <= self.rev()
                && m.2 == seq![InputKey::SourceRoot(id), InputKey::CrateGraph]
        })
        &&& (r is Ok && !self.crates_fresh(id) ==> (new.crates_memo(id) matches Some(m) && m.1 == self.rev()))
        &&& forall|g: FileId| #[trigger] new.parse_memo(g) == self.parse_memo(g)
        &&& forall|j: SourceRootId| j != id ==> #[trigger] new.crates_memo(j) == self.crates_memo(j)
    }

    /// The crates whose root files belong to source root `id`: served from
    /// the cache while neither the root nor the crate graph changed,
    /// otherwise computed and cached at the current revision.
    pub fn source_root_crates(&mut self, id: SourceRootId) -> (r: Result<Vec<CrateId>, QueryError>)
        requires
            old(self).wf(),
        ensures
            final(self).wf(),
            old(self).crates_post(id, final(self), r),
    {
        let idx = id.0 as usize;
        if idx < self.root_crates.len() {
            if let Some(m) = &self.root_crates[idx] {
                if self.deps_are_fresh(&m.deps, m.verified_at) {
                    proof {
                        assert(self.crates_entry_ok(id));
                    }
                    return Ok(copy_vec(&m.value));
                }
            }
        }
        let mut ctx = self.start_session();
        let files = self.source_root(&mut ctx, id)?;
        let graph = self.crate_graph(&mut ctx)?;
        assert(ctx.deps@ =~= seq![InputKey::SourceRoot(id), InputKey::CrateGraph]);
        let res = crates_for_files(&files, &graph.crate_roots);
        let out = copy_vec(&res);
        let ghost pre = *self;
        put_slot(&mut self.root_crates, idx, Memo { value: res, verified_at: ctx.revision, deps: ctx.deps });
        proof {
            let k0 = InputKey::SourceRoot(id);
            let k1 = InputKey::CrateGraph;
            assert(pre.changed_at(k0) matches Some(c) && c <= pre.rev());
            assert(pre.changed_at(k1) matches Some(c) && c <= pre.rev());
            assert(forall|g: FileId| #[trigger] self.text_of(g) == pre.text_of(g));
            assert(forall|j: SourceRootId| #[trigger] self.root_files(j) == pre.root_files(j));
            assert(self.graph_roots() == pre.graph_roots());
            assert(forall|k: InputKey| #[trigger] self.changed_at(k) == pre.changed_at(k));
            assert(seq![k0, k1][0] == k0 && seq![k0, k1][1] == k1);
            assert(self.deps_fresh(seq![k0, k1], self.rev()));
            assert forall|j: SourceRootId| j != id implies #[trigger] self.crates_memo(j) == pre.crates_memo(j) by {
                if (j.0 as int) < pre.root_crates@.len() {
                    assert(self.root_crates@[j.0 as int] == pre.root_crates@[j.0 as int]);
                }
            }
            assert forall|g: FileId| #[trigger] self.parse_entry_ok(g) by {
                assert(pre.parse_entry_ok(g));
                assert(self.parse_memo(g) == pre.parse_memo(g));
                if let Some(m) = self.parse_memo(g) {
                    if self.deps_fresh(m.3, m.2) {
                        assert(self.changed_at(m.3[0]) == pre.changed_at(m.3[0]));
                        assert(pre.deps_fresh(m.3, m.2));
                    }
                }
            }
            assert forall|j: SourceRootId| #[trigger] self.crates_entry_ok(j) by {
                if j != id {
                    assert(pre.crates_entry_ok(j));
                    if let Some(m) = self.crates_memo(j) {
                        if self.deps_fresh(m.2, m.1) {
                            assert(self.changed_at(m.2[0]) == pre.changed_at(m.2[0]));
                            assert(self.changed_at(m.2[1]) == pre.changed_at(m.2[1]));
                            assert(pre.deps_fresh(m.2, m.1));
                        }
                    }
                }
            }
        }
        Ok(out)
    }

    /// What a write of `value` as the relative path of file `f` does.
    pub open spec fn set_path_post(&self, f: FileId, value: Seq<char>, new: &SourceDatabase) -> bool {
        &&& new.rev() == self.rev() + 1
        &&& new.path_of(f) == Some(value)
        &&& forall|g: FileId| g != f ==> #[trigger] new.path_of(g) == self.path_of(g)
        &&& forall|g: FileId| #[trigger] new.source_root_of(g) == self.source_root_of(g)
        &&& forall|g: FileId| #[trigger] new.text_of(g) == self.text_of(g)
        &&& forall|id: SourceRootId| #[trigger] new.root_files(id) == self.root_files(id)
        &&& new.graph_roots() == self.graph_roots()
        &&& new.graph_edges() == self.graph_edges()
        &&& new.changed_at(InputKey::FileRelativePath(f)) == Some(new.rev())
        &&& forall|k: InputKey| k != InputKey::FileRelativePath(f) ==> #[trigger] new.changed_at(k) == self.changed_at(k)
        &&& forall|g: FileId| #[trigger] new.parse_memo(g) == self.parse_memo(g)
        &&& forall|id: SourceRootId| #[trigger] new.crates_memo(id) == self.crates_memo(id)
    }

    /// Sets the path of file `f` relative to its source root, advancing the revision.
    pub fn set_file_relative_path(&mut self, f: FileId, value: String)
        requires
            old(self).wf(),
            old(self).rev() < u64::MAX,
        ensures
            final(self).wf(),
            old(self).set_path_post(f, value@, final(self)),
            old(self).wrote(InputKey::FileRelativePath(f), final(self)),
    {
        let ghost pre = *self;
        self.revision = self.revision + 1;
        let at = self.revision;
        put_slot(&mut self.file_paths, f.0 as usize, Input { value, changed_at: at });
        proof {
            assert forall|g: FileId| g != f implies #[trigger] self.path_of(g) == pre.path_of(g) by {
                if (g.0 as int) < pre.file_paths@.len() {
                    assert(self.file_paths@[g.0 as int] == pre.file_paths@[g.0 as int]);
                }
            }
            assert forall|k: InputKey| k != InputKey::FileRelativePath(f) implies #[trigger] self.changed_at(k) == pre.changed_at(k) by {
                if let InputKey::FileRelativePath(g) = k {
                    if (g.0 as int) < pre.file_paths@.len() {
                        assert(self.file_paths@[g.0 as int] == pre.file_paths@[g.0 as int]);
                    }
                }
            }
            assert forall|g: FileId| #[trigger] self.text_of(g) == pre.text_of(g) by {}
            assert(forall|g: FileId| #[trigger] pre.text_of(g) matches Some(t) ==> t.len() <= u32::MAX);
            Self::lemma_write_keeps_wf(pre, *self, InputKey::FileRelativePath(f));
        }
    }

    /// Reads the relative path of `f` in session `ctx`, recording the read.
    pub fn file_relative_path(&self, ctx: &mut QueryCtx, f: FileId) -> (r: Result<String, QueryError>)
        ensures
            final(ctx).snapshot() == old(ctx).snapshot(),
            old(ctx).snapshot() != self.rev() ==> r == Err::<String, QueryError>(QueryError::Canceled)
                && final(ctx).reads() == old(ctx).reads(),
            old(ctx).snapshot() == self.rev() ==> match self.path_of(f) {
                None => r == Err::<String, QueryError>(QueryError::UnknownKey)
                    && final(ctx).reads() == old(ctx).reads(),
                Some(t) => r matches Ok(v) && v@ == t
                    && final(ctx).reads() == old(ctx).reads().push(InputKey::FileRelativePath(f)),
            },
    {
        if ctx.revision != self.revision {
            return Err(QueryError::Canceled);
        }
        let idx = f.0 as usize;
        if idx < self.file_paths.len() {
            if let Some(input) = &self.file_paths[idx] {
                ctx.deps.push(InputKey::FileRelativePath(f));
                return Ok(input.value.clone());
            }
        }
        Err(QueryError::UnknownKey)
    }

    /// What a write of `value` to the source root of file `f` does.
    pub open spec fn set_file_root_post(&self, f: FileId, value: SourceRootId, new: &SourceDatabase) -> bool {
        &&& new.rev() == self.rev() + 1
        &&& new.source_root_of(f) == Some(value)
        &&& forall|g: FileId| g != f ==> #[trigger] new.source_root_of(g) == self.source_root_of(g)
        &&& forall|g: FileId| #[trigger] new.path_of(g) == self.path_of(g)
        &&& forall|g: FileId| #[trigger] new.text_of(g) == self.text_of(g)
        &&& forall|id: SourceRootId| #[trigger] new.root_files(id) == self.root_files(id)
        &&& new.graph_roots() == self.graph_roots()
        &&& new.graph_edges() == self.graph_edges()
        &&& new.changed_at(InputKey::FileSourceRoot(f)) == Some(new.rev())
        &&& forall|k: InputKey| k != InputKey::FileSourceRoot(f) ==> #[trigger] new.changed_at(k) == self.changed_at(k)
        &&& forall|g: FileId| #[trigger] new.parse_memo(g) == self.parse_memo(g)
        &&& forall|id: SourceRootId| #[trigger] new.crates_memo(id) == self.crates_memo(id)
    }

    /// Sets the source root of file `f`, advancing the revision.
    pub fn set_file_source_root(&mut self, f: FileId, value: SourceRootId)
        requires
            old(self).wf(),
            old(self).rev() < u64::MAX,
        ensures
            final(self).wf(),
            old(self).set_file_root_post(f, value, final(self)),
            old(self).wrote(InputKey::FileSourceRoot(f), final(self)),
    {
        let ghost pre = *self;
        self.revision = self.revision + 1;
        let at = self.revision;
        put_slot(&mut self.file_roots, f.0 as usize, Input { value, changed_at: at });
        proof {
            assert forall|g: FileId| g != f implies #[trigger] self.source_root_of(g) == pre.source_root_of(g) by {
                if (g.0 as int) < pre.file_roots@.len() {
                    assert(self.file_roots@[g.0 as int] == pre.file_roots@[g.0 as int]);
                }
            }
            assert forall|k: InputKey| k != InputKey::FileSourceRoot(f) implies #[trigger] self.changed_at(k) == pre.changed_at(k) by {
                if let InputKey::FileSourceRoot(g) = k {
                    if (g.0 as int) < pre.file_roots@.len() {
                        assert(self.file_roots@[g.0 as int] == pre.file_roots@[g.0 as int]);
                    }
                }
            }
            assert forall|g: FileId| #[trigger] self.text_of(g) == pre.text_of(g) by {}
            assert(forall|g: FileId| #[trigger] pre.text_of(g) matches Some(t) ==> t.len() <= u32::MAX);
            Self::lemma_write_keeps_wf(pre, *self, InputKey::FileSourceRoot(f));
        }
    }

    /// Reads the source root of `f` in session `ctx`, recording the read.
    pub fn file_source_root(&self, ctx: &mut QueryCtx, f: FileId) -> (r: Result<SourceRootId, QueryError>)
        ensures
            final(ctx).snapshot() == old(ctx).snapshot(),
            old(ctx).snapshot() != self.rev() ==> r == Err::<SourceRootId, QueryError>(QueryError::Canceled)
                && final(ctx).reads() == old(ctx).reads(),
            old(ctx).snapshot() == self.rev() ==> match self.source_root_of(f) {
                None => r == Err::<SourceRootId, QueryError>(QueryError::UnknownKey)
                    && final(ctx).reads() == old(ctx).reads(),
                Some(t) => r matches Ok(v) && v == t
                    && final(ctx).reads() == old(ctx).reads().push(InputKey::FileSourceRoot(f)),
            },
    {
        if ctx.revision != self.revision {
            return Err(QueryError::Canceled);
        }
        let idx = f.0 as usize;
        if idx < self.file_roots.len() {
            if let Some(input) = &self.file_roots[idx] {
                ctx.deps.push(InputKey::FileSourceRoot(f));
                return Ok(input.value.clone());
            }
        }
        Err(QueryError::UnknownKey)
    }

    /// An empty database at revision 0.
    pub fn new() -> (r: SourceDatabase)
        ensures
            r.wf(),
            r.rev() == 0,
            forall|f: FileId| #[trigger] r.text_of(f) is None,
            forall|f: FileId| #[trigger] r.path_of(f) is None,
            forall|f: FileId| #[trigger] r.source_root_of(f) is None,
            forall|id: SourceRootId| #[trigger] r.root_files(id) is None,
            r.graph_roots() is None,
            r.graph_edges() is None,
            forall|f: FileId| #[trigger] r.parse_memo(f) is None,
            forall|id: SourceRootId| #[trigger] r.crates_memo(id) is None,
    {
        SourceDatabase {
            revision: 0,
            file_texts: Vec::new(),
            file_paths: Vec::new(),
            file_roots: Vec::new(),
            source_roots: Vec::new(),
            crate_graph: None,
            parses: Vec::new(),
            root_crates: Vec::new(),
        }
    }

    /// The current revision.
    pub fn revision(&self) -> (r: u64)
        ensures
            r == self.rev(),
    {
        self.revision
    }

    /// Opens a read session at the current revision.
    pub fn start_session(&self) -> (r: QueryCtx)
        ensures
            r.snapshot() == self.rev(),
            r.reads() == Seq::<InputKey>::empty(),
    {
        QueryCtx { revision: self.revision, deps: Vec::new() }
    }

}

/// Cooperative cancellation: long computations poll it at checkpoints and
/// stop with `Canceled` once a write has made their session stale.
pub trait CheckCanceled {
    /// A write happened after `ctx` was opened.
    spec fn is_stale(&self, ctx: &QueryCtx) -> bool;

    /// Fails with `Canceled` exactly when `ctx` is stale.
    fn check_canceled(&self, ctx: &QueryCtx) -> (r: Result<(), Canceled>)
        ensures
            r is Err <==> self.is_stale(ctx),
    ;
}

impl CheckCanceled for SourceDatabase {
    open spec fn is_stale(&self, ctx: &QueryCtx) -> bool {
        ctx.snapshot() != self.rev()
    }

    fn check_canceled(&self, ctx: &QueryCtx) -> (r: Result<(), Canceled>) {
        if ctx.revision != self.revision {
            Err(Canceled)
        } else {
            Ok(())
        }
    }
}

/// Reading `parse` twice with no write in between gives the same tree both
/// times, and the second read is served from the cache: it neither recomputes
/// nor changes the database.
pub proof fn lemma_parse_cache_coherence(
    d0: SourceDatabase,
    d1: SourceDatabase,
    d2: SourceDatabase,
    f: FileId,
    r1: Result<Parse, QueryError>,
    r2: Result<Parse, QueryError>,
)
    requires
        d0.wf(),
        d0.parse_post(f, &d1, r1),
        d1.parse_post(f, &d2, r2),
    ensures
        d2 == d1,
        r1 matches Ok(v1) ==> (r2 matches Ok(v2) && v2.text@ == v1.text@ && v2.tokens@ == v1.tokens@),
        r1 is Err ==> r2 is Err,
{
    assert(d1.text_of(f) == d0.text_of(f));
}

/// A write to input `k` makes stale every cached entry that read `k`, so
/// the next read recomputes it; every entry that did not read `k` keeps its
/// value and its freshness, so the next read serves it from the cache.
pub proof fn lemma_write_invalidates_dependents(d0: SourceDatabase, d1: SourceDatabase, k: InputKey)
    requires
        d0.wf(),
        d0.wrote(k, &d1),
    ensures
        forall|g: FileId| (#[trigger] d0.parse_memo(g) matches Some(m) && m.3.contains(k))
            ==> !d1.parse_fresh(g),
        forall|g: FileId| (#[trigger] d0.parse_memo(g) matches Some(m) && !m.3.contains(k))
            ==> d1.parse_memo(g) == d0.parse_memo(g) && d1.parse_fresh(g) == d0.parse_fresh(g),
        forall|id: SourceRootId| (#[trigger] d0.crates_memo(id) matches Some(m) && m.2.contains(k))
            ==> !d1.crates_fresh(id),
        forall|id: SourceRootId| (#[trigger] d0.crates_memo(id) matches Some(m) && !m.2.contains(k))
            ==> d1.crates_memo(id) == d0.crates_memo(id) && d1.crates_fresh(id) == d0.crates_fresh(id),
{
    assert forall|g: FileId| (#[trigger] d0.parse_memo(g) matches Some(m) && m.3.contains(k))
        implies !d1.parse_fresh(g) by {
        assert(d0.parse_entry_ok(g));
        let m = d0.parse_memo(g).unwrap();
        let i = choose|i: int| 0 <= i < m.3.len() && m.3[i] == k;
        assert(d1.changed_at(m.3[i]) == Some(d1.rev()));
    }
    assert forall|g: FileId| (#[trigger] d0.parse_memo(g) matches Some(m) && !m.3.contains(k))
        implies d1.parse_memo(g) == d0.parse_memo(g) && d1.parse_fresh(g) == d0.parse_fresh(g) by {
        let m = d0.parse_memo(g).unwrap();
        assert forall|i: int| 0 <= i < m.3.len() implies #[trigger] d1.changed_at(m.3[i]) == d0.changed_at(m.3[i]) by {
            assert(m.3[i] != k);
        }
        assert(d1.parse_memo(g) == d0.parse_memo(g));
        if d0.deps_fresh(m.3, m.2) {
            assert forall|i: int| 0 <= i < m.3.len() implies ((#[trigger] d1.changed_at(m.3[i])) matches Some(c) && c <= m.2) by {
                assert(d1.changed_at(m.3[i]) == d0.changed_at(m.3[i]));
            }
        }
        if d1.deps_fresh(m.3, m.2) {
            assert forall|i: int| 0 <= i < m.3.len() implies ((#[trigger] d0.changed_at(m.3[i])) matches Some(c) && c <= m.2) by {
                assert(d1.changed_at(m.3[i]) == d0.changed_at(m.3[i]));
            }
        }
    }
    assert forall|id: SourceRootId| (#[trigger] d0.crates_memo(id) matches Some(m) && m.2.contains(k))
        implies !d1.crates_fresh(id) by {
        assert(d0.crates_entry_ok(id));
        let m = d0.crates_memo(id).unwrap();
        let i = choose|i: int| 0 <= i < m.2.len() && m.2[i] == k;
        assert(d1.changed_at(m.2[i]) == Some(d1.rev()));
    }
    assert forall|id: SourceRootId| (#[trigger] d0.crates_memo(id) matches Some(m) && !m.2.contains(k))
        implies d1.crates_memo(id) == d0.crates_memo(id) && d1.crates_fresh(id) == d0.crates_fresh(id) by {
        let m = d0.crates_memo(id).unwrap();
        assert forall|i: int| 0 <= i < m.2.len() implies #[trigger] d1.changed_at(m.2[i]) == d0.changed_at(m.2[i]) by {
            assert(m.2[i] != k);
        }
        assert(d1.crates_memo(id) == d0.crates_memo(id));
        if d0.deps_fresh(m.2, m.1) {
            assert forall|i: int| 0 <= i < m.2.len() implies ((#[trigger] d1.changed_at(m.2[i])) matches Some(c) && c <= m.1) by {
                assert(d1.changed_at(m.2[i]) == d0.changed_at(m.2[i]));
            }
        }
        if d1.deps_fresh(m.2, m.1) {
            assert forall|i: int| 0 <= i < m.2.len() implies ((#[trigger] d0.changed_at(m.2[i])) matches Some(c) && c <= m.1) by {
                assert(d1.changed_at(m.2[i]) == d0.changed_at(m.2[i]));
            }
        }
    }
}

/// A parse that was computed before a write to any input and committed after
/// it is discarded as `Canceled`: the cache is left as the write left it, and
/// no fresh entry in it read the written text.
pub proof fn lemma_stale_commit_discarded(
    d0: SourceDatabase,
    d1: SourceDatabase,
    d2: SourceDatabase,
    p: PendingParse,
    f: FileId,
    text: Seq<char>,
    r: Result<Parse, QueryError>,
)
    requires
        d0.wf(),
        p.snapshot() == d0.rev(),
        d0.set_text_post(f, text, &d1),
        d1.commit_post(p, &d2, r),
    ensures
        r == Err::<Parse, QueryError>(QueryError::Canceled),
        d2 == d1,
        forall|g: FileId| (#[trigger] d2.parse_memo(g) matches Some(m) && m.3.contains(InputKey::FileText(f)))
            ==> d2.parse_memo(g).unwrap().2 < d2.rev() && !d2.parse_fresh(g),
{
    lemma_write_invalidates_dependents(d0, d1, InputKey::FileText(f));
    assert forall|g: FileId| (#[trigger] d2.parse_memo(g) matches Some(m) && m.3.contains(InputKey::FileText(f)))
        implies d2.parse_memo(g).unwrap().2 < d2.rev() && !d2.parse_fresh(g) by {
        assert(d0.parse_memo(g) == d2.parse_memo(g));
        assert(d0.parse_entry_ok(g));
    }
}

} // verus!
