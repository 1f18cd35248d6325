//! The assist context: one request over a file range, run either to list the
//! applicable assists (enumerate) or to build their edits (compute).
use vstd::prelude::*;
use crate::db::{SourceDatabase, QueryError};
use crate::edit::{AssistBuilder, AssistAction};
use crate::input::{FileRange, TextRange};
use crate::syntax::{Parse, SyntaxElement, TokenAtOffset, is_tokenization, touches, token_kind, token_at_offset, covering_element, node_at_offset};

verus! {

/// Stable name of an assist.
pub struct AssistId(pub String);

/// What the user sees of an assist, and which one it is.
pub struct AssistLabel {
    pub label: String,
    pub id: AssistId,
}

/// The assists of one request: labels only, or labels with their edits.
pub enum Assist {
    Unresolved(Vec<AssistLabel>),
    Resolved(Vec<(AssistLabel, AssistAction)>),
}

pub open spec fn label_view(l: AssistLabel) -> (Seq<char>, Seq<char>) {
    (l.label@, l.id.0@)
}

/// An action as its replacements, cursor and target.
pub open spec fn action_view(a: AssistAction) -> (Seq<(TextRange, Seq<char>)>, Option<u32>, Option<TextRange>) {
    (a.edits(), a.cursor_position, a.target)
}

/// A builder as the action it builds.
pub open spec fn builder_view(b: AssistBuilder) -> (Seq<(TextRange, Seq<char>)>, Option<u32>, Option<TextRange>) {
    (b.edits(), b.cursor(), b.target_range())
}

impl Assist {
    /// Label and identifier of each assist, in registration order.
    pub open spec fn labels(&self) -> Seq<(Seq<char>, Seq<char>)> {
        match self {
            Assist::Unresolved(v) => v@.map_values(|l: AssistLabel| label_view(l)),
            Assist::Resolved(v) => v@.map_values(|p: (AssistLabel, AssistAction)| label_view(p.0)),
        }
    }

    /// The edits of the assists; empty when only labels were listed.
    pub open spec fn actions(&self) -> Seq<(Seq<(TextRange, Seq<char>)>, Option<u32>, Option<TextRange>)> {
        match self {
            Assist::Unresolved(_) => Seq::empty(),
            Assist::Resolved(v) => v@.map_values(|p: (AssistLabel, AssistAction)| action_view(p.1)),
        }
    }
}

/// Context of one assist request.
pub struct AssistCtx {
    frange: FileRange,
    parse: Parse,
    should_compute_edit: bool,
    assist: Assist,
}

impl AssistCtx {
    pub closed spec fn file_range(&self) -> FileRange {
        self.frange
    }

    /// The file and range of the request.
    pub fn frange(&self) -> (r: FileRange)
        ensures
            r == self.file_range(),
    {
        self.frange
    }

    pub closed spec fn tree_text(&self) -> Seq<char> {
        self.parse.text@
    }

    pub closed spec fn tree_tokens(&self) -> Seq<TextRange> {
        self.parse.tokens@
    }

    pub closed spec fn computes_edit(&self) -> bool {
        self.should_compute_edit
    }

    pub closed spec fn assist_state(&self) -> Assist {
        self.assist
    }

    pub open spec fn labels(&self) -> Seq<(Seq<char>, Seq<char>)> {
        self.assist_state().labels()
    }

    pub open spec fn actions(&self) -> Seq<(Seq<(TextRange, Seq<char>)>, Option<u32>, Option<TextRange>)> {
        self.assist_state().actions()
    }

    /// The tree is a tokenization of the text, and the assists are resolved
    /// exactly in compute mode.
    pub open spec fn wf(&self) -> bool {
        &&& is_tokenization(self.tree_text(), self.tree_tokens())
        &&& (self.computes_edit() <==> self.assist_state() is Resolved)
    }

    /// The outcome of opening a context on `frange` over database `db`.
    pub open spec fn ctx_post(db: &SourceDatabase, frange: FileRange, should_compute_edit: bool, new_db: &SourceDatabase, r: Result<AssistCtx, QueryError>) -> bool {
        &&& new_db.wf()
        &&& new_db.same_inputs(db)
        &&& db.parse_fresh(frange.file_id) ==> *new_db == *db
        &&& r is Err <==> db.text_of(frange.file_id) is None
        &&& r is Err ==> r == Err::<AssistCtx, QueryError>(QueryError::UnknownKey) && *new_db == *db
        &&& r matches Ok(ctx) ==> {
            &&& ctx.wf()
            &&& ctx.file_range() == frange
            &&& ctx.computes_edit() == should_compute_edit
            &&& ctx.labels() == Seq::<(Seq<char>, Seq<char>)>::empty()
            &&& ctx.actions() == Seq::<(Seq<(TextRange, Seq<char>)>, Option<u32>, Option<TextRange>)>::empty()
            &&& Some(ctx.tree_text()) == db.text_of(frange.file_id)
            &&& new_db.parse_fresh(frange.file_id)
            &&& new_db.parse_memo(frange.file_id) matches Some(m) && m.0 == ctx.tree_text() && m.1 == ctx.tree_tokens()
        }
    }

    /// Opens a context on `frange`, parsing its file through the database.
    pub fn with_ctx(db: &mut SourceDatabase, frange: FileRange, should_compute_edit: bool) -> (r: Result<AssistCtx, QueryError>)
        requires
            old(db).wf(),
        ensures
            Self::ctx_post(old(db), frange, should_compute_edit, final(db), r),
    {
        let parse = match db.parse(frange.file_id) {
            Ok(p) => p,
            Err(e) => {
                return Err(e);
            },
        };
        let assist = if should_compute_edit {
            Assist::Resolved(Vec::new())
        } else {
            Assist::Unresolved(Vec::new())
        };
        let ctx = AssistCtx { frange, parse, should_compute_edit, assist };
        assert(ctx.labels() =~= Seq::<(Seq<char>, Seq<char>)>::empty());
        assert(ctx.actions() =~= Seq::<(Seq<(TextRange, Seq<char>)>, Option<u32>, Option<TextRange>)>::empty());
        Ok(ctx)
    }

    /// What registering assist `(id, label)` does: its label is appended in
    /// both modes; in compute mode the edit that `f` builds from an empty
    /// builder is appended too.
    pub open spec fn add_post<F: FnOnce(AssistBuilder) -> AssistBuilder>(&self, id: Seq<char>, label: Seq<char>, f: F, new: &AssistCtx) -> bool {
        &&& new.wf()
        &&& new.file_range() == self.file_range()
        &&& new.tree_text() == self.tree_text()
        &&& new.tree_tokens() == self.tree_tokens()
        &&& new.computes_edit() == self.computes_edit()
        &&& new.labels() == self.labels().push((label, id))
        &&& !self.computes_edit() ==> new.actions() == self.actions()
        &&& self.computes_edit() ==> exists|b0: AssistBuilder, b1: AssistBuilder|
            b0.is_empty() && f.ensures((b0,), b1) && new.actions() == self.actions().push(builder_view(b1))
    }

    /// `new` is `self` after registering `(label, id)`, whatever the mode.
    pub open spec fn registers(&self, id: Seq<char>, label: Seq<char>, new: &AssistCtx) -> bool {
        &&& new.labels() == self.labels().push((label, id))
        &&& new.computes_edit() == self.computes_edit()
    }

    /// Registers an assist. In enumerate mode only its label is kept and `f`
    /// is never called; in compute mode `f` fills a fresh builder and the
    /// resulting edit is kept with the label.
    pub fn add_action<F: FnOnce(AssistBuilder) -> AssistBuilder>(&mut self, id: AssistId, label: String, f: F)
        requires
            old(self).wf(),
            old(self).computes_edit() ==> forall|b: AssistBuilder| b.is_empty() ==> f.requires((b,)),
        ensures
            old(self).add_post(id.0@, label@, f, final(self)),
            old(self).registers(id.0@, label@, final(self)),
    {
        let ghost idv = id.0@;
        let ghost labelv = label@;
        let l = AssistLabel { label, id };
        match &mut self.assist {
            Assist::Unresolved(labels) => {
                let ghost pre = labels@;
                labels.push(l);
                assert(labels@.map_values(|l: AssistLabel| label_view(l)) =~= pre.map_values(|l: AssistLabel| label_view(l)).push((labelv, idv)));
            },
            Assist::Resolved(labels_actions) => {
                let b0 = AssistBuilder::new();
                let b1 = f(b0);
                let ghost bv = builder_view(b1);
                let action = b1.build();
                let ghost pre = labels_actions@;
                labels_actions.push((l, action));
                assert(labels_actions@.map_values(|p: (AssistLabel, AssistAction)| label_view(p.0)) =~= pre.map_values(|p: (AssistLabel, AssistAction)| label_view(p.0)).push((labelv, idv)));
                assert(labels_actions@.map_values(|p: (AssistLabel, AssistAction)| action_view(p.1)) =~= pre.map_values(|p: (AssistLabel, AssistAction)| action_view(p.1)).push(bv));
            },
        }
    }

    /// Finishes the request, handing out the assists it registered.
    pub fn build(self) -> (r: Option<Assist>)
        requires
            self.wf(),
        ensures
            r matches Some(a) && a.labels() == self.labels() && a.actions() == self.actions()
                && (a is Resolved <==> self.computes_edit()),
    {
        Some(self.assist)
    }

    /// The token(s) at the start of the request's range.
    pub fn token_at_offset(&self) -> (r: TokenAtOffset)
        requires
            self.wf(),
        ensures
            ({
                let toks = self.tree_tokens();
                let off = self.file_range().range.start as int;
                &&& r == TokenAtOffset::Nothing <==> forall|k: int| 0 <= k < toks.len() ==> !touches(#[trigger] toks[k], off)
                &&& r matches TokenAtOffset::Single(i) ==> i < toks.len() && touches(toks[i as int], off)
                    && forall|k: int| 0 <= k < toks.len() && k != i ==> !touches(#[trigger] toks[k], off)
                &&& r matches TokenAtOffset::Between(i, j) ==> j == i + 1 && j < toks.len()
                    && toks[i as int].end == off && toks[j as int].start == off
                    && forall|k: int| 0 <= k < toks.len() && k != i && k != j ==> !touches(#[trigger] toks[k], off)
            }),
    {
        token_at_offset(&self.parse.tokens, self.frange.range.start)
    }

    /// The first token at the start of the request's range whose kind is
    /// `kind` (0 whitespace, 1 word, 2 punctuation), if any.
    pub fn node_at_offset(&self, kind: u8) -> (r: Option<usize>)
        requires
            self.wf(),
        ensures
            ({
                let toks = self.tree_tokens();
                let off = self.file_range().range.start as int;
                &&& r matches Some(i) ==> i < toks.len() && touches(toks[i as int], off)
                    && token_kind(self.tree_text(), toks[i as int]) == kind as int
                    && forall|k: int| 0 <= k < i ==> !(touches(#[trigger] toks[k], off) && token_kind(self.tree_text(), toks[k]) == kind as int)
                &&& r is None ==> forall|k: int| 0 <= k < toks.len() ==> !(touches(#[trigger] toks[k], off) && token_kind(self.tree_text(), toks[k]) == kind as int)
            }),
    {
        node_at_offset(&self.parse.text, &self.parse.tokens, self.frange.range.start, kind)
    }

    /// The smallest element of the tree that covers the request's range: the
    /// first token containing it, or else the file.
    pub fn covering_element(&self) -> (r: SyntaxElement)
        requires
            self.file_range().range.wf(),
            self.file_range().range.end <= self.tree_text().len(),
        ensures
            r == Self::smallest_cover(self.tree_tokens(), self.file_range().range),
    {
        covering_element(&self.parse.tokens, self.frange.range)
    }

    /// The smallest element of the tree that covers `range`: the first token
    /// containing it, or else the file.
    pub fn covering_node_for_range(&self, range: TextRange) -> (r: SyntaxElement)
        requires
            range.wf(),
            range.end <= self.tree_text().len(),
        ensures
            r == Self::smallest_cover(self.tree_tokens(), range),
    {
        covering_element(&self.parse.tokens, range)
    }

    /// The first token of `toks` that contains `range`, or the file when none does.
    pub open spec fn smallest_cover(toks: Seq<TextRange>, range: TextRange) -> SyntaxElement {
        if exists|k: int| 0 <= k < toks.len() && #[trigger] toks[k].start <= range.start && range.end <= toks[k].end {
            let i = choose|i: int| 0 <= i < toks.len() && #[trigger] toks[i].start <= range.start && range.end <= toks[i].end
                && forall|k: int| 0 <= k < i ==> !(toks[k].start <= range.start && range.end <= #[trigger] toks[k].end);
            SyntaxElement::Token(i as usize)
        } else {
            SyntaxElement::File
        }
    }
}

/// Opening the same range twice with no write in between sees the same tree
/// both times, whatever the modes, and the second opening is served from the
/// parse cache without changing the database.
pub proof fn lemma_rerun_sees_same_tree(
    d0: SourceDatabase,
    d1: SourceDatabase,
    d2: SourceDatabase,
    frange: FileRange,
    mode1: bool,
    mode2: bool,
    r1: Result<AssistCtx, QueryError>,
    r2: Result<AssistCtx, QueryError>,
)
    requires
        d0.wf(),
        AssistCtx::ctx_post(&d0, frange, mode1, &d1, r1),
        AssistCtx::ctx_post(&d1, frange, mode2, &d2, r2),
    ensures
        d2 == d1,
        r1 matches Ok(c1) ==> (r2 matches Ok(c2) && c2.tree_text() == c1.tree_text()
            && c2.tree_tokens() == c1.tree_tokens()),
        r1 is Err ==> r2 is Err,
{
    assert(d1.text_of(frange.file_id) == d0.text_of(frange.file_id));
}

/// Registering the same assist in an enumerating and in a computing context
/// that listed the same assists so far keeps their labels and identifiers
/// equal: the modes differ only in whether edits are built.
pub proof fn lemma_modes_register_same_ids<F: FnOnce(AssistBuilder) -> AssistBuilder, G: FnOnce(AssistBuilder) -> AssistBuilder>(
    e0: AssistCtx,
    e1: AssistCtx,
    c0: AssistCtx,
    c1: AssistCtx,
    id: Seq<char>,
    label: Seq<char>,
    fe: F,
    fc: G,
)
    requires
        e0.labels() == c0.labels(),
        !e0.computes_edit(),
        c0.computes_edit(),
        e0.add_post(id, label, fe, &e1),
        c0.add_post(id, label, fc, &c1),
    ensures
        e1.labels() == c1.labels(),
        e1.actions() == e0.actions(),
        c1.actions().len() == c0.actions().len() + 1,
{
}

/// Building an assist again in a computing context, with a builder function
/// whose result depends on its argument alone, gives the same edit.
pub proof fn lemma_recompute_same_edit<F: FnOnce(AssistBuilder) -> AssistBuilder>(
    a0: AssistCtx,
    a1: AssistCtx,
    b0: AssistCtx,
    b1: AssistCtx,
    id: Seq<char>,
    label: Seq<char>,
    f: F,
)
    requires
        a0.computes_edit(),
        b0.computes_edit(),
        a0.actions() == b0.actions(),
        forall|x: AssistBuilder, y: AssistBuilder, p: AssistBuilder, q: AssistBuilder|
            x.is_empty() && y.is_empty() && f.ensures((x,), p) && f.ensures((y,), q)
            ==> builder_view(p) == builder_view(q),
        a0.add_post(id, label, f, &a1),
        b0.add_post(id, label, f, &b1),
    ensures
        a1.actions() == b1.actions(),
{
}

/// A run that starts from a fresh context and registers `regs` in order,
/// one `(label, id)` per step, ends listing exactly `regs`, in either mode.
pub proof fn lemma_run_lists_registrations(cs: Seq<AssistCtx>, regs: Seq<(Seq<char>, Seq<char>)>)
    requires
        cs.len() == regs.len() + 1,
        cs[0].labels() == Seq::<(Seq<char>, Seq<char>)>::empty(),
        forall|i: int| 0 <= i < regs.len() ==> (#[trigger] cs[i]).registers(regs[i].1, regs[i].0, &cs[i + 1]),
    ensures
        cs.last().labels() == regs,
    decreases regs.len(),
{
    if regs.len() > 0 {
        let n = regs.len() - 1;
        lemma_run_lists_registrations(cs.drop_last(), regs.drop_last());
        assert(cs.drop_last().last() == cs[n]);
        assert(cs[n].registers(regs[n].1, regs[n].0, &cs[n + 1]));
        assert(regs.drop_last().push(regs[n]) =~= regs);
    }
}

/// For a fixed database state and range, an enumerating run and a computing
/// run of a producer that registers the same assists end with the same
/// labels and identifiers; only the presence of edits differs.
pub proof fn lemma_modes_list_same_ids(
    es: Seq<AssistCtx>,
    cs: Seq<AssistCtx>,
    regs: Seq<(Seq<char>, Seq<char>)>,
)
    requires
        es.len() == regs.len() + 1,
        cs.len() == regs.len() + 1,
        es[0].labels() == Seq::<(Seq<char>, Seq<char>)>::empty(),
        cs[0].labels() == Seq::<(Seq<char>, Seq<char>)>::empty(),
        forall|i: int| 0 <= i < regs.len() ==> (#[trigger] es[i]).registers(regs[i].1, regs[i].0, &es[i + 1]),
        forall|i: int| 0 <= i < regs.len() ==> (#[trigger] cs[i]).registers(regs[i].1, regs[i].0, &cs[i + 1]),
    ensures
        es.last().labels() == cs.last().labels(),
        es.last().labels().map_values(|l: (Seq<char>, Seq<char>)| l.1) == cs.last().labels().map_values(
            |l: (Seq<char>, Seq<char>)| l.1,
        ),
{
    lemma_run_lists_registrations(es, regs);
    lemma_run_lists_registrations(cs, regs);
}

/// A computing run that starts from a fresh context and appends `acts` in
/// order, one edit per step, ends holding exactly `acts`.
pub proof fn lemma_run_builds_actions(
    cs: Seq<AssistCtx>,
    acts: Seq<(Seq<(TextRange, Seq<char>)>, Option<u32>, Option<TextRange>)>,
)
    requires
        cs.len() == acts.len() + 1,
        cs[0].actions() == Seq::<(Seq<(TextRange, Seq<char>)>, Option<u32>, Option<TextRange>)>::empty(),
        forall|i: int| 0 <= i < acts.len() ==> (#[trigger] cs[i + 1]).actions() == cs[i].actions().push(acts[i]),
    ensures
        cs.last().actions() == acts,
    decreases acts.len(),
{
    if acts.len() > 0 {
        let n = acts.len() - 1;
        lemma_run_builds_actions(cs.drop_last(), acts.drop_last());
        assert(cs.drop_last().last() == cs[n]);
        assert(cs[n + 1].actions() == cs[n].actions().push(acts[n]));
        assert(acts.drop_last().push(acts[n]) =~= acts);
    }
}

/// Two computing runs, for instance one after an enumerating run and one
/// made directly on the same database state, that register the same assists
/// and build the same edits on the same tree end with identical assists:
/// the same labels, identifiers and edits.
pub proof fn lemma_compute_runs_agree(
    a: Seq<AssistCtx>,
    b: Seq<AssistCtx>,
    regs: Seq<(Seq<char>, Seq<char>)>,
    acts: Seq<(Seq<(TextRange, Seq<char>)>, Option<u32>, Option<TextRange>)>,
)
    requires
        a.len() == regs.len() + 1,
        b.len() == regs.len() + 1,
        acts.len() == regs.len(),
        a[0].labels() == Seq::<(Seq<char>, Seq<char>)>::empty(),
        b[0].labels() == Seq::<(Seq<char>, Seq<char>)>::empty(),
        a[0].actions() == Seq::<(Seq<(TextRange, Seq<char>)>, Option<u32>, Option<TextRange>)>::empty(),
        b[0].actions() == Seq::<(Seq<(TextRange, Seq<char>)>, Option<u32>, Option<TextRange>)>::empty(),
        forall|i: int| 0 <= i < regs.len() ==> (#[trigger] a[i]).registers(regs[i].1, regs[i].0, &a[i + 1]),
        forall|i: int| 0 <= i < regs.len() ==> (#[trigger] b[i]).registers(regs[i].1, regs[i].0, &b[i + 1]),
        forall|i: int| 0 <= i < acts.len() ==> (#[trigger] a[i + 1]).actions() == a[i].actions().push(acts[i]),
        forall|i: int| 0 <= i < acts.len() ==> (#[trigger] b[i + 1]).actions() == b[i].actions().push(acts[i]),
    ensures
        a.last().labels() == b.last().labels(),
        a.last().actions() == b.last().actions(),
{
    lemma_run_lists_registrations(a, regs);
    lemma_run_lists_registrations(b, regs);
    lemma_run_builds_actions(a, acts);
    lemma_run_builds_actions(b, acts);
}

} // verus!
