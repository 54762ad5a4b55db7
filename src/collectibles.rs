use vstd::prelude::*;

use crate::issue::{
    answers, same_tree, IssueProcessingPath, IssueProcessingPathItem, IssueVc, Issues,
    OptionIssueProcessingPathItems, PathError,
};
use crate::path::AbsoluteSystemPathBuf;

verus! {

/// A side-channel value emitted by a task: an issue, or a processing path
/// that explains how issues below it were reached.
#[derive(Debug)]
pub enum Collectible {
    Issue(IssueVc),
    Path(IssueProcessingPath),
}

/// Which collectibles a query looks at.
#[derive(PartialEq, Eq, Structural, Clone, Copy, Debug)]
pub enum CollectibleKind {
    Issue,
    Path,
}

pub open spec fn has_kind(c: Collectible, kind: CollectibleKind) -> bool {
    match kind {
        CollectibleKind::Issue => c is Issue,
        CollectibleKind::Path => c is Path,
    }
}

/// `a` is a faithful copy of `b`.
pub open spec fn copied(a: Collectible, b: Collectible) -> bool {
    match (a, b) {
        (Collectible::Issue(x), Collectible::Issue(y)) => x == y,
        (Collectible::Path(x), Collectible::Path(y)) => same_tree(x, y),
        _ => false,
    }
}

/// A collectible together with the task that emitted it and a serial number
/// that tells it apart from every other emitted collectible.
#[derive(Debug)]
pub struct Emitted {
    pub serial: u64,
    pub task: usize,
    pub item: Collectible,
}

/// Task `t` is `anc` or was spawned, directly or not, below `anc`.
pub open spec fn is_below(parents: Seq<Option<usize>>, t: int, anc: int) -> bool
    decreases t,
{
    if t == anc {
        true
    } else if 0 <= t < parents.len() {
        match parents[t] {
            Some(p) => p < t && is_below(parents, p as int, anc),
            None => false,
        }
    } else {
        false
    }
}

/// Each task's parent was spawned before it.
pub open spec fn parents_ordered(parents: Seq<Option<usize>>) -> bool {
    forall|i: int| 0 <= i < parents.len() ==> (#[trigger] parents[i] matches Some(p) ==> p < i)
}

/// The collectible `e` is of `kind` and was emitted at or below task `t`.
pub open spec fn picked(parents: Seq<Option<usize>>, e: Emitted, t: int, kind: CollectibleKind) -> bool {
    is_below(parents, e.task as int, t) && has_kind(e.item, kind)
}

pub proof fn lemma_filter_push<A>(s: Seq<A>, e: A, pred: spec_fn(A) -> bool)
    ensures
        s.push(e).filter(pred) == if pred(e) {
            s.filter(pred).push(e)
        } else {
            s.filter(pred)
        },
{
    reveal(Seq::filter);
    assert(s.push(e).drop_last() =~= s);
}

/// The runtime's record of tasks and of the collectibles that they emitted
/// and that nobody has taken yet.
#[derive(Debug)]
pub struct TaskRuntime {
    parents: Vec<Option<usize>>,
    entries: Vec<Emitted>,
    next_serial: u64,
}

/// A handle to a task of a runtime.
#[derive(PartialEq, Eq, Structural, Clone, Copy, Debug)]
pub struct TaskId {
    pub index: usize,
}

impl TaskRuntime {
    /// The parent of each task, `None` for a root task.
    pub closed spec fn parents(&self) -> Seq<Option<usize>> {
        self.parents@
    }

    /// The collectibles emitted and not taken, in the order of emission.
    pub closed spec fn entries(&self) -> Seq<Emitted> {
        self.entries@
    }

    pub closed spec fn next_serial(&self) -> u64 {
        self.next_serial
    }

    /// Parents come before their children; every entry names a task of the
    /// runtime and has a serial number below the next one.
    pub open spec fn wf(&self) -> bool {
        &&& parents_ordered(self.parents())
        &&& forall|i: int|
            0 <= i < self.entries().len() ==> (#[trigger] self.entries()[i]).task
                < self.parents().len() && self.entries()[i].serial < self.next_serial()
    }

    /// The collectibles of `kind` that a query at task `t` sees.
    pub open spec fn under(&self, t: int, kind: CollectibleKind) -> Seq<Emitted> {
        self.entries().filter(|e: Emitted| picked(self.parents(), e, t, kind))
    }

    /// A runtime with no tasks.
    pub fn new() -> (r: Self)
        ensures
            r.wf(),
            r.parents().len() == 0,
            r.entries().len() == 0,
    {
        TaskRuntime { parents: Vec::new(), entries: Vec::new(), next_serial: 0 }
    }

    /// Starts a task below `parent`, or a root task.
    pub fn spawn(&mut self, parent: Option<TaskId>) -> (r: TaskId)
        requires
            old(self).wf(),
            parent matches Some(p) ==> p.index < old(self).parents().len(),
        ensures
            final(self).wf(),
            r.index == old(self).parents().len(),
            final(self).parents() == old(self).parents().push(
                match parent {
                    Some(p) => Some(p.index),
                    None => None,
                },
            ),
            final(self).entries() == old(self).entries(),
            final(self).next_serial() == old(self).next_serial(),
    {
        let index = self.parents.len();
        let p = match parent {
            Some(p) => Some(p.index),
            None => None,
        };
        self.parents.push(p);
        TaskId { index }
    }

    /// Whether task `t` is `anc` or below it.
    pub fn is_below(&self, t: usize, anc: usize) -> (r: bool)
        requires
            parents_ordered(self.parents()),
            t < self.parents().len(),
        ensures
            r == is_below(self.parents(), t as int, anc as int),
    {
        let mut cur: usize = t;
        while cur != anc
            invariant
                parents_ordered(self.parents()),
                cur < self.parents().len(),
                is_below(self.parents(), t as int, anc as int) == is_below(
                    self.parents(),
                    cur as int,
                    anc as int,
                ),
            decreases cur,
        {
            match self.parents[cur] {
                Some(p) => {
                    assert(self.parents()[cur as int] == Some(p));
                    cur = p;
                },
                None => {
                    return false;
                },
            }
        }
        true
    }

    /// Attaches a collectible to task `t`.
    pub fn emit(&mut self, t: TaskId, item: Collectible)
        requires
            old(self).wf(),
            t.index < old(self).parents().len(),
            old(self).next_serial() < u64::MAX,
        ensures
            final(self).wf(),
            final(self).parents() == old(self).parents(),
            final(self).entries() == old(self).entries().push(
                Emitted { serial: old(self).next_serial(), task: t.index, item },
            ),
            final(self).next_serial() == old(self).next_serial() + 1,
    {
        let serial = self.next_serial;
        self.entries.push(Emitted { serial, task: t.index, item });
        self.next_serial = serial + 1;
    }

    /// Copies of the collectibles of `kind` emitted at or below `t`, left in
    /// place.
    pub fn peek(&self, t: TaskId, kind: CollectibleKind) -> (r: Vec<Emitted>)
        requires
            self.wf(),
        ensures
            r@.len() == self.under(t.index as int, kind).len(),
            forall|k: int|
                0 <= k < r@.len() ==> {
                    let e = self.under(t.index as int, kind)[k];
                    &&& (#[trigger] r@[k]).serial == e.serial
                    &&& r@[k].task == e.task
                    &&& copied(r@[k].item, e.item)
                },
    {
        let mut out: Vec<Emitted> = Vec::new();
        let mut i: usize = 0;
        let ghost pred = |e: Emitted| picked(self.parents(), e, t.index as int, kind);
        while i < self.entries.len()
            invariant
                self.wf(),
                pred == (|e: Emitted| picked(self.parents(), e, t.index as int, kind)),
                i <= self.entries@.len(),
                out@.len() == self.entries@.subrange(0, i as int).filter(pred).len(),
                forall|k: int|
                    0 <= k < out@.len() ==> {
                        let e = self.entries@.subrange(0, i as int).filter(pred)[k];
                        &&& (#[trigger] out@[k]).serial == e.serial
                        &&& out@[k].task == e.task
                        &&& copied(out@[k].item, e.item)
                    },
            decreases self.entries@.len() - i,
        {
            let e = &self.entries[i];
            let ghost before = self.entries@.subrange(0, i as int);
            proof {
                assert(self.entries@.subrange(0, i + 1) =~= before.push(*e));
                lemma_filter_push(before, *e, pred);
                assert(self.entries()[i as int] == *e);
            }
            let wanted = match (&e.item, kind) {
                (Collectible::Issue(_), CollectibleKind::Issue) => true,
                (Collectible::Path(_), CollectibleKind::Path) => true,
                _ => false,
            };
            if wanted && self.is_below(e.task, t.index) {
                let item = match &e.item {
                    Collectible::Issue(x) => Collectible::Issue(*x),
                    Collectible::Path(p) => Collectible::Path(p.deep_copy()),
                };
                out.push(Emitted { serial: e.serial, task: e.task, item });
            }
            i = i + 1;
        }
        assert(self.entries@.subrange(0, i as int) =~= self.entries@);
        out
    }

    /// Removes the collectibles of `kind` emitted at or below `t` and hands
    /// them out; they no longer reach the tasks above `t`.
    pub fn take(&mut self, t: TaskId, kind: CollectibleKind) -> (r: Vec<Emitted>)
        requires
            old(self).wf(),
        ensures
            final(self).wf(),
            r@ == old(self).under(t.index as int, kind),
            final(self).entries() == old(self).entries().filter(
                |e: Emitted| !picked(old(self).parents(), e, t.index as int, kind),
            ),
            final(self).parents() == old(self).parents(),
            final(self).next_serial() == old(self).next_serial(),
    {
        let ghost pred = |e: Emitted| picked(self.parents(), e, t.index as int, kind);
        let ghost npred = |e: Emitted| !picked(self.parents(), e, t.index as int, kind);
        let ghost orig = self.entries@;
        let mut taken: Vec<Emitted> = Vec::new();
        let mut kept: Vec<Emitted> = Vec::new();
        let mut rest: Vec<Emitted> = Vec::new();
        std::mem::swap(&mut self.entries, &mut rest);
        let ghost n = orig.len();
        while rest.len() > 0
            invariant
                self.parents@ == old(self).parents@,
                self.next_serial == old(self).next_serial,
                old(self).wf(),
                pred == (|e: Emitted| picked(self.parents(), e, t.index as int, kind)),
                npred == (|e: Emitted| !picked(self.parents(), e, t.index as int, kind)),
                orig == old(self).entries(),
                n == orig.len(),
                rest@.len() <= n,
                rest@ == orig.subrange(n - rest@.len(), n as int),
                taken@ == orig.subrange(0, n - rest@.len()).filter(pred),
                kept@ == orig.subrange(0, n - rest@.len()).filter(npred),
                forall|k: int| 0 <= k < kept@.len() ==> orig.contains(#[trigger] kept@[k]),
            decreases rest@.len(),
        {
            let ghost i = n - rest@.len();
            let e = rest.remove(0);
            proof {
                assert(e == orig[i]);
                assert(rest@ =~= orig.subrange(i + 1, n as int));
                assert(orig.subrange(0, i + 1) =~= orig.subrange(0, i).push(e));
                lemma_filter_push(orig.subrange(0, i), e, pred);
                lemma_filter_push(orig.subrange(0, i), e, npred);
            }
            let wanted = match (&e.item, kind) {
                (Collectible::Issue(_), CollectibleKind::Issue) => true,
                (Collectible::Path(_), CollectibleKind::Path) => true,
                _ => false,
            };
            if wanted && self.is_below(e.task, t.index) {
                taken.push(e);
            } else {
                proof {
                    assert(orig.contains(e));
                }
                kept.push(e);
            }
        }
        assert(orig.subrange(0, n as int) =~= orig);
        self.entries = kept;
        proof {
            assert forall|k: int| 0 <= k < self.entries().len() implies (#[trigger] self.entries()[k]).task
                < self.parents().len() && self.entries()[k].serial < self.next_serial() by {
                assert(orig.contains(self.entries()[k]));
            }
        }
        taken
    }
}

} // verus!

verus! {

/// Taking the collectibles of a kind at a task leaves none there: a query
/// at the same task after the take sees nothing, while everything else stays.
pub proof fn lemma_take_leaves_nothing(
    entries: Seq<Emitted>,
    parents: Seq<Option<usize>>,
    t: int,
    kind: CollectibleKind,
)
    ensures
        entries.filter(|e: Emitted| !picked(parents, e, t, kind)).filter(
            |e: Emitted| picked(parents, e, t, kind),
        ).len() == 0,
    decreases entries.len(),
{
    let pred = |e: Emitted| picked(parents, e, t, kind);
    let npred = |e: Emitted| !picked(parents, e, t, kind);
    if entries.len() > 0 {
        let init = entries.drop_last();
        let e = entries.last();
        assert(entries =~= init.push(e));
        lemma_take_leaves_nothing(init, parents, t, kind);
        lemma_filter_push(init, e, npred);
        if npred(e) {
            lemma_filter_push(init.filter(npred), e, pred);
        }
    }
}

/// The paths held by a list of path collectibles.
pub open spec fn paths_of(s: Seq<Emitted>) -> Seq<IssueProcessingPath> {
    s.map_values(
        |e: Emitted|
            match e.item {
                Collectible::Path(p) => p,
                Collectible::Issue(i) => IssueProcessingPath::Root(i),
            },
    )
}

/// The issues held by a list of issue collectibles.
pub open spec fn issues_of(s: Seq<Emitted>) -> Seq<IssueVc> {
    s.map_values(
        |e: Emitted|
            match e.item {
                Collectible::Issue(i) => i,
                Collectible::Path(_) => IssueVc { id: 0 },
            },
    )
}

/// Moves the paths out of a list of path collectibles.
fn into_paths(v: Vec<Emitted>) -> (r: Vec<IssueProcessingPath>)
    ensures
        r@ == paths_of(v@),
{
    let ghost orig = v@;
    let mut v = v;
    let mut out: Vec<IssueProcessingPath> = Vec::new();
    while v.len() > 0
        invariant
            orig.len() == out@.len() + v@.len(),
            v@ == orig.subrange(out@.len() as int, orig.len() as int),
            out@ == paths_of(orig.subrange(0, out@.len() as int)),
        decreases v@.len(),
    {
        let ghost i = out@.len() as int;
        let e = v.remove(0);
        assert(e == orig[i]);
        let p = match e.item {
            Collectible::Path(p) => p,
            Collectible::Issue(i) => IssueProcessingPath::Root(i),
        };
        out.push(p);
        assert(v@ =~= orig.subrange(i + 1, orig.len() as int));
        assert(out@ =~= paths_of(orig.subrange(0, i + 1)));
    }
    assert(orig.subrange(0, orig.len() as int) =~= orig);
    out
}

/// The issues held by a list of issue collectibles.
fn into_issues(v: &Vec<Emitted>) -> (r: Vec<IssueVc>)
    ensures
        r@ == issues_of(v@),
{
    let mut out: Vec<IssueVc> = Vec::new();
    let mut i: usize = 0;
    while i < v.len()
        invariant
            i <= v@.len(),
            out@ == issues_of(v@.subrange(0, i as int)),
        decreases v@.len() - i,
    {
        let x = match &v[i].item {
            Collectible::Issue(x) => *x,
            Collectible::Path(_) => IssueVc { id: 0 },
        };
        out.push(x);
        assert(out@ =~= issues_of(v@.subrange(0, i + 1)));
        i = i + 1;
    }
    assert(v@.subrange(0, i as int) =~= v@);
    out
}

/// The issues found below a task, with the processing paths that explain
/// how they were reached.
#[derive(Debug)]
pub struct CapturedIssues {
    pub issues: Issues,
    pub processing_path: IssueProcessingPath,
}

impl CapturedIssues {
    /// Whether no issue was captured.
    pub fn is_empty(&self) -> (r: bool)
        ensures
            r == (self.issues@.len() == 0),
    {
        self.issues.len() == 0
    }

    /// The number of captured issues.
    pub fn len(&self) -> (r: usize)
        ensures
            r == self.issues@.len(),
    {
        self.issues.len()
    }

    /// The captured issues.
    pub fn iter(&self) -> (r: Vec<IssueVc>)
        ensures
            r@ == self.issues@,
    {
        let mut out: Vec<IssueVc> = Vec::new();
        let mut i: usize = 0;
        while i < self.issues.len()
            invariant
                i <= self.issues@.len(),
                out@ == self.issues@.subrange(0, i as int),
            decreases self.issues@.len() - i,
        {
            out.push(self.issues[i]);
            assert(out@ =~= self.issues@.subrange(0, i + 1));
            i = i + 1;
        }
        assert(self.issues@.subrange(0, i as int) =~= self.issues@);
        out
    }

    /// Each captured issue with the shortest way from the captured paths to it.
    pub fn iter_with_shortest_path(&self) -> (r: Vec<
        (IssueVc, Result<OptionIssueProcessingPathItems, PathError>),
    >)
        ensures
            r@.len() == self.issues@.len(),
            forall|k: int|
                0 <= k < r@.len() ==> (#[trigger] r@[k]).0 == self.issues@[k] && answers(
                    self.processing_path,
                    self.issues@[k],
                    r@[k].1,
                ),
    {
        let mut out: Vec<(IssueVc, Result<OptionIssueProcessingPathItems, PathError>)> = Vec::new();
        let mut i: usize = 0;
        while i < self.issues.len()
            invariant
                i <= self.issues@.len(),
                out@.len() == i,
                forall|k: int|
                    0 <= k < i ==> (#[trigger] out@[k]).0 == self.issues@[k] && answers(
                        self.processing_path,
                        self.issues@[k],
                        out@[k].1,
                    ),
            decreases self.issues@.len() - i,
        {
            let issue = self.issues[i];
            let found = self.processing_path.shortest_path(issue);
            out.push((issue, found));
            i = i + 1;
        }
        out
    }
}

impl IssueVc {
    /// Raises the issue at task `t`: the issue itself is emitted, and a leaf
    /// processing path for it, so that every issue has a way to be reached.
    pub fn emit(self, rt: &mut TaskRuntime, t: TaskId)
        requires
            old(rt).wf(),
            t.index < old(rt).parents().len(),
            old(rt).next_serial() < u64::MAX - 1,
        ensures
            final(rt).wf(),
            final(rt).parents() == old(rt).parents(),
            final(rt).entries() == old(rt).entries().push(
                Emitted { serial: old(rt).next_serial(), task: t.index, item: Collectible::Issue(self) },
            ).push(
                Emitted {
                    serial: (old(rt).next_serial() + 1) as u64,
                    task: t.index,
                    item: Collectible::Path(IssueProcessingPath::Root(self)),
                },
            ),
            final(rt).next_serial() == old(rt).next_serial() + 2,
    {
        rt.emit(t, Collectible::Issue(self));
        rt.emit(t, Collectible::Path(IssueProcessingPath::Root(self)));
    }

    /// Re-roots the processing paths below `source` under one new item made
    /// of `context` and `description`, emitted at task `current`. The paths
    /// are taken from `source`; where there were none nothing is emitted.
    /// Returns `source`.
    pub fn attach_context(
        rt: &mut TaskRuntime,
        current: TaskId,
        context: AbsoluteSystemPathBuf,
        description: String,
        source: TaskId,
    ) -> (r: TaskId)
        requires
            old(rt).wf(),
            current.index < old(rt).parents().len(),
            old(rt).next_serial() < u64::MAX,
        ensures
            r == source,
            attached(*old(rt), *final(rt), current, Some(context), description, source),
    {
        Self::attach(rt, current, Some(context), description, source)
    }

    /// As `attach_context`, with an item that has no context directory.
    pub fn attach_description(
        rt: &mut TaskRuntime,
        current: TaskId,
        description: String,
        source: TaskId,
    ) -> (r: TaskId)
        requires
            old(rt).wf(),
            current.index < old(rt).parents().len(),
            old(rt).next_serial() < u64::MAX,
        ensures
            r == source,
            attached(*old(rt), *final(rt), current, None, description, source),
    {
        Self::attach(rt, current, None, description, source)
    }

    fn attach(
        rt: &mut TaskRuntime,
        current: TaskId,
        context: Option<AbsoluteSystemPathBuf>,
        description: String,
        source: TaskId,
    ) -> (r: TaskId)
        requires
            old(rt).wf(),
            current.index < old(rt).parents().len(),
            old(rt).next_serial() < u64::MAX,
        ensures
            r == source,
            attached(*old(rt), *final(rt), current, context, description, source),
    {
        let ghost before = *rt;
        let taken = rt.take(source, CollectibleKind::Path);
        if taken.len() > 0 {
            let ghost mid = rt.entries();
            let children = into_paths(taken);
            let item = IssueProcessingPathItem::new(context, description);
            let node = IssueProcessingPath::Item(Some(item), children);
            let ghost c = Collectible::Path(node);
            rt.emit(current, Collectible::Path(node));
            assert(rt.entries().drop_last() =~= mid);
            assert(rt.entries().last().item == c);
        }
        source
    }

    /// All issues below `source`, left in place, with copies of their
    /// processing paths gathered under one node without an item.
    pub fn peek_issues_with_path(rt: &TaskRuntime, source: TaskId) -> (r: CapturedIssues)
        requires
            rt.wf(),
        ensures
            r.issues@ == issues_of(rt.under(source.index as int, CollectibleKind::Issue)),
            r.processing_path matches IssueProcessingPath::Item(head, ch) && head is None
                && ch@.len() == rt.under(source.index as int, CollectibleKind::Path).len()
                && forall|k: int|
                0 <= k < ch@.len() ==> same_tree(
                    #[trigger] ch@[k],
                    paths_of(rt.under(source.index as int, CollectibleKind::Path))[k],
                ),
    {
        let issues = rt.peek(source, CollectibleKind::Issue);
        let paths = rt.peek(source, CollectibleKind::Path);
        let ghost under_issues = rt.under(source.index as int, CollectibleKind::Issue);
        let ghost under_paths = rt.under(source.index as int, CollectibleKind::Path);
        proof {
            assert forall|k: int| 0 <= k < issues@.len() implies #[trigger] issues@[k].item
                == under_issues[k].item by {
                assert(copied(issues@[k].item, under_issues[k].item));
                rt.entries().lemma_filter_pred(
                    |e: Emitted| picked(rt.parents(), e, source.index as int, CollectibleKind::Issue),
                    k,
                );
            }
        }
        let ids = into_issues(&issues);
        assert(ids@ =~= issues_of(under_issues));
        let ghost copies = paths@;
        let children = into_paths(paths);
        proof {
            assert forall|k: int| 0 <= k < children@.len() implies same_tree(
                #[trigger] children@[k],
                paths_of(under_paths)[k],
            ) by {
                assert(copied(copies[k].item, under_paths[k].item));
                rt.entries().lemma_filter_pred(
                    |e: Emitted| picked(rt.parents(), e, source.index as int, CollectibleKind::Path),
                    k,
                );
            }
        }
        CapturedIssues {
            issues: ids,
            processing_path: IssueProcessingPath::Item(None, children),
        }
    }

    /// All issues below `source` with their processing paths, taken away:
    /// they no longer reach the tasks above `source`.
    pub fn take_issues_with_path(rt: &mut TaskRuntime, source: TaskId) -> (r: CapturedIssues)
        requires
            old(rt).wf(),
        ensures
            final(rt).wf(),
            r.issues@ == issues_of(old(rt).under(source.index as int, CollectibleKind::Issue)),
            r.processing_path matches IssueProcessingPath::Item(head, ch) && head is None && ch@
                == paths_of(taken_paths(*old(rt), source)),
            final(rt).entries() == left_after_take(
                left_after_take(old(rt).entries(), old(rt).parents(), source, CollectibleKind::Issue),
                old(rt).parents(),
                source,
                CollectibleKind::Path,
            ),
            final(rt).parents() == old(rt).parents(),
    {
        let issues = rt.take(source, CollectibleKind::Issue);
        let ids = into_issues(&issues);
        let paths = rt.take(source, CollectibleKind::Path);
        let children = into_paths(paths);
        CapturedIssues {
            issues: ids,
            processing_path: IssueProcessingPath::Item(None, children),
        }
    }
}

/// What stays of `entries` once the collectibles of `kind` at or below
/// `source` are taken.
pub open spec fn left_after_take(
    entries: Seq<Emitted>,
    parents: Seq<Option<usize>>,
    source: TaskId,
    kind: CollectibleKind,
) -> Seq<Emitted> {
    entries.filter(|e: Emitted| !picked(parents, e, source.index as int, kind))
}

/// The paths that a take of issues and then of paths at `source` hands out:
/// taking issues leaves every path in place.
pub open spec fn taken_paths(rt: TaskRuntime, source: TaskId) -> Seq<Emitted> {
    left_after_take(rt.entries(), rt.parents(), source, CollectibleKind::Issue).filter(
        |e: Emitted| picked(rt.parents(), e, source.index as int, CollectibleKind::Path),
    )
}

/// The effect of attaching an item: the paths of `before` at or below
/// `source` are taken, and where there were some, one inner node with the
/// new item over them is emitted at `current`.
pub open spec fn attached(
    before: TaskRuntime,
    after: TaskRuntime,
    current: TaskId,
    context: Option<AbsoluteSystemPathBuf>,
    description: String,
    source: TaskId,
) -> bool {
    let taken = before.under(source.index as int, CollectibleKind::Path);
    let left = left_after_take(before.entries(), before.parents(), source, CollectibleKind::Path);
    &&& after.wf()
    &&& after.parents() == before.parents()
    &&& taken.len() == 0 ==> after.entries() == left
    &&& taken.len() > 0 ==> after.entries().len() == left.len() + 1 && after.entries().drop_last()
        == left && after.entries().last().task == current.index && (after.entries().last().item
        matches Collectible::Path(IssueProcessingPath::Item(Some(item), ch)) && item.context
        == context && item.description == description && ch@ == paths_of(taken))
}

} // verus!
