use vstd::prelude::*;
use vstd::string::StringExecFns;

use crate::order::{
    better, lemma_better_prepend, lemma_better_total, lemma_better_transitive, str_less,
    texts_lt_at,
};
use crate::path::{path_text, AbsoluteSystemPathBuf};
use crate::severity::IssueSeverity;
use crate::source::IssueSource;

verus! {

/// A handle to an issue: two handles are the same issue when their ids agree.
#[derive(PartialEq, Eq, Structural, Clone, Copy, Debug)]
pub struct IssueVc {
    pub id: u64,
}

/// One step of a processing path: an optional context directory and a
/// description of what was being done there.
#[derive(Debug)]
pub struct IssueProcessingPathItem {
    pub context: Option<AbsoluteSystemPathBuf>,
    pub description: String,
}

/// The mathematical value of an item: the context's segments and the
/// description's characters.
pub type ItemView = (Option<Seq<Seq<char>>>, Seq<char>);

impl View for IssueProcessingPathItem {
    type V = ItemView;

    open spec fn view(&self) -> ItemView {
        (
            match self.context {
                Some(c) => Some(c@),
                None => None,
            },
            self.description@,
        )
    }
}

/// The string form of an item: `<path> (<description>)`, or the bare
/// description when there is no context.
pub open spec fn item_text(it: ItemView) -> Seq<char> {
    match it.0 {
        Some(c) => path_text(c) + seq![' ', '('] + it.1 + seq![')'],
        None => it.1,
    }
}

pub open spec fn items_view(v: Seq<IssueProcessingPathItem>) -> Seq<ItemView> {
    v.map_values(|it: IssueProcessingPathItem| it@)
}

/// The string forms of the items of a path.
pub open spec fn texts(q: Seq<ItemView>) -> Seq<Seq<char>> {
    q.map_values(|it: ItemView| item_text(it))
}

impl Clone for IssueProcessingPathItem {
    fn clone(&self) -> (r: Self)
        ensures
            r@ == self@,
    {
        self.copy()
    }
}

impl IssueProcessingPathItem {
    /// A copy of the item.
    pub fn copy(&self) -> (r: Self)
        ensures
            r@ == self@,
    {
        IssueProcessingPathItem {
            context: match &self.context {
                Some(c) => Some(c.clone()),
                None => None,
            },
            description: self.description.clone(),
        }
    }

    /// An item with a context directory.
    pub fn new(context: Option<AbsoluteSystemPathBuf>, description: String) -> (r: Self)
        ensures
            r.context == context,
            r.description == description,
    {
        IssueProcessingPathItem { context, description }
    }

    /// The string form of the item.
    pub fn to_string(&self) -> (r: String)
        ensures
            r@ == item_text(self@),
    {
        match &self.context {
            Some(c) => {
                let mut s = c.to_text();
                s.append(" (");
                s.append(self.description.as_str());
                s.append(")");
                proof {
                    reveal_strlit(" (");
                    reveal_strlit(")");
                    assert(s@ =~= item_text(self@));
                }
                s
            },
            None => self.description.clone(),
        }
    }
}

/// Where an issue came from, as a tree: a leaf stands for the place where one
/// issue was raised; an inner node adds an optional item in front of the
/// paths of its children.
#[derive(Debug)]
pub enum IssueProcessingPath {
    Root(IssueVc),
    Item(Option<IssueProcessingPathItem>, Vec<IssueProcessingPath>),
}

/// Every inner node has at least one child.
pub open spec fn path_well_formed(p: IssueProcessingPath) -> bool
    decreases p,
{
    match p {
        IssueProcessingPath::Root(_) => true,
        IssueProcessingPath::Item(_, ch) => ch.len() > 0 && forall|j: int|
            0 <= j < ch.len() ==> path_well_formed(#[trigger] ch@[j]),
    }
}

/// `q` starts with the item `head`, where there is one.
pub open spec fn head_matches(head: Option<IssueProcessingPathItem>, q: Seq<ItemView>) -> bool {
    match head {
        Some(h) => q.len() > 0 && q[0] == h@,
        None => true,
    }
}

/// What is left of `q` once the item `head`, where there is one, is taken off.
pub open spec fn after_head(head: Option<IssueProcessingPathItem>, q: Seq<ItemView>) -> Seq<
    ItemView,
> {
    match head {
        Some(_) => q.drop_first(),
        None => q,
    }
}

/// `q` is one of the ways in which the tree `p` leads to `issue`: the items
/// met on the way from the top of `p` to a leaf that raised `issue`.
pub open spec fn is_path(p: IssueProcessingPath, issue: IssueVc, q: Seq<ItemView>) -> bool
    decreases p,
{
    match p {
        IssueProcessingPath::Root(i) => i == issue && q.len() == 0,
        IssueProcessingPath::Item(head, ch) => head_matches(head, q) && exists|j: int|
            0 <= j < ch.len() && is_path(#[trigger] ch@[j], issue, after_head(head, q)),
    }
}

/// `q` is a shortest way from `p` to `issue`, and among the shortest the
/// first in the order of item texts.
pub open spec fn is_shortest_path(p: IssueProcessingPath, issue: IssueVc, q: Seq<ItemView>) -> bool {
    &&& is_path(p, issue, q)
    &&& forall|o: Seq<ItemView>| #[trigger] is_path(p, issue, o) ==> !better(texts(o), texts(q))
}

/// `r` is the answer to the query for the shortest way from `p` to `issue`:
/// a failure exactly where an inner node has no children, nothing where no
/// way leads there, and otherwise a shortest way, first in the order of item
/// texts among the shortest.
pub open spec fn answers(
    p: IssueProcessingPath,
    issue: IssueVc,
    r: Result<Option<Vec<IssueProcessingPathItem>>, PathError>,
) -> bool {
    &&& (r is Err <==> !path_well_formed(p))
    &&& (r matches Ok(None) ==> forall|q: Seq<ItemView>| !is_path(p, issue, q))
    &&& (r matches Ok(Some(v)) ==> is_shortest_path(p, issue, items_view(v@)))
}

/// The answer of a path query that succeeded: a path, or none.
pub type OptionIssueProcessingPathItems = Option<Vec<IssueProcessingPathItem>>;

/// A list of issues.
pub type Issues = Vec<IssueVc>;

/// The span an issue is about, if any.
pub type OptionIssueSource = Option<IssueSource>;

/// The failure of a path query: an inner node without children.
#[derive(PartialEq, Eq, Structural, Clone, Copy, Debug)]
pub enum PathError {
    EmptyPath,
}

impl PathError {
    pub fn message(&self) -> (r: &'static str)
        ensures
            r == "path can't be empty",
    {
        "path can't be empty"
    }
}

/// Whether path `a` is preferred to path `b`: shorter, or as long and first
/// in the order of item texts.
pub fn is_better_path(a: &Vec<IssueProcessingPathItem>, b: &Vec<IssueProcessingPathItem>) -> (r:
    bool)
    ensures
        r == better(texts(items_view(a@)), texts(items_view(b@))),
{
    let ghost ta = texts(items_view(a@));
    let ghost tb = texts(items_view(b@));
    if a.len() != b.len() {
        return a.len() < b.len();
    }
    let mut i: usize = 0;
    while i < a.len()
        invariant
            a@.len() == b@.len() == ta.len() == tb.len(),
            ta == texts(items_view(a@)),
            tb == texts(items_view(b@)),
            i <= a@.len(),
            texts_lt_at(ta, tb, 0) == texts_lt_at(ta, tb, i as int),
        decreases a@.len() - i,
    {
        let x = a[i].to_string();
        let y = b[i].to_string();
        assert(x@ == ta[i as int]);
        assert(y@ == tb[i as int]);
        if x != y {
            return str_less(x.as_str(), y.as_str());
        }
        i = i + 1;
    }
    false
}

impl IssueProcessingPath {
    /// The shortest way from this tree to `issue`, the first in the order of
    /// item texts among the shortest; `None` where the tree does not reach
    /// the issue. Fails where an inner node has no children.
    pub fn shortest_path(&self, issue: IssueVc) -> (r: Result<
        OptionIssueProcessingPathItems,
        PathError,
    >)
        ensures
            answers(*self, issue, r),
        decreases self,
    {
        match self {
            IssueProcessingPath::Root(i) => {
                if *i == issue {
                    let v: Vec<IssueProcessingPathItem> = Vec::new();
                    assert(items_view(v@) =~= Seq::<ItemView>::empty());
                    assert(is_path(*self, issue, items_view(v@)));
                    assert forall|o: Seq<ItemView>| #[trigger] is_path(*self, issue, o) implies !better(
                        texts(o),
                        texts(items_view(v@)),
                    ) by {
                        assert(texts(o).len() == 0);
                    }
                    Ok(Some(v))
                } else {
                    Ok(None)
                }
            },
            IssueProcessingPath::Item(head, children) => {
                assert(*self == IssueProcessingPath::Item(*head, *children));
                if children.len() == 0 {
                    return Err(PathError::EmptyPath);
                }
                assert(decreases_to!(*self => *children));
                let mut best: Option<Vec<IssueProcessingPathItem>> = None;
                let mut k: usize = 0;
                while k < children.len()
                    invariant
                        *self == IssueProcessingPath::Item(*head, *children),
                        decreases_to!(*self => *children),
                        k <= children@.len(),
                        forall|j: int| 0 <= j < k ==> #[trigger] path_well_formed(children@[j]),
                        best is None ==> forall|j: int, q: Seq<ItemView>|
                            0 <= j < k ==> !#[trigger] is_path(children@[j], issue, q),
                        best matches Some(b) ==> exists|j: int|
                            0 <= j < k && #[trigger] is_path(children@[j], issue, items_view(b@)),
                        best matches Some(b) ==> forall|j: int, q: Seq<ItemView>|
                            0 <= j < k && #[trigger] is_path(children@[j], issue, q) ==> !better(
                                texts(q),
                                texts(items_view(b@)),
                            ),
                    decreases children@.len() - k,
                {
                    let child = &children[k];
                    proof {
                        assert(decreases_to!(*children => children@));
                        assert(decreases_to!(children@ => children@[k as int]));
                    }
                    let found = child.shortest_path(issue);
                    match found {
                        Err(e) => {
                            assert(!path_well_formed(children@[k as int]));
                            return Err(e);
                        },
                        Ok(None) => {},
                        Ok(Some(c)) => {
                            let ghost tc = texts(items_view(c@));
                            match best {
                                None => {
                                    best = Some(c);
                                },
                                Some(b) => {
                                    let ghost tb = texts(items_view(b@));
                                    if is_better_path(&c, &b) {
                                        proof {
                                            assert forall|j: int, q: Seq<ItemView>|
                                                0 <= j <= k && #[trigger] is_path(
                                                    children@[j],
                                                    issue,
                                                    q,
                                                ) implies !better(texts(q), tc) by {
                                                if j < k && better(texts(q), tc) {
                                                    lemma_better_transitive(texts(q), tc, tb);
                                                }
                                            }
                                        }
                                        best = Some(c);
                                    } else {
                                        proof {
                                            assert forall|j: int, q: Seq<ItemView>|
                                                0 <= j <= k && #[trigger] is_path(
                                                    children@[j],
                                                    issue,
                                                    q,
                                                ) implies !better(texts(q), tb) by {
                                                if j == k && better(texts(q), tb) {
                                                    if better(tc, texts(q)) {
                                                        lemma_better_transitive(tc, texts(q), tb);
                                                    } else {
                                                        lemma_better_total(tc, texts(q));
                                                    }
                                                }
                                            }
                                        }
                                        best = Some(b);
                                    }
                                },
                            }
                        },
                    }
                    k = k + 1;
                }
                assert forall|j: int| 0 <= j < children@.len() implies path_well_formed(
                    #[trigger] children@[j],
                ) by {}
                assert(path_well_formed(*self));
                match best {
                    None => {
                        proof {
                            assert forall|q: Seq<ItemView>| !is_path(*self, issue, q) by {
                                if is_path(*self, issue, q) {
                                    let j = choose|j: int|
                                        0 <= j < children@.len() && is_path(
                                            #[trigger] children@[j],
                                            issue,
                                            after_head(*head, q),
                                        );
                                    assert(!is_path(children@[j], issue, after_head(*head, q)));
                                }
                            }
                        }
                        Ok(None)
                    },
                    Some(b) => {
                        match head {
                            None => {
                                proof {
                                    let bv = items_view(b@);
                                    let j0 = choose|j: int|
                                        0 <= j < children@.len() && #[trigger] is_path(
                                            children@[j],
                                            issue,
                                            bv,
                                        );
                                    assert(is_path(children@[j0], issue, bv));
                                    assert forall|o: Seq<ItemView>| #[trigger]
                                        is_path(*self, issue, o) implies !better(
                                        texts(o),
                                        texts(bv),
                                    ) by {
                                        let j = choose|j: int|
                                            0 <= j < children@.len() && is_path(
                                                #[trigger] children@[j],
                                                issue,
                                                o,
                                            );
                                        assert(is_path(children@[j], issue, o));
                                    }
                                }
                                Ok(Some(b))
                            },
                            Some(h) => {
                                let mut out: Vec<IssueProcessingPathItem> = Vec::new();
                                out.push(h.copy());
                                let mut i: usize = 0;
                                while i < b.len()
                                    invariant
                                        i <= b@.len(),
                                        out@.len() == i + 1,
                                        out@[0]@ == h@,
                                        forall|k: int|
                                            0 <= k < i ==> (#[trigger] out@[k + 1])@ == b@[k]@,
                                    decreases b@.len() - i,
                                {
                                    out.push(b[i].copy());
                                    i = i + 1;
                                }
                                let ghost bv = items_view(b@);
                                let ghost ov = items_view(out@);
                                proof {
                                    assert(ov =~= seq![h@] + bv) by {
                                        assert forall|k: int| 0 <= k < ov.len() implies ov[k] == (
                                        seq![h@] + bv)[k] by {
                                            if k > 0 {
                                                assert(out@[(k - 1) + 1]@ == b@[k - 1]@);
                                            }
                                        }
                                    }
                                    assert(ov.drop_first() =~= bv);
                                    assert(texts(ov) =~= seq![item_text(h@)] + texts(bv));
                                    assert forall|o: Seq<ItemView>| #[trigger]
                                        is_path(*self, issue, o) implies !better(
                                        texts(o),
                                        texts(ov),
                                    ) by {
                                        let j = choose|j: int|
                                            0 <= j < children@.len() && is_path(
                                                #[trigger] children@[j],
                                                issue,
                                                o.drop_first(),
                                            );
                                        assert(!better(texts(o.drop_first()), texts(bv)));
                                        assert(o =~= seq![h@] + o.drop_first());
                                        assert(texts(o) =~= seq![item_text(h@)] + texts(
                                            o.drop_first(),
                                        ));
                                        lemma_better_prepend(
                                            item_text(h@),
                                            texts(o.drop_first()),
                                            texts(bv),
                                        );
                                    }
                                }
                                Ok(Some(out))
                            },
                        }
                    },
                }
            },
        }
    }
}

} // verus!

verus! {

/// `a` and `b` are the same tree: same leaves, same item values, same shape.
pub open spec fn same_tree(a: IssueProcessingPath, b: IssueProcessingPath) -> bool
    decreases a,
{
    match (a, b) {
        (IssueProcessingPath::Root(x), IssueProcessingPath::Root(y)) => x == y,
        (IssueProcessingPath::Item(ha, ca), IssueProcessingPath::Item(hb, cb)) => {
            &&& (ha is Some <==> hb is Some)
            &&& (ha is Some ==> ha->0@ == hb->0@)
            &&& ca.len() == cb.len()
            &&& forall|j: int| 0 <= j < ca.len() ==> same_tree(#[trigger] ca@[j], cb@[j])
        },
        _ => false,
    }
}

/// Trees that are the same lead to an issue in the same ways.
pub proof fn lemma_same_tree_paths(a: IssueProcessingPath, b: IssueProcessingPath, issue: IssueVc)
    requires
        same_tree(a, b),
    ensures
        path_well_formed(a) == path_well_formed(b),
        forall|q: Seq<ItemView>| #[trigger] is_path(a, issue, q) == is_path(b, issue, q),
    decreases a,
{
    match (a, b) {
        (IssueProcessingPath::Item(ha, ca), IssueProcessingPath::Item(hb, cb)) => {
            assert forall|j: int| 0 <= j < ca.len() implies path_well_formed(#[trigger] ca@[j])
                == path_well_formed(cb@[j]) && (forall|q: Seq<ItemView>|
                #[trigger] is_path(ca@[j], issue, q) == is_path(cb@[j], issue, q)) by {
                assert(same_tree(ca@[j], cb@[j]));
                lemma_same_tree_paths(ca@[j], cb@[j], issue);
            }
            if path_well_formed(a) {
                assert forall|j: int| 0 <= j < cb.len() implies path_well_formed(
                    #[trigger] cb@[j],
                ) by {
                    assert(path_well_formed(ca@[j]));
                }
            }
            if path_well_formed(b) {
                assert forall|j: int| 0 <= j < ca.len() implies path_well_formed(
                    #[trigger] ca@[j],
                ) by {
                    assert(path_well_formed(cb@[j]));
                }
            }
            assert forall|q: Seq<ItemView>| #[trigger] is_path(a, issue, q) == is_path(
                b,
                issue,
                q,
            ) by {
                assert(head_matches(ha, q) == head_matches(hb, q));
                assert(after_head(ha, q) == after_head(hb, q));
                let r = after_head(ha, q);
                if is_path(a, issue, q) {
                    let j = choose|j: int|
                        0 <= j < ca.len() && is_path(#[trigger] ca@[j], issue, r);
                    assert(is_path(cb@[j], issue, r));
                }
                if is_path(b, issue, q) {
                    let j = choose|j: int|
                        0 <= j < cb.len() && is_path(#[trigger] cb@[j], issue, r);
                    assert(is_path(ca@[j], issue, r));
                }
            }
        },
        _ => {},
    }
}

impl IssueProcessingPath {
    /// A copy of the whole tree.
    pub fn deep_copy(&self) -> (r: Self)
        ensures
            same_tree(r, *self),
        decreases self,
    {
        match self {
            IssueProcessingPath::Root(i) => IssueProcessingPath::Root(*i),
            IssueProcessingPath::Item(head, children) => {
                assert(decreases_to!(*self => *children));
                let h = match head {
                    Some(x) => Some(x.copy()),
                    None => None,
                };
                let mut out: Vec<IssueProcessingPath> = Vec::new();
                let mut k: usize = 0;
                while k < children.len()
                    invariant
                        decreases_to!(*self => *children),
                        k <= children@.len(),
                        out@.len() == k,
                        forall|j: int| 0 <= j < k ==> same_tree(#[trigger] out@[j], children@[j]),
                    decreases children@.len() - k,
                {
                    assert(decreases_to!(*children => children@));
                    assert(decreases_to!(children@ => children@[k as int]));
                    let c = children[k].deep_copy();
                    out.push(c);
                    k = k + 1;
                }
                let r = IssueProcessingPath::Item(h, out);
                assert forall|j: int| 0 <= j < out@.len() implies same_tree(
                    #[trigger] out@[j],
                    children@[j],
                ) by {}
                r
            },
        }
    }
}

/// A reported problem: how serious it is, where it was found, what it is
/// about, and the finer problems that make it up.
#[derive(Debug)]
pub struct Issue {
    pub severity: IssueSeverity,
    pub context: AbsoluteSystemPathBuf,
    pub category: String,
    pub title: String,
    pub description: String,
    pub documentation_link: String,
    pub source: OptionIssueSource,
    pub sub_issues: Vec<Issue>,
}

impl Issue {
    /// An issue with the usual defaults: severity `Error`, no category, no
    /// documentation link, no source and no sub-issues.
    pub fn new(context: AbsoluteSystemPathBuf, title: String, description: String) -> (r: Self)
        ensures
            r.severity == IssueSeverity::Error,
            r.context == context,
            r.category@.len() == 0,
            r.title == title,
            r.description == description,
            r.documentation_link@.len() == 0,
            r.source is None,
            r.sub_issues@.len() == 0,
    {
        Issue {
            severity: IssueSeverity::Error,
            context,
            category: String::new(),
            title,
            description,
            documentation_link: String::new(),
            source: None,
            sub_issues: Vec::new(),
        }
    }

    /// The issue with another severity.
    pub fn with_severity(self, severity: IssueSeverity) -> (r: Self)
        ensures
            r.severity == severity,
            r.title == self.title,
            r.description == self.description,
    {
        Issue { severity, ..self }
    }

    /// The issue with a category.
    pub fn with_category(self, category: String) -> (r: Self)
        ensures
            r.category == category,
            r.severity == self.severity,
            r.title == self.title,
    {
        Issue { category, ..self }
    }

    /// The issue with the span of an asset that it is about.
    pub fn with_source(self, source: IssueSource) -> (r: Self)
        ensures
            r.source == Some(source),
            r.severity == self.severity,
            r.title == self.title,
    {
        Issue { source: Some(source), ..self }
    }

    /// The issue with one more sub-issue.
    pub fn with_sub_issue(self, sub: Issue) -> (r: Self)
        ensures
            r.sub_issues@ == self.sub_issues@.push(sub),
            r.severity == self.severity,
            r.title == self.title,
    {
        let mut s = self;
        s.sub_issues.push(sub);
        s
    }
}

} // verus!
