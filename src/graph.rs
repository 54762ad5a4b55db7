use vstd::prelude::*;

use crate::context::Asset;
use crate::path::{strictly_inside, AbsoluteSystemPathBuf};

verus! {

/// What an edge of the graph stands for: a module that the asset needs, or
/// only its type declarations.
#[derive(PartialEq, Eq, Structural, Clone, Copy, Debug)]
pub enum ReferenceKind {
    Module,
    TypesOnly,
}

/// An outgoing edge of an asset, to the asset at index `target`.
#[derive(PartialEq, Eq, Structural, Clone, Copy, Debug)]
pub struct AssetReference {
    pub kind: ReferenceKind,
    pub target: usize,
}

/// Assets with their outgoing references: `references[i]` are the edges of
/// `assets[i]`.
#[derive(Debug)]
pub struct AssetGraph {
    pub assets: Vec<Asset>,
    pub references: Vec<Vec<AssetReference>>,
}

/// The targets of the module edges among `refs`, in order.
pub open spec fn module_targets(refs: Seq<AssetReference>) -> Seq<usize>
    decreases refs.len(),
{
    if refs.len() == 0 {
        seq![]
    } else if refs.last().kind == ReferenceKind::Module {
        module_targets(refs.drop_last()).push(refs.last().target)
    } else {
        module_targets(refs.drop_last())
    }
}

impl AssetGraph {
    /// The edges of each asset, as mathematical sequences.
    pub open spec fn edges(&self) -> Seq<Seq<AssetReference>> {
        self.references@.map_values(|v: Vec<AssetReference>| v@)
    }

    /// Every asset has a list of edges and every edge leads to an asset.
    pub open spec fn wf(&self) -> bool {
        &&& self.references@.len() == self.assets@.len()
        &&& forall|i: int, k: int|
            0 <= i < self.references@.len() && 0 <= k < self.references@[i]@.len()
                ==> #[trigger] self.references@[i]@[k].target < self.assets@.len()
    }

    /// Asset `j` is the target of a module edge of asset `i`.
    pub open spec fn module_edge(&self, i: int, j: int) -> bool {
        0 <= i < self.references@.len() && exists|k: int|
            0 <= k < self.references@[i]@.len() && (#[trigger] self.references@[i]@[k]).kind
                == ReferenceKind::Module && self.references@[i]@[k].target as int == j
    }

    /// Asset `i` is reached from `root` through at most `n` module edges.
    pub open spec fn reaches_within(&self, root: int, n: nat, i: int) -> bool
        decreases n,
    {
        if n == 0 {
            i == root
        } else {
            self.reaches_within(root, (n - 1) as nat, i) || exists|j: int|
                self.reaches_within(root, (n - 1) as nat, j) && #[trigger] self.module_edge(j, i)
        }
    }

    /// Asset `i` is reached from `root` through module edges.
    pub open spec fn reaches(&self, root: int, i: int) -> bool {
        exists|n: nat| #[trigger] self.reaches_within(root, n, i)
    }

    /// The assets that asset `a` references as modules; type-only edges are
    /// left out.
    pub fn all_referenced_assets(&self, a: usize) -> (r: Vec<usize>)
        requires
            a < self.references@.len(),
        ensures
            r@ == module_targets(self.references@[a as int]@),
    {
        let refs = &self.references[a];
        let mut out: Vec<usize> = Vec::new();
        let mut i: usize = 0;
        while i < refs.len()
            invariant
                i <= refs@.len(),
                out@ == module_targets(refs@.subrange(0, i as int)),
            decreases refs@.len() - i,
        {
            let ghost pre = refs@.subrange(0, i + 1);
            assert(pre.drop_last() =~= refs@.subrange(0, i as int));
            if refs[i].kind == ReferenceKind::Module {
                out.push(refs[i].target);
            }
            i = i + 1;
        }
        assert(refs@.subrange(0, i as int) =~= refs@);
        out
    }
}

/// A list without repeats of numbers below `n` has at most `n` elements.
proof fn lemma_distinct_bounded(s: Seq<usize>, n: nat)
    requires
        s.no_duplicates(),
        forall|i: int| 0 <= i < s.len() ==> (#[trigger] s[i] as nat) < n,
    ensures
        s.len() <= n,
    decreases n,
{
    if n == 0 {
        if s.len() > 0 {
            assert((s[0] as nat) < 0);
        }
    } else if s.contains((n - 1) as usize) {
        let i = choose|i: int| 0 <= i < s.len() && s[i] == (n - 1) as usize;
        let t = s.remove(i);
        assert forall|a: int, b: int| 0 <= a < t.len() && 0 <= b < t.len() && a != b implies t[a]
            != t[b] by {
            let a2 = if a < i { a } else { a + 1 };
            let b2 = if b < i { b } else { b + 1 };
            assert(t[a] == s[a2] && t[b] == s[b2]);
        }
        assert forall|k: int| 0 <= k < t.len() implies (#[trigger] t[k] as nat) < (n - 1) as nat by {
            let k2 = if k < i { k } else { k + 1 };
            assert(t[k] == s[k2]);
            assert(k2 != i);
        }
        lemma_distinct_bounded(t, (n - 1) as nat);
    } else {
        assert forall|k: int| 0 <= k < s.len() implies (#[trigger] s[k] as nat) < (n - 1) as nat by {
            if s[k] as nat == n - 1 {
                assert(s.contains((n - 1) as usize));
            }
        }
        lemma_distinct_bounded(s, (n - 1) as nat);
    }
}

/// A set of assets that holds `root` and every module target of its
/// members holds every asset reached from `root`.
proof fn lemma_closed_holds_reached(g: &AssetGraph, root: int, seen: Seq<bool>, n: nat, i: int)
    requires
        seen.len() == g.assets@.len(),
        0 <= root < seen.len(),
        seen[root],
        forall|a: int, b: int| 0 <= a < seen.len() && seen[a] && #[trigger] g.module_edge(a, b) ==> 0 <= b < seen.len() && seen[b],
        g.reaches_within(root, n, i),
    ensures
        0 <= i < seen.len() && seen[i],
    decreases n,
{
    if n > 0 {
        if g.reaches_within(root, (n - 1) as nat, i) {
            lemma_closed_holds_reached(g, root, seen, (n - 1) as nat, i);
        } else {
            let j = choose|j: int| g.reaches_within(root, (n - 1) as nat, j) && #[trigger] g.module_edge(j, i);
            lemma_closed_holds_reached(g, root, seen, (n - 1) as nat, j);
        }
    }
}

impl AssetGraph {
    /// Every asset reached from `root` through module edges, each once, the
    /// root first.
    pub fn reachable(&self, root: usize) -> (r: Vec<usize>)
        requires
            self.wf(),
            root < self.assets@.len(),
        ensures
            r@.len() > 0 && r@[0] == root,
            r@.no_duplicates(),
            forall|k: int| 0 <= k < r@.len() ==> #[trigger] r@[k] < self.assets@.len(),
            forall|k: int| 0 <= k < r@.len() ==> self.reaches(root as int, #[trigger] r@[k] as int),
            forall|i: int| self.reaches(root as int, i) ==> r@.contains(i as usize),
    {
        let n = self.assets.len();
        let mut seen: Vec<bool> = Vec::new();
        let mut k: usize = 0;
        while k < n
            invariant
                k <= n,
                seen@.len() == k,
                forall|j: int| 0 <= j < k ==> !seen@[j],
            decreases n - k,
        {
            seen.push(false);
            k = k + 1;
        }
        let mut order: Vec<usize> = Vec::new();
        seen.set(root, true);
        order.push(root);
        assert(self.reaches_within(root as int, 0, root as int));
        let mut done: usize = 0;
        proof {
            assert forall|a: int| 0 <= a < n && seen@[a] implies order@.contains(a as usize) by {
                assert(a == root as int);
                assert(order@[0] == root);
            }
        }
        while done < order.len()
            invariant
                self.wf(),
                n == self.assets@.len(),
                root < n,
                seen@.len() == n,
                done <= order@.len(),
                order@.len() > 0 && order@[0] == root,
                order@.len() <= n,
                order@.no_duplicates(),
                forall|j: int| 0 <= j < order@.len() ==> (#[trigger] order@[j]) < n && seen@[order@[j] as int],
                forall|a: int| 0 <= a < n && seen@[a] ==> order@.contains(a as usize),
                forall|j: int| 0 <= j < order@.len() ==> self.reaches(root as int, #[trigger] order@[j] as int),
                forall|j: int, b: int|
                    0 <= j < done && #[trigger] self.module_edge(order@[j] as int, b) ==> 0 <= b < n
                        && seen@[b],
            decreases n - done,
        {
            let a = order[done];
            let refs = &self.references[a];
            let mut t: usize = 0;
            while t < refs.len()
                invariant
                    self.wf(),
                    n == self.assets@.len(),
                    root < n,
                    a < n,
                    *refs == self.references@[a as int],
                    seen@.len() == n,
                    done < order@.len(),
                    order@[done as int] == a,
                    t <= refs@.len(),
                    order@.len() <= n,
                    order@.len() > 0 && order@[0] == root,
                    order@.no_duplicates(),
                    forall|j: int| 0 <= j < order@.len() ==> (#[trigger] order@[j]) < n && seen@[order@[j] as int],
                    forall|c: int| 0 <= c < n && seen@[c] ==> order@.contains(c as usize),
                    forall|j: int| 0 <= j < order@.len() ==> self.reaches(root as int, #[trigger] order@[j] as int),
                    forall|j: int, b: int|
                        0 <= j < done && #[trigger] self.module_edge(order@[j] as int, b) ==> 0 <= b < n
                            && seen@[b],
                    forall|m: int| 0 <= m < t && (#[trigger] refs@[m]).kind == ReferenceKind::Module ==> seen@[refs@[m].target as int],
                decreases refs@.len() - t,
            {
                let r = refs[t];
                assert(refs@[t as int].target < n);
                if r.kind == ReferenceKind::Module && !seen[r.target] {
                    let b = r.target;
                    proof {
                        assert(self.reaches(root as int, a as int));
                        let m = choose|m: nat| #[trigger] self.reaches_within(root as int, m, a as int);
                        assert(self.module_edge(a as int, b as int));
                        assert(self.reaches_within(root as int, m + 1, b as int));
                        assert(self.reaches(root as int, b as int));
                        if order@.contains(b) {
                            let j = choose|j: int| 0 <= j < order@.len() && order@[j] == b;
                            assert(seen@[order@[j] as int]);
                        }
                    }
                    let ghost old_order = order@;
                    seen.set(b, true);
                    order.push(b);
                    proof {
                        assert forall|c: int| 0 <= c < n && seen@[c] implies order@.contains(c as usize) by {
                            if c != b as int {
                                assert(old_order.contains(c as usize));
                                let j = choose|j: int| 0 <= j < old_order.len() && old_order[j] == c as usize;
                                assert(order@[j] == c as usize);
                            } else {
                                assert(order@[order@.len() - 1] == b);
                            }
                        }
                        assert forall|j: int| 0 <= j < order@.len() implies self.reaches(root as int, #[trigger] order@[j] as int) by {
                            if j < old_order.len() {
                                assert(order@[j] == old_order[j]);
                            } else {
                                assert(order@[j] == b);
                            }
                        }
                        lemma_distinct_bounded(order@, n as nat);
                    }
                }
                t = t + 1;
            }
            proof {
                assert forall|j: int, b: int|
                    0 <= j < done + 1 && #[trigger] self.module_edge(order@[j] as int, b) implies 0 <= b < n
                        && seen@[b] by {
                    if j == done {
                        let k = choose|k: int|
                            0 <= k < refs@.len() && (#[trigger] refs@[k]).kind == ReferenceKind::Module
                                && refs@[k].target as int == b;
                        assert(seen@[refs@[k].target as int]);
                    }
                }
            }
            done = done + 1;
        }
        proof {
            assert forall|i: int| self.reaches(root as int, i) implies order@.contains(i as usize) by {
                let m = choose|m: nat| #[trigger] self.reaches_within(root as int, m, i);
                assert forall|a: int, b: int| 0 <= a < seen@.len() && seen@[a] && #[trigger] self.module_edge(a, b)
                    implies 0 <= b < seen@.len() && seen@[b] by {
                    assert(order@.contains(a as usize));
                    let j = choose|j: int| 0 <= j < order@.len() && order@[j] == a as usize;
                    assert(self.module_edge(order@[j] as int, b));
                }
                lemma_closed_holds_reached(self, root as int, seen@, m, i);
            }
        }
        order
    }

    /// The assets that emitting `root` writes: every asset reached from it,
    /// each once.
    pub fn emit(&self, root: usize) -> (r: Vec<usize>)
        requires
            self.wf(),
            root < self.assets@.len(),
        ensures
            r@.no_duplicates(),
            forall|k: int| 0 <= k < r@.len() ==> #[trigger] r@[k] < self.assets@.len(),
            forall|k: int| 0 <= k < r@.len() ==> self.reaches(root as int, #[trigger] r@[k] as int),
            forall|i: int| self.reaches(root as int, i) ==> r@.contains(i as usize),
    {
        self.reachable(root)
    }

    /// The assets that emitting `root` into `output_dir` writes: those
    /// reached from `root` whose path lies strictly inside `output_dir`,
    /// each once; the others are skipped.
    pub fn emit_with_completion(&self, root: usize, output_dir: &AbsoluteSystemPathBuf) -> (r: Vec<usize>)
        requires
            self.wf(),
            root < self.assets@.len(),
        ensures
            r@.no_duplicates(),
            forall|k: int| 0 <= k < r@.len() ==> #[trigger] r@[k] < self.assets@.len()
                && self.reaches(root as int, r@[k] as int)
                && strictly_inside(self.assets@[r@[k] as int].path@, output_dir@),
            forall|i: int| self.reaches(root as int, i) && 0 <= i < self.assets@.len()
                && strictly_inside(self.assets@[i].path@, output_dir@) ==> r@.contains(i as usize),
    {
        let all = self.reachable(root);
        let mut out: Vec<usize> = Vec::new();
        let mut k: usize = 0;
        while k < all.len()
            invariant
                self.wf(),
                k <= all@.len(),
                all@.no_duplicates(),
                forall|j: int| 0 <= j < all@.len() ==> self.reaches(root as int, #[trigger] all@[j] as int),
                forall|i: int| self.reaches(root as int, i) ==> all@.contains(i as usize),
                forall|j: int| 0 <= j < all@.len() ==> #[trigger] all@[j] < self.assets@.len(),
                out@.no_duplicates(),
                forall|j: int| 0 <= j < out@.len() ==> #[trigger] out@[j] < self.assets@.len()
                    && self.reaches(root as int, out@[j] as int)
                    && strictly_inside(self.assets@[out@[j] as int].path@, output_dir@),
                forall|j: int| 0 <= j < out@.len() ==> exists|m: int| 0 <= m < k && all@[m] == #[trigger] out@[j],
                forall|m: int| 0 <= m < k && strictly_inside(self.assets@[all@[m] as int].path@, output_dir@)
                    ==> out@.contains(#[trigger] all@[m]),
            decreases all@.len() - k,
        {
            let a = all[k];
            if emit_asset_into_dir(&self.assets[a], output_dir) {
                let ghost old_out = out@;
                proof {
                    if old_out.contains(a) {
                        let j = choose|j: int| 0 <= j < old_out.len() && old_out[j] == a;
                        let m = choose|m: int| 0 <= m < k && all@[m] == #[trigger] old_out[j];
                        assert(all@[m] == all@[k as int]);
                    }
                }
                out.push(a);
                proof {
                    assert forall|j: int| 0 <= j < out@.len() implies exists|m: int| 0 <= m < k + 1 && all@[m] == #[trigger] out@[j] by {
                        if j < old_out.len() {
                            assert(out@[j] == old_out[j]);
                            let m = choose|m: int| 0 <= m < k && all@[m] == #[trigger] old_out[j];
                        } else {
                            assert(all@[k as int] == out@[j]);
                        }
                    }
                    assert forall|m: int| 0 <= m < k + 1 && strictly_inside(self.assets@[all@[m] as int].path@, output_dir@)
                        implies out@.contains(#[trigger] all@[m]) by {
                        if m < k {
                            let j = choose|j: int| 0 <= j < old_out.len() && old_out[j] == all@[m];
                            assert(out@[j] == all@[m]);
                        } else {
                            assert(out@[out@.len() - 1] == all@[m]);
                        }
                    }
                }
            }
            k = k + 1;
        }
        proof {
            assert forall|i: int| self.reaches(root as int, i) && 0 <= i < self.assets@.len()
                && strictly_inside(self.assets@[i].path@, output_dir@) implies out@.contains(i as usize) by {
                assert(self.assets@.len() == self.assets.len());
                assert((i as usize) as int == i);
                assert(all@.contains(i as usize));
                let m = choose|m: int| 0 <= m < all@.len() && all@[m] == i as usize;
                assert(all@[m] as int == i);
                assert(out@.contains(all@[m]));
            }
        }
        out
    }
}

/// Whether emitting into `output_dir` writes `asset`: only where its path
/// lies strictly inside that directory.
pub fn emit_asset_into_dir(asset: &Asset, output_dir: &AbsoluteSystemPathBuf) -> (r: bool)
    ensures
        r == strictly_inside(asset.path@, output_dir@),
{
    asset.path.is_inside(output_dir)
}

/// `x` is among the first `k` entries of `s`.
pub open spec fn in_prefix(s: Seq<usize>, k: int, x: usize) -> bool {
    exists|m: int| 0 <= m < k && s[m] == x
}

impl AssetGraph {
    /// For each asset, the assets reached from `root` that reference it as a
    /// module, each once.
    pub fn compute_back_references(&self, root: usize) -> (r: Vec<Vec<usize>>)
        requires
            self.wf(),
            root < self.assets@.len(),
        ensures
            r@.len() == self.assets@.len(),
            forall|t: int| 0 <= t < r@.len() ==> (#[trigger] r@[t])@.no_duplicates(),
            forall|t: int, x: usize|
                0 <= t < r@.len() ==> ((#[trigger] r@[t]@.contains(x)) <==> self.reaches(
                    root as int,
                    x as int,
                ) && self.module_edge(x as int, t)),
    {
        let n = self.assets.len();
        let all = self.reachable(root);
        let mut by: Vec<Vec<usize>> = Vec::new();
        let mut k: usize = 0;
        while k < n
            invariant
                k <= n,
                by@.len() == k,
                forall|t: int| 0 <= t < k ==> (#[trigger] by@[t])@.len() == 0,
            decreases n - k,
        {
            by.push(Vec::new());
            k = k + 1;
        }
        let mut i: usize = 0;
        while i < all.len()
            invariant
                self.wf(),
                n == self.assets@.len(),
                by@.len() == n,
                i <= all@.len(),
                all@.no_duplicates(),
                forall|j: int| 0 <= j < all@.len() ==> #[trigger] all@[j] < n,
                forall|j: int| 0 <= j < all@.len() ==> self.reaches(root as int, #[trigger] all@[j] as int),
                forall|x: int| self.reaches(root as int, x) ==> all@.contains(x as usize),
                forall|t: int| 0 <= t < n ==> (#[trigger] by@[t])@.no_duplicates(),
                forall|t: int, x: usize|
                    0 <= t < n ==> ((#[trigger] by@[t]@.contains(x)) <==> in_prefix(all@, i as int, x)
                        && self.module_edge(x as int, t)),
            decreases all@.len() - i,
        {
            let a = all[i];
            let refs = &self.references[a];
            let mut q: usize = 0;
            proof {
                assert forall|t: int| 0 <= t < n implies !(#[trigger] by@[t]@.contains(a)) by {
                    if by@[t]@.contains(a) {
                        let m = choose|m: int| 0 <= m < i && all@[m] == a;
                        assert(all@[m] == all@[i as int]);
                    }
                }
            }
            while q < refs.len()
                invariant
                    self.wf(),
                    n == self.assets@.len(),
                    by@.len() == n,
                    i < all@.len(),
                    a == all@[i as int],
                    a < n,
                    *refs == self.references@[a as int],
                    q <= refs@.len(),
                    all@.no_duplicates(),
                    forall|t: int| 0 <= t < n ==> (#[trigger] by@[t])@.no_duplicates(),
                    forall|t: int| 0 <= t < n && #[trigger] by@[t]@.contains(a) ==> by@[t]@.last() == a,
                    forall|t: int, x: usize|
                        0 <= t < n ==> ((#[trigger] by@[t]@.contains(x)) <==> (in_prefix(all@, i as int, x)
                            && self.module_edge(x as int, t)) || (x == a && exists|k: int|
                            0 <= k < q && (#[trigger] refs@[k]).kind == ReferenceKind::Module
                                && refs@[k].target as int == t)),
                decreases refs@.len() - q,
            {
                let e = refs[q];
                assert(refs@[q as int].target < n);
                if e.kind == ReferenceKind::Module {
                    let t = e.target;
                    let ghost old_by = by@;
                    let mut v = by.remove(t);
                    let ghost old_v = v@;
                    assert(old_v == old_by[t as int]@);
                    let len = v.len();
                    let already = len > 0 && v[len - 1] == a;
                    if !already {
                        v.push(a);
                    }
                    let ghost new_v = v@;
                    by.insert(t, v);
                    proof {
                        assert(by@ =~= old_by.update(t as int, by@[t as int]));
                        assert(by@[t as int]@ == new_v);
                        assert forall|x: usize| #[trigger] new_v.contains(x) == (old_v.contains(x) || x == a) by {
                            if !already && x != a && new_v.contains(x) {
                                let j = choose|j: int| 0 <= j < new_v.len() && new_v[j] == x;
                                assert(old_v[j] == x);
                            }
                            if !already && old_v.contains(x) {
                                let j = choose|j: int| 0 <= j < old_v.len() && old_v[j] == x;
                                assert(new_v[j] == x);
                            }
                            if !already && x == a {
                                assert(new_v[new_v.len() - 1] == a);
                            }
                            if already && x == a {
                                assert(old_v[old_v.len() - 1] == a);
                            }
                        }
                        assert forall|tt: int, x: usize| 0 <= tt < n implies ((#[trigger] by@[tt]@.contains(x)) <==> (in_prefix(all@, i as int, x)
                            && self.module_edge(x as int, tt)) || (x == a && exists|k: int|
                            0 <= k < q + 1 && (#[trigger] refs@[k]).kind == ReferenceKind::Module
                                && refs@[k].target as int == tt)) by {
                            if tt == t as int {
                                if x == a {
                                    assert(refs@[q as int].kind == ReferenceKind::Module && refs@[q as int].target as int == tt);
                                    if already {
                                        assert(old_v[old_v.len() - 1] == a);
                                    } else {
                                        assert(v@[v@.len() - 1] == a);
                                    }
                                }
                            }
                        }
                        if !already {
                            assert(!old_v.contains(a));
                            assert(new_v.no_duplicates()) by {
                                assert forall|p: int, q2: int| 0 <= p < q2 < new_v.len() implies new_v[p] != new_v[q2] by {
                                    if q2 == new_v.len() - 1 {
                                        assert(old_v.contains(old_v[p]));
                                    } else {
                                        assert(new_v[p] == old_v[p] && new_v[q2] == old_v[q2]);
                                    }
                                }
                            }
                        }
                        assert forall|tt: int| 0 <= tt < n && #[trigger] by@[tt]@.contains(a) implies by@[tt]@.last() == a by {
                            if tt != t as int {
                                assert(by@[tt] == old_by[tt]);
                            }
                        }
                    }
                }
                q = q + 1;
            }
            proof {
                assert forall|t: int, x: usize|
                    0 <= t < n implies ((#[trigger] by@[t]@.contains(x)) <==> in_prefix(all@, i + 1, x)
                        && self.module_edge(x as int, t)) by {
                    if x == a {
                        assert(in_prefix(all@, i + 1, x));
                    }
                    if in_prefix(all@, i + 1, x) && !in_prefix(all@, i as int, x) {
                        let m = choose|m: int| 0 <= m < i + 1 && all@[m] == x;
                        assert(m == i);
                    }
                }
            }
            i = i + 1;
        }
        proof {
            assert forall|t: int, x: usize|
                0 <= t < n implies ((#[trigger] by@[t]@.contains(x)) <==> self.reaches(root as int, x as int)
                    && self.module_edge(x as int, t)) by {
                if in_prefix(all@, i as int, x) {
                    let m = choose|m: int| 0 <= m < i && all@[m] == x;
                    assert(self.reaches(root as int, all@[m] as int));
                }
                if self.reaches(root as int, x as int) {
                    assert(self.assets@.len() == self.assets.len());
                    assert(all@.contains(x));
                    let m = choose|m: int| 0 <= m < all@.len() && all@[m] == x;
                    assert(in_prefix(all@, i as int, x));
                }
            }
        }
        by
    }
}

/// How many assets `print_most_referenced` reports.
pub const TOP_REFERENCES: usize = 5;

/// `top` lists assets with at least one referrer, most referenced first.
pub open spec fn top_shape(by: Seq<Seq<usize>>, top: Seq<usize>) -> bool {
    &&& top.no_duplicates()
    &&& forall|p: int| 0 <= p < top.len() ==> (#[trigger] top[p]) < by.len() && by[top[p] as int].len() > 0
    &&& forall|p: int, q: int| 0 <= p < q < top.len() ==> by[top[p] as int].len() >= by[top[q] as int].len()
}

/// Every asset among the first `i` with a referrer is in `top`, or `top` is
/// full and the asset has no more referrers than the last one of `top`.
pub open spec fn top_complete(by: Seq<Seq<usize>>, top: Seq<usize>, i: int, limit: usize) -> bool {
    forall|t: int|
        0 <= t < i && by[t].len() > 0 && !top.contains(t as usize) ==> top.len() == limit && (limit
            > 0 ==> #[trigger] by[t].len() <= by[top[limit - 1] as int].len())
}

/// The assets with the most referrers, at most `limit` of them, most
/// referenced first; among equally referenced ones the earlier asset comes
/// first.
/// Places asset `i` among the ranked assets `top`.
#[verifier::rlimit(50)]
fn rank_one(by: &Vec<Vec<usize>>, top: &mut Vec<usize>, i: usize, limit: usize, Ghost(m): Ghost<Seq<Seq<usize>>>)
    requires
        m == by@.map_values(|v: Vec<usize>| v@),
        i < by@.len(),
        old(top)@.len() <= limit,
        top_shape(m, old(top)@),
        forall|p: int| 0 <= p < old(top)@.len() ==> #[trigger] old(top)@[p] < i,
        top_complete(m, old(top)@, i as int, limit),
    ensures
        final(top)@.len() <= limit,
        top_shape(m, final(top)@),
        forall|p: int| 0 <= p < final(top)@.len() ==> #[trigger] final(top)@[p] < i + 1,
        top_complete(m, final(top)@, i + 1, limit),
{
    let c = by[i].len();
    if c > 0 {
        let mut pos: usize = 0;
        while pos < top.len() && by[top[pos]].len() >= c
            invariant
                m == by@.map_values(|v: Vec<usize>| v@),
                i < by@.len(),
                c == m[i as int].len(),
                top_shape(m, top@),
                pos <= top@.len(),
                forall|p: int| 0 <= p < pos ==> m[#[trigger] top@[p] as int].len() >= c,
            decreases top@.len() - pos,
        {
            pos = pos + 1;
        }
        if pos < limit {
            let ghost old_top = top@;
            proof {
                assert(!old_top.contains(i));
            }
            top.insert(pos, i);
            let ghost ins = top@;
            proof {
                assert(ins =~= old_top.insert(pos as int, i));
                assert forall|p: int, q: int| 0 <= p < q < ins.len() implies ins[p] != ins[q] by {
                    if p == pos as int {
                        assert(old_top.contains(ins[q]) || ins[q] == i);
                        if q > pos as int {
                            assert(ins[q] == old_top[q - 1]);
                        }
                    } else if q == pos as int {
                        assert(ins[p] == old_top[p]);
                    } else {
                        let p2 = if p < pos { p } else { p - 1 };
                        let q2 = if q < pos { q } else { q - 1 };
                        assert(ins[p] == old_top[p2] && ins[q] == old_top[q2]);
                    }
                }
                assert forall|p: int, q: int| 0 <= p < q < ins.len() implies m[ins[p] as int].len() >= m[ins[q] as int].len() by {
                    let p2 = if p < pos { p } else { p - 1 };
                    let q2 = if q < pos { q } else { q - 1 };
                    if p != pos as int {
                        assert(ins[p] == old_top[p2]);
                    }
                    if q != pos as int {
                        assert(ins[q] == old_top[q2]);
                    }
                    if q == pos as int {
                        assert(m[old_top[p] as int].len() >= c);
                    }
                    if p == pos as int && q2 < old_top.len() {
                        if pos < old_top.len() {
                            assert(m[old_top[pos as int] as int].len() < c);
                            assert(m[old_top[pos as int] as int].len() >= m[old_top[q2] as int].len() || q2 == pos as int);
                        }
                    }
                }
                assert forall|p: int| 0 <= p < ins.len() implies #[trigger] ins[p] < i + 1 && ins[p] < m.len() && m[ins[p] as int].len() > 0 by {
                    if p != pos as int {
                        let p2 = if p < pos { p } else { p - 1 };
                        assert(ins[p] == old_top[p2]);
                    }
                }
            }
            if top.len() > limit {
                let x = top.pop().unwrap();
                proof {
                    let kept = top@;
                    assert(kept =~= ins.drop_last());
                    assert(kept.len() == limit);
                    assert(x == ins[limit as int]);
                    assert forall|t: int|
                        0 <= t < i + 1 && m[t].len() > 0 && !kept.contains(t as usize) implies kept.len() == limit && (limit > 0 ==> #[trigger] m[t].len() <= m[kept[limit - 1] as int].len()) by {
                        if t == x as int {
                            assert(m[ins[limit - 1] as int].len() >= m[ins[limit as int] as int].len());
                        } else if t == i as int {
                            assert(ins[pos as int] == i);
                            assert(kept[pos as int] == i);
                        } else {
                            if ins.contains(t as usize) {
                                let j = choose|j: int| 0 <= j < ins.len() && ins[j] == t as usize;
                                if j < limit {
                                    assert(kept[j] == t as usize);
                                } else {
                                    assert(ins[j] == x);
                                }
                            }
                            if old_top.contains(t as usize) {
                                let j = choose|j: int| 0 <= j < old_top.len() && old_top[j] == t as usize;
                                let j2 = if j < pos { j } else { j + 1 };
                                assert(ins[j2] == t as usize);
                            }
                            assert(old_top.len() == limit);
                            assert(m[t].len() <= m[old_top[limit - 1] as int].len());
                            if pos < limit - 1 {
                                assert(kept[limit - 1] == old_top[limit - 2]);
                                assert(m[old_top[limit - 2] as int].len() >= m[old_top[limit - 1] as int].len());
                            } else {
                                assert(kept[limit - 1] == i);
                                assert(m[old_top[pos as int] as int].len() < c);
                            }
                        }
                    }
                    assert forall|p: int, q: int| 0 <= p < q < kept.len() implies kept[p] != kept[q] by {
                        assert(kept[p] == ins[p] && kept[q] == ins[q]);
                    }
                }
            } else {
                proof {
                    assert forall|t: int|
                        0 <= t < i + 1 && m[t].len() > 0 && !ins.contains(t as usize) implies ins.len() == limit && (limit > 0 ==> #[trigger] m[t].len() <= m[ins[limit - 1] as int].len()) by {
                        if t == i as int {
                            assert(ins[pos as int] == i);
                        } else if old_top.contains(t as usize) {
                            let j = choose|j: int| 0 <= j < old_top.len() && old_top[j] == t as usize;
                            let j2 = if j < pos { j } else { j + 1 };
                            assert(ins[j2] == t as usize);
                        }
                    }
                }
            }
        } else {
            proof {
                assert forall|t: int|
                    0 <= t < i + 1 && m[t].len() > 0 && !top@.contains(t as usize) implies top@.len() == limit && (limit > 0 ==> #[trigger] m[t].len() <= m[top@[limit - 1] as int].len()) by {
                    if t == i as int {
                        assert(pos == top@.len());
                        if limit > 0 {
                            assert(m[top@[limit - 1] as int].len() >= c);
                        }
                    }
                }
            }
        }
    }
}

pub fn top_references(by: &Vec<Vec<usize>>, limit: usize) -> (r: Vec<usize>)
    ensures
        r@.len() <= limit,
        top_shape(by@.map_values(|v: Vec<usize>| v@), r@),
        top_complete(by@.map_values(|v: Vec<usize>| v@), r@, by@.len() as int, limit),
{
    let ghost m = by@.map_values(|v: Vec<usize>| v@);
    let mut top: Vec<usize> = Vec::new();
    let mut i: usize = 0;
    while i < by.len()
        invariant
            m == by@.map_values(|v: Vec<usize>| v@),
            i <= by@.len(),
            top@.len() <= limit,
            top_shape(m, top@),
            forall|p: int| 0 <= p < top@.len() ==> #[trigger] top@[p] < i,
            top_complete(m, top@, i as int, limit),
        decreases by@.len() - i,
    {
        rank_one(by, &mut top, i, limit, Ghost(m));
        i = i + 1;
    }
    top
}

impl AssetGraph {
    /// The assets reached from `root` that the most reached assets reference,
    /// with how many reached assets reference each: at most
    /// `TOP_REFERENCES` of them, most referenced first.
    pub fn most_referenced(&self, root: usize) -> (r: Vec<(usize, usize)>)
        requires
            self.wf(),
            root < self.assets@.len(),
        ensures
            exists|by: Seq<Seq<usize>>, top: Seq<usize>|
                {
                    &&& by.len() == self.assets@.len()
                    &&& forall|t: int, x: usize|
                        0 <= t < by.len() ==> ((#[trigger] by[t].contains(x)) <==> self.reaches(
                            root as int,
                            x as int,
                        ) && self.module_edge(x as int, t))
                    &&& forall|t: int| 0 <= t < by.len() ==> (#[trigger] by[t]).no_duplicates()
                    &&& top.len() <= TOP_REFERENCES
                    &&& top_shape(by, top)
                    &&& top_complete(by, top, by.len() as int, TOP_REFERENCES)
                    &&& r@.len() == top.len()
                    &&& forall|k: int|
                        0 <= k < r@.len() ==> (#[trigger] r@[k]).0 == top[k] && r@[k].1
                            == by[top[k] as int].len()
                },
    {
        let by = self.compute_back_references(root);
        let top = top_references(&by, TOP_REFERENCES);
        let ghost m = by@.map_values(|v: Vec<usize>| v@);
        let mut out: Vec<(usize, usize)> = Vec::new();
        let mut k: usize = 0;
        while k < top.len()
            invariant
                m == by@.map_values(|v: Vec<usize>| v@),
                top_shape(m, top@),
                k <= top@.len(),
                out@.len() == k,
                forall|j: int|
                    0 <= j < k ==> (#[trigger] out@[j]).0 == top@[j] && out@[j].1 == m[top@[j] as int].len(),
            decreases top@.len() - k,
        {
            let t = top[k];
            out.push((t, by[t].len()));
            k = k + 1;
        }
        proof {
            assert forall|t: int, x: usize| 0 <= t < m.len() implies ((#[trigger] m[t].contains(x)) <==> self.reaches(
                root as int,
                x as int,
            ) && self.module_edge(x as int, t)) by {
                assert(m[t] == by@[t]@);
            }
            assert forall|t: int| 0 <= t < m.len() implies (#[trigger] m[t]).no_duplicates() by {
                assert(m[t] == by@[t]@);
            }
        }
        out
    }
}

} // verus!
