//! Walking the wiring's dependency graph down to each terminal root cause.
//!
//! From a starting obligation the descent follows the failing trait obligations — only the CGP
//! wiring vocabulary and obligations on the context itself — and collects every root→leaf path
//! that bottoms out on a terminal unmet bound. The compiler's answers the walk needs about each
//! obligation (the `where`-clause obligations of the impl that would satisfy it, whether it
//! already holds, and an unmet `HasField` projection on that impl) are gathered into an
//! [`ObligationNode`] per obligation; the walk itself, and every decision in it, is here.

use vstd::prelude::*;

use crate::predicate::{
    has_self_ty, is_descendable, is_has_field, spec_is_descendable, spec_is_has_field, wf_trait_ref,
    TraitRef,
};
use crate::ty_model::Ty;

verus! {

/// How deep the walk descends before giving up, so a divergent wiring cannot make it loop.
pub const MAX_DEPTH: u32 = 256;

/// An unmet `HasField` associated-type projection on the impl that satisfies an obligation: a
/// field present with the wrong type.
pub struct ProjectionMismatch {
    /// The graph index of the field's `HasField` obligation, the terminal the tree shows.
    pub field: usize,
    /// The type the failing projection required.
    pub expected: Ty,
}

/// What the compiler answers about one obligation of the dependency graph.
pub struct ObligationNode {
    /// The obligation.
    pub pred: TraitRef,
    /// The `where`-clause obligations (graph indices) of the impl that would satisfy this
    /// obligation, or `None` when no impl matches at all.
    pub impl_deps: Option<Vec<usize>>,
    /// Whether the obligation already holds.
    pub holds: bool,
    /// An unmet `HasField` projection among the satisfying impl's predicates, if any.
    pub projection_mismatch: Option<ProjectionMismatch>,
}

/// One collected root→leaf path: the graph indices from the top down to (and including) the
/// leaf, and — when the leaf is a field-type mismatch — the index of the obligation whose impl
/// carries the failing projection.
pub struct LeafPath {
    pub preds: Vec<usize>,
    pub mismatch: Option<usize>,
}

/// Whether every index the graph refers to is in range and every obligation has a `Self`.
pub open spec fn wf_graph(g: Seq<ObligationNode>) -> bool {
    forall|n: int|
        0 <= n < g.len() ==> {
            &&& wf_trait_ref(#[trigger] g[n].pred)
            &&& (g[n].impl_deps matches Some(deps) ==> forall|k: int|
                0 <= k < deps@.len() ==> #[trigger] deps@[k] < g.len())
            &&& (g[n].projection_mismatch matches Some(m) ==> m.field < g.len())
        }
}

/// Whether every index of `deps` is below `n`.
fn all_below(deps: &Vec<usize>, n: usize) -> (r: bool)
    ensures
        r == forall|k: int| 0 <= k < deps@.len() ==> #[trigger] deps@[k] < n,
{
    let mut k: usize = 0;
    while k < deps.len()
        invariant
            k <= deps@.len(),
            forall|j: int| 0 <= j < k ==> #[trigger] deps@[j] < n,
        decreases deps@.len() - k,
    {
        if deps[k] >= n {
            return false;
        }
        k = k + 1;
    }
    true
}

/// Whether the graph is well formed (see [`wf_graph`]): every index in range, every obligation
/// with a `Self`.
pub fn is_wf_graph(g: &Vec<ObligationNode>) -> (r: bool)
    ensures
        r == wf_graph(g@),
{
    let mut n: usize = 0;
    while n < g.len()
        invariant
            n <= g@.len(),
            forall|m: int|
                0 <= m < n ==> {
                    &&& wf_trait_ref(#[trigger] g@[m].pred)
                    &&& (g@[m].impl_deps matches Some(deps) ==> forall|k: int|
                        0 <= k < deps@.len() ==> #[trigger] deps@[k] < g@.len())
                    &&& (g@[m].projection_mismatch matches Some(pm) ==> pm.field < g@.len())
                },
        decreases g@.len() - n,
    {
        if !has_self_ty(&g[n].pred) {
            return false;
        }
        match &g[n].impl_deps {
            Some(deps) => {
                if !all_below(deps, g.len()) {
                    return false;
                }
            },
            None => {},
        }
        match &g[n].projection_mismatch {
            Some(pm) => {
                if pm.field >= g.len() {
                    return false;
                }
            },
            None => {},
        }
        n = n + 1;
    }
    true
}

/// One impl of an obligation's trait, as the choice between them reads it: whether it unifies
/// with the obligation, and whether its `Self` is a bare type parameter (a blanket impl).
#[derive(Clone, Copy, Debug, PartialEq, Eq, Structural)]
pub struct ImplCandidate {
    pub unifies: bool,
    pub blanket: bool,
}

/// Whether `c` is an impl that unifies and is blanket exactly when `blanket`.
pub open spec fn matches_kind(c: ImplCandidate, blanket: bool) -> bool {
    c.unifies && c.blanket == blanket
}

/// Whether `i` is the first impl among `cs` that unifies and is blanket exactly when `blanket`.
pub open spec fn first_of_kind(cs: Seq<ImplCandidate>, blanket: bool, i: int) -> bool {
    &&& 0 <= i < cs.len()
    &&& matches_kind(cs[i], blanket)
    &&& forall|j: int| 0 <= j < i ==> !#[trigger] matches_kind(cs[j], blanket)
}

/// Whether no impl among `cs` unifies and is blanket exactly when `blanket`.
pub open spec fn none_of_kind(cs: Seq<ImplCandidate>, blanket: bool) -> bool {
    forall|j: int| 0 <= j < cs.len() ==> !#[trigger] matches_kind(cs[j], blanket)
}

/// The first impl of `cs` that unifies with `blanket` as its kind, if any.
fn first_kind(cs: &Vec<ImplCandidate>, blanket: bool) -> (r: Option<usize>)
    ensures
        match r {
            Some(i) => first_of_kind(cs@, blanket, i as int),
            None => none_of_kind(cs@, blanket),
        },
{
    let mut i: usize = 0;
    while i < cs.len()
        invariant
            i <= cs@.len(),
            forall|j: int| 0 <= j < i ==> !#[trigger] matches_kind(cs@[j], blanket),
        decreases cs@.len() - i,
    {
        if cs[i].unifies && cs[i].blanket == blanket {
            return Some(i);
        }
        i = i + 1;
    }
    None
}

/// The impl whose `where`-clauses an obligation's dependencies are read from: the first impl
/// that unifies with the obligation and whose `Self` is not a bare type parameter, else the
/// first blanket impl that unifies; `None` when no impl unifies. A concrete provider impl leads
/// to the real cause, where the delegation blanket impl beside it leads to a dead end.
pub fn select_impl(candidates: &Vec<ImplCandidate>) -> (r: Option<usize>)
    ensures
        match r {
            Some(i) => first_of_kind(candidates@, false, i as int) || (none_of_kind(candidates@, false)
                && first_of_kind(candidates@, true, i as int)),
            None => none_of_kind(candidates@, false) && none_of_kind(candidates@, true),
        },
{
    match first_kind(candidates, false) {
        Some(i) => Some(i),
        None => first_kind(candidates, true),
    }
}

/// The dependencies of a node that do not already hold, in order.
pub open spec fn spec_unmet(g: Seq<ObligationNode>, deps: Seq<usize>) -> Seq<usize>
    decreases deps.len(),
{
    if deps.len() == 0 {
        Seq::empty()
    } else {
        let before = spec_unmet(g, deps.drop_last());
        if g[deps.last() as int].holds {
            before
        } else {
            before.push(deps.last())
        }
    }
}

/// The unmet dependencies of a foreign bound the walk still follows: those it would descend
/// anyway, and a same-trait recursion over a type-level list.
pub open spec fn spec_followable(
    g: Seq<ObligationNode>,
    context: Ty,
    trait_id: u64,
    deps: Seq<usize>,
) -> Seq<usize>
    decreases deps.len(),
{
    if deps.len() == 0 {
        Seq::empty()
    } else {
        let before = spec_followable(g, context, trait_id, deps.drop_last());
        let n = deps.last() as int;
        if spec_is_descendable(g[n].pred, context) || g[n].pred.trait_id == trait_id {
            before.push(deps.last())
        } else {
            before
        }
    }
}

/// Whether the obligation at `pred` repeats (by erased identity) one of its ancestors.
pub open spec fn spec_repeats(g: Seq<ObligationNode>, pred: int, prefix: Seq<usize>) -> bool {
    exists|i: int| 0 <= i < prefix.len() && g[#[trigger] prefix[i] as int].pred.id == g[pred].pred.id
}

/// The root→leaf paths below the failing obligation `pred`, whose ancestors are `prefix`:
///
/// - past [`MAX_DEPTH`], or at an obligation that repeats an ancestor (a wiring cycle), none;
/// - a `HasField` obligation completes a path;
/// - an obligation no impl satisfies is itself the terminal bound;
/// - a foreign bound (one the walk does not descend) is the terminal bound, unless some of its
///   unmet dependencies are on the context or recurse through the same trait, which are
///   followed;
/// - an obligation whose satisfying impl's dependencies all hold completes a path through the
///   impl's unmet `HasField` projection when it has one, and yields nothing otherwise;
/// - anything else continues into each unmet dependency, in order.
pub open spec fn spec_leaf_paths(
    g: Seq<ObligationNode>,
    context: Ty,
    pred: usize,
    prefix: Seq<usize>,
    depth: int,
) -> Seq<(Seq<usize>, Option<usize>)>
    decreases MAX_DEPTH + 2 - depth, 0int,
{
    if depth > MAX_DEPTH || depth < 0 || spec_repeats(g, pred as int, prefix) {
        Seq::empty()
    } else {
        let path = prefix.push(pred);
        let node = g[pred as int];
        if spec_is_has_field(node.pred) {
            seq![(path, None)]
        } else {
            match node.impl_deps {
                None => seq![(path, None)],
                Some(deps) => {
                    let unmet = spec_unmet(g, deps@);
                    if !spec_is_descendable(node.pred, context) {
                        let follow = spec_followable(g, context, node.pred.trait_id, unmet);
                        if follow.len() == 0 {
                            seq![(path, None)]
                        } else {
                            spec_children_paths(g, context, follow, path, depth + 1)
                        }
                    } else if unmet.len() == 0 {
                        match node.projection_mismatch {
                            Some(m) => seq![(path.push(m.field), Some(pred))],
                            None => Seq::empty(),
                        }
                    } else {
                        spec_children_paths(g, context, unmet, path, depth + 1)
                    }
                },
            }
        }
    }
}

/// The paths below each of `kids` in turn, all with ancestors `path`.
pub open spec fn spec_children_paths(
    g: Seq<ObligationNode>,
    context: Ty,
    kids: Seq<usize>,
    path: Seq<usize>,
    depth: int,
) -> Seq<(Seq<usize>, Option<usize>)>
    decreases MAX_DEPTH + 2 - depth, kids.len(),
{
    if kids.len() == 0 || depth > MAX_DEPTH + 1 {
        Seq::empty()
    } else {
        spec_children_paths(g, context, kids.drop_last(), path, depth) + spec_leaf_paths(
            g,
            context,
            kids.last(),
            path,
            depth,
        )
    }
}

/// The plain view of a collected path.
pub open spec fn path_view(p: LeafPath) -> (Seq<usize>, Option<usize>) {
    (p.preds@, p.mismatch)
}

/// The plain views of collected paths.
pub open spec fn paths_view(ps: Seq<LeafPath>) -> Seq<(Seq<usize>, Option<usize>)> {
    ps.map_values(|p: LeafPath| path_view(p))
}

/// The dependencies of `deps` that do not already hold.
fn unmet_deps(g: &Vec<ObligationNode>, deps: &Vec<usize>) -> (r: Vec<usize>)
    requires
        forall|k: int| 0 <= k < deps@.len() ==> #[trigger] deps@[k] < g@.len(),
    ensures
        r@ == spec_unmet(g@, deps@),
        forall|k: int| 0 <= k < r@.len() ==> #[trigger] r@[k] < g@.len(),
{
    let mut r: Vec<usize> = Vec::new();
    let mut i: usize = 0;
    while i < deps.len()
        invariant
            i <= deps@.len(),
            forall|k: int| 0 <= k < deps@.len() ==> #[trigger] deps@[k] < g@.len(),
            r@ == spec_unmet(g@, deps@.take(i as int)),
            forall|k: int| 0 <= k < r@.len() ==> #[trigger] r@[k] < g@.len(),
        decreases deps@.len() - i,
    {
        assert(deps@.take(i + 1).drop_last() =~= deps@.take(i as int));
        assert(deps@.take(i + 1).last() == deps@[i as int]);
        let n = deps[i];
        if !g[n].holds {
            r.push(n);
        }
        i = i + 1;
    }
    assert(deps@.take(deps@.len() as int) =~= deps@);
    r
}

/// The dependencies of a foreign bound the walk still follows.
fn followable_deps(g: &Vec<ObligationNode>, context: &Ty, trait_id: u64, deps: &Vec<usize>) -> (r:
    Vec<usize>)
    requires
        forall|k: int| 0 <= k < deps@.len() ==> #[trigger] deps@[k] < g@.len(),
        wf_graph(g@),
    ensures
        r@ == spec_followable(g@, *context, trait_id, deps@),
        forall|k: int| 0 <= k < r@.len() ==> #[trigger] r@[k] < g@.len(),
{
    let mut r: Vec<usize> = Vec::new();
    let mut i: usize = 0;
    while i < deps.len()
        invariant
            i <= deps@.len(),
            forall|k: int| 0 <= k < deps@.len() ==> #[trigger] deps@[k] < g@.len(),
            r@ == spec_followable(g@, *context, trait_id, deps@.take(i as int)),
            forall|k: int| 0 <= k < r@.len() ==> #[trigger] r@[k] < g@.len(),
        decreases deps@.len() - i,
    {
        assert(deps@.take(i + 1).drop_last() =~= deps@.take(i as int));
        assert(deps@.take(i + 1).last() == deps@[i as int]);
        let n = deps[i];
        if is_descendable(&g[n].pred, context) || g[n].pred.trait_id == trait_id {
            r.push(n);
        }
        i = i + 1;
    }
    assert(deps@.take(deps@.len() as int) =~= deps@);
    r
}

/// Whether the obligation at `pred` repeats one of its ancestors.
fn repeats(g: &Vec<ObligationNode>, pred: usize, prefix: &Vec<usize>) -> (r: bool)
    requires
        pred < g@.len(),
        forall|k: int| 0 <= k < prefix@.len() ==> #[trigger] prefix@[k] < g@.len(),
    ensures
        r == spec_repeats(g@, pred as int, prefix@),
{
    let id = g[pred].pred.id;
    let mut i: usize = 0;
    while i < prefix.len()
        invariant
            i <= prefix@.len(),
            pred < g@.len(),
            id == g@[pred as int].pred.id,
            forall|k: int| 0 <= k < prefix@.len() ==> #[trigger] prefix@[k] < g@.len(),
            forall|k: int| 0 <= k < i ==> g@[#[trigger] prefix@[k] as int].pred.id != id,
        decreases prefix@.len() - i,
    {
        if g[prefix[i]].pred.id == id {
            return true;
        }
        i = i + 1;
    }
    false
}

/// Collect every root→leaf path below the failing obligation `pred` (see
/// [`spec_leaf_paths`]): following every unmet dependency rather than one is what surfaces
/// independent causes as separate paths, and the ancestor check is what stops a wiring cycle
/// at its first repeat.
pub fn collect_leaf_paths(
    g: &Vec<ObligationNode>,
    context: &Ty,
    pred: usize,
    prefix: &Vec<usize>,
    depth: u32,
) -> (r: Vec<LeafPath>)
    requires
        wf_graph(g@),
        pred < g@.len(),
        forall|k: int| 0 <= k < prefix@.len() ==> #[trigger] prefix@[k] < g@.len(),
        prefix@.len() + MAX_DEPTH + 3 <= usize::MAX + depth,
    ensures
        paths_view(r@) == spec_leaf_paths(g@, *context, pred, prefix@, depth as int),
    decreases MAX_DEPTH + 2 - depth, 0int,
{
    if depth > MAX_DEPTH || repeats(g, pred, prefix) {
        let r: Vec<LeafPath> = Vec::new();
        assert(paths_view(r@) =~= Seq::<(Seq<usize>, Option<usize>)>::empty());
        return r;
    }
    let mut path = prefix.clone();
    path.push(pred);
    assert(path@ =~= prefix@.push(pred));
    let node = &g[pred];
    if is_has_field(&node.pred) {
        let mut r = Vec::new();
        r.push(LeafPath { preds: path, mismatch: None });
        assert(paths_view(r@) =~= seq![(prefix@.push(pred), None::<usize>)]);
        return r;
    }
    let deps = match &node.impl_deps {
        None => {
            let mut r = Vec::new();
            r.push(LeafPath { preds: path, mismatch: None });
            assert(paths_view(r@) =~= seq![(prefix@.push(pred), None::<usize>)]);
            return r;
        },
        Some(deps) => deps,
    };
    let unmet = unmet_deps(g, deps);
    if !is_descendable(&node.pred, context) {
        let follow = followable_deps(g, context, node.pred.trait_id, &unmet);
        if follow.len() == 0 {
            let mut r = Vec::new();
            r.push(LeafPath { preds: path, mismatch: None });
            assert(paths_view(r@) =~= seq![(prefix@.push(pred), None::<usize>)]);
            return r;
        }
        return children_paths(g, context, &follow, &path, depth + 1);
    }
    if unmet.len() == 0 {
        match &node.projection_mismatch {
            Some(m) => {
                path.push(m.field);
                let mut r = Vec::new();
                r.push(LeafPath { preds: path, mismatch: Some(pred) });
                assert(paths_view(r@) =~= seq![(prefix@.push(pred).push(m.field), Some(pred))]);
                return r;
            },
            None => {
                let r: Vec<LeafPath> = Vec::new();
                assert(paths_view(r@) =~= Seq::<(Seq<usize>, Option<usize>)>::empty());
                return r;
            },
        }
    }
    children_paths(g, context, &unmet, &path, depth + 1)
}

/// The paths below each of `kids` in turn (see [`spec_children_paths`]).
fn children_paths(
    g: &Vec<ObligationNode>,
    context: &Ty,
    kids: &Vec<usize>,
    path: &Vec<usize>,
    depth: u32,
) -> (r: Vec<LeafPath>)
    requires
        wf_graph(g@),
        1 <= depth <= MAX_DEPTH + 1,
        forall|k: int| 0 <= k < kids@.len() ==> #[trigger] kids@[k] < g@.len(),
        forall|k: int| 0 <= k < path@.len() ==> #[trigger] path@[k] < g@.len(),
        path@.len() + MAX_DEPTH + 3 <= usize::MAX + depth,
    ensures
        paths_view(r@) == spec_children_paths(g@, *context, kids@, path@, depth as int),
    decreases MAX_DEPTH + 2 - depth, kids@.len(),
{
    let mut r: Vec<LeafPath> = Vec::new();
    let mut i: usize = 0;
    while i < kids.len()
        invariant
            i <= kids@.len(),
            wf_graph(g@),
            1 <= depth <= MAX_DEPTH + 1,
            forall|k: int| 0 <= k < kids@.len() ==> #[trigger] kids@[k] < g@.len(),
            forall|k: int| 0 <= k < path@.len() ==> #[trigger] path@[k] < g@.len(),
            path@.len() + MAX_DEPTH + 3 <= usize::MAX + depth,
            paths_view(r@) == spec_children_paths(
                g@,
                *context,
                kids@.take(i as int),
                path@,
                depth as int,
            ),
        decreases kids@.len() - i,
    {
        assert(kids@.take(i + 1).drop_last() =~= kids@.take(i as int));
        assert(kids@.take(i + 1).last() == kids@[i as int]);
        let mut more = collect_leaf_paths(g, context, kids[i], path, depth);
        let ghost before = paths_view(r@);
        let ghost added = paths_view(more@);
        r.append(&mut more);
        assert(paths_view(r@) =~= before + added);
        i = i + 1;
    }
    assert(kids@.take(kids@.len() as int) =~= kids@);
    r
}

/// Whether the walk stops at node `n`: a `HasField` obligation, one no impl satisfies, or a
/// foreign bound none of whose unmet dependencies the walk follows.
pub open spec fn spec_is_terminal(g: Seq<ObligationNode>, context: Ty, n: int) -> bool {
    spec_is_has_field(g[n].pred) || g[n].impl_deps is None || (!spec_is_descendable(
        g[n].pred,
        context,
    ) && spec_followable(
        g,
        context,
        g[n].pred.trait_id,
        spec_unmet(g, g[n].impl_deps.unwrap()@),
    ).len() == 0)
}

/// Whether `b` is an unmet `where`-clause dependency of node `a`.
pub open spec fn spec_unmet_dep(g: Seq<ObligationNode>, a: int, b: usize) -> bool {
    &&& g[a].impl_deps matches Some(deps)
    &&& deps@.contains(b)
    &&& !g[b as int].holds
}

/// Whether the collected path `p` (with mismatch marker `m`) is a sound walk from position
/// `start` on: the walked part (all of `p`, or all but the trailing field of a mismatch) steps
/// only from an obligation to one of its unmet dependencies, no walked obligation repeats one
/// before it, and the path ends on a terminal obligation or on an obligation whose satisfying
/// impl carries the unmet `HasField` projection the trailing field stands for.
pub open spec fn spec_walk_ok(
    g: Seq<ObligationNode>,
    context: Ty,
    p: Seq<usize>,
    m: Option<usize>,
    start: int,
) -> bool {
    let end = if m is Some {
        p.len() - 1
    } else {
        p.len() as int
    };
    &&& 0 <= start < end <= p.len()
    &&& forall|j: int|
        #![trigger p[j]]
        start <= j < end ==> forall|i: int|
            0 <= i < j ==> g[p[i] as int].pred.id != g[p[j] as int].pred.id
    &&& forall|j: int| start <= j && j + 1 < end ==> spec_unmet_dep(g, #[trigger] p[j] as int, p[j + 1])
    &&& match m {
        Some(at) => {
            &&& at == p[end - 1]
            &&& g[at as int].projection_mismatch matches Some(pm)
            &&& pm.field == p[end]
            &&& spec_is_descendable(g[at as int].pred, context)
        },
        None => spec_is_terminal(g, context, p[end - 1] as int),
    }
}

/// Every element of the unmet dependencies is a dependency that does not hold.
proof fn lemma_unmet(g: Seq<ObligationNode>, deps: Seq<usize>)
    ensures
        forall|k: int|
            0 <= k < spec_unmet(g, deps).len() ==> deps.contains(#[trigger] spec_unmet(g, deps)[k])
                && !g[spec_unmet(g, deps)[k] as int].holds,
    decreases deps.len(),
{
    if deps.len() > 0 {
        lemma_unmet(g, deps.drop_last());
        let before = spec_unmet(g, deps.drop_last());
        assert forall|k: int| 0 <= k < spec_unmet(g, deps).len() implies deps.contains(
            #[trigger] spec_unmet(g, deps)[k],
        ) && !g[spec_unmet(g, deps)[k] as int].holds by {
            if k < before.len() {
                let x = before[k];
                let w = choose|w: int| 0 <= w < deps.drop_last().len() && deps.drop_last()[w] == x;
                assert(deps[w] == x);
            } else {
                assert(deps[deps.len() - 1] == deps.last());
            }
        }
    }
}

/// Every element of the followed dependencies is one of the given dependencies.
proof fn lemma_followable(g: Seq<ObligationNode>, context: Ty, trait_id: u64, deps: Seq<usize>)
    ensures
        forall|k: int|
            0 <= k < spec_followable(g, context, trait_id, deps).len() ==> deps.contains(
                #[trigger] spec_followable(g, context, trait_id, deps)[k],
            ),
    decreases deps.len(),
{
    if deps.len() > 0 {
        lemma_followable(g, context, trait_id, deps.drop_last());
        let before = spec_followable(g, context, trait_id, deps.drop_last());
        assert forall|k: int|
            0 <= k < spec_followable(g, context, trait_id, deps).len() implies deps.contains(
            #[trigger] spec_followable(g, context, trait_id, deps)[k],
        ) by {
            if k < before.len() {
                let x = before[k];
                let w = choose|w: int| 0 <= w < deps.drop_last().len() && deps.drop_last()[w] == x;
                assert(deps[w] == x);
            } else {
                assert(deps[deps.len() - 1] == deps.last());
            }
        }
    }
}

/// A one-node extension that stops is a sound walk from the new node.
proof fn lemma_stop_ok(g: Seq<ObligationNode>, context: Ty, pred: usize, prefix: Seq<usize>)
    requires
        wf_graph(g),
        pred < g.len(),
        !spec_repeats(g, pred as int, prefix),
        forall|k: int| 0 <= k < prefix.len() ==> #[trigger] prefix[k] < g.len(),
    ensures
        forall|j: int|
            0 <= j < prefix.len() ==> g[prefix.push(pred)[j] as int].pred.id != g[pred as int].pred.id,
        forall|k: int| 0 <= k < prefix.push(pred).len() ==> #[trigger] prefix.push(pred)[k] < g.len(),
{
    let path = prefix.push(pred);
    assert forall|j: int| 0 <= j < prefix.len() implies g[path[j] as int].pred.id != g[pred as int].pred.id by {
        assert(path[j] == prefix[j]);
        if g[prefix[j] as int].pred.id == g[pred as int].pred.id {
            assert(spec_repeats(g, pred as int, prefix));
        }
    }
    assert forall|k: int| 0 <= k < path.len() implies #[trigger] path[k] < g.len() by {
        if k < prefix.len() {
            assert(path[k] == prefix[k]);
        }
    }
}

/// The paths below `pred` extend `prefix` and `pred`, and are sound walks from `pred` on.
proof fn lemma_leaf_paths_ok(
    g: Seq<ObligationNode>,
    context: Ty,
    pred: usize,
    prefix: Seq<usize>,
    depth: int,
)
    requires
        wf_graph(g),
        pred < g.len(),
        forall|k: int| 0 <= k < prefix.len() ==> #[trigger] prefix[k] < g.len(),
    ensures
        forall|r: int|
            0 <= r < spec_leaf_paths(g, context, pred, prefix, depth).len() ==> {
                let (p, m) = #[trigger] spec_leaf_paths(g, context, pred, prefix, depth)[r];
                &&& prefix.push(pred).is_prefix_of(p)
                &&& spec_walk_ok(g, context, p, m, prefix.len() as int)
                &&& forall|k: int| 0 <= k < p.len() ==> #[trigger] p[k] < g.len()
            },
    decreases MAX_DEPTH + 2 - depth, 0int,
{
    if depth > MAX_DEPTH || depth < 0 || spec_repeats(g, pred as int, prefix) {
        return;
    }
    let path = prefix.push(pred);
    let node = g[pred as int];
    let start = prefix.len() as int;
    assert(wf_trait_ref(g[pred as int].pred));
    lemma_stop_ok(g, context, pred, prefix);
    let out = spec_leaf_paths(g, context, pred, prefix, depth);
    if spec_is_has_field(node.pred) || node.impl_deps is None {
        assert(out == seq![(path, None::<usize>)]);
        assert(path.is_prefix_of(path));
        assert(spec_walk_ok(g, context, path, None, start));
        return;
    }
    let deps = node.impl_deps.unwrap();
    let unmet = spec_unmet(g, deps@);
    lemma_unmet(g, deps@);
    if !spec_is_descendable(node.pred, context) {
        let follow = spec_followable(g, context, node.pred.trait_id, unmet);
        lemma_followable(g, context, node.pred.trait_id, unmet);
        if follow.len() == 0 {
            assert(out == seq![(path, None::<usize>)]);
            assert(path.is_prefix_of(path));
            assert(spec_walk_ok(g, context, path, None, start));
            return;
        }
        assert forall|k: int| 0 <= k < follow.len() implies spec_unmet_dep(
            g,
            pred as int,
            #[trigger] follow[k],
        ) && follow[k] < g.len() by {
            let w = choose|w: int| 0 <= w < unmet.len() && unmet[w] == follow[k];
            assert(unmet.contains(unmet[w]));
            let v = choose|v: int| 0 <= v < deps@.len() && deps@[v] == unmet[w];
            assert(deps@[v] < g.len());
        }
        lemma_children_ok(g, context, follow, path, depth + 1);
        lemma_extend_walks(g, context, pred, prefix, follow, depth + 1);
    } else if unmet.len() == 0 {
        match node.projection_mismatch {
            Some(m) => {
                let p = path.push(m.field);
                assert(out == seq![(p, Some(pred))]);
                assert(p[start] == pred);
                assert(path.is_prefix_of(p));
                assert forall|k: int| 0 <= k < p.len() implies #[trigger] p[k] < g.len() by {
                    if k < path.len() {
                        assert(p[k] == path[k]);
                    }
                }
                assert forall|j: int| #![trigger p[j]] start <= j < p.len() - 1 implies forall|i: int|
                    0 <= i < j ==> g[p[i] as int].pred.id != g[p[j] as int].pred.id by {
                    assert forall|i: int| 0 <= i < j implies g[p[i] as int].pred.id != g[p[j] as int].pred.id by {
                        assert(p[i] == path[i]);
                    }
                }
                assert(spec_walk_ok(g, context, p, Some(pred), start));
            },
            None => {},
        }
        return;
    } else {
        assert forall|k: int| 0 <= k < unmet.len() implies spec_unmet_dep(
            g,
            pred as int,
            #[trigger] unmet[k],
        ) && unmet[k] < g.len() by {
            let v = choose|v: int| 0 <= v < deps@.len() && deps@[v] == unmet[k];
            assert(deps@[v] < g.len());
        }
        lemma_children_ok(g, context, unmet, path, depth + 1);
        lemma_extend_walks(g, context, pred, prefix, unmet, depth + 1);
    }
}

/// Sound walks below the unmet dependencies `kids` of `pred` are sound walks from `pred`.
proof fn lemma_extend_walks(
    g: Seq<ObligationNode>,
    context: Ty,
    pred: usize,
    prefix: Seq<usize>,
    kids: Seq<usize>,
    depth: int,
)
    requires
        wf_graph(g),
        pred < g.len(),
        !spec_repeats(g, pred as int, prefix),
        forall|k: int| 0 <= k < prefix.len() ==> #[trigger] prefix[k] < g.len(),
        forall|k: int|
            0 <= k < kids.len() ==> spec_unmet_dep(g, pred as int, #[trigger] kids[k]) && kids[k]
                < g.len(),
        forall|r: int|
            0 <= r < spec_children_paths(g, context, kids, prefix.push(pred), depth).len() ==> {
                let (p, m) = #[trigger] spec_children_paths(
                    g,
                    context,
                    kids,
                    prefix.push(pred),
                    depth,
                )[r];
                &&& exists|k: int|
                    0 <= k < kids.len() && #[trigger] prefix.push(pred).push(kids[k]).is_prefix_of(
                        p,
                    )
                &&& spec_walk_ok(g, context, p, m, prefix.push(pred).len() as int)
                &&& forall|k: int| 0 <= k < p.len() ==> #[trigger] p[k] < g.len()
            },
    ensures
        forall|r: int|
            0 <= r < spec_children_paths(g, context, kids, prefix.push(pred), depth).len() ==> {
                let (p, m) = #[trigger] spec_children_paths(
                    g,
                    context,
                    kids,
                    prefix.push(pred),
                    depth,
                )[r];
                &&& prefix.push(pred).is_prefix_of(p)
                &&& spec_walk_ok(g, context, p, m, prefix.len() as int)
            },
{
    let path = prefix.push(pred);
    let start = prefix.len() as int;
    lemma_stop_ok(g, context, pred, prefix);
    assert forall|r: int| 0 <= r < spec_children_paths(g, context, kids, path, depth).len() implies {
        let (p, m) = #[trigger] spec_children_paths(g, context, kids, path, depth)[r];
        &&& path.is_prefix_of(p)
        &&& spec_walk_ok(g, context, p, m, start)
    } by {
        let (p, m) = spec_children_paths(g, context, kids, path, depth)[r];
        let k = choose|k: int| 0 <= k < kids.len() && #[trigger] path.push(kids[k]).is_prefix_of(p);
        let q = path.push(kids[k]);
        assert(p.subrange(0, q.len() as int) =~= q);
        assert(p[start] == q[start]);
        assert(p[start + 1] == q[start + 1]);
        assert(p[start] == pred);
        assert(p[start + 1] == kids[k]);
        assert(p.subrange(0, path.len() as int) =~= path);
        assert(path.is_prefix_of(p));
        assert forall|i: int| 0 <= i < start implies g[p[i] as int].pred.id != g[p[start] as int].pred.id by {
            assert(p[i] == q[i]);
            assert(q[i] == path[i]);
        }
        assert(spec_unmet_dep(g, p[start] as int, p[start + 1]));
        assert(spec_walk_ok(g, context, p, m, start));
    }
}

/// The paths below each of `kids` extend `path` by that kid and are sound walks from it.
proof fn lemma_children_ok(
    g: Seq<ObligationNode>,
    context: Ty,
    kids: Seq<usize>,
    path: Seq<usize>,
    depth: int,
)
    requires
        wf_graph(g),
        forall|k: int| 0 <= k < kids.len() ==> #[trigger] kids[k] < g.len(),
        forall|k: int| 0 <= k < path.len() ==> #[trigger] path[k] < g.len(),
    ensures
        forall|r: int|
            0 <= r < spec_children_paths(g, context, kids, path, depth).len() ==> {
                let (p, m) = #[trigger] spec_children_paths(g, context, kids, path, depth)[r];
                &&& exists|k: int|
                    0 <= k < kids.len() && #[trigger] path.push(kids[k]).is_prefix_of(p)
                &&& spec_walk_ok(g, context, p, m, path.len() as int)
                &&& forall|k: int| 0 <= k < p.len() ==> #[trigger] p[k] < g.len()
            },
    decreases MAX_DEPTH + 2 - depth, kids.len(),
{
    if kids.len() == 0 || depth > MAX_DEPTH + 1 {
        return;
    }
    let init = kids.drop_last();
    assert forall|k: int| 0 <= k < init.len() implies #[trigger] init[k] < g.len() by {
        assert(init[k] == kids[k]);
    }
    assert(kids.last() == kids[kids.len() - 1]);
    lemma_children_ok(g, context, init, path, depth);
    lemma_leaf_paths_ok(g, context, kids.last(), path, depth);
    let left = spec_children_paths(g, context, init, path, depth);
    let right = spec_leaf_paths(g, context, kids.last(), path, depth);
    assert(spec_children_paths(g, context, kids, path, depth) == left + right);
    assert forall|r: int| 0 <= r < (left + right).len() implies {
        let (p, m) = #[trigger] (left + right)[r];
        &&& exists|k: int| 0 <= k < kids.len() && #[trigger] path.push(kids[k]).is_prefix_of(p)
        &&& spec_walk_ok(g, context, p, m, path.len() as int)
        &&& forall|k: int| 0 <= k < p.len() ==> #[trigger] p[k] < g.len()
    } by {
        if r < left.len() {
            assert((left + right)[r] == left[r]);
            let (p, m) = left[r];
            let k = choose|k: int| 0 <= k < init.len() && #[trigger] path.push(init[k]).is_prefix_of(p);
            assert(kids[k] == init[k]);
            assert(path.push(kids[k]).is_prefix_of(p));
        } else {
            assert((left + right)[r] == right[r - left.len()]);
            let (p, m) = right[r - left.len()];
            assert(path.push(kids[kids.len() - 1]).is_prefix_of(p));
        }
    }
}

/// The walk is sound: every path it collects from the failing obligation `top` starts at `top`,
/// steps only from an obligation to one of its `where`-clause dependencies that does not hold,
/// never revisits an obligation already on the path (a wiring cycle is cut at its first
/// repeat), and ends on a terminal obligation — a `HasField` bound, an obligation no impl
/// satisfies, or a foreign bound — or on an impl's unmet `HasField` projection.
pub proof fn law_walk_sound(g: Seq<ObligationNode>, context: Ty, top: usize)
    requires
        wf_graph(g),
        top < g.len(),
    ensures
        forall|r: int|
            0 <= r < spec_leaf_paths(g, context, top, Seq::empty(), 0).len() ==> {
                let (p, m) = #[trigger] spec_leaf_paths(g, context, top, Seq::empty(), 0)[r];
                &&& p.len() > 0 && p[0] == top
                &&& spec_walk_ok(g, context, p, m, 0)
            },
{
    lemma_leaf_paths_ok(g, context, top, Seq::empty(), 0);
    assert forall|r: int| 0 <= r < spec_leaf_paths(g, context, top, Seq::empty(), 0).len() implies {
        let (p, m) = #[trigger] spec_leaf_paths(g, context, top, Seq::empty(), 0)[r];
        &&& p.len() > 0 && p[0] == top
        &&& spec_walk_ok(g, context, p, m, 0)
    } by {
        let (p, m) = spec_leaf_paths(g, context, top, Seq::empty(), 0)[r];
        let q = Seq::<usize>::empty().push(top);
        assert(p.subrange(0, 1) =~= q);
        assert(p[0] == q[0]);
    }
}

/// Every path the walk collects below an obligation extends the ancestors it was given and that
/// obligation: the walk only ever appends below where it stands, naming graph obligations only.
pub proof fn law_walk_extends_prefix(
    g: Seq<ObligationNode>,
    context: Ty,
    pred: usize,
    prefix: Seq<usize>,
    depth: int,
)
    requires
        wf_graph(g),
        pred < g.len(),
        forall|k: int| 0 <= k < prefix.len() ==> #[trigger] prefix[k] < g.len(),
    ensures
        forall|r: int|
            0 <= r < spec_leaf_paths(g, context, pred, prefix, depth).len() ==> {
                let (p, m) = #[trigger] spec_leaf_paths(g, context, pred, prefix, depth)[r];
                &&& prefix.push(pred).is_prefix_of(p)
                &&& forall|k: int| 0 <= k < p.len() ==> #[trigger] p[k] < g.len()
            },
{
    lemma_leaf_paths_ok(g, context, pred, prefix, depth);
}

/// Every unmet dependency of `deps` is among the unmet ones the walk follows.
proof fn lemma_unmet_complete(g: Seq<ObligationNode>, deps: Seq<usize>, d: usize)
    requires
        deps.contains(d),
        !g[d as int].holds,
    ensures
        spec_unmet(g, deps).contains(d),
    decreases deps.len(),
{
    let rest = deps.drop_last();
    if deps.last() == d {
        assert(spec_unmet(g, deps).last() == d);
    } else {
        let w = choose|w: int| 0 <= w < deps.len() && deps[w] == d;
        assert(w < deps.len() - 1);
        assert(rest[w] == d);
        lemma_unmet_complete(g, rest, d);
        let k = choose|k: int| 0 <= k < spec_unmet(g, rest).len() && spec_unmet(g, rest)[k] == d;
        if g[deps.last() as int].holds {
            assert(spec_unmet(g, deps) == spec_unmet(g, rest));
        } else {
            assert(spec_unmet(g, deps)[k] == spec_unmet(g, rest)[k]);
        }
    }
}

/// The paths collected below a list of dependencies include every path collected below each
/// one of them.
proof fn lemma_children_include(
    g: Seq<ObligationNode>,
    context: Ty,
    kids: Seq<usize>,
    path: Seq<usize>,
    depth: int,
    d: usize,
)
    requires
        kids.contains(d),
        depth <= MAX_DEPTH + 1,
    ensures
        forall|r: int|
            0 <= r < spec_leaf_paths(g, context, d, path, depth).len() ==> spec_children_paths(
                g,
                context,
                kids,
                path,
                depth,
            ).contains(#[trigger] spec_leaf_paths(g, context, d, path, depth)[r]),
    decreases kids.len(),
{
    let below = spec_leaf_paths(g, context, d, path, depth);
    let init = spec_children_paths(g, context, kids.drop_last(), path, depth);
    let last = spec_leaf_paths(g, context, kids.last(), path, depth);
    assert(spec_children_paths(g, context, kids, path, depth) == init + last);
    if kids.last() == d {
        assert forall|r: int| 0 <= r < below.len() implies (init + last).contains(#[trigger] below[r]) by {
            assert((init + last)[init.len() + r] == below[r]);
        }
    } else {
        let w = choose|w: int| 0 <= w < kids.len() && kids[w] == d;
        assert(w < kids.len() - 1);
        assert(kids.drop_last()[w] == d);
        lemma_children_include(g, context, kids.drop_last(), path, depth, d);
        assert forall|r: int| 0 <= r < below.len() implies (init + last).contains(#[trigger] below[r]) by {
            assert(init.contains(below[r]));
            let j = choose|j: int| 0 <= j < init.len() && init[j] == below[r];
            assert((init + last)[j] == below[r]);
        }
    }
}

/// The walk follows every unmet dependency, not only the first: below an obligation it descends
/// (one on the context or in the wiring vocabulary, not a `HasField`, not repeating an ancestor,
/// within the depth bound, with a matching impl), every path collected below any unmet dependency
/// of that impl — one step further down, with the obligation appended to the ancestors — is among
/// the paths collected below the obligation. So independent root causes (two missing fields of
/// one provider) are each reported.
pub proof fn law_walk_follows_every_unmet_dependency(
    g: Seq<ObligationNode>,
    context: Ty,
    pred: usize,
    prefix: Seq<usize>,
    depth: int,
    dep: usize,
)
    requires
        0 <= depth <= MAX_DEPTH,
        !spec_repeats(g, pred as int, prefix),
        !spec_is_has_field(g[pred as int].pred),
        spec_is_descendable(g[pred as int].pred, context),
        g[pred as int].impl_deps matches Some(deps) && deps@.contains(dep),
        !g[dep as int].holds,
    ensures
        forall|r: int|
            0 <= r < spec_leaf_paths(g, context, dep, prefix.push(pred), depth + 1).len()
                ==> spec_leaf_paths(g, context, pred, prefix, depth).contains(
                #[trigger] spec_leaf_paths(g, context, dep, prefix.push(pred), depth + 1)[r],
            ),
{
    let deps = g[pred as int].impl_deps.unwrap()@;
    lemma_unmet_complete(g, deps, dep);
    let unmet = spec_unmet(g, deps);
    assert(unmet.len() > 0);
    assert(spec_leaf_paths(g, context, pred, prefix, depth) == spec_children_paths(
        g,
        context,
        unmet,
        prefix.push(pred),
        depth + 1,
    ));
    lemma_children_include(g, context, unmet, prefix.push(pred), depth + 1, dep);
}

/// Every unmet dependency a foreign bound may still follow (one the walk descends, or one through
/// the same trait) is among those it follows.
proof fn lemma_followable_complete(g: Seq<ObligationNode>, context: Ty, trait_id: u64, deps: Seq<usize>, d: usize)
    requires
        deps.contains(d),
        spec_is_descendable(g[d as int].pred, context) || g[d as int].pred.trait_id == trait_id,
    ensures
        spec_followable(g, context, trait_id, deps).contains(d),
    decreases deps.len(),
{
    let rest = deps.drop_last();
    if deps.last() == d {
        assert(spec_followable(g, context, trait_id, deps).last() == d);
    } else {
        let w = choose|w: int| 0 <= w < deps.len() && deps[w] == d;
        assert(w < deps.len() - 1);
        assert(rest[w] == d);
        lemma_followable_complete(g, context, trait_id, rest, d);
        let before = spec_followable(g, context, trait_id, rest);
        let k = choose|k: int| 0 <= k < before.len() && before[k] == d;
        let n = deps.last() as int;
        if spec_is_descendable(g[n].pred, context) || g[n].pred.trait_id == trait_id {
            assert(spec_followable(g, context, trait_id, deps)[k] == d);
        } else {
            assert(spec_followable(g, context, trait_id, deps) == before);
        }
    }
}

/// Below a foreign bound (one the walk does not descend into as a whole), every path collected
/// below any of its unmet dependencies that is on the context, in the wiring vocabulary, or
/// through the same trait is among the paths collected below the bound: each such dependency
/// is followed, not only the first.
pub proof fn law_foreign_bounds_follow_every_context_dependency(
    g: Seq<ObligationNode>,
    context: Ty,
    pred: usize,
    prefix: Seq<usize>,
    depth: int,
    dep: usize,
)
    requires
        0 <= depth <= MAX_DEPTH,
        !spec_repeats(g, pred as int, prefix),
        !spec_is_has_field(g[pred as int].pred),
        !spec_is_descendable(g[pred as int].pred, context),
        g[pred as int].impl_deps matches Some(deps) && deps@.contains(dep),
        !g[dep as int].holds,
        spec_is_descendable(g[dep as int].pred, context) || g[dep as int].pred.trait_id
            == g[pred as int].pred.trait_id,
    ensures
        forall|r: int|
            0 <= r < spec_leaf_paths(g, context, dep, prefix.push(pred), depth + 1).len()
                ==> spec_leaf_paths(g, context, pred, prefix, depth).contains(
                #[trigger] spec_leaf_paths(g, context, dep, prefix.push(pred), depth + 1)[r],
            ),
{
    let node = g[pred as int];
    let deps = node.impl_deps.unwrap()@;
    lemma_unmet_complete(g, deps, dep);
    let unmet = spec_unmet(g, deps);
    lemma_followable_complete(g, context, node.pred.trait_id, unmet, dep);
    let follow = spec_followable(g, context, node.pred.trait_id, unmet);
    assert(follow.len() > 0);
    assert(spec_leaf_paths(g, context, pred, prefix, depth) == spec_children_paths(
        g,
        context,
        follow,
        prefix.push(pred),
        depth + 1,
    ));
    lemma_children_include(g, context, follow, prefix.push(pred), depth + 1, dep);
}

} // verus!
