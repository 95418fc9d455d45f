//! The decisions behind recovering the failing obligation a use-site or wrapper failure stands
//! for: how a component's `Params` slot is ungrouped into a consumer trait's arguments, which of
//! a context's wired keys a use-site failure re-checks, and how a foreign wrapper's `where`-clause
//! chain is descended to the CGP consumer beneath it. The compiler supplies the facts (the
//! consumer's parameter kinds, the context's `DelegateComponent` keys, the obligations each hop
//! rests on); every choice made from them is here.

use vstd::prelude::*;

use crate::config::{CGP_FIELD_CRATE, LIFE_TYPE};
use crate::ty_model::{
    has_param, is_cgp_item, is_path_cons, open_dispatch_target, spec_has_kind, spec_is_item,
    spec_is_path_cons, spec_open_dispatch_target, spec_type_at, type_at, GenericArg, Ty, TyKind,
};

verus! {

// ---------------------------------------------------------------------------------------------
// Ungrouping a component's `Params` slot
// ---------------------------------------------------------------------------------------------

/// The kind of one of a consumer trait's own generic parameters (after `Self`).
pub enum ParamKind {
    Type,
    Lifetime,
    Const,
}

/// The types a `Params` slot supplies for `n` parameters: none as the unit `()`, one bare (even
/// when it is itself a tuple type), several as a tuple of exactly that many elements.
pub open spec fn spec_slot_types(n: nat, params: Ty) -> Option<Seq<Ty>> {
    if n == 0 {
        if params.kind is Tuple && params.args@.len() == 0 {
            Some(Seq::empty())
        } else {
            None
        }
    } else if n == 1 {
        Some(seq![params])
    } else if params.kind is Tuple && params.args@.len() == n && forall|i: int|
        0 <= i < n ==> #[trigger] spec_type_at(params, i) is Some {
        Some(Seq::new(n, |i: int| spec_type_at(params, i).unwrap()))
    } else {
        None
    }
}

/// Whether `t` is CGP's genuine lifetime lift `Life<'a>`, carrying a region.
pub open spec fn spec_is_life(t: Ty) -> bool {
    &&& spec_is_item(t, LIFE_TYPE@, CGP_FIELD_CRATE@)
    &&& exists|i: int| 0 <= i < t.args@.len() && #[trigger] t.args@[i] is Lifetime
}

/// Whether a slot type can stand for a parameter of `kind`: any type for a type parameter, a
/// `Life<'a>` for a lifetime parameter, and nothing for a const parameter (a CGP component has
/// none).
pub open spec fn spec_fits(kind: ParamKind, t: Ty) -> bool {
    match kind {
        ParamKind::Type => true,
        ParamKind::Lifetime => spec_is_life(t),
        ParamKind::Const => false,
    }
}

/// The consumer trait's arguments (after `Self`) recovered from the component's `Params` slot,
/// each with whether it is a lifetime (whose region is the one inside the `Life<'a>`); `None`
/// when the slot does not match the trait's parameters.
pub open spec fn spec_ungroup(kinds: Seq<ParamKind>, params: Ty) -> Option<Seq<(Ty, bool)>> {
    match spec_slot_types(kinds.len(), params) {
        Some(tys) => if forall|i: int| 0 <= i < kinds.len() ==> spec_fits(kinds[i], #[trigger] tys[i]) {
            Some(Seq::new(kinds.len(), |i: int| (tys[i], kinds[i] is Lifetime)))
        } else {
            None
        },
        None => None,
    }
}

/// Whether `t` is the genuine `Life<'a>` lifetime lift.
fn is_life(t: &Ty) -> (r: bool)
    ensures
        r == spec_is_life(*t),
{
    if !is_cgp_item(t, LIFE_TYPE, CGP_FIELD_CRATE) {
        return false;
    }
    let mut i: usize = 0;
    while i < t.args.len()
        invariant
            i <= t.args@.len(),
            spec_is_item(*t, LIFE_TYPE@, CGP_FIELD_CRATE@),
            forall|j: int| 0 <= j < i ==> !(#[trigger] t.args@[j] is Lifetime),
        decreases t.args@.len() - i,
    {
        if let GenericArg::Lifetime = &t.args[i] {
            assert(t.args@[i as int] is Lifetime);
            return true;
        }
        i = i + 1;
    }
    false
}

/// Ungroup a component's `Params` slot against the consumer trait's own parameter kinds.
///
/// The slot groups a component's extra parameters as all-types data — none as `()`, one bare,
/// several as a tuple, a lifetime lifted into `Life<'a>` — so it is read against the trait's
/// declared parameters rather than by its shape alone: the parameter count decides whether a
/// tuple is *the* single parameter or several to spread, and a lifetime parameter takes its region
/// back out of the `Life<'a>`. Each recovered argument comes with whether it is such a lifetime.
/// `None` when the slot does not match (a const parameter, an arity mismatch, a lifetime slot that
/// is not `Life<'a>`), so the caller declines rather than build a malformed obligation.
pub fn ungroup_params<'a>(kinds: &Vec<ParamKind>, params: &'a Ty) -> (r: Option<Vec<(&'a Ty, bool)>>)
    ensures
        match r {
            Some(v) => spec_ungroup(kinds@, *params) == Some(
                v@.map_values(|a: (&'a Ty, bool)| (*a.0, a.1)),
            ),
            None => spec_ungroup(kinds@, *params) is None,
        },
{
    let n = kinds.len();
    let ghost slot = spec_slot_types(n as nat, *params);
    let mut tys: Vec<&'a Ty> = Vec::new();
    if n == 0 {
        let unit = match &params.kind {
            TyKind::Tuple => params.args.len() == 0,
            _ => false,
        };
        if !unit {
            return None;
        }
    } else if n == 1 {
        tys.push(params);
        assert(tys@.map_values(|t: &'a Ty| *t) =~= seq![*params]);
    } else {
        let is_tuple = match &params.kind {
            TyKind::Tuple => true,
            _ => false,
        };
        if !is_tuple || params.args.len() != n {
            return None;
        }
        let mut i: usize = 0;
        while i < n
            invariant
                i <= n,
                n >= 2,
                n == kinds@.len(),
                n == params.args@.len(),
                params.kind is Tuple,
                slot == spec_slot_types(n as nat, *params),
                tys@.len() == i,
                forall|j: int| 0 <= j < i ==> spec_type_at(*params, j) == Some(*#[trigger] tys@[j]),
            decreases n - i,
        {
            match type_at(params, i) {
                Some(t) => tys.push(t),
                None => {
                    assert(!(spec_type_at(*params, i as int) is Some));
                    assert(!(forall|j: int|
                        0 <= j < n ==> #[trigger] spec_type_at(*params, j) is Some));
                    assert(slot is None);
                    return None;
                },
            }
            i = i + 1;
        }
        assert forall|j: int| 0 <= j < n implies #[trigger] spec_type_at(*params, j) is Some by {
            assert(spec_type_at(*params, j) == Some(*tys@[j]));
        }
    }
    proof {
        assert(slot is Some);
        assert(slot.unwrap() =~= tys@.map_values(|t: &'a Ty| *t));
    }
    let ghost want = slot.unwrap();
    let mut out: Vec<(&'a Ty, bool)> = Vec::new();
    let mut i: usize = 0;
    while i < n
        invariant
            i <= n,
            n == kinds@.len(),
            tys@.len() == n,
            want == tys@.map_values(|t: &'a Ty| *t),
            spec_slot_types(n as nat, *params) == Some(want),
            out@.len() == i,
            forall|j: int| 0 <= j < i ==> spec_fits(kinds@[j], #[trigger] want[j]),
            forall|j: int|
                0 <= j < i ==> (*(#[trigger] out@[j]).0, out@[j].1) == (want[j], kinds@[j] is Lifetime),
        decreases n - i,
    {
        let t = tys[i];
        match &kinds[i] {
            ParamKind::Type => {
                out.push((t, false));
            },
            ParamKind::Lifetime => {
                if !is_life(t) {
                    assert(!spec_fits(kinds@[i as int], want[i as int]));
                    assert(spec_ungroup(kinds@, *params) is None);
                    return None;
                }
                out.push((t, true));
            },
            ParamKind::Const => {
                assert(!spec_fits(kinds@[i as int], want[i as int]));
                assert(spec_ungroup(kinds@, *params) is None);
                return None;
            },
        }
        i = i + 1;
    }
    assert(out@.map_values(|a: (&'a Ty, bool)| (*a.0, a.1)) =~= Seq::new(
        n as nat,
        |j: int| (want[j], kinds@[j] is Lifetime),
    ));
    Some(out)
}

// ---------------------------------------------------------------------------------------------
// The components a use-site failure re-checks
// ---------------------------------------------------------------------------------------------

/// One component a use-site failure re-checks, read from the context's `DelegateComponent` key
/// at index `key`: an `open`-dispatch redirect path (`dispatch`), re-checked with the component
/// and dispatch value the path names, or a bare component marker, re-checked with the unit
/// parameter `()`.
#[derive(PartialEq, Eq, Structural, Clone, Copy, Debug)]
pub struct CheckTarget {
    pub key: usize,
    pub dispatch: bool,
}

/// Whether the `open`-dispatch key `key` names the component `comp` (by interned identity).
pub open spec fn spec_dispatches(key: Ty, comp: Ty) -> bool {
    match spec_open_dispatch_target(key) {
        Some((c, _)) => c.id == comp.id,
        None => false,
    }
}

/// Whether one of `keys` is an `open`-dispatch redirect for the component `comp`.
pub open spec fn spec_dispatched(keys: Seq<Ty>, comp: Ty) -> bool {
    exists|j: int| 0 <= j < keys.len() && #[trigger] spec_dispatches(keys[j], comp)
}

/// How the key at `i` is re-checked, if at all:
///
/// - an `open`-dispatch redirect path is re-checked with its component and dispatch value, unless
///   the value keeps a free type parameter (a generic catch-all entry, whose every concrete value
///   is re-checked through its own entry);
/// - any other key is a bare marker re-checked with `()`, unless it is a longer `PathCons` route,
///   a component some `open` redirect already dispatches (whose `()` form is meaningless), or a
///   key that is or holds a free parameter (a `namespace …;` blanket forwarding, not a component).
pub open spec fn spec_target_of(keys: Seq<Ty>, i: int) -> Option<bool> {
    match spec_open_dispatch_target(keys[i]) {
        Some((_, value)) => if !spec_has_kind(value, true) {
            Some(true)
        } else {
            None
        },
        None => if !spec_is_path_cons(keys[i]) && !spec_dispatched(keys, keys[i]) && !spec_has_kind(
            keys[i],
            true,
        ) {
            Some(false)
        } else {
            None
        },
    }
}

/// The re-check targets among the first `n` of `keys`, in key order.
pub open spec fn spec_check_targets(keys: Seq<Ty>, n: int) -> Seq<CheckTarget>
    decreases n,
{
    if n <= 0 {
        Seq::empty()
    } else {
        let before = spec_check_targets(keys, n - 1);
        match spec_target_of(keys, n - 1) {
            Some(d) => before.push(CheckTarget { key: (n - 1) as usize, dispatch: d }),
            None => before,
        }
    }
}

/// The interned identities of the components the `open`-dispatch keys among `keys` redirect.
fn dispatched_ids(keys: &Vec<Ty>) -> (r: Vec<u64>)
    ensures
        forall|comp: Ty| spec_dispatched(keys@, comp) <==> r@.contains(comp.id),
{
    let mut r: Vec<u64> = Vec::new();
    let mut i: usize = 0;
    while i < keys.len()
        invariant
            i <= keys@.len(),
            forall|comp: Ty|
                (exists|j: int| 0 <= j < i && #[trigger] spec_dispatches(keys@[j], comp))
                    <==> r@.contains(comp.id),
        decreases keys@.len() - i,
    {
        let ghost before = r@;
        if let Some((comp, _)) = open_dispatch_target(&keys[i]) {
            r.push(comp.id);
            assert forall|c: Ty|
                (exists|j: int| 0 <= j < i + 1 && #[trigger] spec_dispatches(keys@[j], c))
                    <==> r@.contains(c.id) by {
                if r@.contains(c.id) && !before.contains(c.id) {
                    assert(r@[before.len() as int] == c.id);
                    assert(spec_dispatches(keys@[i as int], c));
                }
                if before.contains(c.id) {
                    let k = choose|k: int| 0 <= k < before.len() && before[k] == c.id;
                    assert(r@[k] == c.id);
                }
                if exists|j: int| 0 <= j < i + 1 && #[trigger] spec_dispatches(keys@[j], c) {
                    let j = choose|j: int| 0 <= j < i + 1 && #[trigger] spec_dispatches(keys@[j], c);
                    if j == i {
                        assert(r@[before.len() as int] == c.id);
                    }
                }
            }
        } else {
            assert forall|c: Ty|
                (exists|j: int| 0 <= j < i + 1 && #[trigger] spec_dispatches(keys@[j], c))
                    <==> r@.contains(c.id) by {
                if exists|j: int| 0 <= j < i + 1 && #[trigger] spec_dispatches(keys@[j], c) {
                    let j = choose|j: int| 0 <= j < i + 1 && #[trigger] spec_dispatches(keys@[j], c);
                    assert(j != i);
                }
            }
        }
        i = i + 1;
    }
    r
}

/// Whether `ids` holds `id`.
fn contains_id(ids: &Vec<u64>, id: u64) -> (r: bool)
    ensures
        r == ids@.contains(id),
{
    let mut i: usize = 0;
    while i < ids.len()
        invariant
            i <= ids@.len(),
            forall|j: int| 0 <= j < i ==> ids@[j] != id,
        decreases ids@.len() - i,
    {
        if ids[i] == id {
            return true;
        }
        i = i + 1;
    }
    false
}

/// The components a use-site failure re-checks, from the context's `DelegateComponent` keys
/// (see [`spec_target_of`]): each `open`-dispatch redirect with a concrete value, and each
/// concrete bare marker that no redirect dispatches. A context joined to a namespace wires only the
/// blanket forwarding key, so it yields no target.
pub fn check_targets(keys: &Vec<Ty>) -> (r: Vec<CheckTarget>)
    ensures
        r@ == spec_check_targets(keys@, keys@.len() as int),
{
    let dispatched = dispatched_ids(keys);
    let mut r: Vec<CheckTarget> = Vec::new();
    let mut i: usize = 0;
    while i < keys.len()
        invariant
            i <= keys@.len(),
            forall|comp: Ty| spec_dispatched(keys@, comp) <==> dispatched@.contains(comp.id),
            r@ == spec_check_targets(keys@, i as int),
        decreases keys@.len() - i,
    {
        let key = &keys[i];
        match open_dispatch_target(key) {
            Some((_, value)) => {
                if !has_param(value) {
                    r.push(CheckTarget { key: i, dispatch: true });
                }
            },
            None => {
                if !is_path_cons(key) && !contains_id(&dispatched, key.id) && !has_param(key) {
                    r.push(CheckTarget { key: i, dispatch: false });
                }
            },
        }
        i = i + 1;
    }
    r
}

// ---------------------------------------------------------------------------------------------
// Descending a foreign wrapper's `where`-clause chain
// ---------------------------------------------------------------------------------------------

/// How many ordinary hops the wrapper-chain descent follows before giving up; real wrapper chains
/// are a few hops.
pub const MAX_WRAPPER_DEPTH: u32 = 32;

/// What the compiler answers about one obligation met on a wrapper's `where`-clause chain.
pub struct HopNode {
    /// Whether the obligation is the handoff: a CGP consumer on a local context whose root
    /// causes the dependency walk recovers.
    pub handoff: bool,
    /// The obligations (graph indices) the impl that would satisfy this one rests on — its direct
    /// trait bounds, and the base trait of each associated-type bound — or `None` when no impl
    /// matches.
    pub children: Option<Vec<usize>>,
    /// Whether the obligation already holds.
    pub holds: bool,
}

/// One handoff reached by the descent: its graph index, and the ordinary hops (graph indices,
/// outermost first) that led to it.
pub struct ChainHit {
    pub handoff: usize,
    pub chain: Vec<usize>,
}

/// Whether every index the hop graph refers to is in range.
pub open spec fn wf_hops(g: Seq<HopNode>) -> bool {
    forall|n: int|
        0 <= n < g.len() ==> (#[trigger] g[n].children matches Some(kids) ==> forall|k: int|
            0 <= k < kids@.len() ==> #[trigger] kids@[k] < g.len())
}

/// The obligations among `kids` that do not already hold, in order.
pub open spec fn spec_unmet_hops(g: Seq<HopNode>, kids: Seq<usize>) -> Seq<usize>
    decreases kids.len(),
{
    if kids.len() == 0 {
        Seq::empty()
    } else {
        let before = spec_unmet_hops(g, kids.drop_last());
        if g[kids.last() as int].holds {
            before
        } else {
            before.push(kids.last())
        }
    }
}

/// The handoffs reached below the unmet obligation `n`, with the hops `chain` above it: past
/// [`MAX_WRAPPER_DEPTH`] none; a handoff is reached; an obligation no impl satisfies reaches
/// nothing; anything else is a hop, descended into each of its impl's unmet obligations in order.
pub open spec fn spec_hits(g: Seq<HopNode>, n: usize, chain: Seq<usize>, depth: int) -> Seq<
    (usize, Seq<usize>),
>
    decreases MAX_WRAPPER_DEPTH + 2 - depth, 0int,
{
    if depth > MAX_WRAPPER_DEPTH || depth < 0 {
        Seq::empty()
    } else if g[n as int].handoff {
        seq![(n, chain)]
    } else {
        match g[n as int].children {
            Some(kids) => spec_kid_hits(g, spec_unmet_hops(g, kids@), chain.push(n), depth + 1),
            None => Seq::empty(),
        }
    }
}

/// The handoffs reached below each of `kids` in turn, all with the hops `chain` above them.
pub open spec fn spec_kid_hits(g: Seq<HopNode>, kids: Seq<usize>, chain: Seq<usize>, depth: int) -> Seq<
    (usize, Seq<usize>),
>
    decreases MAX_WRAPPER_DEPTH + 2 - depth, kids.len(),
{
    if kids.len() == 0 || depth > MAX_WRAPPER_DEPTH + 1 {
        Seq::empty()
    } else {
        spec_kid_hits(g, kids.drop_last(), chain, depth) + spec_hits(g, kids.last(), chain, depth)
    }
}

/// The plain views of collected hits.
pub open spec fn hits_view(hs: Seq<ChainHit>) -> Seq<(usize, Seq<usize>)> {
    hs.map_values(|h: ChainHit| (h.handoff, h.chain@))
}

/// The obligations among `kids` that do not already hold.
fn unmet_hops(g: &Vec<HopNode>, kids: &Vec<usize>) -> (r: Vec<usize>)
    requires
        forall|k: int| 0 <= k < kids@.len() ==> #[trigger] kids@[k] < g@.len(),
    ensures
        r@ == spec_unmet_hops(g@, kids@),
        forall|k: int| 0 <= k < r@.len() ==> #[trigger] r@[k] < g@.len(),
{
    let mut r: Vec<usize> = Vec::new();
    let mut i: usize = 0;
    while i < kids.len()
        invariant
            i <= kids@.len(),
            forall|k: int| 0 <= k < kids@.len() ==> #[trigger] kids@[k] < g@.len(),
            r@ == spec_unmet_hops(g@, kids@.take(i as int)),
            forall|k: int| 0 <= k < r@.len() ==> #[trigger] r@[k] < g@.len(),
        decreases kids@.len() - i,
    {
        assert(kids@.take(i + 1).drop_last() =~= kids@.take(i as int));
        assert(kids@.take(i + 1).last() == kids@[i as int]);
        let n = kids[i];
        if !g[n].holds {
            r.push(n);
        }
        i = i + 1;
    }
    assert(kids@.take(kids@.len() as int) =~= kids@);
    r
}

/// Collect the handoffs reached below the unmet obligation `n` (see [`spec_hits`]).
fn hits_below(g: &Vec<HopNode>, n: usize, chain: &Vec<usize>, depth: u32) -> (r: Vec<ChainHit>)
    requires
        wf_hops(g@),
        n < g@.len(),
        chain@.len() + MAX_WRAPPER_DEPTH + 3 <= usize::MAX + depth,
    ensures
        hits_view(r@) == spec_hits(g@, n, chain@, depth as int),
    decreases MAX_WRAPPER_DEPTH + 2 - depth, 0int,
{
    if depth > MAX_WRAPPER_DEPTH {
        let r: Vec<ChainHit> = Vec::new();
        assert(hits_view(r@) =~= Seq::<(usize, Seq<usize>)>::empty());
        return r;
    }
    if g[n].handoff {
        let mut r: Vec<ChainHit> = Vec::new();
        r.push(ChainHit { handoff: n, chain: chain.clone() });
        assert(hits_view(r@) =~= seq![(n, chain@)]);
        return r;
    }
    match &g[n].children {
        None => {
            let r: Vec<ChainHit> = Vec::new();
            assert(hits_view(r@) =~= Seq::<(usize, Seq<usize>)>::empty());
            r
        },
        Some(kids) => {
            assert(forall|k: int| 0 <= k < kids@.len() ==> #[trigger] kids@[k] < g@.len());
            let unmet = unmet_hops(g, kids);
            let mut next = chain.clone();
            next.push(n);
            assert(next@ =~= chain@.push(n));
            kid_hits(g, &unmet, &next, depth + 1)
        },
    }
}

/// Collect the handoffs reached below each of `kids` in turn (see [`spec_kid_hits`]).
fn kid_hits(g: &Vec<HopNode>, kids: &Vec<usize>, chain: &Vec<usize>, depth: u32) -> (r: Vec<
    ChainHit,
>)
    requires
        wf_hops(g@),
        depth <= MAX_WRAPPER_DEPTH + 1,
        forall|k: int| 0 <= k < kids@.len() ==> #[trigger] kids@[k] < g@.len(),
        chain@.len() + MAX_WRAPPER_DEPTH + 3 <= usize::MAX + depth,
    ensures
        hits_view(r@) == spec_kid_hits(g@, kids@, chain@, depth as int),
    decreases MAX_WRAPPER_DEPTH + 2 - depth, kids@.len(),
{
    let mut r: Vec<ChainHit> = Vec::new();
    let mut i: usize = 0;
    while i < kids.len()
        invariant
            i <= kids@.len(),
            wf_hops(g@),
            depth <= MAX_WRAPPER_DEPTH + 1,
            forall|k: int| 0 <= k < kids@.len() ==> #[trigger] kids@[k] < g@.len(),
            chain@.len() + MAX_WRAPPER_DEPTH + 3 <= usize::MAX + depth,
            hits_view(r@) == spec_kid_hits(g@, kids@.take(i as int), chain@, depth as int),
        decreases kids@.len() - i,
    {
        assert(kids@.take(i + 1).drop_last() =~= kids@.take(i as int));
        assert(kids@.take(i + 1).last() == kids@[i as int]);
        let mut more = hits_below(g, kids[i], chain, depth);
        let ghost before = hits_view(r@);
        let ghost added = hits_view(more@);
        r.append(&mut more);
        assert(hits_view(r@) =~= before + added);
        i = i + 1;
    }
    assert(kids@.take(kids@.len() as int) =~= kids@);
    r
}

/// Descend a foreign wrapper's unmet supertraits (`roots`) down their `where`-clause chains to
/// each CGP consumer handoff beneath them. An obligation that already holds is not descended; a
/// handoff ends the descent there (the dependency walk recovers the rest); every other obligation
/// is an ordinary hop, descended through the impl that would satisfy it, recorded in the chain
/// above each handoff reached below it. A branch with no satisfying impl, or one that reaches no
/// handoff within [`MAX_WRAPPER_DEPTH`] hops, contributes nothing.
pub fn descend_wrapper_chain(g: &Vec<HopNode>, roots: &Vec<usize>) -> (r: Vec<ChainHit>)
    requires
        wf_hops(g@),
        forall|k: int| 0 <= k < roots@.len() ==> #[trigger] roots@[k] < g@.len(),
    ensures
        hits_view(r@) == spec_kid_hits(g@, spec_unmet_hops(g@, roots@), Seq::empty(), 0),
{
    let unmet = unmet_hops(g, roots);
    let chain: Vec<usize> = Vec::new();
    assert(chain@ =~= Seq::<usize>::empty());
    kid_hits(g, &unmet, &chain, 0)
}

/// Whether `b` is an unmet obligation the impl that would satisfy obligation `a` rests on.
pub open spec fn spec_hop_edge(g: Seq<HopNode>, a: int, b: usize) -> bool {
    &&& g[a].children matches Some(kids)
    &&& kids@.contains(b)
    &&& !g[b as int].holds
}

/// Whether the hit on handoff `h` with hops `c` is a sound descent from position `start` of the
/// path `c.push(h)` on: every hop from there is an ordinary obligation (not a handoff) that steps
/// to an unmet obligation its satisfying impl rests on, and the path ends on the handoff `h`.
pub open spec fn spec_descent_ok(g: Seq<HopNode>, h: usize, c: Seq<usize>, start: int) -> bool {
    &&& 0 <= start <= c.len()
    &&& g[h as int].handoff
    &&& forall|j: int|
        start <= j < c.len() ==> !g[#[trigger] c[j] as int].handoff && spec_hop_edge(
            g,
            c[j] as int,
            c.push(h)[j + 1],
        )
}

/// A hit found below `first` with hops `chain` above it, at `depth`: it extends `chain`, starts at
/// `first`, is a sound descent from there, stays within the depth bound, and names only graph
/// indices.
spec fn hit_ok(
    g: Seq<HopNode>,
    hit: (usize, Seq<usize>),
    chain: Seq<usize>,
    first: usize,
    depth: int,
) -> bool {
    let (h, c) = hit;
    &&& chain.is_prefix_of(c)
    &&& c.push(h)[chain.len() as int] == first
    &&& spec_descent_ok(g, h, c, chain.len() as int)
    &&& c.len() - chain.len() <= MAX_WRAPPER_DEPTH - depth
    &&& h < g.len()
    &&& forall|k: int| 0 <= k < c.len() ==> #[trigger] c[k] < g.len()
}

/// Every obligation `spec_unmet_hops` keeps is one of `kids` and does not hold.
proof fn lemma_unmet_hops(g: Seq<HopNode>, kids: Seq<usize>)
    ensures
        forall|k: int|
            0 <= k < spec_unmet_hops(g, kids).len() ==> kids.contains(
                #[trigger] spec_unmet_hops(g, kids)[k],
            ) && !g[spec_unmet_hops(g, kids)[k] as int].holds,
    decreases kids.len(),
{
    if kids.len() > 0 {
        lemma_unmet_hops(g, kids.drop_last());
        let before = spec_unmet_hops(g, kids.drop_last());
        assert forall|k: int| 0 <= k < spec_unmet_hops(g, kids).len() implies kids.contains(
            #[trigger] spec_unmet_hops(g, kids)[k],
        ) && !g[spec_unmet_hops(g, kids)[k] as int].holds by {
            if k < before.len() {
                let x = before[k];
                let w = choose|w: int| 0 <= w < kids.drop_last().len() && kids.drop_last()[w] == x;
                assert(kids[w] == x);
            } else {
                assert(kids[kids.len() - 1] == kids.last());
            }
        }
    }
}

/// A hit found below one of `kids`, with hops `chain` above it, at `depth`.
spec fn some_kid_ok(
    g: Seq<HopNode>,
    hit: (usize, Seq<usize>),
    chain: Seq<usize>,
    kids: Seq<usize>,
    depth: int,
) -> bool {
    exists|k: int| 0 <= k < kids.len() && #[trigger] hit_ok(g, hit, chain, kids[k], depth)
}

/// The hits below `n` are sound descents from `n`.
proof fn lemma_hits_ok(g: Seq<HopNode>, n: usize, chain: Seq<usize>, depth: int)
    requires
        wf_hops(g),
        n < g.len(),
        depth >= 0,
        forall|k: int| 0 <= k < chain.len() ==> #[trigger] chain[k] < g.len(),
    ensures
        forall|r: int|
            0 <= r < spec_hits(g, n, chain, depth).len() ==> hit_ok(
                g,
                #[trigger] spec_hits(g, n, chain, depth)[r],
                chain,
                n,
                depth,
            ),
    decreases MAX_WRAPPER_DEPTH + 2 - depth, 0int,
{
    if depth > MAX_WRAPPER_DEPTH {
        return;
    }
    let out = spec_hits(g, n, chain, depth);
    if g[n as int].handoff {
        assert(out == seq![(n, chain)]);
        assert(chain.is_prefix_of(chain));
        assert(chain.push(n)[chain.len() as int] == n);
        assert(hit_ok(g, out[0], chain, n, depth));
        return;
    }
    match g[n as int].children {
        None => {},
        Some(kids) => {
            let unmet = spec_unmet_hops(g, kids@);
            let next = chain.push(n);
            lemma_unmet_hops(g, kids@);
            assert(wf_hops(g) ==> (g[n as int].children matches Some(ks) ==> forall|k: int|
                0 <= k < ks@.len() ==> #[trigger] ks@[k] < g.len()));
            assert forall|k: int| 0 <= k < unmet.len() implies #[trigger] unmet[k] < g.len()
                && spec_hop_edge(g, n as int, unmet[k]) by {
                let w = choose|w: int| 0 <= w < kids@.len() && kids@[w] == unmet[k];
                assert(kids@[w] < g.len());
            }
            assert forall|k: int| 0 <= k < next.len() implies #[trigger] next[k] < g.len() by {
                if k < chain.len() {
                    assert(next[k] == chain[k]);
                }
            }
            lemma_kid_hits_ok(g, unmet, next, depth + 1);
            assert(out == spec_kid_hits(g, unmet, next, depth + 1));
            assert forall|r: int| 0 <= r < out.len() implies hit_ok(
                g,
                #[trigger] out[r],
                chain,
                n,
                depth,
            ) by {
                let (h, c) = out[r];
                assert(some_kid_ok(g, out[r], next, unmet, depth + 1));
                let k = choose|k: int|
                    0 <= k < unmet.len() && #[trigger] hit_ok(g, out[r], next, unmet[k], depth + 1);
                let p = c.push(h);
                assert(c.subrange(0, next.len() as int) =~= next);
                assert(c.subrange(0, chain.len() as int) =~= chain);
                assert(chain.is_prefix_of(c));
                assert(c[chain.len() as int] == next[chain.len() as int]);
                assert(p[chain.len() as int] == n);
                assert(p[chain.len() + 1int] == unmet[k]);
                assert(spec_descent_ok(g, h, c, chain.len() as int));
            }
        },
    }
}

/// The hits below each of `kids` are sound descents from that kid.
proof fn lemma_kid_hits_ok(g: Seq<HopNode>, kids: Seq<usize>, chain: Seq<usize>, depth: int)
    requires
        wf_hops(g),
        depth >= 0,
        forall|k: int| 0 <= k < kids.len() ==> #[trigger] kids[k] < g.len(),
        forall|k: int| 0 <= k < chain.len() ==> #[trigger] chain[k] < g.len(),
    ensures
        forall|r: int|
            0 <= r < spec_kid_hits(g, kids, chain, depth).len() ==> some_kid_ok(
                g,
                #[trigger] spec_kid_hits(g, kids, chain, depth)[r],
                chain,
                kids,
                depth,
            ),
    decreases MAX_WRAPPER_DEPTH + 2 - depth, kids.len(),
{
    if kids.len() == 0 || depth > MAX_WRAPPER_DEPTH + 1 {
        return;
    }
    let init = kids.drop_last();
    assert forall|k: int| 0 <= k < init.len() implies #[trigger] init[k] < g.len() by {
        assert(init[k] == kids[k]);
    }
    assert(kids.last() == kids[kids.len() - 1]);
    lemma_kid_hits_ok(g, init, chain, depth);
    lemma_hits_ok(g, kids.last(), chain, depth);
    let left = spec_kid_hits(g, init, chain, depth);
    let right = spec_hits(g, kids.last(), chain, depth);
    assert(spec_kid_hits(g, kids, chain, depth) == left + right);
    let all = spec_kid_hits(g, kids, chain, depth);
    assert(all == left + right);
    assert forall|r: int| 0 <= r < all.len() implies some_kid_ok(g, #[trigger] all[r], chain, kids, depth) by {
        if r < left.len() {
            assert(all[r] == left[r]);
            assert(some_kid_ok(g, left[r], chain, init, depth));
            let k = choose|k: int| 0 <= k < init.len() && #[trigger] hit_ok(g, left[r], chain, init[k], depth);
            assert(kids[k] == init[k]);
            assert(hit_ok(g, all[r], chain, kids[k], depth));
        } else {
            assert(all[r] == right[r - left.len()]);
            assert(hit_ok(g, all[r], chain, kids[kids.len() - 1], depth));
        }
    }
}

/// The wrapper-chain descent is sound: each handoff it reports is reached from one of the
/// wrapper's unmet supertraits through ordinary obligations only, each stepping to an unmet
/// obligation its satisfying impl rests on, within [`MAX_WRAPPER_DEPTH`] hops. Only a genuine
/// CGP consumer handoff is ever reported, so a wandering descent cannot fabricate a cause.
pub proof fn law_wrapper_chain_sound(g: Seq<HopNode>, roots: Seq<usize>)
    requires
        wf_hops(g),
        forall|k: int| 0 <= k < roots.len() ==> #[trigger] roots[k] < g.len(),
    ensures
        forall|r: int|
            0 <= r < spec_kid_hits(g, spec_unmet_hops(g, roots), Seq::empty(), 0).len() ==> {
                let (h, c) = #[trigger] spec_kid_hits(
                    g,
                    spec_unmet_hops(g, roots),
                    Seq::empty(),
                    0,
                )[r];
                &&& roots.contains(c.push(h)[0])
                &&& !g[c.push(h)[0] as int].holds
                &&& spec_descent_ok(g, h, c, 0)
                &&& c.len() <= MAX_WRAPPER_DEPTH
            },
{
    let unmet = spec_unmet_hops(g, roots);
    lemma_unmet_hops(g, roots);
    assert forall|k: int| 0 <= k < unmet.len() implies #[trigger] unmet[k] < g.len() by {
        let w = choose|w: int| 0 <= w < roots.len() && roots[w] == unmet[k];
        assert(roots[w] < g.len());
    }
    lemma_kid_hits_ok(g, unmet, Seq::empty(), 0);
    let out = spec_kid_hits(g, unmet, Seq::empty(), 0);
    assert forall|r: int| 0 <= r < out.len() implies {
        let (h, c) = #[trigger] out[r];
        &&& roots.contains(c.push(h)[0])
        &&& !g[c.push(h)[0] as int].holds
        &&& spec_descent_ok(g, h, c, 0)
        &&& c.len() <= MAX_WRAPPER_DEPTH
    } by {
        assert(some_kid_ok(g, out[r], Seq::empty(), unmet, 0));
        let k = choose|k: int| 0 <= k < unmet.len() && #[trigger] hit_ok(g, out[r], Seq::empty(), unmet[k], 0);
        assert(roots.contains(unmet[k]));
    }
}

// ---------------------------------------------------------------------------------------------
// Recognizing a capability trait
// ---------------------------------------------------------------------------------------------

/// How far the search for CGP evidence follows one capability's blanket bounds into another's; a
/// composed chain is a few links, and the bound also stops two capabilities that depend on each
/// other from looping.
pub const MAX_CAPABILITY_DEPTH: u32 = 4;

/// What the compiler answers about one trait met while looking for CGP evidence.
pub struct TraitNode {
    /// Whether the trait carries a blanket impl (one over a bare type parameter).
    pub has_blanket: bool,
    /// Whether the trait is defined by the crate being checked.
    pub local: bool,
    /// Whether the trait is defined by one of CGP's own crates.
    pub from_cgp_crate: bool,
    /// Whether the trait is a CGP consumer trait.
    pub is_consumer: bool,
    /// The traits (graph indices) its blanket impls bound, in order.
    pub bounds: Vec<usize>,
}

/// Whether every index the trait graph refers to is in range.
pub open spec fn wf_traits(g: Seq<TraitNode>) -> bool {
    forall|n: int|
        0 <= n < g.len() ==> forall|k: int|
            0 <= k < (#[trigger] g[n]).bounds@.len() ==> #[trigger] g[n].bounds@[k] < g.len()
}

/// Whether trait `t`'s blanket impls depend on CGP, searching from `depth`: some bound comes from
/// one of CGP's crates, is a CGP consumer, or is itself a blanket trait that depends on CGP —
/// followed to [`MAX_CAPABILITY_DEPTH`].
pub open spec fn spec_depends_on_cgp(g: Seq<TraitNode>, t: usize, depth: int) -> bool
    decreases MAX_CAPABILITY_DEPTH + 1 - depth, 1int, 0int,
{
    if depth >= MAX_CAPABILITY_DEPTH || depth < 0 {
        false
    } else {
        spec_any_evidence(g, g[t as int].bounds@, depth)
    }
}

/// Whether some bound among `bounds` is CGP evidence for a trait searched at `depth`.
pub open spec fn spec_any_evidence(g: Seq<TraitNode>, bounds: Seq<usize>, depth: int) -> bool
    decreases MAX_CAPABILITY_DEPTH + 1 - depth, 0int, bounds.len(),
{
    if bounds.len() == 0 || depth >= MAX_CAPABILITY_DEPTH || depth < 0 {
        false
    } else {
        let b = bounds.last();
        let node = g[b as int];
        spec_any_evidence(g, bounds.drop_last(), depth) || node.from_cgp_crate || node.is_consumer
            || (node.has_blanket && spec_depends_on_cgp(g, b, depth + 1))
    }
}

/// Whether trait `t` is a capability trait: it carries a blanket impl, and it is either defined by
/// the crate being checked or shows by its blanket's bounds that it depends on CGP.
pub open spec fn spec_is_capability(g: Seq<TraitNode>, t: usize) -> bool {
    g[t as int].has_blanket && (g[t as int].local || spec_depends_on_cgp(g, t, 0))
}

/// Whether trait `t`'s blanket impls depend on CGP (see [`spec_depends_on_cgp`]).
fn depends_on_cgp(g: &Vec<TraitNode>, t: usize, depth: u32) -> (r: bool)
    requires
        wf_traits(g@),
        t < g@.len(),
    ensures
        r == spec_depends_on_cgp(g@, t, depth as int),
    decreases MAX_CAPABILITY_DEPTH + 1 - depth, 1int, 0int,
{
    if depth >= MAX_CAPABILITY_DEPTH {
        return false;
    }
    assert(forall|k: int| 0 <= k < g@[t as int].bounds@.len() ==> #[trigger] g@[t as int].bounds@[k] < g@.len());
    any_evidence(g, &g[t].bounds, depth)
}

/// Whether some bound among `bounds` is CGP evidence (see [`spec_any_evidence`]).
fn any_evidence(g: &Vec<TraitNode>, bounds: &Vec<usize>, depth: u32) -> (r: bool)
    requires
        wf_traits(g@),
        depth < MAX_CAPABILITY_DEPTH,
        forall|k: int| 0 <= k < bounds@.len() ==> #[trigger] bounds@[k] < g@.len(),
    ensures
        r == spec_any_evidence(g@, bounds@, depth as int),
    decreases MAX_CAPABILITY_DEPTH + 1 - depth, 0int, bounds@.len(),
{
    let mut i: usize = 0;
    let mut found = false;
    while i < bounds.len()
        invariant
            i <= bounds@.len(),
            wf_traits(g@),
            depth < MAX_CAPABILITY_DEPTH,
            forall|k: int| 0 <= k < bounds@.len() ==> #[trigger] bounds@[k] < g@.len(),
            found == spec_any_evidence(g@, bounds@.take(i as int), depth as int),
        decreases bounds@.len() - i,
    {
        assert(bounds@.take(i + 1).drop_last() =~= bounds@.take(i as int));
        assert(bounds@.take(i + 1).last() == bounds@[i as int]);
        let b = bounds[i];
        let node = &g[b];
        let here = node.from_cgp_crate || node.is_consumer || (node.has_blanket && depends_on_cgp(
            g,
            b,
            depth + 1,
        ));
        found = found || here;
        i = i + 1;
    }
    assert(bounds@.take(bounds@.len() as int) =~= bounds@);
    found
}

/// Whether trait `t` is a capability trait — the shape `#[cgp_fn]` and `#[blanket_trait]`
/// generate, whose failing bound has a recoverable cause down its blanket's `where` clause. A
/// blanket impl alone is too broad a signal (`ToString`, `Into` and `Borrow` carry one), so a
/// trait qualifies when the crate being checked defines it, or when its blanket depends on CGP.
pub fn is_capability_trait(g: &Vec<TraitNode>, t: usize) -> (r: bool)
    requires
        wf_traits(g@),
        t < g@.len(),
    ensures
        r == spec_is_capability(g@, t),
{
    g[t].has_blanket && (g[t].local || depends_on_cgp(g, t, 0))
}

} // verus!
