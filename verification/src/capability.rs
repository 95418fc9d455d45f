//! Recognizing a capability used without being declared, and an inner provider called without
//! being imported.
//!
//! Both failures are vague `E0599`s inside a generated impl: a `#[cgp_fn]`/`#[cgp_impl]` body
//! calling a capability it never declared through `#[uses(…)]`, whose method then cannot resolve
//! on the generated `__Context__` parameter; and a higher-order provider calling an inner provider
//! (`Inner::method(self)`) it never imported through `#[use_provider]`. The enclosing impl, the
//! failing call and the traits involved are read from the crate's source by the caller; the
//! decisions are made here.

use vstd::prelude::*;

use crate::diag::Span;
use crate::text::{owned, str_eq};

verus! {

/// A capability trait carrying the called method.
pub struct CapabilityFacts {
    /// The trait's name.
    pub name: String,
    /// Where the trait is defined.
    pub def_span: Span,
    /// Whether the enclosing impl already bounds its context by this trait.
    pub bounded: bool,
}

/// Whether the definition at `def_span` is referenced by one of the diagnostic's spans.
pub open spec fn referenced(def_span: Span, spans: Seq<Span>) -> bool {
    exists|k: int| 0 <= k < spans.len() && def_span.spec_overlaps(#[trigger] spans[k])
}

/// The capabilities among `caps` that the diagnostic's spans reference, by index.
pub open spec fn referenced_caps(caps: Seq<CapabilityFacts>, spans: Seq<Span>, n: int) -> Seq<int>
    decreases n,
{
    if n <= 0 || n > caps.len() {
        Seq::empty()
    } else if referenced(caps[n - 1].def_span, spans) {
        referenced_caps(caps, spans, n - 1).push(n - 1)
    } else {
        referenced_caps(caps, spans, n - 1)
    }
}

/// The first index in `pool` whose capability the impl does not bound.
pub open spec fn first_unbounded(caps: Seq<CapabilityFacts>, pool: Seq<int>, n: int) -> Option<int>
    decreases n,
{
    if n <= 0 || n > pool.len() {
        None
    } else {
        match first_unbounded(caps, pool, n - 1) {
            Some(k) => Some(k),
            None => if !caps[pool[n - 1]].bounded {
                Some(pool[n - 1])
            } else {
                None
            },
        }
    }
}

/// The capability to declare for a failing method call in an impl whose `Self` is a bare type
/// parameter (`self_is_param`, the generated `__Context__` impl), among the capability traits
/// carrying the method: those the diagnostic's spans reference when there are any (the trait
/// the compiler names), else all of them; the first of those the impl does not already bound.
pub open spec fn spec_undeclared(self_is_param: bool, caps: Seq<CapabilityFacts>, spans: Seq<Span>) -> Option<int> {
    if !self_is_param {
        None
    } else {
        let refd = referenced_caps(caps, spans, caps.len() as int);
        let pool = if refd.len() > 0 {
            refd
        } else {
            Seq::new(caps.len(), |i: int| i)
        };
        first_unbounded(caps, pool, pool.len() as int)
    }
}

/// Whether the span `def_span` overlaps one of `spans`.
fn is_referenced(def_span: &Span, spans: &Vec<Span>) -> (r: bool)
    ensures
        r == referenced(*def_span, spans@),
{
    let mut k: usize = 0;
    while k < spans.len()
        invariant
            k <= spans@.len(),
            forall|j: int| 0 <= j < k ==> !def_span.spec_overlaps(#[trigger] spans@[j]),
        decreases spans@.len() - k,
    {
        if def_span.overlaps(&spans[k]) {
            return true;
        }
        k = k + 1;
    }
    false
}

/// The first unbounded capability of `pool`.
fn pick_unbounded(caps: &Vec<CapabilityFacts>, pool: &Vec<usize>) -> (r: Option<usize>)
    requires
        forall|k: int| 0 <= k < pool@.len() ==> (#[trigger] pool@[k]) < caps@.len(),
    ensures
        match r {
            Some(i) => first_unbounded(caps@, pool@.map_values(|x: usize| x as int), pool@.len() as int) == Some(i as int),
            None => first_unbounded(caps@, pool@.map_values(|x: usize| x as int), pool@.len() as int) is None,
        },
{
    let ghost pv = pool@.map_values(|x: usize| x as int);
    let mut k: usize = 0;
    while k < pool.len()
        invariant
            k <= pool@.len(),
            pv == pool@.map_values(|x: usize| x as int),
            forall|j: int| 0 <= j < pool@.len() ==> (#[trigger] pool@[j]) < caps@.len(),
            first_unbounded(caps@, pv, k as int) is None,
        decreases pool@.len() - k,
    {
        let i = pool[k];
        if !caps[i].bounded {
            assert(first_unbounded(caps@, pv, k + 1) == Some(i as int));
            proof {
                lemma_first_unbounded_stable(caps@, pv, k + 1, pool@.len() as int);
            }
            return Some(i);
        }
        k = k + 1;
    }
    None
}

proof fn lemma_first_unbounded_stable(caps: Seq<CapabilityFacts>, pool: Seq<int>, n: int, m: int)
    requires
        0 <= n <= m <= pool.len(),
        first_unbounded(caps, pool, n) is Some,
    ensures
        first_unbounded(caps, pool, m) == first_unbounded(caps, pool, n),
    decreases m - n,
{
    if m > n {
        lemma_first_unbounded_stable(caps, pool, n, m - 1);
    }
}

/// The capability a `#[cgp_fn]`/`#[cgp_impl]` body calls without declaring it via `#[uses(…)]`,
/// when the failing method call sits in an impl whose `Self` is a bare type parameter
/// (`self_is_param`); `caps` are the capability traits carrying the called method and `spans`
/// the diagnostic's spans. `None` when the impl is not such a generated impl or bounds every
/// candidate already.
pub fn detect_undeclared_capability(self_is_param: bool, caps: &Vec<CapabilityFacts>, spans: &Vec<Span>) -> (r: Option<String>)
    ensures
        match r {
            Some(name) => spec_undeclared(self_is_param, caps@, spans@) matches Some(i) && 0 <= i
                < caps@.len() && name@ == caps@[i].name@,
            None => spec_undeclared(self_is_param, caps@, spans@) is None,
        },
{
    if !self_is_param {
        return None;
    }
    let mut refd: Vec<usize> = Vec::new();
    let mut i: usize = 0;
    while i < caps.len()
        invariant
            i <= caps@.len(),
            refd@.map_values(|x: usize| x as int) == referenced_caps(caps@, spans@, i as int),
            forall|j: int| 0 <= j < refd@.len() ==> (#[trigger] refd@[j]) < i,
        decreases caps@.len() - i,
    {
        if is_referenced(&caps[i].def_span, spans) {
            let ghost before = refd@;
            refd.push(i);
            assert(refd@.map_values(|x: usize| x as int) =~= before.map_values(|x: usize| x as int).push(i as int));
        }
        i = i + 1;
    }
    let pool: Vec<usize> = if refd.len() > 0 {
        refd
    } else {
        let mut all: Vec<usize> = Vec::new();
        let mut j: usize = 0;
        while j < caps.len()
            invariant
                j <= caps@.len(),
                all@.len() == j,
                forall|k: int| 0 <= k < j ==> (#[trigger] all@[k]) as int == k,
            decreases caps@.len() - j,
        {
            all.push(j);
            j = j + 1;
        }
        assert(all@.map_values(|x: usize| x as int) =~= Seq::new(caps@.len(), |k: int| k));
        all
    };
    let picked = pick_unbounded(caps, &pool);
    match picked {
        Some(k) => {
            proof {
                lemma_first_unbounded_in(caps@, pool@.map_values(|x: usize| x as int), pool@.len() as int);
            }
            Some(owned(caps[k].name.as_str()))
        },
        None => None,
    }
}

proof fn lemma_first_unbounded_in(caps: Seq<CapabilityFacts>, pool: Seq<int>, n: int)
    requires
        0 <= n <= pool.len(),
    ensures
        first_unbounded(caps, pool, n) matches Some(i) ==> exists|k: int| 0 <= k < n && pool[k] == i,
    decreases n,
{
    if n > 0 {
        lemma_first_unbounded_in(caps, pool, n - 1);
        if first_unbounded(caps, pool, n - 1) is None && first_unbounded(caps, pool, n) is Some {
            assert(pool[n - 1] == first_unbounded(caps, pool, n).unwrap());
        }
    }
}

/// A trait impl's trait, or a provider trait, as the detector reads it.
pub struct TraitFacts {
    pub id: u64,
    pub name: String,
    /// Whether the trait is a CGP provider trait.
    pub is_provider: bool,
    /// Whether the trait has an associated function of the called method's name.
    pub has_method: bool,
}

/// A trait bound of the enclosing impl: its trait and the name of the type parameter it bounds,
/// when its `Self` is one.
pub struct BoundOn {
    pub trait_id: u64,
    pub self_param: Option<String>,
}

/// The provider trait the inner provider should be imported as: the enclosing impl's own trait
/// when it is a provider trait with the method, else the only provider trait with the method.
pub open spec fn spec_provider_for(impl_trait: TraitFacts, providers: Seq<TraitFacts>) -> Option<TraitFacts> {
    if impl_trait.is_provider && impl_trait.has_method {
        Some(impl_trait)
    } else {
        let with_method = providers.filter(|t: TraitFacts| t.is_provider && t.has_method);
        if with_method.len() == 1 {
            Some(with_method[0])
        } else {
            None
        }
    }
}

/// Whether the impl bounds the type parameter `param` by the trait `trait_id`.
pub open spec fn bounds_param(bounds: Seq<BoundOn>, trait_id: u64, param: Seq<char>) -> bool {
    exists|k: int|
        0 <= k < bounds.len() && (#[trigger] bounds[k]).trait_id == trait_id && (
        bounds[k].self_param matches Some(p) && p@ == param)
}

/// A higher-order provider calling an inner provider it never imported: the inner provider to
/// import and the provider trait to import it as.
pub struct MissingUseProvider {
    pub inner: String,
    pub provider_trait: String,
}

/// Whether the impl bounds `param` by `trait_id`.
fn has_bound(bounds: &Vec<BoundOn>, trait_id: u64, param: &str) -> (r: bool)
    ensures
        r == bounds_param(bounds@, trait_id, param@),
{
    let mut k: usize = 0;
    while k < bounds.len()
        invariant
            k <= bounds@.len(),
            forall|j: int|
                0 <= j < k ==> !((#[trigger] bounds@[j]).trait_id == trait_id && (
                bounds@[j].self_param matches Some(p) && p@ == param@)),
        decreases bounds@.len() - k,
    {
        if bounds[k].trait_id == trait_id {
            match &bounds[k].self_param {
                Some(p) => {
                    if str_eq(p.as_str(), param) {
                        return true;
                    }
                },
                None => {},
            }
        }
        k = k + 1;
    }
    false
}

/// The missing `#[use_provider]` import behind an associated-function call `Inner::method(…)`
/// whose `Inner` (named `inner`) is a type parameter (`inner_is_param`) of a trait impl whose
/// trait is `impl_trait` and whose bounds are `bounds`; `providers` are the crate's visible
/// traits. `None` when the callee is not a type parameter, no single provider trait carries the
/// method, or the parameter is already bounded by it.
pub fn detect_missing_use_provider(
    inner: &str,
    inner_is_param: bool,
    impl_trait: &TraitFacts,
    providers: &Vec<TraitFacts>,
    bounds: &Vec<BoundOn>,
) -> (r: Option<MissingUseProvider>)
    ensures
        match r {
            Some(m) => inner_is_param && (spec_provider_for(*impl_trait, providers@) matches Some(p)
                && !bounds_param(bounds@, p.id, inner@) && m.inner@ == inner@ && m.provider_trait@
                == p.name@),
            None => !inner_is_param || spec_provider_for(*impl_trait, providers@) is None || bounds_param(
                bounds@,
                spec_provider_for(*impl_trait, providers@).unwrap().id,
                inner@,
            ),
        },
{
    if !inner_is_param {
        return None;
    }
    let provider: &TraitFacts = if impl_trait.is_provider && impl_trait.has_method {
        impl_trait
    } else {
        let ghost keep = |t: TraitFacts| t.is_provider && t.has_method;
        let mut found: Option<usize> = None;
        let mut count: usize = 0;
        let mut k: usize = 0;
        while k < providers.len()
            invariant
                k <= providers@.len(),
                keep == (|t: TraitFacts| t.is_provider && t.has_method),
                count == providers@.take(k as int).filter(keep).len(),
                count <= k,
                count > 0 ==> (found matches Some(f) && f < k && providers@[f as int] == providers@.take(
                    k as int,
                ).filter(keep)[0]),
            decreases providers@.len() - k,
        {
            proof {
                reveal(Seq::filter);
                assert(providers@.take(k + 1).drop_last() =~= providers@.take(k as int));
            }
            if providers[k].is_provider && providers[k].has_method {
                if count == 0 {
                    found = Some(k);
                }
                count = count + 1;
            }
            proof {
                let t = providers@.take(k + 1);
                assert(t.last() == providers@[k as int]);
                if keep(providers@[k as int]) {
                    assert(t.filter(keep) == providers@.take(k as int).filter(keep).push(providers@[k as int]));
                } else {
                    assert(t.filter(keep) == providers@.take(k as int).filter(keep));
                }
            }
            k = k + 1;
        }
        assert(providers@.take(k as int) =~= providers@);
        if count != 1 {
            return None;
        }
        match found {
            Some(f) => &providers[f],
            None => return None,
        }
    };
    if has_bound(bounds, provider.id, inner) {
        return None;
    }
    Some(MissingUseProvider { inner: owned(inner), provider_trait: owned(provider.name.as_str()) })
}

} // verus!
