//! Trait obligations, and the human-readable label each one renders as in a dependency tree.

use vstd::prelude::*;

use crate::config::{
    CAN_USE_COMPONENT_TRAIT, CGP_COMPONENT_CRATE, CGP_FIELD_CRATE, DELEGATE_COMPONENT_TRAIT,
    HAS_FIELD_TRAIT, IS_PROVIDER_FOR_TRAIT,
};
use crate::text::{append, join, owned, seq_join, str_eq, views};
use crate::ty_model::{
    arg_type, lemma_type_at_decreases, redirect_path, render_ty, spec_arg_type,
    spec_redirect_path, spec_render_ty, GenericArg, Ty,
};

verus! {

/// A trait obligation `Self: Trait<Args…>`, with the facts about its trait the resolver reads.
pub struct TraitRef {
    /// The interned identity of the region-erased obligation.
    pub id: u64,
    /// The identity of the trait.
    pub trait_id: u64,
    /// The trait's own name, e.g. `HasField`.
    pub name: String,
    /// The name of the crate that defines the trait.
    pub krate: String,
    /// Whether the trait is a CGP provider trait (it carries the provider blanket impl over a
    /// `DelegateComponent`-bounded parameter).
    pub is_provider: bool,
    /// Whether the trait is a CGP consumer trait (its blanket impl routes to a provider trait).
    pub is_consumer: bool,
    /// Whether the trait is a namespace lookup trait (its only associated item is a type named
    /// `Delegate`).
    pub is_namespace_lookup: bool,
    /// The trait's generic arguments, `Self` first.
    pub args: Vec<GenericArg>,
    /// The trait path as the compiler prints it, e.g. `std::cmp::Eq`.
    pub path: String,
}

/// Whether the obligation is on the trait `name` defined by crate `krate`.
pub open spec fn spec_is_trait(tr: TraitRef, name: Seq<char>, krate: Seq<char>) -> bool {
    tr.name@ == name && tr.krate@ == krate
}

/// The obligation's `Self` type.
pub open spec fn spec_self_ty(tr: TraitRef) -> Option<Ty> {
    spec_arg_type(tr.args@, 0)
}

/// Whether the obligation carries a `Self` type (the first argument of every trait reference).
pub open spec fn wf_trait_ref(tr: TraitRef) -> bool {
    spec_self_ty(tr) is Some
}

/// Whether the obligation is on the trait `name` defined by crate `krate`: the anchor that
/// keeps a same-named trait from another crate from driving the resolver.
pub fn is_cgp_trait(tr: &TraitRef, name: &str, krate: &str) -> (r: bool)
    ensures
        r == spec_is_trait(*tr, name@, krate@),
{
    str_eq(tr.name.as_str(), name) && str_eq(tr.krate.as_str(), krate)
}

/// Whether the obligation carries a `Self` type (see [`wf_trait_ref`]).
pub fn has_self_ty(tr: &TraitRef) -> (r: bool)
    ensures
        r == wf_trait_ref(*tr),
{
    arg_type(&tr.args, 0).is_some()
}

/// The obligation's `Self` type.
pub fn self_ty(tr: &TraitRef) -> (r: &Ty)
    requires
        wf_trait_ref(*tr),
    ensures
        spec_self_ty(*tr) == Some(*r),
{
    arg_type(&tr.args, 0).unwrap()
}

/// The type arguments among `args`, in order (lifetimes and consts skipped).
pub open spec fn spec_types(args: Seq<GenericArg>) -> Seq<Ty>
    decreases args.len(),
{
    if args.len() == 0 {
        Seq::empty()
    } else {
        let before = spec_types(args.drop_last());
        match args.last() {
            GenericArg::Type(a) => before.push(a),
            _ => before,
        }
    }
}

/// There are no more type arguments than arguments.
pub proof fn lemma_types_len(args: Seq<GenericArg>)
    ensures
        spec_types(args).len() <= args.len(),
    decreases args.len(),
{
    if args.len() > 0 {
        lemma_types_len(args.drop_last());
    }
}

/// The obligation's type arguments after the first `skip`, rendered as a generic list —
/// `<u32, u64>` — or the empty string when there are none.
pub open spec fn spec_trait_generics(tr: TraitRef, skip: nat) -> Seq<char> {
    let params = spec_types(tr.args@);
    if params.len() <= skip {
        Seq::empty()
    } else {
        "<"@ + seq_join(params.skip(skip as int).map_values(|t: Ty| spec_render_ty(t)), ", "@)
            + ">"@
    }
}

/// Render an obligation's type arguments after `skip` leading ones as a generic list — `<u32,
/// u64>` — or the empty string when there are none: the component's extra parameters reattach
/// to the trait exactly as written.
pub fn trait_generics(tr: &TraitRef, skip: usize) -> (r: String)
    ensures
        r@ == spec_trait_generics(*tr, skip as nat),
{
    let mut parts: Vec<String> = Vec::new();
    let mut seen: usize = 0;
    let mut i: usize = 0;
    let ghost all = spec_types(tr.args@);
    while i < tr.args.len()
        invariant
            i <= tr.args@.len(),
            all == spec_types(tr.args@),
            seen == spec_types(tr.args@.take(i as int)).len(),
            seen <= skip ==> parts@.len() == 0,
            seen > skip ==> views(parts@) == spec_types(tr.args@.take(i as int)).skip(
                skip as int,
            ).map_values(|t: Ty| spec_render_ty(t)),
        decreases tr.args@.len() - i,
    {
        let ghost prev = spec_types(tr.args@.take(i as int));
        assert(tr.args@.take(i + 1).drop_last() =~= tr.args@.take(i as int));
        match &tr.args[i] {
            GenericArg::Type(a) => {
                let ghost now = spec_types(tr.args@.take(i + 1));
                assert(now == prev.push(*a));
                if seen >= skip {
                    let text = render_ty(a);
                    let ghost before = views(parts@);
                    parts.push(text);
                    let ghost want = now.skip(skip as int).map_values(|t: Ty| spec_render_ty(t));
                    if seen == skip {
                        assert(now.skip(skip as int) =~= seq![*a]);
                        assert(views(parts@) =~= want);
                    } else {
                        assert(now.skip(skip as int) =~= prev.skip(skip as int).push(*a));
                        assert(before =~= prev.skip(skip as int).map_values(
                            |t: Ty| spec_render_ty(t),
                        ));
                        assert(views(parts@) =~= before.push(text@));
                        assert(views(parts@) =~= want);
                    }
                }
                proof {
                    lemma_types_len(tr.args@.take(i as int));
                }
                seen = seen + 1;
            },
            _ => {},
        }
        i = i + 1;
    }
    assert(tr.args@.take(tr.args@.len() as int) =~= tr.args@);
    if parts.len() == 0 {
        return String::new();
    }
    let mut r = owned("<");
    let body = join(&parts, ", ");
    append(&mut r, body.as_str());
    append(&mut r, ">");
    r
}

/// Whether the obligation is on one of CGP's wiring traits `CanUseComponent`, `IsProviderFor`
/// or `DelegateComponent` (anchored to `cgp_component`).
pub open spec fn spec_is_wiring_trait(tr: TraitRef) -> bool {
    spec_is_trait(tr, CAN_USE_COMPONENT_TRAIT@, CGP_COMPONENT_CRATE@) || spec_is_trait(
        tr,
        IS_PROVIDER_FOR_TRAIT@,
        CGP_COMPONENT_CRATE@,
    ) || spec_is_trait(tr, DELEGATE_COMPONENT_TRAIT@, CGP_COMPONENT_CRATE@)
}

/// Whether the obligation is on one of CGP's wiring traits.
fn is_wiring_trait(tr: &TraitRef) -> (r: bool)
    ensures
        r == spec_is_wiring_trait(*tr),
{
    is_cgp_trait(tr, CAN_USE_COMPONENT_TRAIT, CGP_COMPONENT_CRATE) || is_cgp_trait(
        tr,
        IS_PROVIDER_FOR_TRAIT,
        CGP_COMPONENT_CRATE,
    ) || is_cgp_trait(tr, DELEGATE_COMPONENT_TRAIT, CGP_COMPONENT_CRATE)
}

/// Whether the obligation is a genuine CGP `HasField` bound (of `cgp_field`): the
/// missing-field leaf.
pub open spec fn spec_is_has_field(tr: TraitRef) -> bool {
    spec_is_trait(tr, HAS_FIELD_TRAIT@, CGP_FIELD_CRATE@)
}

/// Whether the obligation is a genuine CGP `HasField` bound.
pub fn is_has_field(tr: &TraitRef) -> (r: bool)
    ensures
        r == spec_is_has_field(*tr),
{
    is_cgp_trait(tr, HAS_FIELD_TRAIT, CGP_FIELD_CRATE)
}

/// Whether the descent walks *into* the obligation's dependencies rather than treating it as a
/// terminal leaf: an obligation on the context itself, one on a CGP wiring trait, or one on a
/// provider trait.
pub open spec fn spec_is_descendable(tr: TraitRef, context: Ty) -> bool {
    (spec_self_ty(tr) matches Some(s) && s.id == context.id) || spec_is_wiring_trait(tr)
        || tr.is_provider
}

/// Whether the descent should walk into the obligation's dependencies: it descends the CGP
/// wiring vocabulary, any provider trait, and any obligation on the context itself, and stops
/// at everything else (an ordinary bound like `f64: Eq` is a leaf).
pub fn is_descendable(tr: &TraitRef, context: &Ty) -> (r: bool)
    ensures
        r == spec_is_descendable(*tr, *context),
{
    let on_context = match arg_type(&tr.args, 0) {
        Some(s) => s.id == context.id,
        None => false,
    };
    on_context || is_wiring_trait(tr) || tr.is_provider
}

/// Whether a terminal leaf is a real root cause worth reporting rather than pure wiring
/// plumbing: an unmet `CanUseComponent`, `IsProviderFor` or `DelegateComponent` is a routing
/// dead-end whose real cause sits down another branch.
pub fn is_reportable_leaf(leaf: &TraitRef) -> (r: bool)
    ensures
        r == !spec_is_wiring_trait(*leaf),
{
    !is_wiring_trait(leaf)
}

/// A node of a rendered dependency chain.
pub enum DepNode {
    /// A namespace/`open` redirection hop: a lookup of `path` in `context`, keyed by `key`.
    Redirect { path: String, context: String, key: String },
    /// A provider-trait impl: the provider trait (with the component's parameters), its
    /// context, and the provider struct.
    Provider { trait_ref: String, context: String, provider: String },
    /// A consumer-trait impl on the context.
    Consumer { trait_ref: String, context: String },
    /// Any other trait impl: a user's own capability or getter, or a terminal ordinary bound.
    Trait { trait_ref: String, self_ty: String },
}

/// The label an obligation renders as in a dependency chain, as plain strings, or `None` for a
/// step that carries nothing for a reader.
pub enum DepLabel {
    Redirect(Seq<char>, Seq<char>, Seq<char>),
    Provider(Seq<char>, Seq<char>, Seq<char>),
    Consumer(Seq<char>, Seq<char>),
    Trait(Seq<char>, Seq<char>),
}

/// The label of a node.
pub open spec fn dep_label(node: DepNode) -> DepLabel {
    match node {
        DepNode::Redirect { path, context, key } => DepLabel::Redirect(path@, context@, key@),
        DepNode::Provider { trait_ref, context, provider } => DepLabel::Provider(
            trait_ref@,
            context@,
            provider@,
        ),
        DepNode::Consumer { trait_ref, context } => DepLabel::Consumer(trait_ref@, context@),
        DepNode::Trait { trait_ref, self_ty } => DepLabel::Trait(trait_ref@, self_ty@),
    }
}

/// The label an obligation renders as (see [`label_for`]).
pub open spec fn spec_label_for(tr: TraitRef, context: Ty) -> Option<DepLabel> {
    let s = spec_self_ty(tr).unwrap();
    if spec_is_wiring_trait(tr) || tr.is_namespace_lookup {
        None
    } else if tr.is_provider && s.id == context.id {
        None
    } else if tr.is_provider && spec_redirect_path(s) is Some {
        Some(
            DepLabel::Redirect(
                spec_redirect_path(s).unwrap().printed@,
                context.printed@,
                spec_trait_generics(tr, 2),
            ),
        )
    } else if tr.is_provider && spec_types(tr.args@).len() > 1 {
        Some(
            DepLabel::Provider(
                tr.name@ + spec_trait_generics(tr, 2),
                spec_render_ty(spec_types(tr.args@)[1]),
                spec_render_ty(s),
            ),
        )
    } else if tr.is_consumer && s.id == context.id {
        Some(DepLabel::Consumer(tr.name@ + spec_trait_generics(tr, 1), spec_render_ty(s)))
    } else {
        Some(DepLabel::Trait(tr.name@, spec_render_ty(s)))
    }
}

/// The second type argument of an obligation (after `Self`), if any.
fn second_type(tr: &TraitRef) -> (r: Option<&Ty>)
    ensures
        match r {
            Some(t) => spec_types(tr.args@).len() > 1 && spec_types(tr.args@)[1] == *t,
            None => spec_types(tr.args@).len() <= 1,
        },
{
    let mut seen: usize = 0;
    let mut i: usize = 0;
    while i < tr.args.len()
        invariant
            i <= tr.args@.len(),
            seen == spec_types(tr.args@.take(i as int)).len(),
            seen <= 1,
        decreases tr.args@.len() - i,
    {
        assert(tr.args@.take(i + 1).drop_last() =~= tr.args@.take(i as int));
        match &tr.args[i] {
            GenericArg::Type(a) => {
                if seen == 1 {
                    proof {
                        lemma_types_prefix(tr.args@, i + 1);
                    }
                    assert(tr.args@.take(i + 1).last() == tr.args@[i as int]);
                    assert(spec_types(tr.args@.take(i + 1)) == spec_types(tr.args@.take(
                        i as int,
                    )).push(*a));
                    assert(spec_types(tr.args@.take(i + 1))[1] == *a);
                    return Some(a);
                }
                seen = seen + 1;
            },
            _ => {},
        }
        i = i + 1;
    }
    assert(tr.args@.take(tr.args@.len() as int) =~= tr.args@);
    None
}

/// The type arguments of a prefix of the arguments are a prefix of the type arguments.
proof fn lemma_types_prefix(args: Seq<GenericArg>, k: int)
    requires
        0 <= k <= args.len(),
    ensures
        spec_types(args.take(k)).is_prefix_of(spec_types(args)),
    decreases args.len() - k,
{
    if k < args.len() {
        lemma_types_prefix(args, k + 1);
        assert(args.take(k + 1).drop_last() =~= args.take(k));
    } else {
        assert(args.take(k) =~= args);
    }
}

/// The human-readable label for one obligation in a dependency path. It reads the real
/// consumer and provider obligations the walk descends, taking every name off the trait and the
/// obligation's own type arguments:
///
/// - the `CanUseComponent`/`IsProviderFor`/`DelegateComponent` scaffolding and a namespace
///   lookup carry nothing for a reader, and neither does a provider-trait obligation for the
///   context itself (delegation routing): `None`;
/// - a `RedirectLookup<Ctx, Path>` provider is a redirection hop;
/// - any other provider-trait obligation is the provider-trait impl;
/// - a consumer-trait obligation on the context is the consumer-trait impl;
/// - anything else is a plain trait impl for its `Self`.
pub fn label_for(tr: &TraitRef, context: &Ty) -> (r: Option<DepNode>)
    requires
        wf_trait_ref(*tr),
    ensures
        match r {
            Some(node) => spec_label_for(*tr, *context) == Some(dep_label(node)),
            None => spec_label_for(*tr, *context) is None,
        },
{
    let s = self_ty(tr);
    if is_wiring_trait(tr) || tr.is_namespace_lookup {
        return None;
    }
    if tr.is_provider {
        if s.id == context.id {
            return None;
        }
        if let Some(path) = redirect_path(s) {
            return Some(
                DepNode::Redirect {
                    path: owned(path.printed.as_str()),
                    context: owned(context.printed.as_str()),
                    key: trait_generics(tr, 2),
                },
            );
        }
        if let Some(provider_context) = second_type(tr) {
            let mut trait_ref = owned(tr.name.as_str());
            let generics = trait_generics(tr, 2);
            append(&mut trait_ref, generics.as_str());
            return Some(
                DepNode::Provider {
                    trait_ref,
                    context: render_ty(provider_context),
                    provider: render_ty(s),
                },
            );
        }
    }
    if tr.is_consumer && s.id == context.id {
        let mut trait_ref = owned(tr.name.as_str());
        let generics = trait_generics(tr, 1);
        append(&mut trait_ref, generics.as_str());
        return Some(DepNode::Consumer { trait_ref, context: render_ty(s) });
    }
    Some(DepNode::Trait { trait_ref: owned(tr.name.as_str()), self_ty: render_ty(s) })
}

} // verus!
