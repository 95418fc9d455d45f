//! Detecting a `#[cgp_impl]` provider that names the wrong trait.
//!
//! `#[cgp_impl(new RectangleArea)] impl AreaCalculator { … }` turns its header inside out into
//! `impl<__Context__> AreaCalculator<__Context__> for RectangleArea`. Three mistakes name the
//! wrong trait: the header naming the component's consumer trait where its provider trait
//! belongs, the header naming a trait that is not a CGP component at all, and an inner-provider
//! `where`-bound naming the consumer trait. They are recognized structurally: the impl carries
//! the reserved `__Context__` parameter, its `Self` is a concrete struct, enum or union, and its
//! header trait reference is a token the user wrote.

use vstd::prelude::*;

use crate::diag::Span;
use crate::text::owned;

verus! {

/// A `#[cgp_impl]` header-trait mistake.
pub enum CgpImplMisuse {
    /// The header names the consumer trait; `provider` is the provider trait it pairs with.
    ConsumerTrait { consumer: String, provider: String },
    /// The header names a trait that is neither a consumer nor a provider trait.
    NonCgpTrait { trait_name: String },
    /// An inner-provider bound names the consumer trait; `provider` is its provider trait.
    ConsumerProviderBound { consumer: String, provider: String },
}

/// A mistake as plain values: its kind (`0` consumer header, `1` non-CGP header, `2` consumer
/// bound) and the names it carries.
pub open spec fn misuse_view(m: CgpImplMisuse) -> (int, Seq<char>, Seq<char>) {
    match m {
        CgpImplMisuse::ConsumerTrait { consumer, provider } => (0, consumer@, provider@),
        CgpImplMisuse::NonCgpTrait { trait_name } => (1, trait_name@, Seq::empty()),
        CgpImplMisuse::ConsumerProviderBound { consumer, provider } => (2, consumer@, provider@),
    }
}

/// A detected mistake with the spans its cascade lands on.
pub struct DetectedCgpImplMisuse {
    pub misuse: CgpImplMisuse,
    /// The provider struct the impl is for.
    pub self_ty: String,
    /// The misused trait name, where the compiler's `E0107` caret sits.
    pub trait_ref_span: Span,
    /// The whole impl block.
    pub impl_span: Span,
    /// The macro-inserted `__Context__` parameter: the call-site every synthesized token shares.
    pub macro_span: Span,
}

/// A detected mistake as plain values.
pub open spec fn detected_view(d: DetectedCgpImplMisuse) -> ((int, Seq<char>, Seq<char>), Seq<char>, Span, Span, Span) {
    (misuse_view(d.misuse), d.self_ty@, d.trait_ref_span, d.impl_span, d.macro_span)
}

/// The header trait of a trait impl, as read from the crate's source.
pub struct HeaderFacts {
    /// The span of the trait name in the header.
    pub trait_ref_span: Span,
    /// Whether that span comes from a macro expansion rather than the user's own tokens.
    pub from_expansion: bool,
    /// The trait's name.
    pub trait_name: String,
    /// For a CGP consumer trait, the name of the provider trait it pairs with.
    pub consumer_of: Option<String>,
    /// Whether the trait is a CGP provider trait.
    pub is_provider: bool,
}

/// One trait bound of an impl's `where` clause, as read from the crate's source.
pub struct BoundFacts {
    /// The bound trait's name.
    pub trait_name: String,
    /// For a CGP consumer trait, the name of the provider trait it pairs with.
    pub consumer_of: Option<String>,
    /// The span of the trait name, when the bound's path has a last segment.
    pub name_span: Option<Span>,
    /// Whether the bound gives the trait a type argument.
    pub has_type_arg: bool,
}

/// A local trait impl, as read from the crate's source.
pub struct ImplFacts {
    /// The whole impl block.
    pub impl_span: Span,
    /// The span of the impl's type parameter named `__Context__`, if it has one.
    pub context_param: Option<Span>,
    /// The name of the impl's `Self` type when it is a path to a struct, enum or union.
    pub self_adt: Option<String>,
    /// The header trait, when its path resolves.
    pub header: Option<HeaderFacts>,
    /// The trait bounds of its `where` clause whose paths resolve, in order.
    pub bounds: Vec<BoundFacts>,
}

/// The mistake the header of a qualifying impl makes, if any: a consumer trait pairs with a
/// provider trait to suggest; a provider trait is the correct header; anything else is not a CGP
/// trait.
pub open spec fn header_misuse(h: HeaderFacts) -> Option<(int, Seq<char>, Seq<char>)> {
    match h.consumer_of {
        Some(p) => Some((0, h.trait_name@, p@)),
        None => if h.is_provider {
            None
        } else {
            Some((1, h.trait_name@, Seq::empty()))
        },
    }
}

/// The consumer-trait bound mistakes among the first `n` bounds of an impl, in order.
pub open spec fn bound_misuses(
    bounds: Seq<BoundFacts>,
    n: int,
    self_ty: Seq<char>,
    impl_span: Span,
    macro_span: Span,
) -> Seq<((int, Seq<char>, Seq<char>), Seq<char>, Span, Span, Span)>
    decreases n,
{
    if n <= 0 || n > bounds.len() {
        Seq::empty()
    } else {
        let before = bound_misuses(bounds, n - 1, self_ty, impl_span, macro_span);
        let b = bounds[n - 1];
        match (b.consumer_of, b.name_span) {
            (Some(p), Some(s)) => if b.has_type_arg {
                before.push(((2, b.trait_name@, p@), self_ty, s, impl_span, macro_span))
            } else {
                before
            },
            _ => before,
        }
    }
}

/// The mistakes one impl makes, in order: its header's, then its bounds'.
pub open spec fn impl_misuses(i: ImplFacts) -> Seq<((int, Seq<char>, Seq<char>), Seq<char>, Span, Span, Span)> {
    match (i.context_param, i.self_adt, i.header) {
        (Some(macro_span), Some(self_ty), Some(h)) => if h.from_expansion {
            Seq::empty()
        } else {
            let head = match header_misuse(h) {
                Some(m) => seq![(m, self_ty@, h.trait_ref_span, i.impl_span, macro_span)],
                None => Seq::empty(),
            };
            head + bound_misuses(i.bounds@, i.bounds@.len() as int, self_ty@, i.impl_span, macro_span)
        },
        _ => Seq::empty(),
    }
}

/// The mistakes the first `n` impls make, in order.
pub open spec fn spec_detect(impls: Seq<ImplFacts>, n: int) -> Seq<((int, Seq<char>, Seq<char>), Seq<char>, Span, Span, Span)>
    decreases n,
{
    if n <= 0 || n > impls.len() {
        Seq::empty()
    } else {
        spec_detect(impls, n - 1) + impl_misuses(impls[n - 1])
    }
}

/// The detected mistakes as plain values.
pub open spec fn detected_views(v: Seq<DetectedCgpImplMisuse>) -> Seq<((int, Seq<char>, Seq<char>), Seq<char>, Span, Span, Span)> {
    v.map_values(|d: DetectedCgpImplMisuse| detected_view(d))
}

/// Append the mistakes one impl makes.
fn push_impl_misuses(found: &mut Vec<DetectedCgpImplMisuse>, i: &ImplFacts)
    ensures
        detected_views(final(found)@) == detected_views(old(found)@) + impl_misuses(*i),
{
    let (macro_span, self_ty, h) = match (&i.context_param, &i.self_adt, &i.header) {
        (Some(m), Some(s), Some(h)) => (*m, s, h),
        _ => {
            assert(impl_misuses(*i) =~= Seq::empty());
            assert(detected_views(found@) =~= detected_views(found@) + Seq::empty());
            return;
        },
    };
    if h.from_expansion {
        assert(detected_views(found@) =~= detected_views(found@) + Seq::empty());
        return;
    }
    let ghost start = detected_views(found@);
    let head: Option<CgpImplMisuse> = match &h.consumer_of {
        Some(p) => Some(
            CgpImplMisuse::ConsumerTrait {
                consumer: owned(h.trait_name.as_str()),
                provider: owned(p.as_str()),
            },
        ),
        None => if h.is_provider {
            None
        } else {
            Some(CgpImplMisuse::NonCgpTrait { trait_name: owned(h.trait_name.as_str()) })
        },
    };
    let ghost head_views = match header_misuse(*h) {
        Some(m) => seq![(m, self_ty@, h.trait_ref_span, i.impl_span, macro_span)],
        None => Seq::<((int, Seq<char>, Seq<char>), Seq<char>, Span, Span, Span)>::empty(),
    };
    match head {
        Some(m) => {
            let d = DetectedCgpImplMisuse {
                misuse: m,
                self_ty: owned(self_ty.as_str()),
                trait_ref_span: h.trait_ref_span,
                impl_span: i.impl_span,
                macro_span,
            };
            let ghost before = found@;
            found.push(d);
            assert(detected_views(found@) =~= detected_views(before).push(detected_view(d)));
        },
        None => {},
    }
    assert(detected_views(found@) =~= start + head_views);
    let mut k: usize = 0;
    while k < i.bounds.len()
        invariant
            k <= i.bounds@.len(),
            detected_views(found@) == start + head_views + bound_misuses(
                i.bounds@,
                k as int,
                self_ty@,
                i.impl_span,
                macro_span,
            ),
        decreases i.bounds@.len() - k,
    {
        let b = &i.bounds[k];
        match (&b.consumer_of, &b.name_span) {
            (Some(p), Some(s)) => {
                if b.has_type_arg {
                    let d = DetectedCgpImplMisuse {
                        misuse: CgpImplMisuse::ConsumerProviderBound {
                            consumer: owned(b.trait_name.as_str()),
                            provider: owned(p.as_str()),
                        },
                        self_ty: owned(self_ty.as_str()),
                        trait_ref_span: *s,
                        impl_span: i.impl_span,
                        macro_span,
                    };
                    let ghost before = found@;
                    found.push(d);
                    assert(detected_views(found@) =~= detected_views(before).push(detected_view(d)));
                }
            },
            _ => {},
        }
        k = k + 1;
    }
}

/// Recover every `#[cgp_impl]` header-trait mistake among the crate's local trait impls, in
/// order: for each impl carrying the reserved `__Context__` parameter, with a struct, enum or
/// union as `Self` and a header trait the user wrote, its header's mistake (a consumer trait, or
/// a non-CGP trait; a provider trait is correct), then each inner-provider bound that gives a
/// consumer trait a type argument.
pub fn detect_cgp_impl_misuses(impls: &Vec<ImplFacts>) -> (r: Vec<DetectedCgpImplMisuse>)
    ensures
        detected_views(r@) == spec_detect(impls@, impls@.len() as int),
{
    let mut found: Vec<DetectedCgpImplMisuse> = Vec::new();
    let mut n: usize = 0;
    while n < impls.len()
        invariant
            n <= impls@.len(),
            detected_views(found@) == spec_detect(impls@, n as int),
        decreases impls@.len() - n,
    {
        push_impl_misuses(&mut found, &impls[n]);
        n = n + 1;
    }
    found
}

} // verus!
