//! Recognizing a duplicate-key wiring conflict (`E0119`) and wording it.
//!
//! A duplicate key in `delegate_components!` makes the expansion emit two overlapping impls, so
//! the compiler reports the coherence error twice: once for the `DelegateComponent` table impl
//! and once for the `IsProviderFor` forwarding impl of the same entry. The pair is one logical
//! mistake: the `IsProviderFor` half is dropped and the `DelegateComponent` half reworded to name
//! the colliding key(s). The carets are matched to the local impls by source range.

use vstd::prelude::*;

use crate::config::{CGP_BASE_TYPES_CRATE, DELEGATE_COMPONENT_TRAIT, IS_PROVIDER_FOR_TRAIT, PATH_CONS_TYPE};
use crate::diag::{main_message_text, spec_main_message, Diag, Span, E0119};
use crate::text::{owned, seq_contains, str_contains, str_eq};
use crate::ty_model::{is_cgp_item, render_path, spec_is_item, spec_render_path, Ty, TyKind};

verus! {

/// Which trait an `E0119` conflict is about, read from the diagnostic's own message — the only
/// thing that tells the `DelegateComponent` half of the pair from its `IsProviderFor` half,
/// since both carry the same caret. An `E0119` naming neither can still be a wiring conflict: a
/// duplicate `cgp_namespace!` entry conflicts on the user's own namespace trait.
#[derive(Clone, Copy, Debug, PartialEq, Eq, Structural)]
pub enum ConflictTrait {
    Delegate,
    IsProviderFor,
    Other,
}

/// The trait an `E0119` is about, from its plain main message: `IsProviderFor` first (its
/// message names `IsProviderFor`, while the `DelegateComponent` half names only
/// `DelegateComponent`), then `DelegateComponent`, else any other trait.
pub open spec fn spec_conflict_trait(diag: Diag) -> Option<ConflictTrait> {
    if diag.code != Some(E0119) {
        None
    } else {
        match spec_main_message(diag) {
            None => None,
            Some(text) => if seq_contains(text, IS_PROVIDER_FOR_TRAIT@) {
                Some(ConflictTrait::IsProviderFor)
            } else if seq_contains(text, DELEGATE_COMPONENT_TRAIT@) {
                Some(ConflictTrait::Delegate)
            } else {
                Some(ConflictTrait::Other)
            },
        }
    }
}

/// Which trait a duplicate-key coherence error (`E0119`) is about; `None` for any other
/// diagnostic, and for one whose main message is not plain text.
pub fn conflict_trait(diag: &Diag) -> (r: Option<ConflictTrait>)
    ensures
        r == spec_conflict_trait(*diag),
{
    let is_e0119 = match diag.code {
        Some(c) => c == E0119,
        None => false,
    };
    if !is_e0119 {
        return None;
    }
    let text = main_message_text(diag)?;
    if str_contains(text, IS_PROVIDER_FOR_TRAIT) {
        Some(ConflictTrait::IsProviderFor)
    } else if str_contains(text, DELEGATE_COMPONENT_TRAIT) {
        Some(ConflictTrait::Delegate)
    } else {
        Some(ConflictTrait::Other)
    }
}

/// A local trait impl, as the conflict classifier reads it: where it was written, which trait
/// it implements, and whether that trait is CGP's `IsProviderFor`.
pub struct LocalImpl {
    pub def_span: Span,
    pub trait_id: u64,
    pub is_provider_for: bool,
}

/// Whether a local impl other than `IsProviderFor` sits at `span`, implementing `trait_id`.
pub open spec fn companion_at(impls: Seq<LocalImpl>, span: Span, trait_id: u64) -> bool {
    exists|k: int|
        0 <= k < impls.len() && (#[trigger] impls[k]).def_span.spec_same_range(span)
            && !impls[k].is_provider_for && impls[k].trait_id == trait_id
}

/// Whether an `E0119` on `IsProviderFor` impls at `primary` is the redundant half of a
/// generated pair: a local `IsProviderFor` impl sits at the caret, and both colliding sites —
/// the caret and another labelled span — also carry local impls of one common other trait,
/// whose own `E0119` then reports the mistake.
pub open spec fn spec_suppressible(primary: Span, labels: Seq<Span>, impls: Seq<LocalImpl>) -> bool {
    &&& exists|k: int|
        0 <= k < impls.len() && (#[trigger] impls[k]).def_span.spec_same_range(primary)
            && impls[k].is_provider_for
    &&& exists|l: int, k: int|
        0 <= l < labels.len() && 0 <= k < impls.len() && !(#[trigger] labels[l]).spec_same_range(
            primary,
        ) && (#[trigger] impls[k]).def_span.spec_same_range(primary) && !impls[k].is_provider_for
            && companion_at(impls, labels[l], impls[k].trait_id)
}

/// Whether a local non-`IsProviderFor` impl of `trait_id` sits at `span`.
fn has_companion_at(impls: &Vec<LocalImpl>, span: &Span, trait_id: u64) -> (r: bool)
    ensures
        r == companion_at(impls@, *span, trait_id),
{
    let mut k: usize = 0;
    while k < impls.len()
        invariant
            k <= impls@.len(),
            forall|j: int|
                0 <= j < k ==> !((#[trigger] impls@[j]).def_span.spec_same_range(*span)
                    && !impls@[j].is_provider_for && impls@[j].trait_id == trait_id),
        decreases impls@.len() - k,
    {
        if impls[k].def_span.same_range(span) && !impls[k].is_provider_for && impls[k].trait_id
            == trait_id {
            return true;
        }
        k = k + 1;
    }
    false
}

/// Whether an `E0119` on `IsProviderFor` impls is safe to drop as the redundant half of a
/// generated pair (`impls` are the crate's local trait impls). Dropping is safe only when the
/// companion conflict is itself reported, or the user would face a failing build with no error
/// at all.
pub fn suppressible_is_provider_for(primary: &Span, labels: &Vec<Span>, impls: &Vec<LocalImpl>) -> (r: bool)
    ensures
        r == spec_suppressible(*primary, labels@, impls@),
{
    let mut has_ipf = false;
    let mut k: usize = 0;
    while k < impls.len()
        invariant
            k <= impls@.len(),
            has_ipf == exists|j: int|
                0 <= j < k && (#[trigger] impls@[j]).def_span.spec_same_range(*primary)
                    && impls@[j].is_provider_for,
        decreases impls@.len() - k,
    {
        if impls[k].def_span.same_range(primary) && impls[k].is_provider_for {
            has_ipf = true;
        }
        k = k + 1;
    }
    if !has_ipf {
        return false;
    }
    let mut l: usize = 0;
    while l < labels.len()
        invariant
            l <= labels@.len(),
            exists|j: int|
                0 <= j < impls@.len() && (#[trigger] impls@[j]).def_span.spec_same_range(*primary)
                    && impls@[j].is_provider_for,
            forall|a: int, j: int|
                0 <= a < l && 0 <= j < impls@.len() ==> !(!(#[trigger] labels@[a]).spec_same_range(
                    *primary,
                ) && (#[trigger] impls@[j]).def_span.spec_same_range(*primary)
                    && !impls@[j].is_provider_for && companion_at(
                    impls@,
                    labels@[a],
                    impls@[j].trait_id,
                )),
        decreases labels@.len() - l,
    {
        if !labels[l].same_range(primary) {
            let mut j: usize = 0;
            while j < impls.len()
                invariant
                    j <= impls@.len(),
                    l < labels@.len(),
                    !labels@[l as int].spec_same_range(*primary),
                    exists|i: int|
                        0 <= i < impls@.len() && (#[trigger] impls@[i]).def_span.spec_same_range(*primary)
                            && impls@[i].is_provider_for,
                    forall|a: int, i: int|
                        0 <= a < l && 0 <= i < impls@.len() ==> !(!(#[trigger] labels@[a]).spec_same_range(
                            *primary,
                        ) && (#[trigger] impls@[i]).def_span.spec_same_range(*primary)
                            && !impls@[i].is_provider_for && companion_at(
                            impls@,
                            labels@[a],
                            impls@[i].trait_id,
                        )),
                    forall|i: int|
                        0 <= i < j ==> !((#[trigger] impls@[i]).def_span.spec_same_range(*primary)
                            && !impls@[i].is_provider_for && companion_at(
                            impls@,
                            labels@[l as int],
                            impls@[i].trait_id,
                        )),
                decreases impls@.len() - j,
            {
                if impls[j].def_span.same_range(primary) && !impls[j].is_provider_for
                    && has_companion_at(impls, &labels[l], impls[j].trait_id) {
                    assert(!labels@[l as int].spec_same_range(*primary) && impls@[j as int].def_span.spec_same_range(*primary)
                        && !impls@[j as int].is_provider_for && companion_at(impls@, labels@[l as int], impls@[j as int].trait_id));
                    return true;
                }
                j = j + 1;
            }
        }
        l = l + 1;
    }
    false
}

/// The index of the first impl whose def-span covers `span`'s range.
pub open spec fn impl_at(impl_spans: Seq<Span>, span: Span, n: int) -> Option<int>
    decreases n,
{
    if n <= 0 || n > impl_spans.len() {
        None
    } else {
        match impl_at(impl_spans, span, n - 1) {
            Some(k) => Some(k),
            None => if impl_spans[n - 1].spec_same_range(span) {
                Some(n - 1)
            } else {
                None
            },
        }
    }
}

/// The first impl at `span`.
fn find_impl_at(impl_spans: &Vec<Span>, span: &Span) -> (r: Option<usize>)
    ensures
        match r {
            Some(k) => impl_at(impl_spans@, *span, impl_spans@.len() as int) == Some(k as int),
            None => impl_at(impl_spans@, *span, impl_spans@.len() as int) is None,
        },
{
    let mut k: usize = 0;
    while k < impl_spans.len()
        invariant
            k <= impl_spans@.len(),
            impl_at(impl_spans@, *span, k as int) is None,
        decreases impl_spans@.len() - k,
    {
        if impl_spans[k].same_range(span) {
            assert(impl_at(impl_spans@, *span, k + 1) == Some(k as int));
            proof {
                lemma_impl_at_stable(impl_spans@, *span, k + 1, impl_spans@.len() as int);
            }
            return Some(k);
        }
        k = k + 1;
    }
    None
}

proof fn lemma_impl_at_stable(impl_spans: Seq<Span>, span: Span, n: int, m: int)
    requires
        0 <= n <= m <= impl_spans.len(),
        impl_at(impl_spans, span, n) is Some,
    ensures
        impl_at(impl_spans, span, m) == impl_at(impl_spans, span, n),
    decreases m - n,
{
    if m > n {
        lemma_impl_at_stable(impl_spans, span, n, m - 1);
    }
}

/// The "first implementation here" impl: the impl at the first labelled span (other than the
/// caret's range) that has one.
pub open spec fn first_impl(primary: Span, labels: Seq<Span>, impl_spans: Seq<Span>, n: int) -> Option<int>
    decreases n,
{
    if n <= 0 || n > labels.len() {
        None
    } else {
        match first_impl(primary, labels, impl_spans, n - 1) {
            Some(k) => Some(k),
            None => if labels[n - 1].spec_same_range(primary) {
                None
            } else {
                impl_at(impl_spans, labels[n - 1], impl_spans.len() as int)
            },
        }
    }
}

/// How an `E0119` conflict is handled.
#[derive(PartialEq, Eq, Structural)]
pub enum ConflictRoute {
    /// Drop it: the redundant `IsProviderFor` half of a generated pair.
    Suppress,
    /// Try it as a duplicate `cgp_namespace!` entry on the user's own namespace trait.
    Namespace,
    /// Reword it from the conflicting `DelegateComponent` impl (an index into the impls) and the
    /// "first implementation here" one, when found.
    Rewrite { conflicting: usize, first: Option<usize> },
}

/// The route of an `E0119` of trait `variant` with its caret at `primary` and labelled spans
/// `labels`, given whether an `IsProviderFor` half is `suppressible` and the def-spans of the
/// crate's local CGP `DelegateComponent` impls.
pub open spec fn spec_route_conflict(
    variant: ConflictTrait,
    primary: Span,
    labels: Seq<Span>,
    suppressible: bool,
    delegate_impls: Seq<Span>,
) -> Option<ConflictRoute> {
    match variant {
        ConflictTrait::IsProviderFor => if suppressible {
            Some(ConflictRoute::Suppress)
        } else {
            None
        },
        ConflictTrait::Other => Some(ConflictRoute::Namespace),
        ConflictTrait::Delegate => match impl_at(delegate_impls, primary, delegate_impls.len() as int) {
            None => None,
            Some(c) => Some(
                ConflictRoute::Rewrite {
                    conflicting: c as usize,
                    first: match first_impl(primary, labels, delegate_impls, labels.len() as int) {
                        Some(f) => Some(f as usize),
                        None => None,
                    },
                },
            ),
        },
    }
}

/// Route an `E0119` recognized by its message as a wiring-conflict candidate. The
/// `IsProviderFor` half is dropped when its companion conflict is confirmed; any other trait is
/// tried as a namespace conflict; a `DelegateComponent` conflict is confirmed by a local
/// `DelegateComponent` impl at the caret (matched by source range, since the two halves carry
/// different syntax contexts), and the "first implementation here" impl is the one at another
/// labelled span. `None` when no wiring conflict sits at the caret.
pub fn route_conflict(
    variant: ConflictTrait,
    primary: &Span,
    labels: &Vec<Span>,
    suppressible: bool,
    delegate_impls: &Vec<Span>,
) -> (r: Option<ConflictRoute>)
    ensures
        r == spec_route_conflict(variant, *primary, labels@, suppressible, delegate_impls@),
{
    match variant {
        ConflictTrait::IsProviderFor => {
            if suppressible {
                Some(ConflictRoute::Suppress)
            } else {
                None
            }
        },
        ConflictTrait::Other => Some(ConflictRoute::Namespace),
        ConflictTrait::Delegate => {
            let conflicting = find_impl_at(delegate_impls, primary)?;
            let mut first: Option<usize> = None;
            let mut l: usize = 0;
            while l < labels.len() && first.is_none()
                invariant
                    l <= labels@.len(),
                    first is None ==> first_impl(*primary, labels@, delegate_impls@, l as int) is None,
                    first matches Some(f) ==> first_impl(*primary, labels@, delegate_impls@, labels@.len() as int) == Some(f as int),
                decreases labels@.len() - l,
            {
                if !labels[l].same_range(primary) {
                    let found = find_impl_at(delegate_impls, &labels[l]);
                    if let Some(f) = found {
                        assert(first_impl(*primary, labels@, delegate_impls@, l + 1) == Some(f as int));
                        proof {
                            lemma_first_impl_stable(*primary, labels@, delegate_impls@, l + 1, labels@.len() as int);
                        }
                        first = Some(f);
                    }
                }
                l = l + 1;
            }
            Some(ConflictRoute::Rewrite { conflicting, first })
        },
    }
}

proof fn lemma_first_impl_stable(primary: Span, labels: Seq<Span>, impl_spans: Seq<Span>, n: int, m: int)
    requires
        0 <= n <= m <= labels.len(),
        first_impl(primary, labels, impl_spans, n) is Some,
    ensures
        first_impl(primary, labels, impl_spans, m) == first_impl(primary, labels, impl_spans, n),
    decreases m - n,
{
    if m > n {
        lemma_first_impl_stable(primary, labels, impl_spans, n, m - 1);
    }
}

/// The surface form of a `DelegateComponent` key.
pub enum WiringKey {
    /// A bare component marker, by its name.
    Component(String),
    /// An `@`-path key, rendered bare.
    Path(String),
    /// A blanket forwarding over every key, tagged by the namespace or table trait keying it.
    Blanket(String),
}

/// A wiring key as plain values: its form (`0` component, `1` path, `2` blanket) and its text.
pub open spec fn key_view(k: WiringKey) -> (int, Seq<char>) {
    match k {
        WiringKey::Component(s) => (0, s@),
        WiringKey::Path(s) => (1, s@),
        WiringKey::Blanket(s) => (2, s@),
    }
}

/// The surface form of a key type: an `@`-path for a `PathCons` spine, the marker's name for
/// any other ADT, a blanket tagged by `bounding_trait` (the name of the namespace or table trait
/// bounding the impl's key parameter) for a parameter; `None` when it cannot be rendered.
pub open spec fn spec_describe_key(key: Ty, bounding_trait: Option<String>) -> Option<(int, Seq<char>)> {
    match key.kind {
        TyKind::Adt(info) => if spec_is_item(key, PATH_CONS_TYPE@, CGP_BASE_TYPES_CRATE@) {
            match spec_render_path(key) {
                Some(p) => Some((1, p)),
                None => None,
            }
        } else {
            Some((0, info.name@))
        },
        TyKind::Param => match bounding_trait {
            Some(t) => Some((2, t@)),
            None => None,
        },
        _ => None,
    }
}

/// The surface form of a `DelegateComponent` key: a bare component marker, an `@`-path, or a
/// blanket forwarding tagged by the namespace or table trait that keys it (`bounding_trait`).
/// `None` for a key that cannot be rendered, so the rewrite is declined rather than guessed.
pub fn describe_key(key: &Ty, bounding_trait: Option<String>) -> (r: Option<WiringKey>)
    ensures
        match r {
            Some(k) => spec_describe_key(*key, bounding_trait) == Some(key_view(k)),
            None => spec_describe_key(*key, bounding_trait) is None,
        },
{
    match &key.kind {
        TyKind::Adt(info) => {
            if is_cgp_item(key, PATH_CONS_TYPE, CGP_BASE_TYPES_CRATE) {
                let p = render_path(key)?;
                Some(WiringKey::Path(p))
            } else {
                Some(WiringKey::Component(owned(info.name.as_str())))
            }
        },
        TyKind::Param => match bounding_trait {
            Some(t) => Some(WiringKey::Blanket(t)),
            None => None,
        },
        _ => None,
    }
}

/// A copy of a key.
fn copy_key(k: &WiringKey) -> (r: WiringKey)
    ensures
        key_view(r) == key_view(*k),
{
    match k {
        WiringKey::Component(s) => WiringKey::Component(owned(s.as_str())),
        WiringKey::Path(s) => WiringKey::Path(owned(s.as_str())),
        WiringKey::Blanket(s) => WiringKey::Blanket(owned(s.as_str())),
    }
}

/// Whether two keys have the same form and text.
fn same_key(a: &WiringKey, b: &WiringKey) -> (r: bool)
    ensures
        r == (key_view(*a) == key_view(*b)),
{
    match (a, b) {
        (WiringKey::Component(x), WiringKey::Component(y)) => str_eq(x.as_str(), y.as_str()),
        (WiringKey::Path(x), WiringKey::Path(y)) => str_eq(x.as_str(), y.as_str()),
        (WiringKey::Blanket(x), WiringKey::Blanket(y)) => str_eq(x.as_str(), y.as_str()),
        _ => false,
    }
}

/// One conflicting `DelegateComponent` entry, as read off its impl: its key's surface form, the
/// redirected path when its `Delegate` is a `RedirectLookup`, and its `Delegate` rendered as a
/// provider (`None` when the impl has no `Delegate`).
pub struct EntryFacts {
    pub key: Option<WiringKey>,
    pub redirect: Option<String>,
    pub provider: Option<String>,
}

/// A duplicate-key wiring conflict, worded.
pub enum WiringConflict {
    /// The same key wired twice.
    Duplicate { context: String, key: WiringKey },
    /// One entry redirects the key while the other wires it directly: the fix wires `provider`
    /// under the redirected `path`.
    Redirect { context: String, key: WiringKey, path: String, provider: String },
    /// Both entries redirect the key.
    DuplicateRedirect { context: String, key: WiringKey, first_path: String, second_path: String },
    /// The context joins more than one namespace.
    MultipleNamespaces { context: String, first: String, second: String },
    /// Two different keys overlap.
    Overlap { context: String, conflicting: WiringKey, first: WiringKey },
}

/// A worded conflict as plain values: its shape, the context, then the texts it carries.
pub open spec fn conflict_view(c: WiringConflict) -> (int, Seq<char>, Seq<(int, Seq<char>)>) {
    match c {
        WiringConflict::Duplicate { context, key } => (0, context@, seq![key_view(key)]),
        WiringConflict::Redirect { context, key, path, provider } => (
            1,
            context@,
            seq![key_view(key), (-1, path@), (-1, provider@)],
        ),
        WiringConflict::DuplicateRedirect { context, key, first_path, second_path } => (
            2,
            context@,
            seq![key_view(key), (-1, first_path@), (-1, second_path@)],
        ),
        WiringConflict::MultipleNamespaces { context, first, second } => (
            3,
            context@,
            seq![(-1, first@), (-1, second@)],
        ),
        WiringConflict::Overlap { context, conflicting, first } => (
            4,
            context@,
            seq![key_view(conflicting), key_view(first)],
        ),
    }
}

/// A key's view, when present.
pub open spec fn okey(k: Option<WiringKey>) -> Option<(int, Seq<char>)> {
    match k {
        Some(k) => Some(key_view(k)),
        None => None,
    }
}

/// A text's view, when present.
pub open spec fn otext(s: Option<String>) -> Option<Seq<char>> {
    match s {
        Some(s) => Some(s@),
        None => None,
    }
}

/// The redirect collision a blanket namespace forwarding makes with a direct entry, when one of
/// the two keys is a blanket and the namespace maps the other, concrete key to the redirected
/// path `ns_redirect`.
pub open spec fn spec_namespace_redirect(
    context: Seq<char>,
    key: (int, Seq<char>),
    first_key: (int, Seq<char>),
    conflicting: EntryFacts,
    first: EntryFacts,
    ns_redirect: Option<Seq<char>>,
) -> Option<(int, Seq<char>, Seq<(int, Seq<char>)>)> {
    let concrete = if key.0 == 2 && first_key.0 != 2 {
        Some(first)
    } else if key.0 != 2 && first_key.0 == 2 {
        Some(conflicting)
    } else {
        None
    };
    match (concrete, ns_redirect) {
        (Some(c), Some(path)) => match (okey(c.key), otext(c.provider)) {
            (Some(k), Some(p)) => Some((1, context, seq![k, (-1, path), (-1, p)])),
            _ => None,
        },
        _ => None,
    }
}

/// The worded conflict for the conflicting entry and the "first implementation here" one.
pub open spec fn spec_build_conflict(
    context: Seq<char>,
    conflicting: EntryFacts,
    first: Option<EntryFacts>,
    ns_redirect: Option<Seq<char>>,
    on_context: bool,
) -> Option<(int, Seq<char>, Seq<(int, Seq<char>)>)> {
    match okey(conflicting.key) {
        None => None,
        Some(key) => {
            let first_redirect = match first {
                Some(f) => otext(f.redirect),
                None => None,
            };
            match (first_redirect, otext(conflicting.redirect)) {
                (Some(fp), Some(sp)) => Some((2, context, seq![key, (-1, fp), (-1, sp)])),
                (Some(path), None) => match otext(conflicting.provider) {
                    Some(p) => Some((1, context, seq![key, (-1, path), (-1, p)])),
                    None => None,
                },
                (None, Some(path)) => match first {
                    Some(f) => match otext(f.provider) {
                        Some(p) => Some((1, context, seq![key, (-1, path), (-1, p)])),
                        None => None,
                    },
                    None => None,
                },
                (None, None) => match first {
                    None => Some((0, context, seq![key])),
                    Some(f) => match okey(f.key) {
                        None => None,
                        Some(first_key) => match spec_namespace_redirect(
                            context,
                            key,
                            first_key,
                            conflicting,
                            f,
                            ns_redirect,
                        ) {
                            Some(r) => Some(r),
                            None => if on_context && first_key.0 == 2 && key.0 == 2 {
                                Some((3, context, seq![(-1, first_key.1), (-1, key.1)]))
                            } else if first_key == key {
                                Some((0, context, seq![key]))
                            } else {
                                Some((4, context, seq![key, first_key]))
                            },
                        },
                    },
                },
            }
        },
    }
}

/// A copy of an optional text.
fn copy_text(s: &Option<String>) -> (r: Option<String>)
    ensures
        otext(r) == otext(*s),
{
    match s {
        Some(t) => Some(owned(t.as_str())),
        None => None,
    }
}

/// The namespace name of a blanket key.
fn blanket_name(k: &WiringKey) -> (r: Option<String>)
    ensures
        match r {
            Some(n) => key_view(*k).0 == 2 && n@ == key_view(*k).1,
            None => key_view(*k).0 != 2,
        },
{
    match k {
        WiringKey::Blanket(n) => Some(owned(n.as_str())),
        _ => None,
    }
}

/// Word the recovered entries of a conflict on `context`: a redirect shape
/// when one or both entries' `Delegate`s are redirects (the provider in the fix comes from the
/// direct entry), a plain duplicate when there is no other entry or both keys agree, several
/// namespaces when both keys are blanket forwardings, an overlap otherwise. A direct entry
/// colliding with a namespace that redirects its key (`ns_redirect`: the path the blanket
/// forwarding maps the concrete key to) reads as a redirect collision. `None` when a key or a
/// needed provider cannot be rendered. Two blanket keys read as several joined namespaces only
/// `on_context` (a context's table, not a namespace's own entries).
fn word_conflict(
    context: &str,
    conflicting: &EntryFacts,
    first: Option<&EntryFacts>,
    ns_redirect: Option<&str>,
    on_context: bool,
) -> (r: Option<WiringConflict>)
    ensures
        match r {
            Some(c) => spec_build_conflict(
                context@,
                *conflicting,
                match first {
                    Some(f) => Some(*f),
                    None => None,
                },
                match ns_redirect {
                    Some(p) => Some(p@),
                    None => None,
                },
                on_context,
            ) == Some(conflict_view(c)),
            None => spec_build_conflict(
                context@,
                *conflicting,
                match first {
                    Some(f) => Some(*f),
                    None => None,
                },
                match ns_redirect {
                    Some(p) => Some(p@),
                    None => None,
                },
                on_context,
            ) is None,
        },
{
    let key = match &conflicting.key {
        Some(k) => k,
        None => return None,
    };
    let first_redirect: Option<&String> = match first {
        Some(f) => match &f.redirect {
            Some(p) => Some(p),
            None => None,
        },
        None => None,
    };
    match (first_redirect, &conflicting.redirect) {
        (Some(fp), Some(sp)) => {
            return Some(
                WiringConflict::DuplicateRedirect {
                    context: owned(context),
                    key: copy_key(key),
                    first_path: owned(fp.as_str()),
                    second_path: owned(sp.as_str()),
                },
            );
        },
        (Some(path), None) => {
            let provider = match &conflicting.provider {
                Some(p) => owned(p.as_str()),
                None => return None,
            };
            return Some(
                WiringConflict::Redirect {
                    context: owned(context),
                    key: copy_key(key),
                    path: owned(path.as_str()),
                    provider,
                },
            );
        },
        (None, Some(path)) => {
            let provider = match first {
                Some(f) => match &f.provider {
                    Some(p) => owned(p.as_str()),
                    None => return None,
                },
                None => return None,
            };
            return Some(
                WiringConflict::Redirect {
                    context: owned(context),
                    key: copy_key(key),
                    path: owned(path.as_str()),
                    provider,
                },
            );
        },
        (None, None) => {},
    }
    let f = match first {
        Some(f) => f,
        None => return Some(WiringConflict::Duplicate { context: owned(context), key: copy_key(key) }),
    };
    let first_key = match &f.key {
        Some(k) => k,
        None => return None,
    };
    let key_blanket = blanket_name(key);
    let first_blanket = blanket_name(first_key);
    let concrete: Option<&EntryFacts> = if key_blanket.is_some() && first_blanket.is_none() {
        Some(f)
    } else if key_blanket.is_none() && first_blanket.is_some() {
        Some(conflicting)
    } else {
        None
    };
    if let (Some(c), Some(path)) = (concrete, ns_redirect) {
        if let (Some(k), Some(p)) = (&c.key, &c.provider) {
            return Some(
                WiringConflict::Redirect {
                    context: owned(context),
                    key: copy_key(k),
                    path: owned(path),
                    provider: owned(p.as_str()),
                },
            );
        }
    }
    match (first_blanket, key_blanket) {
        (Some(first_ns), Some(second_ns)) if on_context => Some(
            WiringConflict::MultipleNamespaces { context: owned(context), first: first_ns, second: second_ns },
        ),
        _ => if same_key(first_key, key) {
            Some(WiringConflict::Duplicate { context: owned(context), key: copy_key(key) })
        } else {
            Some(
                WiringConflict::Overlap {
                    context: owned(context),
                    conflicting: copy_key(key),
                    first: copy_key(first_key),
                },
            )
        },
    }
}

/// The optional conflict facts, by value for the contracts.
pub open spec fn ofacts(first: Option<&EntryFacts>) -> Option<EntryFacts> {
    match first {
        Some(f) => Some(*f),
        None => None,
    }
}

/// The optional text, as plain values.
pub open spec fn ostr(s: Option<&str>) -> Option<Seq<char>> {
    match s {
        Some(p) => Some(p@),
        None => None,
    }
}

/// Word a duplicate-key conflict in the `DelegateComponent` table of `context`, from the entry at
/// the caret (`conflicting`) and the "first implementation here" one (see [`route_conflict`]);
/// `ns_redirect` is the path a blanket namespace forwarding maps the other, concrete key to, when
/// one of the two keys is such a blanket.
pub fn build_conflict(
    context: &str,
    conflicting: &EntryFacts,
    first: Option<&EntryFacts>,
    ns_redirect: Option<&str>,
) -> (r: Option<WiringConflict>)
    ensures
        match r {
            Some(c) => spec_build_conflict(context@, *conflicting, ofacts(first), ostr(ns_redirect), true)
                == Some(conflict_view(c)),
            None => spec_build_conflict(context@, *conflicting, ofacts(first), ostr(ns_redirect), true) is None,
        },
{
    word_conflict(context, conflicting, first, ns_redirect, true)
}

/// Word a duplicate entry inside the namespace `namespace` (its lookup trait rendered), from the
/// namespace-trait impl at the caret and the one at another labelled span. The shapes mirror
/// [`build_conflict`], with the namespace standing in as the wired-on subject; an entry colliding
/// with the namespace's own inheritance blanket reads as a redirect collision when the parent
/// redirects the key (`ns_redirect`).
pub fn build_namespace_conflict(
    namespace: &str,
    conflicting: &EntryFacts,
    first: Option<&EntryFacts>,
    ns_redirect: Option<&str>,
) -> (r: Option<WiringConflict>)
    ensures
        match r {
            Some(c) => spec_build_conflict(namespace@, *conflicting, ofacts(first), ostr(ns_redirect), false)
                == Some(conflict_view(c)),
            None => spec_build_conflict(namespace@, *conflicting, ofacts(first), ostr(ns_redirect), false) is None,
        },
{
    word_conflict(namespace, conflicting, first, ns_redirect, false)
}

/// What to do with an `E0119` recognized as a duplicate-key wiring conflict.
pub enum ConflictAction {
    /// Drop it: the redundant `IsProviderFor` half of a generated pair.
    Suppress,
    /// Reword its header from the recovered conflict.
    Rewrite(WiringConflict),
}

/// One local wiring entry a conflict caret can stand for: where its impl was written, what it
/// wires on (the context of a `DelegateComponent` table, or the rendered namespace trait of a
/// namespace entry), and the entry's facts.
pub struct EntryAt {
    pub def_span: Span,
    pub owner: String,
    pub facts: EntryFacts,
}

/// The def-spans of `entries`.
pub open spec fn entry_spans(entries: Seq<EntryAt>) -> Seq<Span> {
    entries.map_values(|e: EntryAt| e.def_span)
}

/// What an `E0119` of trait `variant` becomes, as plain values: `None` when no wiring conflict
/// sits at the caret (or a key cannot be rendered), `Some(None)` to drop it, and
/// `Some(Some(c))` to reword it as the conflict `c`.
pub open spec fn spec_classify_wiring_conflict(
    variant: ConflictTrait,
    primary: Span,
    labels: Seq<Span>,
    suppressible: bool,
    delegate_entries: Seq<EntryAt>,
    namespace_entries: Seq<EntryAt>,
    ns_redirect: Option<Seq<char>>,
) -> Option<Option<(int, Seq<char>, Seq<(int, Seq<char>)>)>> {
    let entries = if variant == ConflictTrait::Other {
        namespace_entries
    } else {
        delegate_entries
    };
    let spans = entry_spans(entries);
    match variant {
        ConflictTrait::IsProviderFor => if suppressible {
            Some(None)
        } else {
            None
        },
        _ => match impl_at(spans, primary, spans.len() as int) {
            None => None,
            Some(c) => {
                let first = match first_impl(primary, labels, spans, labels.len() as int) {
                    Some(f) => Some(entries[f].facts),
                    None => None,
                };
                match spec_build_conflict(
                    entries[c].owner@,
                    entries[c].facts,
                    first,
                    ns_redirect,
                    variant == ConflictTrait::Delegate,
                ) {
                    Some(w) => Some(Some(w)),
                    None => None,
                }
            },
        },
    }
}

/// The def-spans of `entries`.
fn spans_of(entries: &Vec<EntryAt>) -> (r: Vec<Span>)
    ensures
        r@ == entry_spans(entries@),
{
    let mut r: Vec<Span> = Vec::new();
    let mut i: usize = 0;
    while i < entries.len()
        invariant
            i <= entries@.len(),
            r@ == entry_spans(entries@).take(i as int),
        decreases entries@.len() - i,
    {
        r.push(entries[i].def_span);
        assert(r@ =~= entry_spans(entries@).take(i + 1));
        i = i + 1;
    }
    assert(entry_spans(entries@).take(i as int) =~= entry_spans(entries@));
    r
}

/// Classify an `E0119` of trait `variant` (see [`conflict_trait`]) at `primary` with labelled
/// spans `labels`. The `IsProviderFor` half of a generated pair is dropped when `suppressible`
/// (see [`suppressible_is_provider_for`]); a `DelegateComponent` conflict is reworded from the
/// local table entry at the caret and the "first implementation here" one at another labelled
/// span (`delegate_entries`); any other trait is tried as a duplicate namespace entry among
/// `namespace_entries`. `ns_redirect` is the path a blanket entry of the pair maps the other,
/// concrete key to, when one of the two keys is a blanket. `None` when no wiring conflict sits at
/// the caret, or a key cannot be rendered.
pub fn classify_wiring_conflict(
    variant: ConflictTrait,
    primary: &Span,
    labels: &Vec<Span>,
    suppressible: bool,
    delegate_entries: &Vec<EntryAt>,
    namespace_entries: &Vec<EntryAt>,
    ns_redirect: Option<&str>,
) -> (r: Option<ConflictAction>)
    ensures
        match r {
            None => spec_classify_wiring_conflict(variant, *primary, labels@, suppressible, delegate_entries@, namespace_entries@, ostr(ns_redirect)) is None,
            Some(ConflictAction::Suppress) => spec_classify_wiring_conflict(variant, *primary, labels@, suppressible, delegate_entries@, namespace_entries@, ostr(ns_redirect)) == Some(None::<(int, Seq<char>, Seq<(int, Seq<char>)>)>),
            Some(ConflictAction::Rewrite(c)) => spec_classify_wiring_conflict(variant, *primary, labels@, suppressible, delegate_entries@, namespace_entries@, ostr(ns_redirect)) == Some(Some(conflict_view(c))),
        },
{
    let entries = match variant {
        ConflictTrait::Other => namespace_entries,
        _ => delegate_entries,
    };
    let spans = spans_of(entries);
    match variant {
        ConflictTrait::IsProviderFor => {
            if suppressible {
                return Some(ConflictAction::Suppress);
            }
            return None;
        },
        _ => {},
    }
    let c = match find_impl_at(&spans, primary) {
        Some(c) => c,
        None => return None,
    };
    let mut first: Option<usize> = None;
    let mut l: usize = 0;
    while l < labels.len() && first.is_none()
        invariant
            l <= labels@.len(),
            spans@ == entry_spans(entries@),
            first is None ==> first_impl(*primary, labels@, spans@, l as int) is None,
            first matches Some(f) ==> first_impl(*primary, labels@, spans@, labels@.len() as int) == Some(f as int),
            forall|k: int| 0 <= k < spans@.len() ==> (#[trigger] spans@[k]) == entries@[k].def_span,
        decreases labels@.len() - l,
    {
        if !labels[l].same_range(primary) {
            if let Some(f) = find_impl_at(&spans, &labels[l]) {
                assert(first_impl(*primary, labels@, spans@, l + 1) == Some(f as int));
                proof {
                    lemma_first_impl_stable(*primary, labels@, spans@, l + 1, labels@.len() as int);
                }
                first = Some(f);
            }
        }
        l = l + 1;
    }
    proof {
        lemma_impl_at_in_range(spans@, *primary, spans@.len() as int);
        lemma_first_impl_in_range(*primary, labels@, spans@, labels@.len() as int);
    }
    let first_facts: Option<&EntryFacts> = match first {
        Some(f) => Some(&entries[f].facts),
        None => None,
    };
    let on_context = match variant {
        ConflictTrait::Delegate => true,
        _ => false,
    };
    match word_conflict(entries[c].owner.as_str(), &entries[c].facts, first_facts, ns_redirect, on_context) {
        Some(w) => Some(ConflictAction::Rewrite(w)),
        None => None,
    }
}

proof fn lemma_impl_at_in_range(impl_spans: Seq<Span>, span: Span, n: int)
    requires
        0 <= n <= impl_spans.len(),
    ensures
        impl_at(impl_spans, span, n) matches Some(k) ==> 0 <= k < n,
    decreases n,
{
    if n > 0 {
        lemma_impl_at_in_range(impl_spans, span, n - 1);
    }
}

proof fn lemma_first_impl_in_range(primary: Span, labels: Seq<Span>, impl_spans: Seq<Span>, n: int)
    requires
        0 <= n <= labels.len(),
    ensures
        first_impl(primary, labels, impl_spans, n) matches Some(k) ==> 0 <= k < impl_spans.len(),
    decreases n,
{
    if n > 0 {
        lemma_first_impl_in_range(primary, labels, impl_spans, n - 1);
        lemma_impl_at_in_range(impl_spans, labels[n - 1], impl_spans.len() as int);
    }
}

/// The `IsProviderFor` half of a conflict pair is dropped only when its companion conflict is
/// confirmed, so a mistake never goes unreported; a `DelegateComponent` conflict is reworded only
/// when a local table entry sits at the caret.
pub proof fn law_conflicts_drop_only_with_a_companion(
    primary: Span,
    labels: Seq<Span>,
    delegate_entries: Seq<EntryAt>,
    namespace_entries: Seq<EntryAt>,
    ns_redirect: Option<Seq<char>>,
)
    ensures
        spec_classify_wiring_conflict(ConflictTrait::IsProviderFor, primary, labels, false, delegate_entries, namespace_entries, ns_redirect) is None,
        spec_classify_wiring_conflict(ConflictTrait::Delegate, primary, labels, true, delegate_entries, namespace_entries, ns_redirect) is Some
            ==> impl_at(entry_spans(delegate_entries), primary, delegate_entries.len() as int) is Some,
        spec_classify_wiring_conflict(ConflictTrait::Delegate, primary, labels, true, delegate_entries, namespace_entries, ns_redirect) != Some(None::<(int, Seq<char>, Seq<(int, Seq<char>)>)>),
{
}

/// A redirect collision is worded the same whichever of its two entries the caret is on: when
/// one entry redirects the key to a path and the other wires a provider for it directly, the
/// conflict is the redirect collision carrying that path and that provider (the fix wires the
/// provider under the path), keyed by the entry at the caret, in either order.
pub proof fn law_redirect_collisions_in_either_order(
    context: Seq<char>,
    redirecting: EntryFacts,
    direct: EntryFacts,
    ns_redirect: Option<Seq<char>>,
    on_context: bool,
    at_redirect: WiringConflict,
    at_direct: WiringConflict,
)
    requires
        redirecting.key is Some,
        direct.key is Some,
        redirecting.redirect is Some,
        direct.redirect is None,
        direct.provider is Some,
        at_redirect matches WiringConflict::Redirect { context: c, key, path, provider } && c@ == context
            && key_view(key) == key_view(redirecting.key.unwrap()) && path@
            == redirecting.redirect.unwrap()@ && provider@ == direct.provider.unwrap()@,
        at_direct matches WiringConflict::Redirect { context: c, key, path, provider } && c@ == context
            && key_view(key) == key_view(direct.key.unwrap()) && path@ == redirecting.redirect.unwrap()@
            && provider@ == direct.provider.unwrap()@,
    ensures
        spec_build_conflict(context, redirecting, Some(direct), ns_redirect, on_context) == Some(
            conflict_view(at_redirect),
        ),
        spec_build_conflict(context, direct, Some(redirecting), ns_redirect, on_context) == Some(
            conflict_view(at_direct),
        ),
{
}

} // verus!
