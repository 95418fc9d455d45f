//! Turning the terminal obligation a dependency chain bottoms out on into the root cause the
//! emitter words.

use vstd::prelude::*;

use crate::config::{
    CAN_USE_COMPONENT_TRAIT, CGP_COMPONENT_CRATE, CGP_FIELD_CRATE, DELEGATE_COMPONENT_TRAIT,
    HAS_FIELD_TRAIT, IS_PROVIDER_FOR_TRAIT,
};
use crate::predicate::{
    is_cgp_trait, self_ty, spec_is_trait, spec_self_ty, spec_types, wf_trait_ref, TraitRef,
};
use crate::resolve::{field_issue, field_issue_is, FieldIssue};
use crate::text::{append, owned, str_eq};
use crate::ty_model::{
    arg_type, decode_symbol, field_type, is_path_cons, spec_arg_type, spec_decode_symbol,
    spec_field_type, spec_is_path_cons, GenericArg, Ty, TyKind,
};

verus! {

/// The root cause a dependency chain bottoms out on.
pub enum CauseLeaf {
    /// A `HasField` bound the wiring needs.
    Field { name: String, owner: String, issue: FieldIssue },
    /// A field the context carries, but of another type than a provider requires.
    FieldTypeMismatch {
        name: String,
        owner: String,
        expected: String,
        expected_normalized: Option<String>,
        actual: String,
    },
    /// An associated type (often a CGP abstract type) bound one way and required another.
    AssocTypeMismatch {
        assoc: String,
        trait_name: String,
        owner: String,
        expected: String,
        expected_normalized: Option<String>,
        actual: String,
        component: Option<String>,
    },
    /// A component the context does not wire at all.
    MissingWiring { component: String, owner: String },
    /// A redirect path nothing in the context's wiring terminates.
    MissingRedirectWiring { path: String, context: String },
    /// A delegation table missing the entry for `key`.
    MissingDispatchEntry { key: String, table: String },
    /// A type wired where a provider was expected that does not implement the provider trait.
    NotAProvider { provider: String, provider_trait: String },
    /// Any other unmet bound, restated as `Self: Trait`.
    Bound { summary: String },
}

/// What the trait solver reports of an unmet projection on the failing branch: the trait and
/// associated type it projects, the type required of it and what that reduces to, and the type
/// it actually normalizes to.
pub struct ProjectionFacts {
    /// The associated type's name.
    pub assoc: String,
    /// The projected trait's name.
    pub trait_name: String,
    /// The projected trait's `Self`, printed with regions erased.
    pub owner: String,
    /// The required type, printed.
    pub expected: String,
    /// What the required type normalizes to, printed, when it reduces.
    pub expected_reduced: Option<String>,
    /// What the projection itself normalizes to, printed, when it reduces.
    pub actual: Option<String>,
    /// For a CGP abstract-type trait, the name of its component marker.
    pub component: Option<String>,
}

/// What the required type reduces to, kept only when it differs from the form written.
pub open spec fn reduced_if_different(expected: Seq<char>, reduced: Option<String>) -> Option<Seq<char>> {
    match reduced {
        Some(r) => if r@ != expected {
            Some(r@)
        } else {
            None
        },
        None => None,
    }
}

/// A text's view, when present.
pub open spec fn otext(s: Option<String>) -> Option<Seq<char>> {
    match s {
        Some(s) => Some(s@),
        None => None,
    }
}

/// The written name of a component marker: its item name for an ADT, its printed form otherwise.
pub open spec fn marker_name(marker: Ty) -> Seq<char> {
    match marker.kind {
        TyKind::Adt(info) => info.name@,
        _ => marker.printed@,
    }
}

/// The context a namespace lookup runs in: its trait's last type argument, or the path itself
/// when the trait has none.
pub open spec fn lookup_context(tr: TraitRef, path: Seq<char>) -> Seq<char> {
    let types = spec_types(tr.args@);
    if types.len() > 0 {
        types.last().printed@
    } else {
        path
    }
}

/// Whether `r` is the classification of the terminal obligation `leaf_ref` of a chain checked on
/// `context`, whose parent obligation is `parent`, given the unmet projection on its branch
/// (`mismatch`), whether its owner is a delegation table (`owner_is_table`: a dispatch lookup of
/// the parent, or a type wiring some other key), and the `Deref` chain of its `Self` type.
pub open spec fn classified(
    r: CauseLeaf,
    leaf_ref: TraitRef,
    context: Ty,
    parent: Option<TraitRef>,
    mismatch: Option<ProjectionFacts>,
    owner_is_table: bool,
    deref_chain: Seq<Ty>,
) -> bool {
    let owner = spec_self_ty(leaf_ref).unwrap();
    let is_has_field = spec_is_trait(leaf_ref, HAS_FIELD_TRAIT@, CGP_FIELD_CRATE@);
    if mismatch is Some && !is_has_field {
        let m = mismatch.unwrap();
        r matches CauseLeaf::AssocTypeMismatch {
            assoc,
            trait_name,
            owner: o,
            expected,
            expected_normalized,
            actual,
            component,
        } && assoc@ == m.assoc@ && trait_name@ == m.trait_name@ && o@ == m.owner@ && expected@
            == m.expected@ && otext(expected_normalized) == reduced_if_different(
            m.expected@,
            m.expected_reduced,
        ) && actual@ == (match m.actual {
            Some(a) => a@,
            None => "_"@,
        }) && otext(component) == otext(m.component)
    } else if spec_is_trait(leaf_ref, DELEGATE_COMPONENT_TRAIT@, CGP_COMPONENT_CRATE@)
        && spec_arg_type(leaf_ref.args@, 1) is Some {
        let key = spec_arg_type(leaf_ref.args@, 1).unwrap();
        if spec_is_path_cons(key) {
            r matches CauseLeaf::MissingRedirectWiring { path, context: c } && path@
                == key.printed@ && c@ == owner.printed@
        } else if owner.id != context.id {
            if owner_is_table || parent is None {
                r matches CauseLeaf::MissingDispatchEntry { key: k, table } && k@ == key.printed@
                    && table@ == owner.printed@
            } else {
                r matches CauseLeaf::NotAProvider { provider, provider_trait } && provider@
                    == owner.printed@ && provider_trait@ == parent.unwrap().name@
            }
        } else {
            r matches CauseLeaf::MissingWiring { component, owner: o } && component@
                == marker_name(key) && o@ == owner.printed@
        }
    } else if leaf_ref.is_namespace_lookup {
        r matches CauseLeaf::MissingRedirectWiring { path, context: c } && path@ == owner.printed@
            && c@ == lookup_context(leaf_ref, owner.printed@)
    } else if is_has_field && spec_arg_type(leaf_ref.args@, 1) is Some && spec_decode_symbol(
        spec_arg_type(leaf_ref.args@, 1).unwrap(),
    ) is Some {
        let name = spec_decode_symbol(spec_arg_type(leaf_ref.args@, 1).unwrap()).unwrap();
        match mismatch {
            Some(m) => r matches CauseLeaf::FieldTypeMismatch {
                name: n,
                owner: o,
                expected,
                expected_normalized,
                actual,
            } && n@ == name && o@ == owner.printed@ && expected@ == m.expected@ && otext(
                expected_normalized,
            ) == reduced_if_different(m.expected@, m.expected_reduced) && actual@ == (match spec_field_type(
                owner,
                name,
            ) {
                Some(t) => t,
                None => "_"@,
            }),
            None => r matches CauseLeaf::Field { name: n, owner: o, issue } && n@ == name && o@
                == owner.printed@ && field_issue_is(issue, owner, name, deref_chain),
        }
    } else {
        r matches CauseLeaf::Bound { summary } && summary@ == owner.printed@ + ": "@
            + leaf_ref.path@
    }
}

/// A copy of an optional text.
fn copy_text(s: &Option<String>) -> (r: Option<String>)
    ensures
        otext(r) == otext(*s),
{
    match s {
        Some(t) => Some(owned(t.as_str())),
        None => None,
    }
}

/// What the required type reduces to, when that differs from the form written.
fn reduced_form(expected: &str, reduced: &Option<String>) -> (r: Option<String>)
    ensures
        otext(r) == reduced_if_different(expected@, *reduced),
{
    match reduced {
        Some(t) => if str_eq(t.as_str(), expected) {
            None
        } else {
            Some(owned(t.as_str()))
        },
        None => None,
    }
}

/// The written name of a component marker.
fn component_marker_name(marker: &Ty) -> (r: String)
    ensures
        r@ == marker_name(*marker),
{
    match &marker.kind {
        TyKind::Adt(info) => owned(info.name.as_str()),
        _ => owned(marker.printed.as_str()),
    }
}

/// The last type argument among `args`.
fn last_type(args: &Vec<GenericArg>) -> (r: Option<&Ty>)
    ensures
        match r {
            Some(t) => spec_types(args@).len() > 0 && *t == spec_types(args@).last(),
            None => spec_types(args@).len() == 0,
        },
{
    let mut last: Option<&Ty> = None;
    let mut i: usize = 0;
    while i < args.len()
        invariant
            i <= args@.len(),
            match last {
                Some(t) => spec_types(args@.take(i as int)).len() > 0 && *t == spec_types(
                    args@.take(i as int),
                ).last(),
                None => spec_types(args@.take(i as int)).len() == 0,
            },
        decreases args@.len() - i,
    {
        assert(args@.take(i + 1).drop_last() =~= args@.take(i as int));
        assert(args@.take(i + 1).last() == args@[i as int]);
        match &args[i] {
            GenericArg::Type(t) => {
                last = Some(t);
            },
            _ => {},
        }
        i = i + 1;
    }
    assert(args@.take(i as int) =~= args@);
    last
}

/// Classify the terminal obligation a dependency chain bottoms out on. A branch carrying an unmet
/// projection on a trait other than `HasField` becomes an associated-type mismatch; an unmet
/// `DelegateComponent<Key>` becomes a missing redirect wiring for a path key, a missing dispatch
/// entry or a non-provider on a type other than the context, and a missing wiring on the context
/// itself; an unmet namespace lookup becomes a missing redirect wiring; a `HasField` whose field
/// decodes becomes a field-type mismatch when its branch carried an unmet projection, and a field
/// leaf otherwise; any other bound restates it as `Self: Trait`.
pub fn classify_leaf(
    leaf_ref: &TraitRef,
    context: &Ty,
    parent: Option<&TraitRef>,
    mismatch: Option<&ProjectionFacts>,
    owner_is_table: bool,
    deref_chain: &Vec<Ty>,
) -> (r: CauseLeaf)
    requires
        wf_trait_ref(*leaf_ref),
    ensures
        classified(
            r,
            *leaf_ref,
            *context,
            match parent {
                Some(p) => Some(*p),
                None => None,
            },
            match mismatch {
                Some(m) => Some(*m),
                None => None,
            },
            owner_is_table,
            deref_chain@,
        ),
{
    let owner = self_ty(leaf_ref);
    let is_has_field = is_cgp_trait(leaf_ref, HAS_FIELD_TRAIT, CGP_FIELD_CRATE);
    if let Some(m) = mismatch {
        if !is_has_field {
            let actual = match &m.actual {
                Some(a) => owned(a.as_str()),
                None => owned("_"),
            };
            return CauseLeaf::AssocTypeMismatch {
                assoc: owned(m.assoc.as_str()),
                trait_name: owned(m.trait_name.as_str()),
                owner: owned(m.owner.as_str()),
                expected: owned(m.expected.as_str()),
                expected_normalized: reduced_form(m.expected.as_str(), &m.expected_reduced),
                actual,
                component: copy_text(&m.component),
            };
        }
    }
    if is_cgp_trait(leaf_ref, DELEGATE_COMPONENT_TRAIT, CGP_COMPONENT_CRATE) {
        if let Some(key) = arg_type(&leaf_ref.args, 1) {
            let owner_text = owned(owner.printed.as_str());
            if is_path_cons(key) {
                return CauseLeaf::MissingRedirectWiring {
                    path: owned(key.printed.as_str()),
                    context: owner_text,
                };
            }
            if owner.id != context.id {
                if owner_is_table {
                    return CauseLeaf::MissingDispatchEntry {
                        key: owned(key.printed.as_str()),
                        table: owner_text,
                    };
                }
                if let Some(p) = parent {
                    return CauseLeaf::NotAProvider {
                        provider: owner_text,
                        provider_trait: owned(p.name.as_str()),
                    };
                }
                return CauseLeaf::MissingDispatchEntry {
                    key: owned(key.printed.as_str()),
                    table: owner_text,
                };
            }
            return CauseLeaf::MissingWiring {
                component: component_marker_name(key),
                owner: owner_text,
            };
        }
    }
    if leaf_ref.is_namespace_lookup {
        let path = owned(owner.printed.as_str());
        let ctx = match last_type(&leaf_ref.args) {
            Some(t) => owned(t.printed.as_str()),
            None => owned(path.as_str()),
        };
        return CauseLeaf::MissingRedirectWiring { path, context: ctx };
    }
    if is_has_field {
        if let Some(tag) = arg_type(&leaf_ref.args, 1) {
            if let Some(name) = decode_symbol(tag) {
                match mismatch {
                    Some(m) => {
                        let actual = match field_type(owner, name.as_str()) {
                            Some(t) => t,
                            None => owned("_"),
                        };
                        return CauseLeaf::FieldTypeMismatch {
                            owner: owned(owner.printed.as_str()),
                            expected: owned(m.expected.as_str()),
                            expected_normalized: reduced_form(m.expected.as_str(), &m.expected_reduced),
                            actual,
                            name,
                        };
                    },
                    None => {
                        let issue = field_issue(owner, name.as_str(), deref_chain);
                        return CauseLeaf::Field {
                            owner: owned(owner.printed.as_str()),
                            issue,
                            name,
                        };
                    },
                }
            }
        }
    }
    let mut summary = owned(owner.printed.as_str());
    append(&mut summary, ": ");
    append(&mut summary, leaf_ref.path.as_str());
    CauseLeaf::Bound { summary }
}

/// Whether a terminal obligation is a root cause worth reporting rather than wiring plumbing. An
/// unmet `CanUseComponent` or `IsProviderFor` is a routing dead-end whose real cause sits down
/// another branch. An unmet `DelegateComponent` is reported on the context itself, on a
/// delegation table (`owner_is_table`), or — under a parent provider obligation
/// (`has_parent`) — on a type that does not implement that provider trait at all
/// (`!owner_implements_parent`); on anything else it is a branch the wiring routed through.
pub open spec fn spec_reportable_leaf(
    leaf_ref: TraitRef,
    context: Ty,
    has_parent: bool,
    owner_is_table: bool,
    owner_implements_parent: bool,
) -> bool {
    if spec_is_trait(leaf_ref, DELEGATE_COMPONENT_TRAIT@, CGP_COMPONENT_CRATE@) {
        spec_self_ty(leaf_ref).unwrap().id == context.id || owner_is_table || (has_parent
            && !owner_implements_parent)
    } else {
        !spec_is_trait(leaf_ref, CAN_USE_COMPONENT_TRAIT@, CGP_COMPONENT_CRATE@) && !spec_is_trait(
            leaf_ref,
            IS_PROVIDER_FOR_TRAIT@,
            CGP_COMPONENT_CRATE@,
        )
    }
}

/// Whether a terminal obligation is a real root cause (see [`spec_reportable_leaf`]).
pub fn reportable_leaf(
    leaf_ref: &TraitRef,
    context: &Ty,
    has_parent: bool,
    owner_is_table: bool,
    owner_implements_parent: bool,
) -> (r: bool)
    requires
        wf_trait_ref(*leaf_ref),
    ensures
        r == spec_reportable_leaf(*leaf_ref, *context, has_parent, owner_is_table, owner_implements_parent),
{
    if is_cgp_trait(leaf_ref, DELEGATE_COMPONENT_TRAIT, CGP_COMPONENT_CRATE) {
        let owner = self_ty(leaf_ref);
        owner.id == context.id || owner_is_table || (has_parent && !owner_implements_parent)
    } else {
        !is_cgp_trait(leaf_ref, CAN_USE_COMPONENT_TRAIT, CGP_COMPONENT_CRATE) && !is_cgp_trait(
            leaf_ref,
            IS_PROVIDER_FOR_TRAIT,
            CGP_COMPONENT_CRATE,
        )
    }
}

/// An unmet `DelegateComponent` lookup on a delegation table (not the context, keyed by a
/// component rather than an `@`-path) is a missing dispatch entry naming the key and the table,
/// whatever obligation stands above it: a table is never reported as a non-provider.
pub proof fn law_table_lookups_are_missing_entries(
    r: CauseLeaf,
    leaf_ref: TraitRef,
    context: Ty,
    parent: Option<TraitRef>,
    deref_chain: Seq<Ty>,
    key: Ty,
    owner: Ty,
)
    requires
        classified(r, leaf_ref, context, parent, None, true, deref_chain),
        spec_is_trait(leaf_ref, DELEGATE_COMPONENT_TRAIT@, CGP_COMPONENT_CRATE@),
        spec_arg_type(leaf_ref.args@, 1) == Some(key),
        spec_self_ty(leaf_ref) == Some(owner),
        !spec_is_path_cons(key),
        owner.id != context.id,
    ensures
        r matches CauseLeaf::MissingDispatchEntry { key: k, table } && k@ == key.printed@ && table@
            == owner.printed@,
{
}

/// An unmet `DelegateComponent` lookup on a type that is neither the context nor a delegation
/// table, under a provider obligation, is that type failing to be a provider of the parent's
/// trait.
pub proof fn law_non_tables_under_a_provider_are_not_providers(
    r: CauseLeaf,
    leaf_ref: TraitRef,
    context: Ty,
    parent: TraitRef,
    deref_chain: Seq<Ty>,
    key: Ty,
    owner: Ty,
)
    requires
        classified(r, leaf_ref, context, Some(parent), None, false, deref_chain),
        spec_is_trait(leaf_ref, DELEGATE_COMPONENT_TRAIT@, CGP_COMPONENT_CRATE@),
        spec_arg_type(leaf_ref.args@, 1) == Some(key),
        spec_self_ty(leaf_ref) == Some(owner),
        !spec_is_path_cons(key),
        owner.id != context.id,
    ensures
        r matches CauseLeaf::NotAProvider { provider, provider_trait } && provider@ == owner.printed@
            && provider_trait@ == parent.name@,
{
}

} // verus!
