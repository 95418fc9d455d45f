//! Recognizing an orphan-rule namespace registration (`E0210`/`E0117`) and recovering what it
//! registered.
//!
//! Registering wiring into a namespace lowers to `impl<Param> Namespace<Param> for Key`; the orphan
//! rule rejects it when both the namespace trait and the key are foreign. The raw diagnostic names
//! the machinery parameter rather than the namespace and key the programmer wrote.

use vstd::prelude::*;

use crate::conflict::{key_view, WiringKey};
use crate::diag::{main_message_text, Diag, Span, E0117, E0210};
use crate::text::owned;

verus! {

/// One local trait impl, as the orphan classifier reads it.
pub struct ImplSummary {
    /// Where the impl was written.
    pub def_span: Span,
    /// Whether the implemented trait is defined in this crate.
    pub trait_local: bool,
    /// Whether the implemented trait is a namespace lookup trait.
    pub is_namespace_lookup: bool,
    /// Whether the impl's `Self` (the registered key) is an ADT defined in another crate.
    pub key_foreign_adt: bool,
    /// The implemented trait's name.
    pub trait_name: String,
    /// The key's surface form, when it renders.
    pub key: Option<WiringKey>,
    /// Whether the impl carries the `__Table__` type parameter a `cgp_namespace!` re-open emits.
    pub table_param: bool,
}

/// Which construct made an orphan registration, for wording the fix.
#[derive(Clone, Copy, Debug, PartialEq, Eq, Structural)]
pub enum OrphanTrigger {
    /// A `cgp_namespace!` re-open of a foreign namespace.
    Reopen,
    /// A `#[default_impl]` or `#[prefix]` registration.
    Register,
}

/// An orphan-rule namespace registration: the foreign namespace, the foreign key, and what made
/// it.
pub struct OrphanConflict {
    pub namespace: String,
    pub key: WiringKey,
    pub trigger: OrphanTrigger,
}

/// Whether two spans cover overlapping source ranges, ends included, whatever their syntax
/// contexts.
pub open spec fn ranges_touch(a: Span, b: Span) -> bool {
    a.lo <= b.hi && b.lo <= a.hi
}

/// Whether an impl is an orphan registration: a foreign namespace lookup trait implemented for a
/// foreign key.
pub open spec fn is_orphan(i: ImplSummary) -> bool {
    !i.trait_local && i.is_namespace_lookup && i.key_foreign_adt
}

/// The orphan registrations among the first `n` impls, by index.
pub open spec fn orphans(impls: Seq<ImplSummary>, n: int) -> Seq<usize>
    decreases n,
{
    if n <= 0 || n > impls.len() {
        Seq::empty()
    } else if is_orphan(impls[n - 1]) {
        orphans(impls, n - 1).push((n - 1) as usize)
    } else {
        orphans(impls, n - 1)
    }
}

/// The first orphan (by position among the orphans) whose span touches the caret.
pub open spec fn first_touching(impls: Seq<ImplSummary>, cands: Seq<usize>, primary: Span, n: int) -> Option<int>
    decreases n,
{
    if n <= 0 || n > cands.len() {
        None
    } else {
        match first_touching(impls, cands, primary, n - 1) {
            Some(k) => Some(k),
            None => if ranges_touch(impls[cands[n - 1] as int].def_span, primary) {
                Some(n - 1)
            } else {
                None
            },
        }
    }
}

/// The orphan registration a caret at `primary` stands for: the first whose span touches the
/// caret, or the only one when none does.
pub open spec fn chosen_orphan(impls: Seq<ImplSummary>, primary: Span) -> Option<int> {
    let cands = orphans(impls, impls.len() as int);
    match first_touching(impls, cands, primary, cands.len() as int) {
        Some(k) => Some(cands[k] as int),
        None => if cands.len() == 1 {
            Some(cands[0] as int)
        } else {
            None
        },
    }
}

/// The orphan conflict recovered for a caret at `primary`, as plain values.
pub open spec fn spec_classify_orphan(impls: Seq<ImplSummary>, primary: Span) -> Option<
    (Seq<char>, (int, Seq<char>), OrphanTrigger),
> {
    match chosen_orphan(impls, primary) {
        None => None,
        Some(i) => match impls[i].key {
            None => None,
            Some(k) => if key_view(k).0 == 2 {
                None
            } else {
                Some(
                    (
                        impls[i].trait_name@,
                        key_view(k),
                        if impls[i].table_param {
                            OrphanTrigger::Reopen
                        } else {
                            OrphanTrigger::Register
                        },
                    ),
                )
            },
        },
    }
}

/// Classify an `E0210`/`E0117` at `primary` as an orphan-rule namespace registration among the
/// crate's local trait impls, or `None` when none sits at the caret. The offending impl is the
/// first orphan registration whose span touches the caret; when the caret touches none, a lone
/// candidate is still unambiguous. A blanket key is a namespace join, not a registration, and is
/// declined.
pub fn classify_orphan_conflict(primary: &Span, impls: &Vec<ImplSummary>) -> (r: Option<OrphanConflict>)
    ensures
        match r {
            Some(c) => spec_classify_orphan(impls@, *primary) == Some(
                (c.namespace@, key_view(c.key), c.trigger),
            ),
            None => spec_classify_orphan(impls@, *primary) is None,
        },
{
    let mut cands: Vec<usize> = Vec::new();
    let mut i: usize = 0;
    while i < impls.len()
        invariant
            i <= impls@.len(),
            cands@ == orphans(impls@, i as int),
        decreases impls@.len() - i,
    {
        let im = &impls[i];
        if !im.trait_local && im.is_namespace_lookup && im.key_foreign_adt {
            cands.push(i);
        }
        i = i + 1;
    }
    proof {
        lemma_orphans_in_range(impls@, impls@.len() as int);
    }
    let mut chosen: Option<usize> = None;
    let mut k: usize = 0;
    while k < cands.len() && chosen.is_none()
        invariant
            k <= cands@.len(),
            cands@ == orphans(impls@, impls@.len() as int),
            forall|j: int| 0 <= j < cands@.len() ==> (#[trigger] cands@[j]) < impls@.len(),
            chosen is None ==> first_touching(impls@, cands@, *primary, k as int) is None,
            chosen matches Some(c) ==> c < impls@.len(),
            chosen matches Some(c) ==> first_touching(impls@, cands@, *primary, cands@.len() as int)
                matches Some(kk) && cands@[kk] == c,
        decreases cands@.len() - k,
    {
        let d = impls[cands[k]].def_span;
        if d.lo <= primary.hi && primary.lo <= d.hi {
            assert(first_touching(impls@, cands@, *primary, k + 1) == Some(k as int));
            proof {
                lemma_first_touching_stable(impls@, cands@, *primary, k + 1, cands@.len() as int);
            }
            chosen = Some(cands[k]);
        }
        k = k + 1;
    }
    let idx = match chosen {
        Some(c) => c,
        None => {
            if cands.len() == 1 {
                cands[0]
            } else {
                return None;
            }
        },
    };
    let im = &impls[idx];
    let key = match &im.key {
        Some(WiringKey::Component(s)) => WiringKey::Component(owned(s.as_str())),
        Some(WiringKey::Path(s)) => WiringKey::Path(owned(s.as_str())),
        _ => return None,
    };
    let trigger = if im.table_param {
        OrphanTrigger::Reopen
    } else {
        OrphanTrigger::Register
    };
    Some(OrphanConflict { namespace: owned(im.trait_name.as_str()), key, trigger })
}

proof fn lemma_orphans_in_range(impls: Seq<ImplSummary>, n: int)
    requires
        0 <= n <= impls.len(),
        impls.len() <= usize::MAX,
    ensures
        forall|j: int| 0 <= j < orphans(impls, n).len() ==> (#[trigger] orphans(impls, n)[j]) < n,
    decreases n,
{
    if n > 0 {
        lemma_orphans_in_range(impls, n - 1);
        let before = orphans(impls, n - 1);
        if is_orphan(impls[n - 1]) {
            assert(orphans(impls, n) == before.push((n - 1) as usize));
            assert forall|j: int| 0 <= j < orphans(impls, n).len() implies (#[trigger] orphans(impls, n)[j]) < n by {
                if j < before.len() {
                    assert(orphans(impls, n)[j] == before[j]);
                }
            }
        } else {
            assert(orphans(impls, n) == before);
        }
    }
}

proof fn lemma_first_touching_stable(impls: Seq<ImplSummary>, cands: Seq<usize>, primary: Span, n: int, m: int)
    requires
        0 <= n <= m <= cands.len(),
        first_touching(impls, cands, primary, n) is Some,
    ensures
        first_touching(impls, cands, primary, m) == first_touching(impls, cands, primary, n),
    decreases m - n,
{
    if m > n {
        lemma_first_touching_stable(impls, cands, primary, n, m - 1);
    }
}

/// Whether an orphan-rule diagnostic is worth classifying: an `E0117`, or an `E0210` whose plain
/// main message names a machinery parameter (`mentions_param`, the cheap text pre-filter).
pub fn orphan_candidate(diag: &Diag, mentions_param: bool) -> (r: bool)
    ensures
        r == (diag.code == Some(E0117) || (diag.code == Some(E0210) && mentions_param)),
{
    match diag.code {
        Some(c) => c == E0117 || (c == E0210 && mentions_param),
        None => false,
    }
}

/// A blanket key is a namespace join, never an orphan registration: a recovered registration
/// always names a component or a path.
pub proof fn law_orphan_keys_are_concrete(impls: Seq<ImplSummary>, primary: Span)
    ensures
        spec_classify_orphan(impls, primary) matches Some(c) ==> c.1.0 != 2,
{
}

} // verus!
