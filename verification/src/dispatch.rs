//! The emitter's handling of one arriving diagnostic, as a step from the emitter's state, the
//! diagnostic and the answers gathered so far to the next thing to do.
//!
//! The recognizers are tried in a fixed order: the trailing footer of a crate with a
//! `#[cgp_impl]` mistake, that mistake's burst, a duplicate-key wiring conflict, an orphan
//! registration, an undeclared capability or unimported inner provider behind an `E0599`, a
//! typed resolution, and last the text rename. Several of them need an answer only the compiler
//! (or the message wording) can give; the step then asks for it ([`EmitStep::Need`]) and is run
//! again with the answer, so each question is asked only when every recognizer before it has
//! declined — exactly when it would be asked in turn. Everything decided between the questions
//! is here.

use vstd::prelude::*;

use crate::conflict::{conflict_trait, spec_conflict_trait};
use crate::diag::{
    msgs_view, primary_span, rewrite_messages, rewrites_apply, spec_primary_span, subdiag, Diag,
    Level, Span, Subdiag, E0107, E0117, E0210, E0275, E0599,
};
use crate::emitter::{
    apply_resolution_plan, drop_generated_check_notes, in_misuse_burst, is_misuse_burst_code,
    is_sibling_entry, overlaps_any, spec_settle_kept, BufEntry,
    mentions_wiring, plain_subdiags, resolution_candidate, reword_at_caret, reword_keeping_carets,
    spec_is_misuse_report, spec_mentions_wiring, spec_misuse_action, spec_resolution_candidate,
    strip_method_probe_advice, EmitterState, MisuseAction,
};
use crate::footer::is_footer;
use crate::text::{owned, views};

verus! {

/// A question the step needs answered before it can go on.
#[derive(Clone, Copy, Debug, PartialEq, Eq, Structural)]
pub enum Query {
    /// Detect the crate's `#[cgp_impl]` header mistakes (and record them in the state).
    Misuses,
    /// Word the reshaped header and help of the detected mistake at index `misuse`.
    MisuseWording { misuse: usize },
    /// Classify the duplicate-key conflict this `E0119` may be.
    Conflict,
    /// Classify the orphan registration this error may be.
    Orphan,
    /// Look for the capability a provider calls without declaring it.
    Undeclared,
    /// Look for the inner provider a higher-order provider calls without importing it.
    MissingUseProvider,
    /// Resolve the failure to its root causes.
    Resolution,
    /// Compute the wiring-message rename and the method-probe advice of the diagnostic.
    Rename,
}

/// A recognized failure's new header and the `help` carrying its fix.
pub struct Rewording {
    pub header: String,
    pub help: String,
}

/// What the duplicate-key conflict classifier answered.
pub enum ConflictAnswer {
    /// No wiring conflict sits at the caret.
    NotOne,
    /// The redundant `IsProviderFor` half of a pair: dropped.
    Drop,
    /// A conflict reworded around its carets, with the fix of a redirect collision.
    Reword { header: String, help: Option<String> },
}

/// A typed resolution, as the step needs it: the plan's coded header (when it carries one), the
/// span the caret is re-aimed at, the derive `help`s, and the provider/provider-trait pair of
/// each cause that bottoms out on a non-provider (`None` for any other cause).
pub struct ResolutionAnswer {
    pub header: Option<String>,
    pub span: Span,
    pub helps: Vec<String>,
    pub leaves: Vec<Option<(String, String)>>,
}

/// The text rename of a diagnostic no recognizer took: a rewrite (or `None`) for each main
/// message and for each message of each child, which children and labels are method-probe
/// advice, and the help a rewritten wiring overflow carries.
pub struct RenameAnswer {
    pub messages: Vec<Option<String>>,
    pub children: Vec<Vec<Option<String>>>,
    pub advice_children: Vec<bool>,
    pub advice_labels: Vec<bool>,
    pub overflow_help: String,
}

/// What is known about an arriving diagnostic: four facts read off its text up front, and the
/// answers to the questions asked so far (`None` while unasked).
pub struct ArrivalFacts {
    /// Whether some message names a CGP wiring trait, as the message wording reads it.
    pub wiring_text: bool,
    /// Whether the main message is the "method exists but its trait bounds were not satisfied"
    /// form of `E0599`.
    pub method_bounds: bool,
    /// Whether the main message names a type parameter, as an orphan `E0210` does.
    pub orphan_param: bool,
    /// Whether a message reports an associated item on an unbounded type parameter.
    pub unbounded_param_item: bool,
    /// Whether detecting the `#[cgp_impl]` mistakes was tried for this diagnostic.
    pub misuses_checked: bool,
    pub misuse_wording: Option<Rewording>,
    pub conflict: Option<ConflictAnswer>,
    pub orphan: Option<Option<Rewording>>,
    pub undeclared: Option<Option<Rewording>>,
    pub missing_use_provider: Option<Option<Rewording>>,
    pub resolution: Option<Option<ResolutionAnswer>>,
    pub rename: Option<RenameAnswer>,
}

/// The next thing to do with an arriving diagnostic.
pub enum EmitStep {
    /// Answer `query` and run the step again on `diag`.
    Need { query: Query, diag: Diag },
    /// Hold the rebuilt footer lines in place of the footer.
    ReplaceFooter { notes: Vec<Diag> },
    /// Drop the diagnostic.
    Drop,
    /// Hold the reshaped header of the `#[cgp_impl]` mistake at index `misuse`, purging its
    /// siblings.
    Reshape { misuse: usize, diag: Diag },
    /// Hold the reworded recognized failure, its carets recorded as a CGP failure.
    Hold { diag: Diag },
    /// Settle the diagnostic (see [`EmitterState::settle`]): `rewritten` when the tool rewrote
    /// its text, `resolved` when it carries a typed resolution.
    Settle { diag: Diag, rewritten: bool, resolved: bool },
}

/// A step as plain values: what it does, without the diagnostics it carries.
#[derive(Clone, Copy, Debug, PartialEq, Eq, Structural)]
pub enum EmitRoute {
    Need(Query),
    ReplaceFooter,
    Drop,
    Reshape(usize),
    Hold,
    Settle { rewritten: bool, resolved: bool },
}

/// The route a step takes.
pub open spec fn route_of(step: EmitStep) -> EmitRoute {
    match step {
        EmitStep::Need { query, .. } => EmitRoute::Need(query),
        EmitStep::ReplaceFooter { .. } => EmitRoute::ReplaceFooter,
        EmitStep::Drop => EmitRoute::Drop,
        EmitStep::Reshape { misuse, .. } => EmitRoute::Reshape(misuse),
        EmitStep::Hold { .. } => EmitRoute::Hold,
        EmitStep::Settle { rewritten, resolved, .. } => EmitRoute::Settle { rewritten, resolved },
    }
}

/// Whether the footer of a crate with a known `#[cgp_impl]` mistake is rebuilt.
pub open spec fn footer_fires<R>(state: EmitterState<R>, diag: Diag) -> bool {
    state.misuses matches Some(ms) && ms@.len() > 0 && is_footer(diag)
}

/// Whether the mistakes are to be detected now: the burst's `E0107` arrives before any
/// detection, and none was tried for it yet.
pub open spec fn misuse_check_due<R>(state: EmitterState<R>, diag: Diag, facts: ArrivalFacts) -> bool {
    diag.code == Some(E0107) && state.misuses is None && !facts.misuses_checked
}

/// Whether the diagnostic may be an orphan registration the classifier is asked about.
pub open spec fn orphan_asked(diag: Diag, facts: ArrivalFacts) -> bool {
    &&& (diag.code == Some(E0117) || (diag.code == Some(E0210) && facts.orphan_param))
    &&& spec_primary_span(diag.span) is Some
}

/// Whether a declined method-bounds `E0599` naming a wiring trait has its method-probe advice
/// stripped.
pub open spec fn spec_strips(diag: Diag, facts: ArrivalFacts) -> bool {
    diag.code == Some(E0599) && facts.method_bounds && spec_mentions_wiring(diag)
}

/// Whether the rename answer lines up with the diagnostic: a rewrite per message, a rewrite
/// list per child message, and a flag per child and per label.
pub open spec fn rename_fits(diag: Diag, r: RenameAnswer) -> bool {
    &&& r.messages@.len() == diag.messages@.len()
    &&& r.children@.len() == diag.children@.len()
    &&& r.advice_children@.len() == diag.children@.len()
    &&& r.advice_labels@.len() == diag.span.labels@.len()
    &&& forall|i: int|
        0 <= i < diag.children@.len() ==> (#[trigger] r.children@[i])@.len()
            == diag.children@[i].messages@.len()
}

/// Whether child `i` is renamed: it is not stripped advice and some rewrite applies to it.
pub open spec fn child_renamed(diag: Diag, r: RenameAnswer, strip: bool, i: int) -> bool {
    &&& !(strip && r.advice_children@[i])
    &&& rewrites_apply(msgs_view(diag.children@[i].messages@), r.children@[i]@)
}

/// Whether the rename changes the diagnostic's text: some rewrite applies to a main message or
/// to a kept child.
pub open spec fn spec_renames(diag: Diag, r: RenameAnswer, strip: bool) -> bool {
    &&& rename_fits(diag, r)
    &&& (rewrites_apply(msgs_view(diag.messages@), r.messages@) || exists|i: int|
        0 <= i < diag.children@.len() && #[trigger] child_renamed(diag, r, strip, i))
}

/// The route an arriving diagnostic takes, given the emitter's state and the answers so far:
///
/// - the footer of a crate with a known `#[cgp_impl]` mistake is rebuilt;
/// - within that mistake's burst, its `E0107` first has the mistakes detected; then the mistake's
///   `E0107` is reshaped (once its wording is known) and a sibling error is dropped;
/// - an `E0119` wiring conflict is dropped (the redundant half) or reworded;
/// - an orphan registration, an undeclared capability, and an unimported inner provider are
///   reworded;
/// - a resolvable failure is settled as rewritten and resolved — unless it only re-reports a
///   known `#[cgp_impl]` mistake, when it is dropped;
/// - anything else is settled, as rewritten exactly when the rename changes its text.
///
/// A recognizer that has not answered yet is asked; one that answered "not one" passes the
/// diagnostic on.
pub open spec fn spec_emit_route<R>(state: EmitterState<R>, diag: Diag, facts: ArrivalFacts) -> EmitRoute {
    if footer_fires(state, diag) {
        EmitRoute::ReplaceFooter
    } else if misuse_check_due(state, diag, facts) {
        EmitRoute::Need(Query::Misuses)
    } else if is_misuse_burst_code(diag.code) && spec_misuse_action(state.misuses, diag) is Some {
        match spec_misuse_action(state.misuses, diag).unwrap() {
            MisuseAction::Suppress => EmitRoute::Drop,
            MisuseAction::Reshape { misuse } => if facts.misuse_wording is Some {
                EmitRoute::Reshape(misuse)
            } else {
                EmitRoute::Need(Query::MisuseWording { misuse })
            },
        }
    } else if spec_conflict_trait(diag) is Some && !(facts.conflict matches Some(ConflictAnswer::NotOne)) {
        match facts.conflict {
            None => EmitRoute::Need(Query::Conflict),
            Some(ConflictAnswer::Drop) => EmitRoute::Drop,
            _ => EmitRoute::Hold,
        }
    } else if orphan_asked(diag, facts) && !(facts.orphan matches Some(None)) {
        if facts.orphan is None {
            EmitRoute::Need(Query::Orphan)
        } else {
            EmitRoute::Hold
        }
    } else if diag.code == Some(E0599) && facts.method_bounds && !(facts.undeclared matches Some(None)) {
        if facts.undeclared is None {
            EmitRoute::Need(Query::Undeclared)
        } else {
            EmitRoute::Hold
        }
    } else if diag.code == Some(E0599) && facts.unbounded_param_item && !(
    facts.missing_use_provider matches Some(None)) {
        if facts.missing_use_provider is None {
            EmitRoute::Need(Query::MissingUseProvider)
        } else {
            EmitRoute::Hold
        }
    } else if spec_resolution_candidate(diag, facts.wiring_text, facts.method_bounds) && !(
    facts.resolution matches Some(None)) {
        match facts.resolution {
            Some(Some(a)) => if spec_is_misuse_report(state.misuses, a.leaves@) {
                EmitRoute::Drop
            } else {
                EmitRoute::Settle { rewritten: true, resolved: true }
            },
            _ => EmitRoute::Need(Query::Resolution),
        }
    } else {
        match facts.rename {
            None => EmitRoute::Need(Query::Rename),
            Some(r) => EmitRoute::Settle {
                rewritten: spec_renames(diag, r, spec_strips(diag, facts)),
                resolved: false,
            },
        }
    }
}

/// Whether `new` is `old` reworded around its caret: `header` its only message, its spans shrunk
/// to its first primary span, `help` its only child, no suggestions; level and code kept.
pub open spec fn reworded_at_caret(old: Diag, new: Diag, header: Seq<char>, help: Seq<char>) -> bool {
    &&& new.level == old.level
    &&& new.code == old.code
    &&& new.messages@.len() == 1
    &&& new.messages@[0] matches Some(h) && h@ == header
    &&& new.span.primary@ == match spec_primary_span(old.span) {
        Some(p) => seq![p],
        None => old.span.primary@,
    }
    &&& spec_primary_span(old.span) is Some ==> new.span.labels@.len() == 0
    &&& plain_subdiags(new.children@, Level::Help, seq![help])
    &&& !new.suggestions
}

/// Whether `new` is `old` reworded keeping its carets: `header` its only message, its spans
/// kept, the fix (if any) its only child, no suggestions; level and code kept.
pub open spec fn reworded_keeping_carets(old: Diag, new: Diag, header: Seq<char>, help: Option<Seq<char>>) -> bool {
    &&& new.level == old.level
    &&& new.code == old.code
    &&& new.messages@.len() == 1
    &&& new.messages@[0] matches Some(h) && h@ == header
    &&& new.span == old.span
    &&& match help {
        Some(h) => plain_subdiags(new.children@, Level::Help, seq![h]),
        None => new.children@.len() == 0,
    }
    &&& !new.suggestions
}

/// A help that may be absent, as plain text.
pub open spec fn help_view(help: Option<String>) -> Option<Seq<char>> {
    match help {
        Some(h) => Some(h@),
        None => None,
    }
}

/// Whether `held` is `diag` reworded as the recognizer that took it answered: a wiring conflict
/// keeping its carets, or an orphan registration, undeclared capability or unimported inner
/// provider at its caret (the first of them, in the order they are tried, that answered with a
/// rewording).
pub open spec fn held_as_answered(diag: Diag, held: Diag, facts: ArrivalFacts) -> bool {
    if spec_conflict_trait(diag) is Some && facts.conflict matches Some(ConflictAnswer::Reword { .. }) {
        match facts.conflict {
            Some(ConflictAnswer::Reword { header, help }) => reworded_keeping_carets(diag, held, header@, help_view(help)),
            _ => false,
        }
    } else if orphan_asked(diag, facts) && facts.orphan matches Some(Some(_)) {
        facts.orphan matches Some(Some(w)) && reworded_at_caret(diag, held, w.header@, w.help@)
    } else if diag.code == Some(E0599) && facts.method_bounds && facts.undeclared matches Some(Some(_)) {
        facts.undeclared matches Some(Some(w)) && reworded_at_caret(diag, held, w.header@, w.help@)
    } else {
        facts.missing_use_provider matches Some(Some(w)) && reworded_at_caret(diag, held, w.header@, w.help@)
    }
}

/// Whether `new` is `old` with the typed resolution `a` applied: its coded header (when it has
/// one) the only message and its span the only caret, its derive helps the only children, no
/// suggestions; level and code kept.
pub open spec fn resolution_applied(old: Diag, new: Diag, a: ResolutionAnswer) -> bool {
    &&& new.level == old.level
    &&& new.code == old.code
    &&& match a.header {
        Some(h) => {
            &&& new.messages@.len() == 1
            &&& new.messages@[0] matches Some(m) && m@ == h@
            &&& new.span.primary@ == seq![a.span]
            &&& new.span.labels@.len() == 0
        },
        None => new.messages == old.messages && new.span == old.span,
    }
    &&& plain_subdiags(new.children@, Level::Help, views(a.helps@))
    &&& !new.suggestions
}

/// Whether `new`'s main messages are `old`'s with the rename `r` applied, its level and primary
/// carets kept.
pub open spec fn head_renamed(old: Diag, new: Diag, r: RenameAnswer) -> bool {
    &&& new.level == old.level
    &&& new.span.primary == old.span.primary
    &&& new.messages@.len() == old.messages@.len()
    &&& forall|i: int|
        0 <= i < old.messages@.len() ==> crate::diag::opt_view(#[trigger] new.messages@[i])
            == crate::diag::rewritten(crate::diag::opt_view(old.messages@[i]), crate::diag::opt_view(r.messages@[i]))
}

/// Whether every diagnostic the step carries keeps the error code `code`.
pub open spec fn step_keeps_code(step: EmitStep, code: Option<u32>) -> bool {
    match step {
        EmitStep::Need { diag, .. } => diag.code == code,
        EmitStep::ReplaceFooter { notes } => forall|i: int|
            0 <= i < notes@.len() ==> (#[trigger] notes@[i]).code == code,
        EmitStep::Drop => true,
        EmitStep::Reshape { diag, .. } => diag.code == code,
        EmitStep::Hold { diag } => diag.code == code,
        EmitStep::Settle { diag, .. } => diag.code == code,
    }
}

/// A copy of a text.
fn copy_text(s: &String) -> (r: String)
    ensures
        r@ == s@,
{
    owned(s.as_str())
}

/// A copy of a list of texts.
fn copy_texts(v: &Vec<String>) -> (r: Vec<String>)
    ensures
        views(r@) == views(v@),
{
    let mut r: Vec<String> = Vec::new();
    let mut i: usize = 0;
    while i < v.len()
        invariant
            i <= v@.len(),
            views(r@) == views(v@).take(i as int),
        decreases v@.len() - i,
    {
        let ghost before = views(r@);
        r.push(copy_text(&v[i]));
        assert(views(r@) =~= before.push(v@[i as int]@));
        assert(views(v@).take(i + 1) =~= views(v@).take(i as int).push(v@[i as int]@));
        i = i + 1;
    }
    assert(views(v@).take(v@.len() as int) =~= views(v@));
    r
}

/// A copy of a list of message rewrites (each a text or `None`), with the same view.
fn copy_rewrites(v: &Vec<Option<String>>) -> (r: Vec<Option<String>>)
    ensures
        msgs_view(r@) == msgs_view(v@),
        r@.len() == v@.len(),
        forall|i: int| 0 <= i < v@.len() ==> (#[trigger] r@[i] is Some) == (v@[i] is Some),
{
    let r = crate::diag::clone_messages(v);
    assert(msgs_view(r@).len() == r@.len());
    assert(msgs_view(v@).len() == v@.len());
    assert forall|i: int| 0 <= i < v@.len() implies (#[trigger] r@[i] is Some) == (v@[i] is Some) by {
        assert(msgs_view(r@)[i] == crate::diag::opt_view(r@[i]));
        assert(msgs_view(v@)[i] == crate::diag::opt_view(v@[i]));
    }
    r
}

/// No rewrite at all, one per message.
fn no_rewrites(n: usize) -> (r: Vec<Option<String>>)
    ensures
        r@.len() == n,
        forall|i: int| 0 <= i < n ==> #[trigger] r@[i] is None,
{
    let mut r: Vec<Option<String>> = Vec::new();
    let mut i: usize = 0;
    while i < n
        invariant
            i <= n,
            r@.len() == i,
            forall|k: int| 0 <= k < i ==> #[trigger] r@[k] is None,
        decreases n - i,
    {
        r.push(None);
        i = i + 1;
    }
    r
}

/// Whether some rewrite applies to a plain message.
fn any_rewrite(messages: &Vec<Option<String>>, rewrites: &Vec<Option<String>>) -> (r: bool)
    requires
        rewrites@.len() == messages@.len(),
    ensures
        r == rewrites_apply(msgs_view(messages@), rewrites@),
{
    let mut i: usize = 0;
    while i < messages.len()
        invariant
            i <= messages@.len(),
            rewrites@.len() == messages@.len(),
            forall|j: int|
                0 <= j < i ==> !(msgs_view(messages@)[j] is Some && #[trigger] rewrites@[j] is Some),
        decreases messages@.len() - i,
    {
        if messages[i].is_some() && rewrites[i].is_some() {
            assert(msgs_view(messages@)[i as int] is Some && rewrites@[i as int] is Some);
            return true;
        }
        i = i + 1;
    }
    false
}

/// Whether the rename answer lines up with the diagnostic (see [`rename_fits`]).
fn fits(diag: &Diag, r: &RenameAnswer) -> (b: bool)
    ensures
        b == rename_fits(*diag, *r),
{
    if r.messages.len() != diag.messages.len() || r.children.len() != diag.children.len()
        || r.advice_children.len() != diag.children.len() || r.advice_labels.len()
        != diag.span.labels.len() {
        return false;
    }
    let mut i: usize = 0;
    while i < diag.children.len()
        invariant
            i <= diag.children@.len(),
            r.children@.len() == diag.children@.len(),
            forall|k: int|
                0 <= k < i ==> (#[trigger] r.children@[k])@.len() == diag.children@[k].messages@.len(),
        decreases diag.children@.len() - i,
    {
        if r.children[i].len() != diag.children[i].messages.len() {
            return false;
        }
        i = i + 1;
    }
    true
}

/// Whether some kept child is renamed.
fn any_child_renamed(diag: &Diag, r: &RenameAnswer, strip: bool) -> (b: bool)
    requires
        rename_fits(*diag, *r),
    ensures
        b == exists|i: int| 0 <= i < diag.children@.len() && #[trigger] child_renamed(*diag, *r, strip, i),
{
    let mut i: usize = 0;
    while i < diag.children.len()
        invariant
            i <= diag.children@.len(),
            rename_fits(*diag, *r),
            forall|k: int| 0 <= k < i ==> !#[trigger] child_renamed(*diag, *r, strip, k),
        decreases diag.children@.len() - i,
    {
        assert(r.children@[i as int]@.len() == diag.children@[i as int].messages@.len());
        if !(strip && r.advice_children[i]) && any_rewrite(&diag.children[i].messages, &r.children[i]) {
            assert(child_renamed(*diag, *r, strip, i as int));
            return true;
        }
        i = i + 1;
    }
    false
}

/// The rewrite of message `j` of child `i`: none for stripped advice, else the rename's.
pub open spec fn child_rewrite(r: RenameAnswer, strip: bool, i: int, j: int) -> Option<Seq<char>> {
    if strip && r.advice_children@[i] {
        None
    } else {
        crate::diag::opt_view(r.children@[i]@[j])
    }
}

/// Whether child `new` is child `i` of the renamed diagnostic, `old`, renamed: level, spans and
/// message count kept, each message rewritten by its rewrite.
pub open spec fn child_renamed_as(old: Subdiag, new: Subdiag, r: RenameAnswer, strip: bool, i: int) -> bool {
    &&& new.level == old.level
    &&& new.span == old.span
    &&& new.messages@.len() == old.messages@.len()
    &&& forall|j: int|
        0 <= j < old.messages@.len() ==> crate::diag::opt_view(#[trigger] new.messages@[j])
            == crate::diag::rewritten(crate::diag::opt_view(old.messages@[j]), child_rewrite(r, strip, i, j))
}

/// Whether `new`'s children are `old`'s, each renamed by `r` (see [`child_renamed_as`]).
pub open spec fn children_renamed(old: Seq<Subdiag>, new: Seq<Subdiag>, r: RenameAnswer, strip: bool) -> bool {
    &&& new.len() == old.len()
    &&& forall|i: int| 0 <= i < old.len() ==> #[trigger] child_renamed_as(old[i], new[i], r, strip, i)
}

/// Rename the children's messages by their rewrites, masking the rewrites of stripped advice.
fn rename_children(children: Vec<Subdiag>, r: &RenameAnswer, strip: bool) -> (out: Vec<Subdiag>)
    requires
        r.children@.len() == children@.len(),
        r.advice_children@.len() == children@.len(),
        forall|i: int|
            0 <= i < children@.len() ==> (#[trigger] r.children@[i])@.len() == children@[i].messages@.len(),
    ensures
        children_renamed(children@, out@, *r, strip),
{
    let ghost all = children@;
    let n = children.len();
    let mut rest = children;
    let mut out: Vec<Subdiag> = Vec::new();
    let mut i: usize = 0;
    assert(all.skip(0) =~= all);
    while i < n
        invariant
            n == all.len(),
            i <= n,
            rest@ == all.skip(i as int),
            r.children@.len() == n,
            r.advice_children@.len() == n,
            forall|k: int| 0 <= k < n ==> (#[trigger] r.children@[k])@.len() == all[k].messages@.len(),
            out@.len() == i,
            forall|k: int| 0 <= k < i ==> #[trigger] child_renamed_as(all[k], out@[k], *r, strip, k),
        decreases n - i,
    {
        let mut c = rest.remove(0);
        assert(c == all[i as int]);
        assert(rest@ =~= all.skip(i + 1));
        let rewrites = if strip && r.advice_children[i] {
            no_rewrites(c.messages.len())
        } else {
            let copied = copy_rewrites(&r.children[i]);
            assert forall|j: int| 0 <= j < copied@.len() implies crate::diag::opt_view(#[trigger] copied@[j])
                == crate::diag::opt_view(r.children@[i as int]@[j]) by {
                assert(msgs_view(copied@)[j] == msgs_view(r.children@[i as int]@)[j]);
            }
            copied
        };
        assert forall|j: int| 0 <= j < rewrites@.len() implies crate::diag::opt_view(#[trigger] rewrites@[j])
            == child_rewrite(*r, strip, i as int, j) by {}
        rewrite_messages(&mut c.messages, rewrites);
        assert(child_renamed_as(all[i as int], c, *r, strip, i as int));
        out.push(c);
        i = i + 1;
    }
    out
}

/// The next thing to do with the arriving `diag` (see [`spec_emit_route`]). Every diagnostic
/// the step hands back keeps the arriving error code; a question hands `diag` back as it came; a
/// reworded failure carries exactly the rewording of the recognizer that took it; a resolved one
/// carries its resolution's plan; a renamed one carries its messages rewritten as the rename says
/// (its children's too, unless advice is stripped from it or it is an overflow); and a diagnostic
/// no recognizer took whose text the rename leaves alone (and from which no advice is stripped)
/// is settled exactly as it arrived.
pub fn emit_step<R>(state: &EmitterState<R>, diag: Diag, facts: &ArrivalFacts) -> (step: EmitStep)
    ensures
        route_of(step) == spec_emit_route(*state, diag, *facts),
        step_keeps_code(step, diag.code),
        step matches EmitStep::Need { diag: d, .. } ==> d == diag,
        step matches EmitStep::ReplaceFooter { notes } ==> notes@.len() <= 1,
        step matches EmitStep::Reshape { misuse, .. } ==> state.misuses matches Some(ms) && misuse < ms@.len(),
        step matches EmitStep::Reshape { diag: d, .. } ==> facts.misuse_wording matches Some(w)
            && reworded_at_caret(diag, d, w.header@, w.help@),
        step matches EmitStep::Hold { diag: d } ==> held_as_answered(diag, d, *facts),
        step matches EmitStep::Settle { diag: d, resolved: true, .. } ==> facts.resolution matches Some(Some(a))
            && resolution_applied(diag, d, a),
        step matches EmitStep::Settle { diag: d, rewritten: true, resolved: false } ==> facts.rename matches Some(r)
            && head_renamed(diag, d, r) && (!spec_strips(diag, *facts) && diag.code != Some(E0275)
            ==> children_renamed(diag.children@, d.children@, r, false)),
        step matches EmitStep::Settle { diag: d, rewritten: false, resolved: false } ==> (!(
        spec_strips(diag, *facts) && (facts.rename matches Some(r) && rename_fits(diag, r)))
            ==> d == diag),
{
    let mut diag = diag;
    // The footer of a crate with a known `#[cgp_impl]` mistake.
    match state.footer_replacement(&diag) {
        Some(notes) => {
            return EmitStep::ReplaceFooter { notes };
        },
        None => {},
    }
    // The `#[cgp_impl]` mistake's burst.
    if diag.code == Some(E0107) && state.misuses.is_none() && !facts.misuses_checked {
        return EmitStep::Need { query: Query::Misuses, diag };
    }
    if in_misuse_burst(&diag) {
        match state.misuse_action(&diag) {
            Some(MisuseAction::Suppress) => return EmitStep::Drop,
            Some(MisuseAction::Reshape { misuse }) => {
                proof {
                    let ms = state.misuses.unwrap()@;
                    crate::emitter::lemma_first_misuse_in_range(
                        ms,
                        spec_primary_span(diag.span).unwrap(),
                        ms.len() as int,
                    );
                }
                match &facts.misuse_wording {
                    Some(w) => {
                        reword_at_caret(&mut diag, copy_text(&w.header), copy_text(&w.help));
                        return EmitStep::Reshape { misuse, diag };
                    },
                    None => return EmitStep::Need { query: Query::MisuseWording { misuse }, diag },
                }
            },
            None => {},
        }
    }
    // A duplicate-key wiring conflict.
    if conflict_trait(&diag).is_some() {
        match &facts.conflict {
            None => return EmitStep::Need { query: Query::Conflict, diag },
            Some(ConflictAnswer::Drop) => return EmitStep::Drop,
            Some(ConflictAnswer::Reword { header, help }) => {
                let help = match help {
                    Some(h) => Some(copy_text(h)),
                    None => None,
                };
                reword_keeping_carets(&mut diag, copy_text(header), help);
                return EmitStep::Hold { diag };
            },
            Some(ConflictAnswer::NotOne) => {},
        }
    }
    // An orphan registration.
    let orphan_code = match diag.code {
        Some(c) => c == E0117 || (c == E0210 && facts.orphan_param),
        None => false,
    };
    if orphan_code && primary_span(&diag.span).is_some() {
        match &facts.orphan {
            None => return EmitStep::Need { query: Query::Orphan, diag },
            Some(Some(w)) => {
                reword_at_caret(&mut diag, copy_text(&w.header), copy_text(&w.help));
                return EmitStep::Hold { diag };
            },
            Some(None) => {},
        }
    }
    // A capability or inner provider a provider uses without declaring it.
    if diag.code == Some(E0599) && facts.method_bounds {
        match &facts.undeclared {
            None => return EmitStep::Need { query: Query::Undeclared, diag },
            Some(Some(w)) => {
                reword_at_caret(&mut diag, copy_text(&w.header), copy_text(&w.help));
                return EmitStep::Hold { diag };
            },
            Some(None) => {},
        }
    }
    if diag.code == Some(E0599) && facts.unbounded_param_item {
        match &facts.missing_use_provider {
            None => return EmitStep::Need { query: Query::MissingUseProvider, diag },
            Some(Some(w)) => {
                reword_at_caret(&mut diag, copy_text(&w.header), copy_text(&w.help));
                return EmitStep::Hold { diag };
            },
            Some(None) => {},
        }
    }
    // A typed resolution.
    if resolution_candidate(&diag, facts.wiring_text, facts.method_bounds) {
        match &facts.resolution {
            None => return EmitStep::Need { query: Query::Resolution, diag },
            Some(Some(a)) => {
                if state.is_misuse_report(&a.leaves) {
                    return EmitStep::Drop;
                }
                let header = match &a.header {
                    Some(h) => Some(copy_text(h)),
                    None => None,
                };
                apply_resolution_plan(&mut diag, header, a.span, copy_texts(&a.helps));
                return EmitStep::Settle { diag, rewritten: true, resolved: true };
            },
            Some(None) => {},
        }
    }
    // The text rename.
    let r = match &facts.rename {
        None => return EmitStep::Need { query: Query::Rename, diag },
        Some(r) => r,
    };
    let strip = diag.code == Some(E0599) && facts.method_bounds && mentions_wiring(&diag);
    rename_step(diag, r, strip)
}

/// Settle a diagnostic no recognizer took, renamed by `r` (with its method-probe advice
/// stripped when `strip`); a rename that does not line up with it leaves it alone.
fn rename_step(diag: Diag, r: &RenameAnswer, strip: bool) -> (step: EmitStep)
    ensures
        step matches EmitStep::Settle { diag: d, rewritten, resolved } && !resolved && d.code == diag.code
            && rewritten == spec_renames(diag, *r, strip)
            && (rewritten ==> head_renamed(diag, d, *r))
            && (rewritten && !strip && diag.code != Some(E0275) ==> children_renamed(diag.children@, d.children@, *r, strip))
            && (!rewritten && !(strip && rename_fits(diag, *r)) ==> d == diag),
{
    let ghost d0 = diag;
    let mut diag = diag;
    if !fits(&diag, r) {
        return EmitStep::Settle { diag, rewritten: false, resolved: false };
    }
    let head = any_rewrite(&diag.messages, &r.messages);
    let kids = any_child_renamed(&diag, r, strip);
    if head {
        let rewrites = copy_rewrites(&r.messages);
        assert forall|i: int| 0 <= i < rewrites@.len() implies crate::diag::opt_view(#[trigger] rewrites@[i])
            == crate::diag::opt_view(r.messages@[i]) by {
            assert(msgs_view(rewrites@)[i] == msgs_view(r.messages@)[i]);
        }
        rewrite_messages(&mut diag.messages, rewrites);
    } else {
        assert forall|i: int| 0 <= i < d0.messages@.len() implies crate::diag::opt_view(
            #[trigger] diag.messages@[i],
        ) == crate::diag::rewritten(crate::diag::opt_view(d0.messages@[i]), crate::diag::opt_view(r.messages@[i])) by {
            if msgs_view(d0.messages@)[i] is Some && r.messages@[i] is Some {
                assert(rewrites_apply(msgs_view(d0.messages@), r.messages@));
            }
            assert(msgs_view(d0.messages@)[i] == crate::diag::opt_view(d0.messages@[i]));
        }
    }
    assert(head_renamed(d0, diag, *r));
    if kids {
        let mut children: Vec<Subdiag> = Vec::new();
        std::mem::swap(&mut children, &mut diag.children);
        diag.children = rename_children(children, r, strip);
    } else {
        assert forall|i: int| 0 <= i < d0.children@.len() implies #[trigger] child_renamed_as(
            d0.children@[i],
            diag.children@[i],
            *r,
            strip,
            i,
        ) by {
            assert(!child_renamed(d0, *r, strip, i));
            assert(r.children@[i]@.len() == d0.children@[i].messages@.len());
            assert forall|j: int| 0 <= j < d0.children@[i].messages@.len() implies crate::diag::opt_view(
                #[trigger] diag.children@[i].messages@[j],
            ) == crate::diag::rewritten(crate::diag::opt_view(d0.children@[i].messages@[j]), child_rewrite(*r, strip, i, j)) by {
                let ms = d0.children@[i].messages@;
                assert(msgs_view(ms)[j] == crate::diag::opt_view(ms[j]));
                if !(strip && r.advice_children@[i]) && msgs_view(ms)[j] is Some && r.children@[i]@[j] is Some {
                    assert(rewrites_apply(msgs_view(ms), r.children@[i]@));
                }
            }
        }
    }
    if strip {
        strip_method_probe_advice(&mut diag, &r.advice_children, &r.advice_labels);
    }
    let changed = head || kids;
    if changed && diag.code == Some(E0275) {
        drop_generated_check_notes(&mut diag);
        diag.children.push(subdiag(Level::Help, copy_text(&r.overflow_help)));
    }
    assert(head_renamed(d0, diag, *r));
    EmitStep::Settle { diag, rewritten: changed, resolved: false }
}

/// The entries of `items` whose `keep` flag is set, in order.
pub open spec fn retained<T>(items: Seq<T>, keep: Seq<bool>) -> Seq<T>
    decreases items.len(),
{
    if items.len() == 0 || keep.len() != items.len() {
        Seq::empty()
    } else {
        let rest = retained(items.drop_last(), keep.drop_last());
        if keep.last() {
            rest.push(items.last())
        } else {
            rest
        }
    }
}

/// Keeping every entry keeps them all.
proof fn lemma_retained_all<T>(items: Seq<T>, keep: Seq<bool>)
    requires
        keep.len() == items.len(),
        forall|i: int| 0 <= i < keep.len() ==> #[trigger] keep[i],
    ensures
        retained(items, keep) == items,
    decreases items.len(),
{
    if items.len() > 0 {
        lemma_retained_all(items.drop_last(), keep.drop_last());
        assert(items.drop_last().push(items.last()) =~= items);
    }
}

/// Keeping the entries a predicate accepts is filtering by it.
proof fn lemma_retained_filter<T>(items: Seq<T>, keep: Seq<bool>, pred: spec_fn(T) -> bool)
    requires
        keep.len() == items.len(),
        forall|i: int| 0 <= i < keep.len() ==> #[trigger] keep[i] == pred(items[i]),
    ensures
        retained(items, keep) == items.filter(pred),
    decreases items.len(),
{
    reveal(Seq::filter);
    if items.len() > 0 {
        lemma_retained_filter(items.drop_last(), keep.drop_last(), pred);
        assert(keep.last() == pred(items.last()));
    }
}

/// What an arrival did to the held diagnostics: for each one held before, whether it stays; and
/// how many were added after them.
pub struct Applied {
    pub keep: Vec<bool>,
    pub added: usize,
}

/// Whether an arrival leaves `after` from `before`: the entries held before whose flag is set,
/// in order, then `added` new ones.
pub open spec fn only_appends<R>(before: Seq<BufEntry<R>>, after: Seq<BufEntry<R>>, keep: Seq<bool>, added: int) -> bool {
    &&& keep.len() == before.len()
    &&& after.len() == retained(before, keep).len() + added
    &&& after.take(retained(before, keep).len() as int) == retained(before, keep)
}

/// Whether every flag is set.
pub open spec fn all_kept(keep: Seq<bool>) -> bool {
    forall|i: int| 0 <= i < keep.len() ==> #[trigger] keep[i]
}

/// Every flag set, one per entry held.
fn keep_all(n: usize) -> (r: Vec<bool>)
    ensures
        r@.len() == n,
        all_kept(r@),
{
    let mut r: Vec<bool> = Vec::new();
    let mut i: usize = 0;
    while i < n
        invariant
            i <= n,
            r@.len() == i,
            all_kept(r@),
        decreases n - i,
    {
        r.push(true);
        i = i + 1;
    }
    r
}

/// Carry out a decided step on the emitter's state, holding what it keeps. Nothing is shown
/// here: an arrival only holds diagnostics for the flush, which shows them once every
/// diagnostic has arrived. It keeps every diagnostic held before (but for a reshaped mistake's
/// siblings, which it drops), adds at most one after them, records the carets of a recognized
/// failure, and leaves the known `#[cgp_impl]` mistakes as they are:
///
/// - a rebuilt footer holds its line (if any);
/// - a reshaped mistake drops its verbatim siblings and holds its header, its carets recorded;
/// - a reworded failure holds it, its carets recorded;
/// - a settled diagnostic is settled as [`EmitterState::settle`] says, with the typed
///   `resolution` (when it carries one), `cascade` and `duplicate` as the message wording and the
///   de-duplication ledger found it;
/// - a drop (or a question, which is not a decision) holds nothing.
pub fn apply_step<R>(
    state: &mut EmitterState<R>,
    step: EmitStep,
    cascade: bool,
    duplicate: bool,
    resolution: Option<(R, Option<String>)>,
) -> (a: Applied)
    requires
        step matches EmitStep::Reshape { misuse, .. } ==> old(state).misuses matches Some(ms) && misuse
            < ms@.len(),
        step matches EmitStep::ReplaceFooter { notes } ==> notes@.len() <= 1,
    ensures
        final(state).misuses == old(state).misuses,
        only_appends(old(state).buffer@, final(state).buffer@, a.keep@, a.added as int),
        a.added <= 1,
        match step {
            EmitStep::ReplaceFooter { notes } => {
                &&& all_kept(a.keep@)
                &&& a.added == notes@.len()
                &&& (notes@.len() == 1 ==> final(state).buffer@.last() == BufEntry::<R>::Plain(notes@[0]))
                &&& final(state).cgp_spans == old(state).cgp_spans
            },
            EmitStep::Reshape { misuse, diag } => {
                &&& forall|i: int|
                    0 <= i < a.keep@.len() ==> #[trigger] a.keep@[i] == !is_sibling_entry(
                        old(state).buffer@[i],
                        old(state).misuses.unwrap()@[misuse as int].impl_span,
                        old(state).misuses.unwrap()@[misuse as int].macro_span,
                    )
                &&& a.added == 1
                &&& final(state).buffer@.last() == BufEntry::<R>::Plain(diag)
                &&& final(state).cgp_spans@ == old(state).cgp_spans@ + diag.span.primary@
            },
            EmitStep::Hold { diag } => {
                &&& all_kept(a.keep@)
                &&& a.added == 1
                &&& final(state).buffer@.last() == BufEntry::<R>::Plain(diag)
                &&& final(state).cgp_spans@ == old(state).cgp_spans@ + diag.span.primary@
            },
            EmitStep::Settle { diag, rewritten, .. } => {
                &&& all_kept(a.keep@)
                &&& (a.added == 1) == spec_settle_kept(
                    rewritten,
                    cascade,
                    duplicate,
                    overlaps_any(diag.span.primary@, old(state).cgp_spans@),
                )
                &&& a.added == 1 ==> final(state).buffer@.last() == match resolution {
                    Some((r, sig)) => BufEntry::Resolved { sig, diag, resolution: r },
                    None => BufEntry::Plain(diag),
                }
                &&& final(state).cgp_spans@ == if rewritten {
                    old(state).cgp_spans@ + diag.span.primary@
                } else {
                    old(state).cgp_spans@
                }
            },
            _ => {
                &&& all_kept(a.keep@)
                &&& a.added == 0
                &&& final(state).cgp_spans == old(state).cgp_spans
            },
        },
{
    let ghost before = state.buffer@;
    let n = state.buffer.len();
    match step {
        EmitStep::ReplaceFooter { notes } => {
            let keep = keep_all(n);
            proof {
                lemma_retained_all(before, keep@);
            }
            let added = notes.len();
            let mut rest = notes;
            if rest.len() == 1 {
                let note = rest.remove(0);
                state.push_plain(note);
            }
            assert(state.buffer@.take(before.len() as int) =~= before);
            Applied { keep, added }
        },
        EmitStep::Reshape { misuse, diag } => {
            let ghost site = state.misuses.unwrap()@[misuse as int];
            let keep = state.push_reshaped(diag, misuse);
            proof {
                lemma_retained_filter(
                    before,
                    keep@,
                    |e: BufEntry<R>| !is_sibling_entry(e, site.impl_span, site.macro_span),
                );
            }
            Applied { keep, added: 1 }
        },
        EmitStep::Hold { diag } => {
            let keep = keep_all(n);
            proof {
                lemma_retained_all(before, keep@);
            }
            state.record_cgp_spans(&diag);
            state.push_plain(diag);
            assert(state.buffer@.take(before.len() as int) =~= before);
            Applied { keep, added: 1 }
        },
        EmitStep::Settle { diag, rewritten, .. } => {
            let keep = keep_all(n);
            proof {
                lemma_retained_all(before, keep@);
            }
            let kept = state.settle(diag, rewritten, cascade, duplicate, resolution);
            if kept {
                assert(state.buffer@.take(before.len() as int) =~= before);
            } else {
                assert(state.buffer@.take(before.len() as int) =~= before);
            }
            Applied { keep, added: if kept { 1 } else { 0 } }
        },
        _ => {
            let keep = keep_all(n);
            proof {
                lemma_retained_all(before, keep@);
            }
            assert(state.buffer@.take(before.len() as int) =~= before);
            Applied { keep, added: 0 }
        },
    }
}

/// What an arrival does to the held diagnostics (see [`apply_step`]): unless it reshapes a
/// `#[cgp_impl]` mistake, everything held before stays held, in order, as the start of what is
/// held after, and at most one diagnostic follows it. Nothing is shown on arrival; what is held
/// is shown at the flush.
pub proof fn law_arrival_only_appends<R>(
    before: Seq<BufEntry<R>>,
    after: Seq<BufEntry<R>>,
    keep: Seq<bool>,
    added: int,
)
    requires
        only_appends(before, after, keep, added),
        all_kept(keep),
        0 <= added <= 1,
    ensures
        after.take(before.len() as int) == before,
        before.len() <= after.len() <= before.len() + 1,
{
    lemma_retained_all(before, keep);
}

/// An arrival no recognizer takes — not a rebuilt footer, not in a known `#[cgp_impl]` mistake's
/// burst, and answered "not one" by every classifier it was put to — whose text the rename
/// leaves alone is settled untouched: not rewritten, not resolved (and [`emit_step`] then hands
/// it back exactly as it arrived, no advice being stripped).
pub proof fn law_unrecognized_arrival_settles<R>(state: EmitterState<R>, diag: Diag, facts: ArrivalFacts)
    requires
        !footer_fires(state, diag),
        !misuse_check_due(state, diag, facts),
        !is_misuse_burst_code(diag.code) || spec_misuse_action(state.misuses, diag) is None,
        spec_conflict_trait(diag) is Some ==> facts.conflict matches Some(ConflictAnswer::NotOne),
        orphan_asked(diag, facts) ==> facts.orphan matches Some(None),
        diag.code == Some(E0599) && facts.method_bounds ==> facts.undeclared matches Some(None),
        diag.code == Some(E0599) && facts.unbounded_param_item ==> facts.missing_use_provider matches Some(None),
        spec_resolution_candidate(diag, facts.wiring_text, facts.method_bounds) ==> facts.resolution matches Some(None),
        facts.rename matches Some(r) && !spec_renames(diag, r, spec_strips(diag, facts)),
    ensures
        spec_emit_route(state, diag, facts) == (EmitRoute::Settle { rewritten: false, resolved: false }),
{
}

} // verus!
