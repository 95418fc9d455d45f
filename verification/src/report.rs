//! The wording of a resolved wiring failure: the field header, the derive `help`s, the
//! root-cause notes, and the wholesale replacement of an all-field failure.

use vstd::prelude::*;

use crate::diag::{subdiag, Diag, Level, MultiSpan, Span, Subdiag, E0277};
use crate::resolve::{Cause, FieldIssue, Leaf, Resolved};
use crate::text::{append, join, owned, seq_join, str_eq, views};

verus! {

/// `s` between back-quotes.
pub open spec fn backquoted(s: Seq<char>) -> Seq<char> {
    "`"@ + s + "`"@
}

/// A back-quoted list of field names joined in English: `` `x` ``, `` `x` and `y` ``, or
/// `` `x`, `y`, and `z` ``; empty for no fields.
pub open spec fn spec_quoted_field_list(fields: Seq<Seq<char>>) -> Seq<char> {
    let q = fields.map_values(|f: Seq<char>| backquoted(f));
    if q.len() == 0 {
        Seq::empty()
    } else if q.len() == 1 {
        q[0]
    } else if q.len() == 2 {
        q[0] + " and "@ + q[1]
    } else {
        seq_join(q.drop_last(), ", "@) + ", and "@ + q.last()
    }
}

/// `s` between back-quotes.
fn quote(s: &str) -> (r: String)
    ensures
        r@ == backquoted(s@),
{
    let mut r = owned("`");
    append(&mut r, s);
    append(&mut r, "`");
    r
}

/// An `and`-joined, back-quoted list of field names: `` `x` ``, `` `x` and `y` ``, or
/// `` `x`, `y`, and `z` ``.
pub fn quoted_field_list(fields: &Vec<String>) -> (r: String)
    ensures
        r@ == spec_quoted_field_list(views(fields@)),
{
    let ghost q = views(fields@).map_values(|f: Seq<char>| backquoted(f));
    let mut quoted: Vec<String> = Vec::new();
    let mut i: usize = 0;
    while i < fields.len()
        invariant
            i <= fields@.len(),
            q.len() == fields@.len(),
            q == views(fields@).map_values(|f: Seq<char>| backquoted(f)),
            views(quoted@) == q.take(i as int),
        decreases fields@.len() - i,
    {
        let piece = quote(fields[i].as_str());
        let ghost before = quoted@;
        assert(views(fields@)[i as int] == fields@[i as int]@);
        assert(q[i as int] == backquoted(fields@[i as int]@));
        quoted.push(piece);
        assert(views(quoted@) =~= views(before).push(piece@));
        assert(views(quoted@) =~= q.take(i + 1));
        i = i + 1;
    }
    assert(q.take(i as int) =~= q);
    let n = quoted.len();
    if n == 0 {
        String::new()
    } else if n == 1 {
        owned(quoted[0].as_str())
    } else if n == 2 {
        let mut r = owned(quoted[0].as_str());
        append(&mut r, " and ");
        append(&mut r, quoted[1].as_str());
        r
    } else {
        let last = quoted.pop().unwrap();
        assert(views(quoted@) =~= q.drop_last());
        let mut r = join(&quoted, ", ");
        append(&mut r, ", and ");
        append(&mut r, last.as_str());
        r
    }
}

/// The names of the field leaves among `causes`, in order.
pub open spec fn field_names(causes: Seq<Cause>) -> Seq<Seq<char>>
    decreases causes.len(),
{
    if causes.len() == 0 {
        Seq::empty()
    } else {
        let rest = field_names(causes.drop_last());
        match causes.last().leaf {
            Leaf::Field { name, .. } => rest.push(name@),
            Leaf::Bound { .. } => rest,
        }
    }
}

/// Whether every cause is a genuinely missing field.
pub open spec fn all_missing(causes: Seq<Cause>) -> bool {
    forall|i: int|
        0 <= i < causes.len() ==> (#[trigger] causes[i]).leaf matches Leaf::Field {
            issue: FieldIssue::Missing,
            ..
        }
}

/// `field` for one name, `fields` otherwise.
pub open spec fn field_noun(count: nat) -> Seq<char> {
    if count == 1 {
        "field"@
    } else {
        "fields"@
    }
}

/// The header of an all-field resolution.
pub open spec fn spec_field_header(resolved: Resolved) -> Seq<char> {
    let names = field_names(resolved.causes@);
    let noun = field_noun(names.len());
    let list = spec_quoted_field_list(names);
    if all_missing(resolved.causes@) {
        "missing "@ + noun + " "@ + list + " on context `"@ + resolved.context@ + "`"@
    } else {
        "accessor trait `HasField` with "@ + noun + " "@ + list + " is not implemented for `"@
            + resolved.context@ + "`"@
    }
}

/// The names of the field leaves among `causes`, in order.
fn collect_field_names(causes: &Vec<Cause>) -> (r: Vec<String>)
    ensures
        views(r@) == field_names(causes@),
{
    let mut names: Vec<String> = Vec::new();
    let mut i: usize = 0;
    while i < causes.len()
        invariant
            i <= causes@.len(),
            views(names@) == field_names(causes@.take(i as int)),
        decreases causes@.len() - i,
    {
        assert(causes@.take(i + 1).drop_last() =~= causes@.take(i as int));
        match &causes[i].leaf {
            Leaf::Field { name, .. } => {
                let ghost before = names@;
                names.push(owned(name.as_str()));
                assert(views(names@) =~= views(before).push(name@));
            },
            Leaf::Bound { .. } => {},
        }
        i = i + 1;
    }
    assert(causes@.take(i as int) =~= causes@);
    names
}

/// Whether every cause is a genuinely missing field.
fn causes_all_missing(causes: &Vec<Cause>) -> (r: bool)
    ensures
        r == all_missing(causes@),
{
    let mut i: usize = 0;
    while i < causes.len()
        invariant
            i <= causes@.len(),
            forall|j: int|
                0 <= j < i ==> (#[trigger] causes@[j]).leaf matches Leaf::Field {
                    issue: FieldIssue::Missing,
                    ..
                },
        decreases causes@.len() - i,
    {
        match &causes[i].leaf {
            Leaf::Field { issue: FieldIssue::Missing, .. } => {},
            _ => {
                return false;
            },
        }
        i = i + 1;
    }
    true
}

/// The header for an all-field resolution. When every field is genuinely absent it reads as a
/// missing field; when a field the context carries is merely unwired it reads as `HasField`
/// being unimplemented, since "missing" would misdescribe a field the struct visibly carries.
pub fn field_header(resolved: &Resolved) -> (r: String)
    ensures
        r@ == spec_field_header(*resolved),
{
    let names = collect_field_names(&resolved.causes);
    let noun = if names.len() == 1 {
        "field"
    } else {
        "fields"
    };
    let list = quoted_field_list(&names);
    if causes_all_missing(&resolved.causes) {
        let mut r = owned("missing ");
        append(&mut r, noun);
        append(&mut r, " ");
        append(&mut r, list.as_str());
        append(&mut r, " on context `");
        append(&mut r, resolved.context.as_str());
        append(&mut r, "`");
        r
    } else {
        let mut r = owned("accessor trait `HasField` with ");
        append(&mut r, noun);
        append(&mut r, " ");
        append(&mut r, list.as_str());
        append(&mut r, " is not implemented for `");
        append(&mut r, resolved.context.as_str());
        append(&mut r, "`");
        r
    }
}

/// The type that must derive `HasField` for a leaf: the owner of a present field, the `Deref`
/// target of one reached through `Deref`; none for a missing field or a non-field leaf.
pub open spec fn derive_target(leaf: Leaf) -> Option<Seq<char>> {
    match leaf {
        Leaf::Field { owner, issue, .. } => match issue {
            FieldIssue::Missing => None,
            FieldIssue::Present => Some(owner@),
            FieldIssue::PresentViaDeref { target } => Some(target@),
        },
        Leaf::Bound { .. } => None,
    }
}

/// The distinct derive targets of the first `n` causes, in first-seen order.
pub open spec fn spec_derive_targets(causes: Seq<Cause>, n: int) -> Seq<Seq<char>>
    decreases n,
{
    if n <= 0 || n > causes.len() {
        Seq::empty()
    } else {
        let before = spec_derive_targets(causes, n - 1);
        match derive_target(causes[n - 1].leaf) {
            Some(t) => if before.contains(t) {
                before
            } else {
                before.push(t)
            },
            None => before,
        }
    }
}

/// Whether `items` holds `item`.
fn holds(items: &Vec<String>, item: &str) -> (r: bool)
    ensures
        r == views(items@).contains(item@),
{
    let mut i: usize = 0;
    while i < items.len()
        invariant
            i <= items@.len(),
            forall|j: int| 0 <= j < i ==> #[trigger] views(items@)[j] != item@,
        decreases items@.len() - i,
    {
        if str_eq(items[i].as_str(), item) {
            assert(views(items@)[i as int] == item@);
            return true;
        }
        i = i + 1;
    }
    false
}

/// The distinct types that need a `#[derive(HasField)]`, in first-seen order — one per present
/// or `Deref`-reachable field (a `Deref`-reachable field points at its target, the type that
/// must actually derive). A genuinely missing field, or a non-field leaf, contributes none.
pub fn derive_targets(causes: &Vec<Cause>) -> (r: Vec<String>)
    ensures
        views(r@) == spec_derive_targets(causes@, causes@.len() as int),
{
    let mut targets: Vec<String> = Vec::new();
    let mut i: usize = 0;
    while i < causes.len()
        invariant
            i <= causes@.len(),
            views(targets@) == spec_derive_targets(causes@, i as int),
        decreases causes@.len() - i,
    {
        let target: Option<&str> = match &causes[i].leaf {
            Leaf::Field { owner, issue, .. } => match issue {
                FieldIssue::Missing => None,
                FieldIssue::Present => Some(owner.as_str()),
                FieldIssue::PresentViaDeref { target } => Some(target.as_str()),
            },
            Leaf::Bound { .. } => None,
        };
        match target {
            Some(t) => {
                if !holds(&targets, t) {
                    let ghost before = targets@;
                    targets.push(owned(t));
                    assert(views(targets@) =~= views(before).push(t@));
                }
            },
            None => {},
        }
        i = i + 1;
    }
    targets
}

/// The derive `help` for one target type.
pub open spec fn spec_derive_help(target: Seq<char>) -> Seq<char> {
    "make sure that `#[derive(HasField)]` is used for `"@ + target + "`"@
}

/// The `help` asking `target` to derive `HasField`.
pub fn derive_help(target: &str) -> (r: String)
    ensures
        r@ == spec_derive_help(target@),
{
    let mut r = owned("make sure that `#[derive(HasField)]` is used for `");
    append(&mut r, target);
    append(&mut r, "`");
    r
}

/// The lead of a root-cause note: the field for a field leaf, the restated bound otherwise.
pub open spec fn note_subject(leaf: Leaf) -> Seq<char> {
    match leaf {
        Leaf::Field { name, .. } => "field `"@ + name@ + "`"@,
        Leaf::Bound { summary } => "`"@ + summary@ + "`"@,
    }
}

/// The note body for one root cause, given its rendered dependency tree.
pub open spec fn spec_cause_note(leaf: Leaf, tree_text: Seq<char>) -> Seq<char> {
    note_subject(leaf) + " is required through this dependency chain:\n"@ + tree_text
}

/// The note body for one root cause: a short lead naming the leaf, then its dependency chain
/// (`tree_text`, the cause's tree as rendered). The specific fix is not repeated per note — it
/// rides in one `help` — so every note is the same terse "required through this chain" form.
pub fn cause_note(cause: &Cause, tree_text: &str) -> (r: String)
    ensures
        r@ == spec_cause_note(cause.leaf, tree_text@),
{
    let mut r = match &cause.leaf {
        Leaf::Field { name, .. } => {
            let mut s = owned("field `");
            append(&mut s, name.as_str());
            append(&mut s, "`");
            s
        },
        Leaf::Bound { summary } => quote(summary.as_str()),
    };
    append(&mut r, " is required through this dependency chain:\n");
    append(&mut r, tree_text);
    r
}

/// Whether `sub` is a span-less plain sub-diagnostic at `level` holding exactly `text`.
pub open spec fn is_plain_subdiag(sub: Subdiag, level: Level, text: Seq<char>) -> bool {
    &&& sub.level == level
    &&& sub.messages@.len() == 1
    &&& sub.messages@[0] matches Some(t) && t@ == text
    &&& sub.span.primary@.len() == 0
    &&& sub.span.labels@.len() == 0
}

/// One `note` per root cause, carrying that cause's rendered dependency tree — the
/// sub-messages that replace the compiler's own obligation-chain notes.
pub fn tree_notes(causes: &Vec<Cause>, tree_texts: &Vec<String>) -> (r: Vec<Subdiag>)
    requires
        tree_texts@.len() == causes@.len(),
    ensures
        r@.len() == causes@.len(),
        forall|i: int|
            0 <= i < causes@.len() ==> is_plain_subdiag(
                #[trigger] r@[i],
                Level::Note,
                spec_cause_note(causes@[i].leaf, tree_texts@[i]@),
            ),
{
    let mut notes: Vec<Subdiag> = Vec::new();
    let mut i: usize = 0;
    while i < causes.len()
        invariant
            i <= causes@.len(),
            tree_texts@.len() == causes@.len(),
            notes@.len() == i,
            forall|j: int|
                0 <= j < i ==> is_plain_subdiag(
                    #[trigger] notes@[j],
                    Level::Note,
                    spec_cause_note(causes@[j].leaf, tree_texts@[j]@),
                ),
        decreases causes@.len() - i,
    {
        let note = cause_note(&causes[i], tree_texts[i].as_str());
        notes.push(subdiag(Level::Note, note));
        i = i + 1;
    }
    notes
}

/// Whether every cause bottoms out on a field.
pub open spec fn all_fields(causes: Seq<Cause>) -> bool {
    forall|i: int| 0 <= i < causes.len() ==> (#[trigger] causes[i]).leaf is Field
}

/// Whether every cause of the resolution bottoms out on a field: such a failure is replaced
/// wholesale, any other keeps the compiler's own main message.
pub fn all_field_causes(resolved: &Resolved) -> (r: bool)
    ensures
        r == all_fields(resolved.causes@),
{
    let mut i: usize = 0;
    while i < resolved.causes.len()
        invariant
            i <= resolved.causes@.len(),
            forall|j: int| 0 <= j < i ==> (#[trigger] resolved.causes@[j]).leaf is Field,
        decreases resolved.causes@.len() - i,
    {
        match &resolved.causes[i].leaf {
            Leaf::Field { .. } => {},
            Leaf::Bound { .. } => {
                return false;
            },
        }
        i = i + 1;
    }
    true
}

/// Whether `d` is the wholesale replacement of the all-field resolution `resolved` with its
/// caret at `span`: an `E0277` error headed by the field header, one derive `help` per target,
/// then one tree note per cause, and no suggestions.
pub open spec fn is_field_replacement(d: Diag, resolved: Resolved, span: Span, tree_texts: Seq<
    String,
>) -> bool {
    let targets = spec_derive_targets(resolved.causes@, resolved.causes@.len() as int);
    &&& d.level == Level::Error
    &&& d.code == Some(E0277)
    &&& d.messages@.len() == 1
    &&& d.messages@[0] matches Some(h) && h@ == spec_field_header(resolved)
    &&& d.span.primary@ == seq![span]
    &&& d.span.labels@.len() == 0
    &&& !d.suggestions
    &&& d.children@.len() == targets.len() + resolved.causes@.len()
    &&& forall|i: int|
        0 <= i < targets.len() ==> is_plain_subdiag(
            #[trigger] d.children@[i],
            Level::Help,
            spec_derive_help(targets[i]),
        )
    &&& forall|i: int|
        0 <= i < resolved.causes@.len() ==> is_plain_subdiag(
            #[trigger] d.children@[targets.len() + i],
            Level::Note,
            spec_cause_note(resolved.causes@[i].leaf, tree_texts[i]@),
        )
}

/// The wholesale replacement for an all-field resolution: a root-cause-first header carrying
/// the `E0277` code and a caret on the wiring entry (`span`), a `help` naming each type that
/// must derive `HasField`, then one tree note per field (`tree_texts[i]` is cause `i`'s tree,
/// rendered).
pub fn render_field_replacement(resolved: &Resolved, span: Span, tree_texts: &Vec<String>) -> (r:
    Diag)
    requires
        tree_texts@.len() == resolved.causes@.len(),
    ensures
        is_field_replacement(r, *resolved, span, tree_texts@),
{
    let ghost targets_want = spec_derive_targets(resolved.causes@, resolved.causes@.len() as int);
    let targets = derive_targets(&resolved.causes);
    let mut children: Vec<Subdiag> = Vec::new();
    let mut i: usize = 0;
    while i < targets.len()
        invariant
            i <= targets@.len(),
            views(targets@) == targets_want,
            children@.len() == i,
            forall|j: int|
                0 <= j < i ==> is_plain_subdiag(
                    #[trigger] children@[j],
                    Level::Help,
                    spec_derive_help(targets_want[j]),
                ),
        decreases targets@.len() - i,
    {
        let help = derive_help(targets[i].as_str());
        children.push(subdiag(Level::Help, help));
        i = i + 1;
    }
    let mut k: usize = 0;
    let ghost helps = children@;
    while k < resolved.causes.len()
        invariant
            k <= resolved.causes@.len(),
            tree_texts@.len() == resolved.causes@.len(),
            helps.len() == targets_want.len(),
            children@.len() == helps.len() + k,
            forall|j: int| 0 <= j < helps.len() ==> #[trigger] children@[j] == helps[j],
            forall|j: int|
                0 <= j < helps.len() ==> is_plain_subdiag(
                    #[trigger] helps[j],
                    Level::Help,
                    spec_derive_help(targets_want[j]),
                ),
            forall|j: int|
                0 <= j < k ==> is_plain_subdiag(
                    #[trigger] children@[helps.len() + j],
                    Level::Note,
                    spec_cause_note(resolved.causes@[j].leaf, tree_texts@[j]@),
                ),
        decreases resolved.causes@.len() - k,
    {
        let note = subdiag(Level::Note, cause_note(&resolved.causes[k], tree_texts[k].as_str()));
        children.push(note);
        k = k + 1;
    }
    let mut messages: Vec<Option<String>> = Vec::new();
    messages.push(Some(field_header(resolved)));
    let mut primary: Vec<Span> = Vec::new();
    primary.push(span);
    Diag {
        level: Level::Error,
        code: Some(E0277),
        messages,
        span: MultiSpan { primary, labels: Vec::new() },
        children,
        suggestions: false,
    }
}

/// What the emitter makes of a diagnostic the resolver traced to its root causes (`tree_texts[i]`
/// is cause `i`'s rendered dependency tree). An all-field failure is replaced wholesale by a
/// fresh, tree-first diagnostic with its caret at `span`; any other keeps the compiler's own main
/// message — returned with `true`, as it still takes the wiring-message rename — and only swaps
/// its sub-notes for the tree notes, dropping the compiler's structured suggestions.
pub fn resolved_diagnostic(diag: Diag, resolved: &Resolved, span: Span, tree_texts: &Vec<String>) -> (r: (Diag, bool))
    requires
        tree_texts@.len() == resolved.causes@.len(),
    ensures
        all_fields(resolved.causes@) ==> !r.1 && is_field_replacement(r.0, *resolved, span, tree_texts@),
        !all_fields(resolved.causes@) ==> {
            &&& r.1
            &&& r.0.level == diag.level
            &&& r.0.code == diag.code
            &&& r.0.messages == diag.messages
            &&& r.0.span == diag.span
            &&& !r.0.suggestions
            &&& r.0.children@.len() == resolved.causes@.len()
            &&& forall|i: int|
                0 <= i < resolved.causes@.len() ==> is_plain_subdiag(
                    #[trigger] r.0.children@[i],
                    Level::Note,
                    spec_cause_note(resolved.causes@[i].leaf, tree_texts@[i]@),
                )
        },
{
    if all_field_causes(resolved) {
        (render_field_replacement(resolved, span, tree_texts), false)
    } else {
        let mut diag = diag;
        diag.children = tree_notes(&resolved.causes, tree_texts);
        diag.suggestions = false;
        (diag, true)
    }
}

/// Whether one of the first `n` causes asks `target` to derive `HasField`.
pub open spec fn targeted_by(causes: Seq<Cause>, n: int, target: Seq<char>) -> bool {
    exists|i: int| 0 <= i < n && derive_target(#[trigger] causes[i].leaf) == Some(target)
}

/// The distinct derive targets are pairwise different, each comes from some cause, and every
/// cause's target is among them.
pub proof fn law_derive_targets_distinct_complete(causes: Seq<Cause>)
    ensures
        ({
            let t = spec_derive_targets(causes, causes.len() as int);
            &&& forall|a: int, b: int| 0 <= a < b < t.len() ==> t[a] != t[b]
            &&& forall|a: int| 0 <= a < t.len() ==> targeted_by(causes, causes.len() as int, #[trigger] t[a])
            &&& forall|i: int|
                0 <= i < causes.len() && derive_target(#[trigger] causes[i].leaf) is Some
                    ==> t.contains(derive_target(causes[i].leaf).unwrap())
        }),
{
    lemma_derive_targets(causes, causes.len() as int);
}

proof fn lemma_derive_targets(causes: Seq<Cause>, n: int)
    requires
        0 <= n <= causes.len(),
    ensures
        ({
            let t = spec_derive_targets(causes, n);
            &&& forall|a: int, b: int| 0 <= a < b < t.len() ==> t[a] != t[b]
            &&& forall|a: int| 0 <= a < t.len() ==> targeted_by(causes, n, #[trigger] t[a])
            &&& forall|i: int|
                0 <= i < n && derive_target(#[trigger] causes[i].leaf) is Some ==> t.contains(
                    derive_target(causes[i].leaf).unwrap(),
                )
        }),
    decreases n,
{
    if n > 0 {
        lemma_derive_targets(causes, n - 1);
        let before = spec_derive_targets(causes, n - 1);
        let t = spec_derive_targets(causes, n);
        assert forall|a: int| 0 <= a < t.len() implies targeted_by(causes, n, #[trigger] t[a]) by {
            if a < before.len() {
                assert(t[a] == before[a]);
                let i = choose|i: int|
                    0 <= i < n - 1 && derive_target(#[trigger] causes[i].leaf) == Some(before[a]);
                assert(derive_target(causes[i].leaf) == Some(t[a]));
            } else {
                assert(derive_target(causes[n - 1].leaf) == Some(t[a]));
            }
        }
        assert forall|i: int|
            0 <= i < n && derive_target(#[trigger] causes[i].leaf) is Some implies t.contains(
                derive_target(causes[i].leaf).unwrap(),
            ) by {
            if i < n - 1 {
                let x = derive_target(causes[i].leaf).unwrap();
                let k = choose|k: int| 0 <= k < before.len() && before[k] == x;
                assert(t[k] == x);
            } else if t.len() > before.len() {
                assert(t[before.len() as int] == derive_target(causes[i].leaf).unwrap());
            }
        }
    }
}

/// The header calls the fields missing only when every cause is a genuinely missing field: if
/// any cause, at any position, is a field the context carries (or anything other than a
/// missing field), the header reads as `HasField` being unimplemented for the context.
pub proof fn law_field_header_missing_only_if_all_missing(resolved: Resolved, i: int)
    requires
        0 <= i < resolved.causes@.len(),
        !(resolved.causes@[i].leaf matches Leaf::Field { issue: FieldIssue::Missing, .. }),
    ensures
        "accessor trait `HasField` with "@.is_prefix_of(spec_field_header(resolved)),
        !"missing "@.is_prefix_of(spec_field_header(resolved)),
{
    reveal_strlit("accessor trait `HasField` with ");
    reveal_strlit("missing ");
    let h = spec_field_header(resolved);
    assert(!all_missing(resolved.causes@));
    let lead = "accessor trait `HasField` with "@;
    let rest = field_noun(field_names(resolved.causes@).len()) + " "@ + spec_quoted_field_list(
        field_names(resolved.causes@),
    ) + " is not implemented for `"@ + resolved.context@ + "`"@;
    assert(h =~= lead + rest);
    assert(h.subrange(0, lead.len() as int) =~= lead);
    assert(h[0] == 'a');
    assert("missing "@[0] == 'm');
}

/// When every cause is a genuinely missing field, the header calls them missing, on the context.
pub proof fn law_field_header_missing_when_all_missing(resolved: Resolved)
    requires
        forall|i: int|
            0 <= i < resolved.causes@.len() ==> (#[trigger] resolved.causes@[i]).leaf matches Leaf::Field {
                issue: FieldIssue::Missing,
                ..
            },
    ensures
        "missing "@.is_prefix_of(spec_field_header(resolved)),
{
    reveal_strlit("missing ");
    let h = spec_field_header(resolved);
    let lead = "missing "@;
    let rest = field_noun(field_names(resolved.causes@).len()) + " "@ + spec_quoted_field_list(
        field_names(resolved.causes@),
    ) + " on context `"@ + resolved.context@ + "`"@;
    assert(h =~= lead + rest);
    assert(h.subrange(0, lead.len() as int) =~= lead);
}

} // verus!
