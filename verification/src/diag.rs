//! The compiler diagnostic, as the emitter's decisions see it.
//!
//! A diagnostic is held as plain values: its level, its numeric error code (`E0277` is `277`),
//! its messages (`None` for a translatable message whose text is not a plain string), its spans
//! with their labels, and its sub-diagnostics. Source positions are byte offsets plus a syntax
//! context, as the compiler's `Span` carries them.

use vstd::prelude::*;

use crate::text::{join, owned, seq_contains, seq_join, str_contains, views};

verus! {

/// The `rustc` error codes the emitter routes on.
pub const E0107: u32 = 107;
pub const E0117: u32 = 117;
pub const E0119: u32 = 119;
pub const E0186: u32 = 186;
pub const E0207: u32 = 207;
pub const E0210: u32 = 210;
pub const E0271: u32 = 271;
pub const E0275: u32 = 275;
pub const E0277: u32 = 277;
pub const E0308: u32 = 308;
pub const E0425: u32 = 425;
pub const E0599: u32 = 599;

/// A source region: the byte offsets it covers and the syntax context it was written in.
#[derive(Clone, Copy, Debug, PartialEq, Eq, Structural)]
pub struct Span {
    pub lo: u32,
    pub hi: u32,
    pub ctxt: u32,
}

impl Span {
    /// Whether two spans cover the same source range, whatever their syntax contexts.
    pub open spec fn spec_same_range(self, other: Span) -> bool {
        self.lo == other.lo && self.hi == other.hi
    }

    /// Whether two spans share at least one byte.
    pub open spec fn spec_overlaps(self, other: Span) -> bool {
        self.lo < other.hi && other.lo < self.hi
    }

    /// Whether `self` and `other` cover the same source range, ignoring the syntax context: the
    /// two halves of a duplicate-wiring `E0119` pair point at one entry token under different
    /// contexts.
    pub fn same_range(&self, other: &Span) -> (r: bool)
        ensures
            r == self.spec_same_range(*other),
    {
        self.lo == other.lo && self.hi == other.hi
    }

    /// Whether the two spans overlap.
    pub fn overlaps(&self, other: &Span) -> (r: bool)
        ensures
            r == self.spec_overlaps(*other),
    {
        self.lo < other.hi && other.lo < self.hi
    }
}

/// The severity of a diagnostic or of one of its sub-diagnostics.
#[derive(Clone, Copy, Debug, PartialEq, Eq, Structural)]
pub enum Level {
    Error,
    Warning,
    Note,
    Help,
    /// The level of the trailing summary lines ("For more information about this error …").
    FailureNote,
    /// Any other level, which no decision here distinguishes.
    Other,
}

/// A labelled span; `text` is `None` for a label whose message is not a plain string.
pub struct Label {
    pub span: Span,
    pub text: Option<String>,
}

/// The spans a diagnostic points at: its primary spans (the carets) and its labelled spans.
pub struct MultiSpan {
    pub primary: Vec<Span>,
    pub labels: Vec<Label>,
}

/// A sub-diagnostic: a `note`, `help` and the like.
pub struct Subdiag {
    pub level: Level,
    pub messages: Vec<Option<String>>,
    pub span: MultiSpan,
}

/// One compiler diagnostic.
pub struct Diag {
    pub level: Level,
    pub code: Option<u32>,
    pub messages: Vec<Option<String>>,
    pub span: MultiSpan,
    pub children: Vec<Subdiag>,
    /// Whether the compiler's own structured suggestions are still attached.
    pub suggestions: bool,
}

/// What kind of failure a diagnostic reports, as the diagnosis planner keys on it.
#[derive(Clone, Copy, Debug, PartialEq, Eq, Structural)]
pub enum DiagKind {
    /// A field-type mismatch (`E0271`).
    TypeMismatch,
    /// A consumer-method call that does not resolve (`E0599`).
    MethodNotFound,
    /// Any other check or bound failure.
    Check,
}

/// The text of the main message, when it is a plain string.
pub open spec fn spec_main_message(diag: Diag) -> Option<Seq<char>> {
    if diag.messages@.len() > 0 && diag.messages@[0] is Some {
        Some(diag.messages@[0].unwrap()@)
    } else {
        None
    }
}

/// The text of the diagnostic's main message, when it is a plain string.
pub fn main_message_text(diag: &Diag) -> (r: Option<&str>)
    ensures
        match r {
            Some(t) => spec_main_message(*diag) == Some(t@),
            None => spec_main_message(*diag) is None,
        },
{
    if diag.messages.len() == 0 {
        return None;
    }
    match &diag.messages[0] {
        Some(text) => Some(text.as_str()),
        None => None,
    }
}

/// The planner's kind for a diagnostic's error code: `E0271` a field-type mismatch, `E0599` a
/// consumer-method call, anything else a plain check failure.
pub open spec fn spec_diag_kind(code: Option<u32>) -> DiagKind {
    if code == Some(E0271) {
        DiagKind::TypeMismatch
    } else if code == Some(E0599) {
        DiagKind::MethodNotFound
    } else {
        DiagKind::Check
    }
}

/// Map a diagnostic's error code to the kind the diagnosis planner keys on.
pub fn diag_kind(diag: &Diag) -> (r: DiagKind)
    ensures
        r == spec_diag_kind(diag.code),
{
    match diag.code {
        Some(c) => if c == E0271 {
            DiagKind::TypeMismatch
        } else if c == E0599 {
            DiagKind::MethodNotFound
        } else {
            DiagKind::Check
        },
        None => DiagKind::Check,
    }
}

/// The plain-string texts among `messages`, in order.
pub open spec fn plain_texts(messages: Seq<Option<String>>) -> Seq<Seq<char>>
    decreases messages.len(),
{
    if messages.len() == 0 {
        Seq::empty()
    } else {
        let rest = plain_texts(messages.drop_last());
        match messages.last() {
            Some(t) => rest.push(t@),
            None => rest,
        }
    }
}

/// The plain-string texts of every child's messages, child by child.
pub open spec fn children_texts(children: Seq<Subdiag>) -> Seq<Seq<char>>
    decreases children.len(),
{
    if children.len() == 0 {
        Seq::empty()
    } else {
        children_texts(children.drop_last()) + plain_texts(children.last().messages@)
    }
}

/// The separator of a message signature: the ASCII unit separator, which no message holds.
pub const SIGNATURE_SEPARATOR: &'static str = "\u{1f}";

/// The span-independent signature of a diagnostic: its plain main and child message texts, in
/// order, joined by [`SIGNATURE_SEPARATOR`].
pub open spec fn spec_message_signature(diag: Diag) -> Seq<char> {
    seq_join(
        plain_texts(diag.messages@) + children_texts(diag.children@),
        SIGNATURE_SEPARATOR@,
    )
}

/// Append the plain texts of `messages` to `parts`.
fn push_plain_texts(parts: &mut Vec<String>, messages: &Vec<Option<String>>)
    ensures
        views(final(parts)@) == views(old(parts)@) + plain_texts(messages@),
{
    let mut i: usize = 0;
    while i < messages.len()
        invariant
            i <= messages@.len(),
            views(parts@) == views(old(parts)@) + plain_texts(messages@.take(i as int)),
        decreases messages@.len() - i,
    {
        assert(messages@.take(i + 1).drop_last() =~= messages@.take(i as int));
        let ghost before = parts@;
        match &messages[i] {
            Some(text) => {
                parts.push(owned(text.as_str()));
                assert(views(parts@) =~= views(before).push(text@));
            },
            None => {},
        }
        i = i + 1;
    }
    assert(messages@.take(i as int) =~= messages@);
}

/// A span-independent signature of a diagnostic's rendered text — its main message plus each
/// child's message, in order. The same rewritten wiring error re-reported at another span
/// renders the same text, so this de-duplicates re-reports that spans alone would tell apart.
pub fn message_signature(diag: &Diag) -> (r: String)
    ensures
        r@ == spec_message_signature(*diag),
{
    let mut parts: Vec<String> = Vec::new();
    push_plain_texts(&mut parts, &diag.messages);
    let mut c: usize = 0;
    while c < diag.children.len()
        invariant
            c <= diag.children@.len(),
            views(parts@) == plain_texts(diag.messages@) + children_texts(
                diag.children@.take(c as int),
            ),
        decreases diag.children@.len() - c,
    {
        assert(diag.children@.take(c + 1).drop_last() =~= diag.children@.take(c as int));
        push_plain_texts(&mut parts, &diag.children[c].messages);
        proof {
            let before = plain_texts(diag.messages@) + children_texts(diag.children@.take(c as int));
            assert(before + plain_texts(diag.children@[c as int].messages@) =~= plain_texts(
                diag.messages@,
            ) + children_texts(diag.children@.take(c + 1)));
        }
        c = c + 1;
    }
    assert(diag.children@.take(c as int) =~= diag.children@);
    join(&parts, SIGNATURE_SEPARATOR)
}

/// Whether some text among `texts` contains `needle`.
pub open spec fn any_contains(texts: Seq<Seq<char>>, needle: Seq<char>) -> bool {
    exists|i: int| 0 <= i < texts.len() && #[trigger] seq_contains(texts[i], needle)
}

/// Whether some plain message among `messages` contains `needle`.
pub fn messages_contain(messages: &Vec<Option<String>>, needle: &str) -> (r: bool)
    ensures
        r == any_contains(plain_texts(messages@), needle@),
{
    let mut parts: Vec<String> = Vec::new();
    push_plain_texts(&mut parts, messages);
    let mut i: usize = 0;
    while i < parts.len()
        invariant
            i <= parts@.len(),
            views(parts@) == plain_texts(messages@),
            forall|j: int| 0 <= j < i ==> !#[trigger] seq_contains(views(parts@)[j], needle@),
        decreases parts@.len() - i,
    {
        if str_contains(parts[i].as_str(), needle) {
            assert(seq_contains(views(parts@)[i as int], needle@));
            return true;
        }
        i = i + 1;
    }
    false
}

/// The placeholder context parameter the CGP macros generate.
pub const GENERATED_CONTEXT: &'static str = "__Context__";

/// Whether a message of the diagnostic or of one of its children names `needle`.
pub open spec fn diag_mentions_text(diag: Diag, needle: Seq<char>) -> bool {
    any_contains(plain_texts(diag.messages@), needle) || exists|c: int|
        0 <= c < diag.children@.len() && #[trigger] any_contains(
            plain_texts(diag.children@[c].messages@),
            needle,
        )
}

/// Whether any message of `diag` or of its children contains `needle`.
pub fn diag_contains(diag: &Diag, needle: &str) -> (r: bool)
    ensures
        r == diag_mentions_text(*diag, needle@),
{
    if messages_contain(&diag.messages, needle) {
        return true;
    }
    let mut c: usize = 0;
    while c < diag.children.len()
        invariant
            c <= diag.children@.len(),
            !any_contains(plain_texts(diag.messages@), needle@),
            forall|j: int|
                0 <= j < c ==> !#[trigger] any_contains(
                    plain_texts(diag.children@[j].messages@),
                    needle@,
                ),
        decreases diag.children@.len() - c,
    {
        if messages_contain(&diag.children[c].messages, needle) {
            return true;
        }
        c = c + 1;
    }
    false
}

/// Whether any message of `diag` or its children names the generated `__Context__` parameter —
/// the tell that an `E0308` mismatch is a macro-lowering cascade rather than a user's own type
/// error.
pub fn mentions_generated_context(diag: &Diag) -> (r: bool)
    ensures
        r == diag_mentions_text(*diag, GENERATED_CONTEXT@),
{
    diag_contains(diag, GENERATED_CONTEXT)
}

/// The first primary span, if any.
pub open spec fn spec_primary_span(span: MultiSpan) -> Option<Span> {
    if span.primary@.len() > 0 {
        Some(span.primary@[0])
    } else {
        None
    }
}

/// The diagnostic's first primary span, if any.
pub fn primary_span(span: &MultiSpan) -> (r: Option<Span>)
    ensures
        r == spec_primary_span(*span),
{
    if span.primary.len() > 0 {
        Some(span.primary[0])
    } else {
        None
    }
}

/// Whether `diag` is a sibling macro-lowering error of a `#[cgp_impl]` mistake whose impl body
/// is `impl_span` and whose macro call-site is `macro_span`.
pub open spec fn spec_is_cgp_impl_sibling(diag: Diag, impl_span: Span, macro_span: Span) -> bool {
    match spec_primary_span(diag.span) {
        None => false,
        Some(primary) => (impl_span.spec_overlaps(primary) || macro_span.spec_overlaps(primary))
            && (diag.code == Some(E0425) || diag.code == Some(E0186) || diag.code == Some(E0207)
            || (diag.code == Some(E0308) && diag_mentions_text(diag, GENERATED_CONTEXT@))),
    }
}

/// Whether `diag` is a sibling macro-lowering error of a `#[cgp_impl]` mistake — landing in the
/// impl body (`impl_span`) or at the macro call-site the synthesized tokens share
/// (`macro_span`). `E0425`/`E0186`/`E0207` there are always siblings; an `E0308` mismatch is one
/// only when it names the generated `__Context__`, so a user's own type error is never dropped.
pub fn is_cgp_impl_sibling(diag: &Diag, impl_span: &Span, macro_span: &Span) -> (r: bool)
    ensures
        r == spec_is_cgp_impl_sibling(*diag, *impl_span, *macro_span),
{
    let primary = match primary_span(&diag.span) {
        Some(p) => p,
        None => return false,
    };
    if !(impl_span.overlaps(&primary) || macro_span.overlaps(&primary)) {
        return false;
    }
    match diag.code {
        Some(c) => if c == E0425 || c == E0186 || c == E0207 {
            true
        } else if c == E0308 {
            mentions_generated_context(diag)
        } else {
            false
        },
        None => false,
    }
}

/// A message as plain values: its text, or `None` for a non-plain message.
pub open spec fn opt_view(m: Option<String>) -> Option<Seq<char>> {
    match m {
        Some(s) => Some(s@),
        None => None,
    }
}

/// A list of messages as plain values.
pub open spec fn msgs_view(ms: Seq<Option<String>>) -> Seq<Option<Seq<char>>> {
    ms.map_values(|m: Option<String>| opt_view(m))
}

/// A multi-span as plain values: its primary spans and its labels.
pub open spec fn multispan_view(m: MultiSpan) -> (Seq<Span>, Seq<(Span, Option<Seq<char>>)>) {
    (m.primary@, m.labels@.map_values(|l: Label| (l.span, opt_view(l.text))))
}

/// A sub-diagnostic as plain values.
pub open spec fn subdiag_view(s: Subdiag) -> (Level, Seq<Option<Seq<char>>>, (
    Seq<Span>,
    Seq<(Span, Option<Seq<char>>)>,
)) {
    (s.level, msgs_view(s.messages@), multispan_view(s.span))
}

/// A list of sub-diagnostics as plain values.
pub open spec fn children_view(c: Seq<Subdiag>) -> Seq<
    (Level, Seq<Option<Seq<char>>>, (Seq<Span>, Seq<(Span, Option<Seq<char>>)>)),
> {
    c.map_values(|s: Subdiag| subdiag_view(s))
}

/// A plain message after a text rewrite: replaced by the rewrite when the message is plain text
/// and a rewrite was given for it, unchanged otherwise (a non-plain message is never touched).
pub open spec fn rewritten(m: Option<Seq<char>>, rewrite: Option<Seq<char>>) -> Option<Seq<char>> {
    if m is Some && rewrite is Some {
        rewrite
    } else {
        m
    }
}

/// Whether applying `rewrites` to `texts` changes some plain text.
pub open spec fn rewrites_apply(texts: Seq<Option<Seq<char>>>, rewrites: Seq<Option<String>>) -> bool {
    exists|i: int| 0 <= i < texts.len() && texts[i] is Some && #[trigger] rewrites[i] is Some
}

/// Rewrite each plain-text message in place by its rewrite (`rewrites[i]` for `messages[i]`,
/// `None` to leave it), leaving non-plain messages untouched; returns whether any changed.
pub fn rewrite_messages(messages: &mut Vec<Option<String>>, rewrites: Vec<Option<String>>) -> (changed: bool)
    requires
        rewrites@.len() == old(messages)@.len(),
    ensures
        final(messages)@.len() == old(messages)@.len(),
        forall|i: int|
            0 <= i < old(messages)@.len() ==> opt_view(#[trigger] final(messages)@[i]) == rewritten(
                opt_view(old(messages)@[i]),
                opt_view(rewrites@[i]),
            ),
        changed == rewrites_apply(msgs_view(old(messages)@), rewrites@),
{
    let ghost before = msgs_view(messages@);
    let mut rest = rewrites;
    let ghost all = rest@;
    let n = messages.len();
    let mut changed = false;
    let mut i: usize = 0;
    assert(all.skip(0) =~= all);
    while i < n
        invariant
            n == messages@.len(),
            n == all.len(),
            before.len() == n,
            i <= n,
            rest@ == all.skip(i as int),
            forall|j: int| i <= j < n ==> opt_view(#[trigger] messages@[j]) == before[j],
            forall|j: int|
                0 <= j < i ==> opt_view(#[trigger] messages@[j]) == rewritten(before[j], opt_view(all[j])),
            changed == exists|j: int| 0 <= j < i && before[j] is Some && #[trigger] all[j] is Some,
        decreases n - i,
    {
        let rewrite = rest.remove(0);
        assert(rewrite == all[i as int]);
        assert(rest@ =~= all.skip(i + 1));
        let plain = messages[i].is_some();
        assert(plain == (before[i as int] is Some));
        match rewrite {
            Some(text) => {
                if plain {
                    messages.set(i, Some(text));
                    changed = true;
                }
            },
            None => {},
        }
        i = i + 1;
    }
    changed
}

/// Rewrite each plain-text span label in place by its rewrite (`rewrites[i]` for the `i`th
/// label), keeping every span, the primary spans in their order, and non-plain labels untouched;
/// returns whether any changed.
pub fn rewrite_labels(span: &mut MultiSpan, rewrites: Vec<Option<String>>) -> (changed: bool)
    requires
        rewrites@.len() == old(span).labels@.len(),
    ensures
        final(span).primary@ == old(span).primary@,
        final(span).labels@.len() == old(span).labels@.len(),
        forall|i: int|
            0 <= i < old(span).labels@.len() ==> (#[trigger] final(span).labels@[i]).span
                == old(span).labels@[i].span && opt_view(final(span).labels@[i].text) == rewritten(
                opt_view(old(span).labels@[i].text),
                opt_view(rewrites@[i]),
            ),
        changed == rewrites_apply(
            old(span).labels@.map_values(|l: Label| opt_view(l.text)),
            rewrites@,
        ),
{
    let ghost before = span.labels@;
    let ghost texts = before.map_values(|l: Label| opt_view(l.text));
    let mut rest = rewrites;
    let ghost all = rest@;
    let n = span.labels.len();
    let mut changed = false;
    let mut i: usize = 0;
    assert(all.skip(0) =~= all);
    while i < n
        invariant
            n == span.labels@.len(),
            n == all.len(),
            n == before.len(),
            texts == before.map_values(|l: Label| opt_view(l.text)),
            span.primary@ == old(span).primary@,
            before == old(span).labels@,
            i <= n,
            rest@ == all.skip(i as int),
            forall|j: int| i <= j < n ==> #[trigger] span.labels@[j] == before[j],
            forall|j: int|
                0 <= j < i ==> (#[trigger] span.labels@[j]).span == before[j].span && opt_view(
                    span.labels@[j].text,
                ) == rewritten(opt_view(before[j].text), opt_view(all[j])),
            changed == exists|j: int| 0 <= j < i && texts[j] is Some && #[trigger] all[j] is Some,
        decreases n - i,
    {
        let rewrite = rest.remove(0);
        assert(rewrite == all[i as int]);
        assert(rest@ =~= all.skip(i + 1));
        let plain = span.labels[i].text.is_some();
        assert(plain == (texts[i as int] is Some));
        match rewrite {
            Some(text) => {
                if plain {
                    let at = span.labels[i].span;
                    span.labels.set(i, Label { span: at, text: Some(text) });
                    changed = true;
                }
            },
            None => {},
        }
        i = i + 1;
    }
    changed
}

fn clone_message(m: &Option<String>) -> (r: Option<String>)
    ensures
        opt_view(r) == opt_view(*m),
{
    match m {
        Some(t) => Some(owned(t.as_str())),
        None => None,
    }
}

/// A copy of a list of messages.
pub fn clone_messages(ms: &Vec<Option<String>>) -> (r: Vec<Option<String>>)
    ensures
        msgs_view(r@) == msgs_view(ms@),
{
    let mut r: Vec<Option<String>> = Vec::new();
    let mut i: usize = 0;
    while i < ms.len()
        invariant
            i <= ms@.len(),
            msgs_view(r@) == msgs_view(ms@.take(i as int)),
        decreases ms@.len() - i,
    {
        let ghost before = r@;
        r.push(clone_message(&ms[i]));
        assert(msgs_view(r@) =~= msgs_view(before).push(opt_view(ms@[i as int])));
        assert(msgs_view(ms@.take(i + 1)) =~= msgs_view(ms@.take(i as int)).push(opt_view(ms@[i as int])));
        i = i + 1;
    }
    assert(ms@.take(i as int) =~= ms@);
    r
}

/// A copy of a multi-span.
pub fn clone_multispan(m: &MultiSpan) -> (r: MultiSpan)
    ensures
        multispan_view(r) == multispan_view(*m),
{
    let mut primary: Vec<Span> = Vec::new();
    let mut i: usize = 0;
    while i < m.primary.len()
        invariant
            i <= m.primary@.len(),
            primary@ == m.primary@.take(i as int),
        decreases m.primary@.len() - i,
    {
        primary.push(m.primary[i]);
        assert(primary@ =~= m.primary@.take(i + 1));
        i = i + 1;
    }
    assert(m.primary@.take(i as int) =~= m.primary@);
    let ghost lv = m.labels@.map_values(|l: Label| (l.span, opt_view(l.text)));
    let mut labels: Vec<Label> = Vec::new();
    let mut j: usize = 0;
    while j < m.labels.len()
        invariant
            j <= m.labels@.len(),
            lv == m.labels@.map_values(|l: Label| (l.span, opt_view(l.text))),
            labels@.map_values(|l: Label| (l.span, opt_view(l.text))) == lv.take(j as int),
        decreases m.labels@.len() - j,
    {
        let ghost before = labels@;
        let label = Label { span: m.labels[j].span, text: clone_message(&m.labels[j].text) };
        labels.push(label);
        assert(labels@.map_values(|l: Label| (l.span, opt_view(l.text))) =~= before.map_values(
            |l: Label| (l.span, opt_view(l.text)),
        ).push((label.span, opt_view(label.text))));
        assert(lv.take(j + 1) =~= lv.take(j as int).push(lv[j as int]));
        j = j + 1;
    }
    assert(lv.take(j as int) =~= lv);
    MultiSpan { primary, labels }
}

/// A copy of a list of sub-diagnostics.
pub fn clone_children(c: &Vec<Subdiag>) -> (r: Vec<Subdiag>)
    ensures
        children_view(r@) == children_view(c@),
{
    let mut r: Vec<Subdiag> = Vec::new();
    let mut i: usize = 0;
    while i < c.len()
        invariant
            i <= c@.len(),
            children_view(r@) == children_view(c@.take(i as int)),
        decreases c@.len() - i,
    {
        let ghost before = r@;
        let sub = Subdiag {
            level: c[i].level,
            messages: clone_messages(&c[i].messages),
            span: clone_multispan(&c[i].span),
        };
        r.push(sub);
        assert(children_view(r@) =~= children_view(before).push(subdiag_view(c@[i as int])));
        assert(children_view(c@.take(i + 1)) =~= children_view(c@.take(i as int)).push(
            subdiag_view(c@[i as int]),
        ));
        i = i + 1;
    }
    assert(c@.take(i as int) =~= c@);
    r
}

/// Build a plain-text sub-diagnostic with no span.
pub fn subdiag(level: Level, message: String) -> (r: Subdiag)
    ensures
        r.level == level,
        r.messages@.len() == 1,
        r.messages@[0] == Some(message),
        r.span.primary@.len() == 0,
        r.span.labels@.len() == 0,
{
    let mut messages: Vec<Option<String>> = Vec::new();
    messages.push(Some(message));
    Subdiag { level, messages, span: MultiSpan { primary: Vec::new(), labels: Vec::new() } }
}

/// Replace a diagnostic's main message with `header`, keeping its spans and their labels while
/// dropping its children and its structured suggestions: the header says what went wrong, the
/// kept carets say where.
pub fn replace_header(diag: &mut Diag, header: String)
    ensures
        final(diag).messages@.len() == 1,
        final(diag).messages@[0] == Some(header),
        final(diag).children@.len() == 0,
        !final(diag).suggestions,
        final(diag).span == old(diag).span,
        final(diag).code == old(diag).code,
        final(diag).level == old(diag).level,
{
    let mut messages: Vec<Option<String>> = Vec::new();
    messages.push(Some(header));
    diag.messages = messages;
    diag.children = Vec::new();
    diag.suggestions = false;
}

/// A diagnostic's signature ignores its spans and labels: two diagnostics with the same main and
/// child message texts have the same signature wherever they point, which is what lets a
/// re-report of one failure at another site be recognized.
pub proof fn law_signature_ignores_spans(a: Diag, b: Diag)
    requires
        plain_texts(a.messages@) == plain_texts(b.messages@),
        children_texts(a.children@) == children_texts(b.children@),
    ensures
        spec_message_signature(a) == spec_message_signature(b),
{
}

/// A user's own type error is never taken for a `#[cgp_impl]` cascade: an `E0308` that does not
/// name the generated `__Context__` is no sibling of any impl.
pub proof fn law_user_type_error_kept(diag: Diag, impl_span: Span, macro_span: Span)
    requires
        diag.code == Some(E0308),
        !diag_mentions_text(diag, GENERATED_CONTEXT@),
    ensures
        !spec_is_cgp_impl_sibling(diag, impl_span, macro_span),
{
}

} // verus!
