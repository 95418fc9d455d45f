//! The decisions of the diagnostic-rewriting emitter.
//!
//! The emitter sees every diagnostic of a compilation, one at a time, and holds them until the
//! end so that failures sharing a root cause can be coalesced. Its state is the buffer of held
//! diagnostics, the carets of the CGP failures it has recognized, and the `#[cgp_impl]`
//! header-trait mistakes found in the crate. Each decision below reads that state and one
//! arriving diagnostic; the compiler queries and the message wording that feed them are made by
//! the caller.

use vstd::prelude::*;

use crate::coalesce::{flush_plan, merged_carets, merged_spans, sig_views, spec_flush_plan};
use crate::config::{CAN_USE_COMPONENT_TRAIT, HAS_FIELD_TRAIT, IS_PROVIDER_FOR_TRAIT};
use crate::diag::{
    diag_contains, diag_kind, diag_mentions_text, is_cgp_impl_sibling, opt_view, primary_span,
    replace_header,
    spec_diag_kind, spec_is_cgp_impl_sibling, spec_primary_span, subdiag, Diag, DiagKind, Label,
    Level, MultiSpan, Span, Subdiag, E0107,
    E0186, E0207, E0271, E0275, E0277, E0308, E0425, E0599, any_contains, plain_texts,
    messages_contain,
};
use crate::footer::{footer_rebuilt, is_footer, rebuild_footer};
use crate::misuse::{CgpImplMisuse, DetectedCgpImplMisuse};
use crate::text::{owned, str_eq, views};

verus! {

/// What to do with a diagnostic of the burst a `#[cgp_impl]` header mistake produces.
#[derive(PartialEq, Eq, Structural)]
pub enum MisuseAction {
    /// Reshape this `E0107` into the coded header for the mistake at this index.
    Reshape { misuse: usize },
    /// Drop this diagnostic as a redundant consequence of the mistake.
    Suppress,
}

/// One held diagnostic.
pub enum BufEntry<R> {
    /// Emitted verbatim at its arrival position.
    Plain(Diag),
    /// A typed-resolution failure whose root-cause note is rendered at flush. `sig` is the
    /// cause-only signature of a consumer-trait failure, which coalesces with the others of the
    /// same signature; `None` for a resolution that is emitted on its own.
    Resolved { sig: Option<String>, diag: Diag, resolution: R },
}

/// The coalescing signature of a held entry.
pub open spec fn entry_sig<R>(e: BufEntry<R>) -> Option<String> {
    match e {
        BufEntry::Plain(_) => None,
        BufEntry::Resolved { sig, .. } => sig,
    }
}

/// The diagnostic of a held entry.
pub open spec fn entry_diag<R>(e: BufEntry<R>) -> Diag {
    match e {
        BufEntry::Plain(d) => d,
        BufEntry::Resolved { diag, .. } => diag,
    }
}

/// Whether a held entry is a verbatim sibling of the impl at `(impl_span, macro_span)`.
pub open spec fn is_sibling_entry<R>(e: BufEntry<R>, impl_span: Span, macro_span: Span) -> bool {
    match e {
        BufEntry::Plain(d) => spec_is_cgp_impl_sibling(d, impl_span, macro_span),
        BufEntry::Resolved { .. } => false,
    }
}

/// The emitter's state across one compilation.
pub struct EmitterState<R> {
    /// Every diagnostic kept so far, in arrival order.
    pub buffer: Vec<BufEntry<R>>,
    /// The primary spans of every CGP failure recognized so far.
    pub cgp_spans: Vec<Span>,
    /// The crate's `#[cgp_impl]` header mistakes: `None` until detected, empty when there are
    /// none.
    pub misuses: Option<Vec<DetectedCgpImplMisuse>>,
}

/// Whether some primary span of `diag` overlaps one of `seen`.
pub open spec fn overlaps_any(primary: Seq<Span>, seen: Seq<Span>) -> bool {
    exists|p: int, s: int|
        0 <= p < primary.len() && 0 <= s < seen.len() && #[trigger] seen[s].spec_overlaps(
            #[trigger] primary[p],
        )
}

/// The first misuse whose misused trait name the caret `primary` sits on.
pub open spec fn first_misuse_at(ms: Seq<DetectedCgpImplMisuse>, primary: Span, n: int) -> Option<int>
    decreases n,
{
    if n <= 0 || n > ms.len() {
        None
    } else {
        match first_misuse_at(ms, primary, n - 1) {
            Some(k) => Some(k),
            None => if ms[n - 1].trait_ref_span.spec_overlaps(primary) {
                Some(n - 1)
            } else {
                None
            },
        }
    }
}

/// The action for a diagnostic of a `#[cgp_impl]` mistake's burst, when the mistakes `misuses`
/// are known.
pub open spec fn spec_misuse_action(misuses: Option<Vec<DetectedCgpImplMisuse>>, diag: Diag) -> Option<
    MisuseAction,
> {
    match misuses {
        None => None,
        Some(ms) => if ms@.len() == 0 {
            None
        } else {
            match spec_primary_span(diag.span) {
                None => None,
                Some(p) => if diag.code == Some(E0107) && first_misuse_at(
                    ms@,
                    p,
                    ms@.len() as int,
                ) is Some {
                    Some(
                        MisuseAction::Reshape {
                            misuse: first_misuse_at(ms@, p, ms@.len() as int).unwrap() as usize,
                        },
                    )
                } else if exists|k: int|
                    0 <= k < ms@.len() && #[trigger] spec_is_cgp_impl_sibling(
                        diag,
                        ms@[k].impl_span,
                        ms@[k].macro_span,
                    ) {
                    Some(MisuseAction::Suppress)
                } else {
                    None
                },
            }
        },
    }
}

/// Whether the mistake `site` is a consumer-trait header on the provider struct `provider`
/// that should have named the provider trait `provider_trait`.
pub open spec fn misuse_names(site: DetectedCgpImplMisuse, provider: Seq<char>, provider_trait: Seq<char>) -> bool {
    site.misuse matches CgpImplMisuse::ConsumerTrait { provider: t, .. } && site.self_ty@ == provider
        && t@ == provider_trait
}

/// The error codes of the held diagnostics, in order.
pub open spec fn held_codes<R>(buffer: Seq<BufEntry<R>>) -> Seq<Option<u32>> {
    buffer.map_values(|e: BufEntry<R>| entry_diag(e).code)
}

/// Whether the cause leaves `leaves` (a provider struct and the provider trait it fails to
/// implement, for each cause that bottoms out on a non-provider; `None` for any other cause) are
/// all the downstream re-report of a detected consumer-trait `#[cgp_impl]` mistake.
pub open spec fn spec_is_misuse_report(
    misuses: Option<Vec<DetectedCgpImplMisuse>>,
    leaves: Seq<Option<(String, String)>>,
) -> bool {
    match misuses {
        None => false,
        Some(ms) => ms@.len() > 0 && leaves.len() > 0 && forall|i: int|
            0 <= i < leaves.len() ==> (#[trigger] leaves[i] matches Some(l) && exists|k: int|
                0 <= k < ms@.len() && #[trigger] misuse_names(ms@[k], l.0@, l.1@)),
    }
}

impl<R> EmitterState<R> {
    /// A fresh state: nothing held, nothing recognized, the mistakes not yet detected.
    pub fn new() -> (r: Self)
        ensures
            r.buffer@.len() == 0,
            r.cgp_spans@.len() == 0,
            r.misuses is None,
    {
        EmitterState { buffer: Vec::new(), cgp_spans: Vec::new(), misuses: None }
    }

    /// Record the primary spans of a recognized CGP failure, so that a later `?`-operator
    /// cascade on the same expression can be dropped.
    pub fn record_cgp_spans(&mut self, diag: &Diag)
        ensures
            final(self).cgp_spans@ == old(self).cgp_spans@ + diag.span.primary@,
            final(self).buffer == old(self).buffer,
            final(self).misuses == old(self).misuses,
    {
        let mut i: usize = 0;
        let ghost start = self.cgp_spans@;
        while i < diag.span.primary.len()
            invariant
                i <= diag.span.primary@.len(),
                self.cgp_spans@ == start + diag.span.primary@.take(i as int),
                self.buffer == old(self).buffer,
                self.misuses == old(self).misuses,
                start == old(self).cgp_spans@,
            decreases diag.span.primary@.len() - i,
        {
            self.cgp_spans.push(diag.span.primary[i]);
            assert(start + diag.span.primary@.take(i + 1) =~= (start + diag.span.primary@.take(
                i as int,
            )).push(diag.span.primary@[i as int]));
            i = i + 1;
        }
        assert(diag.span.primary@.take(i as int) =~= diag.span.primary@);
    }

    /// Whether `diag` sits on an expression where a CGP failure was already reported: one of its
    /// primary spans overlaps a recorded one.
    pub fn overlaps_cgp_failure(&self, diag: &Diag) -> (r: bool)
        ensures
            r == overlaps_any(diag.span.primary@, self.cgp_spans@),
    {
        let mut p: usize = 0;
        while p < diag.span.primary.len()
            invariant
                p <= diag.span.primary@.len(),
                forall|a: int, s: int|
                    0 <= a < p && 0 <= s < self.cgp_spans@.len() ==> !#[trigger] self.cgp_spans@[s].spec_overlaps(
                        #[trigger] diag.span.primary@[a],
                    ),
            decreases diag.span.primary@.len() - p,
        {
            let mut s: usize = 0;
            while s < self.cgp_spans.len()
                invariant
                    s <= self.cgp_spans@.len(),
                    p < diag.span.primary@.len(),
                    forall|a: int, t: int|
                        0 <= a < p && 0 <= t < self.cgp_spans@.len() ==> !#[trigger] self.cgp_spans@[t].spec_overlaps(
                            #[trigger] diag.span.primary@[a],
                        ),
                    forall|t: int|
                        0 <= t < s ==> !#[trigger] self.cgp_spans@[t].spec_overlaps(
                            diag.span.primary@[p as int],
                        ),
                decreases self.cgp_spans@.len() - s,
            {
                if self.cgp_spans[s].overlaps(&diag.span.primary[p]) {
                    return true;
                }
                s = s + 1;
            }
            p = p + 1;
        }
        false
    }

    /// Remember the crate's `#[cgp_impl]` mistakes, detected once: a later detection does not
    /// replace the first.
    pub fn remember_misuses(&mut self, detected: Vec<DetectedCgpImplMisuse>)
        ensures
            final(self).misuses == (if old(self).misuses is None {
                Some(detected)
            } else {
                old(self).misuses
            }),
            final(self).buffer == old(self).buffer,
            final(self).cgp_spans == old(self).cgp_spans,
    {
        if self.misuses.is_none() {
            self.misuses = Some(detected);
        }
    }

    /// The action for a diagnostic in the burst a `#[cgp_impl]` header mistake produces:
    /// reshape the `E0107` whose caret sits on the misused trait name (the first such mistake),
    /// or suppress a sibling macro-lowering error landing inside a mistake's impl. `None` for
    /// anything unrelated, and while no mistake is known.
    pub fn misuse_action(&self, diag: &Diag) -> (r: Option<MisuseAction>)
        ensures
            r == spec_misuse_action(self.misuses, *diag),
    {
        let ms = match &self.misuses {
            Some(ms) => ms,
            None => return None,
        };
        assert(self.misuses == Some(*ms));
        if ms.len() == 0 {
            return None;
        }
        let primary = match primary_span(&diag.span) {
            Some(p) => p,
            None => return None,
        };
        let is_e0107 = match diag.code {
            Some(c) => c == E0107,
            None => false,
        };
        if is_e0107 {
            let mut k: usize = 0;
            while k < ms.len()
                invariant
                    k <= ms@.len(),
                    first_misuse_at(ms@, primary, k as int) is None,
                    spec_primary_span(diag.span) == Some(primary),
                    diag.code == Some(E0107),
                    self.misuses == Some(*ms),
                decreases ms@.len() - k,
            {
                if ms[k].trait_ref_span.overlaps(&primary) {
                    assert(first_misuse_at(ms@, primary, k + 1) == Some(k as int));
                    proof {
                        lemma_first_misuse_stable(ms@, primary, k + 1, ms@.len() as int);
                    }
                    return Some(MisuseAction::Reshape { misuse: k });
                }
                k = k + 1;
            }
        }
        let mut k: usize = 0;
        while k < ms.len()
            invariant
                k <= ms@.len(),
                spec_primary_span(diag.span) == Some(primary),
                self.misuses == Some(*ms),
                ms@.len() > 0,
                diag.code == Some(E0107) ==> first_misuse_at(ms@, primary, ms@.len() as int) is None,
                forall|j: int|
                    0 <= j < k ==> !#[trigger] spec_is_cgp_impl_sibling(
                        *diag,
                        ms@[j].impl_span,
                        ms@[j].macro_span,
                    ),
            decreases ms@.len() - k,
        {
            if is_cgp_impl_sibling(diag, &ms[k].impl_span, &ms[k].macro_span) {
                assert(spec_is_cgp_impl_sibling(*diag, ms@[k as int].impl_span, ms@[k as int].macro_span));
                return Some(MisuseAction::Suppress);
            }
            k = k + 1;
        }
        None
    }

    /// Hold the reshaped `E0107` of the mistake at index `misuse`: drop every verbatim sibling of
    /// that impl already held (a name-resolution `E0425` can arrive before the `E0107` that
    /// recognizes the mistake), record its carets, and hold it. Returns, for each entry held
    /// before, whether it stays.
    pub fn push_reshaped(&mut self, diag: Diag, misuse: usize) -> (keep: Vec<bool>)
        requires
            old(self).misuses matches Some(ms) && misuse < ms@.len(),
        ensures
            keep@.len() == old(self).buffer@.len(),
            forall|i: int|
                0 <= i < keep@.len() ==> #[trigger] keep@[i] == !is_sibling_entry(
                    old(self).buffer@[i],
                    old(self).misuses.unwrap()@[misuse as int].impl_span,
                    old(self).misuses.unwrap()@[misuse as int].macro_span,
                ),
            ({
                let ms = old(self).misuses.unwrap()@;
                let site = ms[misuse as int];
                let kept = old(self).buffer@.filter(
                    |e: BufEntry<R>| !is_sibling_entry(e, site.impl_span, site.macro_span),
                );
                &&& final(self).buffer@.len() == kept.len() + 1
                &&& final(self).buffer@.take(kept.len() as int) == kept
                &&& final(self).buffer@.last() == BufEntry::<R>::Plain(diag)
            }),
            final(self).cgp_spans@ == old(self).cgp_spans@ + diag.span.primary@,
            final(self).misuses == old(self).misuses,
    {
        let ghost ms = self.misuses.unwrap()@;
        let (impl_span, macro_span) = match &self.misuses {
            Some(ms) => (ms[misuse].impl_span, ms[misuse].macro_span),
            None => (Span { lo: 0, hi: 0, ctxt: 0 }, Span { lo: 0, hi: 0, ctxt: 0 }),
        };
        let ghost old_buffer = self.buffer@;
        let total = self.buffer.len();
        let ghost keep = |e: BufEntry<R>| !is_sibling_entry(e, impl_span, macro_span);
        let mut rest: Vec<BufEntry<R>> = Vec::new();
        std::mem::swap(&mut rest, &mut self.buffer);
        let mut kept: Vec<BufEntry<R>> = Vec::new();
        let mut flags: Vec<bool> = Vec::new();
        let mut i: usize = 0;
        assert(old_buffer.skip(0) =~= old_buffer);
        while rest.len() > 0
            invariant
                i <= old_buffer.len(),
                old_buffer.len() == total,
                rest@ == old_buffer.skip(i as int),
                kept@ == old_buffer.take(i as int).filter(keep),
                keep == (|e: BufEntry<R>| !is_sibling_entry(e, impl_span, macro_span)),
                flags@.len() == i,
                forall|j: int| 0 <= j < i ==> #[trigger] flags@[j] == !is_sibling_entry(old_buffer[j], impl_span, macro_span),
            decreases rest@.len(),
        {
            let e = rest.remove(0);
            assert(e == old_buffer[i as int]);
            assert(rest@ =~= old_buffer.skip(i + 1));
            let sibling = match &e {
                BufEntry::Plain(d) => is_cgp_impl_sibling(d, &impl_span, &macro_span),
                BufEntry::Resolved { .. } => false,
            };
            assert(sibling == is_sibling_entry(e, impl_span, macro_span));
            assert(old_buffer.take(i + 1).drop_last() =~= old_buffer.take(i as int));
            flags.push(!sibling);
            if !sibling {
                kept.push(e);
            }
            assert(old_buffer.take(i + 1).filter(keep) == if keep(old_buffer[i as int]) {
                old_buffer.take(i as int).filter(keep).push(old_buffer[i as int])
            } else {
                old_buffer.take(i as int).filter(keep)
            }) by {
                reveal(Seq::filter);
                assert(old_buffer.take(i + 1).last() == old_buffer[i as int]);
            }
            i = i + 1;
        }
        assert(old_buffer.take(i as int) =~= old_buffer);
        self.buffer = kept;
        self.record_cgp_spans(&diag);
        self.buffer.push(BufEntry::Plain(diag));
        flags
    }

    /// Whether a resolved failure whose causes have the leaves `leaves` is the downstream check
    /// re-report of a detected consumer-trait `#[cgp_impl]` mistake: every cause is a provider
    /// struct failing to be a provider, naming a mistake's struct and the provider trait its
    /// header should have named. Such a failure is a pure consequence of the mistake already
    /// reported, so it is dropped.
    pub fn is_misuse_report(&self, leaves: &Vec<Option<(String, String)>>) -> (r: bool)
        ensures
            r == spec_is_misuse_report(self.misuses, leaves@),
    {
        let ms = match &self.misuses {
            Some(ms) => ms,
            None => return false,
        };
        if ms.len() == 0 || leaves.len() == 0 {
            return false;
        }
        let mut i: usize = 0;
        while i < leaves.len()
            invariant
                i <= leaves@.len(),
                self.misuses == Some(*ms),
                forall|j: int|
                    0 <= j < i ==> (#[trigger] leaves@[j] matches Some(l) && exists|k: int|
                        0 <= k < ms@.len() && #[trigger] misuse_names(ms@[k], l.0@, l.1@)),
            decreases leaves@.len() - i,
        {
            let (provider, provider_trait) = match &leaves[i] {
                Some(l) => (l.0.as_str(), l.1.as_str()),
                None => return false,
            };
            let mut found = false;
            let mut k: usize = 0;
            while k < ms.len() && !found
                invariant
                    k <= ms@.len(),
                    i < leaves@.len(),
                    leaves@[i as int] matches Some(l) && l.0@ == provider@ && l.1@ == provider_trait@,
                    found ==> exists|k2: int|
                        0 <= k2 < ms@.len() && #[trigger] misuse_names(ms@[k2], provider@, provider_trait@),
                    !found ==> forall|k2: int|
                        0 <= k2 < k ==> !#[trigger] misuse_names(ms@[k2], provider@, provider_trait@),
                decreases ms@.len() - k,
            {
                match &ms[k].misuse {
                    CgpImplMisuse::ConsumerTrait { provider: t, .. } => {
                        if str_eq(provider, ms[k].self_ty.as_str()) && str_eq(
                            provider_trait,
                            t.as_str(),
                        ) {
                            assert(misuse_names(ms@[k as int], provider@, provider_trait@));
                            found = true;
                        }
                    },
                    _ => {},
                }
                k = k + 1;
            }
            if !found {
                return false;
            }
            i = i + 1;
        }
        true
    }

    /// The error codes of the held diagnostics, in order.
    pub fn held_codes(&self) -> (r: Vec<Option<u32>>)
        ensures
            r@ == held_codes(self.buffer@),
    {
        let mut r: Vec<Option<u32>> = Vec::new();
        let mut i: usize = 0;
        while i < self.buffer.len()
            invariant
                i <= self.buffer@.len(),
                r@ == held_codes(self.buffer@).take(i as int),
            decreases self.buffer@.len() - i,
        {
            let code = match &self.buffer[i] {
                BufEntry::Plain(d) => d.code,
                BufEntry::Resolved { diag, .. } => diag.code,
            };
            r.push(code);
            assert(r@ =~= held_codes(self.buffer@).take(i + 1));
            i = i + 1;
        }
        assert(held_codes(self.buffer@).take(i as int) =~= held_codes(self.buffer@));
        r
    }

    /// The replacement for the trailing "detailed explanations" footer when the crate had a
    /// `#[cgp_impl]` header mistake, built from the codes of the diagnostics still held (see
    /// [`rebuild_footer`]). `None` when `diag` is not a footer line or no mistake is known, so
    /// no output without the mistake is touched.
    pub fn footer_replacement(&self, diag: &Diag) -> (r: Option<Vec<Diag>>)
        ensures
            match r {
                None => !(self.misuses matches Some(ms) && ms@.len() > 0) || !is_footer(*diag),
                Some(v) => self.misuses matches Some(ms) && ms@.len() > 0 && is_footer(*diag)
                    && footer_rebuilt(v@, *diag, held_codes(self.buffer@)),
            },
    {
        match &self.misuses {
            Some(ms) => {
                if ms.len() == 0 {
                    return None;
                }
            },
            None => return None,
        }
        let codes = self.held_codes();
        rebuild_footer(diag, &codes)
    }

    /// Settle an arriving diagnostic once it has been transformed (`rewritten`: the tool
    /// constructed or rewrote its text) or left alone. A rewritten failure has its carets
    /// recorded; an untouched `?`-operator cascade (`cascade`) sitting on a recorded CGP failure is
    /// dropped, as it only restates that failure; a rewritten diagnostic the de-duplication ledger
    /// already holds (`duplicate`) is a re-report of a mistake already shown and is dropped. What
    /// is kept is held — as a resolution (with its coalescing signature) when it carries one,
    /// verbatim otherwise. Returns whether it was kept.
    pub fn settle(
        &mut self,
        diag: Diag,
        rewritten: bool,
        cascade: bool,
        duplicate: bool,
        resolution: Option<(R, Option<String>)>,
    ) -> (kept: bool)
        ensures
            kept == spec_settle_kept(
                rewritten,
                cascade,
                duplicate,
                overlaps_any(diag.span.primary@, old(self).cgp_spans@),
            ),
            final(self).cgp_spans@ == if rewritten {
                old(self).cgp_spans@ + diag.span.primary@
            } else {
                old(self).cgp_spans@
            },
            final(self).misuses == old(self).misuses,
            kept ==> final(self).buffer@ == old(self).buffer@.push(
                match resolution {
                    Some((r, sig)) => BufEntry::Resolved { sig, diag, resolution: r },
                    None => BufEntry::Plain(diag),
                },
            ),
            !kept ==> final(self).buffer@ == old(self).buffer@,
    {
        if rewritten {
            self.record_cgp_spans(&diag);
        } else if cascade && self.overlaps_cgp_failure(&diag) {
            return false;
        }
        if rewritten && duplicate {
            return false;
        }
        match resolution {
            Some((r, sig)) => self.buffer.push(BufEntry::Resolved { sig, diag, resolution: r }),
            None => self.buffer.push(BufEntry::Plain(diag)),
        }
        true
    }

    /// Hold a diagnostic to be emitted verbatim at its arrival position.
    pub fn push_plain(&mut self, diag: Diag)
        ensures
            final(self).buffer@ == old(self).buffer@.push(BufEntry::Plain(diag)),
            final(self).cgp_spans == old(self).cgp_spans,
            final(self).misuses == old(self).misuses,
    {
        self.buffer.push(BufEntry::Plain(diag));
    }

    /// The coalescing signatures of the held entries, in order.
    fn held_sigs(&self) -> (r: Vec<Option<String>>)
        ensures
            sig_views(r@) == sig_views(self.buffer@.map_values(|e: BufEntry<R>| entry_sig(e))),
    {
        let ghost want = sig_views(self.buffer@.map_values(|e: BufEntry<R>| entry_sig(e)));
        let mut r: Vec<Option<String>> = Vec::new();
        let mut i: usize = 0;
        while i < self.buffer.len()
            invariant
                i <= self.buffer@.len(),
                want == sig_views(self.buffer@.map_values(|e: BufEntry<R>| entry_sig(e))),
                sig_views(r@) == want.take(i as int),
            decreases self.buffer@.len() - i,
        {
            let sig = match &self.buffer[i] {
                BufEntry::Plain(_) => None,
                BufEntry::Resolved { sig, .. } => match sig {
                    Some(s) => Some(owned(s.as_str())),
                    None => None,
                },
            };
            let ghost before = r@;
            r.push(sig);
            assert(opt_view(sig) == want[i as int]);
            assert(sig_views(r@) =~= sig_views(before).push(opt_view(sig)));
            assert(want.take(i + 1) =~= want.take(i as int).push(want[i as int]));
            i = i + 1;
        }
        assert(want.take(i as int) =~= want);
        r
    }

    /// The blocks the held diagnostics are flushed as (see [`flush_plan`]).
    pub fn plan_flush(&self) -> (r: Vec<Vec<usize>>)
        ensures
            r@.map_values(|v: Vec<usize>| v@) == spec_flush_plan(
                sig_views(self.buffer@.map_values(|e: BufEntry<R>| entry_sig(e))),
                self.buffer@.len() as int,
            ),
    {
        let sigs = self.held_sigs();
        flush_plan(&sigs)
    }
}

/// Whether `subs` are span-less plain sub-diagnostics at `level` holding `texts`, in order.
pub open spec fn plain_subdiags(subs: Seq<Subdiag>, level: Level, texts: Seq<Seq<char>>) -> bool {
    &&& subs.len() == texts.len()
    &&& forall|i: int|
        0 <= i < subs.len() ==> {
            let s = #[trigger] subs[i];
            &&& s.level == level
            &&& s.messages@.len() == 1
            &&& s.messages@[0] matches Some(t) && t@ == texts[i]
            &&& s.span.primary@.len() == 0
            &&& s.span.labels@.len() == 0
        }
}

/// Append one span-less plain sub-diagnostic per text.
fn push_subdiags(children: &mut Vec<Subdiag>, level: Level, texts: Vec<String>)
    ensures
        final(children)@.take(old(children)@.len() as int) == old(children)@,
        final(children)@.len() == old(children)@.len() + texts@.len(),
        plain_subdiags(final(children)@.skip(old(children)@.len() as int), level, views(texts@)),
{
    let ghost start = children@;
    let ghost orig = texts@;
    let ghost want = views(texts@);
    let n = texts.len();
    let mut rest = texts;
    let mut k: usize = 0;
    assert(orig.skip(0) =~= orig);
    while rest.len() > 0
        invariant
            n == orig.len(),
            want == views(orig),
            k <= n,
            rest@ == orig.skip(k as int),
            children@.len() == start.len() + k,
            children@.take(start.len() as int) == start,
            plain_subdiags(children@.skip(start.len() as int), level, want.take(k as int)),
        decreases rest@.len(),
    {
        let t = rest.remove(0);
        assert(t == orig[k as int]);
        assert(rest@ =~= orig.skip(k + 1));
        let ghost before = children@;
        children.push(subdiag(level, t));
        assert(children@.take(start.len() as int) =~= before.take(start.len() as int));
        assert(children@.skip(start.len() as int) =~= before.skip(start.len() as int).push(children@.last()));
        assert(want.take(k + 1) =~= want.take(k as int).push(want[k as int]));
        k = k + 1;
    }
    assert(want.take(k as int) =~= want);
}

/// The one merged block for a coalesced group of consumer failures sharing a root cause: the
/// first member's diagnostic, headed by `header` (listing every affected consumer), with one
/// caret per member (`members` holds each member's first primary span), the derive `helps`
/// and the root-cause `notes` as its only children, and no suggestions.
pub fn merged_block(
    template: &Diag,
    members: &Vec<Option<Span>>,
    header: String,
    helps: Vec<String>,
    notes: Vec<String>,
) -> (r: Diag)
    ensures
        r.level == template.level,
        r.code == template.code,
        r.messages@.len() == 1,
        r.messages@[0] == Some(header),
        r.span.primary@ == merged_carets(members@, members@.len() as int),
        r.span.labels@.len() == 0,
        !r.suggestions,
        r.children@.len() == helps@.len() + notes@.len(),
        plain_subdiags(r.children@.take(helps@.len() as int), Level::Help, views(helps@)),
        plain_subdiags(r.children@.skip(helps@.len() as int), Level::Note, views(notes@)),
{
    let mut children: Vec<Subdiag> = Vec::new();
    let ghost hv = views(helps@);
    let ghost nv = views(notes@);
    let hn = helps.len();
    push_subdiags(&mut children, Level::Help, helps);
    assert(children@.skip(0) =~= children@);
    let ghost after_helps = children@;
    push_subdiags(&mut children, Level::Note, notes);
    assert(children@.take(hn as int) =~= after_helps);
    let mut messages: Vec<Option<String>> = Vec::new();
    messages.push(Some(header));
    Diag {
        level: template.level,
        code: template.code,
        messages,
        span: MultiSpan { primary: merged_spans(members), labels: Vec::new() },
        children,
        suggestions: false,
    }
}

/// Reword a recognized CGP failure around its caret: `header` replaces its messages, its spans
/// shrink to its first primary span (the original labels restate the replaced message), and
/// `help` carrying the fix becomes its only child; the compiler's suggestions are dropped.
pub fn reword_at_caret(diag: &mut Diag, header: String, help: String)
    ensures
        final(diag).level == old(diag).level,
        final(diag).code == old(diag).code,
        final(diag).messages@ == seq![Some(header)],
        final(diag).span.primary@ == match spec_primary_span(old(diag).span) {
            Some(p) => seq![p],
            None => old(diag).span.primary@,
        },
        spec_primary_span(old(diag).span) is Some ==> final(diag).span.labels@.len() == 0,
        plain_subdiags(final(diag).children@, Level::Help, seq![help@]),
        !final(diag).suggestions,
{
    let primary = primary_span(&diag.span);
    replace_header(diag, header);
    if let Some(p) = primary {
        let mut carets: Vec<Span> = Vec::new();
        carets.push(p);
        diag.span = MultiSpan { primary: carets, labels: Vec::new() };
    }
    let ghost h = help@;
    diag.children.push(subdiag(Level::Help, help));
    assert(views(seq![help]) =~= seq![h]);
}

/// Reword a duplicate-key conflict: `header` replaces its messages while rustc's carets (the
/// two colliding entries) are kept, and a redirect collision's fix rides in a `help`.
pub fn reword_keeping_carets(diag: &mut Diag, header: String, help: Option<String>)
    ensures
        final(diag).level == old(diag).level,
        final(diag).code == old(diag).code,
        final(diag).messages@ == seq![Some(header)],
        final(diag).span == old(diag).span,
        match help {
            Some(h) => plain_subdiags(final(diag).children@, Level::Help, seq![h@]),
            None => final(diag).children@.len() == 0,
        },
        !final(diag).suggestions,
{
    replace_header(diag, header);
    if let Some(h) = help {
        diag.children.push(subdiag(Level::Help, h));
    }
}

/// The spans a multi-span's labels stand on, as the compiler lists them: every labelled span,
/// then each primary span that carries no label of its own.
pub open spec fn spec_span_labels(m: MultiSpan) -> Seq<Span> {
    let labelled = m.labels@.map_values(|l: Label| l.span);
    labelled + m.primary@.filter(|p: Span| !labelled.contains(p))
}

/// The spans a multi-span's labels stand on: every labelled span, then each primary span that
/// carries no label.
pub fn span_labels(m: &MultiSpan) -> (r: Vec<Span>)
    ensures
        r@ == spec_span_labels(*m),
{
    let ghost labelled = m.labels@.map_values(|l: Label| l.span);
    let mut r: Vec<Span> = Vec::new();
    let mut i: usize = 0;
    while i < m.labels.len()
        invariant
            i <= m.labels@.len(),
            labelled == m.labels@.map_values(|l: Label| l.span),
            r@ == labelled.take(i as int),
        decreases m.labels@.len() - i,
    {
        r.push(m.labels[i].span);
        assert(r@ =~= labelled.take(i + 1));
        i = i + 1;
    }
    assert(labelled.take(i as int) =~= labelled);
    let n = r.len();
    let ghost keep = |p: Span| !labelled.contains(p);
    let mut j: usize = 0;
    while j < m.primary.len()
        invariant
            j <= m.primary@.len(),
            labelled == m.labels@.map_values(|l: Label| l.span),
            keep == (|p: Span| !labelled.contains(p)),
            n == labelled.len(),
            r@ == labelled + m.primary@.take(j as int).filter(keep),
        decreases m.primary@.len() - j,
    {
        let p = m.primary[j];
        let mut labelled_here = false;
        let mut k: usize = 0;
        while k < m.labels.len()
            invariant
                k <= m.labels@.len(),
                labelled == m.labels@.map_values(|l: Label| l.span),
                labelled_here == exists|a: int| 0 <= a < k && #[trigger] labelled[a] == p,
            decreases m.labels@.len() - k,
        {
            assert(labelled[k as int] == m.labels@[k as int].span);
            if m.labels[k].span == p {
                labelled_here = true;
            }
            k = k + 1;
        }
        assert(labelled_here == labelled.contains(p));
        let ghost before = r@;
        if !labelled_here {
            r.push(p);
        }
        assert(m.primary@.take(j + 1).filter(keep) == if keep(p) {
            m.primary@.take(j as int).filter(keep).push(p)
        } else {
            m.primary@.take(j as int).filter(keep)
        }) by {
            reveal(Seq::filter);
            assert(m.primary@.take(j + 1).drop_last() =~= m.primary@.take(j as int));
            assert(m.primary@.take(j + 1).last() == p);
        }
        assert(r@ =~= labelled + m.primary@.take(j + 1).filter(keep));
        j = j + 1;
    }
    assert(m.primary@.take(j as int) =~= m.primary@);
    r
}

/// Every span a diagnostic carries: its primary and labelled spans, then each child's.
pub open spec fn spec_diagnostic_spans(diag: Diag) -> Seq<Span> {
    diag.span.primary@ + spec_span_labels(diag.span) + children_spans(diag.children@)
}

/// The primary and labelled spans of each child, child by child.
pub open spec fn children_spans(children: Seq<Subdiag>) -> Seq<Span>
    decreases children.len(),
{
    if children.len() == 0 {
        Seq::empty()
    } else {
        children_spans(children.drop_last()) + children.last().span.primary@ + spec_span_labels(
            children.last().span,
        )
    }
}

/// Append `extra` to `out`.
fn extend_spans(out: &mut Vec<Span>, extra: &Vec<Span>)
    ensures
        final(out)@ == old(out)@ + extra@,
{
    let mut i: usize = 0;
    while i < extra.len()
        invariant
            i <= extra@.len(),
            out@ == old(out)@ + extra@.take(i as int),
        decreases extra@.len() - i,
    {
        out.push(extra[i]);
        assert(out@ =~= old(out)@ + extra@.take(i + 1));
        i = i + 1;
    }
    assert(extra@.take(i as int) =~= extra@);
}

/// Every span a diagnostic carries — its primary and labelled spans plus each child's — the
/// pool the use-site resolver searches for one landing on the failing context's definition.
pub fn diagnostic_spans(diag: &Diag) -> (r: Vec<Span>)
    ensures
        r@ == spec_diagnostic_spans(*diag),
{
    let mut r: Vec<Span> = Vec::new();
    extend_spans(&mut r, &diag.span.primary);
    let labels = span_labels(&diag.span);
    extend_spans(&mut r, &labels);
    let ghost head = r@;
    assert(head =~= diag.span.primary@ + spec_span_labels(diag.span));
    let mut c: usize = 0;
    while c < diag.children.len()
        invariant
            c <= diag.children@.len(),
            head == diag.span.primary@ + spec_span_labels(diag.span),
            r@ == head + children_spans(diag.children@.take(c as int)),
        decreases diag.children@.len() - c,
    {
        assert(diag.children@.take(c + 1).drop_last() =~= diag.children@.take(c as int));
        let ghost before = r@;
        extend_spans(&mut r, &diag.children[c].span.primary);
        let child_labels = span_labels(&diag.children[c].span);
        extend_spans(&mut r, &child_labels);
        assert(r@ =~= head + children_spans(diag.children@.take(c + 1)));
        c = c + 1;
    }
    assert(diag.children@.take(c as int) =~= diag.children@);
    r
}

/// Apply a resolved failure's plan to its diagnostic: a coded `header`, when the plan carries
/// one, replaces the main message and re-aims the caret at the failing entry (`span`) alone;
/// the plan's derive `helps` replace the compiler's sub-messages; the compiler's suggestions
/// are dropped. The root-cause note is appended at flush.
pub fn apply_resolution_plan(diag: &mut Diag, header: Option<String>, span: Span, helps: Vec<String>)
    ensures
        final(diag).level == old(diag).level,
        final(diag).code == old(diag).code,
        match header {
            Some(h) => final(diag).messages@ == seq![Some(h)] && final(diag).span.primary@ == seq![span]
                && final(diag).span.labels@.len() == 0,
            None => final(diag).messages == old(diag).messages && final(diag).span == old(diag).span,
        },
        plain_subdiags(final(diag).children@, Level::Help, views(helps@)),
        !final(diag).suggestions,
{
    if let Some(h) = header {
        let mut messages: Vec<Option<String>> = Vec::new();
        messages.push(Some(h));
        diag.messages = messages;
        let mut carets: Vec<Span> = Vec::new();
        carets.push(span);
        diag.span = MultiSpan { primary: carets, labels: Vec::new() };
    }
    let mut children: Vec<Subdiag> = Vec::new();
    push_subdiags(&mut children, Level::Help, helps);
    assert(children@.skip(0) =~= children@);
    diag.children = children;
    diag.suggestions = false;
}

/// Strip the compiler's method-probe advice from a method-bounds `E0599` the resolver declined:
/// the structured suggestions, every child flagged in `advice_children` (one flag per child) and
/// every label flagged in `advice_labels` (one flag per label), keeping the primary spans. The
/// unmet wiring bound the diagnostic also names is then the first thing after the caret.
pub fn strip_method_probe_advice(diag: &mut Diag, advice_children: &Vec<bool>, advice_labels: &Vec<bool>)
    requires
        advice_children@.len() == old(diag).children@.len(),
        advice_labels@.len() == old(diag).span.labels@.len(),
    ensures
        final(diag).level == old(diag).level,
        final(diag).code == old(diag).code,
        final(diag).messages == old(diag).messages,
        final(diag).span.primary == old(diag).span.primary,
        final(diag).children@ == kept_items(old(diag).children@, advice_children@),
        final(diag).span.labels@ == kept_items(old(diag).span.labels@, advice_labels@),
        !final(diag).suggestions,
{
    diag.suggestions = false;
    let mut children: Vec<Subdiag> = Vec::new();
    std::mem::swap(&mut children, &mut diag.children);
    diag.children = keep_unflagged(children, advice_children);
    let mut labels: Vec<Label> = Vec::new();
    std::mem::swap(&mut labels, &mut diag.span.labels);
    diag.span.labels = keep_unflagged(labels, advice_labels);
}

/// The items whose flag is clear, in order.
pub open spec fn kept_items<T>(items: Seq<T>, flags: Seq<bool>) -> Seq<T>
    decreases items.len(),
{
    if items.len() == 0 || flags.len() != items.len() {
        Seq::empty()
    } else {
        let rest = kept_items(items.drop_last(), flags.drop_last());
        if flags.last() {
            rest
        } else {
            rest.push(items.last())
        }
    }
}

/// The items whose flag is clear, in order.
fn keep_unflagged<T>(items: Vec<T>, flags: &Vec<bool>) -> (r: Vec<T>)
    requires
        flags@.len() == items@.len(),
    ensures
        r@ == kept_items(items@, flags@),
{
    let ghost all = items@;
    let n = items.len();
    let mut rest = items;
    let mut kept: Vec<T> = Vec::new();
    let mut i: usize = 0;
    assert(all.skip(0) =~= all);
    while rest.len() > 0
        invariant
            n == all.len(),
            flags@.len() == n,
            i <= n,
            rest@ == all.skip(i as int),
            kept@ == kept_items(all.take(i as int), flags@.take(i as int)),
        decreases rest@.len(),
    {
        let item = rest.remove(0);
        assert(item == all[i as int]);
        assert(rest@ =~= all.skip(i + 1));
        assert(all.take(i + 1).drop_last() =~= all.take(i as int));
        assert(flags@.take(i + 1).drop_last() =~= flags@.take(i as int));
        if !flags[i] {
            kept.push(item);
        }
        i = i + 1;
    }
    assert(all.take(i as int) =~= all);
    assert(flags@.take(i as int) =~= flags@);
    kept
}

/// Once a misuse is found at the first `n` mistakes, looking further finds the same one.
/// The first mistake found among the first `n` lies among them.
pub proof fn lemma_first_misuse_in_range(ms: Seq<DetectedCgpImplMisuse>, primary: Span, n: int)
    ensures
        first_misuse_at(ms, primary, n) matches Some(k) ==> 0 <= k < n,
    decreases n,
{
    if n > 0 && n <= ms.len() {
        lemma_first_misuse_in_range(ms, primary, n - 1);
    }
}

proof fn lemma_first_misuse_stable(ms: Seq<DetectedCgpImplMisuse>, primary: Span, n: int, m: int)
    requires
        0 <= n <= m <= ms.len(),
        first_misuse_at(ms, primary, n) is Some,
    ensures
        first_misuse_at(ms, primary, m) == first_misuse_at(ms, primary, n),
    decreases m - n,
{
    if m > n {
        lemma_first_misuse_stable(ms, primary, n, m - 1);
    }
}

/// Whether a settled diagnostic is kept: not an untouched `?`-operator cascade on a recorded
/// CGP failure (`on_failure`), and not a rewritten re-report the de-duplication ledger holds.
pub open spec fn spec_settle_kept(rewritten: bool, cascade: bool, duplicate: bool, on_failure: bool) -> bool {
    !((!rewritten && cascade && on_failure) || (rewritten && duplicate))
}

/// Only the tool's own transformed diagnostics are de-duplicated: a compiler diagnostic the tool
/// left untouched always passes through, unless it is a `?`-operator cascade of a CGP failure
/// already reported on the same expression.
pub proof fn law_untouched_errors_pass(cascade: bool, duplicate: bool, on_failure: bool)
    requires
        !cascade || !on_failure,
    ensures
        spec_settle_kept(false, cascade, duplicate, on_failure),
{
}

/// A transformed re-report is not held again: a rewritten diagnostic whose signature the
/// de-duplication ledger already records is settled without a new entry, whether or not it is a
/// cascade or lands on a failure already shown (its carets are still recorded, see
/// [`EmitterState::settle`]).
pub proof fn law_re_reports_are_suppressed(cascade: bool, on_failure: bool)
    ensures
        !spec_settle_kept(true, cascade, true, on_failure),
{
}

/// A `#[cgp_impl]` mistake touches only its own burst: a diagnostic whose code is not one of the
/// burst's (`E0107`, `E0425`, `E0186`, `E0207`, `E0308`) is neither reshaped nor suppressed,
/// whatever mistakes are known.
pub proof fn law_misuse_actions_stay_in_the_burst(misuses: Option<Vec<DetectedCgpImplMisuse>>, diag: Diag)
    requires
        !is_misuse_burst_code(diag.code),
    ensures
        spec_misuse_action(misuses, diag) is None,
{
    match misuses {
        Some(ms) => {
            assert forall|k: int| 0 <= k < ms@.len() implies !#[trigger] spec_is_cgp_impl_sibling(
                diag,
                ms@[k].impl_span,
                ms@[k].macro_span,
            ) by {}
        },
        None => {},
    }
}

/// The error codes a `#[cgp_impl]` header mistake's burst can carry.
pub open spec fn is_misuse_burst_code(code: Option<u32>) -> bool {
    code == Some(E0107) || code == Some(E0425) || code == Some(E0186) || code == Some(E0207)
        || code == Some(E0308)
}

/// Whether `diag` may belong to the burst a `#[cgp_impl]` header mistake produces.
pub fn in_misuse_burst(diag: &Diag) -> (r: bool)
    ensures
        r == is_misuse_burst_code(diag.code),
{
    match diag.code {
        Some(c) => c == E0107 || c == E0425 || c == E0186 || c == E0207 || c == E0308,
        None => false,
    }
}

/// Whether a resolution is attempted for `diag`: it mentions a CGP wiring trait
/// (`mentions_wiring`), it is a trait-solving failure (`E0271`, `E0277`), or it is the
/// method-bounds form of `E0599` (`method_bounds`: its main message is the "method exists but
/// its trait bounds were not satisfied" text) — never a name-resolution `E0599`, which is
/// reported while the queries a resolution would force are still running.
pub open spec fn spec_resolution_candidate(diag: Diag, mentions_wiring: bool, method_bounds: bool) -> bool {
    mentions_wiring || diag.code == Some(E0271) || diag.code == Some(E0277) || (diag.code
        == Some(E0599) && method_bounds)
}

/// Whether the typed resolver is tried on `diag`.
pub fn resolution_candidate(diag: &Diag, mentions_wiring: bool, method_bounds: bool) -> (r: bool)
    ensures
        r == spec_resolution_candidate(*diag, mentions_wiring, method_bounds),
{
    mentions_wiring || diag.code == Some(E0271) || diag.code == Some(E0277) || (diag.code == Some(
        E0599,
    ) && method_bounds)
}

/// The kind a resolved failure is planned as: one anchored at the failing call expression
/// (`at_call`) plans as a consumer-method failure whatever its code, except a genuine
/// field-type mismatch.
pub open spec fn spec_planned_kind(code: Option<u32>, at_call: bool) -> DiagKind {
    let kind = spec_diag_kind(code);
    if at_call && kind != DiagKind::TypeMismatch {
        DiagKind::MethodNotFound
    } else {
        kind
    }
}

/// The kind a resolved failure is planned as.
pub fn planned_kind(diag: &Diag, at_call: bool) -> (r: DiagKind)
    ensures
        r == spec_planned_kind(diag.code, at_call),
{
    let kind = diag_kind(diag);
    if at_call && kind != DiagKind::TypeMismatch {
        DiagKind::MethodNotFound
    } else {
        kind
    }
}

/// Whether a resolution is a consumer-trait failure on the checked context itself — the only
/// shape that coalesces with others sharing its root cause.
pub fn is_consumer_shaped(consumers_are_cgp: bool, subject_is_context: bool, consumers: &Vec<String>) -> (r: bool)
    ensures
        r == (consumers_are_cgp && subject_is_context && consumers@.len() > 0),
{
    consumers_are_cgp && subject_is_context && consumers.len() > 0
}

/// Whether a message names the generated check or capability trait of an overflowing wiring.
pub open spec fn names_generated_check(texts: Seq<Seq<char>>) -> bool {
    any_contains(texts, "__Check"@) || any_contains(texts, "__CanUse"@)
}

/// Drop, from a rewritten wiring overflow, every child naming the generated `__Check…` or
/// `__CanUse…` trait — a name the user never wrote, whose location the kept caret covers.
pub fn drop_generated_check_notes(diag: &mut Diag)
    ensures
        final(diag).children@ == old(diag).children@.filter(
            |c: crate::diag::Subdiag| !names_generated_check(plain_texts(c.messages@)),
        ),
        final(diag).level == old(diag).level,
        final(diag).code == old(diag).code,
        final(diag).messages == old(diag).messages,
        final(diag).span == old(diag).span,
        final(diag).suggestions == old(diag).suggestions,
{
    let ghost keep = |c: crate::diag::Subdiag| !names_generated_check(plain_texts(c.messages@));
    let mut rest: Vec<crate::diag::Subdiag> = Vec::new();
    std::mem::swap(&mut rest, &mut diag.children);
    let ghost all = rest@;
    let total = rest.len();
    let mut kept: Vec<crate::diag::Subdiag> = Vec::new();
    let mut i: usize = 0;
    assert(all.skip(0) =~= all);
    while rest.len() > 0
        invariant
            i <= all.len(),
            all.len() == total,
            rest@ == all.skip(i as int),
            kept@ == all.take(i as int).filter(keep),
            keep == (|c: crate::diag::Subdiag| !names_generated_check(plain_texts(c.messages@))),
        decreases rest@.len(),
    {
        let c = rest.remove(0);
        assert(c == all[i as int]);
        assert(rest@ =~= all.skip(i + 1));
        let generated = messages_contain(&c.messages, "__Check") || messages_contain(
            &c.messages,
            "__CanUse",
        );
        assert(generated == names_generated_check(plain_texts(c.messages@)));
        if !generated {
            kept.push(c);
        }
        assert(all.take(i + 1).filter(keep) == if keep(all[i as int]) {
            all.take(i as int).filter(keep).push(all[i as int])
        } else {
            all.take(i as int).filter(keep)
        }) by {
            reveal(Seq::filter);
            assert(all.take(i + 1).drop_last() =~= all.take(i as int));
            assert(all.take(i + 1).last() == all[i as int]);
        }
        i = i + 1;
    }
    assert(all.take(i as int) =~= all);
    diag.children = kept;
}

/// Whether the diagnostic names a CGP wiring trait — `CanUseComponent`, `IsProviderFor`, or
/// `HasField` (which catches a consumer-method failure whose text names only the missing leaf).
pub open spec fn spec_mentions_wiring(diag: Diag) -> bool {
    diag_mentions_text(diag, CAN_USE_COMPONENT_TRAIT@) || diag_mentions_text(
        diag,
        IS_PROVIDER_FOR_TRAIT@,
    ) || diag_mentions_text(diag, HAS_FIELD_TRAIT@)
}

/// Whether any of `diag`'s messages — its header or a child's — mentions a CGP wiring trait:
/// the cheap pre-filter before the expensive typed resolution.
pub fn mentions_wiring(diag: &Diag) -> (r: bool)
    ensures
        r == spec_mentions_wiring(*diag),
{
    diag_contains(diag, CAN_USE_COMPONENT_TRAIT) || diag_contains(diag, IS_PROVIDER_FOR_TRAIT)
        || diag_contains(diag, HAS_FIELD_TRAIT)
}

} // verus!
