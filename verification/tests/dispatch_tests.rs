use cargo_cgp_driver::diag::{
    main_message_text, Diag, Level, MultiSpan, Span, Subdiag, E0107, E0117, E0119, E0186, E0210,
    E0275, E0277, E0308, E0599,
};
use cargo_cgp_driver::dispatch::{
    emit_step, ArrivalFacts, ConflictAnswer, EmitStep, Query, RenameAnswer, ResolutionAnswer,
    Rewording,
};
use cargo_cgp_driver::emitter::EmitterState;
use cargo_cgp_driver::misuse::{CgpImplMisuse, DetectedCgpImplMisuse};

fn span(lo: u32, hi: u32) -> Span {
    Span { lo, hi, ctxt: 0 }
}

fn diag(code: Option<u32>, message: &str, primary: Vec<Span>) -> Diag {
    Diag {
        level: Level::Error,
        code,
        messages: vec![Some(message.to_string())],
        span: MultiSpan { primary, labels: Vec::new() },
        children: Vec::new(),
        suggestions: true,
    }
}

fn note(text: &str) -> Subdiag {
    Subdiag {
        level: Level::Note,
        messages: vec![Some(text.to_string())],
        span: MultiSpan { primary: Vec::new(), labels: Vec::new() },
    }
}

fn nothing_known() -> ArrivalFacts {
    ArrivalFacts {
        wiring_text: false,
        method_bounds: false,
        orphan_param: false,
        unbounded_param_item: false,
        misuses_checked: false,
        misuse_wording: None,
        conflict: None,
        orphan: None,
        undeclared: None,
        missing_use_provider: None,
        resolution: None,
        rename: None,
    }
}

fn no_rename(messages: usize) -> RenameAnswer {
    RenameAnswer {
        messages: vec![None; messages],
        children: Vec::new(),
        advice_children: Vec::new(),
        advice_labels: Vec::new(),
        overflow_help: "raise the recursion limit".to_string(),
    }
}

fn rewording(header: &str, help: &str) -> Rewording {
    Rewording { header: header.to_string(), help: help.to_string() }
}

fn misuse_site() -> DetectedCgpImplMisuse {
    DetectedCgpImplMisuse {
        misuse: CgpImplMisuse::ConsumerTrait {
            consumer: "CanCalculateArea".to_string(),
            provider: "AreaCalculator".to_string(),
        },
        self_ty: "RectangleArea".to_string(),
        trait_ref_span: span(104, 120),
        impl_span: span(100, 200),
        macro_span: span(90, 95),
    }
}

fn asked(step: &EmitStep) -> Option<Query> {
    match step {
        EmitStep::Need { query, .. } => Some(*query),
        _ => None,
    }
}

#[test]
fn unrecognized_errors_pass_through_unchanged() {
    let state: EmitterState<u8> = EmitterState::new();
    let mut facts = nothing_known();
    let step = emit_step(&state, diag(Some(E0308), "mismatched types", vec![span(3, 9)]), &facts);
    assert_eq!(asked(&step), Some(Query::Rename));
    facts.rename = Some(no_rename(1));
    let step = emit_step(&state, diag(Some(E0308), "mismatched types", vec![span(3, 9)]), &facts);
    match step {
        EmitStep::Settle { diag: d, rewritten, resolved } => {
            assert!(!rewritten && !resolved);
            assert_eq!(d.code, Some(E0308));
            assert_eq!(main_message_text(&d), Some("mismatched types"));
            assert_eq!(d.span.primary, vec![span(3, 9)]);
            assert!(d.suggestions);
        },
        _ => panic!("an unrecognized error settles"),
    }
}

#[test]
fn renamed_errors_settle_as_rewritten() {
    let state: EmitterState<u8> = EmitterState::new();
    let mut facts = nothing_known();
    let mut rename = no_rename(1);
    rename.messages = vec![Some("the context lacks a provider".to_string())];
    facts.rename = Some(rename);
    match emit_step(&state, diag(Some(E0308), "raw", vec![span(3, 9)]), &facts) {
        EmitStep::Settle { diag: d, rewritten, resolved } => {
            assert!(rewritten && !resolved);
            assert_eq!(d.code, Some(E0308));
            assert_eq!(main_message_text(&d), Some("the context lacks a provider"));
        },
        _ => panic!("a renamed error settles"),
    }
}

#[test]
fn renamed_overflows_get_their_help() {
    let state: EmitterState<u8> = EmitterState::new();
    let mut facts = nothing_known();
    let mut rename = no_rename(1);
    rename.messages = vec![Some("overflow while wiring".to_string())];
    facts.rename = Some(rename);
    match emit_step(&state, diag(Some(E0275), "overflow evaluating", Vec::new()), &facts) {
        EmitStep::Settle { diag: d, rewritten: true, .. } => {
            assert_eq!(d.code, Some(E0275));
            let last = d.children.last().unwrap();
            assert!(last.level == Level::Help);
            assert_eq!(last.messages, vec![Some("raise the recursion limit".to_string())]);
        },
        _ => panic!("a renamed overflow settles as rewritten"),
    }
}

#[test]
fn a_rename_that_does_not_line_up_leaves_the_error_alone() {
    let state: EmitterState<u8> = EmitterState::new();
    let mut facts = nothing_known();
    let mut rename = no_rename(2);
    rename.messages = vec![Some("a".to_string()), Some("b".to_string())];
    facts.rename = Some(rename);
    match emit_step(&state, diag(Some(E0308), "raw", Vec::new()), &facts) {
        EmitStep::Settle { diag: d, rewritten: false, resolved: false } => {
            assert_eq!(main_message_text(&d), Some("raw"));
        },
        _ => panic!("settled untouched"),
    }
}

#[test]
fn wiring_conflicts_are_dropped_or_reworded() {
    let state: EmitterState<u8> = EmitterState::new();
    let pair = || diag(Some(E0119), "conflicting implementations of trait `IsProviderFor<..>`", vec![span(1, 2), span(5, 6)]);
    let mut facts = nothing_known();
    assert_eq!(asked(&emit_step(&state, pair(), &facts)), Some(Query::Conflict));
    facts.conflict = Some(ConflictAnswer::Drop);
    assert!(matches!(emit_step(&state, pair(), &facts), EmitStep::Drop));
    facts.conflict = Some(ConflictAnswer::Reword {
        header: "[CGP] duplicate wiring".to_string(),
        help: Some("remove one entry".to_string()),
    });
    match emit_step(&state, pair(), &facts) {
        EmitStep::Hold { diag: d } => {
            assert_eq!(d.code, Some(E0119));
            assert_eq!(main_message_text(&d), Some("[CGP] duplicate wiring"));
            assert_eq!(d.span.primary, vec![span(1, 2), span(5, 6)]);
            assert_eq!(d.children.len(), 1);
            assert!(!d.suggestions);
        },
        _ => panic!("a reworded conflict is held"),
    }
    facts.conflict = Some(ConflictAnswer::NotOne);
    assert_eq!(asked(&emit_step(&state, pair(), &facts)), Some(Query::Rename));
}

#[test]
fn orphan_registrations_are_asked_only_for_their_codes() {
    let state: EmitterState<u8> = EmitterState::new();
    let mut facts = nothing_known();
    let e0117 = || diag(Some(E0117), "only traits defined in the current crate", vec![span(7, 9)]);
    assert_eq!(asked(&emit_step(&state, e0117(), &facts)), Some(Query::Orphan));
    let e0210 = || diag(Some(E0210), "type parameter `T` must be used", vec![span(7, 9)]);
    assert_eq!(asked(&emit_step(&state, e0210(), &facts)), Some(Query::Rename));
    facts.orphan_param = true;
    assert_eq!(asked(&emit_step(&state, e0210(), &facts)), Some(Query::Orphan));
    let no_caret = diag(Some(E0117), "only traits", Vec::new());
    assert_eq!(asked(&emit_step(&state, no_caret, &facts)), Some(Query::Rename));
    facts.orphan = Some(Some(rewording("[CGP] orphan registration", "use a local key")));
    match emit_step(&state, e0117(), &facts) {
        EmitStep::Hold { diag: d } => {
            assert_eq!(d.code, Some(E0117));
            assert_eq!(main_message_text(&d), Some("[CGP] orphan registration"));
            assert_eq!(d.span.primary, vec![span(7, 9)]);
        },
        _ => panic!("a reworded orphan is held"),
    }
    facts.orphan = Some(None);
    assert_eq!(asked(&emit_step(&state, e0117(), &facts)), Some(Query::Rename));
}

#[test]
fn method_bound_failures_ask_the_capability_check_first() {
    let state: EmitterState<u8> = EmitterState::new();
    let mut facts = nothing_known();
    facts.method_bounds = true;
    let e0599 = || diag(Some(E0599), "the method `area` exists but its trait bounds were not satisfied", vec![span(4, 8)]);
    assert_eq!(asked(&emit_step(&state, e0599(), &facts)), Some(Query::Undeclared));
    facts.undeclared = Some(None);
    assert_eq!(asked(&emit_step(&state, e0599(), &facts)), Some(Query::Resolution));
    facts.undeclared = Some(Some(rewording("[CGP] undeclared capability", "add it to the header")));
    match emit_step(&state, e0599(), &facts) {
        EmitStep::Hold { diag: d } => {
            assert_eq!(d.code, Some(E0599));
            assert_eq!(main_message_text(&d), Some("[CGP] undeclared capability"));
        },
        _ => panic!("held"),
    }
    let mut other = nothing_known();
    other.unbounded_param_item = true;
    assert_eq!(asked(&emit_step(&state, e0599(), &other)), Some(Query::MissingUseProvider));
}

#[test]
fn resolutions_settle_as_resolved() {
    let state: EmitterState<u8> = EmitterState::new();
    let mut facts = nothing_known();
    let e0277 = || diag(Some(E0277), "the trait bound is not satisfied", vec![span(10, 20)]);
    assert_eq!(asked(&emit_step(&state, e0277(), &facts)), Some(Query::Resolution));
    facts.resolution = Some(Some(ResolutionAnswer {
        header: Some("missing field `height`".to_string()),
        span: span(12, 14),
        helps: vec!["derive `HasField`".to_string()],
        leaves: vec![None],
    }));
    match emit_step(&state, e0277(), &facts) {
        EmitStep::Settle { diag: d, rewritten: true, resolved: true } => {
            assert_eq!(d.code, Some(E0277));
            assert_eq!(main_message_text(&d), Some("missing field `height`"));
            assert_eq!(d.span.primary, vec![span(12, 14)]);
            assert_eq!(d.children.len(), 1);
        },
        _ => panic!("resolved"),
    }
    facts.resolution = Some(None);
    assert_eq!(asked(&emit_step(&state, e0277(), &facts)), Some(Query::Rename));
}

#[test]
fn re_reports_of_a_known_mistake_are_dropped() {
    let mut state: EmitterState<u8> = EmitterState::new();
    state.remember_misuses(vec![misuse_site()]);
    let mut facts = nothing_known();
    facts.resolution = Some(Some(ResolutionAnswer {
        header: None,
        span: span(0, 1),
        helps: Vec::new(),
        leaves: vec![Some(("RectangleArea".to_string(), "AreaCalculator".to_string()))],
    }));
    let e0277 = diag(Some(E0277), "the trait bound is not satisfied", vec![span(300, 310)]);
    assert!(matches!(emit_step(&state, e0277, &facts), EmitStep::Drop));
}

#[test]
fn the_misuse_burst_is_detected_reshaped_and_purged() {
    let mut state: EmitterState<u8> = EmitterState::new();
    let mut facts = nothing_known();
    let e0107 = || diag(Some(E0107), "missing generics for trait", vec![span(105, 110)]);
    assert_eq!(asked(&emit_step(&state, e0107(), &facts)), Some(Query::Misuses));
    state.remember_misuses(vec![misuse_site()]);
    facts.misuses_checked = true;
    assert_eq!(asked(&emit_step(&state, e0107(), &facts)), Some(Query::MisuseWording { misuse: 0 }));
    facts.misuse_wording = Some(rewording("[CGP] `#[cgp_impl]` names a consumer trait", "name the provider trait"));
    match emit_step(&state, e0107(), &facts) {
        EmitStep::Reshape { misuse, diag: d } => {
            assert_eq!(misuse, 0);
            assert_eq!(d.code, Some(E0107));
            assert_eq!(main_message_text(&d), Some("[CGP] `#[cgp_impl]` names a consumer trait"));
            assert_eq!(d.span.primary, vec![span(105, 110)]);
        },
        _ => panic!("reshaped"),
    }
    let sibling = diag(Some(E0186), "method has a `self` declaration", vec![span(150, 151)]);
    assert!(matches!(emit_step(&state, sibling, &facts), EmitStep::Drop));
}

#[test]
fn the_footer_is_rebuilt_once_a_mistake_is_known() {
    let mut state: EmitterState<u8> = EmitterState::new();
    let footer = || Diag {
        level: Level::FailureNote,
        ..diag(None, "For more information about this error, try `rustc --explain E0425`.", Vec::new())
    };
    let facts = nothing_known();
    assert_eq!(asked(&emit_step(&state, footer(), &facts)), Some(Query::Rename));
    state.remember_misuses(vec![misuse_site()]);
    state.push_plain(diag(Some(E0107), "[CGP] header", vec![span(105, 110)]));
    match emit_step(&state, footer(), &facts) {
        EmitStep::ReplaceFooter { notes } => {
            assert_eq!(notes.len(), 1);
            assert_eq!(
                main_message_text(&notes[0]),
                Some("For more information about this error, try `rustc --explain E0107`.")
            );
        },
        _ => panic!("rebuilt footer"),
    }
}

#[test]
fn questions_hand_the_diagnostic_back_as_it_came() {
    let state: EmitterState<u8> = EmitterState::new();
    let mut d = diag(Some(E0277), "the trait bound", vec![span(1, 4)]);
    d.children.push(note("required by a bound"));
    match emit_step(&state, d, &nothing_known()) {
        EmitStep::Need { query: Query::Resolution, diag: back } => {
            assert_eq!(back.code, Some(E0277));
            assert_eq!(main_message_text(&back), Some("the trait bound"));
            assert_eq!(back.children.len(), 1);
            assert!(back.suggestions);
        },
        _ => panic!("asked"),
    }
}

#[test]
fn renamed_children_keep_their_level_and_spans() {
    let state: EmitterState<u8> = EmitterState::new();
    let mut facts = nothing_known();
    let mut rename = no_rename(1);
    rename.children = vec![vec![Some("required for the wiring of `Rectangle`".to_string())], vec![None]];
    rename.advice_children = vec![false, false];
    facts.rename = Some(rename);
    let mut d = diag(Some(E0277), "kept", vec![span(1, 2)]);
    d.children.push(note("required for `Rectangle` to implement `IsProviderFor<..>`"));
    d.children.push(note("left alone"));
    facts.resolution = Some(None);
    match emit_step(&state, d, &facts) {
        EmitStep::Settle { diag: out, rewritten: true, resolved: false } => {
            assert_eq!(main_message_text(&out), Some("kept"));
            assert_eq!(out.children.len(), 2);
            assert!(out.children[0].level == Level::Note);
            assert_eq!(out.children[0].messages, vec![Some("required for the wiring of `Rectangle`".to_string())]);
            assert_eq!(out.children[1].messages, vec![Some("left alone".to_string())]);
        },
        _ => panic!("renamed"),
    }
}

use cargo_cgp_driver::dispatch::apply_step;
use cargo_cgp_driver::emitter::BufEntry;

#[test]
fn holding_a_decision_only_appends() {
    let mut state: EmitterState<u8> = EmitterState::new();
    state.push_plain(diag(Some(E0308), "first", vec![span(1, 2)]));
    let applied = apply_step(&mut state, EmitStep::Hold { diag: diag(Some(E0119), "[CGP] duplicate", vec![span(5, 6)]) }, false, false, None);
    assert_eq!(applied.keep, vec![true]);
    assert_eq!(applied.added, 1);
    assert_eq!(state.buffer.len(), 2);
    assert_eq!(state.cgp_spans, vec![span(5, 6)]);
    let applied = apply_step(&mut state, EmitStep::Drop, false, false, None);
    assert_eq!((applied.keep, applied.added), (vec![true, true], 0));
    assert_eq!(state.buffer.len(), 2);
    let settled = EmitStep::Settle { diag: diag(Some(E0277), "resolved", vec![span(9, 10)]), rewritten: true, resolved: true };
    let applied = apply_step(&mut state, settled, false, false, Some((7, None)));
    assert_eq!(applied.added, 1);
    assert!(matches!(&state.buffer[2], BufEntry::Resolved { resolution: 7, .. }));
}

#[test]
fn a_re_report_is_not_held_again() {
    let mut state: EmitterState<u8> = EmitterState::new();
    let first = EmitStep::Settle { diag: diag(Some(E0277), "[CGP] missing field", vec![span(1, 2)]), rewritten: true, resolved: false };
    assert_eq!(apply_step(&mut state, first, false, false, None).added, 1);
    let again = EmitStep::Settle { diag: diag(Some(E0277), "[CGP] missing field", vec![span(30, 31)]), rewritten: true, resolved: false };
    let applied = apply_step(&mut state, again, false, true, None);
    assert_eq!(applied.added, 0);
    assert_eq!(state.buffer.len(), 1);
    assert_eq!(state.cgp_spans, vec![span(1, 2), span(30, 31)]);
}

#[test]
fn a_reshaped_mistake_purges_its_held_siblings() {
    let mut state: EmitterState<u8> = EmitterState::new();
    state.push_plain(diag(Some(E0308), "unrelated", vec![span(500, 501)]));
    state.push_plain(diag(Some(cargo_cgp_driver::diag::E0425), "cannot find type", vec![span(91, 92)]));
    state.remember_misuses(vec![misuse_site()]);
    let reshaped = EmitStep::Reshape { misuse: 0, diag: diag(Some(E0107), "[CGP] header", vec![span(105, 110)]) };
    let applied = apply_step(&mut state, reshaped, false, false, None);
    assert_eq!(applied.keep, vec![true, false]);
    assert_eq!(applied.added, 1);
    assert_eq!(state.buffer.len(), 2);
    assert!(matches!(&state.buffer[1], BufEntry::Plain(d) if d.code == Some(E0107)));
}

#[test]
fn a_rebuilt_footer_line_is_held() {
    let mut state: EmitterState<u8> = EmitterState::new();
    let line = Diag { level: Level::FailureNote, ..diag(None, "For more information about this error, try `rustc --explain E0107`.", Vec::new()) };
    let applied = apply_step(&mut state, EmitStep::ReplaceFooter { notes: vec![line] }, false, false, None);
    assert_eq!((applied.keep, applied.added), (Vec::new(), 1));
    assert_eq!(state.buffer.len(), 1);
    let applied = apply_step(&mut state, EmitStep::ReplaceFooter { notes: Vec::new() }, false, false, None);
    assert_eq!((applied.keep, applied.added), (vec![true], 0));
}
