use cargo_cgp_driver::diag::{
    diag_kind, is_cgp_impl_sibling, main_message_text, message_signature, rewrite_labels,
    rewrite_messages, Diag, DiagKind, Label,
    Level, MultiSpan, Span, Subdiag, E0107, E0119, E0186, E0271, E0277, E0308, E0425, E0599,
};
use cargo_cgp_driver::conflict::{conflict_trait, ConflictTrait};
use cargo_cgp_driver::emitter::{
    drop_generated_check_notes, in_misuse_burst, is_consumer_shaped, mentions_wiring,
    merged_block, planned_kind, resolution_candidate, reword_at_caret, reword_keeping_carets,
    BufEntry, EmitterState, MisuseAction,
};
use cargo_cgp_driver::footer::{code_text, rebuild_footer};
use cargo_cgp_driver::misuse::{CgpImplMisuse, DetectedCgpImplMisuse};
use cargo_cgp_driver::orphan::orphan_candidate;
use cargo_cgp_driver::report::{
    cause_note, derive_help, derive_targets, field_header, quoted_field_list,
    render_field_replacement, resolved_diagnostic,
};
use cargo_cgp_driver::resolve::{Cause, DependencyTree, FieldIssue, Leaf, Resolved};

fn span(lo: u32, hi: u32) -> Span {
    Span { lo, hi, ctxt: 0 }
}

fn diag(code: Option<u32>, message: &str, primary: Vec<Span>) -> Diag {
    Diag {
        level: Level::Error,
        code,
        messages: vec![Some(message.to_string())],
        span: MultiSpan { primary, labels: Vec::new() },
        children: Vec::new(),
        suggestions: true,
    }
}

fn note(text: &str) -> Subdiag {
    Subdiag {
        level: Level::Note,
        messages: vec![Some(text.to_string())],
        span: MultiSpan { primary: Vec::new(), labels: Vec::new() },
    }
}

fn texts(d: &Diag) -> Vec<Option<String>> {
    d.children.iter().map(|c| c.messages[0].clone()).collect()
}

fn tree(label: &str) -> DependencyTree {
    DependencyTree { label: label.to_string(), children: Vec::new() }
}

fn field_cause(name: &str, owner: &str, issue: FieldIssue) -> Cause {
    Cause {
        leaf: Leaf::Field { name: name.to_string(), owner: owner.to_string(), issue },
        tree: tree(name),
    }
}

#[test]
fn field_lists_read_as_english() {
    let list = |names: &[&str]| quoted_field_list(&names.iter().map(|s| s.to_string()).collect());
    assert_eq!(list(&[]), "");
    assert_eq!(list(&["x"]), "`x`");
    assert_eq!(list(&["x", "y"]), "`x` and `y`");
    assert_eq!(list(&["x", "y", "z"]), "`x`, `y`, and `z`");
}

#[test]
fn field_headers_tell_missing_from_unwired() {
    let missing = Resolved {
        context: "Rectangle".to_string(),
        causes: vec![field_cause("height", "Rectangle", FieldIssue::Missing)],
    };
    assert_eq!(field_header(&missing), "missing field `height` on context `Rectangle`");
    let unwired = Resolved {
        context: "Rectangle".to_string(),
        causes: vec![
            field_cause("height", "Rectangle", FieldIssue::Present),
            field_cause("width", "Rectangle", FieldIssue::Missing),
        ],
    };
    assert_eq!(
        field_header(&unwired),
        "accessor trait `HasField` with fields `height` and `width` is not implemented for `Rectangle`"
    );
}

#[test]
fn derive_targets_are_distinct_in_first_seen_order() {
    let causes = vec![
        field_cause("a", "App", FieldIssue::Present),
        field_cause("b", "App", FieldIssue::PresentViaDeref { target: "Inner".to_string() }),
        field_cause("c", "App", FieldIssue::Missing),
        field_cause("d", "App", FieldIssue::Present),
    ];
    assert_eq!(derive_targets(&causes), vec!["App", "Inner"]);
    assert_eq!(derive_help("App"), "make sure that `#[derive(HasField)]` is used for `App`");
}

#[test]
fn cause_notes_lead_with_the_leaf() {
    let cause = field_cause("height", "Rectangle", FieldIssue::Missing);
    assert_eq!(
        cause_note(&cause, "└─ x"),
        "field `height` is required through this dependency chain:\n└─ x"
    );
    let bound = Cause { leaf: Leaf::Bound { summary: "f64: Eq".to_string() }, tree: tree("t") };
    assert_eq!(cause_note(&bound, "t"), "`f64: Eq` is required through this dependency chain:\nt");
}

#[test]
fn all_field_failures_are_replaced_wholesale() {
    let resolved = Resolved {
        context: "Rectangle".to_string(),
        causes: vec![field_cause("height", "Rectangle", FieldIssue::Present)],
    };
    let trees = vec!["T".to_string()];
    let out = render_field_replacement(&resolved, span(3, 9), &trees);
    assert_eq!(out.code, Some(E0277));
    assert_eq!(out.span.primary, vec![span(3, 9)]);
    assert_eq!(texts(&out), vec![
        Some("make sure that `#[derive(HasField)]` is used for `Rectangle`".to_string()),
        Some("field `height` is required through this dependency chain:\nT".to_string()),
    ]);
    assert!(out.children[0].level == Level::Help);
    let original = diag(Some(E0599), "no method", vec![span(1, 2)]);
    let (kept, rename) = resolved_diagnostic(original, &resolved, span(3, 9), &trees);
    assert!(!rename);
    assert_eq!(kept.code, Some(E0277));
}

#[test]
fn other_failures_keep_their_message() {
    let resolved = Resolved {
        context: "App".to_string(),
        causes: vec![Cause { leaf: Leaf::Bound { summary: "f64: Eq".to_string() }, tree: tree("t") }],
    };
    let mut original = diag(Some(E0599), "no method named `area`", vec![span(1, 2)]);
    original.children.push(note("old note"));
    let (out, rename) = resolved_diagnostic(original, &resolved, span(3, 9), &vec!["T".to_string()]);
    assert!(rename);
    assert_eq!(out.code, Some(E0599));
    assert_eq!(main_message_text(&out), Some("no method named `area`"));
    assert_eq!(out.span.primary, vec![span(1, 2)]);
    assert_eq!(texts(&out), vec![Some("`f64: Eq` is required through this dependency chain:\nT".to_string())]);
    assert!(!out.suggestions);
}

#[test]
fn kinds_and_signatures() {
    assert!(diag_kind(&diag(Some(E0271), "m", Vec::new())) == DiagKind::TypeMismatch);
    assert!(diag_kind(&diag(Some(E0599), "m", Vec::new())) == DiagKind::MethodNotFound);
    assert!(diag_kind(&diag(None, "m", Vec::new())) == DiagKind::Check);
    let mut d = diag(Some(E0277), "head", vec![span(1, 2)]);
    d.children.push(note("one"));
    d.children.push(Subdiag { level: Level::Help, messages: vec![None, Some("two".to_string())], span: MultiSpan { primary: Vec::new(), labels: Vec::new() } });
    assert_eq!(message_signature(&d), "head\u{1f}one\u{1f}two");
    let mut moved = diag(Some(E0277), "head", vec![span(50, 60)]);
    moved.children.push(note("one"));
    moved.children.push(note("two"));
    assert_eq!(message_signature(&d), message_signature(&moved));
    let fluent = Diag { messages: vec![None], ..diag(None, "x", Vec::new()) };
    assert_eq!(main_message_text(&fluent), None);
}

#[test]
fn planned_kinds_and_candidates() {
    let d = diag(Some(E0277), "m", Vec::new());
    assert!(planned_kind(&d, true) == DiagKind::MethodNotFound);
    assert!(planned_kind(&d, false) == DiagKind::Check);
    assert!(planned_kind(&diag(Some(E0271), "m", Vec::new()), true) == DiagKind::TypeMismatch);
    assert!(resolution_candidate(&d, false, false));
    assert!(!resolution_candidate(&diag(Some(E0599), "m", Vec::new()), false, false));
    assert!(resolution_candidate(&diag(Some(E0599), "m", Vec::new()), false, true));
    assert!(resolution_candidate(&diag(Some(E0308), "m", Vec::new()), true, false));
    assert!(is_consumer_shaped(true, true, &vec!["CanArea".to_string()]));
    assert!(!is_consumer_shaped(true, true, &Vec::new()));
    assert!(mentions_wiring(&diag(None, "the trait `HasField<..>` is not implemented", Vec::new())));
    assert!(!mentions_wiring(&diag(None, "mismatched types", Vec::new())));
    assert!(in_misuse_burst(&diag(Some(E0425), "m", Vec::new())));
    assert!(!in_misuse_burst(&diag(Some(E0277), "m", Vec::new())));
}

#[test]
fn conflict_traits_are_read_from_the_message() {
    let pair = diag(Some(E0119), "conflicting implementations of trait `IsProviderFor<..>`", Vec::new());
    assert!(conflict_trait(&pair) == Some(ConflictTrait::IsProviderFor));
    let table = diag(Some(E0119), "conflicting implementations of trait `DelegateComponent<X>`", Vec::new());
    assert!(conflict_trait(&table) == Some(ConflictTrait::Delegate));
    let ns = diag(Some(E0119), "conflicting implementations of trait `MyNamespace<_>`", Vec::new());
    assert!(conflict_trait(&ns) == Some(ConflictTrait::Other));
    assert!(conflict_trait(&diag(Some(E0277), "DelegateComponent", Vec::new())).is_none());
    assert!(orphan_candidate(&diag(Some(117), "x", Vec::new()), false));
    assert!(!orphan_candidate(&diag(Some(210), "x", Vec::new()), false));
    assert!(orphan_candidate(&diag(Some(210), "x", Vec::new()), true));
}

fn misuse_site(trait_ref: Span) -> DetectedCgpImplMisuse {
    DetectedCgpImplMisuse {
        misuse: CgpImplMisuse::ConsumerTrait {
            consumer: "CanCalculateArea".to_string(),
            provider: "AreaCalculator".to_string(),
        },
        self_ty: "RectangleArea".to_string(),
        trait_ref_span: trait_ref,
        impl_span: span(100, 200),
        macro_span: span(90, 95),
    }
}

#[test]
fn cgp_impl_siblings_are_recognized() {
    assert!(is_cgp_impl_sibling(&diag(Some(E0425), "x", vec![span(92, 93)]), &span(100, 200), &span(90, 95)));
    assert!(!is_cgp_impl_sibling(&diag(Some(E0425), "x", vec![span(300, 301)]), &span(100, 200), &span(90, 95)));
    assert!(!is_cgp_impl_sibling(&diag(Some(E0308), "mismatched types", vec![span(150, 151)]), &span(100, 200), &span(90, 95)));
    assert!(is_cgp_impl_sibling(&diag(Some(E0308), "expected `__Context__`", vec![span(150, 151)]), &span(100, 200), &span(90, 95)));
}

#[test]
fn misuse_bursts_are_reshaped_or_suppressed() {
    let mut state: EmitterState<u8> = EmitterState::new();
    let e0107 = diag(Some(E0107), "missing generics", vec![span(105, 110)]);
    assert!(state.misuse_action(&e0107).is_none());
    state.push_plain(diag(Some(E0425), "cannot find type", vec![span(91, 92)]));
    state.push_plain(diag(Some(E0277), "unrelated", vec![span(500, 501)]));
    state.remember_misuses(vec![misuse_site(span(104, 120))]);
    state.remember_misuses(Vec::new());
    assert_eq!(state.misuses.as_ref().map(|m| m.len()), Some(1));
    assert!(state.misuse_action(&e0107) == Some(MisuseAction::Reshape { misuse: 0 }));
    let sibling = diag(Some(E0186), "method has a self", vec![span(150, 151)]);
    assert!(state.misuse_action(&sibling) == Some(MisuseAction::Suppress));
    assert!(state.misuse_action(&diag(Some(E0277), "x", vec![span(150, 151)])).is_none());
    state.push_reshaped(diag(Some(E0107), "[CGP] header", vec![span(105, 110)]), 0);
    assert_eq!(state.buffer.len(), 2);
    assert!(matches!(&state.buffer[0], BufEntry::Plain(d) if d.code == Some(E0277)));
    assert_eq!(state.cgp_spans, vec![span(105, 110)]);
    assert!(state.is_misuse_report(&vec![Some(("RectangleArea".to_string(), "AreaCalculator".to_string()))]));
    assert!(!state.is_misuse_report(&vec![None]));
    assert!(!state.is_misuse_report(&Vec::new()));
}

#[test]
fn footers_are_rebuilt_from_the_codes_shown() {
    assert_eq!(code_text(277), "E0277");
    assert_eq!(code_text(5), "E0005");
    assert_eq!(code_text(12345), "E12345");
    let footer = |text: &str| Diag { level: Level::FailureNote, ..diag(None, text, Vec::new()) };
    let list = footer("Some errors have detailed explanations: E0107, E0425.");
    let shown = vec![Some(E0425), None, Some(E0107), Some(E0425)];
    let rebuilt = rebuild_footer(&list, &shown).unwrap();
    assert_eq!(main_message_text(&rebuilt[0]), Some("Some errors have detailed explanations: E0107, E0425."));
    assert!(rebuild_footer(&list, &vec![Some(E0107)]).unwrap().is_empty());
    let pointer = footer("For more information about an error, try `rustc --explain E0107`.");
    let one = rebuild_footer(&pointer, &vec![Some(E0107)]).unwrap();
    assert_eq!(main_message_text(&one[0]), Some("For more information about this error, try `rustc --explain E0107`."));
    let many = rebuild_footer(&pointer, &shown).unwrap();
    assert_eq!(main_message_text(&many[0]), Some("For more information about an error, try `rustc --explain E0107`."));
    assert!(rebuild_footer(&pointer, &vec![None]).unwrap().is_empty());
    assert!(rebuild_footer(&diag(None, "Some errors have", Vec::new()), &shown).is_none());
}

#[test]
fn footer_is_only_touched_after_a_misuse() {
    let mut state: EmitterState<u8> = EmitterState::new();
    let footer = Diag { level: Level::FailureNote, ..diag(None, "For more information about this error, try `rustc --explain E0425`.", Vec::new()) };
    assert!(state.footer_replacement(&footer).is_none());
    state.remember_misuses(vec![misuse_site(span(104, 120))]);
    state.push_plain(diag(Some(E0107), "[CGP] header", vec![span(105, 110)]));
    let rebuilt = state.footer_replacement(&footer).unwrap();
    assert_eq!(main_message_text(&rebuilt[0]), Some("For more information about this error, try `rustc --explain E0107`."));
}

#[test]
fn settling_drops_cascades_and_re_reports() {
    let mut state: EmitterState<u8> = EmitterState::new();
    assert!(state.settle(diag(Some(E0277), "wiring", vec![span(10, 20)]), true, false, false, Some((7, Some("sig".to_string())))));
    assert_eq!(state.cgp_spans, vec![span(10, 20)]);
    assert!(!state.settle(diag(Some(E0277), "the `?` operator", vec![span(15, 16)]), false, true, false, None));
    assert!(state.settle(diag(Some(E0277), "the `?` operator", vec![span(40, 41)]), false, true, false, None));
    assert!(!state.settle(diag(Some(E0277), "wiring", vec![span(30, 31)]), true, false, true, None));
    assert!(state.settle(diag(Some(E0277), "plain", vec![span(30, 31)]), false, false, true, None));
    assert_eq!(state.buffer.len(), 3);
    assert!(matches!(&state.buffer[0], BufEntry::Resolved { resolution: 7, sig: Some(s), .. } if s == "sig"));
    assert!(state.overlaps_cgp_failure(&diag(None, "x", vec![span(19, 25)])));
    assert!(!state.overlaps_cgp_failure(&diag(None, "x", vec![span(20, 25)])));
    assert_eq!(state.plan_flush(), vec![vec![0], vec![1], vec![2]]);
}

#[test]
fn rewordings_keep_the_code() {
    let mut d = diag(Some(E0119), "conflicting implementations", vec![span(1, 2), span(5, 6)]);
    d.span.labels.push(Label { span: span(5, 6), text: Some("first implementation here".to_string()) });
    d.children.push(note("downstream crates may implement"));
    reword_keeping_carets(&mut d, "[CGP] duplicate".to_string(), Some("help: fix".to_string()));
    assert_eq!(d.code, Some(E0119));
    assert_eq!(d.span.primary, vec![span(1, 2), span(5, 6)]);
    assert_eq!(d.span.labels.len(), 1);
    assert_eq!(texts(&d), vec![Some("help: fix".to_string())]);
    let mut e = diag(Some(E0599), "no method", vec![span(1, 2), span(7, 8)]);
    e.span.labels.push(Label { span: span(1, 2), text: None });
    reword_at_caret(&mut e, "[CGP] header".to_string(), "add it".to_string());
    assert_eq!(e.code, Some(E0599));
    assert_eq!(e.span.primary, vec![span(1, 2)]);
    assert!(e.span.labels.is_empty());
    assert_eq!(main_message_text(&e), Some("[CGP] header"));
    assert_eq!(texts(&e), vec![Some("add it".to_string())]);
    assert!(!e.suggestions);
}

#[test]
fn overflow_notes_naming_generated_traits_are_dropped() {
    let mut d = diag(Some(275), "overflow", Vec::new());
    d.children.push(note("required by a bound in `__CheckApp`"));
    d.children.push(note("keep me"));
    d.children.push(note("required for `__CanUseArea`"));
    drop_generated_check_notes(&mut d);
    assert_eq!(texts(&d), vec![Some("keep me".to_string())]);
}

#[test]
fn merged_blocks_list_every_member_caret() {
    let template = diag(Some(E0277), "first", vec![span(1, 2)]);
    let block = merged_block(
        &template,
        &vec![Some(span(1, 2)), None, Some(span(8, 9))],
        "[CGP-E001] consumers".to_string(),
        vec!["derive".to_string()],
        vec!["root cause".to_string(), "second".to_string()],
    );
    assert_eq!(block.code, Some(E0277));
    assert_eq!(block.span.primary, vec![span(1, 2), span(8, 9)]);
    assert_eq!(main_message_text(&block), Some("[CGP-E001] consumers"));
    assert_eq!(texts(&block), vec![Some("derive".to_string()), Some("root cause".to_string()), Some("second".to_string())]);
    assert!(block.children[0].level == Level::Help);
    assert!(block.children[2].level == Level::Note);
}

use cargo_cgp_driver::emitter::{apply_resolution_plan, diagnostic_spans, span_labels, strip_method_probe_advice};

#[test]
fn labels_then_unlabelled_carets() {
    let mut m = MultiSpan { primary: vec![span(1, 2), span(3, 4)], labels: Vec::new() };
    m.labels.push(Label { span: span(3, 4), text: Some("here".to_string()) });
    m.labels.push(Label { span: span(9, 9), text: None });
    assert_eq!(span_labels(&m), vec![span(3, 4), span(9, 9), span(1, 2)]);
    let mut d = diag(Some(E0277), "m", vec![span(1, 2), span(3, 4)]);
    d.span = m;
    let mut child = note("c");
    child.span.primary.push(span(20, 21));
    d.children.push(child);
    assert_eq!(
        diagnostic_spans(&d),
        vec![span(1, 2), span(3, 4), span(3, 4), span(9, 9), span(1, 2), span(20, 21), span(20, 21)]
    );
}

#[test]
fn resolution_plans_rewrite_header_and_helps() {
    let mut d = diag(Some(E0277), "rustc text", vec![span(1, 2), span(5, 6)]);
    d.children.push(note("old"));
    apply_resolution_plan(&mut d, Some("[CGP-E001] header".to_string()), span(5, 6), vec!["derive it".to_string()]);
    assert_eq!(main_message_text(&d), Some("[CGP-E001] header"));
    assert_eq!(d.span.primary, vec![span(5, 6)]);
    assert_eq!(texts(&d), vec![Some("derive it".to_string())]);
    assert!(!d.suggestions);
    let mut keep = diag(Some(E0277), "rustc text", vec![span(1, 2)]);
    apply_resolution_plan(&mut keep, None, span(5, 6), Vec::new());
    assert_eq!(main_message_text(&keep), Some("rustc text"));
    assert_eq!(keep.span.primary, vec![span(1, 2)]);
    assert!(keep.children.is_empty());
}

#[test]
fn method_probe_advice_is_stripped() {
    let mut d = diag(Some(E0599), "the method `area` exists", vec![span(1, 2)]);
    d.children.push(note("found the following associated functions"));
    d.children.push(note("the trait bound `App: HasField<..>` is not satisfied"));
    d.span.labels.push(Label { span: span(1, 2), text: Some("this is an associated function".to_string()) });
    strip_method_probe_advice(&mut d, &vec![true, false], &vec![true]);
    assert_eq!(texts(&d), vec![Some("the trait bound `App: HasField<..>` is not satisfied".to_string())]);
    assert!(d.span.labels.is_empty());
    assert_eq!(d.span.primary, vec![span(1, 2)]);
    assert!(!d.suggestions);
}

#[test]
fn text_rewrites_touch_only_plain_messages_given_one() {
    let mut messages = vec![Some("a: cgp::HasField<..>".to_string()), None, Some("kept".to_string())];
    let changed = rewrite_messages(&mut messages, vec![Some("a: HasField".to_string()), Some("ignored".to_string()), None]);
    assert!(changed);
    assert_eq!(messages, vec![Some("a: HasField".to_string()), None, Some("kept".to_string())]);
    let unchanged = rewrite_messages(&mut messages, vec![None, Some("ignored".to_string()), None]);
    assert!(!unchanged);
    assert_eq!(messages[1], None);
}

#[test]
fn label_rewrites_keep_spans_and_primary_order() {
    let mut m = MultiSpan {
        primary: vec![span(9, 10), span(1, 2)],
        labels: vec![
            Label { span: span(1, 2), text: Some("required by this bound in `Symbol<6, Chars<..>>`".to_string()) },
            Label { span: span(5, 6), text: None },
        ],
    };
    let changed = rewrite_labels(&mut m, vec![Some("required by `height`".to_string()), Some("x".to_string())]);
    assert!(changed);
    assert!(m.primary == vec![span(9, 10), span(1, 2)]);
    assert!(m.labels[0].span == span(1, 2));
    assert_eq!(m.labels[0].text.as_deref(), Some("required by `height`"));
    assert!(m.labels[1].span == span(5, 6));
    assert_eq!(m.labels[1].text, None);
}
