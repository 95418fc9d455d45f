use cargo_cgp_driver::coalesce::{flush_plan, merged_consumers, merged_spans};
use cargo_cgp_driver::conflict::{
    build_conflict, build_namespace_conflict, describe_key, route_conflict,
    suppressible_is_provider_for, ConflictRoute, ConflictTrait, EntryFacts, LocalImpl,
    WiringConflict, WiringKey,
};
use cargo_cgp_driver::diag::Span;
use cargo_cgp_driver::leaf::{classify_leaf as classify_terminal, CauseLeaf, ProjectionFacts};
use cargo_cgp_driver::misuse::{
    detect_cgp_impl_misuses, BoundFacts, CgpImplMisuse, HeaderFacts, ImplFacts,
};
use cargo_cgp_driver::orphan::{classify_orphan_conflict, ImplSummary, OrphanTrigger};
use cargo_cgp_driver::predicate::TraitRef;
use cargo_cgp_driver::resolve::{
    assemble_causes, classify_leaf, field_issue, leaf_key, spine, CauseCandidate, FieldIssue, Leaf,
};
use cargo_cgp_driver::ty_model::{
    decode_symbol, render_params, render_path, render_ty, trim_unknown_path_tail, AdtInfo, FieldDef,
    GenericArg,
    Ty, TyKind,
};

fn adt(id: u64, name: &str, krate: &str, args: Vec<GenericArg>, printed: &str) -> Ty {
    Ty {
        id,
        kind: TyKind::Adt(AdtInfo {
            name: name.to_string(),
            krate: krate.to_string(),
            path: format!("{krate}::{name}"),
            local: false,
            is_struct: true,
            fields: Vec::new(),
        }),
        args,
        printed: printed.to_string(),
    }
}

fn strukt(id: u64, name: &str, fields: &[(&str, &str)]) -> Ty {
    Ty {
        id,
        kind: TyKind::Adt(AdtInfo {
            name: name.to_string(),
            krate: "app".to_string(),
            path: format!("app::{name}"),
            local: true,
            is_struct: true,
            fields: fields
                .iter()
                .map(|(n, t)| FieldDef { name: n.to_string(), ty: t.to_string() })
                .collect(),
        }),
        args: Vec::new(),
        printed: name.to_string(),
    }
}

fn param(id: u64, name: &str) -> Ty {
    Ty { id, kind: TyKind::Param, args: Vec::new(), printed: name.to_string() }
}

fn ty(t: Ty) -> GenericArg {
    GenericArg::Type(t)
}

fn nil() -> Ty {
    adt(900, "Nil", "cgp_base_types", Vec::new(), "Nil")
}

fn chars(text: &str) -> Ty {
    let mut spine = nil();
    for c in text.chars().rev() {
        spine = adt(901, "Chars", "cgp_base_types", vec![GenericArg::Const(Some(c as u32)), ty(spine)], "Chars<..>");
    }
    spine
}

fn symbol(text: &str) -> Ty {
    adt(
        902,
        "Symbol",
        "cgp_base_types",
        vec![GenericArg::Const(Some(text.chars().count() as u32)), ty(chars(text))],
        "Symbol<..>",
    )
}

fn path_cons(head: Ty, tail: Ty) -> Ty {
    adt(903, "PathCons", "cgp_base_types", vec![ty(head), ty(tail)], "PathCons<..>")
}

fn trait_ref(name: &str, krate: &str, args: Vec<GenericArg>, path: &str) -> TraitRef {
    TraitRef {
        id: 1,
        trait_id: 2,
        name: name.to_string(),
        krate: krate.to_string(),
        is_provider: false,
        is_consumer: false,
        is_namespace_lookup: false,
        args,
        path: path.to_string(),
    }
}

fn span(lo: u32, hi: u32) -> Span {
    Span { lo, hi, ctxt: 0 }
}

#[test]
fn symbols_decode_to_their_text() {
    assert_eq!(decode_symbol(&symbol("height")), Some("height".to_string()));
    assert_eq!(decode_symbol(&symbol("")), Some(String::new()));
    assert_eq!(decode_symbol(&nil()), None);
    let broken = adt(902, "Symbol", "other_crate", vec![GenericArg::Const(Some(1)), ty(chars("a"))], "S");
    assert_eq!(decode_symbol(&broken), None);
}

#[test]
fn product_and_plain_types_render() {
    let u32_ty = Ty { id: 5, kind: TyKind::Other, args: Vec::new(), printed: "u32".to_string() };
    let cons = adt(910, "Cons", "cgp_base_types", vec![ty(u32_ty.clone_like()), ty(nil())], "Cons<u32, Nil>");
    assert_eq!(render_ty(&cons), "Product![u32]");
    let pair = Ty { id: 6, kind: TyKind::Tuple, args: vec![ty(u32_ty.clone_like()), ty(u32_ty.clone_like())], printed: "(u32, u32)".to_string() };
    assert_eq!(render_ty(&pair), "(u32, u32)");
    let single = Ty { id: 7, kind: TyKind::Tuple, args: vec![ty(u32_ty.clone_like())], printed: "(u32,)".to_string() };
    assert_eq!(render_ty(&single), "(u32,)");
    let hole = Ty { id: 8, kind: TyKind::Placeholder, args: Vec::new(), printed: "?".to_string() };
    assert_eq!(render_ty(&hole), "_");
    assert_eq!(render_ty(&u32_ty), "u32");
}

trait CloneLike {
    fn clone_like(&self) -> Self;
}

impl CloneLike for Ty {
    fn clone_like(&self) -> Ty {
        Ty { id: self.id, kind: TyKind::Other, args: Vec::new(), printed: self.printed.clone() }
    }
}

#[test]
fn paths_render_in_their_bare_form() {
    let marker = adt(920, "AreaComponent", "app", Vec::new(), "AreaComponent");
    let closed = path_cons(symbol("api"), path_cons(marker, nil()));
    assert_eq!(render_path(&closed), Some("@api.AreaComponent".to_string()));
    let open = path_cons(symbol("api"), param(3, "K"));
    assert_eq!(render_path(&open), Some("@api.*".to_string()));
    assert_eq!(render_path(&param(3, "K")), Some("@*".to_string()));
    assert_eq!(render_path(&marker_like()), None);
}

fn marker_like() -> Ty {
    adt(921, "Other", "app", Vec::new(), "Other")
}

#[test]
fn unknown_path_tails_are_trimmed() {
    let hole = Ty { id: 8, kind: TyKind::Placeholder, args: Vec::new(), printed: "_".to_string() };
    let path = path_cons(symbol("api"), path_cons(hole, nil()));
    assert_eq!(trim_unknown_path_tail(&path), Some(1));
    let known = path_cons(symbol("api"), nil());
    assert_eq!(trim_unknown_path_tail(&known), None);
}

#[test]
fn field_issues_tell_missing_from_underived() {
    let rect = strukt(10, "Rectangle", &[("width", "f64")]);
    assert!(matches!(field_issue(&rect, "width", &Vec::new()), FieldIssue::Present));
    assert!(matches!(field_issue(&rect, "height", &Vec::new()), FieldIssue::Missing));
    let inner = strukt(11, "Inner", &[("height", "f64")]);
    match field_issue(&rect, "height", &vec![inner]) {
        FieldIssue::PresentViaDeref { target } => assert_eq!(target, "Inner"),
        _ => panic!("expected a Deref-reachable field"),
    }
}

#[test]
fn has_field_leaves_name_their_field() {
    let rect = strukt(10, "Rectangle", &[("width", "f64")]);
    let leaf = trait_ref("HasField", "cgp_field", vec![ty(rect), ty(symbol("height"))], "HasField<..>");
    match classify_leaf(&leaf, &Vec::new()) {
        Leaf::Field { name, owner, issue } => {
            assert_eq!(name, "height");
            assert_eq!(owner, "Rectangle");
            assert!(matches!(issue, FieldIssue::Missing));
        }
        Leaf::Bound { .. } => panic!("expected a field leaf"),
    }
    let other = trait_ref("Eq", "core", vec![ty(strukt(12, "f64", &[]))], "std::cmp::Eq");
    match classify_leaf(&other, &Vec::new()) {
        Leaf::Bound { summary } => assert_eq!(summary, "f64: std::cmp::Eq"),
        Leaf::Field { .. } => panic!("expected a bound leaf"),
    }
}

#[test]
fn leaf_keys_and_spines() {
    let leaf = Leaf::Bound { summary: "A: B".to_string() };
    assert_eq!(leaf_key(&leaf), "A: B");
    assert!(spine(Vec::new()).is_none());
    let tree = spine(vec!["root".to_string(), "mid".to_string(), "leaf".to_string()]).unwrap();
    assert_eq!(tree.label, "root");
    assert_eq!(tree.children.len(), 1);
    assert_eq!(tree.children[0].children[0].label, "leaf");
    assert!(tree.children[0].children[0].children.is_empty());
}

#[test]
fn causes_keep_one_per_key_in_order() {
    let cand = |reportable: bool, key: &str, leaf: u32, labels: &[&str]| CauseCandidate {
        reportable,
        key: key.to_string(),
        leaf,
        labels: labels.iter().map(|s| s.to_string()).collect(),
    };
    let causes = assemble_causes(vec![
        cand(true, "height", 1, &["a", "b"]),
        cand(false, "plumbing", 2, &["a"]),
        cand(true, "height", 3, &["a", "c"]),
        cand(true, "depth", 4, &[]),
        cand(true, "width", 5, &["w"]),
    ]);
    let leaves: Vec<u32> = causes.iter().map(|(l, _)| *l).collect();
    assert_eq!(leaves, vec![1, 5]);
    assert_eq!(causes[0].1.label, "a");
    assert_eq!(causes[1].1.label, "w");
}

#[test]
fn flush_plan_coalesces_by_signature() {
    let sigs = vec![
        None,
        Some("cause".to_string()),
        None,
        Some("other".to_string()),
        Some("cause".to_string()),
    ];
    assert_eq!(flush_plan(&sigs), vec![vec![0], vec![1, 4], vec![2], vec![3]]);
    assert!(flush_plan(&Vec::new()).is_empty());
}

#[test]
fn merged_consumers_keep_first_seen_order() {
    let lists = vec![
        vec!["CanArea".to_string(), "CanDraw".to_string()],
        vec!["CanDraw".to_string(), "CanScale".to_string()],
    ];
    assert_eq!(merged_consumers(&lists), vec!["CanArea", "CanDraw", "CanScale"]);
    assert_eq!(merged_spans(&vec![Some(span(1, 2)), None, Some(span(5, 9))]), vec![span(1, 2), span(5, 9)]);
}

#[test]
fn conflict_routes() {
    let primary = span(10, 20);
    let labels = vec![span(10, 20), span(40, 50)];
    let impls = vec![span(40, 50), span(10, 20)];
    assert!(route_conflict(ConflictTrait::Delegate, &primary, &labels, false, &impls)
        == Some(ConflictRoute::Rewrite { conflicting: 1, first: Some(0) }));
    assert!(route_conflict(ConflictTrait::Delegate, &span(0, 1), &labels, false, &impls).is_none());
    assert!(route_conflict(ConflictTrait::IsProviderFor, &primary, &labels, true, &impls)
        == Some(ConflictRoute::Suppress));
    assert!(route_conflict(ConflictTrait::IsProviderFor, &primary, &labels, false, &impls).is_none());
    assert!(route_conflict(ConflictTrait::Other, &primary, &labels, false, &impls)
        == Some(ConflictRoute::Namespace));
}

#[test]
fn provider_halves_drop_only_with_a_companion() {
    let primary = span(10, 20);
    let other = Span { lo: 40, hi: 50, ctxt: 3 };
    let impls = vec![
        LocalImpl { def_span: primary, trait_id: 1, is_provider_for: true },
        LocalImpl { def_span: primary, trait_id: 7, is_provider_for: false },
        LocalImpl { def_span: other, trait_id: 7, is_provider_for: false },
    ];
    assert!(suppressible_is_provider_for(&primary, &vec![primary, other], &impls));
    let lonely = vec![
        LocalImpl { def_span: primary, trait_id: 1, is_provider_for: true },
        LocalImpl { def_span: primary, trait_id: 7, is_provider_for: false },
        LocalImpl { def_span: other, trait_id: 8, is_provider_for: false },
    ];
    assert!(!suppressible_is_provider_for(&primary, &vec![primary, other], &lonely));
}

fn facts(key: Option<WiringKey>, redirect: Option<&str>, provider: Option<&str>) -> EntryFacts {
    EntryFacts { key, redirect: redirect.map(str::to_string), provider: provider.map(str::to_string) }
}

#[test]
fn conflicts_are_worded_by_shape() {
    let comp = || Some(WiringKey::Component("GreeterComponent".to_string()));
    match build_conflict("App", &facts(comp(), None, Some("GreetHello")), None, None) {
        Some(WiringConflict::Duplicate { context, key: WiringKey::Component(k) }) => {
            assert_eq!(context, "App");
            assert_eq!(k, "GreeterComponent");
        }
        _ => panic!("expected a duplicate"),
    }
    let first = facts(comp(), Some("@api.greet"), None);
    match build_conflict("App", &facts(comp(), None, Some("GreetHello")), Some(&first), None) {
        Some(WiringConflict::Redirect { path, provider, .. }) => {
            assert_eq!(path, "@api.greet");
            assert_eq!(provider, "GreetHello");
        }
        _ => panic!("expected a redirect collision"),
    }
    let a = facts(Some(WiringKey::Blanket("NsA".to_string())), None, None);
    let b = facts(Some(WiringKey::Blanket("NsB".to_string())), None, None);
    match build_conflict("App", &b, Some(&a), None) {
        Some(WiringConflict::MultipleNamespaces { first, second, .. }) => {
            assert_eq!(first, "NsA");
            assert_eq!(second, "NsB");
        }
        _ => panic!("expected several namespaces"),
    }
    assert!(matches!(
        build_namespace_conflict("MyNs", &b, Some(&a), None),
        Some(WiringConflict::Overlap { .. })
    ));
    let blanket = facts(Some(WiringKey::Blanket("Ns".to_string())), None, None);
    match build_conflict("App", &blanket, Some(&facts(comp(), None, Some("Direct"))), Some("@ns.greet")) {
        Some(WiringConflict::Redirect { path, provider, key: WiringKey::Component(k), .. }) => {
            assert_eq!(path, "@ns.greet");
            assert_eq!(provider, "Direct");
            assert_eq!(k, "GreeterComponent");
        }
        _ => panic!("expected a namespace redirect collision"),
    }
    assert!(build_conflict("App", &facts(None, None, None), None, None).is_none());
}

#[test]
fn keys_describe_their_surface_form() {
    let marker = adt(920, "AreaComponent", "app", Vec::new(), "AreaComponent");
    assert!(matches!(describe_key(&marker, None), Some(WiringKey::Component(n)) if n == "AreaComponent"));
    let path = path_cons(symbol("api"), nil());
    assert!(matches!(describe_key(&path, None), Some(WiringKey::Path(p)) if p == "@api"));
    assert!(matches!(describe_key(&param(1, "K"), Some("Ns".to_string())), Some(WiringKey::Blanket(n)) if n == "Ns"));
    assert!(describe_key(&param(1, "K"), None).is_none());
}

#[test]
fn terminal_leaves_are_classified() {
    let app = strukt(30, "App", &[("name", "String")]);
    let marker = adt(31, "GreeterComponent", "app", Vec::new(), "GreeterComponent");
    let wiring = trait_ref("DelegateComponent", "cgp_component", vec![ty(app.clone_like()), ty(marker)], "DelegateComponent<..>");
    match classify_terminal(&wiring, &app, None, None, false, &Vec::new()) {
        CauseLeaf::MissingWiring { component, owner } => {
            assert_eq!(component, "GreeterComponent");
            assert_eq!(owner, "App");
        }
        _ => panic!("expected a missing wiring"),
    }
    let provider = strukt(32, "GreetHello", &[]);
    let marker = adt(31, "GreeterComponent", "app", Vec::new(), "GreeterComponent");
    let on_provider = trait_ref("DelegateComponent", "cgp_component", vec![ty(provider), ty(marker)], "DelegateComponent<..>");
    let parent = trait_ref("Greeter", "app", Vec::new(), "Greeter");
    match classify_terminal(&on_provider, &app, Some(&parent), None, false, &Vec::new()) {
        CauseLeaf::NotAProvider { provider, provider_trait } => {
            assert_eq!(provider, "GreetHello");
            assert_eq!(provider_trait, "Greeter");
        }
        _ => panic!("expected a non-provider"),
    }
    let has_field = trait_ref("HasField", "cgp_field", vec![ty(app.clone_like()), ty(symbol("name"))], "HasField<..>");
    let mismatch = ProjectionFacts {
        assoc: "Value".to_string(),
        trait_name: "HasField".to_string(),
        owner: "App".to_string(),
        expected: "u64".to_string(),
        expected_reduced: Some("u64".to_string()),
        actual: None,
        component: None,
    };
    match classify_terminal(&has_field, &app, None, Some(&mismatch), false, &Vec::new()) {
        CauseLeaf::FieldTypeMismatch { name, expected, expected_normalized, actual, .. } => {
            assert_eq!(name, "name");
            assert_eq!(expected, "u64");
            assert_eq!(expected_normalized, None);
            assert_eq!(actual, "_");
        }
        _ => panic!("expected a field type mismatch"),
    }
}

fn impl_facts(header: HeaderFacts, bounds: Vec<BoundFacts>) -> ImplFacts {
    ImplFacts {
        impl_span: span(100, 200),
        context_param: Some(span(90, 95)),
        self_adt: Some("RectangleArea".to_string()),
        header: Some(header),
        bounds,
    }
}

#[test]
fn cgp_impl_misuses_are_detected() {
    let consumer_header = HeaderFacts {
        trait_ref_span: span(101, 110),
        from_expansion: false,
        trait_name: "CanCalculateArea".to_string(),
        consumer_of: Some("AreaCalculator".to_string()),
        is_provider: false,
    };
    let found = detect_cgp_impl_misuses(&vec![impl_facts(consumer_header, Vec::new())]);
    assert_eq!(found.len(), 1);
    match &found[0].misuse {
        CgpImplMisuse::ConsumerTrait { consumer, provider } => {
            assert_eq!(consumer, "CanCalculateArea");
            assert_eq!(provider, "AreaCalculator");
        }
        _ => panic!("expected a consumer-trait header"),
    }
    assert_eq!(found[0].self_ty, "RectangleArea");
    let provider_header = HeaderFacts {
        trait_ref_span: span(101, 110),
        from_expansion: false,
        trait_name: "AreaCalculator".to_string(),
        consumer_of: None,
        is_provider: true,
    };
    let bound = BoundFacts {
        trait_name: "CanCalculateArea".to_string(),
        consumer_of: Some("AreaCalculator".to_string()),
        name_span: Some(span(150, 160)),
        has_type_arg: true,
    };
    let bare_bound = BoundFacts { has_type_arg: false, ..bound.clone_bound() };
    let found = detect_cgp_impl_misuses(&vec![impl_facts(provider_header, vec![bound, bare_bound])]);
    assert_eq!(found.len(), 1);
    assert!(matches!(found[0].misuse, CgpImplMisuse::ConsumerProviderBound { .. }));
    assert_eq!(found[0].trait_ref_span, span(150, 160));
    let generated = HeaderFacts {
        trait_ref_span: span(101, 110),
        from_expansion: true,
        trait_name: "IsProviderFor".to_string(),
        consumer_of: None,
        is_provider: false,
    };
    assert!(detect_cgp_impl_misuses(&vec![impl_facts(generated, Vec::new())]).is_empty());
}

trait CloneBound {
    fn clone_bound(&self) -> BoundFacts;
}

impl CloneBound for BoundFacts {
    fn clone_bound(&self) -> BoundFacts {
        BoundFacts {
            trait_name: self.trait_name.clone(),
            consumer_of: self.consumer_of.clone(),
            name_span: self.name_span,
            has_type_arg: self.has_type_arg,
        }
    }
}

#[test]
fn orphan_registrations_are_recovered() {
    let orphan = |at: Span, key: WiringKey, table: bool| ImplSummary {
        def_span: at,
        trait_local: false,
        is_namespace_lookup: true,
        key_foreign_adt: true,
        trait_name: "DefaultNamespace".to_string(),
        key: Some(key),
        table_param: table,
    };
    let impls = vec![
        orphan(span(0, 5), WiringKey::Component("A".to_string()), false),
        orphan(span(10, 20), WiringKey::Path("@x".to_string()), true),
    ];
    let found = classify_orphan_conflict(&span(12, 14), &impls).unwrap();
    assert_eq!(found.namespace, "DefaultNamespace");
    assert!(matches!(found.key, WiringKey::Path(ref p) if p == "@x"));
    assert!(found.trigger == OrphanTrigger::Reopen);
    assert!(classify_orphan_conflict(&span(50, 60), &impls).is_none());
    let lone = vec![orphan(span(0, 5), WiringKey::Component("A".to_string()), false)];
    let found = classify_orphan_conflict(&span(50, 60), &lone).unwrap();
    assert!(found.trigger == OrphanTrigger::Register);
    let joined = vec![orphan(span(0, 5), WiringKey::Blanket("Ns".to_string()), false)];
    assert!(classify_orphan_conflict(&span(0, 5), &joined).is_none());
}

use cargo_cgp_driver::cache::{Fingerprint, NodeKey, ResolveCache, SubResult};
use cargo_cgp_driver::capability::{
    detect_missing_use_provider, detect_undeclared_capability, BoundOn, CapabilityFacts, TraitFacts,
};

fn key(hi: u64, lo: u64) -> NodeKey {
    NodeKey { fingerprint: Fingerprint { hi, lo }, obligation: "App: CanArea".to_string(), context: "App".to_string() }
}

#[test]
fn the_memo_gives_back_what_was_written() {
    let mut cache: ResolveCache<u32> = ResolveCache::new();
    assert!(cache.get(&key(1, 2)).is_none());
    cache.insert(key(1, 2), 10);
    cache.insert(key(3, 4), 20);
    assert_eq!(cache.get(&key(1, 2)), Some(&10));
    cache.insert(key(1, 2), 11);
    assert_eq!(cache.get(&key(1, 2)), Some(&11));
    assert_eq!(cache.get(&key(3, 4)), Some(&20));
    assert!(cache.get(&key(2, 1)).is_none());
    let cut: SubResult<u8> = SubResult::cut();
    assert!(cut.incomplete && cut.causes.is_empty() && cut.reachable.is_empty());
    let empty: SubResult<u8> = SubResult::empty(Fingerprint { hi: 9, lo: 9 });
    assert!(!empty.incomplete);
    assert_eq!(empty.reachable, vec![Fingerprint { hi: 9, lo: 9 }]);
}

#[test]
fn undeclared_capabilities_are_named() {
    let cap = |name: &str, at: Span, bounded: bool| CapabilityFacts { name: name.to_string(), def_span: at, bounded };
    let caps = vec![cap("CanLog", span(0, 5), false), cap("HasName", span(10, 20), false)];
    assert_eq!(detect_undeclared_capability(true, &caps, &vec![span(12, 13)]), Some("HasName".to_string()));
    assert_eq!(detect_undeclared_capability(true, &caps, &vec![span(100, 101)]), Some("CanLog".to_string()));
    assert_eq!(detect_undeclared_capability(false, &caps, &vec![span(12, 13)]), None);
    let bounded = vec![cap("CanLog", span(0, 5), true)];
    assert_eq!(detect_undeclared_capability(true, &bounded, &Vec::new()), None);
}

#[test]
fn missing_inner_provider_imports_are_named() {
    let tr = |id: u64, name: &str, is_provider: bool, has_method: bool| TraitFacts { id, name: name.to_string(), is_provider, has_method };
    let own = tr(1, "AreaCalculator", true, true);
    let found = detect_missing_use_provider("Inner", true, &own, &Vec::new(), &Vec::new()).unwrap();
    assert_eq!(found.inner, "Inner");
    assert_eq!(found.provider_trait, "AreaCalculator");
    let bounded = vec![BoundOn { trait_id: 1, self_param: Some("Inner".to_string()) }];
    assert!(detect_missing_use_provider("Inner", true, &own, &Vec::new(), &bounded).is_none());
    let other = tr(2, "Greeter", true, false);
    let providers = vec![tr(3, "Logger", true, true), tr(4, "Plain", false, true)];
    let found = detect_missing_use_provider("Inner", true, &other, &providers, &Vec::new()).unwrap();
    assert_eq!(found.provider_trait, "Logger");
    let ambiguous = vec![tr(3, "Logger", true, true), tr(5, "Tracer", true, true)];
    assert!(detect_missing_use_provider("Inner", true, &other, &ambiguous, &Vec::new()).is_none());
    assert!(detect_missing_use_provider("Inner", false, &own, &Vec::new(), &Vec::new()).is_none());
}

use cargo_cgp_driver::conflict::{classify_wiring_conflict, ConflictAction, EntryAt};

#[test]
fn wiring_conflicts_are_classified_end_to_end() {
    let comp = || Some(WiringKey::Component("GreeterComponent".to_string()));
    let entry = |at: Span, facts: EntryFacts| EntryAt { def_span: at, owner: "App".to_string(), facts };
    let table = vec![
        entry(span(40, 50), facts(comp(), None, Some("GreetHello"))),
        entry(span(10, 20), facts(comp(), None, Some("GreetBye"))),
    ];
    let labels = vec![span(10, 20), span(40, 50)];
    match classify_wiring_conflict(ConflictTrait::Delegate, &span(10, 20), &labels, false, &table, &Vec::new(), None) {
        Some(ConflictAction::Rewrite(WiringConflict::Duplicate { context, .. })) => assert_eq!(context, "App"),
        _ => panic!("expected a duplicate entry"),
    }
    assert!(matches!(
        classify_wiring_conflict(ConflictTrait::IsProviderFor, &span(10, 20), &labels, true, &table, &Vec::new(), None),
        Some(ConflictAction::Suppress)
    ));
    assert!(classify_wiring_conflict(ConflictTrait::Delegate, &span(0, 1), &labels, false, &table, &Vec::new(), None).is_none());
    let ns = vec![EntryAt { def_span: span(10, 20), owner: "MyNs".to_string(), facts: facts(comp(), None, None) }];
    match classify_wiring_conflict(ConflictTrait::Other, &span(10, 20), &labels, false, &Vec::new(), &ns, None) {
        Some(ConflictAction::Rewrite(WiringConflict::Duplicate { context, .. })) => assert_eq!(context, "MyNs"),
        _ => panic!("expected a namespace duplicate"),
    }
}

use cargo_cgp_driver::leaf::reportable_leaf;
use cargo_cgp_driver::predicate::{label_for, DepNode};
use cargo_cgp_driver::walk::{collect_leaf_paths, ObligationNode};

fn obligation(name: &str, krate: &str, args: Vec<GenericArg>, provider: bool, consumer: bool, holds: bool, deps: Option<Vec<usize>>) -> ObligationNode {
    let mut pred = trait_ref(name, krate, args, name);
    pred.id = ids_for(name);
    pred.trait_id = ids_for(name) + 1000;
    pred.is_provider = provider;
    pred.is_consumer = consumer;
    ObligationNode { pred, impl_deps: deps, holds, projection_mismatch: None }
}

fn ids_for(name: &str) -> u64 {
    name.bytes().map(u64::from).sum::<u64>() * 31 + name.len() as u64
}

#[test]
fn missing_height_is_traced_to_its_field() {
    // The rectangle example: `Rectangle` lacks the `height` field `RectangleArea` needs.
    let rect = || strukt(40, "Rectangle", &[("width", "f64")]);
    let provider = || strukt(41, "RectangleArea", &[]);
    let graph = vec![
        obligation("CanCalculateArea", "app", vec![ty(rect())], false, true, false, Some(vec![1])),
        obligation("AreaCalculator", "app", vec![ty(provider()), ty(rect())], true, false, false, Some(vec![2, 3])),
        obligation("HasField", "cgp_field", vec![ty(rect()), ty(symbol("width"))], false, false, true, Some(Vec::new())),
        obligation("HasField", "cgp_field", vec![ty(rect()), ty(symbol("height"))], false, false, false, None),
    ];
    // The two `HasField` obligations differ by their field.
    let mut graph = graph;
    graph[3].pred.id += 1;
    let paths = collect_leaf_paths(&graph, &rect(), 0, &Vec::new(), 0);
    assert_eq!(paths.len(), 1);
    assert_eq!(paths[0].preds, vec![0, 1, 3]);
    let leaf_ref = &graph[3].pred;
    assert!(reportable_leaf(leaf_ref, &rect(), true, false, false));
    match classify_terminal(leaf_ref, &rect(), Some(&graph[1].pred), None, false, &Vec::new()) {
        CauseLeaf::Field { name, owner, issue } => {
            assert_eq!(name, "height");
            assert_eq!(owner, "Rectangle");
            assert!(matches!(issue, FieldIssue::Missing));
        }
        _ => panic!("expected the missing field"),
    }
    match label_for(&graph[0].pred, &rect()) {
        Some(DepNode::Consumer { trait_ref, context }) => {
            assert_eq!(trait_ref, "CanCalculateArea");
            assert_eq!(context, "Rectangle");
        }
        _ => panic!("expected the consumer label"),
    }
    match label_for(&graph[1].pred, &rect()) {
        Some(DepNode::Provider { trait_ref, context, provider }) => {
            assert_eq!(trait_ref, "AreaCalculator");
            assert_eq!(context, "Rectangle");
            assert_eq!(provider, "RectangleArea");
        }
        _ => panic!("expected the provider label"),
    }
}

#[test]
fn component_parameters_render_as_a_generic_list() {
    let unit = Ty { id: 1, kind: TyKind::Tuple, args: Vec::new(), printed: "()".to_string() };
    assert_eq!(render_params(&unit), "");
    let single = adt(2, "Rectangle", "app", Vec::new(), "Rectangle");
    assert_eq!(render_params(&single), "<Rectangle>");
    let several = Ty {
        id: 3,
        kind: TyKind::Tuple,
        args: vec![ty(adt(4, "u32", "core", Vec::new(), "u32")), ty(adt(5, "bool", "core", Vec::new(), "bool"))],
        printed: "(u32, bool)".to_string(),
    };
    assert_eq!(render_params(&several), "<u32, bool>");
}

use cargo_cgp_driver::predicate::has_self_ty;
use cargo_cgp_driver::walk::{is_wf_graph, select_impl, ImplCandidate};
use cargo_cgp_driver::written::{literal_type, FloatWidth, IntSuffix, IntWidth, Literal, LiteralType};

#[test]
fn graphs_are_checked_before_the_walk() {
    let rect = || strukt(40, "Rectangle", &[("width", "f64")]);
    let good = vec![
        obligation("CanCalculateArea", "app", vec![ty(rect())], false, true, false, Some(vec![1])),
        obligation("HasField", "cgp_field", vec![ty(rect()), ty(symbol("height"))], false, false, false, None),
    ];
    assert!(is_wf_graph(&good));
    assert!(has_self_ty(&good[0].pred));
    let dangling = vec![obligation("CanCalculateArea", "app", vec![ty(rect())], false, true, false, Some(vec![1]))];
    assert!(!is_wf_graph(&dangling));
    let selfless = vec![obligation("Marker", "app", Vec::new(), false, false, false, None)];
    assert!(!has_self_ty(&selfless[0].pred));
    assert!(!is_wf_graph(&selfless));
    assert!(is_wf_graph(&Vec::new()));
}

#[test]
fn concrete_impls_are_preferred_over_blanket_ones() {
    let c = |unifies: bool, blanket: bool| ImplCandidate { unifies, blanket };
    assert_eq!(select_impl(&vec![c(true, true), c(false, false), c(true, false), c(true, false)]), Some(2));
    assert_eq!(select_impl(&vec![c(false, false), c(true, true), c(true, true)]), Some(1));
    assert_eq!(select_impl(&vec![c(false, false), c(false, true)]), None);
    assert_eq!(select_impl(&Vec::new()), None);
}

#[test]
fn literals_write_their_types() {
    assert_eq!(literal_type(Literal::Str), Some(LiteralType::StrRef));
    assert_eq!(literal_type(Literal::Bool), Some(LiteralType::Bool));
    assert_eq!(literal_type(Literal::Char), Some(LiteralType::Char));
    assert_eq!(literal_type(Literal::Byte), Some(LiteralType::Int { signed: false, width: IntWidth::W8 }));
    let suffix = IntSuffix { signed: true, width: IntWidth::W64 };
    assert_eq!(literal_type(Literal::Int { suffix: Some(suffix) }), Some(LiteralType::Int { signed: true, width: IntWidth::W64 }));
    assert_eq!(literal_type(Literal::Int { suffix: None }), None);
    assert_eq!(literal_type(Literal::Float { suffix: Some(FloatWidth::F32) }), Some(LiteralType::Float(FloatWidth::F32)));
    assert_eq!(literal_type(Literal::Float { suffix: None }), None);
    assert_eq!(literal_type(Literal::ByteStr), None);
    assert_eq!(literal_type(Literal::CStr), None);
    assert_eq!(literal_type(Literal::Invalid), None);
}
