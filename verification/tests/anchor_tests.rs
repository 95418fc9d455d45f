use cargo_cgp_driver::anchor::{
    check_targets, descend_wrapper_chain, is_capability_trait, ungroup_params, CheckTarget, HopNode,
    ParamKind, TraitNode,
};
use cargo_cgp_driver::ty_model::{AdtInfo, GenericArg, Ty, TyKind};

fn adt(id: u64, name: &str, krate: &str, args: Vec<GenericArg>) -> Ty {
    Ty {
        id,
        kind: TyKind::Adt(AdtInfo {
            name: name.to_string(),
            krate: krate.to_string(),
            path: format!("{krate}::{name}"),
            local: krate == "app",
            is_struct: true,
            fields: Vec::new(),
        }),
        args,
        printed: name.to_string(),
    }
}

fn marker(id: u64, name: &str) -> Ty {
    adt(id, name, "app", Vec::new())
}

fn tuple(id: u64, elems: Vec<Ty>) -> Ty {
    Ty { id, kind: TyKind::Tuple, args: elems.into_iter().map(GenericArg::Type).collect(), printed: "(..)".to_string() }
}

fn param(id: u64) -> Ty {
    Ty { id, kind: TyKind::Param, args: Vec::new(), printed: "__Key__".to_string() }
}

fn nil() -> Ty {
    adt(900, "Nil", "cgp_base_types", Vec::new())
}

fn path_cons(id: u64, head: Ty, tail: Ty) -> Ty {
    adt(id, "PathCons", "cgp_base_types", vec![GenericArg::Type(head), GenericArg::Type(tail)])
}

fn life(id: u64) -> Ty {
    adt(id, "Life", "cgp_field", vec![GenericArg::Lifetime])
}

fn ids(v: &Option<Vec<(&Ty, bool)>>) -> Option<Vec<(u64, bool)>> {
    v.as_ref().map(|args| args.iter().map(|(t, r)| (t.id, *r)).collect())
}

#[test]
fn unit_slot_for_a_parameterless_consumer() {
    let unit = tuple(1, Vec::new());
    assert_eq!(ids(&ungroup_params(&Vec::new(), &unit)), Some(Vec::new()));
    // A parameterless consumer takes nothing but the unit slot.
    let other = marker(2, "Rectangle");
    assert_eq!(ids(&ungroup_params(&Vec::new(), &other)), None);
}

#[test]
fn single_parameter_takes_the_whole_slot_even_a_tuple() {
    let pair = tuple(10, vec![marker(11, "A"), marker(12, "B")]);
    assert_eq!(ids(&ungroup_params(&vec![ParamKind::Type], &pair)), Some(vec![(10, false)]));
}

#[test]
fn several_parameters_spread_a_tuple_of_that_arity() {
    let pair = tuple(10, vec![marker(11, "A"), marker(12, "B")]);
    let kinds = vec![ParamKind::Type, ParamKind::Type];
    assert_eq!(ids(&ungroup_params(&kinds, &pair)), Some(vec![(11, false), (12, false)]));
    let three = vec![ParamKind::Type, ParamKind::Type, ParamKind::Type];
    assert_eq!(ids(&ungroup_params(&three, &pair)), None);
}

#[test]
fn lifetime_parameter_needs_the_life_lift() {
    let slot = tuple(20, vec![life(21), marker(22, "Input")]);
    let kinds = vec![ParamKind::Lifetime, ParamKind::Type];
    assert_eq!(ids(&ungroup_params(&kinds, &slot)), Some(vec![(21, true), (22, false)]));
    let not_life = tuple(23, vec![marker(24, "Life"), marker(22, "Input")]);
    assert_eq!(ids(&ungroup_params(&kinds, &not_life)), None);
}

#[test]
fn const_parameter_declines() {
    assert_eq!(ids(&ungroup_params(&vec![ParamKind::Const], &marker(30, "N"))), None);
}

#[test]
fn bare_markers_and_open_dispatch_keys() {
    let area = marker(100, "AreaCalculatorComponent");
    let encoder = marker(101, "ItemEncoderComponent");
    let dispatch = path_cons(102, marker(101, "ItemEncoderComponent"), path_cons(103, marker(104, "Value"), nil()));
    let blanket = param(105);
    let keys = vec![area, encoder, dispatch, blanket];
    let targets = check_targets(&keys);
    // The bare `ItemEncoderComponent` is dispatched by the redirect, and the blanket key is no
    // component: only the area marker and the redirect are re-checked.
    assert!(targets == vec![CheckTarget { key: 0, dispatch: false }, CheckTarget { key: 2, dispatch: true }]);
}

#[test]
fn generic_catch_all_dispatch_and_long_routes_are_skipped() {
    let generic = path_cons(110, marker(111, "SerializerComponent"), path_cons(112, param(113), nil()));
    let wildcard_tail = path_cons(114, marker(115, "HandlerComponent"), path_cons(116, marker(117, "Api"), param(118)));
    let three = path_cons(119, marker(120, "A"), path_cons(121, marker(122, "B"), path_cons(123, marker(124, "C"), nil())));
    let keys = vec![generic, wildcard_tail, three];
    let targets = check_targets(&keys);
    assert!(targets == vec![CheckTarget { key: 1, dispatch: true }]);
}

#[test]
fn namespace_joined_context_has_no_target() {
    assert!(check_targets(&vec![param(130)]).is_empty());
}

fn hop(handoff: bool, children: Option<Vec<usize>>, holds: bool) -> HopNode {
    HopNode { handoff, children, holds }
}

#[test]
fn wrapper_chain_reaches_the_consumer_through_its_hops() {
    // 0: CanAddMainApiRoutes → 1: CanAddRoute → 2: App: CanHandleApi (handoff); 3 holds.
    let g = vec![
        hop(false, Some(vec![1, 3]), false),
        hop(false, Some(vec![2]), false),
        hop(true, None, false),
        hop(false, Some(vec![2]), true),
    ];
    let hits = descend_wrapper_chain(&g, &vec![0]);
    assert_eq!(hits.len(), 1);
    assert_eq!(hits[0].handoff, 2);
    assert_eq!(hits[0].chain, vec![0, 1]);
}

#[test]
fn wrapper_chain_skips_met_roots_and_dead_ends() {
    let g = vec![
        hop(false, Some(vec![1]), true),
        hop(true, None, false),
        hop(false, None, false),
        hop(true, None, false),
    ];
    // Root 0 holds, root 2 has no impl, root 3 is itself the handoff.
    let hits = descend_wrapper_chain(&g, &vec![0, 2, 3]);
    assert_eq!(hits.len(), 1);
    assert_eq!(hits[0].handoff, 3);
    assert!(hits[0].chain.is_empty());
}

#[test]
fn wrapper_chain_gives_up_on_a_cycle() {
    let g = vec![hop(false, Some(vec![1]), false), hop(false, Some(vec![0]), false)];
    assert!(descend_wrapper_chain(&g, &vec![0]).is_empty());
}

fn trait_node(has_blanket: bool, local: bool, from_cgp_crate: bool, is_consumer: bool, bounds: Vec<usize>) -> TraitNode {
    TraitNode { has_blanket, local, from_cgp_crate, is_consumer, bounds }
}

#[test]
fn local_blanket_traits_are_capabilities() {
    let g = vec![trait_node(true, true, false, false, vec![]), trait_node(false, true, false, false, vec![])];
    assert!(is_capability_trait(&g, 0));
    // No blanket impl, no capability.
    assert!(!is_capability_trait(&g, 1));
}

#[test]
fn foreign_blankets_need_cgp_evidence() {
    // 0: a library capability bounded on 1: `HasField` (from a CGP crate).
    // 2: `ToString`-like, bounded on 3: `Display`, which is no CGP evidence.
    // 4: composed through 5, a capability over 6: a CGP consumer.
    let g = vec![
        trait_node(true, false, false, false, vec![1]),
        trait_node(false, false, true, false, vec![]),
        trait_node(true, false, false, false, vec![3]),
        trait_node(false, false, false, false, vec![]),
        trait_node(true, false, false, false, vec![5]),
        trait_node(true, false, false, false, vec![6]),
        trait_node(false, false, false, true, vec![]),
    ];
    assert!(is_capability_trait(&g, 0));
    assert!(!is_capability_trait(&g, 2));
    assert!(is_capability_trait(&g, 4));
}

#[test]
fn evidence_search_stops_at_its_depth() {
    // A chain of five foreign blanket traits ending on a CGP bound: too deep to count.
    let g = vec![
        trait_node(true, false, false, false, vec![1]),
        trait_node(true, false, false, false, vec![2]),
        trait_node(true, false, false, false, vec![3]),
        trait_node(true, false, false, false, vec![4]),
        trait_node(true, false, false, false, vec![5]),
        trait_node(false, false, true, false, vec![]),
    ];
    assert!(!is_capability_trait(&g, 0));
    assert!(is_capability_trait(&g, 2));
    // Two capabilities depending on each other do not loop.
    let cycle = vec![trait_node(true, false, false, false, vec![1]), trait_node(true, false, false, false, vec![0])];
    assert!(!is_capability_trait(&cycle, 0));
}
