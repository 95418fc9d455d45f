//! The root causes the typed resolver recovers, and how one is classified and rendered.

use vstd::prelude::*;

use crate::config::{CGP_FIELD_CRATE, HAS_FIELD_TRAIT};
use crate::text::{append, owned};
use crate::predicate::{is_has_field, self_ty, spec_is_has_field, spec_self_ty, wf_trait_ref, TraitRef};
use crate::ty_model::{arg_type, spec_arg_type, 
    adt_has_field, decode_symbol, is_cgp_item, spec_adt_has_field, spec_decode_symbol,
    spec_is_item, spec_type_at, type_at, Ty,
};

verus! {

/// Why a required `HasField` bound is unmet — the distinction that tells a genuinely missing
/// field apart from one some struct carries but has not derived.
pub enum FieldIssue {
    /// No struct in the context's `Deref` chain carries a field of this name.
    Missing,
    /// The struct itself carries a field of this name, yet the `HasField` bound is unmet: it is
    /// missing its `#[derive(HasField)]` for it.
    Present,
    /// The struct does not carry the field directly, but a struct reached through its `Deref`
    /// chain does; the fault is that the target does not derive `HasField`.
    PresentViaDeref {
        /// The `Deref`-reachable struct that carries the field.
        target: String,
    },
}

/// What a resolved dependency chain bottoms out on.
pub enum Leaf {
    /// A `HasField` bound the wiring needs.
    Field {
        /// The field name, decoded from its `Symbol!`.
        name: String,
        /// The struct the `HasField` bound lands on.
        owner: String,
        /// Whether the field is missing, present but underived, or behind a `Deref`.
        issue: FieldIssue,
    },
    /// Any other terminal unmet bound, restated as `self: Trait`.
    Bound { summary: String },
}

/// A `cargo tree`-style dependency tree: a label and the subtrees below it.
pub struct DependencyTree {
    pub label: String,
    pub children: Vec<DependencyTree>,
}

/// One recovered root cause: the leaf the chain bottoms out on and the chain leading to it.
pub struct Cause {
    pub leaf: Leaf,
    pub tree: DependencyTree,
}

/// The recovered root causes of a check failure.
pub struct Resolved {
    /// The checked context type, e.g. `Rectangle`.
    pub context: String,
    /// One entry per distinct root cause, in first-seen order.
    pub causes: Vec<Cause>,
}

/// The de-duplication key of a leaf: the field name for a field, the bound restatement
/// otherwise.
pub open spec fn spec_leaf_key(leaf: Leaf) -> Seq<char> {
    match leaf {
        Leaf::Field { name, .. } => name@,
        Leaf::Bound { summary } => summary@,
    }
}

/// The de-duplication key for a freshly classified leaf: a leaf reached by several dependency
/// paths is one fix.
pub fn leaf_key(leaf: &Leaf) -> (r: &str)
    ensures
        r@ == spec_leaf_key(*leaf),
{
    match leaf {
        Leaf::Field { name, .. } => name.as_str(),
        Leaf::Bound { summary } => summary.as_str(),
    }
}

impl Cause {
    /// A stable key that de-duplicates a leaf reached by several dependency paths.
    pub fn key(&self) -> (r: &str)
        ensures
            r@ == spec_leaf_key(self.leaf),
    {
        leaf_key(&self.leaf)
    }
}

/// The labels of a single-spine tree, root first.
pub open spec fn spec_tree_spine(tree: DependencyTree) -> Seq<Seq<char>>
    decreases tree,
{
    if tree.children@.len() == 1 {
        seq![tree.label@] + spec_tree_spine(tree.children@[0])
    } else {
        seq![tree.label@]
    }
}

/// Whether a tree is a single spine: every node has one child but the last, which has none.
pub open spec fn spec_is_spine(tree: DependencyTree) -> bool
    decreases tree,
{
    if tree.children@.len() == 1 {
        spec_is_spine(tree.children@[0])
    } else {
        tree.children@.len() == 0
    }
}

/// Fold a path's rendered labels into a single-spine dependency tree, root first; `None` for an
/// empty path.
pub fn spine(labels: Vec<String>) -> (r: Option<DependencyTree>)
    ensures
        match r {
            Some(tree) => labels@.len() > 0 && spec_is_spine(tree) && spec_tree_spine(tree)
                == labels@.map_values(|l: String| l@),
            None => labels@.len() == 0,
        },
{
    let ghost want = labels@.map_values(|l: String| l@);
    let mut labels = labels;
    let n = labels.len();
    if n == 0 {
        return None;
    }
    let last = labels.pop().unwrap();
    let mut node = DependencyTree { label: last, children: Vec::new() };
    let mut k: usize = n - 1;
    assert(want.subrange(k as int, n as int) =~= seq![node.label@]);
    while k > 0
        invariant
            k < n,
            n == want.len(),
            labels@.len() == k,
            forall|j: int| 0 <= j < k ==> #[trigger] labels@[j]@ == want[j],
            spec_is_spine(node),
            spec_tree_spine(node) == want.subrange(k as int, n as int),
        decreases k,
    {
        let label = labels.pop().unwrap();
        assert(label@ == want[k - 1]);
        let mut children = Vec::new();
        children.push(node);
        node = DependencyTree { label, children };
        assert(node.children@ =~= seq![node.children@[0]]);
        assert(want.subrange(k - 1, n as int) =~= seq![want[k - 1]] + want.subrange(
            k as int,
            n as int,
        ));
        k = k - 1;
    }
    assert(want.subrange(0, n as int) =~= want);
    Some(node)
}

/// How far a `Deref` chain is followed when looking for a field.
pub const MAX_DEREF: usize = 16;

/// The first link of the chain (within [`MAX_DEREF`]) that carries the field, if any.
pub open spec fn spec_first_deref_with_field(field: Seq<char>, chain: Seq<Ty>, from: int) -> Option<
    int,
>
    decreases chain.len() - from,
{
    if from < 0 || from >= chain.len() || from >= MAX_DEREF {
        None
    } else if spec_adt_has_field(chain[from], field) {
        Some(from)
    } else {
        spec_first_deref_with_field(field, chain, from + 1)
    }
}

/// Whether `issue` is the classification of the `HasField` bound on `owner` for `field`.
pub open spec fn field_issue_is(issue: FieldIssue, owner: Ty, field: Seq<char>, chain: Seq<Ty>) -> bool {
    if spec_adt_has_field(owner, field) {
        issue is Present
    } else {
        match spec_first_deref_with_field(field, chain, 0) {
            Some(k) => issue matches FieldIssue::PresentViaDeref { target } && target@
                == chain[k].printed@,
            None => issue is Missing,
        }
    }
}

/// Classify why the `HasField` bound on `owner` for `field` is unmet: whether `owner` carries
/// the field directly, reaches it only through a `Deref` target (the first along
/// `deref_chain`, followed at most [`MAX_DEREF`] links), or genuinely lacks it.
pub fn field_issue(owner: &Ty, field: &str, deref_chain: &Vec<Ty>) -> (r: FieldIssue)
    ensures
        field_issue_is(r, *owner, field@, deref_chain@),
{
    if adt_has_field(owner, field) {
        return FieldIssue::Present;
    }
    let mut k: usize = 0;
    while k < deref_chain.len() && k < MAX_DEREF
        invariant
            k <= deref_chain@.len(),
            k <= MAX_DEREF,
            !spec_adt_has_field(*owner, field@),
            spec_first_deref_with_field(field@, deref_chain@, k as int)
                == spec_first_deref_with_field(field@, deref_chain@, 0),
        decreases deref_chain@.len() - k,
    {
        if adt_has_field(&deref_chain[k], field) {
            let target = owned(deref_chain[k].printed.as_str());
            return FieldIssue::PresentViaDeref { target };
        }
        k = k + 1;
    }
    FieldIssue::Missing
}

/// The field a `HasField` obligation names, when it is a genuine CGP `HasField` whose field
/// type decodes from its `Symbol!`.
pub open spec fn spec_leaf_field(leaf_ref: TraitRef) -> Option<Seq<char>> {
    if spec_is_has_field(leaf_ref) {
        match spec_arg_type(leaf_ref.args@, 1) {
            Some(tag) => spec_decode_symbol(tag),
            None => None,
        }
    } else {
        None
    }
}

/// Classify the terminal obligation a dependency chain bottoms out on. A CGP `HasField` whose
/// field decodes becomes a [`Leaf::Field`] (inspecting the struct, and its `Deref` chain, so the
/// emitter can tell missing from underived); any other bound becomes a [`Leaf::Bound`]
/// restating it as `Self: Trait`.
pub fn classify_leaf(leaf_ref: &TraitRef, deref_chain: &Vec<Ty>) -> (r: Leaf)
    requires
        wf_trait_ref(*leaf_ref),
    ensures
        match spec_leaf_field(*leaf_ref) {
            Some(name) => r matches Leaf::Field { name: n, owner, issue } && n@ == name
                && owner@ == spec_self_ty(*leaf_ref).unwrap().printed@ && field_issue_is(
                issue,
                spec_self_ty(*leaf_ref).unwrap(),
                name,
                deref_chain@,
            ),
            None => r matches Leaf::Bound { summary } && summary@ == spec_self_ty(
                *leaf_ref,
            ).unwrap().printed@ + ": "@ + leaf_ref.path@,
        },
{
    let owner = self_ty(leaf_ref);
    if is_has_field(leaf_ref) {
        if let Some(tag) = arg_type(&leaf_ref.args, 1) {
            if let Some(name) = decode_symbol(tag) {
                let issue = field_issue(owner, name.as_str(), deref_chain);
                return Leaf::Field { name, owner: owned(owner.printed.as_str()), issue };
            }
        }
    }
    let mut summary = owned(owner.printed.as_str());
    append(&mut summary, ": ");
    append(&mut summary, leaf_ref.path.as_str());
    Leaf::Bound { summary }
}

/// One candidate root cause read off a collected path: whether its leaf is a reportable root
/// cause, the leaf's de-duplication key, the leaf itself, and the rendered labels of the path.
pub struct CauseCandidate<L> {
    pub reportable: bool,
    pub key: String,
    pub leaf: L,
    pub labels: Vec<String>,
}

/// The indices of the candidates among the first `n` that become causes: a reportable
/// candidate with a non-empty chain whose key no earlier cause carries.
pub open spec fn spec_selected<L>(cands: Seq<CauseCandidate<L>>, n: int) -> Seq<int>
    decreases n,
{
    if n <= 0 || n > cands.len() {
        Seq::empty()
    } else {
        let before = spec_selected(cands, n - 1);
        let c = cands[n - 1];
        if c.reportable && c.labels@.len() > 0 && !(exists|j: int|
            0 <= j < before.len() && #[trigger] cands[before[j]].key@ == c.key@) {
            before.push(n - 1)
        } else {
            before
        }
    }
}

/// One cause per root-cause key: the candidates kept among the first `n` come in order, carry
/// pairwise distinct keys, and every reportable candidate with a rendered chain has its key
/// among them — a leaf wanted by several branches is one fix, and none is lost.
pub proof fn law_one_cause_per_key<L>(cands: Seq<CauseCandidate<L>>, n: int)
    requires
        0 <= n <= cands.len(),
    ensures
        forall|a: int| 0 <= a < spec_selected(cands, n).len() ==> 0 <= #[trigger] spec_selected(cands, n)[a] < n,
        forall|a: int, b: int|
            0 <= a < b < spec_selected(cands, n).len() ==> spec_selected(cands, n)[a] < spec_selected(cands, n)[b]
                && cands[spec_selected(cands, n)[a]].key@ != cands[spec_selected(cands, n)[b]].key@,
        forall|i: int|
            0 <= i < n && cands[i].reportable && cands[i].labels@.len() > 0 ==> exists|a: int|
                0 <= a < spec_selected(cands, n).len() && cands[#[trigger] spec_selected(cands, n)[a]].key@
                    == cands[i].key@,
    decreases n,
{
    if n > 0 {
        law_one_cause_per_key(cands, n - 1);
        let before = spec_selected(cands, n - 1);
        let now = spec_selected(cands, n);
        assert forall|i: int|
            0 <= i < n && cands[i].reportable && cands[i].labels@.len() > 0 implies exists|a: int|
                0 <= a < now.len() && cands[#[trigger] now[a]].key@ == cands[i].key@ by {
            if i < n - 1 {
                let a = choose|a: int| 0 <= a < before.len() && cands[#[trigger] before[a]].key@ == cands[i].key@;
                assert(now[a] == before[a]);
            } else if now.len() > before.len() {
                assert(now[before.len() as int] == n - 1);
            } else {
                let j = choose|j: int| 0 <= j < before.len() && #[trigger] cands[before[j]].key@ == cands[n - 1].key@;
                assert(now[j] == before[j]);
            }
        }
    }
}

/// Fold the candidate causes of a resolution into its causes, in order: a candidate whose leaf
/// is not reportable (pure wiring plumbing) is dropped, and so is one whose key an earlier cause
/// already carries — a leaf wanted by several branches is one fix — or whose path rendered no
/// label. Each kept candidate's labels fold into its single-spine dependency tree.
pub fn assemble_causes<L>(candidates: Vec<CauseCandidate<L>>) -> (r: Vec<(L, DependencyTree)>)
    ensures
        r@.len() == spec_selected(candidates@, candidates@.len() as int).len(),
        forall|a: int|
            0 <= a < r@.len() ==> {
                let i = spec_selected(candidates@, candidates@.len() as int)[a];
                &&& #[trigger] r@[a].0 == candidates@[i].leaf
                &&& spec_is_spine(r@[a].1)
                &&& spec_tree_spine(r@[a].1) == candidates@[i].labels@.map_values(|l: String| l@)
            },
{
    let ghost orig = candidates@;
    let ghost n = orig.len() as int;
    let total = candidates.len();
    assert(n == total);
    let mut rest = candidates;
    let mut keys: Vec<String> = Vec::new();
    let mut r: Vec<(L, DependencyTree)> = Vec::new();
    let mut i: usize = 0;
    assert(orig.skip(0) =~= orig);
    while rest.len() > 0
        invariant
            n == orig.len(),
            n <= usize::MAX,
            i <= n,
            rest@ == orig.skip(i as int),
            keys@.len() == r@.len(),
            r@.len() == spec_selected(orig, i as int).len(),
            forall|a: int|
                0 <= a < keys@.len() ==> #[trigger] keys@[a]@ == orig[spec_selected(orig, i as int)[a]].key@,
            forall|a: int|
                0 <= a < r@.len() ==> {
                    let k = spec_selected(orig, i as int)[a];
                    &&& #[trigger] r@[a].0 == orig[k].leaf
                    &&& spec_is_spine(r@[a].1)
                    &&& spec_tree_spine(r@[a].1) == orig[k].labels@.map_values(|l: String| l@)
                },
        decreases rest@.len(),
    {
        let c = rest.remove(0);
        assert(c == orig[i as int]);
        assert(rest@ =~= orig.skip(i + 1));
        let ghost before = spec_selected(orig, i as int);
        let mut seen = false;
        let mut j: usize = 0;
        while j < keys.len()
            invariant
                j <= keys@.len(),
                keys@.len() == before.len(),
                forall|a: int| 0 <= a < keys@.len() ==> #[trigger] keys@[a]@ == orig[before[a]].key@,
                seen == exists|a: int| 0 <= a < j && #[trigger] orig[before[a]].key@ == c.key@,
            decreases keys@.len() - j,
        {
            if crate::text::str_eq(keys[j].as_str(), c.key.as_str()) {
                seen = true;
            }
            j = j + 1;
        }
        assert(i < n);
        if c.reportable && c.labels.len() > 0 && !seen {
            let key = crate::text::owned(c.key.as_str());
            let ghost want = orig[i as int].labels@.map_values(|l: String| l@);
            let ghost r_before = r@;
            let ghost keys_before = keys@;
            let tree = spine(c.labels).unwrap();
            keys.push(key);
            r.push((c.leaf, tree));
            let ghost now = spec_selected(orig, i + 1);
            assert(now == before.push(i as int));
            assert forall|a: int| 0 <= a < keys@.len() implies #[trigger] keys@[a]@ == orig[now[a]].key@ by {
                if a < keys_before.len() {
                    assert(keys@[a] == keys_before[a]);
                    assert(now[a] == before[a]);
                }
            }
            assert forall|a: int| 0 <= a < r@.len() implies {
                let k = now[a];
                &&& #[trigger] r@[a].0 == orig[k].leaf
                &&& spec_is_spine(r@[a].1)
                &&& spec_tree_spine(r@[a].1) == orig[k].labels@.map_values(|l: String| l@)
            } by {
                if a < r_before.len() {
                    assert(r@[a] == r_before[a]);
                    assert(now[a] == before[a]);
                } else {
                    assert(now[a] == i as int);
                    assert(spec_tree_spine(r@[a].1) == want);
                }
            }
        } else {
            assert(spec_selected(orig, i + 1) == before);
        }
        assert(forall|a: int|
                0 <= a < r@.len() ==> {
                    let k = spec_selected(orig, i + 1)[a];
                    &&& #[trigger] r@[a].0 == orig[k].leaf
                    &&& spec_is_spine(r@[a].1)
                    &&& spec_tree_spine(r@[a].1) == orig[k].labels@.map_values(|l: String| l@)
                });
        i = i + 1;
    }
    r
}

} // verus!
