//! A per-compilation memo of the typed resolver's walk.
//!
//! CGP wiring is lazy, so one mistake surfaces the same failure at many sites, and a shared
//! capability is a diamond reached from several parents. The memo stores each resolved node's
//! owned sub-result under the fingerprint of its region-erased obligation and root context, so a
//! repeated obligation is resolved once and reused. Only the fingerprint identifies a node; the
//! rendered obligation and context ride along for inspection.

use std::collections::HashMap;

use vstd::prelude::*;

verus! {

/// A stable 128-bit fingerprint, in two halves.
#[derive(Clone, Copy, Debug, PartialEq, Eq, Structural)]
pub struct Fingerprint {
    pub hi: u64,
    pub lo: u64,
}

/// The identity of a resolved node: the fingerprint of its obligation and root context, plus
/// their rendered forms, which never affect a lookup.
pub struct NodeKey {
    pub fingerprint: Fingerprint,
    pub obligation: String,
    pub context: String,
}

/// The owned result of resolving one node's subtree: its sub-causes, the fingerprints of every
/// obligation reachable within it, and whether a guard (the cycle guard or the depth cap)
/// curtailed it — an incomplete subtree is never cached.
pub struct SubResult<C> {
    pub causes: Vec<C>,
    pub reachable: Vec<Fingerprint>,
    pub incomplete: bool,
}

impl<C> SubResult<C> {
    /// A branch the cycle guard or depth cap cut: no causes, and flagged incomplete so it is
    /// never cached and taints every ancestor.
    pub fn cut() -> (r: Self)
        ensures
            r.causes@.len() == 0,
            r.reachable@.len() == 0,
            r.incomplete,
    {
        SubResult { causes: Vec::new(), reachable: Vec::new(), incomplete: true }
    }

    /// A complete node that reaches no reportable cause: it reaches only itself.
    pub fn empty(self_fp: Fingerprint) -> (r: Self)
        ensures
            r.causes@.len() == 0,
            r.reachable@ == seq![self_fp],
            !r.incomplete,
    {
        let mut reachable: Vec<Fingerprint> = Vec::new();
        reachable.push(self_fp);
        SubResult { causes: Vec::new(), reachable, incomplete: false }
    }
}

/// The resolver's memo: one entry per node fingerprint, held under the fingerprint's 128 bits.
pub struct ResolveCache<V> {
    entries: HashMap<u128, V>,
}

/// A fingerprint's 128 bits: its high half above its low half.
pub open spec fn fingerprint_bits(fp: Fingerprint) -> u128 {
    (fp.hi as int * 0x1_0000_0000_0000_0000 + fp.lo as int) as u128
}

/// Two fingerprints with the same bits are the same fingerprint.
proof fn lemma_fingerprint_bits_injective(a: Fingerprint, b: Fingerprint)
    ensures
        fingerprint_bits(a) == fingerprint_bits(b) ==> a == b,
{
    let x: int = a.hi as int * 0x1_0000_0000_0000_0000 + a.lo as int;
    let y: int = b.hi as int * 0x1_0000_0000_0000_0000 + b.lo as int;
    assert(0 <= x < 0x1_0000_0000_0000_0000_0000_0000_0000_0000);
    assert(0 <= y < 0x1_0000_0000_0000_0000_0000_0000_0000_0000);
    if x == y {
        if a.hi < b.hi {
            assert(x < y);
        } else if b.hi < a.hi {
            assert(y < x);
        }
    }
}

/// The bits of a fingerprint.
fn bits_of(fp: Fingerprint) -> (r: u128)
    ensures
        r == fingerprint_bits(fp),
{
    (fp.hi as u128) * 0x1_0000_0000_0000_0000u128 + (fp.lo as u128)
}

impl<V> View for ResolveCache<V> {
    type V = Map<Fingerprint, V>;

    closed spec fn view(&self) -> Map<Fingerprint, V> {
        Map::new(
            |fp: Fingerprint| self.entries@.contains_key(fingerprint_bits(fp)),
            |fp: Fingerprint| self.entries@[fingerprint_bits(fp)],
        )
    }
}

impl<V> ResolveCache<V> {
    /// An empty memo.
    pub fn new() -> (r: Self)
        ensures
            r@ == Map::<Fingerprint, V>::empty(),
    {
        let r = ResolveCache { entries: HashMap::new() };
        assert(r@ =~= Map::<Fingerprint, V>::empty());
        r
    }

    /// The stored sub-result for `key`, or `None` when the node has not been resolved yet.
    pub fn get(&self, key: &NodeKey) -> (r: Option<&V>)
        ensures
            match r {
                Some(v) => self@.contains_key(key.fingerprint) && *v == self@[key.fingerprint],
                None => !self@.contains_key(key.fingerprint),
            },
    {
        broadcast use vstd::std_specs::hash::group_hash_axioms;
        let bits = bits_of(key.fingerprint);
        self.entries.get(&bits)
    }

    /// Record a node's sub-result, replacing any earlier one for the same fingerprint.
    pub fn insert(&mut self, key: NodeKey, value: V)
        ensures
            final(self)@ == old(self)@.insert(key.fingerprint, value),
    {
        broadcast use vstd::std_specs::hash::group_hash_axioms;
        let bits = bits_of(key.fingerprint);
        self.entries.insert(bits, value);
        proof {
            assert forall|fp: Fingerprint| #[trigger] fingerprint_bits(fp) == bits implies fp == key.fingerprint by {
                lemma_fingerprint_bits_injective(fp, key.fingerprint);
            }
        }
        assert(self@ =~= old(self)@.insert(key.fingerprint, value));
    }
}

/// What the memo gives back of a write: right after `insert(k, v)`, a read of `k` gives `v`, and
/// a read of any other key gives what it gave before.
pub proof fn law_read_after_write<V>(before: Map<Fingerprint, V>, k: Fingerprint, v: V, other: Fingerprint)
    ensures
        before.insert(k, v).contains_key(k),
        before.insert(k, v)[k] == v,
        other != k ==> (before.insert(k, v).contains_key(other) == before.contains_key(other)),
        other != k && before.contains_key(other) ==> before.insert(k, v)[other] == before[other],
{
}

} // verus!
