//! Coalescing buffered failures that share a root cause into one block at flush time.
//!
//! The emitter holds every diagnostic until the end of the compilation. A consumer-trait
//! failure carries a cause-only signature; at flush, all failures with one signature become a
//! single block at the position of the first, and every other diagnostic is emitted on its own
//! at its arrival position.

use vstd::prelude::*;

use crate::diag::{opt_view, Span};
use crate::text::{owned, str_eq, views};

verus! {

/// Whether the signature `a` equals `b`.
fn same_sig(a: &Option<String>, b: &Option<String>) -> (r: bool)
    ensures
        r == (opt_view(*a) == opt_view(*b)),
{
    match (a, b) {
        (Some(x), Some(y)) => str_eq(x.as_str(), y.as_str()),
        (None, None) => true,
        _ => false,
    }
}

/// The signatures as plain values.
pub open spec fn sig_views(sigs: Seq<Option<String>>) -> Seq<Option<Seq<char>>> {
    sigs.map_values(|s: Option<String>| opt_view(s))
}

/// Whether entry `i` opens a block: it coalesces with nothing, or it is the first with its
/// signature.
pub open spec fn is_leader(sigs: Seq<Option<Seq<char>>>, i: int) -> bool {
    sigs[i] is None || forall|j: int| 0 <= j < i ==> #[trigger] sigs[j] != sigs[i]
}

/// The entries among the first `n` whose signature is `x`, in order.
pub open spec fn members_upto(sigs: Seq<Option<Seq<char>>>, x: Seq<char>, n: int) -> Seq<usize>
    decreases n,
{
    if n <= 0 || n > sigs.len() {
        Seq::empty()
    } else {
        let before = members_upto(sigs, x, n - 1);
        if sigs[n - 1] == Some(x) {
            before.push((n - 1) as usize)
        } else {
            before
        }
    }
}

/// The block entry `i` opens: itself alone when it coalesces with nothing, otherwise every
/// entry with its signature.
pub open spec fn block_of(sigs: Seq<Option<Seq<char>>>, i: int) -> Seq<usize> {
    match sigs[i] {
        None => seq![i as usize],
        Some(x) => members_upto(sigs, x, sigs.len() as int),
    }
}

/// The blocks opened by the first `n` entries, in order.
pub open spec fn spec_flush_plan(sigs: Seq<Option<Seq<char>>>, n: int) -> Seq<Seq<usize>>
    decreases n,
{
    if n <= 0 || n > sigs.len() {
        Seq::empty()
    } else {
        let before = spec_flush_plan(sigs, n - 1);
        if is_leader(sigs, n - 1) {
            before.push(block_of(sigs, n - 1))
        } else {
            before
        }
    }
}

/// The member lists of a plan, as plain sequences.
pub open spec fn plan_view(plan: Seq<Vec<usize>>) -> Seq<Seq<usize>> {
    plan.map_values(|v: Vec<usize>| v@)
}

/// Whether no earlier entry shares entry `i`'s signature.
fn leads(sigs: &Vec<Option<String>>, i: usize) -> (r: bool)
    requires
        i < sigs@.len(),
    ensures
        r == is_leader(sig_views(sigs@), i as int),
{
    if sigs[i].is_none() {
        return true;
    }
    let mut j: usize = 0;
    while j < i
        invariant
            j <= i < sigs@.len(),
            sig_views(sigs@)[i as int] is Some,
            forall|k: int| 0 <= k < j ==> #[trigger] sig_views(sigs@)[k] != sig_views(sigs@)[i as int],
        decreases i - j,
    {
        if same_sig(&sigs[j], &sigs[i]) {
            assert(sig_views(sigs@)[j as int] == sig_views(sigs@)[i as int]);
            return false;
        }
        j = j + 1;
    }
    true
}

/// The entries sharing entry `i`'s (present) signature, in order.
fn members(sigs: &Vec<Option<String>>, i: usize) -> (r: Vec<usize>)
    requires
        i < sigs@.len(),
        sig_views(sigs@)[i as int] is Some,
    ensures
        r@ == members_upto(sig_views(sigs@), sig_views(sigs@)[i as int].unwrap(), sigs@.len() as int),
{
    let ghost x = sig_views(sigs@)[i as int].unwrap();
    let mut r: Vec<usize> = Vec::new();
    let mut j: usize = 0;
    while j < sigs.len()
        invariant
            j <= sigs@.len(),
            i < sigs@.len(),
            sig_views(sigs@)[i as int] == Some(x),
            r@ == members_upto(sig_views(sigs@), x, j as int),
        decreases sigs@.len() - j,
    {
        if same_sig(&sigs[j], &sigs[i]) {
            r.push(j);
        }
        j = j + 1;
    }
    r
}

/// Plan the flush of a buffer whose entries carry the coalescing signatures `sigs` (`None` for
/// an entry emitted on its own). Each block lists the entries it emits, in order: a block of
/// one entry is emitted as it is, a block of several is merged into one diagnostic at the
/// position of the first. Blocks come in the order of their first entry.
pub fn flush_plan(sigs: &Vec<Option<String>>) -> (r: Vec<Vec<usize>>)
    ensures
        plan_view(r@) == spec_flush_plan(sig_views(sigs@), sigs@.len() as int),
{
    let ghost sv = sig_views(sigs@);
    let mut plan: Vec<Vec<usize>> = Vec::new();
    let mut i: usize = 0;
    while i < sigs.len()
        invariant
            i <= sigs@.len(),
            sv == sig_views(sigs@),
            plan_view(plan@) == spec_flush_plan(sv, i as int),
        decreases sigs@.len() - i,
    {
        if leads(sigs, i) {
            let block = if sigs[i].is_none() {
                let mut one: Vec<usize> = Vec::new();
                one.push(i);
                assert(one@ =~= seq![i]);
                one
            } else {
                members(sigs, i)
            };
            let ghost before = plan@;
            plan.push(block);
            assert(plan_view(plan@) =~= plan_view(before).push(block@));
        }
        i = i + 1;
    }
    plan
}

/// Whether `i` is one of the members of `block`.
pub open spec fn in_block(block: Seq<usize>, i: int) -> bool {
    exists|k: int| 0 <= k < block.len() && block[k] == i
}

/// Whether some block of `plan` holds entry `i`.
pub open spec fn covered(plan: Seq<Seq<usize>>, i: int) -> bool {
    exists|b: int| 0 <= b < plan.len() && #[trigger] in_block(plan[b], i)
}

/// Every member of `members_upto(sigs, x, n)` is an entry before `n` with signature `x`, the
/// members increase, and every such entry is a member.
proof fn lemma_members(sigs: Seq<Option<Seq<char>>>, x: Seq<char>, n: int)
    requires
        0 <= n <= sigs.len(),
        sigs.len() <= usize::MAX,
    ensures
        forall|k: int|
            0 <= k < members_upto(sigs, x, n).len() ==> {
                let m = #[trigger] members_upto(sigs, x, n)[k];
                0 <= m < n && sigs[m as int] == Some(x)
            },
        forall|a: int, b: int|
            0 <= a < b < members_upto(sigs, x, n).len() ==> members_upto(sigs, x, n)[a]
                < members_upto(sigs, x, n)[b],
        forall|j: int| 0 <= j < n && sigs[j] == Some(x) ==> #[trigger] in_block(members_upto(sigs, x, n), j),
    decreases n,
{
    if n > 0 {
        lemma_members(sigs, x, n - 1);
        let before = members_upto(sigs, x, n - 1);
        let now = members_upto(sigs, x, n);
        if sigs[n - 1] == Some(x) {
            assert(now == before.push((n - 1) as usize));
        } else {
            assert(now == before);
        }
        assert forall|j: int| 0 <= j < n && sigs[j] == Some(x) implies #[trigger] in_block(now, j) by {
            if j < n - 1 {
                assert(in_block(before, j));
                let k = choose|k: int| 0 <= k < before.len() && before[k] == j;
                assert(now[k] == before[k]);
            } else {
                assert(now[before.len() as int] == j);
            }
        }
    }
}

/// The blocks of a flush plan partition the buffer: every entry is emitted in exactly one
/// block, at exactly one place in it; a block's members increase; a block of several entries
/// holds exactly the entries sharing one signature; an entry that coalesces with nothing is
/// alone in its block; and blocks come in the order of their first entry.
pub proof fn law_flush_plan_partitions(sigs: Seq<Option<Seq<char>>>)
    requires
        sigs.len() <= usize::MAX,
    ensures
        ({
            let plan = spec_flush_plan(sigs, sigs.len() as int);
            &&& forall|i: int|
                0 <= i < sigs.len() ==> #[trigger] covered(plan, i)
            &&& forall|b: int, c: int, i: int|
                0 <= b < plan.len() && 0 <= c < plan.len() && #[trigger] in_block(plan[b], i)
                    && #[trigger] in_block(plan[c], i) ==> b == c
            &&& forall|b: int, k1: int, k2: int|
                0 <= b < plan.len() && 0 <= k1 < k2 < plan[b].len() ==> #[trigger] plan[b][k1]
                    < #[trigger] plan[b][k2]
            &&& forall|b: int, k: int|
                0 <= b < plan.len() && 0 <= k < plan[b].len() ==> {
                    let m = #[trigger] plan[b][k];
                    &&& 0 <= m < sigs.len()
                    &&& sigs[m as int] == sigs[plan[b][0] as int]
                }
            &&& forall|b: int|
                0 <= b < plan.len() ==> plan[b].len() > 0 && (sigs[#[trigger] plan[b][0] as int] is None
                    ==> plan[b].len() == 1)
            &&& forall|b: int, c: int| 0 <= b < c < plan.len() ==> #[trigger] plan[b][0] < #[trigger] plan[c][0]
        }),
{
    lemma_plan(sigs, sigs.len() as int);
}

/// The plan over the first `n` entries covers them (and only later entries of their blocks),
/// with the block properties of [`law_flush_plan_partitions`].
proof fn lemma_plan(sigs: Seq<Option<Seq<char>>>, n: int)
    requires
        0 <= n <= sigs.len(),
        sigs.len() <= usize::MAX,
    ensures
        ({
            let plan = spec_flush_plan(sigs, n);
            &&& forall|i: int|
                0 <= i < n ==> #[trigger] covered(plan, i)
            &&& forall|b: int, c: int, i: int|
                0 <= b < plan.len() && 0 <= c < plan.len() && #[trigger] in_block(plan[b], i)
                    && #[trigger] in_block(plan[c], i) ==> b == c
            &&& forall|b: int, k1: int, k2: int|
                0 <= b < plan.len() && 0 <= k1 < k2 < plan[b].len() ==> #[trigger] plan[b][k1]
                    < #[trigger] plan[b][k2]
            &&& forall|b: int, k: int|
                0 <= b < plan.len() && 0 <= k < plan[b].len() ==> {
                    let m = #[trigger] plan[b][k];
                    &&& 0 <= m < sigs.len()
                    &&& sigs[m as int] == sigs[plan[b][0] as int]
                }
            &&& forall|b: int|
                0 <= b < plan.len() ==> plan[b].len() > 0 && (sigs[#[trigger] plan[b][0] as int] is None
                    ==> plan[b].len() == 1)
            &&& forall|b: int| 0 <= b < plan.len() ==> #[trigger] plan[b][0] < n && is_leader(sigs, plan[b][0] as int)
            &&& forall|b: int, c: int| 0 <= b < c < plan.len() ==> #[trigger] plan[b][0] < #[trigger] plan[c][0]
            &&& forall|b: int, i: int| 0 <= b < plan.len() && #[trigger] in_block(plan[b], i) && i < n
                ==> sigs[i] == sigs[plan[b][0] as int]
        }),
    decreases n,
{
    if n > 0 {
        lemma_plan(sigs, n - 1);
        let before = spec_flush_plan(sigs, n - 1);
        let plan = spec_flush_plan(sigs, n);
        let i = n - 1;
        if is_leader(sigs, i) {
            let blk = block_of(sigs, i);
            assert(plan == before.push(blk));
            match sigs[i] {
                None => {
                    assert(blk == seq![i as usize]);
                },
                Some(x) => {
                    lemma_members(sigs, x, sigs.len() as int);
                    assert(in_block(blk, i));
                    let k = choose|k: int| 0 <= k < blk.len() && blk[k] == i;
                    // nothing before `i` carries `x`, so `i` is the first member
                    if k > 0 {
                        let m = blk[0];
                        assert(m < blk[k]);
                        assert(sigs[m as int] == Some(x));
                        assert(sigs[m as int] != sigs[i]);
                    }
                    assert(blk[0] == i);
                },
            }
            // A member of the new block is never in an earlier one: earlier blocks hold other
            // signatures, or the new block's leader would not lead.
            assert forall|b: int, c: int, j: int|
                0 <= b < plan.len() && 0 <= c < plan.len() && #[trigger] in_block(plan[b], j)
                    && #[trigger] in_block(plan[c], j) implies b == c by {
                if b != c && (b == before.len() || c == before.len()) {
                    let old_b = if b == before.len() { c } else { b };
                    assert(plan[old_b] == before[old_b]);
                    assert(in_block(before[old_b], j));
                    let kk = choose|kk: int| 0 <= kk < before[old_b].len() && before[old_b][kk] == j;
                    assert(sigs[before[old_b][kk] as int] == sigs[before[old_b][0] as int]);
                    let lead = before[old_b][0] as int;
                    assert(lead < n - 1);
                    assert(in_block(blk, j));
                    let kn = choose|kn: int| 0 <= kn < blk.len() && blk[kn] == j;
                    match sigs[i] {
                        None => {
                            assert(j == i);
                            assert(sigs[lead] is None);
                            assert(before[old_b].len() == 1);
                            assert(kk == 0);
                            assert(false);
                        },
                        Some(x) => {
                            lemma_members(sigs, x, sigs.len() as int);
                            assert(sigs[blk[kn] as int] == Some(x));
                            assert(sigs[lead] == sigs[i]);
                            assert(false);
                        },
                    }
                }
            }
            assert forall|jj: int| 0 <= jj < n implies #[trigger] covered(plan, jj) by {
                if jj < n - 1 {
                    assert(covered(before, jj));
                    let b = choose|b: int| 0 <= b < before.len() && #[trigger] in_block(before[b], jj);
                    assert(plan[b] == before[b]);
                    assert(in_block(plan[b], jj));
                } else {
                    assert(plan[before.len() as int] == blk);
                    match sigs[i] {
                        None => {
                            assert(blk[0] == i);
                        },
                        Some(x) => {
                            lemma_members(sigs, x, sigs.len() as int);
                        },
                    }
                    assert(in_block(plan[before.len() as int], jj));
                }
            }
        } else {
            // `i` shares the signature of an earlier leader, whose block already holds it.
            let x = sigs[i].unwrap();
            assert(plan == before);
            let j0 = choose|j: int| 0 <= j < i && #[trigger] sigs[j] == sigs[i];
            assert(covered(before, j0));
            let b0 = choose|b: int| 0 <= b < before.len() && #[trigger] in_block(before[b], j0);
            let leader = before[b0][0] as int;
            assert(sigs[j0] == sigs[leader]);
            assert(sigs[leader] == Some(x));
            assert(block_of(sigs, leader) == before[b0]) by {
                lemma_block_is_leader_block(sigs, n - 1, b0);
            }
            lemma_members(sigs, x, sigs.len() as int);
            assert(in_block(before[b0], i));
        }
    }
}

/// Every block of the plan over the first `n` entries is the block its first entry opens.
proof fn lemma_block_is_leader_block(sigs: Seq<Option<Seq<char>>>, n: int, b: int)
    requires
        0 <= n <= sigs.len(),
        sigs.len() <= usize::MAX,
        0 <= b < spec_flush_plan(sigs, n).len(),
    ensures
        spec_flush_plan(sigs, n)[b] == block_of(sigs, spec_flush_plan(sigs, n)[b][0] as int),
        0 <= spec_flush_plan(sigs, n)[b][0] < n,
    decreases n,
{
    if n > 0 {
        let before = spec_flush_plan(sigs, n - 1);
        let i = n - 1;
        if !is_leader(sigs, i) {
            assert(spec_flush_plan(sigs, n) == before);
            lemma_block_is_leader_block(sigs, n - 1, b);
        } else {
            let blk = block_of(sigs, i);
            assert(spec_flush_plan(sigs, n) == before.push(blk));
            if b < before.len() {
                lemma_block_is_leader_block(sigs, n - 1, b);
            } else {
                match sigs[i] {
                    None => {
                        assert(blk == seq![i as usize]);
                        assert(blk[0] == i);
                    },
                    Some(x) => {
                        lemma_members(sigs, x, sigs.len() as int);
                        assert(in_block(blk, i));
                        let k = choose|k: int| 0 <= k < blk.len() && blk[k] == i;
                        if k > 0 {
                            let m = blk[0];
                            assert(m < blk[k]);
                            assert(sigs[m as int] == Some(x));
                        }
                        assert(blk[0] == i);
                    },
                }
            }
        }
    }
}

/// The distinct strings across `lists`, in first-seen order.
pub open spec fn distinct_in_order(items: Seq<Seq<char>>, n: int) -> Seq<Seq<char>>
    decreases n,
{
    if n <= 0 || n > items.len() {
        Seq::empty()
    } else {
        let before = distinct_in_order(items, n - 1);
        if before.contains(items[n - 1]) {
            before
        } else {
            before.push(items[n - 1])
        }
    }
}

/// Whether one of the first `n` items is `x`.
pub open spec fn among(items: Seq<Seq<char>>, n: int, x: Seq<char>) -> bool {
    exists|i: int| 0 <= i < n && #[trigger] items[i] == x
}

/// The merged consumer list names every consumer of every coalesced failure, each exactly once,
/// and nothing else.
pub proof fn law_merged_consumers_complete(lists: Seq<Vec<String>>)
    ensures
        ({
            let all = flatten_views(lists);
            let merged = distinct_in_order(all, all.len() as int);
            &&& forall|a: int, b: int| 0 <= a < b < merged.len() ==> merged[a] != merged[b]
            &&& forall|i: int| 0 <= i < all.len() ==> merged.contains(#[trigger] all[i])
            &&& forall|a: int| 0 <= a < merged.len() ==> among(all, all.len() as int, #[trigger] merged[a])
        }),
{
    let all = flatten_views(lists);
    lemma_distinct_in_order(all, all.len() as int);
}

/// `distinct_in_order` over the first `n` items is duplicate-free, holds each of them, and
/// nothing else.
proof fn lemma_distinct_in_order(items: Seq<Seq<char>>, n: int)
    requires
        0 <= n <= items.len(),
    ensures
        forall|a: int, b: int|
            0 <= a < b < distinct_in_order(items, n).len() ==> distinct_in_order(items, n)[a]
                != distinct_in_order(items, n)[b],
        forall|i: int| 0 <= i < n ==> distinct_in_order(items, n).contains(#[trigger] items[i]),
        forall|a: int|
            0 <= a < distinct_in_order(items, n).len() ==> among(items, n, #[trigger] distinct_in_order(items, n)[a]),
    decreases n,
{
    if n > 0 {
        lemma_distinct_in_order(items, n - 1);
        let before = distinct_in_order(items, n - 1);
        let now = distinct_in_order(items, n);
        assert forall|i: int| 0 <= i < n implies now.contains(#[trigger] items[i]) by {
            if i < n - 1 {
                assert(before.contains(items[i]));
                let k = choose|k: int| 0 <= k < before.len() && before[k] == items[i];
                assert(now[k] == before[k]);
            } else if !before.contains(items[n - 1]) {
                assert(now[before.len() as int] == items[n - 1]);
            }
        }
        assert forall|a: int| 0 <= a < now.len() implies among(items, n, #[trigger] now[a]) by {
            if a < before.len() {
                assert(now[a] == before[a]);
                assert(among(items, n - 1, before[a]));
                let i = choose|i: int| 0 <= i < n - 1 && #[trigger] items[i] == before[a];
                assert(items[i] == now[a]);
            } else {
                assert(items[n - 1] == now[a]);
            }
        }
    }
}

/// The lists concatenated, as plain values.
pub open spec fn flatten_views(lists: Seq<Vec<String>>) -> Seq<Seq<char>>
    decreases lists.len(),
{
    if lists.len() == 0 {
        Seq::empty()
    } else {
        flatten_views(lists.drop_last()) + views(lists.last()@)
    }
}

/// Whether `items` holds `item`.
fn holds(items: &Vec<String>, item: &str) -> (r: bool)
    ensures
        r == views(items@).contains(item@),
{
    let mut i: usize = 0;
    while i < items.len()
        invariant
            i <= items@.len(),
            forall|j: int| 0 <= j < i ==> #[trigger] views(items@)[j] != item@,
        decreases items@.len() - i,
    {
        if str_eq(items[i].as_str(), item) {
            assert(views(items@)[i as int] == item@);
            return true;
        }
        i = i + 1;
    }
    false
}

/// Every consumer named across the coalesced failures, each once, in first-seen order — the
/// consumer list of the merged header.
pub fn merged_consumers(lists: &Vec<Vec<String>>) -> (r: Vec<String>)
    ensures
        views(r@) == distinct_in_order(flatten_views(lists@), flatten_views(lists@).len() as int),
{
    let ghost all = flatten_views(lists@);
    let mut r: Vec<String> = Vec::new();
    let mut l: usize = 0;
    let ghost mut seen: int = 0;
    while l < lists.len()
        invariant
            l <= lists@.len(),
            all == flatten_views(lists@),
            seen == flatten_views(lists@.take(l as int)).len(),
            flatten_views(lists@.take(l as int)) == all.take(seen),
            views(r@) == distinct_in_order(all, seen),
        decreases lists@.len() - l,
    {
        proof {
            lemma_flatten_prefix(lists@, l as int);
        }
        let list = &lists[l];
        let mut k: usize = 0;
        while k < list.len()
            invariant
                k <= list@.len(),
                l < lists@.len(),
                list == lists@[l as int],
                all == flatten_views(lists@),
                flatten_views(lists@.take(l + 1)) == all.take(seen + list@.len()),
                seen + list@.len() <= all.len(),
                flatten_views(lists@.take(l + 1)) == flatten_views(lists@.take(l as int)) + views(list@),
                seen == flatten_views(lists@.take(l as int)).len(),
                views(r@) == distinct_in_order(all, seen + k),
            decreases list@.len() - k,
        {
            let item = list[k].as_str();
            assert(all[seen + k] == item@) by {
                let f = flatten_views(lists@.take(l + 1));
                assert(f[seen + k] == views(list@)[k as int]);
                assert(all.take(seen + list@.len())[seen + k] == all[seen + k]);
            }
            if !holds(&r, item) {
                let ghost before = r@;
                r.push(owned(item));
                assert(views(r@) =~= views(before).push(item@));
            }
            k = k + 1;
        }
        proof {
            seen = seen + list@.len();
        }
        l = l + 1;
    }
    assert(lists@.take(l as int) =~= lists@);
    assert(all.take(seen) =~= all);
    r
}

/// The concatenation of the first `l + 1` lists is that of the first `l` followed by list `l`,
/// and each is a prefix of the whole.
proof fn lemma_flatten_prefix(lists: Seq<Vec<String>>, l: int)
    requires
        0 <= l < lists.len(),
    ensures
        flatten_views(lists.take(l + 1)) == flatten_views(lists.take(l)) + views(lists[l]@),
        flatten_views(lists.take(l + 1)).len() <= flatten_views(lists).len(),
        flatten_views(lists.take(l + 1)) == flatten_views(lists).take(flatten_views(lists.take(l + 1)).len() as int),
        flatten_views(lists.take(l)) == flatten_views(lists).take(flatten_views(lists.take(l)).len() as int),
{
    assert(lists.take(l + 1).drop_last() =~= lists.take(l));
    lemma_flatten_is_prefix(lists, l + 1);
    lemma_flatten_is_prefix(lists, l);
}

/// The concatenation of the first `m` lists is a prefix of the concatenation of them all.
proof fn lemma_flatten_is_prefix(lists: Seq<Vec<String>>, m: int)
    requires
        0 <= m <= lists.len(),
    ensures
        flatten_views(lists.take(m)).len() <= flatten_views(lists).len(),
        flatten_views(lists.take(m)) == flatten_views(lists).take(flatten_views(lists.take(m)).len() as int),
    decreases lists.len() - m,
{
    if m == lists.len() {
        assert(lists.take(m) =~= lists);
        assert(flatten_views(lists).take(flatten_views(lists).len() as int) =~= flatten_views(lists));
    } else {
        lemma_flatten_is_prefix(lists, m + 1);
        assert(lists.take(m + 1).drop_last() =~= lists.take(m));
        let short = flatten_views(lists.take(m));
        let long = flatten_views(lists.take(m + 1));
        assert(long == short + views(lists[m]@));
        assert(short =~= long.take(short.len() as int));
        let all = flatten_views(lists);
        assert(all.take(short.len() as int) =~= all.take(long.len() as int).take(short.len() as int));
    }
}

/// The carets of a merged block: each member's first primary span, in order, skipping a member
/// that has none.
pub open spec fn merged_carets(primaries: Seq<Option<Span>>, n: int) -> Seq<Span>
    decreases n,
{
    if n <= 0 || n > primaries.len() {
        Seq::empty()
    } else {
        match primaries[n - 1] {
            Some(s) => merged_carets(primaries, n - 1).push(s),
            None => merged_carets(primaries, n - 1),
        }
    }
}

/// One caret per failing entry of a merged block, in arrival order.
pub fn merged_spans(primaries: &Vec<Option<Span>>) -> (r: Vec<Span>)
    ensures
        r@ == merged_carets(primaries@, primaries@.len() as int),
{
    let mut r: Vec<Span> = Vec::new();
    let mut i: usize = 0;
    while i < primaries.len()
        invariant
            i <= primaries@.len(),
            r@ == merged_carets(primaries@, i as int),
        decreases primaries@.len() - i,
    {
        match primaries[i] {
            Some(s) => r.push(s),
            None => {},
        }
        i = i + 1;
    }
    r
}

} // verus!
