//! Character-level string helpers the argument and message logic is built on.
//!
//! Every string in the library is reasoned about through its view, the `Seq<char>` of its
//! characters; these helpers compare, search and build strings at that level.

use vstd::prelude::*;

verus! {

/// Whether `needle` occurs in `s` as a contiguous run of characters.
pub open spec fn seq_contains(s: Seq<char>, needle: Seq<char>) -> bool {
    exists|i: int|
        0 <= i && i + needle.len() <= s.len() && #[trigger] s.subrange(i, i + needle.len())
            == needle
}

/// The characters of `s`, in order.
pub fn chars_of(s: &str) -> (v: Vec<char>)
    ensures
        v@ == s@,
{
    let mut v: Vec<char> = Vec::new();
    for c in it: s.chars()
        invariant
            v@ == it.seq().take(it.index() as int),
    {
        v.push(c);
    }
    v
}

/// Whether the character slices `a[a_from..a_from + n]` and `b[b_from..b_from + n]` agree.
pub fn chars_match_at(a: &Vec<char>, a_from: usize, b: &Vec<char>, b_from: usize, n: usize) -> (r:
    bool)
    requires
        a_from + n <= a.len(),
        b_from + n <= b.len(),
    ensures
        r == (a@.subrange(a_from as int, a_from + n) == b@.subrange(b_from as int, b_from + n)),
{
    let mut k: usize = 0;
    while k < n
        invariant
            k <= n,
            a_from + n <= a.len(),
            b_from + n <= b.len(),
            a@.subrange(a_from as int, a_from + k) == b@.subrange(b_from as int, b_from + k),
        decreases n - k,
    {
        if a[a_from + k] != b[b_from + k] {
            assert(a@.subrange(a_from as int, a_from + n)[k as int] != b@.subrange(
                b_from as int,
                b_from + n,
            )[k as int]);
            return false;
        }
        assert(a@.subrange(a_from as int, a_from + k + 1) =~= a@.subrange(a_from as int, a_from + k)
            .push(a@[a_from + k]));
        assert(b@.subrange(b_from as int, b_from + k + 1) =~= b@.subrange(b_from as int, b_from + k)
            .push(b@[b_from + k]));
        k = k + 1;
    }
    true
}

/// Whether two strings hold the same characters.
pub fn str_eq(a: &str, b: &str) -> (r: bool)
    ensures
        r == (a@ == b@),
{
    let av = chars_of(a);
    let bv = chars_of(b);
    if av.len() != bv.len() {
        return false;
    }
    let r = chars_match_at(&av, 0, &bv, 0, av.len());
    assert(av@.subrange(0, av@.len() as int) =~= av@);
    assert(bv@.subrange(0, bv@.len() as int) =~= bv@);
    r
}

/// Whether `s` begins with `prefix`.
pub fn starts_with(s: &str, prefix: &str) -> (r: bool)
    ensures
        r == prefix@.is_prefix_of(s@),
{
    let sv = chars_of(s);
    let pv = chars_of(prefix);
    if pv.len() > sv.len() {
        return false;
    }
    let r = chars_match_at(&sv, 0, &pv, 0, pv.len());
    assert(pv@.subrange(0, pv@.len() as int) =~= pv@);
    r
}

/// Whether `needle` occurs anywhere in `s`.
pub fn str_contains(s: &str, needle: &str) -> (r: bool)
    ensures
        r == seq_contains(s@, needle@),
{
    let sv = chars_of(s);
    let nv = chars_of(needle);
    if nv.len() > sv.len() {
        return false;
    }
    assert(nv@.subrange(0, nv@.len() as int) =~= nv@);
    let last = sv.len() - nv.len();
    let mut i: usize = 0;
    loop
        invariant
            i <= last,
            sv@ == s@,
            nv@ == needle@,
            last == sv@.len() - nv@.len(),
            nv@.len() <= sv@.len(),
            nv@.subrange(0, nv@.len() as int) == nv@,
            forall|j: int| 0 <= j < i ==> #[trigger] sv@.subrange(j, j + nv@.len()) != nv@,
        ensures
            forall|j: int| 0 <= j <= last ==> #[trigger] sv@.subrange(j, j + nv@.len()) != nv@,
        decreases last - i,
    {
        if chars_match_at(&sv, i, &nv, 0, nv.len()) {
            assert(s@.subrange(i as int, i + needle@.len()) == needle@);
            assert(seq_contains(s@, needle@));
            return true;
        }
        if i == last {
            break;
        }
        i = i + 1;
    }
    assert forall|j: int|
        0 <= j && j + nv@.len() <= sv@.len() implies #[trigger] sv@.subrange(j, j + nv@.len())
        != nv@ by {}
    false
}

/// Append one character to a string (std's `String::push`).
#[verifier::external_body]
pub(crate) fn push_char(s: &mut String, c: char)
    ensures
        final(s)@ == old(s)@.push(c),
{
    s.push(c);
}

/// A string holding exactly the characters of `chars[from..to]`.
pub fn string_from_chars(chars: &Vec<char>, from: usize, to: usize) -> (s: String)
    requires
        from <= to <= chars@.len(),
    ensures
        s@ == chars@.subrange(from as int, to as int),
{
    let mut s = String::new();
    let mut i: usize = from;
    while i < to
        invariant
            from <= i <= to <= chars@.len(),
            s@ == chars@.subrange(from as int, i as int),
        decreases to - i,
    {
        push_char(&mut s, chars[i]);
        assert(chars@.subrange(from as int, i + 1) =~= chars@.subrange(from as int, i as int).push(
            chars@[i as int],
        ));
        i = i + 1;
    }
    s
}

/// A fresh string holding the characters of `s`.
pub fn owned(s: &str) -> (r: String)
    ensures
        r@ == s@,
{
    s.to_owned()
}

/// `s` with `tail` appended.
pub fn append(s: &mut String, tail: &str)
    ensures
        final(s)@ == old(s)@ + tail@,
{
    s.append(tail);
}

/// The parts joined, in order, with `sep` between each neighbouring pair.
pub open spec fn seq_join(parts: Seq<Seq<char>>, sep: Seq<char>) -> Seq<char>
    decreases parts.len(),
{
    if parts.len() == 0 {
        Seq::empty()
    } else if parts.len() == 1 {
        parts[0]
    } else {
        seq_join(parts.drop_last(), sep) + sep + parts.last()
    }
}

/// The views of a list of strings.
pub open spec fn views(v: Seq<String>) -> Seq<Seq<char>> {
    v.map_values(|s: String| s@)
}

/// The strings of `parts` joined with `sep` between neighbours.
pub fn join(parts: &Vec<String>, sep: &str) -> (r: String)
    ensures
        r@ == seq_join(views(parts@), sep@),
{
    let mut r = String::new();
    let mut i: usize = 0;
    while i < parts.len()
        invariant
            i <= parts@.len(),
            r@ == seq_join(views(parts@).take(i as int), sep@),
        decreases parts@.len() - i,
    {
        assert(views(parts@).take(i + 1).drop_last() =~= views(parts@).take(i as int));
        if i > 0 {
            append(&mut r, sep);
        }
        append(&mut r, parts[i].as_str());
        if i == 0 {
            assert(r@ =~= views(parts@).take(1)[0]);
        }
        i = i + 1;
    }
    assert(views(parts@).take(i as int) =~= views(parts@));
    r
}

} // verus!
