//! Recognizing the front-end's expand-mode flag.

use vstd::prelude::*;

use crate::text::{chars_of, owned, push_char, starts_with, string_from_chars};

verus! {

/// Where the driver writes the finished expansion, when the front-end asked for one.
///
/// The request is the presence of `--cgp-expand=<path>` in the process arguments, which the
/// front-end appends after `cargo rustc`'s `--` so cargo puts it on exactly one target's rustc
/// invocation.
pub struct ExpandRequest {
    /// The file the expansion is written to, for the front-end to read and print.
    pub output: String,
}

/// The index of the first argument that begins with `prefix`, if any.
pub open spec fn first_with_prefix(args: Seq<Seq<char>>, prefix: Seq<char>) -> Option<int>
    decreases args.len(),
{
    if args.len() == 0 {
        None
    } else {
        match first_with_prefix(args.drop_last(), prefix) {
            Some(i) => Some(i),
            None => if prefix.is_prefix_of(args.last()) {
                Some(args.len() - 1)
            } else {
                None
            },
        }
    }
}

/// `first_with_prefix` picks an in-range index whose argument carries the prefix, and no
/// earlier argument does.
pub proof fn lemma_first_with_prefix(args: Seq<Seq<char>>, prefix: Seq<char>)
    ensures
        match first_with_prefix(args, prefix) {
            Some(i) => 0 <= i < args.len() && prefix.is_prefix_of(args[i]) && forall|j: int|
                0 <= j < i ==> !prefix.is_prefix_of(#[trigger] args[j]),
            None => forall|j: int| 0 <= j < args.len() ==> !prefix.is_prefix_of(#[trigger] args[j]),
        },
    decreases args.len(),
{
    if args.len() > 0 {
        let init = args.drop_last();
        lemma_first_with_prefix(init, prefix);
        assert forall|j: int| 0 <= j < init.len() implies init[j] == args[j] by {}
    }
}

/// Extending the arguments past a found match does not move it.
pub proof fn lemma_first_stable(args: Seq<Seq<char>>, prefix: Seq<char>, k: int)
    requires
        0 <= k <= args.len(),
        first_with_prefix(args.take(k), prefix).is_some(),
    ensures
        first_with_prefix(args, prefix) == first_with_prefix(args.take(k), prefix),
    decreases args.len() - k,
{
    if k < args.len() {
        assert(args.take(k + 1).drop_last() =~= args.take(k));
        lemma_first_stable(args, prefix, k + 1);
    } else {
        assert(args.take(k) =~= args);
    }
}

/// The argument vector, and the request, after taking the `flag=<path>` argument out: the first
/// argument that begins with `flag=` is removed, and it yields a request for the path after the
/// `=` unless that path is empty.
pub open spec fn spec_take_expand_request(args: Seq<Seq<char>>, flag: Seq<char>) -> (
    Seq<Seq<char>>,
    Option<Seq<char>>,
) {
    let prefix = flag + seq!['='];
    match first_with_prefix(args, prefix) {
        Some(i) => {
            let output = args[i].subrange(prefix.len() as int, args[i].len() as int);
            (args.remove(i), if output.len() == 0 {
                None
            } else {
                Some(output)
            })
        },
        None => (args, None),
    }
}

/// Take the expand-mode flag out of `args`, returning the request it carries.
///
/// The flag is removed, because it is no flag of rustc's and the compiler would reject it. Only
/// the `--cgp-expand=<path>` form is accepted: a spaced value would be indistinguishable from a
/// following rustc argument.
pub fn take_expand_request(args: &mut Vec<String>, flag: &str) -> (r: Option<ExpandRequest>)
    ensures
        final(args).deep_view() == spec_take_expand_request(old(args).deep_view(), flag@).0,
        match r {
            Some(req) => spec_take_expand_request(old(args).deep_view(), flag@).1 == Some(
                req.output@,
            ),
            None => spec_take_expand_request(old(args).deep_view(), flag@).1.is_none(),
        },
{
    let ghost start = args.deep_view();
    let mut prefix = owned(flag);
    push_char(&mut prefix, '=');
    let mut i: usize = 0;
    while i < args.len()
        invariant
            i <= args@.len(),
            args.deep_view() == start,
            start == old(args).deep_view(),
            prefix@ == flag@ + seq!['='],
            first_with_prefix(start.take(i as int), prefix@).is_none(),
        decreases args@.len() - i,
    {
        assert(start.take(i + 1).drop_last() =~= start.take(i as int));
        if starts_with(args[i].as_str(), prefix.as_str()) {
            assert(first_with_prefix(start.take(i + 1), prefix@) == Some(i as int));
            proof {
                lemma_first_stable(start, prefix@, i + 1);
            }
            let arg = args.remove(i);
            assert(args.deep_view() =~= start.remove(i as int));
            let chars = chars_of(arg.as_str());
            let pchars = chars_of(prefix.as_str());
            let n = pchars.len();
            assert(arg@ == start[i as int]);
            assert(prefix@.is_prefix_of(arg@));
            let output = string_from_chars(&chars, n, chars.len());
            if output.as_str().is_empty() {
                return None;
            }
            return Some(ExpandRequest { output });
        }
        i = i + 1;
    }
    assert(start.take(i as int) =~= start);
    None
}

} // verus!
