//! Rebuilding the compiler's trailing "detailed explanations" footer from the error codes that
//! are still shown.

use vstd::prelude::*;

use crate::diag::{
    children_view, clone_children, clone_multispan, main_message_text, multispan_view,
    spec_main_message, Diag, Level,
};
use crate::text::{append, owned, push_char, seq_join, starts_with, views, join};

verus! {

/// The decimal digit for `d < 10`.
pub open spec fn spec_digit(d: nat) -> char {
    if d == 0 {
        '0'
    } else if d == 1 {
        '1'
    } else if d == 2 {
        '2'
    } else if d == 3 {
        '3'
    } else if d == 4 {
        '4'
    } else if d == 5 {
        '5'
    } else if d == 6 {
        '6'
    } else if d == 7 {
        '7'
    } else if d == 8 {
        '8'
    } else {
        '9'
    }
}

/// The decimal digits of `n`, most significant first, with no leading zeros.
pub open spec fn decimal(n: nat) -> Seq<char>
    decreases n,
{
    if n < 10 {
        seq![spec_digit(n)]
    } else {
        decimal(n / 10).push(spec_digit(n % 10))
    }
}

/// `count` zero characters.
pub open spec fn zeros(count: int) -> Seq<char> {
    Seq::new(if count > 0 { count as nat } else { 0 }, |i: int| '0')
}

/// An error code as the compiler prints it: `E` and its number in at least four digits
/// (`277` is `E0277`).
pub open spec fn spec_code_text(code: u32) -> Seq<char> {
    let digits = decimal(code as nat);
    seq!['E'] + zeros(4 - digits.len()) + digits
}

fn digit(d: u32) -> (c: char)
    requires
        d < 10,
    ensures
        c == spec_digit(d as nat),
{
    if d == 0 {
        '0'
    } else if d == 1 {
        '1'
    } else if d == 2 {
        '2'
    } else if d == 3 {
        '3'
    } else if d == 4 {
        '4'
    } else if d == 5 {
        '5'
    } else if d == 6 {
        '6'
    } else if d == 7 {
        '7'
    } else if d == 8 {
        '8'
    } else {
        '9'
    }
}

/// The number of decimal digits of `n`.
fn digit_count(n: u32) -> (r: usize)
    ensures
        r == decimal(n as nat).len(),
        1 <= r <= 10,
        n < 10 ==> r <= 1,
        n < 100 ==> r <= 2,
        n < 1000 ==> r <= 3,
        n < 10000 ==> r <= 4,
        n < 100000 ==> r <= 5,
        n < 1000000 ==> r <= 6,
        n < 10000000 ==> r <= 7,
        n < 100000000 ==> r <= 8,
        n < 1000000000 ==> r <= 9,
    decreases n,
{
    if n < 10 {
        1
    } else {
        let r = digit_count(n / 10);
        assert(decimal(n as nat).len() == decimal((n / 10) as nat).len() + 1);
        r + 1
    }
}

fn push_decimal(s: &mut String, n: u32)
    ensures
        final(s)@ == old(s)@ + decimal(n as nat),
    decreases n,
{
    if n >= 10 {
        push_decimal(s, n / 10);
    }
    push_char(s, digit(n % 10));
}

/// An error code as the compiler prints it, e.g. `E0277`.
pub fn code_text(code: u32) -> (r: String)
    ensures
        r@ == spec_code_text(code),
{
    let mut r = String::new();
    push_char(&mut r, 'E');
    let count = digit_count(code);
    assert(r@ =~= seq!['E'] + zeros(0));
    let mut k: usize = count;
    while k < 4
        invariant
            count <= k <= 4 || (count > 4 && k == count),
            r@ == seq!['E'] + zeros(k - count),
        decreases 4 - k,
    {
        push_char(&mut r, '0');
        assert(zeros(k + 1 - count) =~= zeros(k - count).push('0'));
        k = k + 1;
    }
    assert(zeros(k - count) =~= zeros(4 - decimal(code as nat).len()));
    push_decimal(&mut r, code);
    r
}

/// Whether `s` is strictly increasing.
pub open spec fn strictly_increasing(s: Seq<u32>) -> bool {
    forall|a: int, b: int| 0 <= a < b < s.len() ==> s[a] < s[b]
}

/// The codes carried by the diagnostics.
pub open spec fn present_codes(codes: Seq<Option<u32>>) -> Set<u32> {
    Set::new(|c: u32| exists|i: int| 0 <= i < codes.len() && #[trigger] codes[i] == Some(c))
}

/// Insert `code` into the strictly increasing `sorted`, unless it is already there.
fn insert_sorted(sorted: &mut Vec<u32>, code: u32)
    requires
        strictly_increasing(old(sorted)@),
    ensures
        strictly_increasing(final(sorted)@),
        final(sorted)@.to_set() == old(sorted)@.to_set().insert(code),
{
    let mut p: usize = 0;
    while p < sorted.len() && sorted[p] < code
        invariant
            p <= sorted@.len(),
            forall|j: int| 0 <= j < p ==> sorted@[j] < code,
        decreases sorted@.len() - p,
    {
        p = p + 1;
    }
    if p < sorted.len() && sorted[p] == code {
        assert(sorted@.to_set() =~= sorted@.to_set().insert(code)) by {
            assert(sorted@.to_set().contains(sorted@[p as int]));
        }
        return;
    }
    let ghost before = sorted@;
    sorted.insert(p, code);
    assert(sorted@ =~= before.take(p as int).push(code) + before.skip(p as int));
    assert(sorted@.to_set() =~= before.to_set().insert(code)) by {
        assert forall|x: u32| sorted@.to_set().contains(x) implies before.to_set().insert(code).contains(x) by {
            let i = choose|i: int| 0 <= i < sorted@.len() && #[trigger] sorted@[i] == x;
            if i < p {
                assert(before[i] == x);
            } else if i > p {
                assert(before[i - 1] == x);
            }
        }
        assert forall|x: u32| before.to_set().insert(code).contains(x) implies sorted@.to_set().contains(x) by {
            if x == code {
                assert(sorted@[p as int] == code);
            } else {
                let i = choose|i: int| 0 <= i < before.len() && #[trigger] before[i] == x;
                if i < p {
                    assert(sorted@[i] == x);
                } else {
                    assert(sorted@[i + 1] == x);
                }
            }
        }
    }
}

/// The distinct codes among `codes`, in increasing order.
pub fn sorted_codes(codes: &Vec<Option<u32>>) -> (r: Vec<u32>)
    ensures
        strictly_increasing(r@),
        r@.to_set() == present_codes(codes@),
{
    let mut sorted: Vec<u32> = Vec::new();
    let mut i: usize = 0;
    while i < codes.len()
        invariant
            i <= codes@.len(),
            strictly_increasing(sorted@),
            sorted@.to_set() == present_codes(codes@.take(i as int)),
        decreases codes@.len() - i,
    {
        let ghost before = sorted@.to_set();
        match codes[i] {
            Some(c) => {
                insert_sorted(&mut sorted, c);
                assert(present_codes(codes@.take(i + 1)) =~= before.insert(c)) by {
                    assert forall|x: u32| present_codes(codes@.take(i + 1)).contains(x) implies before.insert(c).contains(x) by {
                        let j = choose|j: int| 0 <= j < i + 1 && #[trigger] codes@.take(i + 1)[j] == Some(x);
                        if j < i {
                            assert(codes@.take(i as int)[j] == Some(x));
                        }
                    }
                    assert forall|x: u32| before.insert(c).contains(x) implies present_codes(codes@.take(i + 1)).contains(x) by {
                        if x == c {
                            assert(codes@.take(i + 1)[i as int] == Some(x));
                        } else {
                            let j = choose|j: int| 0 <= j < i && #[trigger] codes@.take(i as int)[j] == Some(x);
                            assert(codes@.take(i + 1)[j] == Some(x));
                        }
                    }
                }
            },
            None => {
                assert(present_codes(codes@.take(i + 1)) =~= before) by {
                    assert forall|x: u32| present_codes(codes@.take(i + 1)).contains(x) implies before.contains(x) by {
                        let j = choose|j: int| 0 <= j < i + 1 && #[trigger] codes@.take(i + 1)[j] == Some(x);
                        assert(j < i);
                        assert(codes@.take(i as int)[j] == Some(x));
                    }
                    assert forall|x: u32| before.contains(x) implies present_codes(codes@.take(i + 1)).contains(x) by {
                        let j = choose|j: int| 0 <= j < i && #[trigger] codes@.take(i as int)[j] == Some(x);
                        assert(codes@.take(i + 1)[j] == Some(x));
                    }
                }
            },
        }
        i = i + 1;
    }
    assert(codes@.take(i as int) =~= codes@);
    sorted
}

/// The lead of the footer line that lists every code with an explanation.
pub const LIST_LEAD: &'static str = "Some errors have detailed explanations:";

/// The lead of the footer line that points at `rustc --explain`.
pub const POINTER_LEAD: &'static str = "For more information about";

/// The rebuilt list line for the increasing codes `codes`.
pub open spec fn spec_list_line(codes: Seq<u32>) -> Seq<char> {
    LIST_LEAD@ + " "@ + seq_join(codes.map_values(|c: u32| spec_code_text(c)), ", "@) + "."@
}

/// The rebuilt pointer line naming `first`, singular when it is the only code shown.
pub open spec fn spec_pointer_line(first: u32, only: bool) -> Seq<char> {
    if only {
        "For more information about this error, try `rustc --explain "@ + spec_code_text(first)
            + "`."@
    } else {
        "For more information about an error, try `rustc --explain "@ + spec_code_text(first)
            + "`."@
    }
}

/// Whether `note` is `template` with `text` as its only message.
pub open spec fn is_footer_note(note: Diag, template: Diag, text: Seq<char>) -> bool {
    &&& note.level == template.level
    &&& note.code == template.code
    &&& multispan_view(note.span) == multispan_view(template.span)
    &&& children_view(note.children@) == children_view(template.children@)
    &&& note.suggestions == template.suggestions
    &&& note.messages@.len() == 1
    &&& note.messages@[0] matches Some(m) && m@ == text
}

/// A copy of `template` with `text` as its only message (keeping the `FailureNote` level and
/// the spans of the original footer line).
fn footer_note(template: &Diag, text: String) -> (r: Diag)
    ensures
        is_footer_note(r, *template, text@),
{
    let mut messages: Vec<Option<String>> = Vec::new();
    messages.push(Some(text));
    Diag {
        level: template.level,
        code: template.code,
        messages,
        span: clone_multispan(&template.span),
        children: clone_children(&template.children),
        suggestions: template.suggestions,
    }
}

/// Whether `diag` is a footer line this rebuild rewrites: a `FailureNote` whose plain main
/// message starts with one of the two leads.
pub open spec fn is_footer(diag: Diag) -> bool {
    &&& diag.level == Level::FailureNote
    &&& spec_main_message(diag) matches Some(t) && (LIST_LEAD@.is_prefix_of(t)
        || POINTER_LEAD@.is_prefix_of(t))
}

/// What a footer line becomes when `shown` are the codes of the diagnostics still shown.
pub open spec fn footer_rebuilt(r: Seq<Diag>, diag: Diag, shown: Seq<Option<u32>>) -> bool {
    let text = spec_main_message(diag).unwrap();
    let codes = present_codes(shown);
    if LIST_LEAD@.is_prefix_of(text) {
        if codes.len() < 2 {
            r.len() == 0
        } else {
            r.len() == 1 && exists|sorted: Seq<u32>|
                strictly_increasing(sorted) && sorted.to_set() == codes && is_footer_note(
                    #[trigger] r[0],
                    diag,
                    spec_list_line(sorted),
                )
        }
    } else if codes.len() == 0 {
        r.len() == 0
    } else {
        r.len() == 1 && exists|sorted: Seq<u32>|
            strictly_increasing(sorted) && sorted.to_set() == codes && is_footer_note(
                #[trigger] r[0],
                diag,
                spec_pointer_line(sorted[0], codes.len() == 1),
            )
    }
}

/// Rebuild the trailing "detailed explanations" footer from `shown`, the error codes of the
/// diagnostics still in the emitter's buffer. The compiler builds the footer from every code it
/// registered, including cascade siblings the emitter then dropped, so left alone it would list
/// codes for errors no longer shown. The list line survives only for two or more codes; the
/// pointer line is singular for one code, plural for several, and dropped for none. `None` when
/// `diag` is not a footer line.
pub fn rebuild_footer(diag: &Diag, shown: &Vec<Option<u32>>) -> (r: Option<Vec<Diag>>)
    ensures
        match r {
            None => !is_footer(*diag),
            Some(v) => is_footer(*diag) && footer_rebuilt(v@, *diag, shown@),
        },
{
    if diag.level != Level::FailureNote {
        return None;
    }
    let text = match main_message_text(diag) {
        Some(t) => t,
        None => return None,
    };
    let is_list = starts_with(text, LIST_LEAD);
    let is_pointer = starts_with(text, POINTER_LEAD);
    if !is_list && !is_pointer {
        return None;
    }
    let codes = sorted_codes(shown);
    proof {
        codes@.unique_seq_to_set();
    }
    assert(codes@.no_duplicates()) by {
        assert forall|a: int, b: int| 0 <= a < codes@.len() && 0 <= b < codes@.len() && a != b implies codes@[a] != codes@[b] by {
            if a < b {
                assert(codes@[a] < codes@[b]);
            } else {
                assert(codes@[b] < codes@[a]);
            }
        }
    }
    let ghost set_len = codes@.to_set().len();
    assert(set_len == codes@.len());
    let mut out: Vec<Diag> = Vec::new();
    if is_list {
        if codes.len() < 2 {
            return Some(out);
        }
        let mut texts: Vec<String> = Vec::new();
        let mut i: usize = 0;
        while i < codes.len()
            invariant
                i <= codes@.len(),
                views(texts@) == codes@.take(i as int).map_values(|c: u32| spec_code_text(c)),
            decreases codes@.len() - i,
        {
            let ghost before = texts@;
            texts.push(code_text(codes[i]));
            assert(views(texts@) =~= views(before).push(spec_code_text(codes@[i as int])));
            assert(codes@.take(i + 1).map_values(|c: u32| spec_code_text(c)) =~= codes@.take(
                i as int,
            ).map_values(|c: u32| spec_code_text(c)).push(spec_code_text(codes@[i as int])));
            i = i + 1;
        }
        assert(codes@.take(i as int) =~= codes@);
        let mut line = owned(LIST_LEAD);
        append(&mut line, " ");
        let joined = join(&texts, ", ");
        append(&mut line, joined.as_str());
        append(&mut line, ".");
        out.push(footer_note(diag, line));
        return Some(out);
    }
    if codes.len() == 0 {
        return Some(out);
    }
    let first = code_text(codes[0]);
    let mut line = if codes.len() == 1 {
        owned("For more information about this error, try `rustc --explain ")
    } else {
        owned("For more information about an error, try `rustc --explain ")
    };
    append(&mut line, first.as_str());
    append(&mut line, "`.");
    out.push(footer_note(diag, line));
    Some(out)
}

} // verus!
