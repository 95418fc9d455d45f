//! A plain-value model of the compiler's types, and the structural reading of CGP's type-level
//! spines over it.
//!
//! The resolver reads compiler types only to recognize CGP's own items (anchored by name *and*
//! defining crate, so a same-named item elsewhere never matches), to walk the right-nested
//! spines CGP encodes lists, strings and paths as, and to print a type. A [`Ty`] holds exactly
//! those facts: the kind of the type, its generic arguments, the defining item of an ADT, and
//! the type's printed form. Two types are the same type exactly when their `id`s agree (the
//! compiler interns region-erased types, and the model keeps that identity).

use vstd::prelude::*;

use crate::config::{
    CGP_BASE_TYPES_CRATE, CGP_COMPONENT_CRATE, CGP_FIELD_CRATE, CHARS_TYPE, CONS_TYPE, EITHER_TYPE,
    FIELD_TYPE, NIL_TYPE, PATH_CONS_TYPE, REDIRECT_LOOKUP_TYPE, SYMBOL_TYPE, VOID_TYPE,
};
use crate::text::{append, join, owned, push_char, seq_join, str_eq, views};

verus! {

/// One named field of a struct, with its (instantiated, printed) type.
pub struct FieldDef {
    pub name: String,
    pub ty: String,
}

/// The defining item of an ADT.
pub struct AdtInfo {
    /// The item's own name, e.g. `Symbol`.
    pub name: String,
    /// The name of the crate that defines the item, e.g. `cgp_base_types`.
    pub krate: String,
    /// The item's full path, e.g. `app::components::AreaCalculatorComponent`.
    pub path: String,
    /// Whether the item is defined by the crate being compiled.
    pub local: bool,
    /// Whether the item is a struct (rather than an enum or union).
    pub is_struct: bool,
    /// The struct's named fields, in declaration order (empty for anything but a struct).
    pub fields: Vec<FieldDef>,
}

/// The kind of a type, as far as the resolver distinguishes kinds.
pub enum TyKind {
    /// A struct, enum or union.
    Adt(AdtInfo),
    /// A tuple; its arguments are its element types.
    Tuple,
    /// A generic type parameter.
    Param,
    /// A placeholder standing for a type the code leaves to inference.
    Placeholder,
    /// Any other type (a reference, slice, array, pointer, ...); its arguments are its
    /// component types.
    Other,
}

/// A generic argument of a type.
pub enum GenericArg {
    Type(Ty),
    /// A const argument, with its value when it is an evaluated 32-bit scalar.
    Const(Option<u32>),
    Lifetime,
}

/// A type.
pub struct Ty {
    /// The interned identity of the region-erased type.
    pub id: u64,
    pub kind: TyKind,
    /// The generic arguments of an ADT, the elements of a tuple, or the components of another
    /// type.
    pub args: Vec<GenericArg>,
    /// The type as the compiler prints it.
    pub printed: String,
}

/// Whether `t` is the ADT `name` defined by crate `krate`.
pub open spec fn spec_is_item(t: Ty, name: Seq<char>, krate: Seq<char>) -> bool {
    match t.kind {
        TyKind::Adt(info) => info.name@ == name && info.krate@ == krate,
        _ => false,
    }
}

/// The `i`th of `args`, when it is a type.
pub open spec fn spec_arg_type(args: Seq<GenericArg>, i: int) -> Option<Ty> {
    if 0 <= i < args.len() {
        match args[i] {
            GenericArg::Type(a) => Some(a),
            _ => None,
        }
    } else {
        None
    }
}

/// The `i`th generic argument of `t`, when it is a type.
pub open spec fn spec_type_at(t: Ty, i: int) -> Option<Ty> {
    spec_arg_type(t.args@, i)
}

/// The value of the `i`th generic argument of `t`, when it is an evaluated scalar const.
pub open spec fn spec_const_at(t: Ty, i: int) -> Option<u32> {
    if 0 <= i < t.args@.len() {
        match t.args@[i] {
            GenericArg::Const(v) => v,
            _ => None,
        }
    } else {
        None
    }
}

/// A type argument is structurally smaller than the type that carries it.
pub proof fn lemma_type_at_decreases(t: Ty, i: int)
    requires
        spec_type_at(t, i) is Some,
    ensures
        decreases_to!(t => spec_type_at(t, i).unwrap()),
{
    assert(decreases_to!(t => t.args));
    assert(decreases_to!(t.args => t.args@));
    assert(decreases_to!(t.args@ => t.args@[i]));
}

/// Whether `t` is the ADT `name` defined by crate `krate`: the anchor that keeps a same-named
/// item from an unrelated crate from driving any CGP recognition.
pub fn is_cgp_item(t: &Ty, name: &str, krate: &str) -> (r: bool)
    ensures
        r == spec_is_item(*t, name@, krate@),
{
    match &t.kind {
        TyKind::Adt(info) => str_eq(info.name.as_str(), name) && str_eq(info.krate.as_str(), krate),
        _ => false,
    }
}

/// The `i`th of `args`, when it is a type.
pub fn arg_type(args: &Vec<GenericArg>, i: usize) -> (r: Option<&Ty>)
    ensures
        match r {
            Some(a) => spec_arg_type(args@, i as int) == Some(*a),
            None => spec_arg_type(args@, i as int) is None,
        },
{
    if i < args.len() {
        match &args[i] {
            GenericArg::Type(a) => Some(a),
            _ => None,
        }
    } else {
        None
    }
}

/// The `i`th generic argument of `t`, when it is a type.
pub fn type_at(t: &Ty, i: usize) -> (r: Option<&Ty>)
    ensures
        match r {
            Some(a) => spec_type_at(*t, i as int) == Some(*a),
            None => spec_type_at(*t, i as int) is None,
        },
{
    arg_type(&t.args, i)
}

/// The value of the `i`th generic argument of `t`, when it is an evaluated scalar const.
pub fn const_at(t: &Ty, i: usize) -> (r: Option<u32>)
    ensures
        r == spec_const_at(*t, i as int),
{
    if i < t.args.len() {
        match &t.args[i] {
            GenericArg::Const(v) => *v,
            _ => None,
        }
    } else {
        None
    }
}

// ---------------------------------------------------------------------------------------------
// Characters
// ---------------------------------------------------------------------------------------------

/// Whether `v` is a Unicode scalar value, i.e. the code of some `char`.
pub open spec fn is_scalar_value(v: u32) -> bool {
    v <= 0x10FFFF && !(0xD800 <= v <= 0xDFFF)
}

/// The `char` with code `v`, through std's `char::from_u32`: `Some` exactly when `v` is a
/// Unicode scalar value.
#[verifier::external_body]
pub(crate) fn char_from_u32(v: u32) -> (r: Option<char>)
    ensures
        match r {
            Some(c) => is_scalar_value(v) && c as u32 == v && c == v as char,
            None => !is_scalar_value(v),
        },
{
    char::from_u32(v)
}

// ---------------------------------------------------------------------------------------------
// `Symbol!` strings
// ---------------------------------------------------------------------------------------------

/// The string spelled by a `Chars<'c', Tail>` spine ended by `Nil`, or `None` when the spine is
/// malformed or a character is not a scalar value.
pub open spec fn spec_decode_chars(t: Ty) -> Option<Seq<char>>
    decreases t,
{
    if spec_is_item(t, NIL_TYPE@, CGP_BASE_TYPES_CRATE@) {
        Some(Seq::empty())
    } else if spec_is_item(t, CHARS_TYPE@, CGP_BASE_TYPES_CRATE@) {
        match (spec_const_at(t, 0), spec_type_at(t, 1)) {
            (Some(v), Some(tail)) => if is_scalar_value(v) {
                match spec_decode_chars(tail) {
                    Some(rest) => Some(seq![v as char] + rest),
                    None => None,
                }
            } else {
                None
            },
            _ => None,
        }
    } else {
        None
    }
}

/// The string a CGP `Symbol<LEN, Chars>` type spells, or `None` for any type that is not a
/// well-formed `Symbol` of `cgp_base_types`.
pub open spec fn spec_decode_symbol(t: Ty) -> Option<Seq<char>> {
    if spec_is_item(t, SYMBOL_TYPE@, CGP_BASE_TYPES_CRATE@) {
        match spec_type_at(t, 1) {
            Some(head) => spec_decode_chars(head),
            None => None,
        }
    } else {
        None
    }
}

/// Append the string a `Chars` spine spells to `out`; `false` (and `out` unspecified) when the
/// spine is malformed.
fn decode_chars_into(t: &Ty, out: &mut String) -> (ok: bool)
    ensures
        ok == spec_decode_chars(*t) is Some,
        ok ==> final(out)@ == old(out)@ + spec_decode_chars(*t).unwrap(),
    decreases t,
{
    if is_cgp_item(t, NIL_TYPE, CGP_BASE_TYPES_CRATE) {
        assert(old(out)@ + Seq::<char>::empty() =~= old(out)@);
        return true;
    }
    if !is_cgp_item(t, CHARS_TYPE, CGP_BASE_TYPES_CRATE) {
        return false;
    }
    let v = match const_at(t, 0) {
        Some(v) => v,
        None => return false,
    };
    let tail = match type_at(t, 1) {
        Some(tail) => tail,
        None => return false,
    };
    let c = match char_from_u32(v) {
        Some(c) => c,
        None => return false,
    };
    let ghost before = out@;
    push_char(out, c);
    proof {
        lemma_type_at_decreases(*t, 1);
    }
    let ok = decode_chars_into(tail, out);
    if ok {
        assert(out@ =~= before + (seq![v as char] + spec_decode_chars(*tail).unwrap()));
    }
    ok
}

/// Decode a CGP `Symbol!` type into its string, by walking the `Chars<'c', Tail>` spine and
/// reading each `char` const argument until `Nil`. Anchored to `cgp_base_types`; `None` for any
/// type that is not a well-formed `Symbol`.
pub fn decode_symbol(t: &Ty) -> (r: Option<String>)
    ensures
        match r {
            Some(s) => spec_decode_symbol(*t) == Some(s@),
            None => spec_decode_symbol(*t) is None,
        },
{
    if !is_cgp_item(t, SYMBOL_TYPE, CGP_BASE_TYPES_CRATE) {
        return None;
    }
    let head = match type_at(t, 1) {
        Some(head) => head,
        None => return None,
    };
    let mut name = String::new();
    if decode_chars_into(head, &mut name) {
        assert(name@ =~= spec_decode_chars(*head).unwrap());
        Some(name)
    } else {
        None
    }
}

// ---------------------------------------------------------------------------------------------
// Type-level lists
// ---------------------------------------------------------------------------------------------

/// How many nodes of a type-level spine the reader follows before giving up.
pub const SPINE_GUARD: usize = 4096;

/// The head types of a spine `Cell<Head, Tail>` ended by `Terminator`, following at most `fuel`
/// nodes; `None` when the spine is open (a tail that is neither a cell nor the terminator),
/// malformed, or longer than `fuel` allows.
pub open spec fn spec_spine_items(
    t: Ty,
    cell: Seq<char>,
    cell_krate: Seq<char>,
    term: Seq<char>,
    term_krate: Seq<char>,
    fuel: nat,
) -> Option<Seq<Ty>>
    decreases t,
{
    if fuel == 0 {
        None
    } else if spec_is_item(t, cell, cell_krate) {
        match (spec_type_at(t, 0), spec_type_at(t, 1)) {
            (Some(head), Some(tail)) => match spec_spine_items(
                tail,
                cell,
                cell_krate,
                term,
                term_krate,
                (fuel - 1) as nat,
            ) {
                Some(rest) => Some(seq![head] + rest),
                None => None,
            },
            _ => None,
        }
    } else if spec_is_item(t, term, term_krate) {
        Some(Seq::empty())
    } else {
        None
    }
}

/// The element types of a closed CGP spine starting at `t`, or `None` when `t` is not such a
/// spine: the first node must be a cell (a bare terminator is not read as an empty list).
pub open spec fn spec_cgp_spine(
    t: Ty,
    cell: Seq<char>,
    cell_krate: Seq<char>,
    term: Seq<char>,
    term_krate: Seq<char>,
) -> Option<Seq<Ty>> {
    if spec_is_item(t, cell, cell_krate) {
        spec_spine_items(t, cell, cell_krate, term, term_krate, SPINE_GUARD as nat)
    } else {
        None
    }
}

/// How many elements the spine at `t` has, following at most `fuel` nodes.
fn spine_len(
    t: &Ty,
    cell: &str,
    cell_krate: &str,
    term: &str,
    term_krate: &str,
    fuel: usize,
) -> (r: Option<usize>)
    ensures
        match r {
            Some(n) => spec_spine_items(*t, cell@, cell_krate@, term@, term_krate@, fuel as nat)
                matches Some(items) && items.len() == n,
            None => spec_spine_items(
                *t,
                cell@,
                cell_krate@,
                term@,
                term_krate@,
                fuel as nat,
            ) is None,
        },
    decreases t,
{
    if fuel == 0 {
        return None;
    }
    if is_cgp_item(t, cell, cell_krate) {
        let head = type_at(t, 0);
        let tail = type_at(t, 1);
        match (head, tail) {
            (Some(_), Some(tail)) => {
                proof {
                    lemma_type_at_decreases(*t, 1);
                }
                match spine_len(tail, cell, cell_krate, term, term_krate, fuel - 1) {
                    Some(n) => {
                        proof {
                            lemma_spine_len_bound(
                                *tail,
                                cell@,
                                cell_krate@,
                                term@,
                                term_krate@,
                                (fuel - 1) as nat,
                            );
                        }
                        Some(n + 1)
                    },
                    None => None,
                }
            },
            _ => None,
        }
    } else if is_cgp_item(t, term, term_krate) {
        Some(0)
    } else {
        None
    }
}

/// A spine read with `fuel` has fewer than `fuel` elements.
proof fn lemma_spine_len_bound(
    t: Ty,
    cell: Seq<char>,
    cell_krate: Seq<char>,
    term: Seq<char>,
    term_krate: Seq<char>,
    fuel: nat,
)
    ensures
        spec_spine_items(t, cell, cell_krate, term, term_krate, fuel) matches Some(items)
            ==> items.len() < fuel,
    decreases t,
{
    if fuel > 0 && spec_is_item(t, cell, cell_krate) {
        if let (Some(_), Some(tail)) = (spec_type_at(t, 0), spec_type_at(t, 1)) {
            lemma_type_at_decreases(t, 1);
            lemma_spine_len_bound(tail, cell, cell_krate, term, term_krate, (fuel - 1) as nat);
        }
    }
}

/// Whether `t` starts a closed CGP spine of `cell`s ended by `term`.
pub fn is_cgp_spine(t: &Ty, cell: &str, cell_krate: &str, term: &str, term_krate: &str) -> (r:
    bool)
    ensures
        r == spec_cgp_spine(*t, cell@, cell_krate@, term@, term_krate@) is Some,
{
    if !is_cgp_item(t, cell, cell_krate) {
        return false;
    }
    spine_len(t, cell, cell_krate, term, term_krate, SPINE_GUARD).is_some()
}

// ---------------------------------------------------------------------------------------------
// Rendering
// ---------------------------------------------------------------------------------------------

/// The printed form of a generic argument that is a type, and nothing for any other argument.
pub open spec fn arg_printed(a: GenericArg) -> Seq<char> {
    match a {
        GenericArg::Type(t) => t.printed@,
        _ => Seq::empty(),
    }
}

/// A component's extra parameters, from its `Params` slot, as a trait generic list: nothing for
/// the unit `()`, the elements of a tuple (`<u32, u64, bool>`), or a single bare parameter.
pub open spec fn spec_render_params(params: Ty) -> Seq<char> {
    match params.kind {
        TyKind::Tuple => if params.args@.len() == 0 {
            Seq::empty()
        } else {
            "<"@ + seq_join(params.args@.map_values(|a: GenericArg| arg_printed(a)), ", "@) + ">"@
        },
        _ => "<"@ + params.printed@ + ">"@,
    }
}

/// Render a component's `Params` slot as the generic list reattached to its consumer trait's
/// name: the slot groups the parameters as the unit `()` for none, a tuple for several, and a
/// single one bare, so a tuple is unwrapped and a bare parameter reattached directly.
pub fn render_params(params: &Ty) -> (r: String)
    ensures
        r@ == spec_render_params(*params),
{
    let is_tuple = match &params.kind {
        TyKind::Tuple => true,
        _ => false,
    };
    if !is_tuple {
        let mut r = owned("<");
        append(&mut r, params.printed.as_str());
        append(&mut r, ">");
        return r;
    }
    if params.args.len() == 0 {
        return String::new();
    }
    let mut parts: Vec<String> = Vec::new();
    let mut i: usize = 0;
    while i < params.args.len()
        invariant
            i <= params.args@.len(),
            views(parts@) == params.args@.take(i as int).map_values(|a: GenericArg| arg_printed(a)),
        decreases params.args@.len() - i,
    {
        let text = match &params.args[i] {
            GenericArg::Type(t) => owned(t.printed.as_str()),
            _ => String::new(),
        };
        let ghost before = views(parts@);
        parts.push(text);
        assert(views(parts@) =~= before.push(arg_printed(params.args@[i as int])));
        assert(params.args@.take(i + 1).map_values(|a: GenericArg| arg_printed(a)) =~= params.args@.take(
            i as int,
        ).map_values(|a: GenericArg| arg_printed(a)).push(arg_printed(params.args@[i as int])));
        i = i + 1;
    }
    assert(params.args@.take(params.args@.len() as int) =~= params.args@);
    let mut r = owned("<");
    let inner = join(&parts, ", ");
    append(&mut r, inner.as_str());
    append(&mut r, ">");
    r
}

/// Whether every element of the spine at `node` is a named field `Field<Symbol!("name"), Value>`
/// of `cgp_field`.
pub open spec fn spec_spine_named(node: Ty, cell: Seq<char>, cell_krate: Seq<char>) -> bool
    decreases node,
{
    if spec_is_item(node, cell, cell_krate) {
        match (spec_type_at(node, 0), spec_type_at(node, 1)) {
            (Some(head), Some(tail)) => {
                &&& spec_is_item(head, FIELD_TYPE@, CGP_FIELD_CRATE@)
                &&& match spec_type_at(head, 0) {
                    Some(tag) => spec_decode_symbol(tag) is Some,
                    None => false,
                }
                &&& spec_type_at(head, 1) is Some
                &&& spec_spine_named(tail, cell, cell_krate)
            },
            _ => false,
        }
    } else {
        true
    }
}

/// The rendered elements of the spine at `node`: each head rendered plainly (`mode` 0), as a
/// record field `name: Type` (`mode` 1), or as a variant `Name(Type)` (`mode` 2).
pub open spec fn spec_render_spine(node: Ty, cell: Seq<char>, cell_krate: Seq<char>, mode: nat) -> Seq<
    Seq<char>,
>
    decreases node, 1nat, 0nat,
{
    if spec_is_item(node, cell, cell_krate) {
        match (spec_type_at(node, 0), spec_type_at(node, 1)) {
            (Some(head), Some(tail)) => {
                let text = if mode == 0 {
                    spec_render_ty(head)
                } else {
                    let name = match spec_type_at(head, 0) {
                        Some(tag) => match spec_decode_symbol(tag) {
                            Some(n) => n,
                            None => Seq::empty(),
                        },
                        None => Seq::empty(),
                    };
                    let value = match spec_type_at(head, 1) {
                        Some(v) => spec_render_ty(v),
                        None => Seq::empty(),
                    };
                    if mode == 1 {
                        name + ": "@ + value
                    } else {
                        name + "("@ + value + ")"@
                    }
                };
                seq![text] + spec_render_spine(tail, cell, cell_krate, mode)
            },
            _ => Seq::empty(),
        }
    } else {
        Seq::empty()
    }
}

/// The rendered type arguments of `t` among its first `n` arguments.
pub open spec fn spec_render_args(t: Ty, n: nat) -> Seq<Seq<char>>
    decreases t, 2nat, n,
{
    if n == 0 || n > t.args@.len() {
        Seq::empty()
    } else {
        let before = spec_render_args(t, (n - 1) as nat);
        match t.args@[n - 1] {
            GenericArg::Type(a) => before.push(spec_render_ty(a)),
            _ => before,
        }
    }
}

/// A type in its dependency-tree form: a placeholder as `_`, a tuple element by element, a
/// closed `Cons`/`Nil` product spine as `Product![A, B]` (or `Struct! { a: A, b: B }` when every
/// element is a named field), a closed `Either`/`Void` sum spine as `Sum![A, B]` (or
/// `Enum! { A(X), B(Y) }`), and anything else in its printed form.
pub open spec fn spec_render_ty(t: Ty) -> Seq<char>
    decreases t, 3nat, 0nat,
{
    match t.kind {
        TyKind::Placeholder => "_"@,
        TyKind::Tuple => {
            let parts = spec_render_args(t, t.args@.len());
            if parts.len() == 0 {
                "()"@
            } else if parts.len() == 1 {
                "("@ + parts[0] + ",)"@
            } else {
                "("@ + seq_join(parts, ", "@) + ")"@
            }
        },
        _ => if spec_cgp_spine(
            t,
            CONS_TYPE@,
            CGP_BASE_TYPES_CRATE@,
            NIL_TYPE@,
            CGP_BASE_TYPES_CRATE@,
        ) is Some {
            if spec_spine_named(t, CONS_TYPE@, CGP_BASE_TYPES_CRATE@) {
                "Struct! { "@ + seq_join(
                    spec_render_spine(t, CONS_TYPE@, CGP_BASE_TYPES_CRATE@, 1),
                    ", "@,
                ) + " }"@
            } else {
                "Product!["@ + seq_join(
                    spec_render_spine(t, CONS_TYPE@, CGP_BASE_TYPES_CRATE@, 0),
                    ", "@,
                ) + "]"@
            }
        } else if spec_cgp_spine(
            t,
            EITHER_TYPE@,
            CGP_FIELD_CRATE@,
            VOID_TYPE@,
            CGP_FIELD_CRATE@,
        ) is Some {
            if spec_spine_named(t, EITHER_TYPE@, CGP_FIELD_CRATE@) {
                "Enum! { "@ + seq_join(
                    spec_render_spine(t, EITHER_TYPE@, CGP_FIELD_CRATE@, 2),
                    ", "@,
                ) + " }"@
            } else {
                "Sum!["@ + seq_join(
                    spec_render_spine(t, EITHER_TYPE@, CGP_FIELD_CRATE@, 0),
                    ", "@,
                ) + "]"@
            }
        } else {
            t.printed@
        },
    }
}

/// Whether every element of the spine at `node` is a named field: the list that renders as a
/// record or a variant set.
fn spine_named(node: &Ty, cell: &str, cell_krate: &str) -> (r: bool)
    ensures
        r == spec_spine_named(*node, cell@, cell_krate@),
    decreases node,
{
    if !is_cgp_item(node, cell, cell_krate) {
        return true;
    }
    match (type_at(node, 0), type_at(node, 1)) {
        (Some(head), Some(tail)) => {
            if !is_cgp_item(head, FIELD_TYPE, CGP_FIELD_CRATE) {
                return false;
            }
            let named = match type_at(head, 0) {
                Some(tag) => decode_symbol(tag).is_some(),
                None => false,
            };
            if !named || type_at(head, 1).is_none() {
                return false;
            }
            proof {
                lemma_type_at_decreases(*node, 1);
            }
            spine_named(tail, cell, cell_krate)
        },
        _ => false,
    }
}

/// Render the elements of the spine at `node` onto `out` (see [`spec_render_spine`]).
fn render_spine(node: &Ty, cell: &str, cell_krate: &str, mode: u8, out: &mut Vec<String>)
    requires
        mode <= 2,
    ensures
        views(final(out)@) == views(old(out)@) + spec_render_spine(
            *node,
            cell@,
            cell_krate@,
            mode as nat,
        ),
    decreases node, 1nat, 0nat,
{
    if !is_cgp_item(node, cell, cell_krate) {
        assert(views(out@) =~= views(out@) + Seq::<Seq<char>>::empty());
        return;
    }
    match (type_at(node, 0), type_at(node, 1)) {
        (Some(head), Some(tail)) => {
            proof {
                lemma_type_at_decreases(*node, 0);
                lemma_type_at_decreases(*node, 1);
            }
            let text = if mode == 0 {
                render_ty(head)
            } else {
                let name = match type_at(head, 0) {
                    Some(tag) => match decode_symbol(tag) {
                        Some(n) => n,
                        None => String::new(),
                    },
                    None => String::new(),
                };
                let value = match type_at(head, 1) {
                    Some(v) => {
                        proof {
                            lemma_type_at_decreases(*head, 1);
                        }
                        render_ty(v)
                    },
                    None => String::new(),
                };
                let mut text = name;
                if mode == 1 {
                    append(&mut text, ": ");
                    append(&mut text, value.as_str());
                } else {
                    append(&mut text, "(");
                    append(&mut text, value.as_str());
                    append(&mut text, ")");
                }
                text
            };
            let ghost want = if mode == 0 {
                spec_render_ty(*head)
            } else {
                let name = match spec_type_at(*head, 0) {
                    Some(tag) => match spec_decode_symbol(tag) {
                        Some(n) => n,
                        None => Seq::empty(),
                    },
                    None => Seq::empty(),
                };
                let value = match spec_type_at(*head, 1) {
                    Some(v) => spec_render_ty(v),
                    None => Seq::empty(),
                };
                if mode == 1 {
                    name + ": "@ + value
                } else {
                    name + "("@ + value + ")"@
                }
            };
            assert(text@ == want);
            let ghost before = views(out@);
            out.push(text);
            assert(views(out@) =~= before.push(text@));
            render_spine(tail, cell, cell_krate, mode, out);
            assert(views(out@) =~= views(old(out)@) + spec_render_spine(
                *node,
                cell@,
                cell_krate@,
                mode as nat,
            ));
        },
        _ => {
            assert(views(out@) =~= views(out@) + Seq::<Seq<char>>::empty());
        },
    }
}

/// Render a type to its dependency-tree form (see [`spec_render_ty`]), resugaring CGP's
/// type-level list and sum spines back to their surface macros, so a reader meets the list as
/// written rather than its raw right-nested spine.
pub fn render_ty(t: &Ty) -> (r: String)
    ensures
        r@ == spec_render_ty(*t),
    decreases t, 3nat, 0nat,
{
    match &t.kind {
        TyKind::Placeholder => {
            return owned("_");
        },
        TyKind::Tuple => {
            let mut parts: Vec<String> = Vec::new();
            let mut i: usize = 0;
            while i < t.args.len()
                invariant
                    i <= t.args@.len(),
                    views(parts@) == spec_render_args(*t, i as nat),
                decreases t.args@.len() - i,
            {
                match &t.args[i] {
                    GenericArg::Type(a) => {
                        proof {
                            lemma_type_at_decreases(*t, i as int);
                        }
                        let text = render_ty(a);
                        let ghost before = views(parts@);
                        parts.push(text);
                        assert(views(parts@) =~= before.push(text@));
                    },
                    _ => {},
                }
                i = i + 1;
            }
            if parts.len() == 0 {
                return owned("()");
            } else if parts.len() == 1 {
                let mut r = owned("(");
                append(&mut r, parts[0].as_str());
                append(&mut r, ",)");
                return r;
            } else {
                let mut r = owned("(");
                let body = join(&parts, ", ");
                append(&mut r, body.as_str());
                append(&mut r, ")");
                return r;
            }
        },
        _ => {},
    }
    if is_cgp_spine(t, CONS_TYPE, CGP_BASE_TYPES_CRATE, NIL_TYPE, CGP_BASE_TYPES_CRATE) {
        let named = spine_named(t, CONS_TYPE, CGP_BASE_TYPES_CRATE);
        let mut parts: Vec<String> = Vec::new();
        render_spine(t, CONS_TYPE, CGP_BASE_TYPES_CRATE, if named { 1 } else { 0 }, &mut parts);
        assert(views(parts@) =~= spec_render_spine(*t, CONS_TYPE@, CGP_BASE_TYPES_CRATE@, if named { 1nat } else { 0nat }));
        let body = join(&parts, ", ");
        let mut r = if named { owned("Struct! { ") } else { owned("Product![") };
        append(&mut r, body.as_str());
        append(&mut r, if named { " }" } else { "]" });
        return r;
    }
    if is_cgp_spine(t, EITHER_TYPE, CGP_FIELD_CRATE, VOID_TYPE, CGP_FIELD_CRATE) {
        let named = spine_named(t, EITHER_TYPE, CGP_FIELD_CRATE);
        let mut parts: Vec<String> = Vec::new();
        render_spine(t, EITHER_TYPE, CGP_FIELD_CRATE, if named { 2 } else { 0 }, &mut parts);
        assert(views(parts@) =~= spec_render_spine(*t, EITHER_TYPE@, CGP_FIELD_CRATE@, if named { 2nat } else { 0nat }));
        let body = join(&parts, ", ");
        let mut r = if named { owned("Enum! { ") } else { owned("Sum![") };
        append(&mut r, body.as_str());
        append(&mut r, if named { " }" } else { "]" });
        return r;
    }
    owned(t.printed.as_str())
}

// ---------------------------------------------------------------------------------------------
// Parameters and placeholders
// ---------------------------------------------------------------------------------------------

/// Whether `t` is, or contains, a type of the given kind (`param`: a generic parameter;
/// otherwise a placeholder).
pub open spec fn spec_has_kind(t: Ty, param: bool) -> bool
    decreases t, 1nat, 0nat,
{
    (if param {
        t.kind is Param
    } else {
        t.kind is Placeholder
    }) || spec_args_have_kind(t, t.args@.len(), param)
}

/// Whether one of the first `n` arguments of `t` is or contains a type of the given kind.
pub open spec fn spec_args_have_kind(t: Ty, n: nat, param: bool) -> bool
    decreases t, 0nat, n,
{
    if n == 0 || n > t.args@.len() {
        false
    } else {
        (match t.args@[n - 1] {
            GenericArg::Type(a) => spec_has_kind(a, param),
            _ => false,
        }) || spec_args_have_kind(t, (n - 1) as nat, param)
    }
}

/// Whether `t` is or contains a type of the given kind (see [`spec_has_kind`]).
fn has_kind(t: &Ty, param: bool) -> (r: bool)
    ensures
        r == spec_has_kind(*t, param),
    decreases t, 1nat, 0nat,
{
    let own = match &t.kind {
        TyKind::Param => param,
        TyKind::Placeholder => !param,
        _ => false,
    };
    if own {
        return true;
    }
    let mut i: usize = 0;
    while i < t.args.len()
        invariant
            i <= t.args@.len(),
            !spec_args_have_kind(*t, i as nat, param),
        decreases t.args@.len() - i,
    {
        match &t.args[i] {
            GenericArg::Type(a) => {
                proof {
                    lemma_type_at_decreases(*t, i as int);
                }
                if has_kind(a, param) {
                    proof {
                        lemma_args_have_kind_mono(*t, (i + 1) as nat, t.args@.len(), param);
                    }
                    return true;
                }
            },
            _ => {},
        }
        i = i + 1;
    }
    false
}

/// Finding a type of the kind among the first `n` arguments finds it among the first `m >= n`.
proof fn lemma_args_have_kind_mono(t: Ty, n: nat, m: nat, param: bool)
    requires
        n <= m <= t.args@.len(),
        spec_args_have_kind(t, n, param),
    ensures
        spec_args_have_kind(t, m, param),
    decreases m - n,
{
    if n < m {
        lemma_args_have_kind_mono(t, n, (m - 1) as nat, param);
    }
}

/// Whether `t` is or contains a generic type parameter.
pub fn has_param(t: &Ty) -> (r: bool)
    ensures
        r == spec_has_kind(*t, true),
{
    has_kind(t, true)
}

/// Whether `t` is or contains a placeholder.
pub fn has_placeholders(t: &Ty) -> (r: bool)
    ensures
        r == spec_has_kind(*t, false),
{
    has_kind(t, false)
}

// ---------------------------------------------------------------------------------------------
// Paths
// ---------------------------------------------------------------------------------------------

/// Whether `t` is CGP's path cell `PathCons` of `cgp_base_types`.
pub open spec fn spec_is_path_cons(t: Ty) -> bool {
    spec_is_item(t, PATH_CONS_TYPE@, CGP_BASE_TYPES_CRATE@)
}

/// Whether `t` is CGP's list and path terminator `Nil` of `cgp_base_types`.
pub open spec fn spec_is_nil(t: Ty) -> bool {
    spec_is_item(t, NIL_TYPE@, CGP_BASE_TYPES_CRATE@)
}

/// Whether `t` is CGP's type-level path spine `PathCons<…>`: an `open`/namespace redirect key,
/// as opposed to a bare component marker.
pub fn is_path_cons(t: &Ty) -> (r: bool)
    ensures
        r == spec_is_path_cons(*t),
{
    is_cgp_item(t, PATH_CONS_TYPE, CGP_BASE_TYPES_CRATE)
}

/// Whether `t` is CGP's type-level path/list terminator `Nil`.
pub fn is_nil(t: &Ty) -> (r: bool)
    ensures
        r == spec_is_nil(*t),
{
    is_cgp_item(t, NIL_TYPE, CGP_BASE_TYPES_CRATE)
}

/// The `(head, tail)` of a `PathCons<Head, Tail>` type, or `None` when `t` is not one.
pub open spec fn spec_path_cons_parts(t: Ty) -> Option<(Ty, Ty)> {
    if spec_is_path_cons(t) {
        match (spec_type_at(t, 0), spec_type_at(t, 1)) {
            (Some(h), Some(tl)) => Some((h, tl)),
            _ => None,
        }
    } else {
        None
    }
}

/// The `(head, tail)` of a `PathCons<Head, Tail>` type, or `None` when `t` is not a `PathCons`.
pub fn path_cons_parts(t: &Ty) -> (r: Option<(&Ty, &Ty)>)
    ensures
        match r {
            Some((h, tl)) => spec_path_cons_parts(*t) == Some((*h, *tl)),
            None => spec_path_cons_parts(*t) is None,
        },
{
    if !is_path_cons(t) {
        return None;
    }
    match (type_at(t, 0), type_at(t, 1)) {
        (Some(h), Some(tl)) => Some((h, tl)),
        _ => None,
    }
}

/// Whether `t` ends a `PathCons` spine at the second segment: CGP's `Nil` terminator or the
/// generic wildcard parameter an `open` expansion leaves as the tail.
pub fn is_path_terminator(t: &Ty) -> (r: bool)
    ensures
        r == (spec_is_nil(*t) || t.kind is Param),
{
    is_nil(t) || match &t.kind {
        TyKind::Param => true,
        _ => false,
    }
}

/// The `(component, value)` a two-segment `open`-dispatch key `PathCons<Component,
/// PathCons<Value, Tail>>` stands for, where `Tail` is `Nil` or a generic wildcard.
pub open spec fn spec_open_dispatch_target(key: Ty) -> Option<(Ty, Ty)> {
    match spec_path_cons_parts(key) {
        Some((comp, rest)) => match spec_path_cons_parts(rest) {
            Some((value, tail)) => if spec_is_nil(tail) || tail.kind is Param {
                Some((comp, value))
            } else {
                None
            },
            None => None,
        },
        None => None,
    }
}

/// Recover the `(component, value)` an `open`-dispatch redirect key stands for; `None` for a
/// bare marker or a path of three or more segments.
pub fn open_dispatch_target(key: &Ty) -> (r: Option<(&Ty, &Ty)>)
    ensures
        match r {
            Some((c, v)) => spec_open_dispatch_target(*key) == Some((*c, *v)),
            None => spec_open_dispatch_target(*key) is None,
        },
{
    let (comp, rest) = path_cons_parts(key)?;
    let (value, tail) = path_cons_parts(rest)?;
    if !is_path_terminator(tail) {
        return None;
    }
    Some((comp, value))
}

/// How many nodes of a path the renderer follows before giving up.
pub const PATH_GUARD: usize = 256;

/// The segments of the path spine at `t` and whether it ends in a wildcard, following at most
/// `fuel` nodes. A `Symbol!` segment reads as its string and any other ADT segment as its item
/// name; a generic parameter as the tail or as a segment opens the path (a wildcard). `None` on
/// a spine that is not `PathCons`/`Nil`.
pub open spec fn spec_path_segments(t: Ty, fuel: nat) -> Option<(Seq<Seq<char>>, bool)>
    decreases t,
{
    if fuel == 0 {
        None
    } else {
        match t.kind {
            TyKind::Param => Some((Seq::empty(), true)),
            TyKind::Adt(_) => if spec_is_nil(t) {
                Some((Seq::empty(), false))
            } else if !spec_is_path_cons(t) {
                None
            } else {
                match spec_type_at(t, 0) {
                    Some(head) => match head.kind {
                        TyKind::Param => Some((Seq::empty(), true)),
                        TyKind::Adt(info) => {
                            let segment = match spec_decode_symbol(head) {
                                Some(sym) => sym,
                                None => info.name@,
                            };
                            match spec_type_at(t, 1) {
                                Some(tail) => match spec_path_segments(tail, (fuel - 1) as nat) {
                                    Some((rest, wild)) => Some((seq![segment] + rest, wild)),
                                    None => None,
                                },
                                None => None,
                            }
                        },
                        _ => None,
                    },
                    None => None,
                }
            },
            _ => None,
        }
    }
}

/// A `PathCons<..>` key in its bare `@a.b.*` surface form (see [`spec_path_segments`]).
pub open spec fn spec_render_path(t: Ty) -> Option<Seq<char>> {
    match spec_path_segments(t, PATH_GUARD as nat) {
        Some((segments, wild)) => Some(
            "@"@ + seq_join(segments, "."@) + if wild {
                (if segments.len() > 0 {
                    "."@
                } else {
                    Seq::empty()
                }) + "*"@
            } else {
                Seq::empty()
            },
        ),
        None => None,
    }
}

/// Collect the segments of the path spine at `t` (see [`spec_path_segments`]).
fn path_segments(t: &Ty, fuel: usize, out: &mut Vec<String>) -> (r: Option<bool>)
    ensures
        match r {
            Some(wild) => spec_path_segments(*t, fuel as nat) matches Some((segs, w)) && w == wild
                && views(final(out)@) == views(old(out)@) + segs,
            None => spec_path_segments(*t, fuel as nat) is None,
        },
    decreases t,
{
    if fuel == 0 {
        return None;
    }
    match &t.kind {
        TyKind::Param => {
            assert(views(out@) =~= views(out@) + Seq::<Seq<char>>::empty());
            Some(true)
        },
        TyKind::Adt(_) => {
            if is_nil(t) {
                assert(views(out@) =~= views(out@) + Seq::<Seq<char>>::empty());
                return Some(false);
            }
            if !is_path_cons(t) {
                return None;
            }
            let head = type_at(t, 0)?;
            let segment = match &head.kind {
                TyKind::Param => {
                    assert(views(out@) =~= views(out@) + Seq::<Seq<char>>::empty());
                    return Some(true);
                },
                TyKind::Adt(info) => match decode_symbol(head) {
                    Some(sym) => sym,
                    None => owned(info.name.as_str()),
                },
                _ => {
                    return None;
                },
            };
            let tail = type_at(t, 1)?;
            proof {
                lemma_type_at_decreases(*t, 1);
            }
            let ghost before = views(out@);
            out.push(segment);
            assert(views(out@) =~= before.push(segment@));
            let r = path_segments(tail, fuel - 1, out);
            if let Some(_) = r {
                assert(views(out@) =~= before + (seq![segment@] + spec_path_segments(
                    *tail,
                    (fuel - 1) as nat,
                ).unwrap().0));
            }
            r
        },
        _ => None,
    }
}

/// Render a `PathCons<..>` key back to its bare `@a.b.*` surface form, straight off the types:
/// a `Symbol!` segment decodes to its string, a named segment keeps its type name, and a
/// generic parameter anywhere ends the path in `.*`. `None` on a spine that is not
/// `PathCons`/`Nil`.
pub fn render_path(t: &Ty) -> (r: Option<String>)
    ensures
        match r {
            Some(s) => spec_render_path(*t) == Some(s@),
            None => spec_render_path(*t) is None,
        },
{
    let mut segments: Vec<String> = Vec::new();
    let wild = path_segments(t, PATH_GUARD, &mut segments)?;
    assert(views(segments@) =~= Seq::<Seq<char>>::empty() + spec_path_segments(*t, PATH_GUARD as nat).unwrap().0);
    let mut rendered = owned("@");
    let body = join(&segments, ".");
    append(&mut rendered, body.as_str());
    if wild {
        if segments.len() > 0 {
            append(&mut rendered, ".");
        } else {
            assert(rendered@ =~= rendered@ + Seq::<char>::empty());
        }
        append(&mut rendered, "*");
    } else {
        assert(rendered@ =~= rendered@ + Seq::<char>::empty());
    }
    Some(rendered)
}

/// The redirect path of a `RedirectLookup<Table, Path>` of `cgp_component` (its second type
/// argument), or `None` for any other type.
pub open spec fn spec_redirect_path(t: Ty) -> Option<Ty> {
    if spec_is_item(t, REDIRECT_LOOKUP_TYPE@, CGP_COMPONENT_CRATE@) {
        spec_type_at(t, 1)
    } else {
        None
    }
}

/// The redirect path of a `RedirectLookup<Table, Path>` provider, or `None` when `provider` is
/// not a `RedirectLookup`.
pub fn redirect_path(provider: &Ty) -> (r: Option<&Ty>)
    ensures
        match r {
            Some(p) => spec_redirect_path(*provider) == Some(*p),
            None => spec_redirect_path(*provider) is None,
        },
{
    if is_cgp_item(provider, REDIRECT_LOOKUP_TYPE, CGP_COMPONENT_CRATE) {
        type_at(provider, 1)
    } else {
        None
    }
}

/// The segments of a closed `PathCons` spine and its terminator, following at most `fuel`
/// cells; `None` when the spine does not end in `Nil`.
pub open spec fn spec_path_cells(t: Ty, fuel: nat) -> Option<Seq<Ty>>
    decreases t,
{
    match spec_path_cons_parts(t) {
        Some((head, tail)) => if fuel == 0 {
            None
        } else {
            match spec_path_cells(tail, (fuel - 1) as nat) {
                Some(rest) => Some(seq![head] + rest),
                None => None,
            }
        },
        None => if spec_is_nil(t) {
            Some(Seq::empty())
        } else {
            None
        },
    }
}

/// The number of leading segments of `segments` that survive trimming the trailing run of
/// segments that contain a placeholder.
pub open spec fn spec_kept_segments(segments: Seq<Ty>) -> nat
    decreases segments.len(),
{
    if segments.len() == 0 {
        0
    } else if !spec_has_kind(segments.last(), false) {
        segments.len()
    } else {
        spec_kept_segments(segments.drop_last())
    }
}

/// How many leading segments of a redirect path remain once its trailing run of **unknown**
/// segments (those holding a placeholder) is removed, or `None` when the path is not a closed
/// `PathCons` spine or has no such trailing run. The path rebuilt from that many leading
/// segments and the `Nil` terminator is the path a programmer can wire.
pub open spec fn spec_trim_unknown_path_tail(path: Ty) -> Option<nat> {
    if !spec_is_path_cons(path) {
        None
    } else {
        match spec_path_cells(path, PATH_GUARD as nat) {
            Some(segments) => {
                let kept = spec_kept_segments(segments);
                if kept == segments.len() {
                    None
                } else {
                    Some(kept)
                }
            },
            None => None,
        }
    }
}

/// Collect the segments of a closed `PathCons` spine (see [`spec_path_cells`]).
fn path_cells<'a>(t: &'a Ty, fuel: usize, out: &mut Vec<&'a Ty>) -> (ok: bool)
    ensures
        ok == spec_path_cells(*t, fuel as nat) is Some,
        ok ==> final(out)@.map_values(|x: &Ty| *x) == old(out)@.map_values(|x: &Ty| *x)
            + spec_path_cells(*t, fuel as nat).unwrap(),
    decreases t,
{
    match path_cons_parts(t) {
        Some((head, tail)) => {
            if fuel == 0 {
                return false;
            }
            proof {
                lemma_type_at_decreases(*t, 1);
            }
            let ghost before = out@.map_values(|x: &Ty| *x);
            out.push(head);
            assert(out@.map_values(|x: &Ty| *x) =~= before.push(*head));
            let ok = path_cells(tail, fuel - 1, out);
            if ok {
                assert(out@.map_values(|x: &Ty| *x) =~= before + spec_path_cells(*t, fuel as nat).unwrap());
            }
            ok
        },
        None => {
            let ok = is_nil(t);
            assert(out@.map_values(|x: &Ty| *x) =~= out@.map_values(|x: &Ty| *x) + Seq::<Ty>::empty());
            ok
        },
    }
}

/// A redirect path's count of leading segments to keep once its trailing **unknown** segments
/// (those holding a placeholder, left by a call site whose input is inferred) are removed, or
/// `None` when it has none (see [`spec_trim_unknown_path_tail`]). Only a trailing run is
/// trimmed: a placeholder further up is part of what the lookup keys on.
pub fn trim_unknown_path_tail(path: &Ty) -> (r: Option<usize>)
    ensures
        match r {
            Some(n) => spec_trim_unknown_path_tail(*path) == Some(n as nat),
            None => spec_trim_unknown_path_tail(*path) is None,
        },
{
    if !is_path_cons(path) {
        return None;
    }
    let mut segments: Vec<&Ty> = Vec::new();
    if !path_cells(path, PATH_GUARD, &mut segments) {
        return None;
    }
    let ghost segs = spec_path_cells(*path, PATH_GUARD as nat).unwrap();
    assert(segments@.map_values(|x: &Ty| *x) =~= segs);
    let mut kept: usize = segments.len();
    assert(segs.take(segments@.len() as int) =~= segs);
    while kept > 0 && has_placeholders(segments[kept - 1])
        invariant
            kept <= segments@.len(),
            segments@.map_values(|x: &Ty| *x) == segs,
            spec_kept_segments(segs.take(kept as int)) == spec_kept_segments(segs),
        decreases kept,
    {
        assert(segs.take(kept as int).drop_last() =~= segs.take(kept - 1));
        kept = kept - 1;
    }
    assert(segs.take(segments@.len() as int) =~= segs);
    if kept > 0 {
        assert(segs.take(kept as int).last() == segs[kept - 1]);
    }
    if kept == segments.len() {
        return None;
    }
    Some(kept)
}

// ---------------------------------------------------------------------------------------------
// Structs and fields
// ---------------------------------------------------------------------------------------------

/// Whether `t` is a struct or enum defined in the crate being compiled.
pub fn is_local_adt(t: &Ty) -> (r: bool)
    ensures
        r == match t.kind {
            TyKind::Adt(info) => info.local,
            _ => false,
        },
{
    match &t.kind {
        TyKind::Adt(info) => info.local,
        _ => false,
    }
}

/// The type of the first field in `fields` named `field`.
pub open spec fn spec_first_field(fields: Seq<FieldDef>, field: Seq<char>) -> Option<Seq<char>>
    decreases fields.len(),
{
    if fields.len() == 0 {
        None
    } else if fields[0].name@ == field {
        Some(fields[0].ty@)
    } else {
        spec_first_field(fields.drop_first(), field)
    }
}

/// The type of the named field `field` of the struct `t`, when `t` is a struct carrying one.
pub open spec fn spec_field_type(t: Ty, field: Seq<char>) -> Option<Seq<char>> {
    match t.kind {
        TyKind::Adt(info) => if info.is_struct {
            spec_first_field(info.fields@, field)
        } else {
            None
        },
        _ => None,
    }
}

/// Whether `t` is a struct with a named field called `field`. Only a struct carries named fields
/// a `HasField` derive would key on, so an enum, tuple, or non-ADT never matches.
pub open spec fn spec_adt_has_field(t: Ty, field: Seq<char>) -> bool {
    spec_field_type(t, field) is Some
}

/// The first field of the struct `t` named `field`.
fn find_field(t: &Ty, field: &str) -> (r: Option<String>)
    ensures
        match r {
            Some(ty) => spec_field_type(*t, field@) == Some(ty@),
            None => spec_field_type(*t, field@) is None,
        },
{
    let info = match &t.kind {
        TyKind::Adt(info) => info,
        _ => return None,
    };
    if !info.is_struct {
        return None;
    }
    let mut i: usize = 0;
    assert(info.fields@.skip(0) =~= info.fields@);
    while i < info.fields.len()
        invariant
            i <= info.fields@.len(),
            t.kind == TyKind::Adt(*info),
            info.is_struct,
            spec_first_field(info.fields@.skip(i as int), field@) == spec_first_field(
                info.fields@,
                field@,
            ),
        decreases info.fields@.len() - i,
    {
        assert(info.fields@.skip(i as int)[0] == info.fields@[i as int]);
        if str_eq(info.fields[i].name.as_str(), field) {
            return Some(owned(info.fields[i].ty.as_str()));
        }
        assert(info.fields@.skip(i as int).drop_first() =~= info.fields@.skip(i + 1));
        i = i + 1;
    }
    None
}

/// Whether `t` is a struct with a named field called `field`.
pub fn adt_has_field(t: &Ty, field: &str) -> (r: bool)
    ensures
        r == spec_adt_has_field(*t, field@),
{
    find_field(t, field).is_some()
}

/// The type of the named field `field` on the struct `t`, as the compiler prints it, or `None`
/// when `t` is not a struct carrying that field.
pub fn field_type(t: &Ty, field: &str) -> (r: Option<String>)
    ensures
        match r {
            Some(ty) => spec_field_type(*t, field@) == Some(ty@),
            None => spec_field_type(*t, field@) is None,
        },
{
    find_field(t, field)
}

/// Whether `t` is the `Chars` spine of the string `s`: one `Chars<'c', Tail>` node per character
/// of `s`, in order, each carrying that character's code, ended by `Nil`.
pub open spec fn is_chars_spine(t: Ty, s: Seq<char>) -> bool
    decreases s.len(),
{
    if s.len() == 0 {
        spec_is_item(t, NIL_TYPE@, CGP_BASE_TYPES_CRATE@)
    } else {
        &&& spec_is_item(t, CHARS_TYPE@, CGP_BASE_TYPES_CRATE@)
        &&& spec_const_at(t, 0) == Some(s[0] as u32)
        &&& spec_type_at(t, 1) matches Some(tail) && is_chars_spine(tail, s.drop_first())
    }
}

/// Decoding a `Chars` spine gives back the string it was built from, character for character:
/// every character (an underscore as much as a letter) is kept, in order, and the decoded
/// string has one character per node.
pub proof fn law_decode_chars_round_trip(t: Ty, s: Seq<char>)
    requires
        is_chars_spine(t, s),
    ensures
        spec_decode_chars(t) == Some(s),
    decreases s.len(),
{
    reveal_strlit("Nil");
    reveal_strlit("Chars");
    assert(NIL_TYPE@ != CHARS_TYPE@) by {
        assert(NIL_TYPE@.len() != CHARS_TYPE@.len());
    }
    if s.len() > 0 {
        let tail = spec_type_at(t, 1).unwrap();
        law_decode_chars_round_trip(tail, s.drop_first());
        let c = s[0];
        vstd::utf8::char_is_scalar(c);
        vstd::utf8::char_u32_cast(c, c as u32);
        assert(is_scalar_value(c as u32));
        assert((c as u32) as char == c);
        assert(seq![c] + s.drop_first() =~= s);
    }
}

/// The field name a `Symbol<N, Chars<..>>` spells is exactly the string its spine was built from.
pub proof fn law_decode_symbol_round_trip(t: Ty, head: Ty, s: Seq<char>)
    requires
        spec_is_item(t, SYMBOL_TYPE@, CGP_BASE_TYPES_CRATE@),
        spec_type_at(t, 1) == Some(head),
        is_chars_spine(head, s),
    ensures
        spec_decode_symbol(t) == Some(s),
{
    law_decode_chars_round_trip(head, s);
}

} // verus!
