//! The type a literal writes at a call site.
//!
//! When the resolver reconstructs the input a failing call was given, a literal argument writes
//! its type outright: a string slice, a `bool`, a `char`, a byte, or a number with a type suffix.
//! An unsuffixed number leaves its type to inference, and so do the other literal kinds.

use vstd::prelude::*;

verus! {

/// The width of a primitive integer type.
#[derive(Clone, Copy, Debug, PartialEq, Eq, Structural)]
pub enum IntWidth {
    W8,
    W16,
    W32,
    W64,
    W128,
    Size,
}

/// The width of a primitive float type.
#[derive(Clone, Copy, Debug, PartialEq, Eq, Structural)]
pub enum FloatWidth {
    F16,
    F32,
    F64,
    F128,
}

/// An integer literal's type suffix.
#[derive(Clone, Copy, Debug, PartialEq, Eq, Structural)]
pub struct IntSuffix {
    pub signed: bool,
    pub width: IntWidth,
}

/// A literal as written: its kind, and the type suffix of a number when it has one.
#[derive(Clone, Copy, Debug, PartialEq, Eq, Structural)]
pub enum Literal {
    Str,
    ByteStr,
    CStr,
    Bool,
    Char,
    Byte,
    Int { suffix: Option<IntSuffix> },
    Float { suffix: Option<FloatWidth> },
    /// A literal the parser could not read.
    Invalid,
}

/// A type a literal writes.
#[derive(Clone, Copy, Debug, PartialEq, Eq, Structural)]
pub enum LiteralType {
    /// `&str`, with its lifetime erased.
    StrRef,
    Bool,
    Char,
    Int { signed: bool, width: IntWidth },
    Float(FloatWidth),
}

/// The type `lit` writes: a string literal is a `&str`, a byte literal a `u8`, a suffixed number
/// its suffix's type; `None` where the type is left to inference (an unsuffixed number, a byte
/// or C string, an unreadable literal).
pub open spec fn spec_literal_type(lit: Literal) -> Option<LiteralType> {
    match lit {
        Literal::Str => Some(LiteralType::StrRef),
        Literal::Bool => Some(LiteralType::Bool),
        Literal::Char => Some(LiteralType::Char),
        Literal::Byte => Some(LiteralType::Int { signed: false, width: IntWidth::W8 }),
        Literal::Int { suffix: Some(s) } => Some(LiteralType::Int { signed: s.signed, width: s.width }),
        Literal::Float { suffix: Some(width) } => Some(LiteralType::Float(width)),
        _ => None,
    }
}

/// The type `lit` writes (see [`spec_literal_type`]).
pub fn literal_type(lit: Literal) -> (r: Option<LiteralType>)
    ensures
        r == spec_literal_type(lit),
{
    match lit {
        Literal::Str => Some(LiteralType::StrRef),
        Literal::Bool => Some(LiteralType::Bool),
        Literal::Char => Some(LiteralType::Char),
        Literal::Byte => Some(LiteralType::Int { signed: false, width: IntWidth::W8 }),
        Literal::Int { suffix: Some(s) } => Some(LiteralType::Int { signed: s.signed, width: s.width }),
        Literal::Float { suffix: Some(width) } => Some(LiteralType::Float(width)),
        _ => None,
    }
}

} // verus!
