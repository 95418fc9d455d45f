//! Well-known names shared with the front-end and the CGP crates.

use vstd::prelude::*;

verus! {

/// Environment variable through which `cargo-cgp` hands the driver the active toolchain's
/// sysroot.
pub const SYSROOT_ENV: &'static str = "CARGO_CGP_SYSROOT";

/// The rustc flag that sets the sysroot; injected (with the value from [`SYSROOT_ENV`]) only
/// when the invocation does not already carry one.
pub const SYSROOT_FLAG: &'static str = "--sysroot";

/// The flag that turns on the next-generation trait solver for every workspace-crate
/// compilation, unless the invocation already sets `-Znext-solver`.
pub const NEXT_SOLVER_FLAG: &'static str = "-Znext-solver=globally";

/// The stable `--verbose` flag, injected so the compiler does not elide the parts of a type
/// (shared generic arguments, long types, impl lists) a CGP diagnostic needs.
pub const VERBOSE_FLAG: &'static str = "--verbose";

/// The front-end's expand-mode flag, always written `--cgp-expand=<path>`.
pub const EXPAND_FLAG: &'static str = "--cgp-expand";

/// The crate that defines CGP's wiring traits (`IsProviderFor`, `CanUseComponent`,
/// `DelegateComponent`, `RedirectLookup`).
pub const CGP_COMPONENT_CRATE: &'static str = "cgp_component";

/// The marker supertrait every CGP provider trait carries.
pub const IS_PROVIDER_FOR_TRAIT: &'static str = "IsProviderFor";

/// The check trait `check_components!` asserts on a context.
pub const CAN_USE_COMPONENT_TRAIT: &'static str = "CanUseComponent";

/// The wiring-table trait.
pub const DELEGATE_COMPONENT_TRAIT: &'static str = "DelegateComponent";

/// The redirect provider type of `open` and namespaces, `RedirectLookup<Table, Path>`.
pub const REDIRECT_LOOKUP_TYPE: &'static str = "RedirectLookup";

/// The field-access trait whose unmet bound is the missing-field root cause.
pub const HAS_FIELD_TRAIT: &'static str = "HasField";

/// The crate that defines `HasField`, `Field`, `Either` and `Void`.
pub const CGP_FIELD_CRATE: &'static str = "cgp_field";

/// The crate that defines the type-level spines `Symbol`, `Chars`, `Cons`, `PathCons`, `Nil`.
pub const CGP_BASE_TYPES_CRATE: &'static str = "cgp_base_types";

/// The crate that defines `UseType`.
pub const CGP_TYPE_CRATE: &'static str = "cgp_type";

/// The type-level string head, `Symbol<LEN, Chars>`.
pub const SYMBOL_TYPE: &'static str = "Symbol";

/// One character cell of a type-level string, `Chars<CHAR, Tail>`.
pub const CHARS_TYPE: &'static str = "Chars";

/// The product-list cell, `Cons<Head, Tail>`.
pub const CONS_TYPE: &'static str = "Cons";

/// The terminator of the product and string spines.
pub const NIL_TYPE: &'static str = "Nil";

/// The sum-list cell, `Either<Head, Tail>`.
pub const EITHER_TYPE: &'static str = "Either";

/// The terminator of the sum spine.
pub const VOID_TYPE: &'static str = "Void";

/// A named field cell, `Field<Tag, Value>`.
pub const FIELD_TYPE: &'static str = "Field";

/// The path-key cell of `open` and namespace redirects, `PathCons<Head, Tail>`.
pub const PATH_CONS_TYPE: &'static str = "PathCons";

/// The provider that supplies an abstract type, `UseType<T>`.
pub const USE_TYPE_TYPE: &'static str = "UseType";

/// CGP's lift of a lifetime into a type, `Life<'a>`, with which a component's `Params` slot
/// carries a lifetime parameter.
pub const LIFE_TYPE: &'static str = "Life";

} // verus!
