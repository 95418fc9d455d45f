//! The compiler callbacks the driver installs, as decisions.

use vstd::prelude::*;

use crate::expand::ExpandRequest;

verus! {

/// Whether the compiler goes on after a callback.
#[derive(Clone, Copy, Debug, PartialEq, Eq, Structural)]
pub enum Compilation {
    Continue,
    Stop,
}

/// The driver's compiler callbacks.
///
/// Their `config` hook installs the diagnostic-rewriting emitter. When the front-end asked for
/// an expansion, `after_expansion` prints the expanded crate and stops the compilation there.
pub struct CgpCallbacks {
    /// Set when the invocation carried the expand-mode flag, holding where to write the result.
    pub expand: Option<ExpandRequest>,
}

impl CgpCallbacks {
    /// After macro expansion: the request to print the expansion for, if one was made, and
    /// whether compilation goes on. An expansion is all that is wanted of such an invocation, so
    /// it stops there rather than type-checking a crate that is only being read; without a
    /// request the compilation continues as plain `rustc`'s would.
    pub fn after_expansion(&self) -> (r: (Option<&ExpandRequest>, Compilation))
        ensures
            match self.expand {
                Some(req) => r.0 == Some(&req) && r.1 == Compilation::Stop,
                None => r.0 is None && r.1 == Compilation::Continue,
            },
    {
        match &self.expand {
            Some(request) => (Some(request), Compilation::Stop),
            None => (None, Compilation::Continue),
        }
    }
}

} // verus!
