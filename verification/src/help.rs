//! The driver's own `--help` text.
//!
//! When `cargo-cgp-driver` is run directly (not as cargo's rustc wrapper), a `--help` or `-h`
//! flag prints this text instead of running the compiler; in wrapper mode the same flags belong
//! to the real compiler.

use vstd::prelude::*;

use crate::text::{append, owned, str_eq};

verus! {

/// The help text up to the tool version.
pub const HELP_HEAD: &'static str = "cargo-cgp-driver ";

/// The help text between the tool version and the pinned toolchain.
pub const HELP_MIDDLE: &'static str = "
The rustc wrapper behind cargo-cgp — not meant to be run directly.

cargo runs this in place of rustc for each workspace crate (through
RUSTC_WORKSPACE_WRAPPER), passing the real rustc path followed by its arguments.
In that wrapper mode every argument is forwarded to the compiler.

Run directly, it answers:
    -h, --help       Print this help.
    -V, --version    Print the driver version, its pinned toolchain
                     (";

/// The help text after the pinned toolchain.
pub const HELP_TAIL: &'static str = "), and the rustc it was built against.

To check a project, use `cargo cgp check`. To drive the compiler by hand for
debugging, see the cargo-cgp usage reference.";

/// Whether one argument asks for help.
pub open spec fn is_help_arg(arg: Seq<char>) -> bool {
    arg == "--help"@ || arg == "-h"@
}

/// Whether the arguments request help (a bare `--help` or `-h`).
pub fn wants_help(args: &Vec<String>) -> (r: bool)
    ensures
        r == exists|i: int| 0 <= i < args@.len() && #[trigger] is_help_arg(args.deep_view()[i]),
{
    let mut i: usize = 0;
    while i < args.len()
        invariant
            i <= args@.len(),
            forall|j: int| 0 <= j < i ==> !#[trigger] is_help_arg(args.deep_view()[j]),
        decreases args@.len() - i,
    {
        let arg = args[i].as_str();
        if str_eq(arg, "--help") || str_eq(arg, "-h") {
            assert(is_help_arg(args.deep_view()[i as int]));
            return true;
        }
        i = i + 1;
    }
    false
}

/// The driver's help text for the given tool version and pinned toolchain: it explains the
/// driver's role as cargo's rustc wrapper and the few flags it answers when run directly.
pub fn help_text(tool_version: &str, pinned_toolchain: &str) -> (text: String)
    ensures
        text@ == HELP_HEAD@ + tool_version@ + HELP_MIDDLE@ + pinned_toolchain@ + HELP_TAIL@,
{
    let mut text = owned(HELP_HEAD);
    append(&mut text, tool_version);
    append(&mut text, HELP_MIDDLE);
    append(&mut text, pinned_toolchain);
    append(&mut text, HELP_TAIL);
    text
}

} // verus!
