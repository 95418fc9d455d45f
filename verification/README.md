# cargo_cgp_driver

The rustc wrapper behind `cargo cgp check`: cargo runs it in place of `rustc` for each workspace
crate, and it compiles the crate in-process with a diagnostic emitter that recognizes CGP wiring
errors and rewrites them root-cause first.

The crate is in two parts.

- `src/` is the library, verified with Verus. It holds the driver's logic, each part stated as
  a contract over plain values: the argument vector handed to the compiler and the expand-mode
  request (`args`, `expand`, `help`, `callbacks`); a plain-value model of the compiler's types
  and trait obligations, and the types literals write (`ty_model`, `predicate`, `written`); the
  descent of the wiring's dependency graph to each root cause and the classification and
  labelling of what it finds (`walk`, `leaf`, `resolve`, `anchor`, `cache`); the recognition of
  the CGP mistakes it words specially (`misuse`, `conflict`, `orphan`, `capability`); and the
  emitter's handling of each diagnostic — the order in which the recognizers are tried, what
  each does with it and how the decision is held for the flush (`dispatch`), what is rewritten,
  held, coalesced, de-duplicated or dropped, and how the held ones are flushed (`diag`,
  `emitter`, `coalesce`, `footer`, `report`). The properties the tool relies on across calls
  stand as `law_*` proof functions beside the code they are about.
- `app/` is the compiler-facing program around it: `main`, the `rustc_driver` callbacks, the
  emitter that converts each compiler diagnostic to the library's model and back, and the
  queries to the compiler and its trait solver that supply the facts and answers the library
  decides on (the trait solver's impl matching, and the message crate's wording, stay there).
  It needs a nightly toolchain with the `rustc-dev` component.

`tests/` exercises the library on concrete values, including the missing-field example of the
tool's documentation.
