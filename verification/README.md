# patina

The core of the Patina Scheme implementation and its compatibility harness,
written in Verus: each function states what it does in `requires` and
`ensures`, and Verus proves it.

## Layout

- `src/` — the library, every item verified.
  - `heap/` — the typed arenas that hold every value not held in a
    `TaggedValue`, their free lists, the mark-and-sweep collector, the
    number predicates and the three equivalences (`eq?`, `eqv?`,
    `equal?`), the `equal?` hash, and arithmetic on exact integers.
  - `environment.rs` — environments as an arena of frames: plain, scoped
    and aliased bindings, imports that share a location, and scope-set
    resolution.
  - `debug_format/` — the printer, with datum labels for circular values.
  - `core_expr.rs`, `cps_expr.rs`, `core_syntax.rs`, `compiled_macro.rs`,
    `continuation.rs` — the expression trees and macro templates and how
    they are written.
  - `compat/` — the compatibility harness's logic: reading package
    declarations, classifying a run's output, and rendering the report.
- `app/` — the harness program: argument handling, files, processes, the
  host platform, and the spelling of inexact reals.
- `tests/` — tests of the library.

Exact arithmetic covers the whole exact tower: fixnums, big integers and
rationals, with results normalized (an integer result is a fixnum or a big
integer, any other a rational in lowest terms). Arithmetic on inexact reals
and complex numbers is floating point; the arithmetic functions answer
`Ok(None)` for those operands and leave them to the caller.

Environments and the printer's cycle search keep their tables in plain
vectors searched in order, where a hash map or a small-vector would only
make them faster: the contracts are stated over those vectors.
