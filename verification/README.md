# struct_error

Flat error flow built from plain error structs. A function declares the
error types it may throw; its error value is a nested `Unt` list
(`Unt<A, Unt<B, End>>`), and a match names the error types directly. Both
sites order the error types by the same *blind order* (identifiers compared
from the last path segment backward), so they always agree on where each
type sits in the list.

## Layout

- `src/` — the verified library (Verus):
  - `unt.rs` — the runtime `Unt` / `End` list types.
  - `text.rs`, `path.rs` — identifiers, paths and their rendering.
  - `sort.rs` — blind order, ambiguity detection, stable sort,
    deduplication, `Unt` type / constructor / pattern text.
  - `blind_laws.rs`, `agreement.rs` — proved laws: the sort is an ordered
    permutation, the planned order depends only on the set of error types,
    declaration and match sites agree, every match arm is placed.
  - `registry.rs` — registered error types and united errors.
  - `error_attr.rs`, `united.rs`, `throws.rs`, `match_arms.rs` — the plans
    behind the `error`, `united_error`, `throws` and `match_error` expansions;
    `match_input.rs` reads the input of `match_error`. Struct items, attribute lists,
    string literals and `match` expressions are read with `syn` through a
    few trusted wrappers whose contracts name only what `syn` determines
    (shapes of paths and patterns, values of literals), not printed text.
- `app/` — the token-level front end over `syn`/`quote`: hands the library
  the macro input as text, rewrites `throws` bodies with a `syn` visitor,
  and turns the library's plans back into tokens.
- `tests/` — scenario tests of the library.
