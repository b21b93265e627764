//! The runtime form of an error union: a heterogeneous list of nested enums.

use vstd::prelude::*;

verus! {

/// Heterogeneous list (nested enum): the runtime value of an error union.
///
/// For error types `A`, `B`, `C` in blind order the error type of a
/// declaration is `Unt<A, Unt<B, Unt<C, End>>>`; the error at position `i`
/// is `Here` wrapped in `i` layers of `There`.
#[derive(Debug, Clone, Copy, PartialEq, Eq)]
pub enum Unt<H, T> {
    Here(H),
    There(T),
}

/// Uninhabited terminator of the `Unt` list: `There(End)` cannot be built,
/// so a match that covers every listed error type is exhaustive.
///
/// Its one variant holds `Infallible`, which has no values, so `End` has
/// none either.
#[derive(Debug, Clone, Copy, PartialEq, Eq)]
pub enum End {
    Never(core::convert::Infallible),
}

} // verus!
