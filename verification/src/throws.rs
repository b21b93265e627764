//! Planning of a `throws` declaration: the resolved, blind-sorted list of
//! error types, the `Unt` return type, the local `__StructErrorInto` trait
//! that puts each error at its position, and the text of the rewrites of
//! `?`, `return` and the tail expression.

use vstd::prelude::*;
use crate::text::{push_text, text_of};
use crate::path::{
    ErrorPath, PathView, SegmentView, paths_view, path_text, ends_in_ok, ends_in_err, path_ends_in_ok,
    path_ends_in_err, render_path, shapes, syn_parse_path_list, parse_path_list,
};
use crate::sort::{
    AmbiguityError, no_ambiguity, reports_first_ambiguity, unt_type_text, nesting_text,
    sort_paths, dedup_paths, build_unt_type, build_unt_nesting,
};
use crate::blind_laws::{
    blind_plan, well_formed_paths, same_error_set, law_plan_ignores_order_and_repetition,
};
use crate::path::idents;
use crate::sort::strip_colon;
use crate::registry::{Registry, resolve_all, resolve_error_paths};

verus! {

/// The declaration of the local conversion trait.
pub open spec fn trait_decl_text(unt: Seq<char>) -> Seq<char> {
    "trait __StructErrorInto {\n    fn into_unt(self) -> "@ + unt + ";\n}\n"@
}

/// The conversion of the error type `p` into the `Unt` value at `index`.
pub open spec fn impl_for_text(p: PathView, index: nat, unt: Seq<char>) -> Seq<char> {
    "impl __StructErrorInto for "@ + path_text(p) + " {\n    fn into_unt(self) -> "@ + unt
        + " {\n        "@ + nesting_text(index, "self"@) + "\n    }\n}\n"@
}

/// The conversions of the first `n` error types.
pub open spec fn impls_text(s: Seq<PathView>, unt: Seq<char>, n: nat) -> Seq<char>
    decreases n,
{
    if n == 0 {
        Seq::empty()
    } else {
        impls_text(s, unt, (n - 1) as nat) + impl_for_text(s[n - 1], (n - 1) as nat, unt)
    }
}

/// The (never reached) conversion of `End`.
pub open spec fn end_impl_text(unt: Seq<char>) -> Seq<char> {
    "impl __StructErrorInto for ::struct_error::End {\n    fn into_unt(self) -> "@ + unt
        + " {\n        match self {}\n    }\n}\n"@
}

/// The conversion of any `Unt` whose parts convert: lets `?` carry errors
/// from one declaration into another that covers them.
pub open spec fn unt_impl_text(unt: Seq<char>) -> Seq<char> {
    "impl<H, T> __StructErrorInto for ::struct_error::Unt<H, T>\nwhere\n    H: __StructErrorInto,\n    T: __StructErrorInto,\n{\n    fn into_unt(self) -> "@
        + unt
        + " {\n        match self {\n            ::struct_error::Unt::Here(h) => h.into_unt(),\n            ::struct_error::Unt::There(t) => t.into_unt(),\n        }\n    }\n}\n"@
}

/// The whole local trait and its impls for the sorted error types `s`;
/// nothing for an empty list.
pub open spec fn into_trait_text(s: Seq<PathView>) -> Seq<char> {
    if s.len() == 0 {
        Seq::empty()
    } else {
        let unt = unt_type_text(s);
        trait_decl_text(unt) + impls_text(s, unt, s.len()) + end_impl_text(unt) + unt_impl_text(
            unt,
        )
    }
}

/// The return type `Result<T, Unt<..>>` of a declaration.
pub open spec fn return_type_text(ret_ty: Seq<char>, unt: Seq<char>) -> Seq<char> {
    "::core::result::Result<"@ + ret_ty + ", "@ + unt + ">"@
}

/// The conversion of one error type into the `Unt` value at `index`.
fn impl_for(path: &ErrorPath, index: usize, total: usize, unt: &str) -> (r: String)
    ensures
        r@ == impl_for_text(path@, index as nat, unt@),
{
    let nested = build_unt_nesting(index, total, "self");
    let mut r = text_of("impl __StructErrorInto for ");
    push_text(&mut r, render_path(path).as_str());
    push_text(&mut r, " {\n    fn into_unt(self) -> ");
    push_text(&mut r, unt);
    push_text(&mut r, " {\n        ");
    push_text(&mut r, nested.as_str());
    push_text(&mut r, "\n    }\n}\n");
    r
}

/// Generates the local `__StructErrorInto` trait: one impl per error type,
/// the `i`-th building the `Unt` value at position `i`, plus the impls for
/// `End` and for any `Unt`.
pub fn generate_into_trait(paths: &Vec<ErrorPath>) -> (r: String)
    ensures
        r@ == into_trait_text(paths_view(paths@)),
{
    let ghost s = paths_view(paths@);
    if paths.len() == 0 {
        return String::new();
    }
    let unt = build_unt_type(paths);
    let mut r = text_of("trait __StructErrorInto {\n    fn into_unt(self) -> ");
    push_text(&mut r, unt.as_str());
    push_text(&mut r, ";\n}\n");
    let ghost head = r@;
    assert(head == trait_decl_text(unt@));
    assert(head + impls_text(s, unt@, 0) =~= head);
    for i in 0..paths.len()
        invariant
            s == paths_view(paths@),
            unt@ == unt_type_text(s),
            head == trait_decl_text(unt@),
            r@ == head + impls_text(s, unt@, i as nat),
    {
        let one = impl_for(&paths[i], i, paths.len(), unt.as_str());
        push_text(&mut r, one.as_str());
        assert(s[i as int] == paths@[i as int]@);
        assert(r@ =~= head + impls_text(s, unt@, (i + 1) as nat));
    }
    push_text(&mut r, "impl __StructErrorInto for ::struct_error::End {\n    fn into_unt(self) -> ");
    push_text(&mut r, unt.as_str());
    push_text(&mut r, " {\n        match self {}\n    }\n}\n");
    push_text(
        &mut r,
        "impl<H, T> __StructErrorInto for ::struct_error::Unt<H, T>\nwhere\n    H: __StructErrorInto,\n    T: __StructErrorInto,\n{\n    fn into_unt(self) -> ",
    );
    push_text(&mut r, unt.as_str());
    push_text(
        &mut r,
        " {\n        match self {\n            ::struct_error::Unt::Here(h) => h.into_unt(),\n            ::struct_error::Unt::There(t) => t.into_unt(),\n        }\n    }\n}\n",
    );
    assert(r@ =~= into_trait_text(s));
    r
}

/// What a `throws` declaration expands to, apart from its rewritten body.
#[derive(Debug)]
pub struct ThrowsPlan {
    /// The distinct error types in blind order.
    pub paths: Vec<ErrorPath>,
    /// The `Unt` list type of those errors.
    pub unt_type: String,
    /// The new return type `Result<T, Unt<..>>`.
    pub return_type: String,
    /// The local conversion trait and its impls.
    pub into_trait: String,
}

/// Plans a `throws` declaration over `error_paths` for a function whose
/// declared return type has the source text `ret_ty`: united errors are
/// replaced by their members, then the types are blind-sorted and
/// deduplicated.
pub fn throws(registry: &Registry, error_paths: &Vec<ErrorPath>, ret_ty: &str) -> (r: Result<
    ThrowsPlan,
    AmbiguityError,
>)
    ensures
        match r {
            Ok(plan) => {
                let s = resolve_all(registry.united_members(), paths_view(error_paths@));
                &&& no_ambiguity(s)
                &&& paths_view(plan.paths@) == blind_plan(s)
                &&& plan.unt_type@ == unt_type_text(blind_plan(s))
                &&& plan.return_type@ == return_type_text(ret_ty@, unt_type_text(blind_plan(s)))
                &&& plan.into_trait@ == into_trait_text(blind_plan(s))
            },
            Err(e) => {
                let s = resolve_all(registry.united_members(), paths_view(error_paths@));
                &&& !no_ambiguity(s)
                &&& reports_first_ambiguity(e, s)
            },
        },
{
    let expanded = resolve_error_paths(registry, error_paths);
    let sorted = match sort_paths(expanded) {
        Ok(v) => v,
        Err(e) => {
            return Err(e);
        },
    };
    let unique = dedup_paths(sorted);
    let unt_type = build_unt_type(&unique);
    let into_trait = generate_into_trait(&unique);
    let mut return_type = text_of("::core::result::Result<");
    push_text(&mut return_type, ret_ty);
    push_text(&mut return_type, ", ");
    push_text(&mut return_type, unt_type.as_str());
    push_text(&mut return_type, ">");
    Ok(ThrowsPlan { paths: unique, unt_type, return_type, into_trait })
}

/// Why a `throws` attribute cannot be planned.
#[derive(Debug)]
pub enum ThrowsInputError {
    /// The attribute is not a comma-separated list of paths.
    Syntax,
    /// Two of its error types are ambiguous.
    Ambiguous(AmbiguityError),
}

/// What planning the declared error types `declared` gives, stated as the
/// contract of `throws` states it.
pub open spec fn throws_outcome(
    m: Map<Seq<char>, Seq<PathView>>,
    declared: Seq<PathView>,
    ret_ty: Seq<char>,
    r: Result<ThrowsPlan, ThrowsInputError>,
) -> bool {
    let s = resolve_all(m, declared);
    match r {
        Ok(plan) => {
            &&& no_ambiguity(s)
            &&& paths_view(plan.paths@) == blind_plan(s)
            &&& plan.unt_type@ == unt_type_text(blind_plan(s))
            &&& plan.return_type@ == return_type_text(ret_ty, unt_type_text(blind_plan(s)))
            &&& plan.into_trait@ == into_trait_text(blind_plan(s))
        },
        Err(ThrowsInputError::Ambiguous(e)) => !no_ambiguity(s) && reports_first_ambiguity(e, s),
        Err(ThrowsInputError::Syntax) => false,
    }
}

/// Law (a declaration's order and repetitions do not matter): two lists of
/// declared error types whose resolved types form the same set, each type
/// written alike wherever both name it, are planned alike: whatever the
/// planning of one returns, the planning of the other returns too.
pub proof fn law_throws_ignores_order_and_repetition(
    m: Map<Seq<char>, Seq<PathView>>,
    first: Seq<PathView>,
    second: Seq<PathView>,
    ret_ty: Seq<char>,
    r: Result<ThrowsPlan, ThrowsInputError>,
)
    requires
        well_formed_paths(resolve_all(m, first)),
        well_formed_paths(resolve_all(m, second)),
        no_ambiguity(resolve_all(m, first)),
        no_ambiguity(resolve_all(m, second)),
        same_error_set(resolve_all(m, first), resolve_all(m, second)),
        forall|i: int, j: int|
            0 <= i < resolve_all(m, first).len() && 0 <= j < resolve_all(m, second).len() && idents(
                #[trigger] resolve_all(m, first)[i],
            ) == idents(#[trigger] resolve_all(m, second)[j]) ==> strip_colon(
                resolve_all(m, first)[i],
            ) == strip_colon(resolve_all(m, second)[j]),
    ensures
        throws_outcome(m, first, ret_ty, r) <==> throws_outcome(m, second, ret_ty, r),
{
    law_plan_ignores_order_and_repetition(resolve_all(m, first), resolve_all(m, second));
}

/// Plans a `throws` declaration from the text of its attribute: the list is
/// parsed as comma-separated paths, then planned as `throws` plans it.
pub fn throws_input(registry: &Registry, attr_text: &str, ret_ty: &str) -> (r: Result<
    ThrowsPlan,
    ThrowsInputError,
>)
    ensures
        syn_parse_path_list(attr_text@) is None <==> r matches Err(ThrowsInputError::Syntax),
        syn_parse_path_list(attr_text@) is Some ==> exists|v: Seq<PathView>|
            #![trigger shapes(v)]
            well_formed_paths(v) && syn_parse_path_list(attr_text@) == Some(shapes(v)) && throws_outcome(
                registry.united_members(),
                v,
                ret_ty@,
                r,
            ),
{
    match parse_path_list(attr_text) {
        Some(paths) => {
            let r = match throws(registry, &paths, ret_ty) {
                Ok(plan) => Ok(plan),
                Err(e) => Err(ThrowsInputError::Ambiguous(e)),
            };
            assert(syn_parse_path_list(attr_text@) == Some(shapes(paths_view(paths@))));
            assert(throws_outcome(registry.united_members(), paths_view(paths@), ret_ty@, r));
            r
        },
        None => Err(ThrowsInputError::Syntax),
    }
}

/// The head of an expression, as far as the rewriting of `return` reads it.
#[derive(Debug)]
pub enum ExprHead {
    /// A call whose callee is the path given.
    CallOfPath(ErrorPath),
    /// Anything else.
    Other,
}

/// The expression is a call of `Ok(..)`, however the path to `Ok` is written.
pub open spec fn is_ok_expr_spec(e: ExprHead) -> bool {
    e matches ExprHead::CallOfPath(p) && ends_in_ok(p@)
}

/// The expression is a call of `Err(..)`, however the path to `Err` is written.
pub open spec fn is_err_expr_spec(e: ExprHead) -> bool {
    e matches ExprHead::CallOfPath(p) && ends_in_err(p@)
}

/// Whether the expression looks like an `Ok(..)` constructor call.
pub fn is_ok_expr(expr: &ExprHead) -> (r: bool)
    ensures
        r == is_ok_expr_spec(*expr),
{
    match expr {
        ExprHead::CallOfPath(p) => path_ends_in_ok(p),
        ExprHead::Other => false,
    }
}

/// Whether the expression looks like an `Err(..)` constructor call.
pub fn is_err_expr(expr: &ExprHead) -> (r: bool)
    ensures
        r == is_err_expr_spec(*expr),
{
    match expr {
        ExprHead::CallOfPath(p) => path_ends_in_err(p),
        ExprHead::Other => false,
    }
}

/// The text that a returned value (or the tail expression) becomes: an
/// explicit `Ok(..)` or `Err(..)` is kept as written, anything else is
/// wrapped in `Ok(..)`.
pub open spec fn wrapped_text(head: ExprHead, text: Seq<char>) -> Seq<char> {
    if is_ok_expr_spec(head) || is_err_expr_spec(head) {
        text
    } else {
        "::core::result::Result::Ok("@ + text + ")"@
    }
}

/// Wraps a returned value in `Ok(..)` unless it is written as `Ok(..)` or `Err(..)`.
pub fn wrap_expr(head: &ExprHead, text: &str) -> (r: String)
    ensures
        r@ == wrapped_text(*head, text@),
{
    if is_ok_expr(head) || is_err_expr(head) {
        return text_of(text);
    }
    let mut r = text_of("::core::result::Result::Ok(");
    push_text(&mut r, text);
    push_text(&mut r, ")");
    r
}

/// The path `::core::result::Result::Ok` that the wrapping writes.
pub open spec fn result_ok_path() -> PathView {
    PathView {
        leading_colon: true,
        segments: seq![
            SegmentView { ident: "core"@, args: Seq::empty() },
            SegmentView { ident: "result"@, args: Seq::empty() },
            SegmentView { ident: "Result"@, args: Seq::empty() },
            SegmentView { ident: "Ok"@, args: Seq::empty() },
        ],
    }
}

/// Law (no double wrapping): a value already written as a call of the
/// `::core::result::Result::Ok` that the wrapping writes is passed through
/// unchanged, so wrapping what was wrapped changes nothing.
pub proof fn law_wrapping_passes_own_output(head: ExprHead, text: Seq<char>)
    requires
        head matches ExprHead::CallOfPath(p) && p@ == result_ok_path(),
    ensures
        wrapped_text(head, text) == text,
{
    reveal_strlit("Ok");
    let p = head->CallOfPath_0;
    assert(p@.segments.last().ident == "Ok"@);
}

/// The `match` that replaces `expr?`: the value on success, otherwise the
/// error converted to this declaration's `Unt` and returned.
pub open spec fn try_rewrite_spec(expr: Seq<char>) -> Seq<char> {
    "match "@ + expr
        + " {\n    ::core::result::Result::Ok(v) => v,\n    ::core::result::Result::Err(e) => {\n        return ::core::result::Result::Err(__StructErrorInto::into_unt(e))\n    }\n}"@
}

/// Builds the `match` that replaces `expr?`.
pub fn try_rewrite_text(expr: &str) -> (r: String)
    ensures
        r@ == try_rewrite_spec(expr@),
{
    let mut r = text_of("match ");
    push_text(&mut r, expr);
    push_text(
        &mut r,
        " {\n    ::core::result::Result::Ok(v) => v,\n    ::core::result::Result::Err(e) => {\n        return ::core::result::Result::Err(__StructErrorInto::into_unt(e))\n    }\n}",
    );
    r
}

/// How a function body ends.
#[derive(Debug, Clone, Copy, PartialEq, Eq, Structural)]
pub enum BodyEnd {
    /// The body has no statements.
    Empty,
    /// The last statement is an expression without `;`.
    TailExpr,
    /// The last statement is anything else.
    Statement,
}

/// A function declared without a return value gets a final `Ok(())`
/// unless its body ends in a tail expression.
pub fn needs_unit_ok(is_unit_ret: bool, end: BodyEnd) -> (r: bool)
    ensures
        r == (is_unit_ret && end != BodyEnd::TailExpr),
{
    if is_unit_ret {
        match end {
            BodyEnd::TailExpr => false,
            _ => true,
        }
    } else {
        false
    }
}

/// The statement appended to a unit function's body.
pub fn unit_ok_text() -> (r: String)
    ensures
        r@ == "::core::result::Result::Ok(())"@,
{
    text_of("::core::result::Result::Ok(())")
}

} // verus!
