//! Laws that say what the plans of `match_error`, `throws` and
//! `united_error` are for, in terms of their inputs.

use vstd::prelude::*;
use crate::text::char_is_uppercase;
use crate::path::{PathView, path_key, path_text, is_ok_path, is_err_path};
use crate::sort::{unt_type_text, nesting_text, pattern_text};
use crate::match_arms::{
    ArmPat, ArmType, PatKind, PlannedView, ErrorArmView, classify_spec, extract_spec, is_explicit,
    expand_members, expand_one, expand_arms, ok_planned,
};
use crate::throws::into_trait_text;
use crate::united::united_struct_spec;

verus! {

// ---------------------------------------------------------------------------
// Which patterns are error arms
// ---------------------------------------------------------------------------

/// The last identifier of the path starts with an uppercase letter.
pub open spec fn last_ident_uppercase(p: PathView) -> bool {
    p.segments.len() > 0 && p.segments.last().ident.len() > 0 && char_is_uppercase(
        p.segments.last().ident[0],
    )
}

/// The path of a tuple-struct, path or struct pattern.
pub open spec fn pattern_path(pat: ArmPat) -> Option<PathView> {
    match pat.kind {
        PatKind::TupleStruct { path, .. } => Some(path@),
        PatKind::Path(path) => Some(path@),
        PatKind::Struct(path) => Some(path@),
        _ => None,
    }
}

/// Law (an error type is known by its last identifier): a tuple-struct or
/// path pattern whose path is neither `Ok` nor `Err`, and any struct
/// pattern, is an error arm exactly when the last identifier of its path
/// starts with an uppercase letter, however many segments the path has.
pub proof fn law_error_arm_by_last_identifier(pat: ArmPat)
    ensures
        (pat.kind is TupleStruct || pat.kind is Path) && !is_ok_path(pattern_path(pat)->0)
            && !is_err_path(pattern_path(pat)->0) ==> (classify_spec(pat) == ArmType::ErrorArm
            <==> last_ident_uppercase(pattern_path(pat)->0)),
        pat.kind is Struct ==> (classify_spec(pat) == ArmType::ErrorArm <==> last_ident_uppercase(
            pattern_path(pat)->0,
        )),
{
}

// ---------------------------------------------------------------------------
// `Ok` arms
// ---------------------------------------------------------------------------

/// The input arm that a planned arm comes from.
pub open spec fn source_arm(p: PlannedView) -> nat {
    match p {
        PlannedView::OkArm { arm } => arm,
        PlannedView::ErrorArm { arm, .. } => arm,
    }
}

/// Law (`Ok` arms are kept as written): the planned `Ok` arms of the first
/// `n` arms are exactly the arms classed `Ok`, each once, in input order.
pub proof fn law_ok_arms_kept_in_order(arms: Seq<ArmPat>, n: nat)
    requires
        n <= arms.len(),
    ensures
        forall|k: int|
            0 <= k < ok_planned(arms, n).len() ==> (#[trigger] ok_planned(arms, n)[k] is OkArm
                && source_arm(ok_planned(arms, n)[k]) < n && classify_spec(
                arms[source_arm(ok_planned(arms, n)[k]) as int],
            ) == ArmType::OkArm),
        forall|k1: int, k2: int|
            0 <= k1 < k2 < ok_planned(arms, n).len() ==> source_arm(
                #[trigger] ok_planned(arms, n)[k1],
            ) < source_arm(#[trigger] ok_planned(arms, n)[k2]),
        forall|j: int|
            0 <= j < n && classify_spec(#[trigger] arms[j]) == ArmType::OkArm ==> exists|k: int|
                0 <= k < ok_planned(arms, n).len() && #[trigger] ok_planned(arms, n)[k]
                    == (PlannedView::OkArm { arm: j as nat }),
    decreases n,
{
    if n > 0 {
        let n1 = (n - 1) as nat;
        law_ok_arms_kept_in_order(arms, n1);
        let prev = ok_planned(arms, n1);
        let cur = ok_planned(arms, n);
        if classify_spec(arms[n1 as int]) == ArmType::OkArm {
            assert(cur == prev.push(PlannedView::OkArm { arm: n1 }));
            assert forall|k: int|
                0 <= k < cur.len() implies (#[trigger] cur[k] is OkArm && source_arm(cur[k]) < n
                    && classify_spec(arms[source_arm(cur[k]) as int]) == ArmType::OkArm) by {
                if k < prev.len() {
                    assert(cur[k] == prev[k]);
                }
            }
            assert forall|k1: int, k2: int|
                0 <= k1 < k2 < cur.len() implies source_arm(#[trigger] cur[k1]) < source_arm(
                    #[trigger] cur[k2],
                ) by {
                assert(cur[k1] == prev[k1]);
                if k2 < prev.len() {
                    assert(cur[k2] == prev[k2]);
                } else {
                    assert(prev[k1] is OkArm && source_arm(prev[k1]) < n1);
                }
            }
            assert forall|j: int|
                0 <= j < n && classify_spec(#[trigger] arms[j]) == ArmType::OkArm implies exists|
                k: int,
            |
                0 <= k < cur.len() && #[trigger] cur[k] == PlannedView::OkArm { arm: j as nat } by {
                if j < n1 {
                    let k = choose|k: int|
                        0 <= k < prev.len() && #[trigger] prev[k] == PlannedView::OkArm {
                            arm: j as nat,
                        };
                    assert(cur[k] == prev[k]);
                } else {
                    assert(cur[prev.len() as int] == PlannedView::OkArm { arm: j as nat });
                }
            }
        } else {
            assert(cur == prev);
            assert forall|j: int|
                0 <= j < n && classify_spec(#[trigger] arms[j]) == ArmType::OkArm implies exists|
                k: int,
            |
                0 <= k < cur.len() && #[trigger] cur[k] == PlannedView::OkArm { arm: j as nat } by {
                assert(j < n1);
            }
        }
    }
}

// ---------------------------------------------------------------------------
// Explicit arms and united errors
// ---------------------------------------------------------------------------

/// The members that a united arm expands to all come from that arm, and
/// none of them is a type that some error arm names explicitly.
proof fn lemma_members_not_explicit(ms: Seq<PathView>, all: Seq<ArmPat>, i: nat)
    ensures
        forall|k: int|
            0 <= k < expand_members(ms, all, i).len() ==> (#[trigger] expand_members(ms, all, i)[k]).arm
                == i && !is_explicit(all, path_key(expand_members(ms, all, i)[k].path)),
    decreases ms.len(),
{
    if ms.len() > 0 {
        lemma_members_not_explicit(ms.drop_last(), all, i);
        let d = expand_members(ms.drop_last(), all, i);
        let cur = expand_members(ms, all, i);
        assert forall|k: int| 0 <= k < cur.len() implies (#[trigger] cur[k]).arm == i && !is_explicit(
            all,
            path_key(cur[k].path),
        ) by {
            if k < d.len() {
                assert(cur[k] == d[k]);
            }
        }
    }
}

/// The expanded arm comes from one of the first `n` arms, and where its
/// type is named explicitly by some error arm, the arm it comes from names
/// that very type.
pub open spec fn matched_by_own_arm(all: Seq<ArmPat>, n: nat, e: ErrorArmView) -> bool {
    &&& e.arm < n
    &&& is_explicit(all, path_key(e.path)) ==> (extract_spec(all[e.arm as int]) matches Some(q)
        && path_key(q) == path_key(e.path))
}

/// Law (an explicit arm takes priority over a united arm): in the expanded
/// arms, every type that some error arm names explicitly is matched only by
/// an arm that names that very type; a united arm never matches it.
pub proof fn law_explicit_arm_takes_priority(
    m: Map<Seq<char>, Seq<PathView>>,
    all: Seq<ArmPat>,
    n: nat,
)
    requires
        n <= all.len(),
        expand_arms(m, all, n) is Ok,
    ensures
        forall|k: int|
            0 <= k < expand_arms(m, all, n)->Ok_0.len() ==> matched_by_own_arm(
                all,
                n,
                #[trigger] expand_arms(m, all, n)->Ok_0[k],
            ),
    decreases n,
{
    if n > 0 {
        let n1 = (n - 1) as nat;
        let pat = all[n1 as int];
        law_explicit_arm_takes_priority(m, all, n1);
        let d0 = expand_arms(m, all, n1)->Ok_0;
        let d2 = expand_one(m, all, n1, pat)->Ok_0;
        let d = expand_arms(m, all, n)->Ok_0;
        assert(d == d0 + d2);
        if classify_spec(pat) == ArmType::ErrorArm && extract_spec(pat) is Some {
            let q = extract_spec(pat)->0;
            if crate::registry::united_lookup(m, q) is Some && crate::match_arms::is_bare_spec(pat) {
                lemma_members_not_explicit(crate::registry::united_lookup(m, q)->0, all, n1);
            }
        }
        assert forall|k: int| 0 <= k < d.len() implies matched_by_own_arm(all, n, #[trigger] d[k]) by {
            if k < d0.len() {
                assert(d[k] == d0[k]);
            } else {
                assert(d[k] == d2[k - d0.len()]);
            }
        }
    }
}

// ---------------------------------------------------------------------------
// The `Unt` position built by `into_unt`
// ---------------------------------------------------------------------------

/// `s` written `n` times.
pub open spec fn repeat(s: Seq<char>, n: nat) -> Seq<char>
    decreases n,
{
    if n == 0 {
        Seq::empty()
    } else {
        s + repeat(s, (n - 1) as nat)
    }
}

/// `Here(inner)` inside `index` layers of `There(..)`, written out.
pub open spec fn layered(index: nat, inner: Seq<char>) -> Seq<char> {
    repeat("::struct_error::Unt::There("@, index) + "::struct_error::Unt::Here("@ + inner + ")"@
        + repeat(")"@, index)
}

proof fn lemma_repeat_snoc(s: Seq<char>, n: nat)
    ensures
        repeat(s, n) + s == s + repeat(s, n),
    decreases n,
{
    if n > 0 {
        lemma_repeat_snoc(s, (n - 1) as nat);
        assert(repeat(s, n) + s =~= s + (repeat(s, (n - 1) as nat) + s));
    } else {
        assert(repeat(s, n) + s =~= s + repeat(s, n));
    }
}

proof fn lemma_nesting_is_layered(index: nat, inner: Seq<char>)
    ensures
        nesting_text(index, inner) == layered(index, inner),
    decreases index,
{
    if index > 0 {
        let i1 = (index - 1) as nat;
        lemma_nesting_is_layered(i1, inner);
        lemma_repeat_snoc(")"@, i1);
        assert(nesting_text(index, inner) =~= layered(index, inner));
    } else {
        assert(nesting_text(index, inner) =~= layered(index, inner));
    }
}

/// The conversion of `p` into the `Unt` value at `index`, written out.
pub open spec fn into_unt_block(p: PathView, index: nat, unt: Seq<char>) -> Seq<char> {
    "impl __StructErrorInto for "@ + path_text(p) + " {\n    fn into_unt(self) -> "@ + unt
        + " {\n        "@ + layered(index, "self"@) + "\n    }\n}\n"@
}

/// `t` is `a`, then `part`, then `b`.
pub open spec fn splits(t: Seq<char>, a: Seq<char>, part: Seq<char>, b: Seq<char>) -> bool {
    t == a + part + b
}

proof fn lemma_impls_prefix(s: Seq<PathView>, unt: Seq<char>, i: nat, n: nat) -> (b: Seq<char>)
    requires
        i <= n,
    ensures
        crate::throws::impls_text(s, unt, n) == crate::throws::impls_text(s, unt, i) + b,
    decreases n,
{
    if n == i {
        assert(crate::throws::impls_text(s, unt, n) =~= crate::throws::impls_text(s, unt, i)
            + Seq::<char>::empty());
        Seq::empty()
    } else {
        let b0 = lemma_impls_prefix(s, unt, i, (n - 1) as nat);
        let b = b0 + crate::throws::impl_for_text(s[n - 1], (n - 1) as nat, unt);
        assert(crate::throws::impls_text(s, unt, n) =~= crate::throws::impls_text(s, unt, i) + b);
        b
    }
}

/// Law (each error lands at its own position): the local conversion trait
/// of a declaration holds, for the `i`-th planned error type, an impl whose
/// `into_unt` builds `Here(self)` inside exactly `i` layers of `There`; and
/// a match arm at position `i` matches exactly that value, inside `Err`.
pub proof fn law_into_unt_builds_own_position(s: Seq<PathView>, i: int, pat: Seq<char>)
    requires
        0 <= i < s.len(),
    ensures
        exists|a: Seq<char>, b: Seq<char>|
            #[trigger] splits(
                into_trait_text(s),
                a,
                into_unt_block(s[i], i as nat, unt_type_text(s)),
                b,
            ),
        pattern_text(i as nat, pat) == "::core::result::Result::Err("@ + layered(i as nat, pat)
            + ")"@,
{
    let unt = unt_type_text(s);
    let n = s.len();
    let b1 = lemma_impls_prefix(s, unt, (i + 1) as nat, n);
    lemma_nesting_is_layered(i as nat, "self"@);
    lemma_nesting_is_layered(i as nat, pat);
    let block = into_unt_block(s[i], i as nat, unt);
    assert(crate::throws::impl_for_text(s[i], i as nat, unt) == block);
    assert(crate::throws::impls_text(s, unt, (i + 1) as nat) == crate::throws::impls_text(
        s,
        unt,
        i as nat,
    ) + block);
    let a = crate::throws::trait_decl_text(unt) + crate::throws::impls_text(s, unt, i as nat);
    let b = b1 + crate::throws::end_impl_text(unt) + crate::throws::unt_impl_text(unt);
    assert(into_trait_text(s) =~= a + block + b);
    assert(splits(into_trait_text(s), a, block, b));
}

// ---------------------------------------------------------------------------
// The united struct
// ---------------------------------------------------------------------------

/// Law (a united error exports its tokens): the struct that a united error
/// becomes starts with the `export_tokens` attribute line, then the members
/// attribute, and ends with the unit struct itself.
pub proof fn law_united_struct_exports_tokens(
    vis: Seq<char>,
    ident: Seq<char>,
    members: Seq<PathView>,
)
    ensures
        "#[::macro_magic::export_tokens]\n#[::struct_error::__struct_error_members("@.is_prefix_of(
            united_struct_spec(vis, ident, members),
        ),
        (")]\n"@ + vis + " struct "@ + ident + ";\n"@).is_suffix_of(
            united_struct_spec(vis, ident, members),
        ),
{
    let p = "#[::macro_magic::export_tokens]\n#[::struct_error::__struct_error_members("@;
    let t = united_struct_spec(vis, ident, members);
    let tail = ")]\n"@ + vis + " struct "@ + ident + ";\n"@;
    let j = crate::text::join_with(crate::united::member_texts(members), ", "@);
    assert(t =~= p + j + tail);
    assert(p =~= t.subrange(0, p.len() as int));
    assert(tail =~= t.subrange((t.len() - tail.len()) as int, t.len() as int));
}

} // verus!
