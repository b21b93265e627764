//! Laws that tie the `throws` and `match_error` plans together.

use vstd::prelude::*;
use crate::path::{PathView, path_key, idents};
use crate::sort::{no_ambiguity, strip_all, blind_sort, dedup_keys, seen_key, lemma_dedup_keeps_names};
use crate::blind_laws::{
    plan_keys, well_formed_paths, same_error_set, law_sort_is_ordered_permutation, ident_lists,
    law_plan_depends_only_on_error_set,
};
use crate::registry::{resolve_all, resolve_one, united_lookup};
use crate::match_arms::{
    ArmPat, ArmType, ErrorArmView, ExpandFailure, expand_members, expand_one, expand_arms,
    is_explicit, index_of, error_planned, data_paths, classify_spec, extract_spec,
};

verus! {

broadcast use vstd::seq_lib::group_to_multiset_ensures;

/// `index_of` finds exactly the keys that occur.
proof fn lemma_index_of_contains(keys: Seq<Seq<char>>, k: Seq<char>)
    ensures
        index_of(keys, k) is Some <==> keys.contains(k),
        index_of(keys, k) matches Some(i) ==> i < keys.len() && keys[i as int] == k,
    decreases keys.len(),
{
    if keys.len() > 0 {
        lemma_index_of_contains(keys.drop_first(), k);
        if keys.contains(k) && keys[0] != k {
            let q = choose|q: int| 0 <= q < keys.len() && keys[q] == k;
            assert(keys.drop_first()[q - 1] == k);
        }
        if keys.drop_first().contains(k) {
            let q = choose|q: int| 0 <= q < keys.drop_first().len() && keys.drop_first()[q] == k;
            assert(keys[q + 1] == k);
        }
    }
}

/// Every path's name is among the planned names.
proof fn lemma_plan_keys_cover(s: Seq<PathView>, i: int)
    requires
        no_ambiguity(s),
        0 <= i < s.len(),
    ensures
        plan_keys(s).contains(path_key(s[i])),
{
    law_sort_is_ordered_permutation(s);
    let u = strip_all(s);
    let t = blind_sort(u);
    let d = dedup_keys(t);
    assert(u[i] == u[i]);
    assert(u.to_multiset().count(u[i]) > 0);
    assert(t.contains(u[i]));
    let j = choose|j: int| 0 <= j < t.len() && t[j] == u[i];
    assert(path_key(t[j]) == path_key(t[j]));
    assert(seen_key(t, t[j]));
    lemma_dedup_keeps_names(t);
    assert(seen_key(d, t[j]));
    let m = choose|m: int| 0 <= m < d.len() && #[trigger] path_key(d[m]) == path_key(t[j]);
    assert(idents(u[i]) == idents(s[i]));
    assert(plan_keys(s)[m] == path_key(s[i]));
}

/// Law (`?` carries errors outward): when every error type of an inner
/// declaration is also named by an outer one, each of them has a position
/// in the outer union, so the conversion by name that `?` performs always
/// finds its target.
pub proof fn law_inner_errors_have_outer_positions(inner: Seq<PathView>, outer: Seq<PathView>)
    requires
        no_ambiguity(outer),
        forall|i: int|
            0 <= i < inner.len() ==> #[trigger] crate::blind_laws::ident_lists(outer).contains(
                idents(inner[i]),
            ),
    ensures
        forall|i: int|
            0 <= i < inner.len() ==> #[trigger] plan_keys(outer).contains(path_key(inner[i])),
{
    assert forall|i: int| 0 <= i < inner.len() implies #[trigger] plan_keys(outer).contains(
        path_key(inner[i]),
    ) by {
        assert(crate::blind_laws::ident_lists(outer).contains(idents(inner[i])));
        let j = choose|j: int|
            0 <= j < outer.len() && crate::blind_laws::ident_lists(outer)[j] == idents(inner[i]);
        lemma_plan_keys_cover(outer, j);
        assert(path_key(outer[j]) == path_key(inner[i]));
    }
}

/// Law: every error arm of a planned match gets an `Unt` position; none is
/// dropped.
pub proof fn law_every_error_arm_is_placed(d: Seq<ErrorArmView>)
    requires
        no_ambiguity(data_paths(d)),
    ensures
        error_planned(d, plan_keys(data_paths(d))).len() == d.len(),
        forall|i: int|
            0 <= i < d.len() ==> (#[trigger] index_of(plan_keys(data_paths(d)), path_key(d[i].path)))
                is Some,
{
    let keys = plan_keys(data_paths(d));
    assert forall|i: int| 0 <= i < d.len() implies (#[trigger] index_of(keys, path_key(d[i].path)))
        is Some by {
        assert(data_paths(d)[i] == d[i].path);
        lemma_plan_keys_cover(data_paths(d), i);
        lemma_index_of_contains(keys, path_key(d[i].path));
    }
    lemma_placed_len(d, keys);
}

proof fn lemma_placed_len(d: Seq<ErrorArmView>, keys: Seq<Seq<char>>)
    requires
        forall|i: int| 0 <= i < d.len() ==> (#[trigger] index_of(keys, path_key(d[i].path))) is Some,
    ensures
        error_planned(d, keys).len() == d.len(),
    decreases d.len(),
{
    if d.len() > 0 {
        assert forall|i: int| 0 <= i < d.drop_last().len() implies (#[trigger] index_of(
            keys,
            path_key(d.drop_last()[i].path),
        )) is Some by {
            assert(d.drop_last()[i] == d[i]);
        }
        lemma_placed_len(d.drop_last(), keys);
        assert(index_of(keys, path_key(d[d.len() - 1].path)) is Some);
    }
}

/// Law (declaration and match agree): when a `throws` declaration and a
/// `match_error` name the same set of error types, each error type gets the
/// same `Unt` position at both: the position its `into_unt` builds and the
/// position its arm's pattern matches.
pub proof fn law_throws_and_match_agree(
    m: Map<Seq<char>, Seq<PathView>>,
    declared: Seq<PathView>,
    d: Seq<ErrorArmView>,
)
    requires
        well_formed_paths(resolve_all(m, declared)),
        well_formed_paths(data_paths(d)),
        no_ambiguity(resolve_all(m, declared)),
        no_ambiguity(data_paths(d)),
        same_error_set(resolve_all(m, declared), data_paths(d)),
    ensures
        plan_keys(resolve_all(m, declared)) == plan_keys(data_paths(d)),
        forall|i: int|
            0 <= i < d.len() ==> #[trigger] index_of(
                plan_keys(resolve_all(m, declared)),
                path_key(d[i].path),
            ) == index_of(plan_keys(data_paths(d)), path_key(d[i].path)),
{
    law_plan_depends_only_on_error_set(resolve_all(m, declared), data_paths(d));
}

/// Law: a united error names the same error types where it is declared and
/// where it is matched: its arm expands to one arm per member, in member
/// order, with the paths that resolution gives, when no member is named by
/// an arm of its own.
pub proof fn law_united_expands_alike(
    m: Map<Seq<char>, Seq<PathView>>,
    p: PathView,
    all: Seq<ArmPat>,
    i: nat,
)
    requires
        united_lookup(m, p) is Some,
        forall|k: int|
            0 <= k < united_lookup(m, p)->0.len() ==> !is_explicit(
                all,
                path_key(#[trigger] united_lookup(m, p)->0[k]),
            ),
    ensures
        data_paths(expand_members(united_lookup(m, p)->0, all, i)) == resolve_one(m, p),
{
    let ms = united_lookup(m, p)->0;
    lemma_members_alike(ms, all, i);
}

proof fn lemma_members_alike(ms: Seq<PathView>, all: Seq<ArmPat>, i: nat)
    requires
        forall|k: int| 0 <= k < ms.len() ==> !is_explicit(all, path_key(#[trigger] ms[k])),
    ensures
        data_paths(expand_members(ms, all, i)) == ms,
    decreases ms.len(),
{
    if ms.len() > 0 {
        let ms1 = ms.drop_last();
        assert forall|k: int| 0 <= k < ms1.len() implies !is_explicit(all, path_key(#[trigger] ms1[k])) by {
            assert(ms1[k] == ms[k]);
        }
        lemma_members_alike(ms1, all, i);
        let x = ms.last();
        assert(!is_explicit(all, path_key(ms[ms.len() - 1])));
        let d1 = expand_members(ms1, all, i);
        let d = d1.push(ErrorArmView { path: x, arm: i, text: crate::path::path_text(x) });
        assert(expand_members(ms, all, i) == d);
        assert(data_paths(d) =~= data_paths(d1).push(x));
        assert(ms =~= ms1.push(x));
    } else {
        assert(data_paths(Seq::empty()) =~= ms);
    }
}

/// The error types that arm `j` of `all` expands to.
pub open spec fn arm_paths(m: Map<Seq<char>, Seq<PathView>>, all: Seq<ArmPat>, j: int) -> Seq<PathView> {
    match expand_one(m, all, j as nat, all[j]) {
        Ok(d) => data_paths(d),
        Err(_) => Seq::empty(),
    }
}

proof fn lemma_member_paths(ms: Seq<PathView>, a: Seq<ArmPat>, b: Seq<ArmPat>, i1: nat, i2: nat)
    requires
        forall|k: Seq<char>| #[trigger] is_explicit(a, k) == is_explicit(b, k),
    ensures
        data_paths(expand_members(ms, a, i1)) == data_paths(expand_members(ms, b, i2)),
    decreases ms.len(),
{
    if ms.len() > 0 {
        lemma_member_paths(ms.drop_last(), a, b, i1, i2);
        let x = ms.last();
        assert(is_explicit(a, path_key(x)) == is_explicit(b, path_key(x)));
        let da = expand_members(ms.drop_last(), a, i1);
        let db = expand_members(ms.drop_last(), b, i2);
        if !is_explicit(a, path_key(x)) {
            assert(data_paths(da.push(ErrorArmView { path: x, arm: i1, text: crate::path::path_text(x) }))
                =~= data_paths(da).push(x));
            assert(data_paths(db.push(ErrorArmView { path: x, arm: i2, text: crate::path::path_text(x) }))
                =~= data_paths(db).push(x));
        }
    }
}

/// The same arm expands to the same error types wherever it stands, among
/// arms that name the same error types explicitly.
proof fn lemma_arm_paths_same(
    m: Map<Seq<char>, Seq<PathView>>,
    a: Seq<ArmPat>,
    b: Seq<ArmPat>,
    j1: int,
    j2: int,
)
    requires
        0 <= j1 < a.len(),
        0 <= j2 < b.len(),
        a[j1] == b[j2],
        forall|k: Seq<char>| #[trigger] is_explicit(a, k) == is_explicit(b, k),
    ensures
        expand_one(m, a, j1 as nat, a[j1]) is Ok == expand_one(m, b, j2 as nat, b[j2]) is Ok,
        arm_paths(m, a, j1) == arm_paths(m, b, j2),
{
    let pat = a[j1];
    if classify_spec(pat) == ArmType::ErrorArm && extract_spec(pat) is Some {
        let q = extract_spec(pat)->0;
        match crate::registry::united_lookup(m, q) {
            Some(ms) => {
                lemma_member_paths(ms, a, b, j1 as nat, j2 as nat);
            },
            None => {
                assert(data_paths(seq![ErrorArmView { path: q, arm: j1 as nat, text: crate::match_arms::strip_spec(pat).text@ }])
                    =~= seq![q]);
                assert(data_paths(seq![ErrorArmView { path: q, arm: j2 as nat, text: crate::match_arms::strip_spec(pat).text@ }])
                    =~= seq![q]);
            },
        }
    } else {
        assert(data_paths(Seq::<ErrorArmView>::empty()) =~= Seq::<PathView>::empty());
    }
}

/// A successful expansion holds exactly the error types of its arms.
proof fn lemma_expansion_paths(m: Map<Seq<char>, Seq<PathView>>, all: Seq<ArmPat>, n: nat)
    requires
        n <= all.len(),
        expand_arms(m, all, n) is Ok,
    ensures
        forall|j: int| 0 <= j < n ==> #[trigger] expand_one(m, all, j as nat, all[j]) is Ok,
        forall|x: PathView|
            data_paths(expand_arms(m, all, n)->Ok_0).contains(x) <==> exists|j: int|
                0 <= j < n && #[trigger] arm_paths(m, all, j).contains(x),
    decreases n,
{
    if n > 0 {
        let n1 = (n - 1) as nat;
        assert(expand_arms(m, all, n1) is Ok);
        lemma_expansion_paths(m, all, n1);
        let d0 = expand_arms(m, all, n1)->Ok_0;
        let d2 = expand_one(m, all, n1, all[n1 as int])->Ok_0;
        let d = expand_arms(m, all, n)->Ok_0;
        assert(d == d0 + d2);
        assert(data_paths(d) =~= data_paths(d0) + data_paths(d2));
        assert(arm_paths(m, all, n1 as int) == data_paths(d2));
        assert forall|x: PathView| data_paths(d).contains(x) <==> exists|j: int|
            0 <= j < n && #[trigger] arm_paths(m, all, j).contains(x) by {
            if data_paths(d).contains(x) {
                let k = choose|k: int| 0 <= k < data_paths(d).len() && data_paths(d)[k] == x;
                if k < data_paths(d0).len() {
                    assert(data_paths(d0)[k] == x);
                    assert(data_paths(d0).contains(x));
                } else {
                    assert(data_paths(d2)[k - data_paths(d0).len()] == x);
                    assert(arm_paths(m, all, n1 as int).contains(x));
                }
            }
            if exists|j: int| 0 <= j < n && #[trigger] arm_paths(m, all, j).contains(x) {
                let j = choose|j: int| 0 <= j < n && #[trigger] arm_paths(m, all, j).contains(x);
                if j < n1 {
                    assert(data_paths(d0).contains(x));
                    let k = choose|k: int| 0 <= k < data_paths(d0).len() && data_paths(d0)[k] == x;
                    assert(data_paths(d)[k] == x);
                } else {
                    let k = choose|k: int| 0 <= k < data_paths(d2).len() && data_paths(d2)[k] == x;
                    assert(data_paths(d)[data_paths(d0).len() + k] == x);
                }
            }
        }
    }
}

/// Law (the order of the arms does not matter): two `match_error` inputs
/// with the same arms in another order, each expanding without error and
/// without ambiguity, give every error type the same `Unt` position, so
/// each error arm gets the same pattern in both; only the order in which
/// the arms are emitted follows the input.
pub proof fn law_arm_order_keeps_positions(
    m: Map<Seq<char>, Seq<PathView>>,
    a: Seq<ArmPat>,
    b: Seq<ArmPat>,
)
    requires
        forall|i: int|
            #![trigger a[i]]
            0 <= i < a.len() ==> exists|j: int| #![trigger b[j]] 0 <= j < b.len() && b[j] == a[i],
        forall|j: int|
            #![trigger b[j]]
            0 <= j < b.len() ==> exists|i: int| #![trigger a[i]] 0 <= i < a.len() && a[i] == b[j],
        expand_arms(m, a, a.len() as nat) is Ok,
        expand_arms(m, b, b.len() as nat) is Ok,
        well_formed_paths(data_paths(expand_arms(m, a, a.len() as nat)->Ok_0)),
        well_formed_paths(data_paths(expand_arms(m, b, b.len() as nat)->Ok_0)),
        no_ambiguity(data_paths(expand_arms(m, a, a.len() as nat)->Ok_0)),
        no_ambiguity(data_paths(expand_arms(m, b, b.len() as nat)->Ok_0)),
    ensures
        plan_keys(data_paths(expand_arms(m, a, a.len() as nat)->Ok_0)) == plan_keys(
            data_paths(expand_arms(m, b, b.len() as nat)->Ok_0),
        ),
{
    let pa = data_paths(expand_arms(m, a, a.len() as nat)->Ok_0);
    let pb = data_paths(expand_arms(m, b, b.len() as nat)->Ok_0);
    assert forall|k: Seq<char>| #[trigger] is_explicit(a, k) == is_explicit(b, k) by {
        if is_explicit(a, k) {
            let i = choose|i: int|
                #![trigger a[i]]
                0 <= i < a.len() && classify_spec(a[i]) == ArmType::ErrorArm && (extract_spec(
                    a[i],
                ) matches Some(q) && path_key(q) == k);
            let j = choose|j: int| 0 <= j < b.len() && #[trigger] b[j] == a[i];
            assert(b[j] == a[i]);
        }
        if is_explicit(b, k) {
            let j = choose|j: int|
                #![trigger b[j]]
                0 <= j < b.len() && classify_spec(b[j]) == ArmType::ErrorArm && (extract_spec(
                    b[j],
                ) matches Some(q) && path_key(q) == k);
            let i = choose|i: int| 0 <= i < a.len() && #[trigger] a[i] == b[j];
            assert(a[i] == b[j]);
        }
    }
    lemma_expansion_paths(m, a, a.len() as nat);
    lemma_expansion_paths(m, b, b.len() as nat);
    assert forall|x: PathView| pa.contains(x) implies pb.contains(x) by {
        {
            let i = choose|i: int| 0 <= i < a.len() && #[trigger] arm_paths(m, a, i).contains(x);
            let j = choose|j: int| 0 <= j < b.len() && #[trigger] b[j] == a[i];
            lemma_arm_paths_same(m, a, b, i, j);
            assert(arm_paths(m, b, j).contains(x));
        }
    }
    assert forall|x: PathView| pb.contains(x) implies pa.contains(x) by {
        {
            let j = choose|j: int| 0 <= j < b.len() && #[trigger] arm_paths(m, b, j).contains(x);
            let i = choose|i: int| 0 <= i < a.len() && #[trigger] a[i] == b[j];
            lemma_arm_paths_same(m, a, b, i, j);
            assert(arm_paths(m, a, i).contains(x));
        }
    }
    assert(same_error_set(pa, pb)) by {
        assert forall|i: int| 0 <= i < pa.len() implies #[trigger] ident_lists(pb).contains(idents(pa[i])) by {
            assert(pa.contains(pa[i]));
            let j = choose|j: int| 0 <= j < pb.len() && pb[j] == pa[i];
            assert(ident_lists(pb)[j] == idents(pa[i]));
        }
        assert forall|j: int| 0 <= j < pb.len() implies #[trigger] ident_lists(pa).contains(idents(pb[j])) by {
            assert(pb.contains(pb[j]));
            let i = choose|i: int| 0 <= i < pa.len() && pa[i] == pb[j];
            assert(ident_lists(pa)[i] == idents(pb[j]));
        }
    }
    law_plan_depends_only_on_error_set(pa, pb);
}

} // verus!
