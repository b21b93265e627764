//! Laws of the blind order: the sort is a stable permutation into order,
//! deduplication keeps one path per name, and the resulting order depends on
//! the set of error types alone, so every site that names the same set
//! agrees on the position of each type.

use vstd::prelude::*;
use crate::text::{PathOrder, join_with};
use crate::path::{PathView, idents, path_key};
use crate::sort::{
    path_order, blind_order, insert_sorted, blind_sort, no_ambiguity, strip_all, strip_colon,
    dedup_keys, seen_key, lemma_blind_order_equal, lemma_blind_order_flip,
    lemma_blind_order_trans, lemma_dedup_keeps_names,
};

verus! {

broadcast use vstd::seq_lib::group_to_multiset_ensures;

/// No element follows a later one in the blind order.
pub open spec fn sorted_blind(t: Seq<PathView>) -> bool {
    forall|i: int, j: int|
        0 <= i < j < t.len() ==> #[trigger] path_order(t[i], t[j]) != Some(PathOrder::Greater)
}

/// Every element strictly precedes every later one.
pub open spec fn strictly_ascending(u: Seq<Seq<Seq<char>>>) -> bool {
    forall|i: int, j: int|
        0 <= i < j < u.len() ==> #[trigger] blind_order(u[i], u[j]) == Some(PathOrder::Less)
}

/// The identifier lists of a sequence of paths.
pub open spec fn ident_lists(t: Seq<PathView>) -> Seq<Seq<Seq<char>>> {
    t.map_values(|p: PathView| idents(p))
}

/// A well-formed identifier: not empty and free of `:`, as every identifier
/// that `syn` parses is.
pub open spec fn well_formed_ident(s: Seq<char>) -> bool {
    s.len() > 0 && !s.contains(':')
}

/// Every identifier of the path is well formed.
pub open spec fn well_formed_path(p: PathView) -> bool {
    forall|k: int| 0 <= k < p.segments.len() ==> well_formed_ident(#[trigger] p.segments[k].ident)
}

/// Every path is well formed.
pub open spec fn well_formed_paths(s: Seq<PathView>) -> bool {
    forall|i: int| 0 <= i < s.len() ==> well_formed_path(#[trigger] s[i])
}

/// `s` and `t` name the same set of identifier lists.
pub open spec fn same_error_set(s: Seq<PathView>, t: Seq<PathView>) -> bool {
    &&& forall|i: int| 0 <= i < s.len() ==> #[trigger] ident_lists(t).contains(idents(s[i]))
    &&& forall|j: int| 0 <= j < t.len() ==> #[trigger] ident_lists(s).contains(idents(t[j]))
}

/// The order of the distinct error types of `s`, as declaration and match
/// sites compute it: strip, sort, deduplicate.
pub open spec fn blind_plan(s: Seq<PathView>) -> Seq<PathView> {
    dedup_keys(blind_sort(strip_all(s)))
}

/// Weak order is transitive.
proof fn lemma_le_trans(a: PathView, b: PathView, c: PathView)
    requires
        path_order(a, b) == Some(PathOrder::Less) || path_order(a, b) == Some(PathOrder::Equal),
        path_order(b, c) == Some(PathOrder::Less) || path_order(b, c) == Some(PathOrder::Equal),
    ensures
        path_order(a, c) == Some(PathOrder::Less) || path_order(a, c) == Some(PathOrder::Equal),
{
    lemma_blind_order_equal(idents(a), idents(b));
    lemma_blind_order_equal(idents(b), idents(c));
    if path_order(a, b) == Some(PathOrder::Less) && path_order(b, c) == Some(PathOrder::Less) {
        lemma_blind_order_trans(idents(a), idents(b), idents(c));
    }
}

/// Inserting into a sorted sequence keeps it sorted and adds exactly `x`.
proof fn lemma_insert_sorted(t: Seq<PathView>, x: PathView)
    requires
        sorted_blind(t),
        no_ambiguity(t.push(x)),
    ensures
        sorted_blind(insert_sorted(t, x)),
        insert_sorted(t, x).to_multiset() =~= t.to_multiset().insert(x),
    decreases t.len(),
{
    let tx = t.push(x);
    if t.len() == 0 {
        assert(insert_sorted(t, x) =~= seq![x]);
        assert(seq![x] =~= Seq::<PathView>::empty().push(x));
    } else if path_order(t.last(), x) == Some(PathOrder::Greater) {
        let t1 = t.drop_last();
        assert(t1.push(x) =~= tx.remove(t.len() - 1));
        assert forall|i: int, j: int|
            0 <= i < t1.push(x).len() && 0 <= j < t1.push(x).len() implies (#[trigger] path_order(
            t1.push(x)[i],
            t1.push(x)[j],
        )) is Some by {
            let i2 = if i < t1.len() { i } else { t.len() as int };
            let j2 = if j < t1.len() { j } else { t.len() as int };
            assert(t1.push(x)[i] == tx[i2]);
            assert(t1.push(x)[j] == tx[j2]);
        }
        lemma_insert_sorted(t1, x);
        let r1 = insert_sorted(t1, x);
        let r = r1.push(t.last());
        assert forall|i: int, j: int| 0 <= i < j < r.len() implies #[trigger] path_order(
            r[i],
            r[j],
        ) != Some(PathOrder::Greater) by {
            if j < r1.len() {
            } else {
                assert(r1.to_multiset().count(r1[i]) > 0);
                assert(r1.contains(r1[i]));
                if r1[i] == x {
                    lemma_blind_order_flip(idents(t.last()), idents(x));
                } else {
                    assert(t1.to_multiset().count(r1[i]) > 0);
                    assert(t1.contains(r1[i]));
                    let k = choose|k: int| 0 <= k < t1.len() && t1[k] == r1[i];
                    assert(path_order(t[k], t[t.len() - 1]) != Some(PathOrder::Greater));
                }
            }
        }
        assert(t =~= t1.push(t.last()));
    } else {
        let r = t.push(x);
        assert forall|i: int, j: int| 0 <= i < j < r.len() implies #[trigger] path_order(
            r[i],
            r[j],
        ) != Some(PathOrder::Greater) by {
            if j == t.len() {
                let l = t.len() - 1;
                assert(tx[l] == t[l]);
                assert(tx[l + 1] == x);
                assert(tx[i] == t[i]);
                assert(path_order(tx[l], tx[l + 1]) is Some);
                assert(path_order(tx[i], tx[l]) is Some);
                if i < l {
                    assert(path_order(t[i], t[l]) != Some(PathOrder::Greater));
                    assert(path_order(t[i], t[l]) is Some);
                    assert(path_order(t[l], x) is Some);
                    assert(path_order(t[l], x) != Some(PathOrder::Greater));
                    let o1 = path_order(t[i], t[l]).unwrap();
                    let o2 = path_order(t[l], x).unwrap();
                    assert(o1 == PathOrder::Less || o1 == PathOrder::Equal);
                    assert(o2 == PathOrder::Less || o2 == PathOrder::Equal);
                    lemma_le_trans(t[i], t[l], x);
                }
            }
        }
    }
}

/// Whatever is in the sorted sequence comes from the input.
proof fn lemma_blind_sort_props(s: Seq<PathView>)
    requires
        no_ambiguity(s),
    ensures
        sorted_blind(blind_sort(s)),
        blind_sort(s).to_multiset() =~= s.to_multiset(),
    decreases s.len(),
{
    if s.len() > 0 {
        let s1 = s.drop_last();
        assert forall|i: int, j: int| 0 <= i < s1.len() && 0 <= j < s1.len() implies (
        #[trigger] path_order(s1[i], s1[j])) is Some by {
            assert(path_order(s[i], s[j]) is Some);
        }
        lemma_blind_sort_props(s1);
        let t = blind_sort(s1);
        let tx = t.push(s.last());
        assert forall|i: int, j: int| 0 <= i < tx.len() && 0 <= j < tx.len() implies (
        #[trigger] path_order(tx[i], tx[j])) is Some by {
            let i2 = if i < t.len() {
                assert(t.to_multiset().count(t[i]) > 0);
                assert(s1.contains(t[i]));
                choose|k: int| 0 <= k < s1.len() && s1[k] == t[i]
            } else {
                s.len() - 1
            };
            let j2 = if j < t.len() {
                assert(t.to_multiset().count(t[j]) > 0);
                assert(s1.contains(t[j]));
                choose|k: int| 0 <= k < s1.len() && s1[k] == t[j]
            } else {
                s.len() - 1
            };
            assert(tx[i] == s[i2]);
            assert(tx[j] == s[j2]);
        }
        lemma_insert_sorted(t, s.last());
        assert(s =~= s1.push(s.last()));
    }
}

/// Stripping the leading `::` keeps the identifiers.
proof fn lemma_strip_all(s: Seq<PathView>)
    ensures
        strip_all(s).len() == s.len(),
        forall|i: int| 0 <= i < s.len() ==> idents(#[trigger] strip_all(s)[i]) == idents(s[i]),
        no_ambiguity(s) ==> no_ambiguity(strip_all(s)),
{
    if no_ambiguity(s) {
        assert forall|i: int, j: int|
            0 <= i < strip_all(s).len() && 0 <= j < strip_all(s).len() implies (
        #[trigger] path_order(strip_all(s)[i], strip_all(s)[j])) is Some by {
            assert(path_order(s[i], s[j]) is Some);
        }
    }
}

/// Law: the blind sort puts the paths in order and is a permutation of its
/// input with every leading `::` removed.
pub proof fn law_sort_is_ordered_permutation(s: Seq<PathView>)
    requires
        no_ambiguity(s),
    ensures
        sorted_blind(blind_sort(strip_all(s))),
        blind_sort(strip_all(s)).to_multiset() =~= strip_all(s).to_multiset(),
{
    lemma_strip_all(s);
    lemma_blind_sort_props(strip_all(s));
}

/// The paths of `s` whose identifiers are `k`, in order.
pub open spec fn with_idents(s: Seq<PathView>, k: Seq<Seq<char>>) -> Seq<PathView>
    decreases s.len(),
{
    if s.len() == 0 {
        s
    } else if idents(s.last()) == k {
        with_idents(s.drop_last(), k).push(s.last())
    } else {
        with_idents(s.drop_last(), k)
    }
}

/// Inserting `x` appends it to the paths that share its identifiers.
proof fn lemma_insert_stable(t: Seq<PathView>, x: PathView, k: Seq<Seq<char>>)
    ensures
        with_idents(insert_sorted(t, x), k) == (if idents(x) == k {
            with_idents(t, k).push(x)
        } else {
            with_idents(t, k)
        }),
    decreases t.len(),
{
    if t.len() == 0 {
        assert(seq![x].drop_last() =~= t);
    } else if path_order(t.last(), x) == Some(PathOrder::Greater) {
        let t1 = t.drop_last();
        lemma_insert_stable(t1, x, k);
        lemma_blind_order_equal(idents(t.last()), idents(x));
        let r1 = insert_sorted(t1, x);
        assert(r1.push(t.last()).drop_last() =~= r1);
    } else {
        assert(t.push(x).drop_last() =~= t);
    }
}

/// Law: the blind sort is stable: the paths that share identifiers keep
/// their relative order.
pub proof fn law_sort_is_stable(s: Seq<PathView>, k: Seq<Seq<char>>)
    ensures
        with_idents(blind_sort(s), k) == with_idents(s, k),
    decreases s.len(),
{
    if s.len() > 0 {
        law_sort_is_stable(s.drop_last(), k);
        lemma_insert_stable(blind_sort(s.drop_last()), s.last(), k);
    }
}

/// Every kept path is a path of the input, in the same relative order.
proof fn lemma_dedup_subseq(s: Seq<PathView>)
    ensures
        forall|m: int| 0 <= m < dedup_keys(s).len() ==> s.contains(#[trigger] dedup_keys(s)[m]),
        sorted_blind(s) && no_ambiguity(s) ==> sorted_blind(dedup_keys(s)),
        forall|m1: int, m2: int|
            0 <= m1 < m2 < dedup_keys(s).len() ==> path_key(#[trigger] dedup_keys(s)[m1])
                != path_key(#[trigger] dedup_keys(s)[m2]),
    decreases s.len(),
{
    if s.len() > 0 {
        let s1 = s.drop_last();
        lemma_dedup_subseq(s1);
        lemma_dedup_keeps_names(s1);
        let d1 = dedup_keys(s1);
        let d = dedup_keys(s);
        assert forall|m: int| 0 <= m < d.len() implies s.contains(#[trigger] d[m]) by {
            if m < d1.len() {
                assert(d[m] == d1[m]);
                assert(s1.contains(d1[m]));
                let k = choose|k: int| 0 <= k < s1.len() && s1[k] == d1[m];
                assert(s[k] == d1[m]);
            } else {
                assert(d[m] == s[s.len() - 1]);
            }
        }
        if sorted_blind(s) && no_ambiguity(s) {
            assert(sorted_blind(s1)) by {
                assert forall|i: int, j: int| 0 <= i < j < s1.len() implies #[trigger] path_order(
                    s1[i],
                    s1[j],
                ) != Some(PathOrder::Greater) by {
                    assert(path_order(s[i], s[j]) != Some(PathOrder::Greater));
                }
            }
            assert(no_ambiguity(s1)) by {
                assert forall|i: int, j: int| 0 <= i < s1.len() && 0 <= j < s1.len() implies (
                #[trigger] path_order(s1[i], s1[j])) is Some by {
                    assert(path_order(s[i], s[j]) is Some);
                }
            }
            assert forall|i: int, j: int| 0 <= i < j < d.len() implies #[trigger] path_order(
                d[i],
                d[j],
            ) != Some(PathOrder::Greater) by {
                if j >= d1.len() {
                    assert(d[i] == d1[i]);
                    assert(s1.contains(d1[i]));
                    let k = choose|k: int| 0 <= k < s1.len() && s1[k] == d1[i];
                    assert(path_order(s[k], s[s.len() - 1]) != Some(PathOrder::Greater));
                } else {
                    assert(d[i] == d1[i]);
                    assert(d[j] == d1[j]);
                }
            }
        }
        assert forall|m1: int, m2: int| 0 <= m1 < m2 < d.len() implies path_key(#[trigger] d[m1])
            != path_key(#[trigger] d[m2]) by {
            if m2 >= d1.len() {
                assert(!seen_key(s1, s.last()));
                assert(!seen_key(d1, s.last()));
                assert(d[m1] == d1[m1]);
            } else {
                assert(d[m1] == d1[m1]);
                assert(d[m2] == d1[m2]);
            }
        }
    }
}

/// Law: deduplication keeps exactly one path per normalised name: every
/// name that occurs is kept, and no two kept paths share a name.
pub proof fn law_dedup_one_per_name(s: Seq<PathView>)
    ensures
        forall|x: PathView| seen_key(s, x) <==> #[trigger] seen_key(dedup_keys(s), x),
        forall|m1: int, m2: int|
            0 <= m1 < m2 < dedup_keys(s).len() ==> path_key(#[trigger] dedup_keys(s)[m1])
                != path_key(#[trigger] dedup_keys(s)[m2]),
{
    lemma_dedup_keeps_names(s);
    lemma_dedup_subseq(s);
}

/// The last part of a join, when there are at least two parts.
proof fn lemma_join_split(parts: Seq<Seq<char>>, sep: Seq<char>)
    requires
        parts.len() >= 2,
    ensures
        join_with(parts, sep) == join_with(parts.drop_last(), sep) + sep + parts.last(),
{
}

/// A join of well-formed identifiers holds a `:` exactly when it has two or more parts.
proof fn lemma_join_colon(parts: Seq<Seq<char>>)
    requires
        forall|k: int| 0 <= k < parts.len() ==> well_formed_ident(#[trigger] parts[k]),
    ensures
        parts.len() == 0 ==> join_with(parts, "::"@).len() == 0,
        parts.len() >= 1 ==> join_with(parts, "::"@).len() > 0,
        parts.len() == 1 ==> !join_with(parts, "::"@).contains(':'),
        parts.len() >= 2 ==> join_with(parts, "::"@).contains(':'),
    decreases parts.len(),
{
    reveal_strlit("::");
    if parts.len() >= 2 {
        let j = join_with(parts.drop_last(), "::"@);
        let full = j + "::"@ + parts.last();
        assert(full[j.len() as int] == ':');
    } else if parts.len() == 1 {
        assert(well_formed_ident(parts[0]));
    }
}

/// Joining well-formed identifiers with `::` loses nothing.
pub proof fn lemma_join_injective(a: Seq<Seq<char>>, b: Seq<Seq<char>>)
    requires
        forall|k: int| 0 <= k < a.len() ==> well_formed_ident(#[trigger] a[k]),
        forall|k: int| 0 <= k < b.len() ==> well_formed_ident(#[trigger] b[k]),
        join_with(a, "::"@) == join_with(b, "::"@),
    ensures
        a == b,
    decreases a.len() + b.len(),
{
    reveal_strlit("::");
    lemma_join_colon(a);
    lemma_join_colon(b);
    if a.len() == 0 || b.len() == 0 {
        assert(a =~= b);
    } else if a.len() == 1 && b.len() == 1 {
        assert(a =~= b);
    } else if a.len() >= 2 && b.len() >= 2 {
        let ja = join_with(a.drop_last(), "::"@);
        let jb = join_with(b.drop_last(), "::"@);
        let la = a.last();
        let lb = b.last();
        let full = ja + "::"@ + la;
        assert(full == jb + "::"@ + lb);
        assert(well_formed_ident(la));
        assert(well_formed_ident(lb));
        let n = full.len();
        if la.len() < lb.len() {
            let p = n - la.len() - 1;
            assert(full[p] == ':');
            assert((jb + "::"@ + lb)[p] == lb[p - (n - lb.len())]);
            assert(lb.contains(':'));
        } else if lb.len() < la.len() {
            let p = n - lb.len() - 1;
            assert((jb + "::"@ + lb)[p] == ':');
            assert(full[p] == la[p - (n - la.len())]);
            assert(la.contains(':'));
        } else {
            assert(la =~= full.subrange(n - la.len(), n as int));
            assert(lb =~= (jb + "::"@ + lb).subrange(n - lb.len(), n as int));
            assert(ja =~= full.subrange(0, ja.len() as int));
            assert(jb =~= (jb + "::"@ + lb).subrange(0, jb.len() as int));
            lemma_join_injective(a.drop_last(), b.drop_last());
            assert(a =~= a.drop_last().push(la));
            assert(b =~= b.drop_last().push(lb));
        }
    } else if a.len() == 1 {
        assert(!join_with(a, "::"@).contains(':'));
    } else {
        assert(!join_with(b, "::"@).contains(':'));
    }
}

/// Two strictly ascending sequences with the same elements are equal.
proof fn lemma_ascending_unique(u: Seq<Seq<Seq<char>>>, v: Seq<Seq<Seq<char>>>)
    requires
        strictly_ascending(u),
        strictly_ascending(v),
        forall|x: Seq<Seq<char>>| u.contains(x) <==> v.contains(x),
    ensures
        u == v,
    decreases u.len(),
{
    if u.len() == 0 {
        if v.len() > 0 {
            assert(v.contains(v[0]));
        }
        assert(u =~= v);
    } else {
        assert(u.contains(u[0]));
        let j = choose|j: int| 0 <= j < v.len() && v[j] == u[0];
        assert(v.contains(v[0]));
        let i = choose|i: int| 0 <= i < u.len() && u[i] == v[0];
        lemma_blind_order_equal(v[0], v[0]);
        if j > 0 {
            assert(blind_order(v[0], v[j]) == Some(PathOrder::Less));
            if i > 0 {
                assert(blind_order(u[0], u[i]) == Some(PathOrder::Less));
                lemma_blind_order_trans(v[0], u[0], v[0]);
            }
        }
        let u1 = u.drop_first();
        let v1 = v.drop_first();
        assert forall|x: Seq<Seq<char>>| u1.contains(x) <==> v1.contains(x) by {
            if u1.contains(x) {
                let k = choose|k: int| 0 <= k < u1.len() && u1[k] == x;
                assert(u[k + 1] == x);
                assert(blind_order(u[0], u[k + 1]) == Some(PathOrder::Less));
                lemma_blind_order_equal(u[0], x);
                assert(v.contains(x));
                let q = choose|q: int| 0 <= q < v.len() && v[q] == x;
                assert(q != 0);
                assert(v1[q - 1] == x);
            }
            if v1.contains(x) {
                let k = choose|k: int| 0 <= k < v1.len() && v1[k] == x;
                assert(v[k + 1] == x);
                assert(blind_order(v[0], v[k + 1]) == Some(PathOrder::Less));
                lemma_blind_order_equal(v[0], x);
                assert(u.contains(x));
                let q = choose|q: int| 0 <= q < u.len() && u[q] == x;
                assert(q != 0);
                assert(u1[q - 1] == x);
            }
        }
        assert(strictly_ascending(u1)) by {
            assert forall|a: int, b: int| 0 <= a < b < u1.len() implies #[trigger] blind_order(
                u1[a],
                u1[b],
            ) == Some(PathOrder::Less) by {
                assert(blind_order(u[a + 1], u[b + 1]) == Some(PathOrder::Less));
            }
        }
        assert(strictly_ascending(v1)) by {
            assert forall|a: int, b: int| 0 <= a < b < v1.len() implies #[trigger] blind_order(
                v1[a],
                v1[b],
            ) == Some(PathOrder::Less) by {
                assert(blind_order(v[a + 1], v[b + 1]) == Some(PathOrder::Less));
            }
        }
        lemma_ascending_unique(u1, v1);
        assert(u =~= seq![u[0]] + u1);
        assert(v =~= seq![v[0]] + v1);
    }
}

/// The names of the kept paths, in order.
pub open spec fn plan_keys(s: Seq<PathView>) -> Seq<Seq<char>> {
    blind_plan(s).map_values(|p: PathView| path_key(p))
}

/// The planned order is strictly ascending and names exactly the
/// identifier lists of the input.
proof fn lemma_plan_props(s: Seq<PathView>)
    requires
        well_formed_paths(s),
        no_ambiguity(s),
    ensures
        strictly_ascending(ident_lists(blind_plan(s))),
        forall|x: Seq<Seq<char>>|
            ident_lists(blind_plan(s)).contains(x) <==> ident_lists(s).contains(x),
        forall|m: int|
            0 <= m < blind_plan(s).len() ==> exists|k: int|
                0 <= k < s.len() && #[trigger] blind_plan(s)[m] == strip_colon(s[k]),
{
    let u = strip_all(s);
    let t = blind_sort(u);
    let d = dedup_keys(t);
    lemma_strip_all(s);
    law_sort_is_ordered_permutation(s);
    lemma_dedup_subseq(t);
    lemma_dedup_keeps_names(t);
    // each element of t is an element of u
    assert forall|j: int| 0 <= j < t.len() implies exists|k: int|
        0 <= k < u.len() && #[trigger] t[j] == u[k] by {
        assert(t.to_multiset().count(t[j]) > 0);
        assert(u.contains(t[j]));
    }
    assert forall|m: int| 0 <= m < d.len() implies exists|k: int|
        0 <= k < u.len() && #[trigger] d[m] == u[k] by {
        assert(t.contains(d[m]));
        let j = choose|j: int| 0 <= j < t.len() && t[j] == d[m];
        assert(t[j] == t[j]);
    }
    assert forall|m: int| 0 <= m < d.len() implies exists|k: int|
        0 <= k < s.len() && #[trigger] d[m] == strip_colon(s[k]) by {
        let k = choose|k: int| 0 <= k < u.len() && d[m] == u[k];
        assert(u[k] == strip_colon(s[k]));
    }
    assert(no_ambiguity(t)) by {
        assert forall|i: int, j: int| 0 <= i < t.len() && 0 <= j < t.len() implies (
        #[trigger] path_order(t[i], t[j])) is Some by {
            let a = choose|k: int| 0 <= k < u.len() && t[i] == u[k];
            let b = choose|k: int| 0 <= k < u.len() && t[j] == u[k];
            assert(path_order(u[a], u[b]) is Some);
        }
    }
    let id = ident_lists(d);
    assert forall|i: int, j: int| 0 <= i < j < id.len() implies #[trigger] blind_order(id[i], id[j])
        == Some(PathOrder::Less) by {
        let a = choose|k: int| 0 <= k < u.len() && d[i] == u[k];
        let b = choose|k: int| 0 <= k < u.len() && d[j] == u[k];
        assert(path_order(u[a], u[b]) is Some);
        assert(path_order(d[i], d[j]) != Some(PathOrder::Greater));
        assert(path_key(d[i]) != path_key(d[j]));
        lemma_blind_order_equal(idents(d[i]), idents(d[j]));
    }
    assert forall|x: Seq<Seq<char>>| id.contains(x) <==> ident_lists(s).contains(x) by {
        if id.contains(x) {
            let m = choose|m: int| 0 <= m < id.len() && id[m] == x;
            let k = choose|k: int| 0 <= k < u.len() && d[m] == u[k];
            assert(ident_lists(s)[k] == x);
        }
        if ident_lists(s).contains(x) {
            let k = choose|k: int| 0 <= k < s.len() && ident_lists(s)[k] == x;
            assert(u.to_multiset().count(u[k]) > 0);
            assert(t.contains(u[k]));
            let j = choose|j: int| 0 <= j < t.len() && t[j] == u[k];
            assert(path_key(t[j]) == path_key(t[j]));
            assert(seen_key(t, t[j]));
            assert(seen_key(d, t[j]));
            let m = choose|m: int| 0 <= m < d.len() && #[trigger] path_key(d[m]) == path_key(t[j]);
            let q = choose|q: int| 0 <= q < u.len() && d[m] == u[q];
            assert(well_formed_path(s[q]));
            assert(well_formed_path(s[k]));
            assert(idents(d[m]) == idents(s[q]));
            assert(idents(t[j]) == idents(s[k]));
            lemma_join_injective(idents(d[m]), idents(t[j]));
            assert(id[m] == x);
        }
    }
}

/// Law (declaration and match sites agree): the planned order of the
/// distinct error types depends only on the set of types named, not on the
/// order, the repetitions, the generic arguments or the leading `::` with
/// which they were written. So an error type sits at the same `Unt`
/// position wherever the same set is named.
pub proof fn law_plan_depends_only_on_error_set(s: Seq<PathView>, t: Seq<PathView>)
    requires
        well_formed_paths(s),
        well_formed_paths(t),
        no_ambiguity(s),
        no_ambiguity(t),
        same_error_set(s, t),
    ensures
        ident_lists(blind_plan(s)) == ident_lists(blind_plan(t)),
        plan_keys(s) == plan_keys(t),
{
    lemma_plan_props(s);
    lemma_plan_props(t);
    assert forall|x: Seq<Seq<char>>| ident_lists(s).contains(x) <==> ident_lists(t).contains(x) by {
        if ident_lists(s).contains(x) {
            let k = choose|k: int| 0 <= k < s.len() && ident_lists(s)[k] == x;
            assert(ident_lists(t).contains(idents(s[k])));
        }
        if ident_lists(t).contains(x) {
            let k = choose|k: int| 0 <= k < t.len() && ident_lists(t)[k] == x;
            assert(ident_lists(s).contains(idents(t[k])));
        }
    }
    assert forall|x: Seq<Seq<char>>|
        ident_lists(blind_plan(s)).contains(x) <==> ident_lists(blind_plan(t)).contains(x) by {
        assert(ident_lists(blind_plan(s)).contains(x) <==> ident_lists(s).contains(x));
        assert(ident_lists(blind_plan(t)).contains(x) <==> ident_lists(t).contains(x));
    }
    lemma_ascending_unique(ident_lists(blind_plan(s)), ident_lists(blind_plan(t)));
    let a = blind_plan(s);
    let b = blind_plan(t);
    assert(a.len() == ident_lists(a).len());
    assert forall|i: int| 0 <= i < a.len() implies #[trigger] plan_keys(s)[i] == plan_keys(t)[i] by {
        assert(ident_lists(a)[i] == ident_lists(b)[i]);
    }
    assert(plan_keys(s) =~= plan_keys(t));
}

/// Law (order and repetition do not matter): two lists that name the same
/// set of error types, each type written alike wherever both lists name it
/// (a leading `::` aside), have the same plan: the same paths, generic
/// arguments included, in the same order.
pub proof fn law_plan_ignores_order_and_repetition(s: Seq<PathView>, t: Seq<PathView>)
    requires
        well_formed_paths(s),
        well_formed_paths(t),
        no_ambiguity(s),
        no_ambiguity(t),
        same_error_set(s, t),
        forall|i: int, j: int|
            0 <= i < s.len() && 0 <= j < t.len() && idents(#[trigger] s[i]) == idents(#[trigger] t[j])
                ==> strip_colon(s[i]) == strip_colon(t[j]),
    ensures
        blind_plan(s) == blind_plan(t),
{
    law_plan_depends_only_on_error_set(s, t);
    lemma_plan_props(s);
    lemma_plan_props(t);
    let a = blind_plan(s);
    let b = blind_plan(t);
    assert(ident_lists(a).len() == ident_lists(b).len());
    assert forall|m: int| 0 <= m < a.len() implies #[trigger] a[m] == b[m] by {
        let k = choose|k: int| 0 <= k < s.len() && a[m] == strip_colon(s[k]);
        let q = choose|q: int| 0 <= q < t.len() && b[m] == strip_colon(t[q]);
        assert(ident_lists(a)[m] == ident_lists(b)[m]);
        assert(idents(a[m]) == idents(s[k]));
        assert(idents(b[m]) == idents(t[q]));
    }
    assert(a =~= b);
}

} // verus!
