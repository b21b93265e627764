//! Blind sorting of error type paths.
//!
//! Every site that names a set of error types (a `throws` declaration, a
//! `match_error` arm list) orders that set the same way: paths are compared
//! by their identifiers from the last segment backward, generic arguments
//! and a leading `::` ignored. Two paths of which one is a proper suffix of
//! the other (`Timeout` and `db::Timeout`) cannot be ordered safely and are
//! reported as ambiguous.

use vstd::prelude::*;
use crate::text::{
    PathOrder, lex_order, lemma_lex_order_equal, lemma_lex_order_flip, lemma_lex_order_trans,
    str_order, push_text, text_of,
};
use crate::path::{
    ErrorPath, PathView, idents, path_key, path_text, paths_view, extract_segments,
    path_to_string, render_path,
};

verus! {

/// Blind order of two identifier lists: last identifiers first, walking back
/// toward the root. `None` when one list runs out before the other while all
/// compared identifiers were equal: the two paths are ambiguous.
pub open spec fn blind_order(a: Seq<Seq<char>>, b: Seq<Seq<char>>) -> Option<PathOrder>
    decreases a.len(),
{
    if a.len() == 0 && b.len() == 0 {
        Some(PathOrder::Equal)
    } else if a.len() == 0 || b.len() == 0 {
        None
    } else {
        let c = lex_order(a.last(), b.last());
        if c != PathOrder::Equal {
            Some(c)
        } else {
            blind_order(a.drop_last(), b.drop_last())
        }
    }
}

/// Blind order of two paths.
pub open spec fn path_order(a: PathView, b: PathView) -> Option<PathOrder> {
    blind_order(idents(a), idents(b))
}

/// `a` is a suffix of `b`.
pub open spec fn is_suffix(a: Seq<Seq<char>>, b: Seq<Seq<char>>) -> bool {
    a.len() <= b.len() && b.subrange(b.len() - a.len(), b.len() as int) == a
}

/// Swapping the arguments flips the order (and keeps an ambiguity).
pub proof fn lemma_blind_order_flip(a: Seq<Seq<char>>, b: Seq<Seq<char>>)
    ensures
        blind_order(b, a) == (match blind_order(a, b) {
            Some(o) => Some(o.flip()),
            None => None,
        }),
    decreases a.len(),
{
    if a.len() > 0 && b.len() > 0 {
        lemma_lex_order_flip(a.last(), b.last());
        lemma_blind_order_flip(a.drop_last(), b.drop_last());
    }
}

/// The blind order says `Equal` exactly on equal identifier lists.
pub proof fn lemma_blind_order_equal(a: Seq<Seq<char>>, b: Seq<Seq<char>>)
    ensures
        (blind_order(a, b) == Some(PathOrder::Equal)) <==> (a == b),
    decreases a.len(),
{
    if a.len() > 0 && b.len() > 0 {
        lemma_lex_order_equal(a.last(), b.last());
        lemma_blind_order_equal(a.drop_last(), b.drop_last());
        if a.last() == b.last() && a.drop_last() == b.drop_last() {
            assert(a =~= a.drop_last().push(a.last()));
            assert(b =~= b.drop_last().push(b.last()));
        }
        if a == b {
            assert(a.drop_last() == b.drop_last());
        }
    } else if a.len() == 0 && b.len() == 0 {
        assert(a =~= b);
    }
}

/// The blind order is transitive on `Less`.
pub proof fn lemma_blind_order_trans(a: Seq<Seq<char>>, b: Seq<Seq<char>>, c: Seq<Seq<char>>)
    requires
        blind_order(a, b) == Some(PathOrder::Less),
        blind_order(b, c) == Some(PathOrder::Less),
    ensures
        blind_order(a, c) == Some(PathOrder::Less),
    decreases a.len(),
{
    let x = lex_order(a.last(), b.last());
    let y = lex_order(b.last(), c.last());
    lemma_lex_order_equal(a.last(), b.last());
    lemma_lex_order_equal(b.last(), c.last());
    if x == PathOrder::Less && y == PathOrder::Less {
        lemma_lex_order_trans(a.last(), b.last(), c.last());
    } else if x == PathOrder::Equal && y == PathOrder::Equal {
        lemma_blind_order_trans(a.drop_last(), b.drop_last(), c.drop_last());
    }
}

/// Two identifier lists are ambiguous exactly when they differ and one is a
/// suffix of the other.
pub proof fn lemma_ambiguous_iff_suffix(a: Seq<Seq<char>>, b: Seq<Seq<char>>)
    ensures
        blind_order(a, b) is None <==> (a != b && (is_suffix(a, b) || is_suffix(b, a))),
    decreases a.len(),
{
    lemma_blind_order_equal(a, b);
    if a.len() == 0 && b.len() == 0 {
        assert(a =~= b);
    } else if a.len() == 0 {
        assert(b.subrange(b.len() - a.len(), b.len() as int) =~= a);
    } else if b.len() == 0 {
        assert(a.subrange(a.len() - b.len(), a.len() as int) =~= b);
    } else {
        lemma_lex_order_equal(a.last(), b.last());
        lemma_ambiguous_iff_suffix(a.drop_last(), b.drop_last());
        let a1 = a.drop_last();
        let b1 = b.drop_last();
        if a.len() <= b.len() {
            let sa = b.subrange(b.len() - a.len(), b.len() as int);
            let sa1 = b1.subrange(b1.len() - a1.len(), b1.len() as int);
            assert(sa =~= sa1.push(b.last()));
            if sa == a {
                assert(sa.last() == a.last());
                assert(sa.drop_last() =~= sa1);
                assert(a.drop_last() == a1);
            }
            if sa1 == a1 && a.last() == b.last() {
                assert(a =~= a1.push(a.last()));
            }
        }
        if b.len() <= a.len() {
            let sb = a.subrange(a.len() - b.len(), a.len() as int);
            let sb1 = a1.subrange(a1.len() - b1.len(), a1.len() as int);
            assert(sb =~= sb1.push(a.last()));
            if sb == b {
                assert(sb.last() == b.last());
                assert(sb.drop_last() =~= sb1);
            }
            if sb1 == b1 && a.last() == b.last() {
                assert(b =~= b1.push(b.last()));
            }
        }
        if a1 == b1 && a.last() == b.last() {
            assert(a =~= a1.push(a.last()));
            assert(b =~= b1.push(b.last()));
        }
    }
}

/// Compares two paths in the blind order; `None` reports an ambiguity.
pub fn compare_paths_blind(a: &ErrorPath, b: &ErrorPath) -> (r: Option<PathOrder>)
    ensures
        r == path_order(a@, b@),
{
    let a_segments = extract_segments(a);
    let b_segments = extract_segments(b);
    let ghost ka = a_segments@.map_values(|s: String| s@);
    let ghost kb = b_segments@.map_values(|s: String| s@);
    let la = a_segments.len();
    let lb = b_segments.len();
    let max_len = if la > lb {
        la
    } else {
        lb
    };
    assert(ka.take(la as int) =~= ka);
    assert(kb.take(lb as int) =~= kb);
    for i in 0..max_len
        invariant
            la == a_segments@.len(),
            lb == b_segments@.len(),
            max_len == (if la > lb { la } else { lb }),
            ka == a_segments@.map_values(|s: String| s@),
            kb == b_segments@.map_values(|s: String| s@),
            ka == idents(a@),
            kb == idents(b@),
            i <= la,
            i <= lb,
            blind_order(ka, kb) == blind_order(
                ka.take(la - i),
                kb.take(lb - i),
            ),
    {
        let a_has = i < la;
        let b_has = i < lb;
        if a_has && b_has {
            let ai = la - 1 - i;
            let bi = lb - 1 - i;
            let c = str_order(a_segments[ai].as_str(), b_segments[bi].as_str());
            assert(ka.take(la - i).last() == ka[ai as int]);
            assert(kb.take(lb - i).last() == kb[bi as int]);
            assert(ka.take(la - i).drop_last() =~= ka.take(la - i - 1));
            assert(kb.take(lb - i).drop_last() =~= kb.take(lb - i - 1));
            match c {
                PathOrder::Equal => {},
                _ => {
                    return Some(c);
                },
            }
        } else {
            return None;
        }
    }
    assert(ka.take(0) =~= Seq::<Seq<char>>::empty());
    assert(kb.take(0) =~= Seq::<Seq<char>>::empty());
    Some(PathOrder::Equal)
}

/// The path without its leading `::`.
pub open spec fn strip_colon(p: PathView) -> PathView {
    PathView { leading_colon: false, ..p }
}

/// Every path without its leading `::`.
pub open spec fn strip_all(s: Seq<PathView>) -> Seq<PathView> {
    s.map_values(|p: PathView| strip_colon(p))
}

/// Inserts `x` into `t` after every element that does not follow it in the
/// blind order: the step of a stable insertion sort.
pub open spec fn insert_sorted(t: Seq<PathView>, x: PathView) -> Seq<PathView>
    decreases t.len(),
{
    if t.len() == 0 {
        seq![x]
    } else if path_order(t.last(), x) == Some(PathOrder::Greater) {
        insert_sorted(t.drop_last(), x).push(t.last())
    } else {
        t.push(x)
    }
}

/// The stable sort of `s` in the blind order.
pub open spec fn blind_sort(s: Seq<PathView>) -> Seq<PathView>
    decreases s.len(),
{
    if s.len() == 0 {
        s
    } else {
        insert_sorted(blind_sort(s.drop_last()), s.last())
    }
}

/// Positions `i < j` of `s` hold two ambiguous paths.
pub open spec fn ambiguous_pair(s: Seq<PathView>, i: int, j: int) -> bool {
    0 <= i < j < s.len() && path_order(s[i], s[j]) is None
}

/// No two paths of `s` are ambiguous.
pub open spec fn no_ambiguity(s: Seq<PathView>) -> bool {
    forall|i: int, j: int|
        0 <= i < s.len() && 0 <= j < s.len() ==> (#[trigger] path_order(s[i], s[j])) is Some
}

/// `(i, j)` is the first ambiguous pair of `s`, pairs ordered by `i`, then `j`.
pub open spec fn first_ambiguous_pair(s: Seq<PathView>, i: int, j: int) -> bool {
    &&& ambiguous_pair(s, i, j)
    &&& forall|i2: int, j2: int|
        #![trigger ambiguous_pair(s, i2, j2)]
        ambiguous_pair(s, i2, j2) ==> (i < i2 || (i == i2 && j <= j2))
}

/// The report of an ambiguity: the shared base name and the two paths.
#[derive(Debug)]
pub struct AmbiguityError {
    pub base: String,
    pub first: String,
    pub second: String,
}

/// The last identifier of a path, empty when it has none.
pub open spec fn base_name(p: PathView) -> Seq<char> {
    if p.segments.len() == 0 {
        Seq::empty()
    } else {
        p.segments.last().ident
    }
}

/// The report for the pair `a`, `b`.
pub open spec fn ambiguity_report(e: AmbiguityError, a: PathView, b: PathView) -> bool {
    &&& e.base@ == base_name(a)
    &&& e.first@ == path_key(a)
    &&& e.second@ == path_key(b)
}

/// The report for the first ambiguous pair of `s`.
pub open spec fn reports_first_ambiguity(e: AmbiguityError, s: Seq<PathView>) -> bool {
    exists|i: int, j: int|
        #![trigger first_ambiguous_pair(s, i, j)]
        first_ambiguous_pair(s, i, j) && ambiguity_report(e, s[i], s[j])
}

/// A path's order against itself is `Equal`.
pub proof fn lemma_path_order_refl(a: PathView)
    ensures
        path_order(a, a) == Some(PathOrder::Equal),
{
    lemma_blind_order_equal(idents(a), idents(a));
}

/// Finds the first pair of ambiguous paths.
pub fn find_first_ambiguity(paths: &Vec<ErrorPath>) -> (r: Option<(usize, usize)>)
    ensures
        r matches Some(p) ==> first_ambiguous_pair(paths_view(paths@), p.0 as int, p.1 as int),
        r is None ==> no_ambiguity(paths_view(paths@)),
{
    let ghost s = paths_view(paths@);
    let n = paths.len();
    for i in 0..n
        invariant
            n == paths@.len(),
            s == paths_view(paths@),
            forall|i2: int, j2: int| #![trigger ambiguous_pair(s, i2, j2)]
                ambiguous_pair(s, i2, j2) ==> i <= i2,
    {
        for j in i + 1..n
            invariant
                n == paths@.len(),
                s == paths_view(paths@),
                i < n,
                forall|i2: int, j2: int| #![trigger ambiguous_pair(s, i2, j2)]
                    ambiguous_pair(s, i2, j2) ==> (i < i2 || (i == i2 && j <= j2)),
        {
            if compare_paths_blind(&paths[i], &paths[j]).is_none() {
                assert(ambiguous_pair(s, i as int, j as int));
                return Some((i, j));
            }
        }
    }
    assert forall|i: int, j: int| 0 <= i < s.len() && 0 <= j < s.len() implies (#[trigger] path_order(
        s[i],
        s[j],
    )) is Some by {
        if i < j {
            assert(!ambiguous_pair(s, i, j));
        } else if j < i {
            assert(!ambiguous_pair(s, j, i));
            lemma_blind_order_flip(idents(s[j]), idents(s[i]));
        } else {
            lemma_path_order_refl(s[i]);
        }
    }
    None
}

/// Inserting at the position found by walking back over the greater
/// elements is `insert_sorted`.
proof fn lemma_insert_at(t: Seq<PathView>, x: PathView, k: int)
    requires
        0 <= k <= t.len(),
        forall|m: int| k <= m < t.len() ==> path_order(t[m], x) == Some(PathOrder::Greater),
        k == 0 || path_order(t[k - 1], x) != Some(PathOrder::Greater),
    ensures
        insert_sorted(t, x) == t.insert(k, x),
    decreases t.len(),
{
    if k == t.len() {
        if t.len() == 0 {
            assert(t.insert(k, x) =~= seq![x]);
        } else {
            assert(t.insert(k, x) =~= t.push(x));
        }
    } else {
        lemma_insert_at(t.drop_last(), x, k);
        assert(t.insert(k, x) =~= t.drop_last().insert(k, x).push(t.last()));
    }
}

/// Builds the report for the ambiguous paths `a` and `b`.
fn make_ambiguity_error(a: &ErrorPath, b: &ErrorPath) -> (e: AmbiguityError)
    ensures
        ambiguity_report(e, a@, b@),
{
    let n = a.segments.len();
    let base = if n == 0 {
        String::new()
    } else {
        a.segments[n - 1].ident.clone()
    };
    AmbiguityError { base, first: path_to_string(a), second: path_to_string(b) }
}

/// The message that reports an ambiguity.
pub open spec fn ambiguity_message_spec(e: AmbiguityError) -> Seq<char> {
    "Ambiguous error types: `"@ + e.base@ + "` may conflict with `"@ + e.first@ + "` and `"@
        + e.second@ + "`. Please explicitly qualify the module path for `"@ + e.base@
        + "` to guarantee safe sorting."@
}

/// Writes the message that reports an ambiguity.
pub fn ambiguity_message(e: &AmbiguityError) -> (r: String)
    ensures
        r@ == ambiguity_message_spec(*e),
{
    let mut r = text_of("Ambiguous error types: `");
    push_text(&mut r, e.base.as_str());
    push_text(&mut r, "` may conflict with `");
    push_text(&mut r, e.first.as_str());
    push_text(&mut r, "` and `");
    push_text(&mut r, e.second.as_str());
    push_text(&mut r, "`. Please explicitly qualify the module path for `");
    push_text(&mut r, e.base.as_str());
    push_text(&mut r, "` to guarantee safe sorting.");
    r
}

/// Strips leading `::` and sorts the paths stably in the blind order.
///
/// Fails with the first ambiguous pair of paths when there is one.
pub fn sort_paths(paths: Vec<ErrorPath>) -> (r: Result<Vec<ErrorPath>, AmbiguityError>)
    ensures
        match r {
            Ok(v) => no_ambiguity(paths_view(paths@)) && paths_view(v@) == blind_sort(
                strip_all(paths_view(paths@)),
            ),
            Err(e) => !no_ambiguity(paths_view(paths@)) && reports_first_ambiguity(
                e,
                paths_view(paths@),
            ),
        },
{
    let ghost orig = paths_view(paths@);
    match find_first_ambiguity(&paths) {
        Some((i, j)) => {
            let e = make_ambiguity_error(&paths[i], &paths[j]);
            assert(first_ambiguous_pair(orig, i as int, j as int));
            assert(!no_ambiguity(orig)) by {
                assert(path_order(orig[i as int], orig[j as int]) is None);
            }
            return Err(e);
        },
        None => {},
    }
    let n = paths.len();
    let mut rest = paths;
    let mut result: Vec<ErrorPath> = Vec::new();
    assert(orig.take(0) =~= Seq::<PathView>::empty());
    assert(strip_all(orig.take(0)) =~= Seq::<PathView>::empty());
    assert(paths_view(rest@) =~= orig.skip(0));
    for i in 0..n
        invariant
            n == orig.len(),
            rest@.len() == n - i,
            paths_view(rest@) == orig.skip(i as int),
            paths_view(result@) == blind_sort(strip_all(orig.take(i as int))),
    {
        assert(paths_view(rest@)[0] == orig[i as int]);
        let ghost before = rest@;
        let p = rest.remove(0).without_leading_colon();
        assert(rest@ =~= before.subrange(1, before.len() as int));
        assert forall|m: int| 0 <= m < rest@.len() implies #[trigger] paths_view(rest@)[m] == orig.skip(
            i + 1,
        )[m] by {
            assert(paths_view(before)[m + 1] == orig.skip(i as int)[m + 1]);
        }
        assert(paths_view(rest@) =~= orig.skip(i + 1));
        let ghost t = paths_view(result@);
        let mut k = result.len();
        while k > 0 && compare_paths_blind(&result[k - 1], &p) == Some(PathOrder::Greater)
            invariant
                t == paths_view(result@),
                0 <= k <= t.len(),
                forall|m: int| k <= m < t.len() ==> path_order(t[m], p@) == Some(PathOrder::Greater),
            decreases k,
        {
            k = k - 1;
        }
        result.insert(k, p);
        proof {
            lemma_insert_at(t, p@, k as int);
            assert(paths_view(result@) =~= t.insert(k as int, p@));
            let s1 = strip_all(orig.take(i + 1));
            assert(s1.drop_last() =~= strip_all(orig.take(i as int)));
            assert(s1.last() == p@);
        }
    }
    assert(orig.take(n as int) =~= orig);
    Ok(result)
}

/// Some path of `prefix` has the same normalised name as `x`.
pub open spec fn seen_key(prefix: Seq<PathView>, x: PathView) -> bool {
    exists|j: int| 0 <= j < prefix.len() && #[trigger] path_key(prefix[j]) == path_key(x)
}

/// Keeps the first path of each normalised name, in order.
pub open spec fn dedup_keys(s: Seq<PathView>) -> Seq<PathView>
    decreases s.len(),
{
    if s.len() == 0 {
        s
    } else if seen_key(s.drop_last(), s.last()) {
        dedup_keys(s.drop_last())
    } else {
        dedup_keys(s.drop_last()).push(s.last())
    }
}

/// Deduplication keeps every normalised name that occurs.
pub proof fn lemma_dedup_keeps_names(s: Seq<PathView>)
    ensures
        forall|x: PathView| seen_key(s, x) <==> #[trigger] seen_key(dedup_keys(s), x),
    decreases s.len(),
{
    if s.len() > 0 {
        let s1 = s.drop_last();
        lemma_dedup_keeps_names(s1);
        let d1 = dedup_keys(s1);
        assert forall|x: PathView| seen_key(s, x) <==> #[trigger] seen_key(dedup_keys(s), x) by {
            if seen_key(s, x) {
                let j = choose|j: int| 0 <= j < s.len() && #[trigger] path_key(s[j]) == path_key(x);
                if j < s1.len() {
                    assert(path_key(s1[j]) == path_key(x));
                    assert(seen_key(s1, x));
                    assert(seen_key(d1, x));
                    let m = choose|m: int| 0 <= m < d1.len() && #[trigger] path_key(d1[m]) == path_key(x);
                    if !seen_key(s1, s.last()) {
                        assert(dedup_keys(s)[m] == d1[m]);
                    }
                } else {
                    if seen_key(s1, s.last()) {
                        assert(seen_key(d1, s.last()));
                        let m = choose|m: int| 0 <= m < d1.len() && #[trigger] path_key(d1[m]) == path_key(s.last());
                        assert(path_key(d1[m]) == path_key(x));
                    } else {
                        assert(dedup_keys(s)[d1.len() as int] == s.last());
                    }
                }
            }
            if seen_key(dedup_keys(s), x) {
                let d = dedup_keys(s);
                let m = choose|m: int| 0 <= m < d.len() && #[trigger] path_key(d[m]) == path_key(x);
                if m < d1.len() {
                    assert(d[m] == d1[m]);
                    assert(seen_key(d1, x));
                    assert(seen_key(s1, x));
                    let j = choose|j: int| 0 <= j < s1.len() && #[trigger] path_key(s1[j]) == path_key(x);
                    assert(s[j] == s1[j]);
                } else {
                    assert(path_key(s[s.len() - 1]) == path_key(x));
                }
            }
        }
    }
}

/// Removes paths whose normalised name was already seen, keeping the first.
pub fn dedup_paths(paths: Vec<ErrorPath>) -> (r: Vec<ErrorPath>)
    ensures
        paths_view(r@) == dedup_keys(paths_view(paths@)),
{
    let ghost orig = paths_view(paths@);
    let n = paths.len();
    let mut rest = paths;
    let mut seen: Vec<String> = Vec::new();
    let mut result: Vec<ErrorPath> = Vec::new();
    assert(orig.take(0) =~= Seq::<PathView>::empty());
    assert(paths_view(rest@) =~= orig.skip(0));
    for i in 0..n
        invariant
            n == orig.len(),
            rest@.len() == n - i,
            paths_view(rest@) == orig.skip(i as int),
            paths_view(result@) == dedup_keys(orig.take(i as int)),
            seen@.len() == result@.len(),
            forall|m: int| 0 <= m < seen@.len() ==> #[trigger] seen@[m]@ == path_key(result@[m]@),
    {
        assert(paths_view(rest@)[0] == orig[i as int]);
        let ghost before = rest@;
        let p = rest.remove(0);
        assert(rest@ =~= before.subrange(1, before.len() as int));
        assert forall|m: int| 0 <= m < rest@.len() implies #[trigger] paths_view(rest@)[m] == orig.skip(
            i + 1,
        )[m] by {
            assert(paths_view(before)[m + 1] == orig.skip(i as int)[m + 1]);
        }
        assert(paths_view(rest@) =~= orig.skip(i + 1));
        let key = path_to_string(&p);
        let mut found = false;
        let mut m: usize = 0;
        while m < seen.len()
            invariant
                0 <= m <= seen@.len(),
                found == exists|q: int| 0 <= q < m && #[trigger] seen@[q]@ == key@,
            decreases seen@.len() - m,
        {
            if seen[m] == key {
                found = true;
            }
            m = m + 1;
        }
        let ghost prefix = orig.take(i as int);
        let ghost d = dedup_keys(prefix);
        proof {
            lemma_dedup_keeps_names(prefix);
            let s1 = orig.take(i + 1);
            assert(s1.drop_last() =~= prefix);
            assert(s1.last() == p@);
            assert(found == seen_key(d, p@)) by {
                if found {
                    let q = choose|q: int| 0 <= q < m && #[trigger] seen@[q]@ == key@;
                    assert(path_key(d[q]) == path_key(p@));
                }
                if seen_key(d, p@) {
                    let q = choose|q: int| 0 <= q < d.len() && #[trigger] path_key(d[q]) == path_key(p@);
                    assert(seen@[q]@ == key@);
                }
            }
        }
        if !found {
            seen.push(key);
            result.push(p);
            assert(paths_view(result@) =~= d.push(p@));
        }
    }
    assert(orig.take(n as int) =~= orig);
    result
}

/// The `Unt` list type of the given error paths, ending in `End`.
pub open spec fn unt_type_text(s: Seq<PathView>) -> Seq<char>
    decreases s.len(),
{
    if s.len() == 0 {
        "::struct_error::End"@
    } else {
        "::struct_error::Unt<"@ + path_text(s[0]) + ", "@ + unt_type_text(s.drop_first()) + ">"@
    }
}

/// `inner` wrapped in `Here`, then in `index` layers of `There`.
pub open spec fn nesting_text(index: nat, inner: Seq<char>) -> Seq<char>
    decreases index,
{
    if index == 0 {
        "::struct_error::Unt::Here("@ + inner + ")"@
    } else {
        "::struct_error::Unt::There("@ + nesting_text((index - 1) as nat, inner) + ")"@
    }
}

/// The nesting at `index`, wrapped in `Err`: the pattern of a match arm.
pub open spec fn pattern_text(index: nat, pat: Seq<char>) -> Seq<char> {
    "::core::result::Result::Err("@ + nesting_text(index, pat) + ")"@
}

/// Builds the `Unt` list type of the paths: `Unt<A, Unt<B, End>>` for `[A, B]`.
pub fn build_unt_type(paths: &Vec<ErrorPath>) -> (r: String)
    ensures
        r@ == unt_type_text(paths_view(paths@)),
{
    let ghost s = paths_view(paths@);
    let mut acc = text_of("::struct_error::End");
    let mut i = paths.len();
    assert(s.skip(i as int) =~= Seq::<PathView>::empty());
    while i > 0
        invariant
            i <= s.len(),
            s == paths_view(paths@),
            acc@ == unt_type_text(s.skip(i as int)),
        decreases i,
    {
        i = i - 1;
        let mut t = text_of("::struct_error::Unt<");
        push_text(&mut t, render_path(&paths[i]).as_str());
        push_text(&mut t, ", ");
        push_text(&mut t, acc.as_str());
        push_text(&mut t, ">");
        assert(s.skip(i as int).drop_first() =~= s.skip(i + 1));
        assert(s.skip(i as int)[0] == s[i as int]);
        acc = t;
    }
    assert(s.skip(0) =~= s);
    acc
}

/// Builds the constructor of the `Unt` value at position `index`.
pub fn build_unt_nesting(index: usize, _total: usize, inner: &str) -> (r: String)
    ensures
        r@ == nesting_text(index as nat, inner@),
{
    let mut r = text_of("::struct_error::Unt::Here(");
    push_text(&mut r, inner);
    push_text(&mut r, ")");
    for i in 0..index
        invariant
            r@ == nesting_text(i as nat, inner@),
    {
        let mut t = text_of("::struct_error::Unt::There(");
        push_text(&mut t, r.as_str());
        push_text(&mut t, ")");
        r = t;
    }
    r
}

/// Builds the match pattern for position `index`: the nesting wrapped in `Err`.
pub fn build_unt_pattern(index: usize, total: usize, pat: &str) -> (r: String)
    ensures
        r@ == pattern_text(index as nat, pat@),
{
    let nested = build_unt_nesting(index, total, pat);
    let mut r = text_of("::core::result::Result::Err(");
    push_text(&mut r, nested.as_str());
    push_text(&mut r, ")");
    r
}

} // verus!
