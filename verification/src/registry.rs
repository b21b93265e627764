//! The registry of error types and united errors known to the expansions of
//! one compilation.
//!
//! The registry is a value: whoever expands the macros keeps one and hands
//! it to each expansion. Registering a name again replaces what was
//! registered under it before, as a map insert does.

use vstd::prelude::*;
use crate::path::{ErrorPath, PathView, paths_view};

verus! {

/// Metadata kept for an atomic error type.
#[derive(Debug)]
pub struct ErrorMeta {
    /// The identifier of the error struct.
    pub _ident: String,
}

/// A united error and its member paths.
#[derive(Debug)]
pub struct UnitedEntry {
    pub ident: String,
    pub members: Vec<ErrorPath>,
}

/// Registered error types and united errors.
#[derive(Debug)]
pub struct Registry {
    errors: Vec<ErrorMeta>,
    united: Vec<UnitedEntry>,
}

/// The models of a sequence of strings.
pub open spec fn strings_view(v: Seq<String>) -> Seq<Seq<char>> {
    v.map_values(|s: String| s@)
}

/// The set of error identifiers registered by a sequence of registrations.
pub open spec fn errors_set(s: Seq<ErrorMeta>) -> Set<Seq<char>>
    decreases s.len(),
{
    if s.len() == 0 {
        Set::empty()
    } else {
        errors_set(s.drop_last()).insert(s.last()._ident@)
    }
}

/// The map from united error identifier to member paths that a sequence of
/// registrations leaves: a later registration of a name replaces an earlier one.
pub open spec fn united_map(s: Seq<UnitedEntry>) -> Map<Seq<char>, Seq<PathView>>
    decreases s.len(),
{
    if s.len() == 0 {
        Map::empty()
    } else {
        united_map(s.drop_last()).insert(s.last().ident@, paths_view(s.last().members@))
    }
}

/// The members registered for the united error named by the last segment of `p`.
pub open spec fn united_lookup(m: Map<Seq<char>, Seq<PathView>>, p: PathView) -> Option<
    Seq<PathView>,
> {
    if p.segments.len() > 0 && m.dom().contains(p.segments.last().ident) {
        Some(m[p.segments.last().ident])
    } else {
        None
    }
}

/// A path with a united error replaced by its members.
pub open spec fn resolve_one(m: Map<Seq<char>, Seq<PathView>>, p: PathView) -> Seq<PathView> {
    match united_lookup(m, p) {
        Some(ms) => ms,
        None => seq![p],
    }
}

/// Every path resolved in order.
pub open spec fn resolve_all(m: Map<Seq<char>, Seq<PathView>>, s: Seq<PathView>) -> Seq<PathView>
    decreases s.len(),
{
    if s.len() == 0 {
        Seq::empty()
    } else {
        resolve_all(m, s.drop_last()) + resolve_one(m, s.last())
    }
}

impl Registry {
    /// The registered atomic error identifiers.
    pub closed spec fn error_types(&self) -> Set<Seq<char>> {
        errors_set(self.errors@)
    }

    /// The registered united errors and their member paths.
    pub closed spec fn united_members(&self) -> Map<Seq<char>, Seq<PathView>> {
        united_map(self.united@)
    }

    /// An empty registry.
    pub fn new() -> (r: Registry)
        ensures
            r.error_types() == Set::<Seq<char>>::empty(),
            r.united_members() == Map::<Seq<char>, Seq<PathView>>::empty(),
    {
        Registry { errors: Vec::new(), united: Vec::new() }
    }
}

/// A copy of a vector of paths.
pub fn copy_paths(v: &Vec<ErrorPath>) -> (r: Vec<ErrorPath>)
    ensures
        paths_view(r@) == paths_view(v@),
{
    let mut r: Vec<ErrorPath> = Vec::new();
    for i in 0..v.len()
        invariant
            paths_view(r@) == paths_view(v@).take(i as int),
    {
        let ghost prev = paths_view(r@);
        r.push(v[i].duplicate());
        assert(paths_view(r@) =~= prev.push(v@[i as int]@));
        assert(paths_view(v@).take(i + 1) =~= paths_view(v@).take(i as int).push(v@[i as int]@));
    }
    assert(paths_view(v@).take(v@.len() as int) =~= paths_view(v@));
    r
}

/// Registers an atomic error type.
pub fn register_error_type(registry: &mut Registry, ident: &str)
    ensures
        final(registry).error_types() == old(registry).error_types().insert(ident@),
        final(registry).united_members() == old(registry).united_members(),
{
    let ghost before = registry.errors@;
    registry.errors.push(ErrorMeta { _ident: String::from_str(ident) });
    assert(registry.errors@.drop_last() =~= before);
}

/// Registers a united error and its member list.
pub fn register_united_error(registry: &mut Registry, ident: &str, members: Vec<ErrorPath>)
    ensures
        final(registry).united_members() == old(registry).united_members().insert(
            ident@,
            paths_view(members@),
        ),
        final(registry).error_types() == old(registry).error_types(),
{
    let ghost before = registry.united@;
    registry.united.push(UnitedEntry { ident: String::from_str(ident), members });
    assert(registry.united@.drop_last() =~= before);
}

/// Looks up the member list of a united error by the last segment of the path.
pub fn get_united_members(registry: &Registry, path: &ErrorPath) -> (r: Option<Vec<ErrorPath>>)
    ensures
        match r {
            Some(v) => united_lookup(registry.united_members(), path@) == Some(paths_view(v@)),
            None => united_lookup(registry.united_members(), path@) is None,
        },
{
    let n = path.segments.len();
    if n == 0 {
        return None;
    }
    let key = &path.segments[n - 1].ident;
    assert(path@.segments.last() == path.segments@[n - 1]@);
    let ghost s = registry.united@;
    let ghost m = united_map(s);
    let mut k = registry.united.len();
    assert(s.take(k as int) =~= s);
    while k > 0
        invariant
            s == registry.united@,
            m == united_map(s),
            k <= s.len(),
            key@ == path@.segments.last().ident,
            path@.segments.len() > 0,
            m.dom().contains(key@) == united_map(s.take(k as int)).dom().contains(key@),
            m.dom().contains(key@) ==> m[key@] == united_map(s.take(k as int))[key@],
        decreases k,
    {
        let ghost t = s.take(k as int);
        assert(t.drop_last() =~= s.take(k - 1));
        assert(t.last() == s[k - 1]);
        if registry.united[k - 1].ident == *key {
            let members = copy_paths(&registry.united[k - 1].members);
            assert(united_map(t) == united_map(t.drop_last()).insert(
                t.last().ident@,
                paths_view(t.last().members@),
            ));
            assert(t.last().ident@ == key@);
            assert(united_map(t).dom().contains(key@));
            assert(m.dom().contains(key@));
            assert(m[key@] == paths_view(members@));
            assert(path@.segments.len() > 0);
            return Some(members);
        }
        k = k - 1;
    }
    None
}

/// Whether the path names a registered united error.
pub fn is_united_error(registry: &Registry, path: &ErrorPath) -> (r: bool)
    ensures
        r == united_lookup(registry.united_members(), path@) is Some,
{
    get_united_members(registry, path).is_some()
}

/// Resolves error paths, replacing each united error by its members in place.
pub fn resolve_error_paths(registry: &Registry, paths: &Vec<ErrorPath>) -> (r: Vec<ErrorPath>)
    ensures
        paths_view(r@) == resolve_all(registry.united_members(), paths_view(paths@)),
{
    let ghost m = registry.united_members();
    let ghost s = paths_view(paths@);
    let mut result: Vec<ErrorPath> = Vec::new();
    assert(s.take(0) =~= Seq::<PathView>::empty());
    for i in 0..paths.len()
        invariant
            s == paths_view(paths@),
            m == registry.united_members(),
            paths_view(result@) == resolve_all(m, s.take(i as int)),
    {
        let path = &paths[i];
        let ghost before = paths_view(result@);
        assert(s.take(i + 1).drop_last() =~= s.take(i as int));
        assert(s.take(i + 1).last() == path@);
        match get_united_members(registry, path) {
            Some(members) => {
                let ghost ms = paths_view(members@);
                for j in 0..members.len()
                    invariant
                        ms == paths_view(members@),
                        paths_view(result@) == before + ms.take(j as int),
                {
                    let ghost prev = result@;
                    result.push(members[j].duplicate());
                    assert(paths_view(result@) =~= paths_view(prev).push(ms[j as int]));
                    assert(ms.take(j + 1) =~= ms.take(j as int).push(ms[j as int]));
                }
                assert(ms.take(members@.len() as int) =~= ms);
            },
            None => {
                result.push(path.duplicate());
                assert(paths_view(result@) =~= before + seq![path@]);
            },
        }
    }
    assert(s.take(paths@.len() as int) =~= s);
    result
}

/// Law (a read gives back the last write): after a united error is
/// registered, a path whose last segment names it resolves to exactly the
/// registered members, and the other names keep what they had.
pub proof fn law_united_read_after_write(
    m: Map<Seq<char>, Seq<PathView>>,
    ident: Seq<char>,
    members: Seq<PathView>,
    p: PathView,
)
    ensures
        p.segments.len() > 0 && p.segments.last().ident == ident ==> united_lookup(
            m.insert(ident, members),
            p,
        ) == Some(members),
        p.segments.len() > 0 && p.segments.last().ident != ident ==> united_lookup(
            m.insert(ident, members),
            p,
        ) == united_lookup(m, p),
{
}

/// Law: a path that names no united error resolves to itself alone.
pub proof fn law_plain_path_resolves_to_itself(m: Map<Seq<char>, Seq<PathView>>, p: PathView)
    requires
        united_lookup(m, p) is None,
    ensures
        resolve_all(m, seq![p]) == seq![p],
{
    assert(seq![p].drop_last() =~= Seq::<PathView>::empty());
    assert(resolve_all(m, seq![p].drop_last()) == Seq::<PathView>::empty());
    assert(resolve_one(m, p) == seq![p]);
    assert(Seq::<PathView>::empty() + seq![p] =~= seq![p]);
}

} // verus!
