//! Planning of `match_error` arms: which arms are allowed, how united errors
//! expand into their members, and at which `Unt` position each error arm
//! matches.

use vstd::prelude::*;
use crate::text::{pascal_case, is_pascal_case};
use crate::path::{
    ErrorPath, PathView, paths_view, path_key, path_text, single_ident_path, is_ok_path,
    is_err_path, path_to_string, render_path, is_path_ok, is_path_err,
};
use crate::sort::{
    AmbiguityError, no_ambiguity, reports_first_ambiguity, pattern_text, sort_paths, dedup_paths,
    build_unt_pattern,
};
use crate::blind_laws::{blind_plan, plan_keys};
use crate::registry::{Registry, united_lookup, get_united_members, strings_view};

verus! {

/// The library's model of a match-arm pattern, as far as arm planning reads it.
#[derive(Debug)]
pub enum PatKind {
    /// `Path(first, ..)`: a tuple-struct pattern and its first element, if any.
    TupleStruct { path: ErrorPath, first: Option<Box<ArmPat>> },
    /// A bare path such as `db::Timeout`.
    Path(ErrorPath),
    /// `_`.
    Wild,
    /// A bare identifier.
    Ident(String),
    /// `Path { .. }`.
    Struct(ErrorPath),
    /// Any other pattern.
    Other,
}

/// A pattern together with its source text.
#[derive(Debug)]
pub struct ArmPat {
    pub kind: PatKind,
    pub text: String,
}

/// How an arm is treated.
#[derive(Debug, Clone, Copy, PartialEq, Eq, Structural)]
pub enum ArmType {
    /// An `Ok(..)` arm, kept as written.
    OkArm,
    /// An arm that matches an error type.
    ErrorArm,
    /// `_` or a lower-case binding: not allowed.
    CatchAll,
    /// A pattern form that is not supported.
    Unknown,
}

/// A path names an error type when its last identifier is PascalCase.
pub open spec fn error_path_spec(p: PathView) -> bool {
    p.segments.len() > 0 && pascal_case(p.segments.last().ident)
}

/// How an arm pattern is classified. `Err(..)` around a catch-all is a
/// catch-all too.
pub open spec fn classify_spec(pat: ArmPat) -> ArmType
    decreases pat,
{
    match pat.kind {
        PatKind::TupleStruct { path, first } => if is_ok_path(path@) {
            ArmType::OkArm
        } else if is_err_path(path@) {
            if first matches Some(inner) && classify_spec(*inner) == ArmType::CatchAll {
                ArmType::CatchAll
            } else {
                ArmType::ErrorArm
            }
        } else if error_path_spec(path@) {
            ArmType::ErrorArm
        } else {
            ArmType::Unknown
        },
        PatKind::Path(path) => if is_ok_path(path@) {
            ArmType::OkArm
        } else if is_err_path(path@) || error_path_spec(path@) {
            ArmType::ErrorArm
        } else {
            ArmType::Unknown
        },
        PatKind::Wild => ArmType::CatchAll,
        PatKind::Ident(name) => if pascal_case(name@) {
            ArmType::ErrorArm
        } else {
            ArmType::CatchAll
        },
        PatKind::Struct(path) => if error_path_spec(path@) {
            ArmType::ErrorArm
        } else {
            ArmType::Unknown
        },
        PatKind::Other => ArmType::Unknown,
    }
}

/// A pattern without captures: a path, or a PascalCase identifier.
pub open spec fn is_bare_spec(pat: ArmPat) -> bool {
    match pat.kind {
        PatKind::Path(_) => true,
        PatKind::Ident(name) => pascal_case(name@),
        _ => false,
    }
}

/// The error type path that a pattern names, looking inside `Err(..)`.
pub open spec fn extract_spec(pat: ArmPat) -> Option<PathView>
    decreases pat,
{
    match pat.kind {
        PatKind::TupleStruct { path, first } => if is_err_path(path@) && first is Some {
            extract_spec(*first->0)
        } else {
            Some(path@)
        },
        PatKind::Path(path) => Some(path@),
        PatKind::Ident(name) => if pascal_case(name@) {
            Some(single_ident_path(name@))
        } else {
            None
        },
        PatKind::Struct(path) => Some(path@),
        _ => None,
    }
}

/// The pattern with an outer `Err(..)` removed.
pub open spec fn strip_spec(pat: ArmPat) -> ArmPat {
    match pat.kind {
        PatKind::TupleStruct { path, first } => if is_err_path(path@) && first is Some {
            *first->0
        } else {
            pat
        },
        _ => pat,
    }
}

/// Whether the path names an error type (its last identifier is PascalCase).
pub fn is_error_path(path: &ErrorPath) -> (r: bool)
    ensures
        r == error_path_spec(path@),
{
    let n = path.segments.len();
    if n == 1 && path.segments[0].args.unicode_len() == 0 {
        return is_pascal_case(path.segments[0].ident.as_str());
    }
    if n > 0 {
        return is_pascal_case(path.segments[n - 1].ident.as_str());
    }
    false
}

/// Classifies a match-arm pattern.
pub fn classify_pat(pat: &ArmPat) -> (r: ArmType)
    ensures
        r == classify_spec(*pat),
    decreases *pat,
{
    match &pat.kind {
        PatKind::TupleStruct { path, first } => {
            if is_path_ok(path) {
                ArmType::OkArm
            } else if is_path_err(path) {
                match first {
                    Some(inner) => if classify_pat(&**inner) == ArmType::CatchAll {
                        ArmType::CatchAll
                    } else {
                        ArmType::ErrorArm
                    },
                    None => ArmType::ErrorArm,
                }
            } else if is_error_path(path) {
                ArmType::ErrorArm
            } else {
                ArmType::Unknown
            }
        },
        PatKind::Path(path) => {
            if is_path_ok(path) {
                ArmType::OkArm
            } else if is_path_err(path) || is_error_path(path) {
                ArmType::ErrorArm
            } else {
                ArmType::Unknown
            }
        },
        PatKind::Wild => ArmType::CatchAll,
        PatKind::Ident(name) => {
            if is_pascal_case(name.as_str()) {
                ArmType::ErrorArm
            } else {
                ArmType::CatchAll
            }
        },
        PatKind::Struct(path) => {
            if is_error_path(path) {
                ArmType::ErrorArm
            } else {
                ArmType::Unknown
            }
        },
        PatKind::Other => ArmType::Unknown,
    }
}

/// Whether the pattern captures nothing: a path or a PascalCase identifier.
pub fn is_bare_path(pat: &ArmPat) -> (r: bool)
    ensures
        r == is_bare_spec(*pat),
{
    match &pat.kind {
        PatKind::Path(_) => true,
        PatKind::Ident(name) => is_pascal_case(name.as_str()),
        _ => false,
    }
}

/// The pattern with an outer `Err(..)` removed, if there is one.
pub fn strip_err_wrapper(pat: &ArmPat) -> (r: &ArmPat)
    ensures
        *r == strip_spec(*pat),
{
    match &pat.kind {
        PatKind::TupleStruct { path, first } => {
            if is_path_err(path) {
                match first {
                    Some(inner) => &**inner,
                    None => pat,
                }
            } else {
                pat
            }
        },
        _ => pat,
    }
}

/// The error type path that a pattern names.
pub fn extract_error_path(pat: &ArmPat) -> (r: Option<ErrorPath>)
    ensures
        match r {
            Some(p) => extract_spec(*pat) == Some(p@),
            None => extract_spec(*pat) is None,
        },
    decreases *pat,
{
    match &pat.kind {
        PatKind::TupleStruct { path, first } => {
            if is_path_err(path) {
                if let Some(inner) = first {
                    return extract_error_path(&**inner);
                }
            }
            Some(path.duplicate())
        },
        PatKind::Path(path) => Some(path.duplicate()),
        PatKind::Ident(name) => {
            if is_pascal_case(name.as_str()) {
                Some(ErrorPath::from_ident(name.as_str()))
            } else {
                None
            }
        },
        PatKind::Struct(path) => Some(path.duplicate()),
        _ => None,
    }
}

/// A bare path pattern for `path`.
pub fn make_bare_pat(path: &ErrorPath) -> (r: ArmPat)
    ensures
        r.kind matches PatKind::Path(p) && p@ == path@,
        r.text@ == path_text(path@),
{
    ArmPat { kind: PatKind::Path(path.duplicate()), text: render_path(path) }
}

/// An error arm after united errors are expanded: the error type it
/// matches, the arm it came from and the source text of its pattern.
#[derive(Debug)]
pub struct ErrorArmData {
    pub path: ErrorPath,
    pub arm: usize,
    pub text: String,
}

/// Model of an expanded error arm.
pub struct ErrorArmView {
    pub path: PathView,
    pub arm: nat,
    pub text: Seq<char>,
}

impl View for ErrorArmData {
    type V = ErrorArmView;

    open spec fn view(&self) -> ErrorArmView {
        ErrorArmView { path: self.path@, arm: self.arm as nat, text: self.text@ }
    }
}

/// One arm of the planned match.
#[derive(Debug)]
pub enum PlannedArm {
    /// The `Ok(..)` arm at this position of the input, kept as written.
    OkArm { arm: usize },
    /// An error arm taken from the input arm `arm`, matching the `Unt`
    /// position `index` with the pattern text `pattern`.
    ErrorArm { arm: usize, index: usize, pattern: String },
}

/// Model of a planned arm.
pub enum PlannedView {
    OkArm { arm: nat },
    ErrorArm { arm: nat, index: nat, pattern: Seq<char> },
}

impl View for PlannedArm {
    type V = PlannedView;

    open spec fn view(&self) -> PlannedView {
        match self {
            PlannedArm::OkArm { arm } => PlannedView::OkArm { arm: *arm as nat },
            PlannedArm::ErrorArm { arm, index, pattern } => PlannedView::ErrorArm {
                arm: *arm as nat,
                index: *index as nat,
                pattern: pattern@,
            },
        }
    }
}

/// Why a match cannot be planned.
#[derive(Debug)]
pub enum MatchPlanError {
    /// The arm is `_` or a lower-case binding.
    CatchAll { arm: usize },
    /// The arm's pattern form is not supported.
    Unsupported { arm: usize },
    /// The arm names a united error but captures something.
    UnitedCapture { arm: usize },
    /// Two error types of the arms are ambiguous.
    Ambiguous(AmbiguityError),
}

/// The plan of a match: its arms, and how many distinct error types it covers.
#[derive(Debug)]
pub struct MatchPlan {
    pub arms: Vec<PlannedArm>,
    pub total: usize,
}

/// An arm that is refused before anything else is looked at.
pub open spec fn refused(p: ArmPat) -> bool {
    classify_spec(p) == ArmType::CatchAll || classify_spec(p) == ArmType::Unknown
}

/// Some error arm of `arms` names a type whose normalised name is `k`.
pub open spec fn is_explicit(arms: Seq<ArmPat>, k: Seq<char>) -> bool {
    exists|i: int|
        #![trigger arms[i]]
        0 <= i < arms.len() && classify_spec(arms[i]) == ArmType::ErrorArm && (extract_spec(
            arms[i],
        ) matches Some(q) && path_key(q) == k)
}

/// Failures of the expansion of united errors.
pub enum ExpandFailure {
    UnitedCapture(nat),
}

/// The expanded arms for the members `ms` of the united error named by arm
/// `i`: a member whose name an error arm gives explicitly is left to that arm.
pub open spec fn expand_members(ms: Seq<PathView>, all: Seq<ArmPat>, i: nat) -> Seq<ErrorArmView>
    decreases ms.len(),
{
    if ms.len() == 0 {
        Seq::empty()
    } else {
        let d = expand_members(ms.drop_last(), all, i);
        let x = ms.last();
        if is_explicit(all, path_key(x)) {
            d
        } else {
            d.push(ErrorArmView { path: x, arm: i, text: path_text(x) })
        }
    }
}

/// The expanded arms of arm `i`.
pub open spec fn expand_one(
    m: Map<Seq<char>, Seq<PathView>>,
    all: Seq<ArmPat>,
    i: nat,
    pat: ArmPat,
) -> Result<Seq<ErrorArmView>, ExpandFailure> {
    if classify_spec(pat) != ArmType::ErrorArm {
        Ok(Seq::empty())
    } else {
        match extract_spec(pat) {
            None => Ok(Seq::empty()),
            Some(path) => match united_lookup(m, path) {
                Some(ms) => if !is_bare_spec(pat) {
                    Err(ExpandFailure::UnitedCapture(i))
                } else {
                    Ok(expand_members(ms, all, i))
                },
                None => Ok(seq![ErrorArmView { path, arm: i, text: strip_spec(pat).text@ }]),
            },
        }
    }
}

/// The expanded error arms of the first `n` arms.
pub open spec fn expand_arms(m: Map<Seq<char>, Seq<PathView>>, all: Seq<ArmPat>, n: nat) -> Result<
    Seq<ErrorArmView>,
    ExpandFailure,
>
    decreases n,
{
    if n == 0 {
        Ok(Seq::empty())
    } else {
        match expand_arms(m, all, (n - 1) as nat) {
            Err(e) => Err(e),
            Ok(d) => match expand_one(m, all, (n - 1) as nat, all[n - 1]) {
                Err(e) => Err(e),
                Ok(d2) => Ok(d + d2),
            },
        }
    }
}

/// The `Ok` arms of the first `n` arms, in order.
pub open spec fn ok_planned(arms: Seq<ArmPat>, n: nat) -> Seq<PlannedView>
    decreases n,
{
    if n == 0 {
        Seq::empty()
    } else if classify_spec(arms[n - 1]) == ArmType::OkArm {
        ok_planned(arms, (n - 1) as nat).push(PlannedView::OkArm { arm: (n - 1) as nat })
    } else {
        ok_planned(arms, (n - 1) as nat)
    }
}

/// The first position of `k` in `keys`.
pub open spec fn index_of(keys: Seq<Seq<char>>, k: Seq<char>) -> Option<nat>
    decreases keys.len(),
{
    if keys.len() == 0 {
        None
    } else if keys[0] == k {
        Some(0)
    } else {
        match index_of(keys.drop_first(), k) {
            Some(i) => Some(i + 1),
            None => None,
        }
    }
}

/// The planned error arms: each expanded arm at the position of its type.
pub open spec fn error_planned(data: Seq<ErrorArmView>, keys: Seq<Seq<char>>) -> Seq<PlannedView>
    decreases data.len(),
{
    if data.len() == 0 {
        Seq::empty()
    } else {
        let d = data.last();
        let rest = error_planned(data.drop_last(), keys);
        match index_of(keys, path_key(d.path)) {
            Some(i) => rest.push(
                PlannedView::ErrorArm { arm: d.arm, index: i, pattern: pattern_text(i, d.text) },
            ),
            None => rest,
        }
    }
}

/// The error types of the expanded arms.
pub open spec fn data_paths(data: Seq<ErrorArmView>) -> Seq<PathView> {
    data.map_values(|d: ErrorArmView| d.path)
}

/// The planned `Ok` arms, or the first refused arm.
fn check_arms(arms: &Vec<ArmPat>) -> (r: Result<Vec<PlannedArm>, MatchPlanError>)
    ensures
        match r {
            Ok(v) => (forall|j: int| 0 <= j < arms@.len() ==> !refused(#[trigger] arms@[j]))
                && v@.map_values(|a: PlannedArm| a@) == ok_planned(arms@, arms@.len() as nat),
            Err(MatchPlanError::CatchAll { arm }) => arm < arms@.len() && classify_spec(
                arms@[arm as int],
            ) == ArmType::CatchAll && forall|j: int|
                0 <= j < arm ==> !refused(#[trigger] arms@[j]),
            Err(MatchPlanError::Unsupported { arm }) => arm < arms@.len() && classify_spec(
                arms@[arm as int],
            ) == ArmType::Unknown && forall|j: int|
                0 <= j < arm ==> !refused(#[trigger] arms@[j]),
            Err(_) => false,
        },
{
    let mut ok_arms: Vec<PlannedArm> = Vec::new();
    for i in 0..arms.len()
        invariant
            forall|j: int| 0 <= j < i ==> !refused(#[trigger] arms@[j]),
            ok_arms@.map_values(|a: PlannedArm| a@) == ok_planned(arms@, i as nat),
    {
        match classify_pat(&arms[i]) {
            ArmType::OkArm => {
                ok_arms.push(PlannedArm::OkArm { arm: i });
                assert(ok_arms@.map_values(|a: PlannedArm| a@) =~= ok_planned(arms@, i as nat).push(
                    PlannedView::OkArm { arm: i as nat },
                ));
            },
            ArmType::ErrorArm => {},
            ArmType::CatchAll => {
                return Err(MatchPlanError::CatchAll { arm: i });
            },
            ArmType::Unknown => {
                return Err(MatchPlanError::Unsupported { arm: i });
            },
        }
    }
    Ok(ok_arms)
}

/// Some of the first `n` arms is an error arm naming a type whose
/// normalised name is `k`.
pub open spec fn explicit_upto(arms: Seq<ArmPat>, n: int, k: Seq<char>) -> bool {
    exists|j: int|
        #![trigger arms[j]]
        0 <= j < n && classify_spec(arms[j]) == ArmType::ErrorArm && (extract_spec(
            arms[j],
        ) matches Some(q) && path_key(q) == k)
}

/// The normalised names of the error types that the error arms name.
fn explicit_keys(arms: &Vec<ArmPat>) -> (r: Vec<String>)
    ensures
        forall|k: Seq<char>|
            #[trigger] is_explicit(arms@, k) <==> strings_view(r@).contains(k),
{
    let mut r: Vec<String> = Vec::new();
    let mut i: usize = 0;
    while i < arms.len()
        invariant
            i <= arms@.len(),
            forall|k: Seq<char>|
                #[trigger] explicit_upto(arms@, i as int, k) <==> strings_view(r@).contains(k),
        decreases arms@.len() - i,
    {
        let ghost before = strings_view(r@);
        let ty = classify_pat(&arms[i]);
        if ty == ArmType::ErrorArm {
            match extract_error_path(&arms[i]) {
                Some(path) => {
                    let key = path_to_string(&path);
                    r.push(key);
                    let ghost after = strings_view(r@);
                    assert(after =~= before.push(path_key(path@)));
                    assert forall|k: Seq<char>|
                        #[trigger] explicit_upto(arms@, i + 1, k) <==> after.contains(k) by {
                        if after.contains(k) {
                            let q = choose|q: int| 0 <= q < after.len() && after[q] == k;
                            if q < before.len() {
                                assert(before[q] == k);
                                assert(before.contains(k));
                                assert(explicit_upto(arms@, i as int, k));
                                let j = choose|j: int|
                                    #![trigger arms@[j]]
                                    0 <= j < i && classify_spec(arms@[j]) == ArmType::ErrorArm && (
                                    extract_spec(arms@[j]) matches Some(q) && path_key(q) == k);
                                assert(arms@[j] == arms@[j]);
                            } else {
                                assert(arms@[i as int] == arms@[i as int]);
                            }
                        }
                        if explicit_upto(arms@, i + 1, k) {
                            let j = choose|j: int|
                                #![trigger arms@[j]]
                                0 <= j < i + 1 && classify_spec(arms@[j]) == ArmType::ErrorArm && (
                                extract_spec(arms@[j]) matches Some(q) && path_key(q) == k);
                            if j < i {
                                assert(explicit_upto(arms@, i as int, k));
                                assert(before.contains(k));
                                let q = choose|q: int| 0 <= q < before.len() && before[q] == k;
                                assert(after[q] == k);
                            } else {
                                assert(after[before.len() as int] == k);
                            }
                        }
                    }
                },
                None => {
                    assert forall|k: Seq<char>|
                        #[trigger] explicit_upto(arms@, i + 1, k) <==> before.contains(k) by {
                        if explicit_upto(arms@, i + 1, k) {
                            let j = choose|j: int|
                                #![trigger arms@[j]]
                                0 <= j < i + 1 && classify_spec(arms@[j]) == ArmType::ErrorArm && (
                                extract_spec(arms@[j]) matches Some(q) && path_key(q) == k);
                            assert(j < i);
                            assert(explicit_upto(arms@, i as int, k));
                        }
                        if before.contains(k) {
                            assert(explicit_upto(arms@, i as int, k));
                            let j = choose|j: int|
                                #![trigger arms@[j]]
                                0 <= j < i && classify_spec(arms@[j]) == ArmType::ErrorArm && (
                                extract_spec(arms@[j]) matches Some(q) && path_key(q) == k);
                            assert(arms@[j] == arms@[j]);
                        }
                    }
                },
            }
        } else {
            assert(classify_spec(arms@[i as int]) != ArmType::ErrorArm);
            assert forall|k: Seq<char>|
                #[trigger] explicit_upto(arms@, i + 1, k) <==> before.contains(k) by {
                if explicit_upto(arms@, i + 1, k) {
                    let j = choose|j: int|
                        #![trigger arms@[j]]
                        0 <= j < i + 1 && classify_spec(arms@[j]) == ArmType::ErrorArm && (
                        extract_spec(arms@[j]) matches Some(q) && path_key(q) == k);
                    assert(j < i);
                    assert(explicit_upto(arms@, i as int, k));
                }
                if before.contains(k) {
                    assert(explicit_upto(arms@, i as int, k));
                    let j = choose|j: int|
                        #![trigger arms@[j]]
                        0 <= j < i && classify_spec(arms@[j]) == ArmType::ErrorArm && (
                        extract_spec(arms@[j]) matches Some(q) && path_key(q) == k);
                    assert(arms@[j] == arms@[j]);
                }
            }
        }
        i = i + 1;
    }
    assert forall|k: Seq<char>| #[trigger] is_explicit(arms@, k) <==> strings_view(r@).contains(k) by {
        assert(explicit_upto(arms@, arms@.len() as int, k) <==> strings_view(r@).contains(k));
        if is_explicit(arms@, k) {
            let j = choose|j: int|
                #![trigger arms@[j]]
                0 <= j < arms@.len() && classify_spec(arms@[j]) == ArmType::ErrorArm && (
                extract_spec(arms@[j]) matches Some(q) && path_key(q) == k);
            assert(arms@[j] == arms@[j]);
        }
        if explicit_upto(arms@, arms@.len() as int, k) {
            let j = choose|j: int|
                #![trigger arms@[j]]
                0 <= j < arms@.len() && classify_spec(arms@[j]) == ArmType::ErrorArm && (
                extract_spec(arms@[j]) matches Some(q) && path_key(q) == k);
            assert(arms@[j] == arms@[j]);
        }
    }
    r
}

/// Whether `k` is among `keys`.
fn contains_key(keys: &Vec<String>, k: &String) -> (r: bool)
    ensures
        r == strings_view(keys@).contains(k@),
{
    for m in 0..keys.len()
        invariant
            forall|q: int| 0 <= q < m ==> #[trigger] keys@[q]@ != k@,
    {
        if keys[m] == *k {
            assert(strings_view(keys@)[m as int] == k@);
            return true;
        }
    }
    false
}

/// The first position of `k` in `keys`.
fn index_in(keys: &Vec<String>, k: &String) -> (r: Option<usize>)
    ensures
        match r {
            Some(i) => index_of(strings_view(keys@), k@) == Some(i as nat),
            None => index_of(strings_view(keys@), k@) is None,
        },
{
    let ghost ks = strings_view(keys@);
    assert(ks.skip(0) =~= ks);
    for m in 0..keys.len()
        invariant
            ks == strings_view(keys@),
            index_of(ks, k@) == (match index_of(ks.skip(m as int), k@) {
                Some(i) => Some((i + m) as nat),
                None => None,
            }),
    {
        assert(ks.skip(m as int)[0] == keys@[m as int]@);
        assert(ks.skip(m as int).drop_first() =~= ks.skip(m + 1));
        if keys[m] == *k {
            return Some(m);
        }
    }
    assert(ks.skip(keys@.len() as int) =~= Seq::<Seq<char>>::empty());
    None
}

/// The models of expanded arms.
pub open spec fn data_view(v: Seq<ErrorArmData>) -> Seq<ErrorArmView> {
    v.map_values(|d: ErrorArmData| d@)
}

/// The models of planned arms.
pub open spec fn planned_view(v: Seq<PlannedArm>) -> Seq<PlannedView> {
    v.map_values(|a: PlannedArm| a@)
}

/// No arm is refused outright.
pub open spec fn none_refused(arms: Seq<ArmPat>) -> bool {
    forall|j: int| 0 <= j < arms.len() ==> !refused(#[trigger] arms[j])
}

/// A failure at some arm is the failure of the whole expansion.
proof fn lemma_arms_failure_persists(
    m: Map<Seq<char>, Seq<PathView>>,
    all: Seq<ArmPat>,
    n: nat,
    n2: nat,
)
    requires
        n <= n2,
        expand_arms(m, all, n) is Err,
    ensures
        expand_arms(m, all, n2) == expand_arms(m, all, n),
    decreases n2,
{
    if n2 > n {
        lemma_arms_failure_persists(m, all, n, (n2 - 1) as nat);
    }
}

/// Appends the expanded arms for the members of the united error named by arm `arm`.
fn expand_members_into(
    members: &Vec<ErrorPath>,
    explicit: &Vec<String>,
    arms: &Vec<ArmPat>,
    arm: usize,
    data: &mut Vec<ErrorArmData>,
)
    requires
        forall|k: Seq<char>| #[trigger] is_explicit(arms@, k) <==> strings_view(explicit@).contains(k),
    ensures
        data_view(final(data)@) == data_view(old(data)@) + expand_members(
            paths_view(members@),
            arms@,
            arm as nat,
        ),
{
    let ghost ms = paths_view(members@);
    let ghost start = data_view(data@);
    let mut j: usize = 0;
    assert(ms.take(0) =~= Seq::<PathView>::empty());
    assert(start + Seq::<ErrorArmView>::empty() =~= start);
    while j < members.len()
        invariant
            j <= members@.len(),
            ms == paths_view(members@),
            forall|k: Seq<char>| #[trigger] is_explicit(arms@, k) <==> strings_view(explicit@).contains(k),
            data_view(data@) == start + expand_members(ms.take(j as int), arms@, arm as nat),
        decreases members@.len() - j,
    {
        let ghost prev = data_view(data@);
        assert(ms.take(j + 1).drop_last() =~= ms.take(j as int));
        assert(ms.take(j + 1).last() == members@[j as int]@);
        let key = path_to_string(&members[j]);
        if contains_key(explicit, &key) {
        } else {
            let pat = make_bare_pat(&members[j]);
            let text = strip_err_wrapper(&pat).text.clone();
            data.push(ErrorArmData { path: members[j].duplicate(), arm, text });
            assert(data_view(data@) =~= prev.push(data@[data@.len() - 1]@));
        }
        j = j + 1;
    }
    assert(ms.take(members@.len() as int) =~= ms);
}

/// Expands every error arm, united errors into their members.
fn expand_error_arms(registry: &Registry, arms: &Vec<ArmPat>) -> (r: Result<
    Vec<ErrorArmData>,
    MatchPlanError,
>)
    ensures
        match expand_arms(registry.united_members(), arms@, arms@.len() as nat) {
            Ok(d) => r matches Ok(v) && data_view(v@) == d,
            Err(ExpandFailure::UnitedCapture(i)) => r matches Err(
                MatchPlanError::UnitedCapture { arm },
            ) && arm == i,
        },
{
    let ghost m = registry.united_members();
    let explicit = explicit_keys(arms);
    let mut data: Vec<ErrorArmData> = Vec::new();
    let mut i: usize = 0;
    assert(data_view(data@) =~= Seq::<ErrorArmView>::empty());
    while i < arms.len()
        invariant
            i <= arms@.len(),
            m == registry.united_members(),
            forall|k: Seq<char>| #[trigger] is_explicit(arms@, k) <==> strings_view(explicit@).contains(k),
            expand_arms(m, arms@, i as nat) == Ok::<Seq<ErrorArmView>, ExpandFailure>(data_view(data@)),
        decreases arms@.len() - i,
    {
        let ghost prev = data_view(data@);
        let pat = &arms[i];
        if classify_pat(pat) == ArmType::ErrorArm {
            match extract_error_path(pat) {
                Some(path) => {
                    match get_united_members(registry, &path) {
                        Some(members) => {
                            if !is_bare_path(pat) {
                                proof {
                                    lemma_arms_failure_persists(m, arms@, (i + 1) as nat, arms@.len() as nat);
                                }
                                return Err(MatchPlanError::UnitedCapture { arm: i });
                            }
                            expand_members_into(&members, &explicit, arms, i, &mut data);
                        },
                        None => {
                            let stripped = strip_err_wrapper(pat);
                            let text = stripped.text.clone();
                            data.push(ErrorArmData { path, arm: i, text });
                            assert(data_view(data@) =~= prev + seq![data@[data@.len() - 1]@]);
                        },
                    }
                },
                None => {
                    assert(prev + Seq::<ErrorArmView>::empty() =~= prev);
                },
            }
        } else {
            assert(prev + Seq::<ErrorArmView>::empty() =~= prev);
        }
        i = i + 1;
    }
    Ok(data)
}

/// The position of the first `true`.
pub open spec fn first_true(s: Seq<bool>) -> Option<nat>
    decreases s.len(),
{
    if s.len() == 0 {
        None
    } else if s[0] {
        Some(0)
    } else {
        match first_true(s.drop_first()) {
            Some(i) => Some(i + 1),
            None => None,
        }
    }
}

/// Splits the input `EXPR { ARMS }` of a `match_error` that omits the
/// `match` keyword: given which top-level tokens are brace-delimited
/// groups, the position of the first one. The tokens before it are the
/// scrutinee; those after it are ignored. `None` when there is no such group.
pub fn split_match_input(is_brace: &Vec<bool>) -> (r: Option<usize>)
    ensures
        match r {
            Some(i) => first_true(is_brace@) == Some(i as nat),
            None => first_true(is_brace@) is None,
        },
{
    let ghost s = is_brace@;
    let mut i: usize = 0;
    assert(s.skip(0) =~= s);
    while i < is_brace.len()
        invariant
            s == is_brace@,
            i <= s.len(),
            first_true(s) == (match first_true(s.skip(i as int)) {
                Some(k) => Some((k + i) as nat),
                None => None,
            }),
        decreases s.len() - i,
    {
        assert(s.skip(i as int)[0] == s[i as int]);
        assert(s.skip(i as int).drop_first() =~= s.skip(i + 1));
        if is_brace[i] {
            return Some(i);
        }
        i = i + 1;
    }
    assert(s.skip(i as int) =~= Seq::<bool>::empty());
    None
}

/// The plan of a `match_error` over `arms`: refused arms are reported
/// first; then error arms naming united errors expand into one arm per
/// member (a member that another arm names explicitly is left to that arm);
/// then the error types are blind-sorted and deduplicated, and each error
/// arm is given the `Unt` position of its type. `Ok` arms come first, kept
/// as written, then the error arms in their order.
pub fn match_error(registry: &Registry, arms: &Vec<ArmPat>) -> (r: Result<MatchPlan, MatchPlanError>)
    ensures
        match r {
            Err(MatchPlanError::CatchAll { arm }) => arm < arms@.len() && classify_spec(
                arms@[arm as int],
            ) == ArmType::CatchAll && forall|j: int|
                0 <= j < arm ==> !refused(#[trigger] arms@[j]),
            Err(MatchPlanError::Unsupported { arm }) => arm < arms@.len() && classify_spec(
                arms@[arm as int],
            ) == ArmType::Unknown && forall|j: int|
                0 <= j < arm ==> !refused(#[trigger] arms@[j]),
            Err(MatchPlanError::UnitedCapture { arm }) => none_refused(arms@) && expand_arms(
                registry.united_members(),
                arms@,
                arms@.len() as nat,
            ) == Err::<Seq<ErrorArmView>, ExpandFailure>(ExpandFailure::UnitedCapture(arm as nat)),
            Err(MatchPlanError::Ambiguous(e)) => none_refused(arms@) && (expand_arms(
                registry.united_members(),
                arms@,
                arms@.len() as nat,
            ) matches Ok(d) && !no_ambiguity(data_paths(d)) && reports_first_ambiguity(
                e,
                data_paths(d),
            )),
            Ok(plan) => none_refused(arms@) && (expand_arms(
                registry.united_members(),
                arms@,
                arms@.len() as nat,
            ) matches Ok(d) && no_ambiguity(data_paths(d)) && planned_view(plan.arms@)
                == ok_planned(arms@, arms@.len() as nat) + error_planned(
                d,
                plan_keys(data_paths(d)),
            ) && plan.total == blind_plan(data_paths(d)).len()),
        },
{
    let ok_arms = match check_arms(arms) {
        Ok(v) => v,
        Err(e) => {
            return Err(e);
        },
    };
    let data = match expand_error_arms(registry, arms) {
        Ok(v) => v,
        Err(e) => {
            return Err(e);
        },
    };
    let ghost d = data_view(data@);
    let mut paths: Vec<ErrorPath> = Vec::new();
    for i in 0..data.len()
        invariant
            d == data_view(data@),
            paths_view(paths@) == data_paths(d.take(i as int)),
    {
        let ghost prev = paths_view(paths@);
        paths.push(data[i].path.duplicate());
        assert(d[i as int] == data@[i as int]@);
        assert(paths_view(paths@) =~= prev.push(d[i as int].path));
        assert(d.take(i + 1) =~= d.take(i as int).push(d[i as int]));
        assert(data_paths(d.take(i + 1)) =~= data_paths(d.take(i as int)).push(d[i as int].path));
    }
    assert(d.take(data@.len() as int) =~= d);
    let sorted = match sort_paths(paths) {
        Ok(v) => v,
        Err(e) => {
            return Err(MatchPlanError::Ambiguous(e));
        },
    };
    let unique = dedup_paths(sorted);
    let total = unique.len();
    let mut keys: Vec<String> = Vec::new();
    for i in 0..unique.len()
        invariant
            strings_view(keys@) == paths_view(unique@).take(i as int).map_values(
                |p: PathView| path_key(p),
            ),
    {
        let ghost prev = strings_view(keys@);
        keys.push(path_to_string(&unique[i]));
        assert(paths_view(unique@)[i as int] == unique@[i as int]@);
        assert(strings_view(keys@) =~= prev.push(path_key(unique@[i as int]@)));
        assert(paths_view(unique@).take(i + 1) =~= paths_view(unique@).take(i as int).push(
            unique@[i as int]@,
        ));
        assert(strings_view(keys@) =~= paths_view(unique@).take(i + 1).map_values(
            |p: PathView| path_key(p),
        ));
    }
    assert(paths_view(unique@).take(unique@.len() as int) =~= paths_view(unique@));
    assert(strings_view(keys@) == plan_keys(data_paths(d)));
    let ghost ks = strings_view(keys@);
    let ghost oks = planned_view(ok_arms@);
    let mut planned = ok_arms;
    assert(d.take(0) =~= Seq::<ErrorArmView>::empty());
    assert(planned_view(planned@) =~= oks + error_planned(d.take(0), ks));
    for i in 0..data.len()
        invariant
            d == data_view(data@),
            ks == strings_view(keys@),
            planned_view(planned@) == oks + error_planned(d.take(i as int), ks),
    {
        let key = path_to_string(&data[i].path);
        assert(d.take(i + 1).drop_last() =~= d.take(i as int));
        assert(d.take(i + 1).last() == data@[i as int]@);
        let ghost prev = planned_view(planned@);
        let ghost last = d.take(i + 1).last();
        assert(last == data@[i as int]@);
        assert(key@ == path_key(last.path));
        match index_in(&keys, &key) {
            Some(idx) => {
                let pattern = build_unt_pattern(idx, total, data[i].text.as_str());
                planned.push(PlannedArm::ErrorArm { arm: data[i].arm, index: idx, pattern });
                assert(error_planned(d.take(i + 1), ks) == error_planned(d.take(i as int), ks).push(
                    PlannedView::ErrorArm {
                        arm: last.arm,
                        index: idx as nat,
                        pattern: pattern_text(idx as nat, last.text),
                    },
                ));
                assert(planned_view(planned@) =~= prev.push(planned@[planned@.len() - 1]@));
                assert(planned_view(planned@) =~= oks + error_planned(d.take(i + 1), ks));
            },
            None => {
                assert(error_planned(d.take(i + 1), ks) == error_planned(d.take(i as int), ks));
            },
        }
    }
    assert(d.take(data@.len() as int) =~= d);
    Ok(MatchPlan { arms: planned, total })
}

/// `all` with its arm `i` unwrapped from `Err(..)`.
pub open spec fn err_unwrapped(all: Seq<ArmPat>, i: int) -> Seq<ArmPat> {
    all.update(i, strip_spec(all[i]))
}

/// The arm at `i` is `Err(X)` for a pattern `X` that names, without any
/// `Err(..)` of its own, an error type that is not a united error.
pub open spec fn err_around_plain_error(m: Map<Seq<char>, Seq<PathView>>, all: Seq<ArmPat>, i: int) -> bool {
    &&& 0 <= i < all.len()
    &&& all[i].kind matches PatKind::TupleStruct { path, first } && is_err_path(path@) && first is Some
    &&& classify_spec(strip_spec(all[i])) == ArmType::ErrorArm
    &&& strip_spec(strip_spec(all[i])) == strip_spec(all[i])
    &&& extract_spec(strip_spec(all[i])) matches Some(q) && united_lookup(m, q) is None
}

proof fn lemma_unwrapped_arm(m: Map<Seq<char>, Seq<PathView>>, all: Seq<ArmPat>, i: int)
    requires
        err_around_plain_error(m, all, i),
    ensures
        forall|j: int| 0 <= j < all.len() ==> classify_spec(#[trigger] err_unwrapped(all, i)[j]) == classify_spec(all[j]),
        forall|j: int| 0 <= j < all.len() ==> extract_spec(#[trigger] err_unwrapped(all, i)[j]) == extract_spec(all[j]),
        forall|k: Seq<char>| #[trigger] is_explicit(all, k) == is_explicit(err_unwrapped(all, i), k),
        err_unwrapped(all, i).len() == all.len(),
{
    let b = err_unwrapped(all, i);
    let x = strip_spec(all[i]);
    assert(b[i] == x);
    reveal_strlit("Ok");
    reveal_strlit("Err");
    let path = all[i].kind->TupleStruct_path;
    assert(path@.segments[0].ident == "Err"@);
    assert(!is_ok_path(path@)) by {
        assert("Err"@[0] != "Ok"@[0]);
    }
    assert(classify_spec(all[i]) == ArmType::ErrorArm);
    assert(extract_spec(all[i]) == extract_spec(x));
    assert forall|j: int| 0 <= j < all.len() implies classify_spec(#[trigger] b[j]) == classify_spec(all[j])
        && extract_spec(b[j]) == extract_spec(all[j]) by {
        if j != i {
            assert(b[j] == all[j]);
        }
    }
    assert forall|k: Seq<char>| #[trigger] is_explicit(all, k) == is_explicit(b, k) by {
        if is_explicit(all, k) {
            let j = choose|j: int|
                #![trigger all[j]]
                0 <= j < all.len() && classify_spec(all[j]) == ArmType::ErrorArm && (extract_spec(
                    all[j],
                ) matches Some(q) && path_key(q) == k);
            assert(classify_spec(b[j]) == classify_spec(all[j]));
        }
        if is_explicit(b, k) {
            let j = choose|j: int|
                #![trigger b[j]]
                0 <= j < b.len() && classify_spec(b[j]) == ArmType::ErrorArm && (extract_spec(b[j]) matches Some(
                    q,
                ) && path_key(q) == k);
            assert(classify_spec(b[j]) == classify_spec(all[j]));
        }
    }
}

proof fn lemma_members_same_explicit(ms: Seq<PathView>, a: Seq<ArmPat>, b: Seq<ArmPat>, i: nat)
    requires
        forall|k: Seq<char>| #[trigger] is_explicit(a, k) == is_explicit(b, k),
    ensures
        expand_members(ms, a, i) == expand_members(ms, b, i),
    decreases ms.len(),
{
    if ms.len() > 0 {
        lemma_members_same_explicit(ms.drop_last(), a, b, i);
        assert(is_explicit(a, path_key(ms.last())) == is_explicit(b, path_key(ms.last())));
    }
}

proof fn lemma_expand_unwrapped(m: Map<Seq<char>, Seq<PathView>>, all: Seq<ArmPat>, i: int, n: nat)
    requires
        err_around_plain_error(m, all, i),
        n <= all.len(),
    ensures
        expand_arms(m, all, n) == expand_arms(m, err_unwrapped(all, i), n),
        ok_planned(all, n) == ok_planned(err_unwrapped(all, i), n),
    decreases n,
{
    let b = err_unwrapped(all, i);
    lemma_unwrapped_arm(m, all, i);
    if n > 0 {
        lemma_expand_unwrapped(m, all, i, (n - 1) as nat);
        let j = n - 1;
        assert(classify_spec(b[j]) == classify_spec(all[j]));
        if j == i {
            let x = strip_spec(all[i]);
            assert(b[j] == x);
            assert(strip_spec(all[i]) == x);
            assert(expand_one(m, all, j as nat, all[j]) == expand_one(m, b, j as nat, b[j]));
        } else {
            assert(b[j] == all[j]);
            let pat = all[j];
            if classify_spec(pat) == ArmType::ErrorArm && extract_spec(pat) is Some {
                let q = extract_spec(pat)->0;
                if united_lookup(m, q) is Some && is_bare_spec(pat) {
                    lemma_members_same_explicit(united_lookup(m, q)->0, all, b, j as nat);
                }
            }
            assert(expand_one(m, all, j as nat, all[j]) == expand_one(m, b, j as nat, b[j]));
        }
    }
}

/// Law (a hand-written `Err(..)` is stripped, never doubled): writing an
/// arm as `Err(X)` or as `X`, where `X` names an error type that is not a
/// united error, gives the same plan: every arm is classed alike, the error
/// arms expand alike (to `X`'s type and pattern) and the `Ok` arms are the
/// same, which is all that the contract of `match_error` reads.
pub proof fn law_err_wrapper_is_transparent(m: Map<Seq<char>, Seq<PathView>>, all: Seq<ArmPat>, i: int)
    requires
        err_around_plain_error(m, all, i),
    ensures
        err_unwrapped(all, i).len() == all.len(),
        forall|j: int|
            0 <= j < all.len() ==> classify_spec(#[trigger] err_unwrapped(all, i)[j]) == classify_spec(
                all[j],
            ),
        none_refused(all) == none_refused(err_unwrapped(all, i)),
        expand_arms(m, all, all.len() as nat) == expand_arms(
            m,
            err_unwrapped(all, i),
            all.len() as nat,
        ),
        ok_planned(all, all.len() as nat) == ok_planned(err_unwrapped(all, i), all.len() as nat),
{
    lemma_unwrapped_arm(m, all, i);
    lemma_expand_unwrapped(m, all, i, all.len() as nat);
    let b = err_unwrapped(all, i);
    assert(none_refused(all) == none_refused(b)) by {
        if none_refused(all) {
            assert forall|j: int| 0 <= j < b.len() implies !refused(#[trigger] b[j]) by {
                assert(classify_spec(b[j]) == classify_spec(all[j]));
                assert(!refused(all[j]));
            }
        }
        if none_refused(b) {
            assert forall|j: int| 0 <= j < all.len() implies !refused(#[trigger] all[j]) by {
                assert(classify_spec(b[j]) == classify_spec(all[j]));
                assert(!refused(b[j]));
            }
        }
    }
}

} // verus!
