//! Reading the input of `match_error`: either a whole `match` expression, or
//! `EXPR { ARMS }` without the `match` keyword.

use vstd::prelude::*;
use quote::ToTokens;
use crate::text::{join_with, push_text, text_of};
use crate::path::{PathShape, shape, join_strings, path_model};
use crate::registry::strings_view;
use crate::match_arms::{ArmPat, PatKind, first_true, split_match_input};

verus! {

#[verifier::external_type_specification]
#[verifier::external_body]
pub struct ExSynPat(syn::Pat);

/// The shape of a pattern: what arm planning reads of it, without its text.
pub enum PatShape {
    TupleStruct { path: PathShape, first: Option<Box<PatShape>> },
    Path(PathShape),
    Wild,
    Ident(Seq<char>),
    Struct(PathShape),
    Other,
}

/// The shape of a pattern model.
pub open spec fn pat_shape(p: ArmPat) -> PatShape
    decreases p,
{
    match p.kind {
        PatKind::TupleStruct { path, first } => PatShape::TupleStruct {
            path: shape(path@),
            first: if first is Some {
                Some(Box::new(pat_shape(*first->0)))
            } else {
                None
            },
        },
        PatKind::Path(path) => PatShape::Path(shape(path@)),
        PatKind::Wild => PatShape::Wild,
        PatKind::Ident(name) => PatShape::Ident(name@),
        PatKind::Struct(path) => PatShape::Struct(shape(path@)),
        PatKind::Other => PatShape::Other,
    }
}

/// One arm of the input: its pattern, and the printed text of its guard
/// expression (empty when there is none) and of its body.
#[derive(Debug)]
pub struct MatchArmInput {
    pub pat: ArmPat,
    pub guard: String,
    pub body: String,
}

/// A `match` expression as arm planning reads it: the printed text of the
/// scrutinee, and the arms.
#[derive(Debug)]
pub struct MatchInput {
    pub scrutinee: String,
    pub arms: Vec<MatchArmInput>,
}

/// The shape of an arm: the shape of its pattern, and whether it has a guard.
pub struct ArmShape {
    pub pat: PatShape,
    pub has_guard: bool,
}

/// The shapes of the arms, in order; an arm has a guard exactly where its
/// guard text is not empty.
pub open spec fn arm_shapes(m: MatchInput) -> Seq<ArmShape> {
    m.arms@.map_values(|a: MatchArmInput| ArmShape { pat: pat_shape(a.pat), has_guard: a.guard@.len() > 0 })
}

/// What `syn` reads from the text of a `match` expression, as the shapes of
/// its arms (`None` where the text is not a `match` expression).
pub uninterp spec fn syn_parse_match(text: Seq<char>) -> Option<Seq<ArmShape>>;

/// Converts a `syn` pattern, and the first element of a tuple-struct
/// pattern, into the library's model; texts are printed token streams.
#[verifier::external_body]
fn pat_model(p: &syn::Pat) -> ArmPat {
    let kind = match p {
        syn::Pat::TupleStruct(t) => PatKind::TupleStruct {
            path: path_model(&t.path),
            first: t.elems.first().map(|e| Box::new(pat_model(e))),
        },
        syn::Pat::Path(q) => PatKind::Path(path_model(&q.path)),
        syn::Pat::Wild(_) => PatKind::Wild,
        syn::Pat::Ident(i) => PatKind::Ident(i.ident.to_string()),
        syn::Pat::Struct(s) => PatKind::Struct(path_model(&s.path)),
        _ => PatKind::Other,
    };
    ArmPat { kind, text: p.to_token_stream().to_string() }
}

/// Parses `text` with `syn::parse_str::<syn::ExprMatch>` and converts it.
///
/// The contract names the shapes of the arms (patterns, and which arms
/// have a guard, whose printed text is never empty); the printed texts of
/// the scrutinee, patterns, guards and bodies depend on the printer in use
/// and are not stated.
#[verifier::external_body]
pub(crate) fn parse_match_text(text: &str) -> (r: Option<MatchInput>)
    ensures
        r matches Some(m) ==> syn_parse_match(text@) == Some(arm_shapes(m)),
        r is None ==> syn_parse_match(text@) is None,
{
    let m = syn::parse_str::<syn::ExprMatch>(text).ok()?;
    let arms = m.arms.iter().map(|a| MatchArmInput {
        pat: pat_model(&a.pat),
        guard: a.guard.as_ref().map(|g| g.1.to_token_stream().to_string()).unwrap_or_default(),
        body: a.body.to_token_stream().to_string(),
    }).collect();
    Some(MatchInput { scrutinee: m.expr.to_token_stream().to_string(), arms })
}

/// Why the input of `match_error` cannot be read.
#[derive(Debug, Clone, Copy, PartialEq, Eq, Structural)]
pub enum MatchInputError {
    /// Not a `match` expression, and no `{ .. }` block follows the expression.
    NoBlock,
    /// The input, with `match` put before it, does not parse.
    Syntax,
}

/// The input as one text: its top-level tokens separated by spaces.
pub open spec fn full_text(tokens: Seq<String>) -> Seq<char> {
    join_with(strings_view(tokens), " "@)
}

/// `match EXPR { ARMS }` rebuilt from the tokens before the block at `i`
/// and the block itself; the tokens after it are left out.
pub open spec fn rebuilt_text(tokens: Seq<String>, i: int) -> Seq<char> {
    "match "@ + join_with(strings_view(tokens).take(i), " "@) + " "@ + tokens[i]@
}

/// What reading the tokens gives: the whole input as a `match` expression
/// if it is one, else `match` put before the tokens up to the first block.
pub open spec fn match_read(
    tokens: Seq<String>,
    is_brace: Seq<bool>,
    r: Result<MatchInput, MatchInputError>,
) -> bool {
    match r {
        Ok(m) => syn_parse_match(full_text(tokens)) == Some(arm_shapes(m)) || (syn_parse_match(
            full_text(tokens),
        ) is None && (first_true(is_brace) matches Some(i) && syn_parse_match(
            rebuilt_text(tokens, i as int),
        ) == Some(arm_shapes(m)))),
        Err(MatchInputError::NoBlock) => syn_parse_match(full_text(tokens)) is None && first_true(
            is_brace,
        ) is None,
        Err(MatchInputError::Syntax) => syn_parse_match(full_text(tokens)) is None && (first_true(
            is_brace,
        ) matches Some(i) && syn_parse_match(rebuilt_text(tokens, i as int)) is None),
    }
}

/// Reads the input of `match_error`, given the printed text of each
/// top-level token (a run of joint punctuation as one token) and which of
/// them are `{ .. }` groups: the whole input as a `match` expression, or
/// else `match` put before the tokens up to the first block.
pub fn parse_match_expr(tokens: &Vec<String>, is_brace: &Vec<bool>) -> (r: Result<
    MatchInput,
    MatchInputError,
>)
    requires
        tokens@.len() == is_brace@.len(),
    ensures
        match_read(tokens@, is_brace@, r),
{
    let full = join_strings(tokens, " ");
    match parse_match_text(full.as_str()) {
        Some(m) => {
            return Ok(m);
        },
        None => {},
    }
    let at = match split_match_input(is_brace) {
        Some(i) => i,
        None => {
            return Err(MatchInputError::NoBlock);
        },
    };
    proof {
        assert(first_true(is_brace@) == Some(at as nat));
        lemma_first_true_bound(is_brace@);
    }
    let mut before: Vec<String> = Vec::new();
    let mut k: usize = 0;
    while k < at
        invariant
            at < tokens@.len(),
            k <= at,
            strings_view(before@) == strings_view(tokens@).take(k as int),
        decreases at - k,
    {
        let ghost prev = strings_view(before@);
        before.push(tokens[k].clone());
        assert(strings_view(before@) =~= prev.push(tokens@[k as int]@));
        assert(strings_view(tokens@).take(k + 1) =~= strings_view(tokens@).take(k as int).push(
            tokens@[k as int]@,
        ));
        k = k + 1;
    }
    let mut text = text_of("match ");
    push_text(&mut text, join_strings(&before, " ").as_str());
    push_text(&mut text, " ");
    push_text(&mut text, tokens[at].as_str());
    assert(text@ == rebuilt_text(tokens@, at as int));
    match parse_match_text(text.as_str()) {
        Some(m) => Ok(m),
        None => Err(MatchInputError::Syntax),
    }
}

/// The position of the first `true` is a position of the sequence.
proof fn lemma_first_true_bound(s: Seq<bool>)
    ensures
        first_true(s) matches Some(i) ==> i < s.len() && s[i as int],
    decreases s.len(),
{
    if s.len() > 0 && !s[0] {
        lemma_first_true_bound(s.drop_first());
    }
}

/// Joining a first part before the others puts one separator after it.
proof fn lemma_join_prepend(x: Seq<char>, ys: Seq<Seq<char>>, sep: Seq<char>)
    requires
        ys.len() > 0,
    ensures
        join_with(seq![x] + ys, sep) == x + sep + join_with(ys, sep),
    decreases ys.len(),
{
    let all = seq![x] + ys;
    if ys.len() == 1 {
        assert(all.drop_last() =~= seq![x]);
        assert(join_with(all, sep) == join_with(all.drop_last(), sep) + sep + all.last());
    } else {
        lemma_join_prepend(x, ys.drop_last(), sep);
        assert(all.drop_last() =~= seq![x] + ys.drop_last());
        assert(join_with(all, sep) == join_with(all.drop_last(), sep) + sep + all.last());
        assert(join_with(ys, sep) == join_with(ys.drop_last(), sep) + sep + ys.last());
        assert(join_with(all, sep) =~= x + sep + join_with(ys, sep));
    }
}

/// The first block is the last token where no other token is a block.
proof fn lemma_first_true_last(s: Seq<bool>)
    requires
        s.len() > 0,
        s.last(),
        forall|k: int| 0 <= k < s.len() - 1 ==> !#[trigger] s[k],
    ensures
        first_true(s) == Some((s.len() - 1) as nat),
    decreases s.len(),
{
    if s.len() > 1 {
        let t = s.drop_first();
        assert forall|k: int| 0 <= k < t.len() - 1 implies !#[trigger] t[k] by {
            assert(t[k] == s[k + 1]);
        }
        lemma_first_true_last(t);
        assert(!s[0]);
    }
}

/// Law (both syntaxes read alike): `match EXPR { ARMS }` and `EXPR { ARMS }`
/// hand `syn` the same text, so where the first parses both give arms of
/// the same shapes, and where it does not the second is refused. `EXPR` is
/// at least one token, none of them a block, and is not itself a `match`
/// expression followed by the block.
pub proof fn law_both_syntaxes_read_alike(
    long: Seq<String>,
    long_brace: Seq<bool>,
    short: Seq<String>,
    short_brace: Seq<bool>,
    r1: Result<MatchInput, MatchInputError>,
    r2: Result<MatchInput, MatchInputError>,
)
    requires
        short.len() >= 2,
        long.len() == short.len() + 1,
        long[0]@ == "match"@,
        forall|k: int| 0 <= k < short.len() ==> #[trigger] long[k + 1]@ == short[k]@,
        short_brace.len() == short.len(),
        short_brace.last(),
        forall|k: int| 0 <= k < short.len() - 1 ==> !#[trigger] short_brace[k],
        syn_parse_match(full_text(short)) is None,
        match_read(long, long_brace, r1),
        match_read(short, short_brace, r2),
    ensures
        syn_parse_match(full_text(long)) is Some ==> (r1 matches Ok(m1) && r2 matches Ok(m2)
            && arm_shapes(m1) == arm_shapes(m2)),
        syn_parse_match(full_text(long)) is None ==> r2 == Err::<MatchInput, MatchInputError>(
            MatchInputError::Syntax,
        ),
{
    let n = short.len();
    let sv = strings_view(short);
    assert(strings_view(long) =~= seq!["match"@] + sv) by {
        assert forall|k: int| 0 <= k < long.len() implies #[trigger] strings_view(long)[k] == (
        seq!["match"@] + sv)[k] by {
            if k > 0 {
                assert(long[(k - 1) + 1]@ == short[k - 1]@);
            }
        }
    }
    lemma_join_prepend("match"@, sv, " "@);
    assert(sv.take(n - 1) =~= sv.drop_last());
    assert(join_with(sv, " "@) == join_with(sv.drop_last(), " "@) + " "@ + sv.last());
    reveal_strlit("match");
    reveal_strlit("match ");
    reveal_strlit(" ");
    assert("match "@ =~= "match"@ + " "@);
    assert(full_text(long) =~= rebuilt_text(short, n - 1));
    lemma_first_true_last(short_brace);
}

} // verus!
