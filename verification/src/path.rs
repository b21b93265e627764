//! The library's own model of a Rust type path such as `db::Timeout` or
//! `::errors::Wrapped<T>`, with the rendering and naming rules used when
//! error types are sorted, deduplicated and matched.

use vstd::prelude::*;
use crate::text::{join_with, push_text, same_text, text_of};

verus! {

/// One segment of a path: its identifier and the source text of its generic
/// arguments (empty when it has none).
#[derive(Debug)]
pub struct PathSegment {
    pub ident: String,
    pub args: String,
}

/// A type path: an optional leading `::` and its segments.
#[derive(Debug)]
pub struct ErrorPath {
    pub leading_colon: bool,
    pub segments: Vec<PathSegment>,
}

/// Mathematical model of a segment.
pub struct SegmentView {
    pub ident: Seq<char>,
    pub args: Seq<char>,
}

/// Mathematical model of a path.
pub struct PathView {
    pub leading_colon: bool,
    pub segments: Seq<SegmentView>,
}

impl View for PathSegment {
    type V = SegmentView;

    open spec fn view(&self) -> SegmentView {
        SegmentView { ident: self.ident@, args: self.args@ }
    }
}

impl View for ErrorPath {
    type V = PathView;

    open spec fn view(&self) -> PathView {
        PathView {
            leading_colon: self.leading_colon,
            segments: self.segments@.map_values(|s: PathSegment| s@),
        }
    }
}

/// The models of a sequence of paths.
pub open spec fn paths_view(v: Seq<ErrorPath>) -> Seq<PathView> {
    v.map_values(|p: ErrorPath| p@)
}

/// The identifiers of a path, generic arguments dropped: what the blind
/// order compares.
pub open spec fn idents(p: PathView) -> Seq<Seq<char>> {
    p.segments.map_values(|s: SegmentView| s.ident)
}

/// The normalised name of a path: its identifiers joined by `::`.
pub open spec fn path_key(p: PathView) -> Seq<char> {
    join_with(idents(p), "::"@)
}

/// The source text of a segment.
pub open spec fn segment_text(s: SegmentView) -> Seq<char> {
    s.ident + s.args
}

/// The source text of a path, generic arguments kept.
pub open spec fn path_text(p: PathView) -> Seq<char> {
    (if p.leading_colon { "::"@ } else { Seq::empty() }) + join_with(
        p.segments.map_values(|s: SegmentView| segment_text(s)),
        "::"@,
    )
}

/// A path of one plain identifier, as written in a pattern such as `NotFound`.
pub open spec fn single_ident_path(name: Seq<char>) -> PathView {
    PathView {
        leading_colon: false,
        segments: seq![SegmentView { ident: name, args: Seq::empty() }],
    }
}

/// `path.is_ident(name)`: no leading `::`, one segment, no generic arguments.
pub open spec fn path_is_ident_spec(p: PathView, name: Seq<char>) -> bool {
    &&& !p.leading_colon
    &&& p.segments.len() == 1
    &&& p.segments[0].ident == name
    &&& p.segments[0].args.len() == 0
}

/// The path `Ok`, with no generic arguments.
pub open spec fn is_ok_path(p: PathView) -> bool {
    &&& p.segments.len() == 1
    &&& p.segments[0].ident == "Ok"@
    &&& p.segments[0].args.len() == 0
}

/// The path `Err`, with no generic arguments.
pub open spec fn is_err_path(p: PathView) -> bool {
    &&& p.segments.len() == 1
    &&& p.segments[0].ident == "Err"@
    &&& p.segments[0].args.len() == 0
}

/// The shape of a segment: its identifier, and whether it has generic
/// arguments. What the arguments' text looks like is left to the printer.
pub struct SegmentShape {
    pub ident: Seq<char>,
    pub has_args: bool,
}

/// The shape of a path: its leading `::` and the shapes of its segments.
pub struct PathShape {
    pub leading_colon: bool,
    pub segments: Seq<SegmentShape>,
}

/// The shape of a path model.
pub open spec fn shape(p: PathView) -> PathShape {
    PathShape {
        leading_colon: p.leading_colon,
        segments: p.segments.map_values(
            |s: SegmentView| SegmentShape { ident: s.ident, has_args: s.args.len() > 0 },
        ),
    }
}

/// The shapes of a sequence of path models.
pub open spec fn shapes(s: Seq<PathView>) -> Seq<PathShape> {
    s.map_values(|p: PathView| shape(p))
}

#[verifier::external_type_specification]
#[verifier::external_body]
pub struct ExSynPath(syn::Path);

/// Converts a `syn` path into the library's model, the arguments of a
/// segment by their printed text (empty where there are none).
#[verifier::external_body]
pub(crate) fn path_model(p: &syn::Path) -> ErrorPath {
    ErrorPath {
        leading_colon: p.leading_colon.is_some(),
        segments: p.segments.iter().map(|s| PathSegment {
            ident: s.ident.to_string(),
            args: quote::ToTokens::to_token_stream(&s.arguments).to_string(),
        }).collect(),
    }
}

/// What `syn` reads from a comma-separated list of paths, as shapes
/// (`None` where the text is not such a list).
pub uninterp spec fn syn_parse_path_list(text: Seq<char>) -> Option<Seq<PathShape>>;

/// Parses `text` with `Punctuated::<syn::Path, syn::token::Comma>::parse_terminated`
/// and converts each path, the arguments of a segment by their printed text.
///
/// The contract names the shapes of the result, and states that every
/// identifier `syn` reads is non-empty and free of `:`; the printed text of
/// generic arguments is not stated, beyond being empty exactly where a
/// segment has none.
#[verifier::external_body]
pub(crate) fn parse_path_list(text: &str) -> (r: Option<Vec<ErrorPath>>)
    ensures
        r matches Some(v) ==> syn_parse_path_list(text@) == Some(shapes(paths_view(v@))),
        r matches Some(v) ==> crate::blind_laws::well_formed_paths(paths_view(v@)),
        r is None ==> syn_parse_path_list(text@) is None,
{
    let list = syn::parse::Parser::parse_str(
        syn::punctuated::Punctuated::<syn::Path, syn::token::Comma>::parse_terminated,
        text,
    ).ok()?;
    Some(list.iter().map(path_model).collect())
}

/// A call path that ends in `Ok` with no generic arguments, however it is
/// qualified (`Ok`, `Result::Ok`, `::core::result::Result::Ok`).
pub open spec fn ends_in_ok(p: PathView) -> bool {
    &&& p.segments.len() > 0
    &&& p.segments.last().ident == "Ok"@
    &&& p.segments.last().args.len() == 0
}

/// A call path that ends in `Err` with no generic arguments.
pub open spec fn ends_in_err(p: PathView) -> bool {
    &&& p.segments.len() > 0
    &&& p.segments.last().ident == "Err"@
    &&& p.segments.last().args.len() == 0
}

/// Whether the path ends in `Ok` with no generic arguments.
pub fn path_ends_in_ok(path: &ErrorPath) -> (r: bool)
    ensures
        r == ends_in_ok(path@),
{
    let n = path.segments.len();
    n > 0 && same_text(path.segments[n - 1].ident.as_str(), "Ok")
        && path.segments[n - 1].args.unicode_len() == 0
}

/// Whether the path ends in `Err` with no generic arguments.
pub fn path_ends_in_err(path: &ErrorPath) -> (r: bool)
    ensures
        r == ends_in_err(path@),
{
    let n = path.segments.len();
    n > 0 && same_text(path.segments[n - 1].ident.as_str(), "Err")
        && path.segments[n - 1].args.unicode_len() == 0
}

impl PathSegment {
    /// A copy of the segment.
    pub fn duplicate(&self) -> (r: PathSegment)
        ensures
            r@ == self@,
    {
        PathSegment { ident: self.ident.clone(), args: self.args.clone() }
    }
}

impl ErrorPath {
    /// A copy of the path.
    pub fn duplicate(&self) -> (r: ErrorPath)
        ensures
            r@ == self@,
    {
        let mut segments: Vec<PathSegment> = Vec::new();
        let n = self.segments.len();
        for i in 0..n
            invariant
                n == self.segments.len(),
                segments@.len() == i,
                forall|j: int| 0 <= j < i ==> #[trigger] segments@[j]@ == self.segments@[j]@,
        {
            segments.push(self.segments[i].duplicate());
        }
        let r = ErrorPath { leading_colon: self.leading_colon, segments };
        assert(r@.segments =~= self@.segments);
        r
    }

    /// A path made of one identifier, as `syn::Path::from(ident)` builds it.
    pub fn from_ident(name: &str) -> (r: ErrorPath)
        ensures
            r@ == single_ident_path(name@),
    {
        let mut segments: Vec<PathSegment> = Vec::new();
        segments.push(PathSegment { ident: text_of(name), args: String::new() });
        let r = ErrorPath { leading_colon: false, segments };
        assert(r@.segments =~= single_ident_path(name@).segments);
        r
    }

    /// The same path without its leading `::`.
    pub fn without_leading_colon(self) -> (r: ErrorPath)
        ensures
            r@ == (PathView { leading_colon: false, ..self@ }),
    {
        ErrorPath { leading_colon: false, segments: self.segments }
    }
}

/// The identifiers of a path, without generic arguments.
pub fn extract_segments(path: &ErrorPath) -> (r: Vec<String>)
    ensures
        r@.map_values(|s: String| s@) == idents(path@),
{
    let mut r: Vec<String> = Vec::new();
    let n = path.segments.len();
    for i in 0..n
        invariant
            n == path.segments.len(),
            r@.len() == i,
            forall|j: int| 0 <= j < i ==> #[trigger] r@[j]@ == path.segments@[j].ident@,
    {
        r.push(path.segments[i].ident.clone());
    }
    assert(r@.map_values(|s: String| s@) =~= idents(path@));
    r
}

/// Joins the strings with `sep`.
pub fn join_strings(parts: &Vec<String>, sep: &str) -> (r: String)
    ensures
        r@ == join_with(parts@.map_values(|s: String| s@), sep@),
{
    let ghost v = parts@.map_values(|s: String| s@);
    let mut r = String::new();
    let n = parts.len();
    for i in 0..n
        invariant
            n == parts@.len(),
            v == parts@.map_values(|s: String| s@),
            r@ == join_with(v.take(i as int), sep@),
    {
        assert(v.take(i + 1).drop_last() =~= v.take(i as int));
        if i != 0 {
            push_text(&mut r, sep);
        } else {
            assert(r@ =~= Seq::<char>::empty());
        }
        push_text(&mut r, parts[i].as_str());
        assert(r@ =~= join_with(v.take(i + 1), sep@));
    }
    assert(v.take(n as int) =~= v);
    r
}

/// The normalised name of a path: its identifiers joined by `::`.
pub fn path_to_string(path: &ErrorPath) -> (r: String)
    ensures
        r@ == path_key(path@),
{
    let segs = extract_segments(path);
    join_strings(&segs, "::")
}

/// The source text of a path, generic arguments and leading `::` kept.
pub fn render_path(path: &ErrorPath) -> (r: String)
    ensures
        r@ == path_text(path@),
{
    let mut parts: Vec<String> = Vec::new();
    let n = path.segments.len();
    for i in 0..n
        invariant
            n == path.segments.len(),
            parts@.len() == i,
            forall|j: int|
                0 <= j < i ==> #[trigger] parts@[j]@ == segment_text(path.segments@[j]@),
    {
        let mut t = path.segments[i].ident.clone();
        push_text(&mut t, path.segments[i].args.as_str());
        parts.push(t);
    }
    assert(parts@.map_values(|s: String| s@) =~= path@.segments.map_values(
        |s: SegmentView| segment_text(s),
    ));
    let body = join_strings(&parts, "::");
    let mut r = if path.leading_colon {
        text_of("::")
    } else {
        String::new()
    };
    push_text(&mut r, body.as_str());
    r
}

/// Whether the path is the single identifier `name`.
pub fn path_is_ident(path: &ErrorPath, name: &str) -> (r: bool)
    ensures
        r == path_is_ident_spec(path@, name@),
{
    !path.leading_colon && path.segments.len() == 1 && same_text(
        path.segments[0].ident.as_str(),
        name,
    ) && path.segments[0].args.unicode_len() == 0
}

/// Whether the path is `Ok` with no generic arguments.
pub fn is_path_ok(path: &ErrorPath) -> (r: bool)
    ensures
        r == is_ok_path(path@),
{
    path.segments.len() == 1 && same_text(path.segments[0].ident.as_str(), "Ok")
        && path.segments[0].args.unicode_len() == 0
}

/// Whether the path is `Err` with no generic arguments.
pub fn is_path_err(path: &ErrorPath) -> (r: bool)
    ensures
        r == is_err_path(path@),
{
    path.segments.len() == 1 && same_text(path.segments[0].ident.as_str(), "Err")
        && path.segments[0].args.unicode_len() == 0
}

} // verus!
