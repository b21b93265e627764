//! The `united_error` expansion: a zero-sized struct that stands for a set
//! of error types, with its members recorded for the other expansions.

use vstd::prelude::*;
use crate::text::{join_with, push_text, text_of};
use crate::path::{
    ErrorPath, PathView, paths_view, path_text, render_path, join_strings, shapes,
    syn_parse_path_list, parse_path_list,
};
use crate::registry::{Registry, register_united_error, strings_view, copy_paths};

verus! {

/// The source texts of the member paths.
pub open spec fn member_texts(s: Seq<PathView>) -> Seq<Seq<char>> {
    s.map_values(|p: PathView| path_text(p))
}

/// The struct that a united error becomes: a unit struct, so zero-sized,
/// carrying its members in the `__struct_error_members` attribute.
pub open spec fn united_struct_spec(vis: Seq<char>, ident: Seq<char>, members: Seq<PathView>) -> Seq<
    char,
> {
    "#[::macro_magic::export_tokens]\n#[::struct_error::__struct_error_members("@ + join_with(
        member_texts(members),
        ", "@,
    ) + ")]\n"@ + vis + " struct "@ + ident + ";\n"@
}

/// The `united_error` expansion: records `ident` as standing for `members`
/// and returns the unit struct that replaces the item.
pub fn united_error(registry: &mut Registry, vis: &str, ident: &str, members: &Vec<ErrorPath>) -> (r: String)
    ensures
        r@ == united_struct_spec(vis@, ident@, paths_view(members@)),
        final(registry).united_members() == old(registry).united_members().insert(
            ident@,
            paths_view(members@),
        ),
        final(registry).error_types() == old(registry).error_types(),
{
    let ghost s = paths_view(members@);
    let mut texts: Vec<String> = Vec::new();
    for i in 0..members.len()
        invariant
            s == paths_view(members@),
            strings_view(texts@) == member_texts(s.take(i as int)),
    {
        let ghost prev = strings_view(texts@);
        texts.push(render_path(&members[i]));
        assert(s[i as int] == members@[i as int]@);
        assert(strings_view(texts@) =~= prev.push(path_text(s[i as int])));
        assert(s.take(i + 1) =~= s.take(i as int).push(s[i as int]));
        assert(member_texts(s.take(i + 1)) =~= member_texts(s.take(i as int)).push(
            path_text(s[i as int]),
        ));
    }
    assert(s.take(members@.len() as int) =~= s);
    let joined = join_strings(&texts, ", ");
    let mut r = text_of("#[::macro_magic::export_tokens]\n#[::struct_error::__struct_error_members(");
    push_text(&mut r, joined.as_str());
    push_text(&mut r, ")]\n");
    push_text(&mut r, vis);
    push_text(&mut r, " struct ");
    push_text(&mut r, ident);
    push_text(&mut r, ";\n");
    register_united_error(registry, ident, copy_paths(members));
    r
}

/// The member list of a `united_error` attribute does not parse as a
/// comma-separated list of paths.
#[derive(Debug, Clone, Copy, PartialEq, Eq, Structural)]
pub struct MemberListError;

/// The `united_error` expansion from the attribute's text: the member list
/// is parsed as comma-separated paths; where it does not parse, nothing is
/// registered and the error is returned.
pub fn united_error_input(registry: &mut Registry, vis: &str, ident: &str, attr_text: &str) -> (r:
    Result<String, MemberListError>)
    ensures
        syn_parse_path_list(attr_text@) is None <==> r is Err,
        r is Err ==> *final(registry) == *old(registry),
        r matches Ok(out) ==> exists|v: Seq<PathView>|
            #![trigger shapes(v)]
            crate::blind_laws::well_formed_paths(v) && syn_parse_path_list(attr_text@) == Some(shapes(v)) && out@ == united_struct_spec(
                vis@,
                ident@,
                v,
            ) && final(registry).united_members() == old(registry).united_members().insert(
                ident@,
                v,
            ) && final(registry).error_types() == old(registry).error_types(),
{
    match parse_path_list(attr_text) {
        Some(members) => {
            let out = united_error(registry, vis, ident, &members);
            assert(syn_parse_path_list(attr_text@) == Some(shapes(paths_view(members@))));
            Ok(out)
        },
        None => Err(MemberListError),
    }
}

/// The kind of a visibility: none written, `pub`, or `pub(..)`.
#[derive(Debug, Clone, Copy, PartialEq, Eq, Structural)]
pub enum VisKind {
    Inherited,
    Public,
    Restricted,
}

/// The shape of a struct item's head: the kind of its visibility and its name.
pub struct StructHeadShape {
    pub vis: VisKind,
    pub ident: Seq<char>,
}

/// What `syn` reads as the head of a struct item written as `text` (`None`
/// where the text is not a struct item).
pub uninterp spec fn syn_struct_head(text: Seq<char>) -> Option<StructHeadShape>;

/// The head of a struct item: the printed text and the kind of its
/// visibility, and its name.
#[derive(Debug)]
pub struct StructHead {
    pub vis: String,
    pub vis_kind: VisKind,
    pub ident: String,
}

/// The printed visibility fits its kind: nothing where none is written,
/// `pub` for `pub`. (How `pub(..)` is spaced is left to the printer.)
pub open spec fn vis_text_fits(kind: VisKind, vis: Seq<char>) -> bool {
    &&& kind == VisKind::Inherited ==> vis == Seq::<char>::empty()
    &&& kind == VisKind::Public ==> vis == "pub"@
}

/// Parses `text` with `syn::parse_str::<syn::ItemStruct>` and takes its
/// visibility and name. The contract names the shape of the head, and the
/// printed visibility where it does not depend on the printer.
#[verifier::external_body]
fn parse_struct_head(text: &str) -> (r: Option<StructHead>)
    ensures
        r matches Some(h) ==> syn_struct_head(text@) == Some(
            StructHeadShape { vis: h.vis_kind, ident: h.ident@ },
        ) && vis_text_fits(h.vis_kind, h.vis@),
        r is None ==> syn_struct_head(text@) is None,
{
    let item = syn::parse_str::<syn::ItemStruct>(text).ok()?;
    let vis_kind = match &item.vis {
        syn::Visibility::Inherited => VisKind::Inherited,
        syn::Visibility::Public(_) => VisKind::Public,
        syn::Visibility::Restricted(_) => VisKind::Restricted,
    };
    let vis = quote::ToTokens::to_token_stream(&item.vis).to_string();
    Some(StructHead { vis, vis_kind, ident: item.ident.to_string() })
}

/// Why a `united_error` cannot be expanded.
#[derive(Debug, Clone, Copy, PartialEq, Eq, Structural)]
pub enum UnitedInputError {
    /// The item is not a struct.
    Item,
    /// The attribute is not a comma-separated list of paths.
    Members,
}

/// The `united_error` expansion from the text of the item and of the
/// attribute: the struct is read first, then its member list; where either
/// does not parse, nothing is registered and the error is returned.
pub fn united_error_item(registry: &mut Registry, item_text: &str, attr_text: &str) -> (r: Result<
    String,
    UnitedInputError,
>)
    ensures
        syn_struct_head(item_text@) is None <==> r == Err::<String, UnitedInputError>(
            UnitedInputError::Item,
        ),
        (syn_struct_head(item_text@) is Some && syn_parse_path_list(attr_text@) is None) <==> r
            == Err::<String, UnitedInputError>(UnitedInputError::Members),
        r is Err ==> *final(registry) == *old(registry),
        r matches Ok(out) ==> exists|vis: Seq<char>, v: Seq<PathView>|
            #![trigger united_struct_spec(vis, syn_struct_head(item_text@)->0.ident, v)]
            vis_text_fits(syn_struct_head(item_text@)->0.vis, vis) && crate::blind_laws::well_formed_paths(v)
                && syn_parse_path_list(
                attr_text@,
            ) == Some(shapes(v)) && out@ == united_struct_spec(
                vis,
                syn_struct_head(item_text@)->0.ident,
                v,
            ) && final(registry).united_members() == old(registry).united_members().insert(
                syn_struct_head(item_text@)->0.ident,
                v,
            ) && final(registry).error_types() == old(registry).error_types(),
{
    let head = match parse_struct_head(item_text) {
        Some(h) => h,
        None => {
            return Err(UnitedInputError::Item);
        },
    };
    let ghost ident = syn_struct_head(item_text@)->0.ident;
    assert(ident == head.ident@);
    assert(vis_text_fits(syn_struct_head(item_text@)->0.vis, head.vis@));
    match united_error_input(registry, head.vis.as_str(), head.ident.as_str(), attr_text) {
        Ok(out) => Ok(out),
        Err(_) => Err(UnitedInputError::Members),
    }
}

} // verus!
