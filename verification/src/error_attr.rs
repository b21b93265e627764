//! The `error` expansion: reading the message format from the attribute,
//! and generating the `Display` and `Error` impls of the error struct.

use vstd::prelude::*;
use vstd::string::*;
use quote::ToTokens;
use crate::text::{push_text, text_of};
use crate::path::{
    ErrorPath, PathShape, path_is_ident, path_is_ident_spec, path_model, paths_view, shapes,
};
use crate::registry::{Registry, register_error_type};

verus! {

/// The library's model of an attribute token, with its printed text.
#[derive(Debug)]
pub enum AttrToken {
    /// A literal, by its source text (a string literal keeps its quotes).
    Literal(String),
    /// A delimited group: its printed text and the tokens inside it.
    Group { text: String, inner: Vec<AttrToken> },
    /// Any other token; `joint` for punctuation written against the next
    /// token (the first `:` of `::`).
    Other { text: String, joint: bool },
}

/// The printed text of a token.
pub open spec fn token_text(t: AttrToken) -> Seq<char> {
    match t {
        AttrToken::Literal(l) => l@,
        AttrToken::Group { text, .. } => text@,
        AttrToken::Other { text, .. } => text@,
    }
}

/// What separates a token from the next: nothing after joint punctuation,
/// a space otherwise.
pub open spec fn separator(t: AttrToken) -> Seq<char> {
    if t matches AttrToken::Other { joint, .. } && joint {
        Seq::empty()
    } else {
        " "@
    }
}

/// The printed text of a sequence of tokens.
pub open spec fn tokens_text(ts: Seq<AttrToken>) -> Seq<char>
    decreases ts.len(),
{
    if ts.len() == 0 {
        Seq::empty()
    } else if ts.len() == 1 {
        token_text(ts[0])
    } else {
        tokens_text(ts.drop_last()) + separator(ts[ts.len() - 2]) + token_text(ts.last())
    }
}

/// The tokens from the third on, as text (nothing when there are fewer).
pub open spec fn after_two(ts: Seq<AttrToken>) -> Seq<char> {
    if ts.len() >= 2 {
        tokens_text(ts.skip(2))
    } else {
        Seq::empty()
    }
}

/// The format arguments of an attribute, as text: the tokens after the
/// format literal and its comma, at top level or inside the first group.
pub open spec fn args_text(tokens: Seq<AttrToken>) -> Seq<char> {
    if tokens.len() == 0 {
        Seq::empty()
    } else {
        match tokens[0] {
            AttrToken::Literal(_) => after_two(tokens),
            AttrToken::Group { inner, .. } => if inner@.len() > 0 && inner@[0] is Literal {
                after_two(inner@)
            } else {
                Seq::empty()
            },
            AttrToken::Other { .. } => Seq::empty(),
        }
    }
}

/// Where the format arguments are: none, the top-level tokens from the
/// third on, or the tokens of the first group from the third on. (The first
/// two tokens are the format literal and the comma after it.)
#[derive(Debug, Clone, Copy, PartialEq, Eq, Structural)]
pub enum ArgsAt {
    NoArgs,
    TopLevel,
    InGroup,
}

/// The message format read from an `error` attribute.
#[derive(Debug)]
pub struct ErrorAttr {
    /// The format: the value of its string literal (the unquoted text of
    /// any other literal, or the struct's name when there is none).
    pub format: String,
    /// Where its arguments are.
    pub args: ArgsAt,
}

/// The text of a literal with one pair of enclosing double quotes removed.
pub open spec fn strip_quotes_spec(s: Seq<char>) -> Seq<char> {
    if s.len() >= 2 && s[0] == '"' && s[s.len() - 1] == '"' {
        s.subrange(1, s.len() - 1)
    } else {
        s
    }
}

/// What `syn::LitStr` reads as the value of a string literal written as
/// `text`: escapes decoded, a raw string unwrapped (`None` where `text` is
/// not one string literal).
pub uninterp spec fn str_literal_value(text: Seq<char>) -> Option<Seq<char>>;

/// Parses `text` with `syn::parse_str::<syn::LitStr>` and takes `value()`.
#[verifier::external_body]
fn literal_value(text: &str) -> (r: Option<String>)
    ensures
        r matches Some(v) ==> str_literal_value(text@) == Some(v@),
        r is None ==> str_literal_value(text@) is None,
{
    syn::parse_str::<syn::LitStr>(text).ok().map(|l| l.value())
}

/// The format that a literal of the attribute gives: the value of a string
/// literal; the text of any other literal, with a pair of enclosing double
/// quotes removed.
pub open spec fn literal_format(lit: Seq<char>) -> Seq<char> {
    match str_literal_value(lit) {
        Some(v) => v,
        None => strip_quotes_spec(lit),
    }
}

/// The format of an attribute, as `(format, where the arguments are)`:
/// the struct's name when the attribute is empty or starts with neither a
/// literal nor a group that starts with a literal.
pub open spec fn error_attr_spec(tokens: Seq<AttrToken>, name: Seq<char>) -> (Seq<char>, ArgsAt) {
    if tokens.len() == 0 {
        (name, ArgsAt::NoArgs)
    } else {
        match tokens[0] {
            AttrToken::Literal(lit) => (literal_format(lit@), ArgsAt::TopLevel),
            AttrToken::Group { inner: g, .. } => if g@.len() > 0 {
                match g@[0] {
                    AttrToken::Literal(lit) => (literal_format(lit@), ArgsAt::InGroup),
                    _ => (name, ArgsAt::NoArgs),
                }
            } else {
                (name, ArgsAt::NoArgs)
            },
            AttrToken::Other { .. } => (name, ArgsAt::NoArgs),
        }
    }
}

/// Removes one pair of enclosing double quotes from a literal's text.
pub fn strip_quotes(s: &str) -> (r: String)
    ensures
        r@ == strip_quotes_spec(s@),
{
    let n = s.unicode_len();
    if n >= 2 && s.get_char(0) == '"' && s.get_char(n - 1) == '"' {
        text_of(s.substring_char(1, n - 1))
    } else {
        text_of(s)
    }
}

/// The format that a literal's text gives.
pub fn format_of_literal(lit: &str) -> (r: String)
    ensures
        r@ == literal_format(lit@),
{
    match literal_value(lit) {
        Some(v) => v,
        None => strip_quotes(lit),
    }
}

/// Reads the message format from the tokens of an `error` attribute.
pub fn parse_error_attr(tokens: &Vec<AttrToken>, struct_name: &str) -> (r: ErrorAttr)
    ensures
        (r.format@, r.args) == error_attr_spec(tokens@, struct_name@),
{
    if tokens.len() == 0 {
        return ErrorAttr { format: text_of(struct_name), args: ArgsAt::NoArgs };
    }
    match &tokens[0] {
        AttrToken::Literal(lit) => ErrorAttr { format: format_of_literal(lit.as_str()), args: ArgsAt::TopLevel },
        AttrToken::Group { inner: g, .. } => {
            if g.len() > 0 {
                match &g[0] {
                    AttrToken::Literal(lit) => {
                        return ErrorAttr {
                            format: format_of_literal(lit.as_str()),
                            args: ArgsAt::InGroup,
                        };
                    },
                    _ => {},
                }
            }
            ErrorAttr { format: text_of(struct_name), args: ArgsAt::NoArgs }
        },
        AttrToken::Other { .. } => ErrorAttr { format: text_of(struct_name), args: ArgsAt::NoArgs },
    }
}

/// The printed text of a token.
fn token_str(t: &AttrToken) -> (r: &str)
    ensures
        r@ == token_text(*t),
{
    match t {
        AttrToken::Literal(l) => l.as_str(),
        AttrToken::Group { text, .. } => text.as_str(),
        AttrToken::Other { text, .. } => text.as_str(),
    }
}

/// The tokens of `ts` from position `from` on, as text.
pub fn render_tokens(ts: &Vec<AttrToken>, from: usize) -> (r: String)
    requires
        from <= ts@.len(),
    ensures
        r@ == tokens_text(ts@.skip(from as int)),
{
    let mut r = String::new();
    let mut i = from;
    assert(ts@.subrange(from as int, from as int) =~= Seq::<AttrToken>::empty());
    while i < ts.len()
        invariant
            from <= i <= ts@.len(),
            r@ == tokens_text(ts@.subrange(from as int, i as int)),
        decreases ts@.len() - i,
    {
        let ghost part = ts@.subrange(from as int, i + 1);
        assert(part.drop_last() =~= ts@.subrange(from as int, i as int));
        assert(part.last() == ts@[i as int]);
        if i > from {
            assert(part[part.len() - 2] == ts@[i - 1]);
            let joint = match &ts[i - 1] {
                AttrToken::Other { joint, .. } => *joint,
                _ => false,
            };
            if !joint {
                push_text(&mut r, " ");
            }
        } else {
            assert(r@ =~= Seq::<char>::empty());
        }
        push_text(&mut r, token_str(&ts[i]));
        assert(r@ =~= tokens_text(part));
        i = i + 1;
    }
    assert(ts@.subrange(from as int, ts@.len() as int) =~= ts@.skip(from as int));
    r
}

/// The format arguments of an attribute, as text.
pub fn attr_args(tokens: &Vec<AttrToken>) -> (r: String)
    ensures
        r@ == args_text(tokens@),
{
    if tokens.len() == 0 {
        return String::new();
    }
    match &tokens[0] {
        AttrToken::Literal(_) => if tokens.len() >= 2 {
            render_tokens(tokens, 2)
        } else {
            String::new()
        },
        AttrToken::Group { inner, .. } => {
            if inner.len() > 0 {
                match &inner[0] {
                    AttrToken::Literal(_) => {
                        return if inner.len() >= 2 {
                            render_tokens(inner, 2)
                        } else {
                            String::new()
                        };
                    },
                    _ => {},
                }
            }
            String::new()
        },
        AttrToken::Other { .. } => String::new(),
    }
}

/// Writes `s` as a string literal with `syn::LitStr::new(..).token()`.
/// The contract states that the literal's value is `s`; how characters are
/// escaped depends on the printer in use and is not stated.
#[verifier::external_body]
fn string_literal_text(s: &str) -> (r: String)
    ensures
        str_literal_value(r@) == Some(s@),
{
    syn::LitStr::new(s, proc_macro2::Span::call_site()).token().to_string()
}

/// The generics of an impl header, as source text.
#[derive(Debug)]
pub struct ImplGenerics {
    pub impl_generics: String,
    pub ty_generics: String,
    pub where_clause: String,
}

/// `impl<..> TRAIT for NAME<..> WHERE` with the trait's path.
pub open spec fn impl_header_spec(g: ImplGenerics, trait_path: Seq<char>, ident: Seq<char>) -> Seq<
    char,
> {
    "impl"@ + g.impl_generics@ + " "@ + trait_path + " for "@ + ident + g.ty_generics@ + " "@
        + g.where_clause@
}

/// The `Display` impl that writes the message.
pub open spec fn display_impl_spec(
    g: ImplGenerics,
    ident: Seq<char>,
    format_lit: Seq<char>,
    args: Seq<char>,
) -> Seq<char> {
    impl_header_spec(g, "::core::fmt::Display"@, ident)
        + " {\n    fn fmt(&self, f: &mut ::core::fmt::Formatter<'_>) -> ::core::fmt::Result {\n        write!(f, "@
        + format_lit + (if args.len() == 0 {
        Seq::empty()
    } else {
        ", "@ + args
    }) + ")\n    }\n}\n"@
}

/// The `Error` impl, with `source` returning the marked field if there is one.
pub open spec fn error_impl_spec(g: ImplGenerics, ident: Seq<char>, source: Option<Seq<char>>) -> Seq<
    char,
> {
    match source {
        Some(f) => impl_header_spec(g, "::core::error::Error"@, ident)
            + " {\n    fn source(&self) -> Option<&(dyn ::core::error::Error + 'static)> {\n        Some(&self."@
            + f + ")\n    }\n}\n"@,
        None => impl_header_spec(g, "::core::error::Error"@, ident) + " {}\n"@,
    }
}

/// Writes `impl<..> TRAIT for NAME<..> WHERE`.
fn impl_header(g: &ImplGenerics, trait_path: &str, ident: &str) -> (r: String)
    ensures
        r@ == impl_header_spec(*g, trait_path@, ident@),
{
    let mut r = text_of("impl");
    push_text(&mut r, g.impl_generics.as_str());
    push_text(&mut r, " ");
    push_text(&mut r, trait_path);
    push_text(&mut r, " for ");
    push_text(&mut r, ident);
    push_text(&mut r, g.ty_generics.as_str());
    push_text(&mut r, " ");
    push_text(&mut r, g.where_clause.as_str());
    r
}

/// Generates the `Display` impl: `write!(f, FORMAT)`, or `write!(f, FORMAT, ARGS)`
/// when there are argument tokens.
pub fn generate_display(g: &ImplGenerics, ident: &str, format: &str, args: &str) -> (r: String)
    ensures
        exists|lit: Seq<char>|
            #![trigger str_literal_value(lit)]
            str_literal_value(lit) == Some(format@) && r@ == display_impl_spec(*g, ident@, lit, args@),
{
    let lit = string_literal_text(format);
    let mut r = impl_header(g, "::core::fmt::Display", ident);
    push_text(
        &mut r,
        " {\n    fn fmt(&self, f: &mut ::core::fmt::Formatter<'_>) -> ::core::fmt::Result {\n        write!(f, ",
    );
    push_text(&mut r, lit.as_str());
    if args.unicode_len() != 0 {
        push_text(&mut r, ", ");
        push_text(&mut r, args);
    }
    push_text(&mut r, ")\n    }\n}\n");
    assert(str_literal_value(lit@) == Some(format@));
    r
}

/// A field of the error struct: its name (none in a tuple struct) and the
/// paths of its attributes.
#[derive(Debug)]
pub struct FieldInfo {
    pub ident: Option<String>,
    pub attrs: Vec<ErrorPath>,
}

/// Some attribute of the field is `error_source`.
pub open spec fn marks_source(f: FieldInfo) -> bool {
    exists|k: int|
        0 <= k < f.attrs@.len() && path_is_ident_spec(#[trigger] f.attrs@[k]@, "error_source"@)
}

/// The last of the first `n` fields marked `error_source`.
pub open spec fn source_field_spec(fields: Seq<FieldInfo>, n: nat) -> Option<nat>
    decreases n,
{
    if n == 0 {
        None
    } else if marks_source(fields[n - 1]) {
        Some((n - 1) as nat)
    } else {
        source_field_spec(fields, (n - 1) as nat)
    }
}

/// The chosen field is one of the first `n`.
pub proof fn lemma_source_field_bound(fields: Seq<FieldInfo>, n: nat)
    ensures
        source_field_spec(fields, n) matches Some(i) ==> i < n && marks_source(fields[i as int]),
    decreases n,
{
    if n > 0 {
        lemma_source_field_bound(fields, (n - 1) as nat);
    }
}

/// Whether the field carries an `error_source` attribute.
fn field_marks_source(f: &FieldInfo) -> (r: bool)
    ensures
        r == marks_source(*f),
{
    for k in 0..f.attrs.len()
        invariant
            forall|q: int| 0 <= q < k ==> !path_is_ident_spec(#[trigger] f.attrs@[q]@, "error_source"@),
    {
        if path_is_ident(&f.attrs[k], "error_source") {
            return true;
        }
    }
    false
}

/// The position of the field marked `error_source`; the last one wins when
/// several are marked.
pub fn find_source_field(fields: &Vec<FieldInfo>) -> (r: Option<usize>)
    ensures
        match r {
            Some(i) => source_field_spec(fields@, fields@.len() as nat) == Some(i as nat),
            None => source_field_spec(fields@, fields@.len() as nat) is None,
        },
{
    let mut i = fields.len();
    while i > 0
        invariant
            i <= fields@.len(),
            source_field_spec(fields@, fields@.len() as nat) == source_field_spec(fields@, i as nat),
        decreases i,
    {
        if field_marks_source(&fields[i - 1]) {
            return Some(i - 1);
        }
        i = i - 1;
    }
    None
}

/// The decimal digit `d` as text.
pub open spec fn digit_text(d: nat) -> Seq<char> {
    if d == 0 {
        "0"@
    } else if d == 1 {
        "1"@
    } else if d == 2 {
        "2"@
    } else if d == 3 {
        "3"@
    } else if d == 4 {
        "4"@
    } else if d == 5 {
        "5"@
    } else if d == 6 {
        "6"@
    } else if d == 7 {
        "7"@
    } else if d == 8 {
        "8"@
    } else {
        "9"@
    }
}

/// The decimal numeral of `n`.
pub open spec fn decimal(n: nat) -> Seq<char>
    decreases n,
{
    if n < 10 {
        digit_text(n)
    } else {
        decimal(n / 10) + digit_text(n % 10)
    }
}

/// The text of the digit `d`.
fn digit_str(d: usize) -> (r: &'static str)
    requires
        d < 10,
    ensures
        r@ == digit_text(d as nat),
{
    if d == 0 {
        "0"
    } else if d == 1 {
        "1"
    } else if d == 2 {
        "2"
    } else if d == 3 {
        "3"
    } else if d == 4 {
        "4"
    } else if d == 5 {
        "5"
    } else if d == 6 {
        "6"
    } else if d == 7 {
        "7"
    } else if d == 8 {
        "8"
    } else {
        "9"
    }
}

/// The decimal numeral of `n`, as a field position is written (`self.0`).
pub fn decimal_text(n: usize) -> (r: String)
    ensures
        r@ == decimal(n as nat),
    decreases n,
{
    if n < 10 {
        text_of(digit_str(n))
    } else {
        let mut r = decimal_text(n / 10);
        push_text(&mut r, digit_str(n % 10));
        r
    }
}

/// Generates the `Error` impl; `source` is the field that `source()`
/// returns, as written after `self.` (a name, or a tuple position).
pub fn generate_error(g: &ImplGenerics, ident: &str, source: Option<&str>) -> (r: String)
    ensures
        r@ == error_impl_spec(*g, ident@, match source {
            Some(f) => Some(f@),
            None => None,
        }),
{
    let mut r = impl_header(g, "::core::error::Error", ident);
    match source {
        Some(f) => {
            push_text(
                &mut r,
                " {\n    fn source(&self) -> Option<&(dyn ::core::error::Error + 'static)> {\n        Some(&self.",
            );
            push_text(&mut r, f);
            push_text(&mut r, ")\n    }\n}\n");
        },
        None => {
            push_text(&mut r, " {}\n");
        },
    }
    r
}

/// The field that `source()` returns, as written after `self.`: the last
/// field marked `error_source`, by its name, or by its position in a tuple
/// struct.
pub open spec fn source_access(fields: Seq<FieldInfo>) -> Option<Seq<char>> {
    match source_field_spec(fields, fields.len() as nat) {
        Some(i) => Some(
            match fields[i as int].ident {
                Some(f) => f@,
                None => decimal(i),
            },
        ),
        None => None,
    }
}

/// Whether an attribute of the struct is kept: all but `error` itself.
pub fn keep_struct_attr(path: &ErrorPath) -> (r: bool)
    ensures
        r == !path_is_ident_spec(path@, "error"@),
{
    !path_is_ident(path, "error")
}

/// Whether an attribute of a field is kept: all but `error_source`.
pub fn keep_field_attr(path: &ErrorPath) -> (r: bool)
    ensures
        r == !path_is_ident_spec(path@, "error_source"@),
{
    !path_is_ident(path, "error_source")
}

/// The error struct as the `error` expansion reads it.
#[derive(Debug)]
pub struct ErrorItem {
    pub ident: String,
    pub generics: ImplGenerics,
    pub fields: Vec<FieldInfo>,
}

/// What the `error` expansion adds beside the struct.
#[derive(Debug)]
pub struct ErrorExpansion {
    /// The message format read from the attribute.
    pub attr: ErrorAttr,
    /// The attribute put on the struct so that other expansions can read
    /// its tokens.
    pub export_attr: String,
    /// The `Display` impl.
    pub display_impl: String,
    /// The `Error` impl.
    pub error_impl: String,
}

/// What the `error` expansion of `item` under the attribute tokens `attr`
/// gives, and does to the registry (`before` and `after` the call).
pub open spec fn error_outcome(
    before: Registry,
    after: Registry,
    item: ErrorItem,
    attr: Seq<AttrToken>,
    e: ErrorExpansion,
) -> bool {
    &&& (e.attr.format@, e.attr.args) == error_attr_spec(attr, item.ident@)
    &&& e.export_attr@ == "#[::macro_magic::export_tokens]"@
    &&& exists|lit: Seq<char>|
        #![trigger str_literal_value(lit)]
        str_literal_value(lit) == Some(e.attr.format@) && e.display_impl@ == display_impl_spec(
            item.generics,
            item.ident@,
            lit,
            args_text(attr),
        )
    &&& e.error_impl@ == error_impl_spec(item.generics, item.ident@, source_access(item.fields@))
    &&& after.error_types() == before.error_types().insert(item.ident@)
    &&& after.united_members() == before.united_members()
}

/// The `error` expansion: reads the format and its arguments from the
/// attribute tokens, generates the `Display` and `Error` impls, and
/// registers the error type.
pub fn error(registry: &mut Registry, item: &ErrorItem, attr: &Vec<AttrToken>) -> (r: ErrorExpansion)
    ensures
        error_outcome(*old(registry), *final(registry), *item, attr@, r),
{
    proof {
        lemma_source_field_bound(item.fields@, item.fields@.len() as nat);
    }
    let format = parse_error_attr(attr, item.ident.as_str());
    let args = attr_args(attr);
    let display_impl = generate_display(
        &item.generics,
        item.ident.as_str(),
        format.format.as_str(),
        args.as_str(),
    );
    let error_impl = match find_source_field(&item.fields) {
        Some(i) => match &item.fields[i].ident {
            Some(f) => generate_error(&item.generics, item.ident.as_str(), Some(f.as_str())),
            None => {
                let position = decimal_text(i);
                generate_error(&item.generics, item.ident.as_str(), Some(position.as_str()))
            },
        },
        None => generate_error(&item.generics, item.ident.as_str(), None),
    };
    register_error_type(registry, item.ident.as_str());
    ErrorExpansion {
        attr: format,
        export_attr: text_of("#[::macro_magic::export_tokens]"),
        display_impl,
        error_impl,
    }
}

/// The shape of a field: its name, if any, and the shapes of its
/// attributes' paths.
pub struct FieldShape {
    pub ident: Option<Seq<char>>,
    pub attrs: Seq<PathShape>,
}

/// The shape of an error struct: its name and the shapes of its fields.
/// The text of its generics is left to the printer.
pub struct ErrorItemShape {
    pub ident: Seq<char>,
    pub fields: Seq<FieldShape>,
}

/// The shape of a field model.
pub open spec fn field_shape(f: FieldInfo) -> FieldShape {
    FieldShape {
        ident: match f.ident {
            Some(n) => Some(n@),
            None => None,
        },
        attrs: shapes(paths_view(f.attrs@)),
    }
}

/// The shape of a struct model.
pub open spec fn item_shape(i: ErrorItem) -> ErrorItemShape {
    ErrorItemShape { ident: i.ident@, fields: i.fields@.map_values(|f: FieldInfo| field_shape(f)) }
}

/// What `syn` reads from a struct item written as `text`, as its shape
/// (`None` where the text is not a struct item).
pub uninterp spec fn syn_error_item(text: Seq<char>) -> Option<ErrorItemShape>;

/// Parses `text` with `syn::parse_str::<syn::ItemStruct>` and converts it:
/// the generics split for an impl by their printed text, each field by its
/// name and its attributes' paths.
///
/// The contract names the shape of the result; the printed text of the
/// generics is not stated.
#[verifier::external_body]
pub(crate) fn parse_error_item(text: &str) -> (r: Option<ErrorItem>)
    ensures
        r matches Some(i) ==> syn_error_item(text@) == Some(item_shape(i)),
        r is None ==> syn_error_item(text@) is None,
{
    let s = syn::parse_str::<syn::ItemStruct>(text).ok()?;
    let (i, t, w) = s.generics.split_for_impl();
    Some(ErrorItem {
        ident: s.ident.to_string(),
        generics: ImplGenerics {
            impl_generics: i.to_token_stream().to_string(),
            ty_generics: t.to_token_stream().to_string(),
            where_clause: w.to_token_stream().to_string(),
        },
        fields: s.fields.iter().map(|f| FieldInfo {
            ident: f.ident.as_ref().map(|x| x.to_string()),
            attrs: f.attrs.iter().map(|a| path_model(a.path())).collect(),
        }).collect(),
    })
}

/// The item of an `error` attribute is not a struct.
#[derive(Debug, Clone, Copy, PartialEq, Eq, Structural)]
pub struct ErrorInputError;

/// The `error` expansion from the text of the item: the struct is read
/// with `syn`, then expanded as `error` expands it; where it does not
/// parse, nothing is registered and the error is returned.
pub fn error_input(registry: &mut Registry, attr: &Vec<AttrToken>, item_text: &str) -> (r: Result<
    ErrorExpansion,
    ErrorInputError,
>)
    ensures
        syn_error_item(item_text@) is None <==> r is Err,
        r is Err ==> *final(registry) == *old(registry),
        r matches Ok(e) ==> exists|item: ErrorItem|
            #![trigger item_shape(item)]
            syn_error_item(item_text@) == Some(item_shape(item)) && error_outcome(
                *old(registry),
                *final(registry),
                item,
                attr@,
                e,
            ),
{
    match parse_error_item(item_text) {
        Some(item) => {
            let ghost before = *registry;
            let e = error(registry, &item, attr);
            assert(syn_error_item(item_text@) == Some(item_shape(item)));
            assert(error_outcome(before, *registry, item, attr@, e));
            Ok(e)
        },
        None => Err(ErrorInputError),
    }
}

} // verus!
