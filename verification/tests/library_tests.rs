use struct_error::error_attr::{
    find_source_field, generate_display, generate_error, keep_field_attr, keep_struct_attr,
    parse_error_attr, strip_quotes, error, error_input, attr_args, format_of_literal, decimal_text,
    ErrorInputError, ArgsAt, AttrToken,
    ErrorItem, FieldInfo, ImplGenerics,
};
use struct_error::match_arms::{
    classify_pat, extract_error_path, is_bare_path, is_error_path, match_error, split_match_input,
    strip_err_wrapper, ArmPat, ArmType, MatchPlanError, PatKind, PlannedArm,
};
use struct_error::path::{
    is_path_err, is_path_ok, path_ends_in_ok, path_is_ident, path_to_string, render_path, ErrorPath,
    PathSegment,
};
use struct_error::match_input::{parse_match_expr, MatchInputError};
use struct_error::throws::{throws_input, ThrowsInputError};
use struct_error::united::{united_error_input, united_error_item, UnitedInputError};
use struct_error::registry::{
    get_united_members, is_united_error, register_error_type, register_united_error,
    resolve_error_paths, Registry,
};
use struct_error::sort::{
    build_unt_nesting, build_unt_pattern, build_unt_type, compare_paths_blind, dedup_paths,
    find_first_ambiguity, sort_paths,
};
use struct_error::text::{is_pascal_case, str_order, PathOrder};
use struct_error::throws::{
    generate_into_trait, is_err_expr, is_ok_expr, throws, try_rewrite_text, wrap_expr, ExprHead,
};

fn seg(ident: &str, args: &str) -> PathSegment {
    PathSegment { ident: ident.to_string(), args: args.to_string() }
}

fn path(text: &str) -> ErrorPath {
    ErrorPath { leading_colon: false, segments: text.split("::").map(|s| seg(s, "")).collect() }
}

fn names(v: &[ErrorPath]) -> Vec<String> {
    v.iter().map(path_to_string).collect()
}

fn bare(name: &str) -> ArmPat {
    ArmPat { kind: PatKind::Ident(name.to_string()), text: name.to_string() }
}

fn ok_arm() -> ArmPat {
    ArmPat {
        kind: PatKind::TupleStruct {
            path: path("Ok"),
            first: Some(Box::new(ArmPat { kind: PatKind::Ident("v".to_string()), text: "v".to_string() })),
        },
        text: "Ok(v)".to_string(),
    }
}

fn other(text: &str) -> AttrToken {
    AttrToken::Other { text: text.to_string(), joint: false }
}

fn joint(text: &str) -> AttrToken {
    AttrToken::Other { text: text.to_string(), joint: true }
}

fn no_generics() -> ImplGenerics {
    ImplGenerics { impl_generics: String::new(), ty_generics: String::new(), where_clause: String::new() }
}

#[test]
fn blind_order_compares_last_segment_first() {
    assert_eq!(compare_paths_blind(&path("a::Zeta"), &path("z::Alpha")), Some(PathOrder::Greater));
    assert_eq!(compare_paths_blind(&path("db::Timeout"), &path("net::Timeout")), Some(PathOrder::Less));
    assert_eq!(compare_paths_blind(&path("x::A"), &path("x::A")), Some(PathOrder::Equal));
    assert_eq!(compare_paths_blind(&path("Timeout"), &path("db::Timeout")), None);
    assert_eq!(compare_paths_blind(&path("db::Timeout"), &path("Timeout")), None);
}

#[test]
fn blind_order_is_antisymmetric_on_concrete_paths() {
    let a = path("db::Timeout");
    let b = path("NotFound");
    assert_eq!(compare_paths_blind(&a, &b), Some(PathOrder::Greater));
    assert_eq!(compare_paths_blind(&b, &a), Some(PathOrder::Less));
}

#[test]
fn sort_orders_by_tail_then_prefix_and_strips_leading_colons() {
    let mut colon = path("net::Timeout");
    colon.leading_colon = true;
    let sorted = sort_paths(vec![colon, path("NotFound"), path("db::Timeout")]).unwrap();
    assert_eq!(names(&sorted), vec!["NotFound", "db::Timeout", "net::Timeout"]);
    assert!(sorted.iter().all(|p| !p.leading_colon));
}

#[test]
fn sort_is_stable_for_equal_names() {
    let mut generic = path("Wrapped");
    generic.segments[0].args = "< u8 >".to_string();
    let sorted = sort_paths(vec![path("B"), generic, path("A"), path("Wrapped")]).unwrap();
    assert_eq!(render_path(&sorted[0]), "A");
    assert_eq!(render_path(&sorted[1]), "B");
    assert_eq!(render_path(&sorted[2]), "Wrapped< u8 >");
    assert_eq!(render_path(&sorted[3]), "Wrapped");
}

#[test]
fn sort_reports_the_first_ambiguous_pair() {
    let err = sort_paths(vec![path("A"), path("Timeout"), path("db::Timeout")]).unwrap_err();
    assert_eq!(err.base, "Timeout");
    assert_eq!(err.first, "Timeout");
    assert_eq!(err.second, "db::Timeout");
    assert_eq!(find_first_ambiguity(&vec![path("X"), path("a::X"), path("b::a::X")]), Some((0, 1)));
    assert_eq!(find_first_ambiguity(&vec![path("a::X"), path("b::X")]), None);
}

#[test]
fn dedup_keeps_first_of_each_name() {
    let mut colon = path("A");
    colon.leading_colon = true;
    let mut generic = path("A");
    generic.segments[0].args = "< T >".to_string();
    let kept = dedup_paths(vec![colon, path("B"), generic, path("A")]);
    assert_eq!(kept.len(), 2);
    assert!(kept[0].leading_colon);
    assert_eq!(names(&kept), vec!["A", "B"]);
}

#[test]
fn plan_order_depends_only_on_the_set() {
    let reg = Registry::new();
    let a = throws(&reg, &vec![path("C"), path("a::B"), path("A"), path("C")], "u8").unwrap();
    let b = throws(&reg, &vec![path("A"), path("C"), path("a::B")], "u8").unwrap();
    assert_eq!(names(&a.paths), names(&b.paths));
    assert_eq!(names(&a.paths), vec!["A", "a::B", "C"]);
    assert_eq!(a.unt_type, b.unt_type);
}

#[test]
fn unt_builders_write_the_expected_text() {
    assert_eq!(build_unt_type(&vec![]), "::struct_error::End");
    assert_eq!(
        build_unt_type(&vec![path("A"), path("m::B")]),
        "::struct_error::Unt<A, ::struct_error::Unt<m::B, ::struct_error::End>>"
    );
    assert_eq!(build_unt_nesting(0, 3, "x"), "::struct_error::Unt::Here(x)");
    assert_eq!(
        build_unt_nesting(2, 3, "x"),
        "::struct_error::Unt::There(::struct_error::Unt::There(::struct_error::Unt::Here(x)))"
    );
    assert_eq!(
        build_unt_pattern(1, 2, "NotFound { id }"),
        "::core::result::Result::Err(::struct_error::Unt::There(::struct_error::Unt::Here(NotFound { id })))"
    );
}

#[test]
fn into_trait_is_empty_without_errors() {
    assert_eq!(generate_into_trait(&vec![]), "");
    let t = generate_into_trait(&vec![path("A")]);
    assert!(t.starts_with("trait __StructErrorInto {\n    fn into_unt(self) -> ::struct_error::Unt<A, ::struct_error::End>;\n}\n"));
    assert!(t.contains("impl __StructErrorInto for ::struct_error::End"));
    assert!(t.contains("impl<H, T> __StructErrorInto for ::struct_error::Unt<H, T>"));
}

#[test]
fn throws_reports_ambiguity() {
    let reg = Registry::new();
    let err = throws(&reg, &vec![path("db::Timeout"), path("Timeout")], "()").err().unwrap();
    assert_eq!(err.base, "Timeout");
    assert_eq!(err.first, "db::Timeout");
    assert_eq!(err.second, "Timeout");
}

#[test]
fn registry_gives_back_the_last_registration() {
    let mut reg = Registry::new();
    assert!(!is_united_error(&reg, &path("App")));
    register_united_error(&mut reg, "App", vec![path("A")]);
    register_united_error(&mut reg, "App", vec![path("B"), path("x::C")]);
    register_error_type(&mut reg, "A");
    assert_eq!(get_united_members(&reg, &path("app::App")).map(|v| names(&v)), Some(vec!["B".to_string(), "x::C".to_string()]));
    assert!(is_united_error(&reg, &path("App")));
    assert!(get_united_members(&reg, &path("Other")).is_none());
    assert!(get_united_members(&reg, &ErrorPath { leading_colon: false, segments: vec![] }).is_none());
}

#[test]
fn resolve_expands_members_in_place() {
    let mut reg = Registry::new();
    let mut generic = path("db::Timeout");
    generic.segments[1].args = "<T>".to_string();
    register_united_error(&mut reg, "App", vec![generic, path("Gone")]);
    let resolved = resolve_error_paths(&reg, &vec![path("First"), path("App"), path("Last")]);
    assert_eq!(resolved.len(), 4);
    assert_eq!(names(&resolved), vec!["First", "db::Timeout", "Gone", "Last"]);
    assert_eq!(render_path(&resolved[1]), "db::Timeout<T>");
}

#[test]
fn united_and_throws_read_their_attribute_text() {
    let mut reg = Registry::new();
    let out = united_error_input(&mut reg, "pub", "App", "db::Timeout<T>, NotFound").unwrap();
    assert!(out.contains("__struct_error_members(db::Timeout"));
    assert!(out.ends_with("pub struct App;\n"));
    let members = get_united_members(&reg, &path("App")).unwrap();
    assert_eq!(names(&members), vec!["db::Timeout", "NotFound"]);
    assert_eq!(members[0].segments[1].args.replace(' ', ""), "<T>");
    assert_eq!(united_error_input(&mut reg, "pub", "Bad", "1 + 1").err(), Some(struct_error::united::MemberListError));
    assert!(!is_united_error(&reg, &path("Bad")));
    let plan = throws_input(&reg, "App, Zed", "u8").unwrap();
    assert_eq!(names(&plan.paths), vec!["NotFound", "db::Timeout", "Zed"]);
    assert!(matches!(throws_input(&reg, "a b", "u8"), Err(ThrowsInputError::Syntax)));
    assert!(matches!(throws_input(&reg, "db::Timeout, Timeout", "u8"), Err(ThrowsInputError::Ambiguous(_))));
    let empty = throws_input(&reg, "", "u8").unwrap();
    assert!(empty.paths.is_empty());
    let out = united_error_item(&mut reg, "pub(crate) struct Both ;", "A, b::B").unwrap();
    assert!(out.ends_with("struct Both;\n"));
    assert!(out.contains("pub"));
    assert_eq!(names(&get_united_members(&reg, &path("Both")).unwrap()), vec!["A", "b::B"]);
    assert_eq!(united_error_item(&mut reg, "fn f() {}", "A").err(), Some(UnitedInputError::Item));
    assert_eq!(united_error_item(&mut reg, "struct Odd;", "A B").err(), Some(UnitedInputError::Members));
    assert!(!is_united_error(&reg, &path("Odd")));
}

#[test]
fn match_input_is_read_with_or_without_the_keyword() {
    let toks = |v: &[&str]| v.iter().map(|t| t.to_string()).collect::<Vec<String>>();
    let full = toks(&["match", "r", "{ Ok (v) => v , NotFound => 0 , }"]);
    let m = parse_match_expr(&full, &vec![false, false, true]).unwrap();
    assert_eq!(m.arms.len(), 2);
    assert!(matches!(m.arms[1].pat.kind, PatKind::Ident(ref n) if n == "NotFound"));
    let short = toks(&["f", "(x)", "{ Err (e) => 1 , }", "trailing"]);
    let m = parse_match_expr(&short, &vec![false, false, true, false]).unwrap();
    assert_eq!(m.scrutinee.replace(' ', ""), "f(x)");
    match &m.arms[0].pat.kind {
        PatKind::TupleStruct { path: p, first: Some(inner) } => {
            assert_eq!(path_to_string(p), "Err");
            assert!(matches!(inner.kind, PatKind::Ident(ref n) if n == "e"));
        }
        _ => panic!("tuple-struct pattern"),
    }
    assert_eq!(parse_match_expr(&toks(&["a", "b"]), &vec![false, false]).err(), Some(MatchInputError::NoBlock));
    assert_eq!(parse_match_expr(&toks(&["a", "{ => }"]), &vec![false, true]).err(), Some(MatchInputError::Syntax));
    let guarded = toks(&["x", "{ A if ok => 1 , }"]);
    let m = parse_match_expr(&guarded, &vec![false, true]).unwrap();
    assert_eq!(m.arms[0].guard, "ok");
    assert_eq!(m.arms[0].body, "1");
}

#[test]
fn match_error_refuses_catch_all_and_unknown() {
    let reg = Registry::new();
    let wild = ArmPat { kind: PatKind::Wild, text: "_".to_string() };
    match match_error(&reg, &vec![ok_arm(), wild]) {
        Err(MatchPlanError::CatchAll { arm }) => assert_eq!(arm, 1),
        _ => panic!("expected a catch-all refusal"),
    }
    match match_error(&reg, &vec![bare("e")]) {
        Err(MatchPlanError::CatchAll { arm }) => assert_eq!(arm, 0),
        _ => panic!("expected a catch-all refusal"),
    }
    let other = ArmPat { kind: PatKind::Other, text: "1..=2".to_string() };
    match match_error(&reg, &vec![bare("A"), other]) {
        Err(MatchPlanError::Unsupported { arm }) => assert_eq!(arm, 1),
        _ => panic!("expected an unsupported pattern"),
    }
}

#[test]
fn match_error_refuses_capture_of_united() {
    let mut reg = Registry::new();
    register_united_error(&mut reg, "App", vec![path("A")]);
    let capture = ArmPat {
        kind: PatKind::TupleStruct { path: path("App"), first: Some(Box::new(bare("x"))) },
        text: "App(x)".to_string(),
    };
    match match_error(&reg, &vec![capture]) {
        Err(MatchPlanError::UnitedCapture { arm }) => assert_eq!(arm, 0),
        _ => panic!("expected a capture refusal"),
    }
    match match_error(&reg, &vec![bare("Timeout"), bare("db_Timeout"), bare("Z"), ArmPat {
        kind: PatKind::Path(path("db::Timeout")),
        text: "db::Timeout".to_string(),
    }]) {
        Err(MatchPlanError::CatchAll { arm }) => assert_eq!(arm, 1),
        _ => panic!("expected a catch-all refusal"),
    }
}

#[test]
fn match_error_reports_ambiguous_arms() {
    let reg = Registry::new();
    let arms = vec![bare("Timeout"), ArmPat { kind: PatKind::Path(path("db::Timeout")), text: "db::Timeout".to_string() }];
    match match_error(&reg, &arms) {
        Err(MatchPlanError::Ambiguous(e)) => assert_eq!(e.base, "Timeout"),
        _ => panic!("expected an ambiguity"),
    }
}

#[test]
fn match_error_strips_err_and_places_arms() {
    let reg = Registry::new();
    let err_b = ArmPat {
        kind: PatKind::TupleStruct { path: path("Err"), first: Some(Box::new(bare("B"))) },
        text: "Err(B)".to_string(),
    };
    let m = match_error(&reg, &vec![err_b, ok_arm(), bare("A")]).unwrap();
    assert_eq!(m.total, 2);
    assert_eq!(m.arms.len(), 3);
    match &m.arms[0] {
        PlannedArm::OkArm { arm } => assert_eq!(*arm, 1),
        _ => panic!("Ok arm first"),
    }
    match &m.arms[1] {
        PlannedArm::ErrorArm { arm, index, pattern } => {
            assert_eq!(*arm, 0);
            assert_eq!(*index, 1);
            assert_eq!(pattern, "::core::result::Result::Err(::struct_error::Unt::There(::struct_error::Unt::Here(B)))");
        }
        _ => panic!("error arm"),
    }
    match &m.arms[2] {
        PlannedArm::ErrorArm { arm, index, .. } => {
            assert_eq!(*arm, 2);
            assert_eq!(*index, 0);
        }
        _ => panic!("error arm"),
    }
}

#[test]
fn patterns_are_classified_as_written() {
    assert_eq!(classify_pat(&ok_arm()), ArmType::OkArm);
    assert_eq!(classify_pat(&bare("NotFound")), ArmType::ErrorArm);
    assert_eq!(classify_pat(&bare("value")), ArmType::CatchAll);
    assert_eq!(classify_pat(&ArmPat { kind: PatKind::Struct(path("db::Timeout")), text: String::new() }), ArmType::ErrorArm);
    assert_eq!(classify_pat(&ArmPat { kind: PatKind::Struct(path("lower")), text: String::new() }), ArmType::Unknown);
    assert!(is_bare_path(&bare("NotFound")));
    assert!(!is_bare_path(&bare("value")));
    let err_wild = ArmPat {
        kind: PatKind::TupleStruct { path: path("Err"), first: Some(Box::new(ArmPat { kind: PatKind::Wild, text: "_".to_string() })) },
        text: "Err(_)".to_string(),
    };
    assert_eq!(classify_pat(&err_wild), ArmType::CatchAll);
    assert!(extract_error_path(&err_wild).is_none());
    assert_eq!(strip_err_wrapper(&err_wild).text, "_");
    let err_bind = ArmPat {
        kind: PatKind::TupleStruct { path: path("Err"), first: Some(Box::new(bare("e"))) },
        text: "Err(e)".to_string(),
    };
    assert_eq!(classify_pat(&err_bind), ArmType::CatchAll);
    let err_named = ArmPat {
        kind: PatKind::TupleStruct { path: path("Err"), first: Some(Box::new(bare("NotFound"))) },
        text: "Err(NotFound)".to_string(),
    };
    assert_eq!(classify_pat(&err_named), ArmType::ErrorArm);
    let reg = Registry::new();
    match match_error(&reg, &vec![ok_arm(), err_wild]) {
        Err(MatchPlanError::CatchAll { arm }) => assert_eq!(arm, 1),
        _ => panic!("expected a catch-all refusal"),
    }
    assert_eq!(path_to_string(&extract_error_path(&bare("NotFound")).unwrap()), "NotFound");
    assert!(is_error_path(&path("db::Timeout")));
    assert!(!is_error_path(&path("db::timeout")));
}

#[test]
fn path_helpers() {
    assert!(is_path_ok(&path("Ok")));
    assert!(!is_path_ok(&path("std::Ok")));
    assert!(is_path_err(&path("Err")));
    let mut generic = path("Err");
    generic.segments[0].args = "< E >".to_string();
    assert!(!is_path_err(&generic));
    assert!(path_is_ident(&path("error_source"), "error_source"));
    let mut colon = path("x::Y");
    colon.leading_colon = true;
    assert_eq!(render_path(&colon), "::x::Y");
    assert!(is_pascal_case("Ünïcode"));
    assert!(!is_pascal_case(""));
    assert_eq!(str_order("abc", "abd"), PathOrder::Less);
    assert_eq!(str_order("ab", "a"), PathOrder::Greater);
}

#[test]
fn rewrite_helpers() {
    let ok_call = ExprHead::CallOfPath(path("Ok"));
    let err_call = ExprHead::CallOfPath(path("Err"));
    assert!(is_ok_expr(&ok_call));
    assert!(is_err_expr(&err_call));
    assert_eq!(wrap_expr(&ok_call, "Ok(1)"), "Ok(1)");
    assert_eq!(wrap_expr(&err_call, "Err(e)"), "Err(e)");
    assert_eq!(wrap_expr(&ExprHead::CallOfPath(path("Some")), "Some(1)"), "::core::result::Result::Ok(Some(1))");
    let mut qualified = path("core::result::Result::Ok");
    qualified.leading_colon = true;
    assert!(path_ends_in_ok(&qualified));
    let once = wrap_expr(&ExprHead::Other, "e");
    assert_eq!(wrap_expr(&ExprHead::CallOfPath(qualified), &once), once);
    assert_eq!(wrap_expr(&ExprHead::CallOfPath(path("Result::Err")), "Result::Err(e)"), "Result::Err(e)");
    assert_eq!(
        try_rewrite_text("f()"),
        "match f() {\n    ::core::result::Result::Ok(v) => v,\n    ::core::result::Result::Err(e) => {\n        return ::core::result::Result::Err(__StructErrorInto::into_unt(e))\n    }\n}"
    );
    assert_eq!(split_match_input(&vec![false, false, true, true]), Some(2));
    assert_eq!(split_match_input(&vec![false]), None);
}

#[test]
fn error_attribute_forms() {
    assert_eq!(strip_quotes("\"abc\""), "abc");
    assert_eq!(strip_quotes("\""), "\"");
    assert_eq!(strip_quotes("\"\""), "");
    assert_eq!(strip_quotes("r\"raw\""), "r\"raw\"");
    let group = vec![AttrToken::Group {
        text: "(\"in {}\" , x)".to_string(),
        inner: vec![AttrToken::Literal("\"in {}\"".to_string()), other(","), other("x")],
    }];
    let a = parse_error_attr(&group, "E");
    assert_eq!(a.format, "in {}");
    assert_eq!(a.args, ArgsAt::InGroup);
    let a = parse_error_attr(&vec![other("x")], "E");
    assert_eq!(a.format, "E");
    assert_eq!(a.args, ArgsAt::NoArgs);
    let a = parse_error_attr(&vec![AttrToken::Group { text: "()".to_string(), inner: vec![] }], "E");
    assert_eq!(a.format, "E");
    assert_eq!(format_of_literal("\"a\\nb\""), "a\nb");
    assert_eq!(format_of_literal("r\"x\\y\""), "x\\y");
    assert_eq!(format_of_literal("\"tab\\t\\u{e9}\""), "tab\t\u{e9}");
    assert_eq!(format_of_literal("42"), "42");
    let a = parse_error_attr(&vec![AttrToken::Literal("r#\"say \"hi\"\"#".to_string())], "E");
    assert_eq!(a.format, "say \"hi\"");
    assert_eq!(decimal_text(0), "0");
    assert_eq!(decimal_text(7), "7");
    assert_eq!(decimal_text(1203), "1203");
}

#[test]
fn display_escapes_the_format_literal() {
    let d = generate_display(&no_generics(), "E", "say \"hi\"", "");
    assert!(d.contains("write!(f, \"say \\\"hi\\\"\")"));
    let g = ImplGenerics { impl_generics: "<T>".to_string(), ty_generics: "<T>".to_string(), where_clause: "where T: Clone".to_string() };
    let d = generate_display(&g, "E", "x", "self.0");
    assert!(d.starts_with("impl<T> ::core::fmt::Display for E<T> where T: Clone {"));
    assert!(d.contains("write!(f, \"x\", self.0)"));
}

#[test]
fn source_field_last_marked_wins() {
    let fields = vec![
        FieldInfo { ident: Some("a".to_string()), attrs: vec![path("error_source")] },
        FieldInfo { ident: Some("b".to_string()), attrs: vec![path("doc")] },
        FieldInfo { ident: Some("c".to_string()), attrs: vec![path("doc"), path("error_source")] },
    ];
    assert_eq!(find_source_field(&fields), Some(2));
    assert_eq!(find_source_field(&vec![]), None);
    assert_eq!(generate_error(&no_generics(), "E", None), "impl ::core::error::Error for E  {}\n");
    assert!(keep_struct_attr(&path("derive")));
    assert!(!keep_struct_attr(&path("error")));
    assert!(!keep_field_attr(&path("error_source")));
}

#[test]
fn tuple_source_field_is_used_by_position() {
    let mut reg = Registry::new();
    let item = ErrorItem {
        ident: "Wrap".to_string(),
        generics: no_generics(),
        fields: vec![
            FieldInfo { ident: None, attrs: vec![] },
            FieldInfo { ident: None, attrs: vec![path("error_source")] },
        ],
    };
    let e = error(&mut reg, &item, &vec![AttrToken::Literal("\"wrap\\n\"".to_string())]);
    assert!(e.error_impl.contains("Some(&self.1)"));
    assert_eq!(e.attr.format, "wrap\n");
    assert!(e.display_impl.contains("write!(f, \"wrap\\n\")"));
    assert_eq!(e.export_attr, "#[::macro_magic::export_tokens]");
}

#[test]
fn documented_example_plans_agree() {
    let mut reg = Registry::new();
    register_error_type(&mut reg, "NotFound");
    register_error_type(&mut reg, "Timeout");
    struct_error::united::united_error(&mut reg, "pub", "AppError", &vec![path("NotFound"), path("Timeout")]);
    let process = throws(&reg, &vec![path("NotFound"), path("Timeout")], "String").unwrap();
    let process_united = throws(&reg, &vec![path("AppError")], "String").unwrap();
    assert_eq!(names(&process.paths), vec!["NotFound", "Timeout"]);
    assert_eq!(names(&process_united.paths), names(&process.paths));
    let arms = vec![
        ok_arm(),
        ArmPat { kind: PatKind::Struct(path("NotFound")), text: "NotFound { id }".to_string() },
        ArmPat { kind: PatKind::Struct(path("Timeout")), text: "Timeout { ms }".to_string() },
    ];
    let m = match_error(&reg, &arms).unwrap();
    match &m.arms[1] {
        PlannedArm::ErrorArm { arm, index, pattern } => {
            assert_eq!((*arm, *index), (1, 0));
            assert_eq!(pattern, "::core::result::Result::Err(::struct_error::Unt::Here(NotFound { id }))");
        }
        _ => panic!("error arm"),
    }
    match &m.arms[2] {
        PlannedArm::ErrorArm { arm, index, .. } => assert_eq!((*arm, *index), (2, 1)),
        _ => panic!("error arm"),
    }
}

fn error_arm_indices(plan: &struct_error::match_arms::MatchPlan) -> Vec<(usize, usize, String)> {
    let mut v: Vec<(usize, usize, String)> = plan
        .arms
        .iter()
        .filter_map(|a| match a {
            PlannedArm::ErrorArm { arm, index, pattern } => Some((*arm, *index, pattern.clone())),
            _ => None,
        })
        .collect();
    v.sort();
    v
}

#[test]
fn throws_plan_ignores_order_and_repetition() {
    let reg = Registry::new();
    let a = throws(&reg, &vec![path("Zed"), path("db::Timeout"), path("Zed"), path("Alpha")], "u8").unwrap();
    let b = throws(&reg, &vec![path("Alpha"), path("db::Timeout"), path("Zed")], "u8").unwrap();
    assert_eq!(names(&a.paths), vec!["Alpha", "db::Timeout", "Zed"]);
    assert_eq!(names(&a.paths), names(&b.paths));
    assert_eq!(a.unt_type, b.unt_type);
    assert_eq!(a.return_type, b.return_type);
    assert_eq!(a.into_trait, b.into_trait);
}

#[test]
fn err_wrapper_and_bare_pattern_plan_alike() {
    let reg = Registry::new();
    let wrapped = ArmPat {
        kind: PatKind::TupleStruct { path: path("Err"), first: Some(Box::new(bare("NotFound"))) },
        text: "Err(NotFound)".to_string(),
    };
    let p1 = match_error(&reg, &vec![ok_arm(), wrapped, bare("Timeout")]).unwrap();
    let p2 = match_error(&reg, &vec![ok_arm(), bare("NotFound"), bare("Timeout")]).unwrap();
    assert_eq!(error_arm_indices(&p1), error_arm_indices(&p2));
    assert_eq!(p1.total, p2.total);
    assert_eq!(
        error_arm_indices(&p1)[0].2,
        "::core::result::Result::Err(::struct_error::Unt::Here(NotFound))"
    );
}

#[test]
fn arm_order_keeps_each_pattern() {
    let reg = Registry::new();
    let p1 = match_error(&reg, &vec![ok_arm(), bare("Zed"), bare("Alpha"), bare("Mid")]).unwrap();
    let p2 = match_error(&reg, &vec![bare("Mid"), bare("Alpha"), ok_arm(), bare("Zed")]).unwrap();
    let by_pattern = |plan: &struct_error::match_arms::MatchPlan| {
        let mut v: Vec<(usize, String)> =
            error_arm_indices(plan).into_iter().map(|(_, i, p)| (i, p)).collect();
        v.sort();
        v
    };
    assert_eq!(by_pattern(&p1), by_pattern(&p2));
    assert_eq!(by_pattern(&p1)[0].0, 0);
    assert!(by_pattern(&p1)[0].1.contains("Unt::Here(Alpha)"));
}

#[test]
fn error_reads_its_arguments_and_item_text() {
    let attr = vec![
        AttrToken::Literal("\"{} at {}\"".to_string()),
        other(","),
        other("self"),
        other("."),
        other("id"),
        other(","),
        other("crate"),
        joint(":"),
        other(":"),
        other("f"),
        AttrToken::Group { text: "(self . id)".to_string(), inner: vec![] },
    ];
    assert_eq!(attr_args(&attr), "self . id , crate :: f (self . id)");
    let grouped = vec![AttrToken::Group {
        text: "(\"x {}\" , a)".to_string(),
        inner: vec![AttrToken::Literal("\"x {}\"".to_string()), other(","), other("a")],
    }];
    assert_eq!(attr_args(&grouped), "a");
    assert_eq!(attr_args(&vec![AttrToken::Literal("\"only\"".to_string())]), "");
    assert_eq!(attr_args(&vec![other("x"), other(","), other("y")]), "");

    let mut reg = Registry::new();
    let e = error_input(
        &mut reg,
        &attr,
        "pub struct NotFound<T: Clone> { pub id : u64 , #[error_source] inner : T }",
    )
    .unwrap();
    assert!(e.display_impl.contains("write!(f, \"{} at {}\", self . id , crate :: f (self . id))"));
    assert!(e.error_impl.contains("Some(&self.inner)"));
    assert!(e.error_impl.contains("for NotFound<"));
    let tuple = error_input(&mut reg, &vec![], "struct W(u8, #[error_source] std::io::Error);").unwrap();
    assert!(tuple.error_impl.contains("Some(&self.1)"));
    assert!(tuple.display_impl.contains("write!(f, \"W\")"));
    assert_eq!(error_input(&mut reg, &vec![], "enum E { A }").err(), Some(ErrorInputError));
}
