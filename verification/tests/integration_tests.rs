use struct_error::error_attr::{error, ArgsAt, AttrToken, ErrorItem, FieldInfo, ImplGenerics};
use struct_error::match_arms::{match_error, ArmPat, PatKind, PlannedArm};
use struct_error::path::{ErrorPath, PathSegment};
use struct_error::registry::{register_error_type, Registry};
use struct_error::throws::{
    needs_unit_ok, throws, try_rewrite_text, unit_ok_text, wrap_expr, BodyEnd, ExprHead,
};
use struct_error::united::united_error;
use struct_error::{End, Unt};

fn path(text: &str) -> ErrorPath {
    ErrorPath {
        leading_colon: false,
        segments: text
            .split("::")
            .map(|s| PathSegment { ident: s.to_string(), args: String::new() })
            .collect(),
    }
}

fn paths(texts: &[&str]) -> Vec<ErrorPath> {
    texts.iter().map(|t| path(t)).collect()
}

fn plain_item(name: &str, fields: Vec<FieldInfo>) -> ErrorItem {
    ErrorItem {
        ident: name.to_string(),
        generics: ImplGenerics {
            impl_generics: String::new(),
            ty_generics: String::new(),
            where_clause: String::new(),
        },
        fields,
    }
}

fn other(text: &str) -> AttrToken {
    AttrToken::Other { text: text.to_string(), joint: false }
}

fn bare(name: &str) -> ArmPat {
    ArmPat { kind: PatKind::Ident(name.to_string()), text: name.to_string() }
}

fn ok_arm() -> ArmPat {
    ArmPat {
        kind: PatKind::TupleStruct {
            path: path("Ok"),
            first: Some(Box::new(ArmPat { kind: PatKind::Ident("v".to_string()), text: "v".to_string() })),
        },
        text: "Ok(v)".to_string(),
    }
}

/// For each `Unt` position of the plan, the input arm whose body runs.
fn arm_for_index(arms: &[PlannedArm], index: usize) -> Option<usize> {
    arms.iter().find_map(|a| match a {
        PlannedArm::ErrorArm { arm, index: i, .. } if *i == index => Some(*arm),
        _ => None,
    })
}

fn ok_arm_index(arms: &[PlannedArm]) -> Option<usize> {
    arms.iter().find_map(|a| match a {
        PlannedArm::OkArm { arm } => Some(*arm),
        _ => None,
    })
}

/// The position of an error type in a declaration's plan.
fn position(plan_paths: &[ErrorPath], name: &str) -> usize {
    plan_paths
        .iter()
        .position(|p| struct_error::path::path_to_string(p) == name)
        .unwrap()
}

#[derive(Debug)]
pub struct FailA;

#[derive(Debug)]
pub struct FailB;

type FailUnion = Unt<FailA, Unt<FailB, End>>;

// ============================================================================
// error tests
// ============================================================================

#[test]
fn test_error_display_plain() {
    let mut reg = Registry::new();
    let e = error(&mut reg, &plain_item("PlainError", vec![]), &vec![]);
    assert_eq!(e.attr.format, "PlainError");
    assert_eq!(e.attr.args, ArgsAt::NoArgs);
    assert!(e.display_impl.contains("write!(f, \"PlainError\")"));
}

#[test]
fn test_error_display_formatted() {
    let mut reg = Registry::new();
    let attr = vec![
        AttrToken::Literal("\"code: {}\"".to_string()),
        other(","),
        other("self"),
        other("."),
        other("code"),
    ];
    let e = error(&mut reg, &plain_item("FormattedError", vec![]), &attr);
    assert_eq!(e.attr.format, "code: {}");
    assert_eq!(e.attr.args, ArgsAt::TopLevel);
    assert!(e.display_impl.contains("write!(f, \"code: {}\", self . code)"));
    // The generated `write!` prints the format with the field's value.
    assert_eq!(e.attr.format.replacen("{}", &42u32.to_string(), 1), "code: 42");
}

#[test]
fn test_error_source() {
    let inner = std::io::Error::new(std::io::ErrorKind::NotFound, "file gone");
    assert_eq!(inner.to_string(), "file gone");
    let mut reg = Registry::new();
    let fields = vec![FieldInfo { ident: Some("source".to_string()), attrs: vec![path("error_source")] }];
    let e = error(&mut reg, &plain_item("WrappedIo", fields), &vec![]);
    assert!(e.error_impl.contains("fn source(&self)"));
    assert!(e.error_impl.contains("Some(&self.source)"));
}

// ============================================================================
// united_error tests
// ============================================================================

#[test]
fn test_united_error_is_zst() {
    let mut reg = Registry::new();
    let text = united_error(&mut reg, "pub", "MyUnited", &paths(&["PlainError", "FormattedError"]));
    assert!(text.ends_with("pub struct MyUnited;\n"));
    assert!(text.contains("__struct_error_members(PlainError, FormattedError)"));
    pub struct MyUnited;
    assert_eq!(std::mem::size_of::<MyUnited>(), 0);
}

// ============================================================================
// throws + throw tests
// ============================================================================

fn fail_plan() -> struct_error::throws::ThrowsPlan {
    let mut reg = Registry::new();
    register_error_type(&mut reg, "FailA");
    register_error_type(&mut reg, "FailB");
    throws(&reg, &paths(&["FailA", "FailB"]), "i32").unwrap()
}

fn may_fail_a(should_fail: bool) -> Result<i32, FailUnion> {
    if should_fail {
        return Err(Unt::Here(FailA));
    }
    Ok(42)
}

fn may_fail_b(should_fail: bool) -> Result<i32, FailUnion> {
    if should_fail {
        return Err(Unt::There(Unt::Here(FailB)));
    }
    Ok(24)
}

#[test]
fn test_throws_ok_path() {
    let plan = fail_plan();
    assert_eq!(
        plan.return_type,
        "::core::result::Result<i32, ::struct_error::Unt<FailA, ::struct_error::Unt<FailB, ::struct_error::End>>>"
    );
    assert_eq!(wrap_expr(&ExprHead::Other, "42"), "::core::result::Result::Ok(42)");
    assert_eq!(may_fail_a(false).unwrap(), 42);
    assert_eq!(may_fail_b(false).unwrap(), 24);
}

#[test]
fn test_throws_err_path() {
    let plan = fail_plan();
    assert!(plan.into_trait.contains(
        "impl __StructErrorInto for FailA {\n    fn into_unt(self) -> ::struct_error::Unt<FailA, ::struct_error::Unt<FailB, ::struct_error::End>> {\n        ::struct_error::Unt::Here(self)\n"
    ));
    assert!(plan.into_trait.contains("::struct_error::Unt::There(::struct_error::Unt::Here(self))"));
    assert_eq!(position(&plan.paths, "FailA"), 0);
    assert_eq!(position(&plan.paths, "FailB"), 1);
    assert!(may_fail_a(true).is_err());
    assert!(may_fail_b(true).is_err());
}

#[test]
fn test_throws_implicit_ok_wrapping() {
    let reg = Registry::new();
    let plan = throws(&reg, &paths(&["FailA"]), "i32").unwrap();
    assert_eq!(plan.return_type, "::core::result::Result<i32, ::struct_error::Unt<FailA, ::struct_error::End>>");
    assert_eq!(wrap_expr(&ExprHead::Other, "99"), "::core::result::Result::Ok(99)");
    fn returns_value() -> Result<i32, Unt<FailA, End>> {
        Ok(99)
    }
    assert_eq!(returns_value().unwrap(), 99);
}

#[test]
fn test_throws_unit_return() {
    let reg = Registry::new();
    let plan = throws(&reg, &paths(&["FailA"]), "()").unwrap();
    assert_eq!(plan.return_type, "::core::result::Result<(), ::struct_error::Unt<FailA, ::struct_error::End>>");
    assert!(needs_unit_ok(true, BodyEnd::Statement));
    assert!(!needs_unit_ok(true, BodyEnd::TailExpr));
    assert_eq!(unit_ok_text(), "::core::result::Result::Ok(())");
    fn unit_fn(throw_it: bool) -> Result<(), Unt<FailA, End>> {
        if throw_it {
            return Err(Unt::Here(FailA));
        }
        Ok(())
    }
    assert!(unit_fn(true).is_err());
    assert!(unit_fn(false).is_ok());
}

// ============================================================================
// match_error tests
// ============================================================================

#[test]
fn test_match_error_by_type() {
    let plan = fail_plan();
    let reg = Registry::new();
    let arms = vec![ok_arm(), bare("FailA"), bare("FailB")];
    let m = match_error(&reg, &arms).unwrap();
    let bodies = ["ok-{}", "got-a", "got-b"];
    let r = may_fail_a(true);
    let thrown = position(&plan.paths, "FailA");
    let got = match r {
        Ok(v) => bodies[ok_arm_index(&m.arms).unwrap()].replace("{}", &v.to_string()),
        Err(_) => bodies[arm_for_index(&m.arms, thrown).unwrap()].to_string(),
    };
    assert_eq!(got, "got-a");
    assert_eq!(arm_for_index(&m.arms, position(&plan.paths, "FailB")), Some(2));
}

// ============================================================================
// match_error united error tests
// ============================================================================

fn united_registry() -> Registry {
    let mut reg = Registry::new();
    register_error_type(&mut reg, "UnitedA");
    register_error_type(&mut reg, "UnitedB");
    united_error(&mut reg, "pub", "MyUnitedErr", &paths(&["UnitedA", "UnitedB"]));
    reg
}

/// `united_may_fail`: 1 throws `UnitedA`, 2 throws `UnitedB`, otherwise 42.
/// Returns the `Unt` position of the thrown error, or the value.
fn united_may_fail(reg: &Registry, which: u8) -> Result<i32, usize> {
    let plan = throws(reg, &paths(&["MyUnitedErr"]), "i32").unwrap();
    match which {
        1 => Err(position(&plan.paths, "UnitedA")),
        2 => Err(position(&plan.paths, "UnitedB")),
        _ => Ok(42),
    }
}

#[test]
fn test_match_error_united_type() {
    let reg = united_registry();
    let arms = vec![ok_arm(), bare("MyUnitedErr")];
    let m = match_error(&reg, &arms).unwrap();
    let bodies = ["ok-{}", "united"];

    let r_a = united_may_fail(&reg, 1);
    let got_a = match r_a {
        Ok(v) => bodies[0].replace("{}", &v.to_string()),
        Err(i) => bodies[arm_for_index(&m.arms, i).unwrap()].to_string(),
    };
    assert_eq!(got_a, "united");

    let r_b = united_may_fail(&reg, 2);
    let got_b = match r_b {
        Ok(v) => bodies[0].replace("{}", &v.to_string()),
        Err(i) => bodies[arm_for_index(&m.arms, i).unwrap()].to_string(),
    };
    assert_eq!(got_b, "united");
}

#[test]
fn test_match_error_united_and_explicit() {
    let reg = united_registry();
    let arms = vec![ok_arm(), bare("UnitedA"), bare("MyUnitedErr")];
    let m = match_error(&reg, &arms).unwrap();
    let bodies = ["ok-{}", "explicit-a", "united"];

    let got_a = match united_may_fail(&reg, 1) {
        Ok(v) => bodies[0].replace("{}", &v.to_string()),
        Err(i) => bodies[arm_for_index(&m.arms, i).unwrap()].to_string(),
    };
    assert_eq!(got_a, "explicit-a");

    let got_b = match united_may_fail(&reg, 2) {
        Ok(v) => bodies[0].replace("{}", &v.to_string()),
        Err(i) => bodies[arm_for_index(&m.arms, i).unwrap()].to_string(),
    };
    assert_eq!(got_b, "united");
}

#[test]
fn test_match_error_united_exhaustive() {
    let reg = united_registry();
    let arms = vec![ok_arm(), bare("MyUnitedErr")];
    let m = match_error(&reg, &arms).unwrap();
    // Every position of the union has an arm: the match is exhaustive.
    assert_eq!(m.total, 2);
    assert!(arm_for_index(&m.arms, 0).is_some());
    assert!(arm_for_index(&m.arms, 1).is_some());
    let got = match united_may_fail(&reg, 0) {
        Ok(v) => v,
        Err(_) => 0,
    };
    assert_eq!(got, 42);
}

// ============================================================================
// ? propagation tests
// ============================================================================

/// What `?` becomes in a declaration with the same error set: the inner
/// error's position is carried over by name.
fn propagate(inner: Result<i32, FailUnion>, inner_plan: &[ErrorPath], outer_plan: &[ErrorPath]) -> Result<i32, usize> {
    match inner {
        Ok(v) => Ok(v + 1),
        Err(Unt::Here(_)) => Err(position(outer_plan, &struct_error::path::path_to_string(&inner_plan[0]))),
        Err(Unt::There(Unt::Here(_))) => Err(position(outer_plan, &struct_error::path::path_to_string(&inner_plan[1]))),
        Err(Unt::There(Unt::There(e))) => match e {
            End::Never(n) => match n {},
        },
    }
}

#[test]
fn test_propagation_ok() {
    let plan = fail_plan();
    assert!(try_rewrite_text("may_fail_a(should_fail)")
        .starts_with("match may_fail_a(should_fail) {\n    ::core::result::Result::Ok(v) => v,"));
    assert_eq!(propagate(may_fail_a(false), &plan.paths, &plan.paths).unwrap(), 43);
    assert_eq!(propagate(may_fail_b(false), &plan.paths, &plan.paths).unwrap(), 25);
}

#[test]
fn test_propagation_err() {
    let plan = fail_plan();
    assert!(propagate(may_fail_a(true), &plan.paths, &plan.paths).is_err());
    assert!(propagate(may_fail_b(true), &plan.paths, &plan.paths).is_err());
}

// ============================================================================
// Nested throws (subset superset) tests
// ============================================================================

#[derive(Debug)]
pub struct InnerErr;

fn nested_plans() -> (Vec<ErrorPath>, Vec<ErrorPath>) {
    let reg = Registry::new();
    let inner = throws(&reg, &paths(&["InnerErr"]), "i32").unwrap();
    let outer = throws(&reg, &paths(&["OuterErr", "InnerErr"]), "i32").unwrap();
    (inner.paths, outer.paths)
}

fn inner(should_fail: bool) -> Result<i32, Unt<InnerErr, End>> {
    if should_fail {
        return Err(Unt::Here(InnerErr));
    }
    Ok(1)
}

fn outer(should_fail_inner: bool, inner_plan: &[ErrorPath], outer_plan: &[ErrorPath]) -> Result<i32, usize> {
    let v = match inner(should_fail_inner) {
        Ok(v) => v,
        Err(Unt::Here(_)) => {
            return Err(position(outer_plan, &struct_error::path::path_to_string(&inner_plan[0])));
        }
        Err(Unt::There(e)) => match e {
            End::Never(n) => match n {},
        },
    };
    Ok(v + 10)
}

#[test]
fn test_nested_throws_ok() {
    let (inner_plan, outer_plan) = nested_plans();
    assert_eq!(outer(false, &inner_plan, &outer_plan).unwrap(), 11);
}

#[test]
fn test_nested_throws_err() {
    let (inner_plan, outer_plan) = nested_plans();
    assert_eq!(position(&outer_plan, "InnerErr"), 0);
    assert_eq!(position(&outer_plan, "OuterErr"), 1);
    assert!(outer(true, &inner_plan, &outer_plan).is_err());
}
