use red::ast::{Chain, Expr, If, Literal, Not, RecordRef, VariableRef};
use red::ident::Ident;
use red::path::Seg;
use red::typecheck::{typecheck, Check, Error, TypeError, TypeMismatch};
use red::types::{Type, TypeContext};

fn lit_bool(value: bool) -> Expr {
    Expr::LitBool(Literal { value })
}

fn lit_number(value: i32) -> Expr {
    Expr::LitNumber(Literal { value })
}

fn lit_text(value: &str) -> Expr {
    Expr::LitText(Literal { value: value.to_owned() })
}

fn not(e: Expr) -> Expr {
    Expr::Not(Box::new(Not { not: e }))
}

fn if_(condition: Expr, consequence: Expr) -> Expr {
    Expr::If(Box::new(If { condition, consequence }))
}

fn chain(es: Vec<Expr>) -> Expr {
    Expr::Chain(Chain { chain: es })
}

fn var(name: &str) -> Expr {
    Expr::VariableRef(VariableRef { identifier: Ident::from_str(name) })
}

fn record_ref(name: &str, record: Expr) -> Expr {
    Expr::RecordRef(Box::new(RecordRef { identifier: Ident::from_str(name), record }))
}

fn empty_ctx() -> TypeContext {
    TypeContext::new()
}

fn hello_record_ctx() -> TypeContext {
    TypeContext {
        entries: vec![(
            Ident::from_str("hello"),
            Type::Record(TypeContext {
                entries: vec![(Ident::from_str("blah"), Type::Bool)],
            }),
        )],
    }
}

fn mismatch(expected: Type, received: Type) -> TypeError {
    TypeError::TypeMismatch(TypeMismatch { expected, received })
}

#[test]
fn literal_bool_checks_to_bool() {
    let mut ctx = empty_ctx();
    let r = typecheck(&lit_bool(true), &mut ctx);
    assert_eq!(r.0, Ok(Type::Bool));
    let r = typecheck(&lit_bool(false), &mut ctx);
    assert_eq!(r.0, Ok(Type::Bool));
}

#[test]
fn literal_number_checks_to_number() {
    let mut ctx = empty_ctx();
    let r = typecheck(&lit_number(42), &mut ctx);
    assert_eq!(r.0, Ok(Type::Number));
}

#[test]
fn literal_text_checks_to_text() {
    let mut ctx = empty_ctx();
    let r = typecheck(&lit_text("hello"), &mut ctx);
    assert_eq!(r.0, Ok(Type::Text));
}

#[test]
fn double_negation_checks_to_bool() {
    let mut ctx = empty_ctx();
    let r = typecheck(&not(not(lit_bool(true))), &mut ctx);
    assert_eq!(r.0, Ok(Type::Bool));
}

#[test]
fn not_of_number_reports_mismatch_at_not() {
    let mut ctx = empty_ctx();
    let r = typecheck(&not(lit_number(1)), &mut ctx);
    assert_eq!(
        r.0,
        Err(vec![Error {
            path: vec![Seg::Not],
            error: mismatch(Type::Bool, Type::Number),
        }])
    );
}

#[test]
fn not_of_not_of_empty_reports_innermost_path() {
    let mut ctx = empty_ctx();
    let r = typecheck(&not(not(Expr::Empty)), &mut ctx);
    assert_eq!(
        r.0,
        Err(vec![Error {
            path: vec![Seg::Not, Seg::Not],
            error: TypeError::EmptyExpr,
        }])
    );
}

#[test]
fn if_with_number_condition_reports_single_mismatch() {
    let mut ctx = empty_ctx();
    let r = typecheck(&if_(lit_number(1), lit_number(1)), &mut ctx);
    assert_eq!(
        r.0,
        Err(vec![Error {
            path: vec![Seg::IfCond],
            error: mismatch(Type::Bool, Type::Number),
        }])
    );
}

#[test]
fn if_collects_errors_from_both_branches() {
    let mut ctx = empty_ctx();
    let r = typecheck(&if_(Expr::Empty, Expr::Empty), &mut ctx);
    assert_eq!(
        r.0,
        Err(vec![
            Error { path: vec![Seg::IfCond], error: TypeError::EmptyExpr },
            Error { path: vec![Seg::IfCons], error: TypeError::EmptyExpr },
        ])
    );
}

#[test]
fn if_checks_to_unit() {
    let mut ctx = empty_ctx();
    let r = typecheck(&if_(lit_bool(true), lit_number(1)), &mut ctx);
    assert_eq!(r.0, Ok(Type::Unit));
}

#[test]
fn chain_accumulates_errors_across_elements_in_order() {
    let mut ctx = empty_ctx();
    let e = chain(vec![if_(lit_number(1), lit_number(1)), not(Expr::Empty)]);
    let r = typecheck(&e, &mut ctx);
    assert_eq!(
        r.0,
        Err(vec![
            Error {
                path: vec![Seg::ChainN(0), Seg::IfCond],
                error: mismatch(Type::Bool, Type::Number),
            },
            Error {
                path: vec![Seg::ChainN(1), Seg::Not],
                error: TypeError::EmptyExpr,
            },
        ])
    );
}

#[test]
fn chain_checks_to_list_of_last_element_type() {
    let mut ctx = empty_ctx();
    let e = chain(vec![lit_bool(true), lit_number(7)]);
    let r = typecheck(&e, &mut ctx);
    assert_eq!(r.0, Ok(Type::List(Box::new(Type::Number))));
}

#[test]
fn empty_chain_checks_to_list_of_unit() {
    let mut ctx = empty_ctx();
    let r = typecheck(&chain(Vec::new()), &mut ctx);
    assert_eq!(r.0, Ok(Type::List(Box::new(Type::Unit))));
}

#[test]
fn empty_expression_fails_at_root() {
    let mut ctx = empty_ctx();
    let r = typecheck(&Expr::Empty, &mut ctx);
    assert_eq!(
        r.0,
        Err(vec![Error { path: Vec::new(), error: TypeError::EmptyExpr }])
    );
}

#[test]
fn variable_ref_returns_bound_record_type() {
    let mut ctx = hello_record_ctx();
    let r = typecheck(&var("hello"), &mut ctx);
    assert_eq!(
        r.0,
        Ok(Type::Record(TypeContext {
            entries: vec![(Ident::from_str("blah"), Type::Bool)],
        }))
    );
}

#[test]
fn variable_ref_unbound_reports_undefined() {
    let mut ctx = hello_record_ctx();
    let r = typecheck(&var("goodbye"), &mut ctx);
    assert_eq!(
        r.0,
        Err(vec![Error {
            path: Vec::new(),
            error: TypeError::Undefined(Ident::from_str("goodbye")),
        }])
    );
}

#[test]
fn record_ref_returns_field_type() {
    let mut ctx = hello_record_ctx();
    let r = typecheck(&record_ref("blah", var("hello")), &mut ctx);
    assert_eq!(r.0, Ok(Type::Bool));
}

#[test]
fn record_ref_missing_field_reports_undefined() {
    let mut ctx = hello_record_ctx();
    let r = typecheck(&record_ref("nope", var("hello")), &mut ctx);
    assert_eq!(
        r.0,
        Err(vec![Error {
            path: vec![Seg::RecordRef],
            error: TypeError::Undefined(Ident::from_str("nope")),
        }])
    );
}

#[test]
fn record_ref_on_number_reports_expected_record() {
    let mut ctx = hello_record_ctx();
    let r = typecheck(&record_ref("blah", lit_number(5)), &mut ctx);
    assert_eq!(
        r.0,
        Err(vec![Error {
            path: vec![Seg::RecordRef],
            error: TypeError::ExpectedRecord(Type::Number),
        }])
    );
}

#[test]
fn checking_twice_gives_identical_results() {
    let mut ctx = hello_record_ctx();
    let e = record_ref("blah", var("hello"));
    let r1 = typecheck(&e, &mut ctx);
    let r2 = typecheck(&e, &mut ctx);
    assert_eq!(r1, r2);
    assert_eq!(ctx, hello_record_ctx());

    let bad = chain(vec![not(lit_number(1)), Expr::Empty]);
    let b1 = typecheck(&bad, &mut ctx);
    let b2 = typecheck(&bad, &mut ctx);
    assert_eq!(b1, b2);
    assert_eq!(ctx, hello_record_ctx());
}

#[test]
fn check_helpers_follow_their_rules() {
    let ok = Check::succeed(Type::Text);
    assert_eq!(ok.0, Ok(Type::Text));
    let failed = Check::fail(Error { path: Vec::new(), error: TypeError::EmptyExpr });
    assert_eq!(
        failed.0,
        Err(vec![Error { path: Vec::new(), error: TypeError::EmptyExpr }])
    );
    let b = Check::assert_bool(vec![Seg::Not], Type::Bool);
    assert_eq!(b.0, Ok(Type::Bool));
    let m = Check::assert_bool(vec![Seg::Not], Type::Unit);
    assert_eq!(
        m.0,
        Err(vec![Error {
            path: vec![Seg::Not],
            error: mismatch(Type::Bool, Type::Unit),
        }])
    );
    let converted = Check::from(Ok(Type::Number));
    assert_eq!(converted.0, Ok(Type::Number));
}

#[test]
fn combinators_merge_outcomes() {
    let ok1 = Check::succeed(Type::Bool);
    let ok2 = Check::succeed(Type::Number);
    let merged = Check::map2(|_a, _b| Type::Unit, ok1, ok2);
    assert_eq!(merged.0, Ok(Type::Unit));

    let e1 = Check::fail(Error { path: vec![Seg::IfCond], error: TypeError::EmptyExpr });
    let e2 = Check::fail(Error { path: vec![Seg::IfCons], error: TypeError::EmptyExpr });
    let merged = Check::map2(|_a, _b| Type::Unit, e1, e2);
    assert_eq!(
        merged.0,
        Err(vec![
            Error { path: vec![Seg::IfCond], error: TypeError::EmptyExpr },
            Error { path: vec![Seg::IfCons], error: TypeError::EmptyExpr },
        ])
    );

    let mapped = Check::succeed(Type::Text).map(|_| Type::Bool);
    assert_eq!(mapped.0, Ok(Type::Bool));
    let chained = Check::succeed(Type::Text).and_then(|t| Check::succeed(t));
    assert_eq!(chained.0, Ok(Type::Text));
}

#[test]
fn record_accessors_follow_the_type() {
    let rec = Type::Record(TypeContext {
        entries: vec![(Ident::from_str("blah"), Type::Bool)],
    });
    assert!(rec.is_record());
    assert!(!Type::Number.is_record());
    assert_eq!(
        rec.as_record(),
        Some(&TypeContext { entries: vec![(Ident::from_str("blah"), Type::Bool)] })
    );
    assert_eq!(Type::Number.as_record(), None);
}
