use std::collections::BTreeSet;
use trust_core::solver::{
    parse_const_expr_str, parse_predicate_str, prove_addition_overflow_safety,
    prove_integer_predicate, referenced_variables, ProofResult, VerificationOptions,
    SolverBackend,
};

fn i32_param(name: &str) -> Vec<(String, String)> {
    vec![(name.to_string(), "i32".to_string())]
}

#[test]
fn parses_rust_bounds_as_constants() {
    assert_eq!(parse_const_expr_str("i32::MAX-1", None), Some(2147483646));
    assert_eq!(parse_const_expr_str("i32::MIN+1", None), Some(-2147483647));
    assert_eq!(
        parse_const_expr_str("i64::MAX/2", None),
        Some(i64::MAX as i128 / 2)
    );
}

#[test]
fn parses_usize_bounds_for_target_pointer_width() {
    assert_eq!(
        parse_const_expr_str("usize::MAX", Some(32)),
        Some(u32::MAX as i128)
    );
    assert_eq!(
        parse_const_expr_str("usize::MAX/2", Some(16)),
        Some(u16::MAX as i128 / 2)
    );
}

#[test]
fn parses_simple_predicate_variables() {
    let predicate = parse_predicate_str("x<2147483647", None).unwrap();

    assert_eq!(
        referenced_variables(&predicate).into_iter().collect::<BTreeSet<_>>(),
        BTreeSet::from(["x".to_string()])
    );
}

#[test]
fn z3_proves_add_one_bound_from_strict_numeric_max() {
    let contracts = vec!["x<2147483647".to_string()];

    assert_eq!(
        prove_addition_overflow_safety("x", "i32", 1, &contracts, &i32_param("x"), None, 5000),
        ProofResult::Proved
    );
}

#[test]
fn z3_rejects_unbounded_add_one() {
    assert_eq!(
        prove_addition_overflow_safety("x", "i32", 1, &[], &i32_param("x"), None, 5000),
        ProofResult::Unproved
    );
}

#[test]
fn z3_rejects_unknown_variables_in_conclusion() {
    assert_eq!(
        prove_integer_predicate(&[], "y>0", &i32_param("x"), None, 5000),
        ProofResult::Unsupported
    );
}

#[test]
fn z3_rejects_unknown_variables_in_assumptions() {
    let contracts = vec!["y==x".to_string()];

    assert_eq!(
        prove_integer_predicate(&contracts, "x==x", &i32_param("x"), None, 5000),
        ProofResult::Unsupported
    );
}

#[test]
fn z3_proves_nonzero_from_positive_lower_bound() {
    let contracts = vec!["y>=1".to_string()];

    assert_eq!(
        prove_integer_predicate(&contracts, "y!=0", &i32_param("y"), None, 5000),
        ProofResult::Proved
    );
}

#[test]
fn constant_expressions_edge_cases() {
    assert_eq!(parse_const_expr_str("7/0", None), None);
    assert_eq!(parse_const_expr_str("-7/2", None), Some(-3));
    assert_eq!(parse_const_expr_str("+5", None), Some(5));
    assert_eq!(parse_const_expr_str("1-2-3", None), Some(-4));
    assert_eq!(parse_const_expr_str("usize::MAX", Some(64)), Some(u64::MAX as i128));
    assert_eq!(parse_const_expr_str("abc", None), None);
    assert_eq!(parse_const_expr_str("", None), None);
}

#[test]
fn predicate_operator_precedence_and_unparsable_text() {
    assert!(parse_predicate_str("x <= 3", None).is_some());
    assert!(parse_predicate_str("f(x) < 3", None).is_none());
    assert!(parse_predicate_str("x", None).is_none());
    assert_eq!(
        prove_integer_predicate(&[], "f(x) < 3", &i32_param("x"), None, 5000),
        ProofResult::Unsupported
    );
}

#[test]
fn addition_safety_is_unsupported_for_negative_constants_and_unknown_types() {
    assert_eq!(
        prove_addition_overflow_safety("x", "i32", -1, &[], &i32_param("x"), None, 5000),
        ProofResult::Unsupported
    );
    assert_eq!(
        prove_addition_overflow_safety("x", "f64", 1, &[], &i32_param("x"), None, 5000),
        ProofResult::Unsupported
    );
}

#[test]
fn options_builders() {
    let o = VerificationOptions::z3(100).with_target_pointer_width(32);
    assert_eq!(o.solver, SolverBackend::Z3);
    assert_eq!(o.timeout_ms, 100);
    assert_eq!(o.target_pointer_width, Some(32));
    let d = VerificationOptions::default();
    assert_eq!(d.solver, SolverBackend::Internal);
    assert_eq!(d.timeout_ms, 5000);
}
