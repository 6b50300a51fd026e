use trust_core::arith::{simple_signed_value_operand_after, simple_signed_value_operand_before};
use trust_core::calls::{call_obligations_from_tokens, proof_body_asserts, TrustFunctionSummary};
use trust_core::solver::Param;
use trust_core::tokens::{split_arguments, tokens};

fn cs(s: &str) -> Vec<char> {
    s.chars().collect()
}

fn st(v: &[char]) -> String {
    v.iter().collect()
}

#[test]
fn arguments_split_only_at_top_level_commas() {
    let t = tokens(&cs("a, f(b, c), [d, e], {g, h}"));
    assert_eq!(split_arguments(&t).len(), 4);
    assert_eq!(split_arguments(&tokens(&cs("x"))).len(), 1);
    assert_eq!(split_arguments(&tokens(&cs(""))).len(), 0);
}

#[test]
fn negative_literal_operands_are_read_whole() {
    let t = tokens(&cs("x / - 1"));
    let (v, end) = simple_signed_value_operand_after(&t, 2).unwrap();
    assert_eq!(st(&v), "-1");
    assert_eq!(end, 4);
    let (l, start) = simple_signed_value_operand_before(&t, 1).unwrap();
    assert_eq!(st(&l), "x");
    assert_eq!(start, 0);
    assert!(simple_signed_value_operand_before(&t, 0).is_none());
}

#[test]
fn asserted_obligation_is_found_up_to_whitespace() {
    assert!(proof_body_asserts(&cs("{ assert(x > 0); }"), &cs("x>0")));
    assert!(proof_body_asserts(&cs("{ assert!(x > 0); }"), &cs("x > 0")));
    assert!(!proof_body_asserts(&cs("{ assert(y > 0); }"), &cs("x>0")));
}

#[test]
fn call_of_environment_function_instantiates_its_precondition() {
    let env = vec![TrustFunctionSummary {
        name: cs("f"),
        params: vec![Param { name: cs("n"), ty: cs("i32") }],
        preconditions: vec![cs("n > 0")],
    }];
    let t = tokens(&cs("let y = f(x);"));
    let obs = call_obligations_from_tokens(&t, &env, false, &Vec::new());
    assert_eq!(obs.len(), 1);
    assert_eq!(st(&obs[0].callee), "f");
    assert_eq!(st(&obs[0].condition), "x>0");
    let wrong_arity = tokens(&cs("let y = f(x, z);"));
    assert_eq!(call_obligations_from_tokens(&wrong_arity, &env, false, &Vec::new()).len(), 0);
}
