use trust_core::arith::SubObligation;
use trust_core::loops::semantic_loop_exit_facts;
use trust_core::metadata::TrustMetadata;
use trust_core::pipeline::{verify_total, verify_totals, verify_totals_with_options, verify_totals_with_semantics};
use trust_core::postcond::body;
use trust_core::segments::executable_token_segments;
use trust_core::arith::subtraction_obligations;
use trust_core::semantics::{
    SemanticArithmeticKind, SemanticArithmeticOperation, SemanticBranch, SemanticBranchArm, SemanticCall,
    SemanticContractBinding, SemanticContractBindingKind, SemanticFieldAccess, SemanticMatch, SemanticMatchArm,
    SemanticMatchPayload, SemanticParam, SemanticSliceIndex, SemanticTrustCallee, TrustFunctionSemantics,
    VerificationError,
};
use trust_core::solver::{Param, VerificationOptions};
use trust_core::tokens::normalize;
use trust_core::types::{parse_params, verification_value_params};

fn cs(s: &str) -> Vec<char> {
    s.chars().collect()
}

fn st(v: &[char]) -> String {
    v.iter().collect()
}

fn texts(v: &[Vec<char>]) -> Vec<String> {
    v.iter().map(|t| st(t)).collect()
}


fn metadata(function_source: &str, contracts: &[&str]) -> TrustMetadata {
    metadata_named("add_one", function_source, contracts)
}

fn metadata_named(name: &str, function_source: &str, contracts: &[&str]) -> TrustMetadata {
    metadata_named_with_classes(
        name,
        function_source,
        contracts,
        &vec!["given executable"; contracts.len()],
    )
}

fn metadata_named_with_classes(
    name: &str,
    function_source: &str,
    contracts: &[&str],
    classes: &[&str],
) -> TrustMetadata {
    TrustMetadata {
        schema_version: 1,
        trust_macro_version: "test".to_string(),
        module_id: "test-module".to_string(),
        item_kind: "total".to_string(),
        item_id: format!("total:{name}:test"),
        source_span: "test-span".to_string(),
        rust_function_path: name.to_string(),
        visibility: "public".to_string(),
        contracts_original: contracts
            .iter()
            .map(|contract| contract.to_string())
            .collect(),
        contracts_normalized: contracts
            .iter()
            .map(|contract| contract.to_string())
            .collect(),
        contract_classes: classes.iter().map(|class| class.to_string()).collect(),
        assertion_policy: "always".to_string(),
        function_source: function_source.to_string(),
        body_hash_placeholder: format!("{name}-hash"),
        trust_model_dependencies: Vec::new(),
    }
}

fn model_metadata(name: &str) -> TrustMetadata {
    TrustMetadata {
        schema_version: 1,
        trust_macro_version: "test".to_string(),
        module_id: "test-module".to_string(),
        item_kind: "trust_model".to_string(),
        item_id: format!("model:{name}:test"),
        source_span: "test-span".to_string(),
        rust_function_path: name.to_string(),
        visibility: "public".to_string(),
        contracts_original: Vec::new(),
        contracts_normalized: Vec::new(),
        contract_classes: Vec::new(),
        assertion_policy: "always".to_string(),
        function_source: format!("pub struct {name} {{ pub balance: i64 }}"),
        body_hash_placeholder: format!("{name}-hash"),
        trust_model_dependencies: Vec::new(),
    }
}

fn executable_spec_metadata(name: &str, function_source: &str) -> TrustMetadata {
    TrustMetadata {
        schema_version: 1,
        trust_macro_version: "test".to_string(),
        module_id: "test-module".to_string(),
        item_kind: "spec".to_string(),
        item_id: format!("spec:executable:{name}:test"),
        source_span: "test-span".to_string(),
        rust_function_path: name.to_string(),
        visibility: "private".to_string(),
        contracts_original: Vec::new(),
        contracts_normalized: Vec::new(),
        contract_classes: Vec::new(),
        assertion_policy: "always".to_string(),
        function_source: function_source.to_string(),
        body_hash_placeholder: format!("{name}-hash"),
        trust_model_dependencies: Vec::new(),
    }
}

fn ghost_spec_metadata(name: &str, function_source: &str) -> TrustMetadata {
    let mut metadata = executable_spec_metadata(name, function_source);
    metadata.item_id = format!("spec:ghost:{name}:test");
    metadata
}

fn proof_metadata(name: &str, function_source: &str, contracts: &[&str]) -> TrustMetadata {
    TrustMetadata {
        schema_version: 1,
        trust_macro_version: "test".to_string(),
        module_id: "test-module".to_string(),
        item_kind: "proof".to_string(),
        item_id: format!("proof:{name}:test"),
        source_span: "test-span".to_string(),
        rust_function_path: name.to_string(),
        visibility: "private".to_string(),
        contracts_original: contracts
            .iter()
            .map(|contract| contract.to_string())
            .collect(),
        contracts_normalized: contracts
            .iter()
            .map(|contract| contract.to_string())
            .collect(),
        contract_classes: vec!["gives ghost".to_string(); contracts.len()],
        assertion_policy: "always".to_string(),
        function_source: function_source.to_string(),
        body_hash_placeholder: format!("{name}-hash"),
        trust_model_dependencies: Vec::new(),
    }
}

#[test]
fn proves_i32_add_one_from_executable_precondition() {
    let metadata = metadata("pub fn add_one(x: i32) -> i32 { x + 1 }", &["x < i32::MAX"]);

    assert_eq!(verify_total(&metadata), Ok(()));
}

#[test]
fn z3_proves_i32_add_one_from_strict_numeric_max() {
    let metadata = metadata_named(
        "add_one",
        "pub fn add_one(x: i32) -> i32 { x + 1 }",
        &["x < 2147483647"],
    );

    assert!(matches!(
        verify_total(&metadata),
        Err(VerificationError::IntegerAdditionOverflow { .. })
    ));
    assert_eq!(
        verify_totals_with_options(&[metadata], VerificationOptions::z3(5000)),
        Ok(())
    );
}

#[test]
fn target_pointer_width_controls_usize_addition_bounds() {
    let metadata = metadata_named(
        "inc",
        "pub fn inc(n: usize) -> usize { n + 1 }",
        &["n <= 5000000000"],
    );

    assert_eq!(
        verify_totals_with_options(
            &[metadata.clone()],
            VerificationOptions::z3(5000).with_target_pointer_width(64),
        ),
        Ok(())
    );
    assert_eq!(
        verify_totals_with_options(
            &[metadata],
            VerificationOptions::z3(5000).with_target_pointer_width(32),
        ),
        Err(VerificationError::IntegerAdditionOverflow {
            function: "inc".to_string(),
            expression: "n + 1".to_string(),
        })
    );
}

#[test]
fn target_cfg_disabled_code_is_not_verified_from_tokens() {
    let metadata = metadata_named_with_classes(
        "cfg_zero",
        "pub fn cfg_zero(x: i32) -> i32 { #[cfg(target_pointer_width = \"16\")] { x + 1 } #[cfg(not(target_pointer_width = \"16\"))] { 0 } }",
        &["out == 0"],
        &["gives ghost"],
    );
    let semantics = TrustFunctionSemantics {
        rust_function_path: "cfg_zero".to_string(),
        params: vec![SemanticParam {
            name: "x".to_string(),
            ty: "i32".to_string(),
        }],
        return_type: "i32".to_string(),
        local_types: Vec::new(),
        contract_bindings: Vec::new(),
        return_expression: Some("0".to_string()),
        arithmetic_operations: Vec::new(),
        slice_indexes: Vec::new(),
        calls: Vec::new(),
        field_accesses: Vec::new(),
        matches: Vec::new(),
        branches: vec![SemanticBranch {
            condition: "n > 0".to_string(),
            arms: vec![
                SemanticBranchArm {
                    guard: "n > 0".to_string(),
                    assumptions: Vec::new(),
                    return_expression: None,
                },
                SemanticBranchArm {
                    guard: "n <= 0".to_string(),
                    assumptions: Vec::new(),
                    return_expression: None,
                },
            ],
        }],
    };

    assert_eq!(
        verify_totals_with_semantics(
            &[metadata],
            &[semantics],
            VerificationOptions::default().with_target_pointer_width(64),
        ),
        Ok(())
    );
}

#[test]
fn z3_does_not_prove_postcondition_from_unbound_contract_identifier() {
    let mut metadata = metadata_named_with_classes(
        "id",
        "fn id(x: i32) -> i32 { x }",
        &["y == x", "out == y"],
        &["given ghost", "gives ghost"],
    );
    metadata.visibility = "private".to_string();

    assert_eq!(
        verify_totals_with_options(&[metadata], VerificationOptions::z3(5000)),
        Err(VerificationError::PostconditionUnproved {
            function: "id".to_string(),
            condition: "out == y".to_string(),
        })
    );
}

#[test]
fn proves_proof_obligation_from_assert_step() {
    let proof = proof_metadata(
        "le_refl",
        "fn le_refl(a: i32) gives ghost { a <= a; } { assert(a <= a); }",
        &["a <= a"],
    );

    assert_eq!(verify_totals(&[proof]), Ok(()));
}

#[test]
fn rejects_unproved_proof_obligation() {
    let proof = proof_metadata(
        "le_refl",
        "fn le_refl(a: i32, b: i32) gives ghost { a <= a; } { assert(a <= b); }",
        &["a <= a"],
    );

    assert_eq!(
        verify_totals(&[proof]),
        Err(VerificationError::ProofObligationUnproved {
            proof: "le_refl".to_string(),
            condition: "a <= a".to_string(),
        })
    );
}

#[test]
fn rejects_unsupported_proof_step() {
    let proof = proof_metadata(
        "le_refl",
        "fn le_refl(a: i32) gives ghost { a <= a; } { println!(\"runtime\"); assert(a <= a); }",
        &["a <= a"],
    );

    assert_eq!(
        verify_totals(&[proof]),
        Err(VerificationError::UnsupportedProofStep {
            proof: "le_refl".to_string(),
        })
    );
}

#[test]
fn proves_i64_add_one_from_executable_precondition() {
    let metadata = metadata_named(
        "add_one_i64",
        "pub fn add_one_i64(x: i64) -> i64 { x + 1 }",
        &["x < i64::MAX"],
    );

    assert_eq!(verify_total(&metadata), Ok(()));
}

#[test]
fn proves_u32_add_one_from_executable_precondition() {
    let metadata = metadata_named(
        "add_one_u32",
        "pub fn add_one_u32(x: u32) -> u32 { x + 1 }",
        &["x < u32::MAX"],
    );

    assert_eq!(verify_total(&metadata), Ok(()));
}

#[test]
fn rejects_unproved_u32_add_one() {
    let metadata = metadata_named(
        "add_one_u32",
        "pub fn add_one_u32(x: u32) -> u32 { x + 1 }",
        &[],
    );

    assert_eq!(
        verify_total(&metadata),
        Err(VerificationError::IntegerAdditionOverflow {
            function: "add_one_u32".to_string(),
            expression: "x + 1".to_string(),
        })
    );
}

#[test]
fn rejects_unproved_i32_add_one() {
    let metadata = metadata("pub fn add_one(x: i32) -> i32 { x + 1 }", &[]);

    assert_eq!(
        verify_total(&metadata),
        Err(VerificationError::IntegerAdditionOverflow {
            function: "add_one".to_string(),
            expression: "x + 1".to_string(),
        })
    );
}

#[test]
fn rejects_unproved_variable_addition() {
    let metadata = metadata_named("add", "pub fn add(x: i32, y: i32) -> i32 { x + y }", &[]);

    assert_eq!(
        verify_total(&metadata),
        Err(VerificationError::IntegerAdditionOverflow {
            function: "add".to_string(),
            expression: "x + y".to_string(),
        })
    );
}

#[test]
fn rejects_parenthesized_variable_addition() {
    let metadata = metadata_named("add", "pub fn add(x: i32, y: i32) -> i32 { x + (y) }", &[]);

    assert_eq!(
        verify_total(&metadata),
        Err(VerificationError::IntegerAdditionOverflow {
            function: "add".to_string(),
            expression: "x + y".to_string(),
        })
    );
}

#[test]
fn rejects_complex_parenthesized_addition_operand() {
    let metadata = metadata_named(
        "add",
        "pub fn add(x: i32, y: i32) -> i32 { x + (y + 1) }",
        &[],
    );

    assert_eq!(
        verify_total(&metadata),
        Err(VerificationError::IntegerAdditionOverflow {
            function: "add".to_string(),
            expression: "x + (y+1)".to_string(),
        })
    );
}

#[test]
fn ignores_non_arithmetic_identity() {
    let metadata = metadata("pub fn id_i32(x: i32) -> i32 { x }", &[]);

    assert_eq!(verify_total(&metadata), Ok(()));
}

#[test]
fn proves_i32_sub_one_from_executable_precondition() {
    let metadata = metadata("pub fn sub_one(x: i32) -> i32 { x - 1 }", &["x > i32::MIN"]);

    assert_eq!(verify_total(&metadata), Ok(()));
}

#[test]
fn rejects_unproved_i32_sub_one() {
    let metadata = metadata_named("sub_one", "pub fn sub_one(x: i32) -> i32 { x - 1 }", &[]);

    assert_eq!(
        verify_total(&metadata),
        Err(VerificationError::IntegerSubtractionOverflow {
            function: "sub_one".to_string(),
            expression: "x - 1".to_string(),
        })
    );
}

#[test]
fn z3_proves_i32_sub_one_from_strict_numeric_min() {
    let metadata = metadata_named(
        "sub_one",
        "pub fn sub_one(x: i32) -> i32 { x - 1 }",
        &["x > -2147483648"],
    );

    assert!(matches!(
        verify_total(&metadata),
        Err(VerificationError::IntegerSubtractionOverflow { .. })
    ));
    assert_eq!(
        verify_totals_with_options(&[metadata], VerificationOptions::z3(5000)),
        Ok(())
    );
}

#[test]
fn proves_field_subtraction_from_nonnegative_bound() {
    let account = model_metadata("Account");
    let withdraw = metadata_named(
        "withdraw",
        "pub fn withdraw(acct: Account, amount: i64) -> Account { Account { balance: acct.balance - amount } }",
        &["amount >= 0", "acct.balance >= amount"],
    );

    assert_eq!(verify_totals(&[account, withdraw]), Ok(()));
}

#[test]
fn rejects_unproved_variable_subtraction() {
    let metadata = metadata_named("sub", "pub fn sub(x: i32, y: i32) -> i32 { x - y }", &[]);

    assert_eq!(
        verify_total(&metadata),
        Err(VerificationError::IntegerSubtractionOverflow {
            function: "sub".to_string(),
            expression: "x - y".to_string(),
        })
    );
}

#[test]
fn proves_usize_sub_one_from_executable_precondition() {
    let metadata = metadata("pub fn pred(n: usize) -> usize { n - 1 }", &["n >= 1"]);

    assert_eq!(verify_total(&metadata), Ok(()));
}

#[test]
fn rejects_unproved_usize_sub_one() {
    let metadata = metadata_named("pred", "pub fn pred(n: usize) -> usize { n - 1 }", &[]);

    assert_eq!(
        verify_total(&metadata),
        Err(VerificationError::IntegerSubtractionOverflow {
            function: "pred".to_string(),
            expression: "n - 1".to_string(),
        })
    );
}

#[test]
fn proves_i32_negation_from_executable_precondition() {
    let metadata = metadata_named(
        "abs_nonmin",
        "pub fn abs_nonmin(x: i32) -> i32 { if x < 0 { -x } else { x } }",
        &["x > i32::MIN"],
    );

    assert_eq!(verify_total(&metadata), Ok(()));
}

#[test]
fn rejects_unproved_i32_negation() {
    let metadata = metadata_named(
        "abs_nonmin",
        "pub fn abs_nonmin(x: i32) -> i32 { if x < 0 { -x } else { x } }",
        &[],
    );

    assert_eq!(
        verify_total(&metadata),
        Err(VerificationError::IntegerNegationOverflow {
            function: "abs_nonmin".to_string(),
            expression: "-x".to_string(),
        })
    );
}

#[test]
fn proves_i32_mul_two_from_executable_preconditions() {
    let metadata = metadata_named(
        "double",
        "pub fn double(x: i32) -> i32 { x * 2 }",
        &["x <= i32::MAX / 2", "x >= i32::MIN / 2"],
    );

    assert_eq!(verify_total(&metadata), Ok(()));
}

#[test]
fn rejects_unproved_i32_mul_two() {
    let metadata = metadata_named("double", "pub fn double(x: i32) -> i32 { x * 2 }", &[]);

    assert_eq!(
        verify_total(&metadata),
        Err(VerificationError::IntegerMultiplicationOverflow {
            function: "double".to_string(),
            expression: "x * 2".to_string(),
        })
    );
}

#[test]
fn z3_proves_i32_mul_two_from_strict_numeric_upper_bound() {
    let metadata = metadata_named(
        "double",
        "pub fn double(x: i32) -> i32 { x * 2 }",
        &["x < 1073741824", "x >= -1073741824"],
    );

    assert!(matches!(
        verify_total(&metadata),
        Err(VerificationError::IntegerMultiplicationOverflow { .. })
    ));
    assert_eq!(
        verify_totals_with_options(&[metadata], VerificationOptions::z3(5000)),
        Ok(())
    );
}

#[test]
fn rejects_unproved_variable_multiplication() {
    let metadata = metadata_named("mul", "pub fn mul(x: i32, y: i32) -> i32 { x * y }", &[]);

    assert_eq!(
        verify_total(&metadata),
        Err(VerificationError::IntegerMultiplicationOverflow {
            function: "mul".to_string(),
            expression: "x * y".to_string(),
        })
    );
}

#[test]
fn proves_usize_mul_two_from_executable_precondition() {
    let metadata = metadata_named(
        "double",
        "pub fn double(n: usize) -> usize { n * 2 }",
        &["n <= usize::MAX / 2"],
    );

    assert_eq!(verify_total(&metadata), Ok(()));
}

#[test]
fn proves_integer_division_denominator_nonzero() {
    let metadata = metadata_named(
        "div",
        "pub fn div(x: i32, y: i32) -> i32 { x / y }",
        &["y != 0", "x > i32::MIN"],
    );

    assert_eq!(verify_total(&metadata), Ok(()));
}

#[test]
fn z3_proves_integer_division_denominator_from_positive_lower_bound() {
    let metadata = metadata_named(
        "div",
        "pub fn div(x: i32, y: i32) -> i32 { x / y }",
        &["y >= 1"],
    );

    assert!(matches!(
        verify_total(&metadata),
        Err(VerificationError::IntegerDivisionByZero { .. })
    ));
    assert_eq!(
        verify_totals_with_options(&[metadata], VerificationOptions::z3(5000)),
        Ok(())
    );
}

#[test]
fn rejects_unproved_integer_division_denominator() {
    let metadata = metadata_named("div", "pub fn div(x: i32, y: i32) -> i32 { x / y }", &[]);

    assert_eq!(
        verify_total(&metadata),
        Err(VerificationError::IntegerDivisionByZero {
            function: "div".to_string(),
            expression: "x / y".to_string(),
        })
    );
}

#[test]
fn rejects_parenthesized_integer_division_denominator() {
    let metadata = metadata_named("div", "pub fn div(x: i32, y: i32) -> i32 { x / (y) }", &[]);

    assert_eq!(
        verify_total(&metadata),
        Err(VerificationError::IntegerDivisionByZero {
            function: "div".to_string(),
            expression: "x / y".to_string(),
        })
    );
}

#[test]
fn rejects_complex_parenthesized_integer_division_denominator() {
    let metadata = metadata_named(
        "div",
        "pub fn div(x: i32, y: i32) -> i32 { x / (y + 0) }",
        &[],
    );

    assert_eq!(
        verify_total(&metadata),
        Err(VerificationError::IntegerDivisionByZero {
            function: "div".to_string(),
            expression: "x / (y+0)".to_string(),
        })
    );
}

#[test]
fn rejects_unproved_integer_remainder_denominator() {
    let metadata = metadata_named("rem", "pub fn rem(x: i32, y: i32) -> i32 { x % y }", &[]);

    assert_eq!(
        verify_total(&metadata),
        Err(VerificationError::IntegerRemainderByZero {
            function: "rem".to_string(),
            expression: "x % y".to_string(),
        })
    );
}

#[test]
fn rejects_unproved_signed_division_overflow() {
    let metadata = metadata_named(
        "div_neg_one",
        "pub fn div_neg_one(x: i32) -> i32 { x / -1 }",
        &[],
    );

    assert_eq!(
        verify_total(&metadata),
        Err(VerificationError::IntegerDivisionOverflow {
            function: "div_neg_one".to_string(),
            expression: "x / -1".to_string(),
        })
    );
}

#[test]
fn rejects_signed_division_overflow_when_only_denominator_nonzero_is_proved() {
    let metadata = metadata_named(
        "div",
        "pub fn div(x: i32, y: i32) -> i32 { x / y }",
        &["y != 0"],
    );

    assert_eq!(
        verify_total(&metadata),
        Err(VerificationError::IntegerDivisionOverflow {
            function: "div".to_string(),
            expression: "x / y".to_string(),
        })
    );
}

#[test]
fn proves_signed_division_overflow_from_left_lower_bound() {
    let metadata = metadata_named(
        "div_neg_one",
        "pub fn div_neg_one(x: i32) -> i32 { x / -1 }",
        &["x > i32::MIN"],
    );

    assert_eq!(verify_total(&metadata), Ok(()));
}

#[test]
fn proves_signed_division_overflow_from_denominator_bound() {
    let metadata = metadata_named(
        "div",
        "pub fn div(x: i32, y: i32) -> i32 { x / y }",
        &["y > 0"],
    );

    assert_eq!(verify_total(&metadata), Ok(()));
}

#[test]
fn z3_proves_signed_division_overflow_from_denominator_lower_bound() {
    let metadata = metadata_named(
        "div",
        "pub fn div(x: i32, y: i32) -> i32 { x / y }",
        &["y >= 1"],
    );

    assert!(matches!(
        verify_total(&metadata),
        Err(VerificationError::IntegerDivisionByZero { .. })
    ));
    assert_eq!(
        verify_totals_with_options(&[metadata], VerificationOptions::z3(5000)),
        Ok(())
    );
}

#[test]
fn rejects_unproved_signed_remainder_overflow() {
    let metadata = metadata_named(
        "rem_neg_one",
        "pub fn rem_neg_one(x: i32) -> i32 { x % -1 }",
        &[],
    );

    assert_eq!(
        verify_total(&metadata),
        Err(VerificationError::IntegerRemainderOverflow {
            function: "rem_neg_one".to_string(),
            expression: "x % -1".to_string(),
        })
    );
}

#[test]
fn proves_slice_index_from_executable_precondition() {
    let metadata = metadata_named(
        "get",
        "pub fn get(xs: &[i32], i: usize) -> i32 { xs[i] }",
        &["i < xs.len()"],
    );

    assert_eq!(verify_total(&metadata), Ok(()));
}

#[test]
fn proves_first_slice_index_from_nonempty_precondition() {
    let metadata = metadata_named(
        "first",
        "pub fn first(xs: &[i32]) -> i32 { xs[0] }",
        &["xs.len() > 0"],
    );

    assert_eq!(verify_total(&metadata), Ok(()));
}

#[test]
fn rejects_unproved_slice_index() {
    let metadata = metadata_named("first", "pub fn first(xs: &[i32]) -> i32 { xs[0] }", &[]);

    assert_eq!(
        verify_total(&metadata),
        Err(VerificationError::SliceIndexOutOfBounds {
            function: "first".to_string(),
            expression: "xs[0]".to_string(),
        })
    );
}

#[test]
fn rejects_unsupported_vec_index() {
    let metadata = metadata_named(
        "get_vec",
        "pub fn get_vec(xs: Vec<i32>, i: usize) -> i32 { xs[i] }",
        &[],
    );

    assert_eq!(
        verify_total(&metadata),
        Err(VerificationError::UnsupportedIndex {
            function: "get_vec".to_string(),
            expression: "xs[i]".to_string(),
        })
    );
}

#[test]
fn proves_callee_precondition_from_caller_precondition() {
    let get = metadata_named(
        "get",
        "pub fn get(xs: &[i32], i: usize) -> i32 { xs[i] }",
        &["i < xs.len()"],
    );
    let first = metadata_named(
        "first",
        "pub fn first(xs: &[i32]) -> i32 { get(xs, 0) }",
        &["xs.len() > 0"],
    );

    assert_eq!(verify_totals(&[get, first]), Ok(()));
}

#[test]
fn z3_proves_callee_precondition_from_equivalent_numeric_bound() {
    let inc = metadata_named(
        "inc",
        "pub fn inc(x: i32) -> i32 { x + 1 }",
        &["x < i32::MAX"],
    );
    let caller = metadata_named(
        "caller",
        "pub fn caller(x: i32) -> i32 { inc(x) }",
        &["x < 2147483647"],
    );

    assert!(matches!(
        verify_totals(&[inc.clone(), caller.clone()]),
        Err(VerificationError::CalleePreconditionUnproved { .. })
    ));
    assert_eq!(
        verify_totals_with_options(&[inc, caller], VerificationOptions::z3(5000)),
        Ok(())
    );
}

#[test]
fn rejects_unproved_callee_precondition() {
    let get = metadata_named(
        "get",
        "pub fn get(xs: &[i32], i: usize) -> i32 { xs[i] }",
        &["i < xs.len()"],
    );
    let bad_first = metadata_named(
        "bad_first",
        "pub fn bad_first(xs: &[i32]) -> i32 { get(xs, 0) }",
        &[],
    );

    assert_eq!(
        verify_totals(&[get, bad_first]),
        Err(VerificationError::CalleePreconditionUnproved {
            function: "bad_first".to_string(),
            callee: "get".to_string(),
            condition: "0<xs.len()".to_string(),
        })
    );
}

#[test]
fn proves_field_access_for_trust_model_type() {
    let account = model_metadata("Account");
    let balance = metadata_named(
        "balance",
        "pub fn balance(acct: Account) -> i64 { acct.balance }",
        &[],
    );

    assert_eq!(verify_totals(&[account, balance]), Ok(()));
}

#[test]
fn rejects_unsupported_float_signature_type() {
    let metadata = metadata_named("id_f32", "pub fn id_f32(x: f32) -> f32 { x }", &[]);

    assert_eq!(
        verify_total(&metadata),
        Err(VerificationError::UnsupportedType {
            function: "id_f32".to_string(),
            ty: "f32".to_string(),
        })
    );
}

#[test]
fn rejects_unsupported_nested_float_signature_type() {
    let metadata = metadata_named(
        "maybe",
        "pub fn maybe(x: Option<f32>) -> Option<f32> { x }",
        &[],
    );

    assert_eq!(
        verify_total(&metadata),
        Err(VerificationError::UnsupportedType {
            function: "maybe".to_string(),
            ty: "f32".to_string(),
        })
    );
}

#[test]
fn rejects_unsupported_semantic_local_float_type() {
    let metadata = metadata_named(
        "keep",
        "pub fn keep(x: i32) -> i32 { let y = 1.0f32; let _ = y; x }",
        &[],
    );
    let semantics = TrustFunctionSemantics {
        rust_function_path: "keep".to_string(),
        params: vec![SemanticParam {
            name: "x".to_string(),
            ty: "i32".to_string(),
        }],
        return_type: "i32".to_string(),
        local_types: vec!["i32".to_string(), "f32".to_string()],
        contract_bindings: Vec::new(),
        return_expression: Some("x".to_string()),
        arithmetic_operations: Vec::new(),
        slice_indexes: Vec::new(),
        calls: Vec::new(),
        field_accesses: Vec::new(),
        matches: Vec::new(),
        branches: Vec::new(),
    };

    assert_eq!(
        verify_totals_with_semantics(&[metadata], &[semantics], VerificationOptions::default()),
        Err(VerificationError::UnsupportedType {
            function: "keep".to_string(),
            ty: "f32".to_string(),
        })
    );
}

#[test]
fn allows_opaque_type_pass_through_without_contract_reasoning() {
    let metadata = metadata_named(
        "id_string",
        "pub fn id_string(x: String) -> String { x }",
        &[],
    );

    assert_eq!(verify_total(&metadata), Ok(()));
}

#[test]
fn rejects_opaque_type_contract_reasoning() {
    let metadata = metadata_named_with_classes(
        "id_string",
        "pub fn id_string(x: String) -> String { x }",
        &["out == x"],
        &["gives ghost"],
    );

    assert_eq!(
        verify_total(&metadata),
        Err(VerificationError::UnsupportedType {
            function: "id_string".to_string(),
            ty: "String".to_string(),
        })
    );
}

#[test]
fn rejects_field_access_without_trust_model_type() {
    let balance = metadata_named(
        "balance",
        "pub fn balance(acct: Account) -> i64 { acct.balance }",
        &[],
    );

    assert_eq!(
        verify_totals(&[balance]),
        Err(VerificationError::MissingTrustModel {
            function: "balance".to_string(),
            ty: "Account".to_string(),
        })
    );
}

#[test]
fn partial_semantic_field_accesses_fail_closed() {
    let balance = metadata_named(
        "balance",
        "pub fn balance(acct: Account) -> i64 { acct.balance }",
        &[],
    );
    let semantics = TrustFunctionSemantics {
        rust_function_path: "balance".to_string(),
        params: vec![SemanticParam {
            name: "acct".to_string(),
            ty: "Account".to_string(),
        }],
        return_type: "i64".to_string(),
        local_types: Vec::new(),
        contract_bindings: Vec::new(),
        return_expression: Some("acct.balance".to_string()),
        arithmetic_operations: Vec::new(),
        slice_indexes: Vec::new(),
        calls: Vec::new(),
        field_accesses: Vec::new(),
        matches: Vec::new(),
        branches: Vec::new(),
    };

    assert_eq!(
        verify_totals_with_semantics(&[balance], &[semantics], VerificationOptions::default()),
        Err(VerificationError::SemanticExtractionIncomplete {
            function: "balance".to_string(),
            category: "field access".to_string(),
            expression: "acct.balance".to_string(),
        })
    );
}

#[test]
fn proves_countdown_loop_decreases_and_postcondition() {
    let metadata = metadata_named_with_classes(
        "countdown",
        "pub fn countdown(mut n: usize) -> usize { trust::loop_spec! { invariant(n >= 0); decreases(n); } while n > 0 { n = n - 1; } n }",
        &["out == 0"],
        &["gives executable"],
    );

    assert_eq!(verify_total(&metadata), Ok(()));
}

#[test]
fn semantic_loop_decreases_uses_mir_assignment_target() {
    let metadata = metadata_named_with_classes(
        "countdown",
        "pub fn countdown(mut n: usize) -> usize { trust::loop_spec! { decreases(n); } while n > 0 { n -= 1; } n }",
        &["out == 0"],
        &["gives executable"],
    );
    let semantics = TrustFunctionSemantics {
        rust_function_path: "countdown".to_string(),
        params: vec![SemanticParam {
            name: "n".to_string(),
            ty: "usize".to_string(),
        }],
        return_type: "usize".to_string(),
        local_types: Vec::new(),
        contract_bindings: Vec::new(),
        return_expression: Some("n".to_string()),
        arithmetic_operations: vec![SemanticArithmeticOperation {
            kind: SemanticArithmeticKind::Sub,
            ty: Some("usize".to_string()),
            target: Some("n".to_string()),
            left: "n".to_string(),
            right: Some("1".to_string()),
            expression: "n - 1".to_string(),
            guards: vec!["n > 0".to_string()],
        }],
        slice_indexes: Vec::new(),
        calls: Vec::new(),
        field_accesses: Vec::new(),
        matches: Vec::new(),
        branches: vec![SemanticBranch {
            condition: "n > 0".to_string(),
            arms: vec![
                SemanticBranchArm {
                    guard: "n > 0".to_string(),
                    assumptions: Vec::new(),
                    return_expression: None,
                },
                SemanticBranchArm {
                    guard: "n <= 0".to_string(),
                    assumptions: Vec::new(),
                    return_expression: None,
                },
            ],
        }],
    };

    assert_eq!(
        verify_total(&metadata),
        Err(VerificationError::LoopDecreasesNotDecreasing {
            function: "countdown".to_string(),
            measure: "n".to_string(),
        })
    );
    assert_eq!(
        verify_totals_with_semantics(&[metadata], &[semantics], VerificationOptions::default()),
        Ok(())
    );
}

#[test]
fn partial_semantic_loop_decreases_fails_closed() {
    let metadata = metadata_named_with_classes(
        "countdown",
        "pub fn countdown(mut n: usize) -> usize { trust::loop_spec! { decreases(n); } while n > 0 { n = n - 1; } n }",
        &[],
        &[],
    );
    let semantics = TrustFunctionSemantics {
        rust_function_path: "countdown".to_string(),
        params: vec![SemanticParam {
            name: "n".to_string(),
            ty: "usize".to_string(),
        }],
        return_type: "usize".to_string(),
        local_types: Vec::new(),
        contract_bindings: Vec::new(),
        return_expression: Some("n".to_string()),
        arithmetic_operations: Vec::new(),
        slice_indexes: Vec::new(),
        calls: Vec::new(),
        field_accesses: Vec::new(),
        matches: Vec::new(),
        branches: Vec::new(),
    };

    assert_eq!(verify_total(&metadata), Ok(()));
    assert_eq!(
        verify_totals_with_semantics(&[metadata], &[semantics], VerificationOptions::default()),
        Err(VerificationError::SemanticExtractionIncomplete {
            function: "countdown".to_string(),
            category: "loop decreases".to_string(),
            expression: "n".to_string(),
        })
    );
}

#[test]
fn partial_semantic_loop_invariant_fails_closed() {
    let metadata = metadata_named_with_classes(
        "countdown_with_stable_bound",
        "pub fn countdown_with_stable_bound(mut i: usize, n: usize) -> usize { let x = 0; trust::loop_spec! { invariant(x <= n); decreases(i); } while i > 0 { i = i - 1; } i }",
        &[],
        &[],
    );
    let semantics = TrustFunctionSemantics {
        rust_function_path: "countdown_with_stable_bound".to_string(),
        params: vec![
            SemanticParam {
                name: "i".to_string(),
                ty: "usize".to_string(),
            },
            SemanticParam {
                name: "n".to_string(),
                ty: "usize".to_string(),
            },
        ],
        return_type: "usize".to_string(),
        local_types: Vec::new(),
        contract_bindings: Vec::new(),
        return_expression: Some("i".to_string()),
        arithmetic_operations: vec![SemanticArithmeticOperation {
            kind: SemanticArithmeticKind::Sub,
            ty: Some("usize".to_string()),
            target: Some("i".to_string()),
            left: "i".to_string(),
            right: Some("1".to_string()),
            expression: "i - 1".to_string(),
            guards: vec!["i > 0".to_string()],
        }],
        slice_indexes: Vec::new(),
        calls: Vec::new(),
        field_accesses: Vec::new(),
        matches: Vec::new(),
        branches: Vec::new(),
    };

    assert_eq!(verify_total(&metadata), Ok(()));
    assert_eq!(
        verify_totals_with_semantics(&[metadata], &[semantics], VerificationOptions::default()),
        Err(VerificationError::SemanticExtractionIncomplete {
            function: "countdown_with_stable_bound".to_string(),
            category: "loop invariant".to_string(),
            expression: "x<=n".to_string(),
        })
    );
}

#[test]
fn partial_semantic_loop_exit_fails_closed() {
    let metadata = metadata_named_with_classes(
        "countdown",
        "pub fn countdown(mut n: usize) -> usize { trust::loop_spec! { decreases(n); } while n > 0 { n -= 1; } n }",
        &["out == 0"],
        &["gives executable"],
    );
    let semantics = TrustFunctionSemantics {
        rust_function_path: "countdown".to_string(),
        params: vec![SemanticParam {
            name: "n".to_string(),
            ty: "usize".to_string(),
        }],
        return_type: "usize".to_string(),
        local_types: Vec::new(),
        contract_bindings: Vec::new(),
        return_expression: Some("n".to_string()),
        arithmetic_operations: vec![SemanticArithmeticOperation {
            kind: SemanticArithmeticKind::Sub,
            ty: Some("usize".to_string()),
            target: Some("n".to_string()),
            left: "n".to_string(),
            right: Some("1".to_string()),
            expression: "n - 1".to_string(),
            guards: vec!["n > 0".to_string()],
        }],
        slice_indexes: Vec::new(),
        calls: Vec::new(),
        field_accesses: Vec::new(),
        matches: Vec::new(),
        branches: Vec::new(),
    };

    assert_eq!(
        verify_totals_with_semantics(&[metadata], &[semantics], VerificationOptions::default()),
        Err(VerificationError::SemanticExtractionIncomplete {
            function: "countdown".to_string(),
            category: "loop exit".to_string(),
            expression: "n>0".to_string(),
        })
    );
}

#[test]
fn semantic_loop_exit_facts_use_mir_branch_guard() {
    let metadata = metadata_named_with_classes(
        "countdown",
        "pub fn countdown(mut n: usize) -> usize { trust::loop_spec! { decreases(n); } while (n > 0) { n -= 1; } n }",
        &["out == 0"],
        &["gives executable"],
    );
    let semantics = TrustFunctionSemantics {
        rust_function_path: "countdown".to_string(),
        params: vec![SemanticParam {
            name: "n".to_string(),
            ty: "usize".to_string(),
        }],
        return_type: "usize".to_string(),
        local_types: Vec::new(),
        contract_bindings: Vec::new(),
        return_expression: Some("n".to_string()),
        arithmetic_operations: vec![SemanticArithmeticOperation {
            kind: SemanticArithmeticKind::Sub,
            ty: Some("usize".to_string()),
            target: Some("n".to_string()),
            left: "n".to_string(),
            right: Some("1".to_string()),
            expression: "n - 1".to_string(),
            guards: vec!["n > 0".to_string()],
        }],
        slice_indexes: Vec::new(),
        calls: Vec::new(),
        field_accesses: Vec::new(),
        matches: Vec::new(),
        branches: vec![SemanticBranch {
            condition: "n > 0".to_string(),
            arms: vec![
                SemanticBranchArm {
                    guard: "n > 0".to_string(),
                    assumptions: Vec::new(),
                    return_expression: None,
                },
                SemanticBranchArm {
                    guard: "n <= 0".to_string(),
                    assumptions: Vec::new(),
                    return_expression: None,
                },
            ],
        }],
    };

    assert_eq!(
        texts(&semantic_loop_exit_facts(Some(&semantics), &cs("(n > 0)"))),
        vec!["n<=0".to_string()]
    );
    assert_eq!(
        verify_totals_with_semantics(&[metadata], &[semantics], VerificationOptions::default()),
        Ok(())
    );
}

#[test]
fn loop_invariant_and_exit_fact_prove_postcondition() {
    let metadata = metadata_named_with_classes(
        "count_to",
        "pub fn count_to(n: usize) -> usize { let mut i = 0; trust::loop_spec! { invariant(i <= n); decreases(n - i); } while i < n { i += 1; } i }",
        &["out == n"],
        &["gives executable"],
    );

    assert_eq!(verify_total(&metadata), Ok(()));
}

#[test]
fn semantic_local_binding_proves_local_loop_measure_and_postcondition() {
    let metadata = metadata_named_with_classes(
        "countdown_local",
        "pub fn countdown_local(n: usize) -> usize { let mut i = n; trust::loop_spec! { invariant(i >= 0); decreases(i); } while i > 0 { i -= 1; } i }",
        &["out == 0"],
        &["gives executable"],
    );
    let semantics = TrustFunctionSemantics {
        rust_function_path: "countdown_local".to_string(),
        params: vec![SemanticParam {
            name: "n".to_string(),
            ty: "usize".to_string(),
        }],
        return_type: "usize".to_string(),
        local_types: vec!["usize".to_string()],
        contract_bindings: vec![SemanticContractBinding {
            expression: "i".to_string(),
            name: "i".to_string(),
            kind: SemanticContractBindingKind::Local,
            ty: "usize".to_string(),
        }],
        return_expression: Some("i".to_string()),
        arithmetic_operations: vec![SemanticArithmeticOperation {
            kind: SemanticArithmeticKind::Sub,
            ty: Some("usize".to_string()),
            target: Some("i".to_string()),
            left: "i".to_string(),
            right: Some("1".to_string()),
            expression: "i - 1".to_string(),
            guards: vec!["i > 0".to_string()],
        }],
        slice_indexes: Vec::new(),
        calls: Vec::new(),
        field_accesses: Vec::new(),
        matches: Vec::new(),
        branches: vec![SemanticBranch {
            condition: "i > 0".to_string(),
            arms: vec![
                SemanticBranchArm {
                    guard: "i > 0".to_string(),
                    assumptions: Vec::new(),
                    return_expression: None,
                },
                SemanticBranchArm {
                    guard: "i <= 0".to_string(),
                    assumptions: Vec::new(),
                    return_expression: None,
                },
            ],
        }],
    };

    assert_eq!(
        verify_totals_with_semantics(&[metadata], &[semantics], VerificationOptions::default()),
        Ok(())
    );
}

#[test]
fn rejects_loop_invariant_not_established() {
    let metadata = metadata_named(
        "count_from",
        "pub fn count_from(mut i: usize, n: usize) -> usize { trust::loop_spec! { invariant(i <= n); decreases(n - i); } while i < n { i += 1; } i }",
        &[],
    );

    assert_eq!(
        verify_total(&metadata),
        Err(VerificationError::LoopInvariantNotEstablished {
            function: "count_from".to_string(),
            invariant: "i<=n".to_string(),
        })
    );
}

#[test]
fn rejects_loop_missing_decreases() {
    let metadata = metadata_named(
        "count_up",
        "pub fn count_up(mut i: usize, n: usize) -> usize { trust::loop_spec! { invariant(i <= n); } while i < n { i += 1; } i }",
        &[],
    );

    assert_eq!(
        verify_total(&metadata),
        Err(VerificationError::LoopMissingDecreases {
            function: "count_up".to_string(),
        })
    );
}

#[test]
fn rejects_loop_without_spec() {
    let metadata = metadata_named(
        "countdown",
        "pub fn countdown(mut n: usize) -> usize { while n > 0 { n = n - 1; } n }",
        &[],
    );

    assert_eq!(
        verify_total(&metadata),
        Err(VerificationError::LoopMissingSpec {
            function: "countdown".to_string(),
        })
    );
}

#[test]
fn rejects_loop_spec_without_loop() {
    let metadata = metadata_named(
        "id",
        "pub fn id(n: usize) -> usize { trust::loop_spec! { decreases(n); } n }",
        &[],
    );

    assert_eq!(
        verify_total(&metadata),
        Err(VerificationError::LoopMissingSpec {
            function: "id".to_string(),
        })
    );
}

#[test]
fn rejects_two_specs_one_loop() {
    let metadata = metadata_named(
        "countdown",
        "pub fn countdown(mut n: usize) -> usize { trust::loop_spec! { decreases(n); } trust::loop_spec! { decreases(n); } while n > 0 { n = n - 1; } n }",
        &[],
    );

    assert_eq!(
        verify_total(&metadata),
        Err(VerificationError::LoopAmbiguousSpec {
            function: "countdown".to_string(),
        })
    );
}

#[test]
fn rejects_loop_break() {
    let metadata = metadata_named(
        "countdown",
        "pub fn countdown(mut n: usize) -> usize { trust::loop_spec! { decreases(n); } while n > 0 { break; } n }",
        &[],
    );

    assert_eq!(
        verify_total(&metadata),
        Err(VerificationError::UnsupportedLoopControl {
            function: "countdown".to_string(),
            keyword: "break".to_string(),
        })
    );
}

#[test]
fn rejects_loop_invariant_not_preserved() {
    let metadata = metadata_named(
        "count_up",
        "pub fn count_up(mut i: usize, n: usize) -> usize { trust::loop_spec! { invariant(i <= n); decreases(n - i); } while i < n { i = i + 2; } i }",
        &[],
    );

    assert_eq!(
        verify_total(&metadata),
        Err(VerificationError::LoopInvariantNotPreserved {
            function: "count_up".to_string(),
            invariant: "i<=n".to_string(),
        })
    );
}

#[test]
fn rejects_loop_decreases_not_decreasing() {
    let metadata = metadata_named(
        "count_up",
        "pub fn count_up(mut i: usize, n: usize) -> usize { trust::loop_spec! { invariant(i <= n); decreases(n - i); } while i < n { } i }",
        &[],
    );

    assert_eq!(
        verify_total(&metadata),
        Err(VerificationError::LoopDecreasesNotDecreasing {
            function: "count_up".to_string(),
            measure: "n-i".to_string(),
        })
    );
}

#[test]
fn rejects_division_using_loop_exit_value() {
    let metadata = metadata_named(
        "divide_after_countdown",
        "pub fn divide_after_countdown(mut n: usize) -> usize { trust::loop_spec! { decreases(n); } while n > 0 { n = n - 1; } 1 / n }",
        &[],
    );

    assert_eq!(
        verify_total(&metadata),
        Err(VerificationError::IntegerDivisionByZero {
            function: "divide_after_countdown".to_string(),
            expression: "1 / n".to_string(),
        })
    );
}

#[test]
fn loop_body_arithmetic_uses_loop_condition_assumption() {
    let source =
        "pub fn countdown(mut n: usize) -> usize { trust::loop_spec! { decreases(n); } while n > 0 { n = n - 1; } n }";
    let params = parse_params(&normalize(&cs(source)));
    let body = body(&cs(source));

    let segments: Vec<(Vec<String>, Vec<String>)> = executable_token_segments(&body)
        .iter()
        .map(|segment| (texts(&segment.tokens), texts(&segment.assumptions)))
        .collect();
    assert_eq!(
        segments,
        vec![
            (vec!["n".to_string(), ">".to_string(), "0".to_string()], Vec::<String>::new()),
            (
                vec![
                    "n".to_string(),
                    "=".to_string(),
                    "n".to_string(),
                    "-".to_string(),
                    "1".to_string(),
                    ";".to_string(),
                ],
                vec!["n>0".to_string()],
            ),
            (vec!["n".to_string()], Vec::<String>::new()),
        ]
    );

    let obligations: Vec<SubObligation> = subtraction_obligations(&body, &params);
    assert_eq!(obligations.len(), 1);
    let ob = &obligations[0];
    assert_eq!(st(&ob.variable), "n");
    assert_eq!(ob.ty.as_ref().map(|t| st(t)), Some("usize".to_string()));
    assert_eq!(ob.constant, Some(1));
    assert_eq!(ob.rhs.as_ref().map(|t| st(t)), None);
    assert_eq!(st(&ob.expression), "n - 1");
    assert_eq!(texts(&ob.assumptions), vec!["n>0".to_string()]);
}

#[test]
fn proves_struct_field_postconditions_with_old_values() {
    let account = model_metadata("Account");
    let withdraw = metadata_named_with_classes(
        "withdraw",
        "pub fn withdraw(acct: Account, amount: i64) -> Account { Account { id: acct.id, balance: acct.balance - amount } }",
        &[
            "amount >= 0",
            "acct.balance >= amount",
            "out.id == old(acct.id)",
            "int(out.balance) == int(old(acct.balance)) - int(old(amount))",
        ],
        &[
            "given executable",
            "given executable",
            "gives ghost",
            "gives ghost",
        ],
    );

    assert_eq!(verify_totals(&[account, withdraw]), Ok(()));
}

#[test]
fn rejects_wrong_struct_field_postcondition() {
    let account = model_metadata("Account");
    let withdraw = metadata_named_with_classes(
        "withdraw",
        "pub fn withdraw(acct: Account, amount: i64) -> Account { Account { id: 0, balance: acct.balance - amount } }",
        &[
            "amount >= 0",
            "acct.balance >= amount",
            "out.id == old(acct.id)",
        ],
        &["given executable", "given executable", "gives ghost"],
    );

    assert_eq!(
        verify_totals(&[account, withdraw]),
        Err(VerificationError::PostconditionUnproved {
            function: "withdraw".to_string(),
            condition: "out.id == old(acct.id)".to_string(),
        })
    );
}

#[test]
fn accepts_option_match() {
    let metadata = metadata_named(
        "unwrap_or_zero",
        "pub fn unwrap_or_zero(x: Option<i32>) -> i32 { match x { Some(v) => v, None => 0, } }",
        &[],
    );

    assert_eq!(verify_total(&metadata), Ok(()));
}

#[test]
fn rejects_unchecked_option_unwrap() {
    let metadata = metadata_named(
        "bad_unwrap",
        "pub fn bad_unwrap(x: Option<i32>) -> i32 { x.unwrap() }",
        &[],
    );

    assert_eq!(
        verify_total(&metadata),
        Err(VerificationError::UncheckedUnwrap {
            function: "bad_unwrap".to_string(),
        })
    );
}

#[test]
fn semantic_call_rejects_unchecked_option_unwrap() {
    let metadata = metadata_named(
        "bad_unwrap",
        "pub fn bad_unwrap(x: Option<i32>) -> i32 { 0 }",
        &[],
    );
    let semantics = TrustFunctionSemantics {
        rust_function_path: "bad_unwrap".to_string(),
        params: vec![SemanticParam {
            name: "x".to_string(),
            ty: "Option<i32>".to_string(),
        }],
        return_type: "i32".to_string(),
        local_types: Vec::new(),
        contract_bindings: Vec::new(),
        return_expression: Some("Option::<i32>::unwrap(x)".to_string()),
        arithmetic_operations: Vec::new(),
        slice_indexes: Vec::new(),
        calls: vec![SemanticCall {
            callee: "Option::<i32>::unwrap".to_string(),
            args: vec!["x".to_string()],
            guards: Vec::new(),
            trust_callee: None,
        }],
        field_accesses: Vec::new(),
        matches: Vec::new(),
        branches: Vec::new(),
    };

    assert_eq!(
        verify_totals_with_semantics(&[metadata], &[semantics], VerificationOptions::default()),
        Err(VerificationError::UncheckedUnwrap {
            function: "bad_unwrap".to_string(),
        })
    );
}

#[test]
fn rejects_unchecked_result_expect() {
    let metadata = metadata_named(
        "bad_expect",
        "pub fn bad_expect(x: Result<i32, i32>) -> i32 { x.expect(\"ok\") }",
        &[],
    );

    assert_eq!(
        verify_total(&metadata),
        Err(VerificationError::UncheckedUnwrap {
            function: "bad_expect".to_string(),
        })
    );
}

#[test]
fn semantic_call_rejects_unchecked_result_expect() {
    let metadata = metadata_named(
        "bad_expect",
        "pub fn bad_expect(x: Result<i32, i32>) -> i32 { 0 }",
        &[],
    );
    let semantics = TrustFunctionSemantics {
        rust_function_path: "bad_expect".to_string(),
        params: vec![SemanticParam {
            name: "x".to_string(),
            ty: "Result<i32, i32>".to_string(),
        }],
        return_type: "i32".to_string(),
        local_types: Vec::new(),
        contract_bindings: Vec::new(),
        return_expression: Some("Result::<i32, i32>::expect(x,const \"ok\")".to_string()),
        arithmetic_operations: Vec::new(),
        slice_indexes: Vec::new(),
        calls: vec![SemanticCall {
            callee: "Result::<i32, i32>::expect".to_string(),
            args: vec!["x".to_string(), "const \"ok\"".to_string()],
            guards: Vec::new(),
            trust_callee: None,
        }],
        field_accesses: Vec::new(),
        matches: Vec::new(),
        branches: Vec::new(),
    };

    assert_eq!(
        verify_totals_with_semantics(&[metadata], &[semantics], VerificationOptions::default()),
        Err(VerificationError::UncheckedUnwrap {
            function: "bad_expect".to_string(),
        })
    );
}

#[test]
fn rejects_ordinary_rust_call() {
    let metadata = metadata_named(
        "call_helper",
        "pub fn call_helper(x: i32) -> i32 { helper(x) }",
        &[],
    );

    assert_eq!(
        verify_total(&metadata),
        Err(VerificationError::UnsupportedCall {
            function: "call_helper".to_string(),
            callee: "helper".to_string(),
        })
    );
}

#[test]
fn rejects_unknown_method_call() {
    let metadata = metadata_named("abs", "pub fn abs(x: i32) -> i32 { x.abs() }", &[]);

    assert_eq!(
        verify_total(&metadata),
        Err(VerificationError::UnsupportedCall {
            function: "abs".to_string(),
            callee: "x.abs".to_string(),
        })
    );
}

#[test]
fn allows_slice_len_method() {
    let metadata = metadata_named("len", "pub fn len(xs: &[i32]) -> usize { xs.len() }", &[]);

    assert_eq!(verify_total(&metadata), Ok(()));
}

#[test]
fn semantic_len_call_allows_slice_alias_method() {
    let metadata = metadata_named(
        "get_or_zero",
        "pub fn get_or_zero(xs: &[i32], i: usize) -> i32 { let ys = xs; if i < ys.len() { ys[i] } else { 0 } }",
        &[],
    );
    let semantics = TrustFunctionSemantics {
        rust_function_path: "get_or_zero".to_string(),
        params: vec![
            SemanticParam {
                name: "xs".to_string(),
                ty: "&[i32]".to_string(),
            },
            SemanticParam {
                name: "i".to_string(),
                ty: "usize".to_string(),
            },
        ],
        return_type: "i32".to_string(),
        local_types: Vec::new(),
        contract_bindings: Vec::new(),
        return_expression: None,
        arithmetic_operations: Vec::new(),
        slice_indexes: vec![SemanticSliceIndex {
            base: "ys".to_string(),
            base_type: "&[i32]".to_string(),
            index: "i".to_string(),
            index_type: "usize".to_string(),
            element_type: "i32".to_string(),
            expression: "ys[i]".to_string(),
            guards: vec!["i < ys.len()".to_string()],
        }],
        calls: vec![SemanticCall {
            callee: "<slice>.len".to_string(),
            args: vec!["ys".to_string()],
            guards: Vec::new(),
            trust_callee: None,
        }],
        field_accesses: Vec::new(),
        matches: Vec::new(),
        branches: Vec::new(),
    };

    assert_eq!(
        verify_total(&metadata),
        Err(VerificationError::UnsupportedCall {
            function: "get_or_zero".to_string(),
            callee: "ys.len".to_string(),
        })
    );
    assert_eq!(
        verify_totals_with_semantics(&[metadata], &[semantics], VerificationOptions::default()),
        Ok(())
    );
}

#[test]
fn semantic_checked_add_call_allows_supported_integer_method() {
    let metadata = metadata_named_with_classes(
        "checked_sum",
        "pub fn checked_sum(x: i32, y: i32) -> Option<i32> { x.checked_add(y) }",
        &["out == x.checked_add(y)"],
        &["gives ghost"],
    );
    let semantics = TrustFunctionSemantics {
        rust_function_path: "checked_sum".to_string(),
        params: vec![
            SemanticParam {
                name: "x".to_string(),
                ty: "i32".to_string(),
            },
            SemanticParam {
                name: "y".to_string(),
                ty: "i32".to_string(),
            },
        ],
        return_type: "Option<i32>".to_string(),
        local_types: Vec::new(),
        contract_bindings: Vec::new(),
        return_expression: Some("x.checked_add(y)".to_string()),
        arithmetic_operations: Vec::new(),
        slice_indexes: Vec::new(),
        calls: vec![SemanticCall {
            callee: "core::num::<impl i32>::checked_add".to_string(),
            args: vec!["x".to_string(), "y".to_string()],
            guards: Vec::new(),
            trust_callee: None,
        }],
        field_accesses: Vec::new(),
        matches: Vec::new(),
        branches: Vec::new(),
    };

    assert_eq!(
        verify_total(&metadata),
        Err(VerificationError::UnsupportedCall {
            function: "checked_sum".to_string(),
            callee: "x.checked_add".to_string(),
        })
    );
    assert_eq!(
        verify_totals_with_semantics(&[metadata], &[semantics], VerificationOptions::default()),
        Ok(())
    );
}

#[test]
fn rejects_closure_body() {
    let metadata = metadata_named(
        "apply",
        "pub fn apply(x: i32) -> i32 { let inc = |n: i32| n + 1; inc(x) }",
        &[],
    );

    assert_eq!(
        verify_total(&metadata),
        Err(VerificationError::UnsupportedClosure {
            function: "apply".to_string(),
        })
    );
}

#[test]
fn semantic_call_rejects_closure_body() {
    let metadata = metadata_named("apply", "pub fn apply(x: i32) -> i32 { x }", &[]);
    let semantics = TrustFunctionSemantics {
        rust_function_path: "apply".to_string(),
        params: vec![SemanticParam {
            name: "x".to_string(),
            ty: "i32".to_string(),
        }],
        return_type: "i32".to_string(),
        local_types: Vec::new(),
        contract_bindings: Vec::new(),
        return_expression: Some("x".to_string()),
        arithmetic_operations: Vec::new(),
        slice_indexes: Vec::new(),
        calls: vec![SemanticCall {
            callee: "<{closure@src/lib.rs:1:1: 1:17} as Fn<(i32,)>>::call".to_string(),
            args: vec!["_2".to_string(), "(x,)".to_string()],
            guards: Vec::new(),
            trust_callee: None,
        }],
        field_accesses: Vec::new(),
        matches: Vec::new(),
        branches: Vec::new(),
    };

    assert_eq!(
        verify_totals_with_semantics(&[metadata], &[semantics], VerificationOptions::default()),
        Err(VerificationError::UnsupportedClosure {
            function: "apply".to_string(),
        })
    );
}

#[test]
fn rejects_recursive_total_call() {
    let recurse = metadata_named(
        "recurse",
        "pub fn recurse(x: i32) -> i32 { recurse(x) }",
        &[],
    );

    assert_eq!(
        verify_totals(&[recurse]),
        Err(VerificationError::UnsupportedCall {
            function: "recurse".to_string(),
            callee: "recurse".to_string(),
        })
    );
}

#[test]
fn rejects_explicit_panic() {
    let metadata = metadata_named("fail", "pub fn fail() -> i32 { panic!(\"boom\") }", &[]);

    assert_eq!(
        verify_total(&metadata),
        Err(VerificationError::ExplicitPanic {
            function: "fail".to_string(),
        })
    );
}

#[test]
fn semantic_call_rejects_explicit_panic() {
    let metadata = metadata_named("fail", "pub fn fail() -> i32 { 0 }", &[]);
    let semantics = TrustFunctionSemantics {
        rust_function_path: "fail".to_string(),
        params: Vec::new(),
        return_type: "i32".to_string(),
        local_types: Vec::new(),
        contract_bindings: Vec::new(),
        return_expression: None,
        arithmetic_operations: Vec::new(),
        slice_indexes: Vec::new(),
        calls: vec![SemanticCall {
            callee: "core::panicking::panic_fmt".to_string(),
            args: vec!["message".to_string()],
            guards: Vec::new(),
            trust_callee: None,
        }],
        field_accesses: Vec::new(),
        matches: Vec::new(),
        branches: Vec::new(),
    };

    assert_eq!(
        verify_totals_with_semantics(&[metadata], &[semantics], VerificationOptions::default()),
        Err(VerificationError::ExplicitPanic {
            function: "fail".to_string(),
        })
    );
}

#[test]
fn proves_executable_identity_postcondition() {
    let metadata = metadata_named_with_classes(
        "id_i32",
        "pub fn id_i32(x: i32) -> i32 { x }",
        &["out == x"],
        &["gives executable"],
    );

    assert_eq!(verify_total(&metadata), Ok(()));
}

#[test]
fn semantic_return_expression_can_prove_postcondition() {
    let metadata = metadata_named_with_classes(
        "id_i32",
        "pub fn id_i32(x: i32) -> i32 { 0 }",
        &["out == x"],
        &["gives ghost"],
    );
    let semantics = TrustFunctionSemantics {
        rust_function_path: "id_i32".to_string(),
        params: vec![SemanticParam {
            name: "x".to_string(),
            ty: "i32".to_string(),
        }],
        return_type: "i32".to_string(),
        local_types: Vec::new(),
        contract_bindings: Vec::new(),
        return_expression: Some("x".to_string()),
        arithmetic_operations: Vec::new(),
        slice_indexes: Vec::new(),
        calls: Vec::new(),
        field_accesses: Vec::new(),
        matches: Vec::new(),
        branches: Vec::new(),
    };

    assert!(matches!(
        verify_total(&metadata),
        Err(VerificationError::PostconditionUnproved { .. })
    ));
    assert_eq!(
        verify_totals_with_semantics(&[metadata], &[semantics], VerificationOptions::default()),
        Ok(())
    );
}

#[test]
fn semantic_return_expression_blocks_source_return_fallback() {
    let metadata = metadata_named_with_classes(
        "id_i32",
        "pub fn id_i32(x: i32) -> i32 { 0 }",
        &["out == 0"],
        &["gives ghost"],
    );
    let semantics = TrustFunctionSemantics {
        rust_function_path: "id_i32".to_string(),
        params: vec![SemanticParam {
            name: "x".to_string(),
            ty: "i32".to_string(),
        }],
        return_type: "i32".to_string(),
        local_types: Vec::new(),
        contract_bindings: Vec::new(),
        return_expression: Some("x".to_string()),
        arithmetic_operations: Vec::new(),
        slice_indexes: Vec::new(),
        calls: Vec::new(),
        field_accesses: Vec::new(),
        matches: Vec::new(),
        branches: Vec::new(),
    };

    assert_eq!(verify_total(&metadata), Ok(()));
    assert!(matches!(
        verify_totals_with_semantics(&[metadata], &[semantics], VerificationOptions::default()),
        Err(VerificationError::PostconditionUnproved { .. })
    ));
}

#[test]
fn partial_semantic_return_expression_fails_closed() {
    let metadata = metadata_named_with_classes(
        "zero",
        "pub fn zero() -> i32 { 0 }",
        &["out == 0"],
        &["gives ghost"],
    );
    let semantics = TrustFunctionSemantics {
        rust_function_path: "zero".to_string(),
        params: Vec::new(),
        return_type: "i32".to_string(),
        local_types: Vec::new(),
        contract_bindings: Vec::new(),
        return_expression: None,
        arithmetic_operations: Vec::new(),
        slice_indexes: Vec::new(),
        calls: Vec::new(),
        field_accesses: Vec::new(),
        matches: Vec::new(),
        branches: Vec::new(),
    };

    assert_eq!(verify_total(&metadata), Ok(()));
    assert_eq!(
        verify_totals_with_semantics(&[metadata], &[semantics], VerificationOptions::default()),
        Err(VerificationError::SemanticExtractionIncomplete {
            function: "zero".to_string(),
            category: "return expression".to_string(),
            expression: "0".to_string(),
        })
    );
}

#[test]
fn semantic_field_return_expression_can_prove_postcondition() {
    let account = model_metadata("Account");
    let metadata = metadata_named_with_classes(
        "balance",
        "pub fn balance(acct: Account) -> i64 { let out = acct.balance; out }",
        &["out == acct.balance"],
        &["gives ghost"],
    );
    let semantics = TrustFunctionSemantics {
        rust_function_path: "balance".to_string(),
        params: vec![SemanticParam {
            name: "acct".to_string(),
            ty: "Account".to_string(),
        }],
        return_type: "i64".to_string(),
        local_types: Vec::new(),
        contract_bindings: Vec::new(),
        return_expression: Some("acct.balance".to_string()),
        arithmetic_operations: Vec::new(),
        slice_indexes: Vec::new(),
        calls: Vec::new(),
        field_accesses: vec![SemanticFieldAccess {
            base: "acct".to_string(),
            field: "balance".to_string(),
            owner_type: "Account".to_string(),
            field_type: "i64".to_string(),
            expression: "acct.balance".to_string(),
        }],
        matches: Vec::new(),
        branches: Vec::new(),
    };

    assert!(matches!(
        verify_totals(&[account.clone(), metadata.clone()]),
        Err(VerificationError::PostconditionUnproved { .. })
    ));
    assert_eq!(
        verify_totals_with_semantics(
            &[account, metadata],
            &[semantics],
            VerificationOptions::default()
        ),
        Ok(())
    );
}

#[test]
fn semantic_contract_field_binding_adds_typed_value_param() {
    let semantics = TrustFunctionSemantics {
        rust_function_path: "reward".to_string(),
        params: vec![SemanticParam {
            name: "acct".to_string(),
            ty: "Account".to_string(),
        }],
        return_type: "i64".to_string(),
        local_types: Vec::new(),
        contract_bindings: vec![SemanticContractBinding {
            expression: "acct.balance < i64::MAX".to_string(),
            name: "acct.balance".to_string(),
            kind: SemanticContractBindingKind::Field,
            ty: "i64".to_string(),
        }],
        return_expression: None,
        arithmetic_operations: Vec::new(),
        slice_indexes: Vec::new(),
        calls: Vec::new(),
        field_accesses: Vec::new(),
        matches: Vec::new(),
        branches: Vec::new(),
    };

    let params = vec![Param { name: cs("acct"), ty: cs("Account") }];
    let value_params: Vec<(String, String)> = verification_value_params(&params, Some(&semantics))
        .iter()
        .map(|param| (st(&param.name), st(&param.ty)))
        .collect();
    assert_eq!(
        value_params,
        vec![
            ("acct".to_string(), "Account".to_string()),
            ("acct.balance".to_string(), "i64".to_string()),
        ]
    );
}

#[test]
fn semantic_field_addition_requires_typed_overflow_proof() {
    let account = model_metadata("Account");
    let metadata = metadata_named(
        "reward",
        "pub fn reward(acct: Account) -> i64 { acct.balance + 1 }",
        &[],
    );
    let semantics = TrustFunctionSemantics {
        rust_function_path: "reward".to_string(),
        params: vec![SemanticParam {
            name: "acct".to_string(),
            ty: "Account".to_string(),
        }],
        return_type: "i64".to_string(),
        local_types: Vec::new(),
        contract_bindings: Vec::new(),
        return_expression: Some("acct.balance + 1".to_string()),
        arithmetic_operations: vec![SemanticArithmeticOperation {
            kind: SemanticArithmeticKind::Add,
            ty: Some("i64".to_string()),
            target: None,
            left: "acct.balance".to_string(),
            right: Some("1".to_string()),
            expression: "acct.balance + 1".to_string(),
            guards: Vec::new(),
        }],
        slice_indexes: Vec::new(),
        calls: Vec::new(),
        field_accesses: vec![SemanticFieldAccess {
            base: "acct".to_string(),
            field: "balance".to_string(),
            owner_type: "Account".to_string(),
            field_type: "i64".to_string(),
            expression: "acct.balance".to_string(),
        }],
        matches: Vec::new(),
        branches: Vec::new(),
    };

    assert_eq!(
        verify_totals_with_semantics(
            &[account, metadata],
            &[semantics],
            VerificationOptions::default()
        ),
        Err(VerificationError::IntegerAdditionOverflow {
            function: "reward".to_string(),
            expression: "acct.balance + 1".to_string(),
        })
    );
}

#[test]
fn semantic_field_addition_uses_typed_contract_bound() {
    let account = model_metadata("Account");
    let metadata = metadata_named(
        "reward",
        "pub fn reward(acct: Account) -> i64 { acct.balance + 1 }",
        &["acct.balance < i64::MAX"],
    );
    let semantics = TrustFunctionSemantics {
        rust_function_path: "reward".to_string(),
        params: vec![SemanticParam {
            name: "acct".to_string(),
            ty: "Account".to_string(),
        }],
        return_type: "i64".to_string(),
        local_types: Vec::new(),
        contract_bindings: Vec::new(),
        return_expression: Some("acct.balance + 1".to_string()),
        arithmetic_operations: vec![SemanticArithmeticOperation {
            kind: SemanticArithmeticKind::Add,
            ty: Some("i64".to_string()),
            target: None,
            left: "acct.balance".to_string(),
            right: Some("1".to_string()),
            expression: "acct.balance + 1".to_string(),
            guards: Vec::new(),
        }],
        slice_indexes: Vec::new(),
        calls: Vec::new(),
        field_accesses: vec![SemanticFieldAccess {
            base: "acct".to_string(),
            field: "balance".to_string(),
            owner_type: "Account".to_string(),
            field_type: "i64".to_string(),
            expression: "acct.balance".to_string(),
        }],
        matches: Vec::new(),
        branches: Vec::new(),
    };

    assert_eq!(
        verify_totals_with_semantics(
            &[account, metadata],
            &[semantics],
            VerificationOptions::default()
        ),
        Ok(())
    );
}

#[test]
fn semantic_match_arms_can_prove_postcondition() {
    let metadata = metadata_named_with_classes(
        "maybe_zero",
        "pub fn maybe_zero(x: Option<i32>) -> i32 { match x { Some(_) => 0, None => 0 } }",
        &["out == 0"],
        &["gives ghost"],
    );
    let semantics = TrustFunctionSemantics {
        rust_function_path: "maybe_zero".to_string(),
        params: vec![SemanticParam {
            name: "x".to_string(),
            ty: "Option<i32>".to_string(),
        }],
        return_type: "i32".to_string(),
        local_types: Vec::new(),
        contract_bindings: Vec::new(),
        return_expression: None,
        arithmetic_operations: Vec::new(),
        slice_indexes: Vec::new(),
        calls: Vec::new(),
        field_accesses: Vec::new(),
        matches: vec![SemanticMatch {
            scrutinee: "x".to_string(),
            scrutinee_type: "Option<i32>".to_string(),
            arms: vec![
                SemanticMatchArm {
                    variant: "None".to_string(),
                    discriminant: "0".to_string(),
                    payload: None,
                    assumptions: Vec::new(),
                    return_expression: Some("0".to_string()),
                },
                SemanticMatchArm {
                    variant: "Some".to_string(),
                    discriminant: "1".to_string(),
                    payload: None,
                    assumptions: Vec::new(),
                    return_expression: Some("0".to_string()),
                },
            ],
        }],
        branches: Vec::new(),
    };

    assert!(matches!(
        verify_total(&metadata),
        Err(VerificationError::PostconditionUnproved { .. })
    ));
    assert_eq!(
        verify_totals_with_semantics(&[metadata], &[semantics], VerificationOptions::default()),
        Ok(())
    );
}

#[test]
fn semantic_match_requires_reachable_arms_to_prove_postcondition() {
    let metadata = metadata_named_with_classes(
        "unwrap_or_zero",
        "pub fn unwrap_or_zero(x: Option<i32>) -> i32 { match x { Some(v) => v, None => 0 } }",
        &["out == 0"],
        &["gives ghost"],
    );
    let semantics = TrustFunctionSemantics {
        rust_function_path: "unwrap_or_zero".to_string(),
        params: vec![SemanticParam {
            name: "x".to_string(),
            ty: "Option<i32>".to_string(),
        }],
        return_type: "i32".to_string(),
        local_types: Vec::new(),
        contract_bindings: Vec::new(),
        return_expression: None,
        arithmetic_operations: Vec::new(),
        slice_indexes: Vec::new(),
        calls: Vec::new(),
        field_accesses: Vec::new(),
        matches: vec![SemanticMatch {
            scrutinee: "x".to_string(),
            scrutinee_type: "Option<i32>".to_string(),
            arms: vec![
                SemanticMatchArm {
                    variant: "None".to_string(),
                    discriminant: "0".to_string(),
                    payload: None,
                    assumptions: Vec::new(),
                    return_expression: Some("0".to_string()),
                },
                SemanticMatchArm {
                    variant: "Some".to_string(),
                    discriminant: "1".to_string(),
                    payload: Some(SemanticMatchPayload {
                        binding: "v".to_string(),
                        field_index: 0,
                        ty: "i32".to_string(),
                    }),
                    assumptions: Vec::new(),
                    return_expression: Some("v".to_string()),
                },
            ],
        }],
        branches: Vec::new(),
    };

    assert!(matches!(
        verify_totals_with_semantics(&[metadata], &[semantics], VerificationOptions::default()),
        Err(VerificationError::PostconditionUnproved { .. })
    ));
}

#[test]
fn semantic_match_blocks_source_return_fallback_when_complete() {
    let metadata = metadata_named_with_classes(
        "unwrap_or_zero",
        "pub fn unwrap_or_zero(x: Option<i32>) -> i32 { match x { Some(v) => v, None => 0 } 0 }",
        &["out == 0"],
        &["gives ghost"],
    );
    let semantics = TrustFunctionSemantics {
        rust_function_path: "unwrap_or_zero".to_string(),
        params: vec![SemanticParam {
            name: "x".to_string(),
            ty: "Option<i32>".to_string(),
        }],
        return_type: "i32".to_string(),
        local_types: Vec::new(),
        contract_bindings: Vec::new(),
        return_expression: None,
        arithmetic_operations: Vec::new(),
        slice_indexes: Vec::new(),
        calls: Vec::new(),
        field_accesses: Vec::new(),
        matches: vec![SemanticMatch {
            scrutinee: "x".to_string(),
            scrutinee_type: "Option<i32>".to_string(),
            arms: vec![
                SemanticMatchArm {
                    variant: "None".to_string(),
                    discriminant: "0".to_string(),
                    payload: None,
                    assumptions: Vec::new(),
                    return_expression: Some("0".to_string()),
                },
                SemanticMatchArm {
                    variant: "Some".to_string(),
                    discriminant: "1".to_string(),
                    payload: Some(SemanticMatchPayload {
                        binding: "v".to_string(),
                        field_index: 0,
                        ty: "i32".to_string(),
                    }),
                    assumptions: Vec::new(),
                    return_expression: Some("v".to_string()),
                },
            ],
        }],
        branches: Vec::new(),
    };

    assert_eq!(verify_total(&metadata), Ok(()));
    assert!(matches!(
        verify_totals_with_semantics(&[metadata], &[semantics], VerificationOptions::default()),
        Err(VerificationError::PostconditionUnproved { .. })
    ));
}

#[test]
fn semantic_match_precondition_can_restrict_option_arm() {
    let metadata = metadata_named_with_classes(
        "unwrap_or_zero",
        "pub fn unwrap_or_zero(x: Option<i32>) -> i32 { match x { Some(v) => v, None => 0 } }",
        &["x == None", "out == 0"],
        &["given executable", "gives ghost"],
    );
    let semantics = TrustFunctionSemantics {
        rust_function_path: "unwrap_or_zero".to_string(),
        params: vec![SemanticParam {
            name: "x".to_string(),
            ty: "Option<i32>".to_string(),
        }],
        return_type: "i32".to_string(),
        local_types: Vec::new(),
        contract_bindings: Vec::new(),
        return_expression: None,
        arithmetic_operations: Vec::new(),
        slice_indexes: Vec::new(),
        calls: Vec::new(),
        field_accesses: Vec::new(),
        matches: vec![SemanticMatch {
            scrutinee: "x".to_string(),
            scrutinee_type: "Option<i32>".to_string(),
            arms: vec![
                SemanticMatchArm {
                    variant: "None".to_string(),
                    discriminant: "0".to_string(),
                    payload: None,
                    assumptions: Vec::new(),
                    return_expression: Some("0".to_string()),
                },
                SemanticMatchArm {
                    variant: "Some".to_string(),
                    discriminant: "1".to_string(),
                    payload: Some(SemanticMatchPayload {
                        binding: "v".to_string(),
                        field_index: 0,
                        ty: "i32".to_string(),
                    }),
                    assumptions: Vec::new(),
                    return_expression: Some("v".to_string()),
                },
            ],
        }],
        branches: Vec::new(),
    };

    assert_eq!(
        verify_totals_with_semantics(&[metadata], &[semantics], VerificationOptions::default()),
        Ok(())
    );
}

#[test]
fn semantic_match_path_assumptions_can_prove_nested_postcondition() {
    let metadata = metadata_named_with_classes(
        "nested_match_zero_or_self",
        "pub fn nested_match_zero_or_self(x: i32, choice: Option<i32>) -> i32 { if x == 0 { match choice { Some(_) => 0, None => 0 } } else { x } }",
        &["out == x"],
        &["gives ghost"],
    );
    let semantics = TrustFunctionSemantics {
        rust_function_path: "nested_match_zero_or_self".to_string(),
        params: vec![
            SemanticParam {
                name: "x".to_string(),
                ty: "i32".to_string(),
            },
            SemanticParam {
                name: "choice".to_string(),
                ty: "Option<i32>".to_string(),
            },
        ],
        return_type: "i32".to_string(),
        local_types: Vec::new(),
        contract_bindings: Vec::new(),
        return_expression: None,
        arithmetic_operations: Vec::new(),
        slice_indexes: Vec::new(),
        calls: Vec::new(),
        field_accesses: Vec::new(),
        matches: vec![SemanticMatch {
            scrutinee: "choice".to_string(),
            scrutinee_type: "Option<i32>".to_string(),
            arms: vec![
                SemanticMatchArm {
                    variant: "None".to_string(),
                    discriminant: "0".to_string(),
                    payload: None,
                    assumptions: vec!["x == 0".to_string()],
                    return_expression: Some("0".to_string()),
                },
                SemanticMatchArm {
                    variant: "Some".to_string(),
                    discriminant: "1".to_string(),
                    payload: None,
                    assumptions: vec!["x == 0".to_string()],
                    return_expression: Some("0".to_string()),
                },
            ],
        }],
        branches: Vec::new(),
    };

    assert_eq!(
        verify_totals_with_semantics(&[metadata], &[semantics], VerificationOptions::default()),
        Ok(())
    );
}

#[test]
fn semantic_branch_arms_can_prove_postcondition() {
    let metadata = metadata_named_with_classes(
        "zero_for_any_i32",
        "pub fn zero_for_any_i32(x: i32) -> i32 { if x > 0 { 0 } else { 0 } }",
        &["out == 0"],
        &["gives ghost"],
    );
    let semantics = TrustFunctionSemantics {
        rust_function_path: "zero_for_any_i32".to_string(),
        params: vec![SemanticParam {
            name: "x".to_string(),
            ty: "i32".to_string(),
        }],
        return_type: "i32".to_string(),
        local_types: Vec::new(),
        contract_bindings: Vec::new(),
        return_expression: None,
        arithmetic_operations: Vec::new(),
        slice_indexes: Vec::new(),
        calls: Vec::new(),
        field_accesses: Vec::new(),
        matches: Vec::new(),
        branches: vec![SemanticBranch {
            condition: "x > 0".to_string(),
            arms: vec![
                SemanticBranchArm {
                    guard: "x > 0".to_string(),
                    assumptions: Vec::new(),
                    return_expression: Some("0".to_string()),
                },
                SemanticBranchArm {
                    guard: "x <= 0".to_string(),
                    assumptions: Vec::new(),
                    return_expression: Some("0".to_string()),
                },
            ],
        }],
    };

    assert!(matches!(
        verify_total(&metadata),
        Err(VerificationError::PostconditionUnproved { .. })
    ));
    assert_eq!(
        verify_totals_with_semantics(&[metadata], &[semantics], VerificationOptions::default()),
        Ok(())
    );
}

#[test]
fn semantic_branch_blocks_source_return_fallback_when_complete() {
    let metadata = metadata_named_with_classes(
        "zero_or_self",
        "pub fn zero_or_self(x: i32) -> i32 { if x == 0 { 0 } else { x } 0 }",
        &["out == 0"],
        &["gives ghost"],
    );
    let semantics = TrustFunctionSemantics {
        rust_function_path: "zero_or_self".to_string(),
        params: vec![SemanticParam {
            name: "x".to_string(),
            ty: "i32".to_string(),
        }],
        return_type: "i32".to_string(),
        local_types: Vec::new(),
        contract_bindings: Vec::new(),
        return_expression: None,
        arithmetic_operations: Vec::new(),
        slice_indexes: Vec::new(),
        calls: Vec::new(),
        field_accesses: Vec::new(),
        matches: Vec::new(),
        branches: vec![SemanticBranch {
            condition: "x == 0".to_string(),
            arms: vec![
                SemanticBranchArm {
                    guard: "x == 0".to_string(),
                    assumptions: Vec::new(),
                    return_expression: Some("0".to_string()),
                },
                SemanticBranchArm {
                    guard: "x != 0".to_string(),
                    assumptions: Vec::new(),
                    return_expression: Some("x".to_string()),
                },
            ],
        }],
    };

    assert_eq!(verify_total(&metadata), Ok(()));
    assert!(matches!(
        verify_totals_with_semantics(&[metadata], &[semantics], VerificationOptions::default()),
        Err(VerificationError::PostconditionUnproved { .. })
    ));
}

#[test]
fn semantic_branch_guard_equality_assumption_can_prove_postcondition() {
    let metadata = metadata_named_with_classes(
        "zero_or_self",
        "pub fn zero_or_self(x: i32) -> i32 { if x == 0 { 0 } else { x } }",
        &["out == x"],
        &["gives ghost"],
    );
    let semantics = TrustFunctionSemantics {
        rust_function_path: "zero_or_self".to_string(),
        params: vec![SemanticParam {
            name: "x".to_string(),
            ty: "i32".to_string(),
        }],
        return_type: "i32".to_string(),
        local_types: Vec::new(),
        contract_bindings: Vec::new(),
        return_expression: None,
        arithmetic_operations: Vec::new(),
        slice_indexes: Vec::new(),
        calls: Vec::new(),
        field_accesses: Vec::new(),
        matches: Vec::new(),
        branches: vec![SemanticBranch {
            condition: "x == 0".to_string(),
            arms: vec![
                SemanticBranchArm {
                    guard: "x == 0".to_string(),
                    assumptions: Vec::new(),
                    return_expression: Some("0".to_string()),
                },
                SemanticBranchArm {
                    guard: "x != 0".to_string(),
                    assumptions: Vec::new(),
                    return_expression: Some("x".to_string()),
                },
            ],
        }],
    };

    assert_eq!(
        verify_totals_with_semantics(&[metadata], &[semantics], VerificationOptions::default()),
        Ok(())
    );
}

#[test]
fn semantic_branch_can_prove_postcondition_after_local_return_expression() {
    let metadata = metadata_named_with_classes(
        "zero_or_self_via_local",
        "pub fn zero_or_self_via_local(x: i32) -> i32 { let mut y = x; if x == 0 { y = 0; } else { y = x; } y }",
        &["out == x"],
        &["gives ghost"],
    );
    let semantics = TrustFunctionSemantics {
        rust_function_path: "zero_or_self_via_local".to_string(),
        params: vec![SemanticParam {
            name: "x".to_string(),
            ty: "i32".to_string(),
        }],
        return_type: "i32".to_string(),
        local_types: vec!["i32".to_string()],
        contract_bindings: Vec::new(),
        return_expression: Some("y".to_string()),
        arithmetic_operations: Vec::new(),
        slice_indexes: Vec::new(),
        calls: Vec::new(),
        field_accesses: Vec::new(),
        matches: Vec::new(),
        branches: vec![SemanticBranch {
            condition: "x == 0".to_string(),
            arms: vec![
                SemanticBranchArm {
                    guard: "x == 0".to_string(),
                    assumptions: Vec::new(),
                    return_expression: Some("0".to_string()),
                },
                SemanticBranchArm {
                    guard: "x != 0".to_string(),
                    assumptions: Vec::new(),
                    return_expression: Some("x".to_string()),
                },
            ],
        }],
    };

    assert!(matches!(
        verify_total(&metadata),
        Err(VerificationError::PostconditionUnproved { .. })
    ));
    assert_eq!(
        verify_totals_with_semantics(&[metadata], &[semantics], VerificationOptions::default()),
        Ok(())
    );
}

#[test]
fn semantic_branch_path_assumptions_can_prove_nested_postcondition() {
    let metadata = metadata_named_with_classes(
        "nested_zero_or_self",
        "pub fn nested_zero_or_self(x: i32, flag: bool) -> i32 { if x == 0 { if flag { 0 } else { 0 } } else { x } }",
        &["out == x"],
        &["gives ghost"],
    );
    let semantics = TrustFunctionSemantics {
        rust_function_path: "nested_zero_or_self".to_string(),
        params: vec![
            SemanticParam {
                name: "x".to_string(),
                ty: "i32".to_string(),
            },
            SemanticParam {
                name: "flag".to_string(),
                ty: "bool".to_string(),
            },
        ],
        return_type: "i32".to_string(),
        local_types: Vec::new(),
        contract_bindings: Vec::new(),
        return_expression: None,
        arithmetic_operations: Vec::new(),
        slice_indexes: Vec::new(),
        calls: Vec::new(),
        field_accesses: Vec::new(),
        matches: Vec::new(),
        branches: vec![SemanticBranch {
            condition: "flag".to_string(),
            arms: vec![
                SemanticBranchArm {
                    guard: "flag == 0".to_string(),
                    assumptions: vec!["x == 0".to_string(), "flag == 0".to_string()],
                    return_expression: Some("0".to_string()),
                },
                SemanticBranchArm {
                    guard: "flag != 0".to_string(),
                    assumptions: vec!["x == 0".to_string(), "flag != 0".to_string()],
                    return_expression: Some("0".to_string()),
                },
            ],
        }],
    };

    assert_eq!(
        verify_totals_with_semantics(&[metadata], &[semantics], VerificationOptions::default()),
        Ok(())
    );
}

#[test]
fn semantic_arithmetic_catches_block_addition_overflow() {
    let metadata = metadata_named(
        "add_one",
        "pub fn add_one(x: i32) -> i32 { x + { 1 } }",
        &[],
    );
    let semantics = TrustFunctionSemantics {
        rust_function_path: "add_one".to_string(),
        params: vec![SemanticParam {
            name: "x".to_string(),
            ty: "i32".to_string(),
        }],
        return_type: "i32".to_string(),
        local_types: Vec::new(),
        contract_bindings: Vec::new(),
        return_expression: Some("x + 1".to_string()),
        arithmetic_operations: vec![SemanticArithmeticOperation {
            kind: SemanticArithmeticKind::Add,
            ty: Some("i32".to_string()),
            target: None,
            left: "x".to_string(),
            right: Some("1".to_string()),
            expression: "x + 1".to_string(),
            guards: Vec::new(),
        }],
        slice_indexes: Vec::new(),
        calls: Vec::new(),
        field_accesses: Vec::new(),
        matches: Vec::new(),
        branches: Vec::new(),
    };

    assert_eq!(verify_total(&metadata), Ok(()));
    assert_eq!(
        verify_totals_with_semantics(&[metadata], &[semantics], VerificationOptions::default()),
        Err(VerificationError::IntegerAdditionOverflow {
            function: "add_one".to_string(),
            expression: "x + 1".to_string(),
        })
    );
}

#[test]
fn partial_semantic_arithmetic_fails_closed() {
    let metadata = metadata_named(
        "add_both",
        "pub fn add_both(x: i32, y: i32) -> i32 { let _a = x + 1; y + 1 }",
        &["x < i32::MAX"],
    );
    let semantics = TrustFunctionSemantics {
        rust_function_path: "add_both".to_string(),
        params: vec![
            SemanticParam {
                name: "x".to_string(),
                ty: "i32".to_string(),
            },
            SemanticParam {
                name: "y".to_string(),
                ty: "i32".to_string(),
            },
        ],
        return_type: "i32".to_string(),
        local_types: Vec::new(),
        contract_bindings: Vec::new(),
        return_expression: Some("y + 1".to_string()),
        arithmetic_operations: vec![SemanticArithmeticOperation {
            kind: SemanticArithmeticKind::Add,
            ty: Some("i32".to_string()),
            target: None,
            left: "x".to_string(),
            right: Some("1".to_string()),
            expression: "x + 1".to_string(),
            guards: Vec::new(),
        }],
        slice_indexes: Vec::new(),
        calls: Vec::new(),
        field_accesses: Vec::new(),
        matches: Vec::new(),
        branches: Vec::new(),
    };

    assert_eq!(
        verify_totals_with_semantics(&[metadata], &[semantics], VerificationOptions::default()),
        Err(VerificationError::SemanticExtractionIncomplete {
            function: "add_both".to_string(),
            category: "arithmetic operation".to_string(),
            expression: "y + 1".to_string(),
        })
    );
}

#[test]
fn semantic_arithmetic_uses_mir_type_for_constant_addition_overflow() {
    let metadata = metadata_named(
        "overflow",
        "pub fn overflow() -> i32 { let x: i32 = i32::MAX; x + 1 }",
        &[],
    );
    let semantics = TrustFunctionSemantics {
        rust_function_path: "overflow".to_string(),
        params: Vec::new(),
        return_type: "i32".to_string(),
        local_types: Vec::new(),
        contract_bindings: Vec::new(),
        return_expression: Some("i32::MAX + 1".to_string()),
        arithmetic_operations: vec![SemanticArithmeticOperation {
            kind: SemanticArithmeticKind::Add,
            ty: Some("i32".to_string()),
            target: None,
            left: "i32::MAX".to_string(),
            right: Some("1".to_string()),
            expression: "i32::MAX + 1".to_string(),
            guards: Vec::new(),
        }],
        slice_indexes: Vec::new(),
        calls: Vec::new(),
        field_accesses: Vec::new(),
        matches: Vec::new(),
        branches: Vec::new(),
    };

    assert_eq!(verify_total(&metadata), Ok(()));
    assert_eq!(
        verify_totals_with_semantics(&[metadata], &[semantics], VerificationOptions::default()),
        Err(VerificationError::IntegerAdditionOverflow {
            function: "overflow".to_string(),
            expression: "i32::MAX + 1".to_string(),
        })
    );
}

#[test]
fn semantic_arithmetic_uses_mir_u32_type_for_constant_addition_overflow() {
    let metadata = metadata_named(
        "overflow_u32",
        "pub fn overflow_u32() -> u32 { let x: u32 = u32::MAX; x + 1 }",
        &[],
    );
    let semantics = TrustFunctionSemantics {
        rust_function_path: "overflow_u32".to_string(),
        params: Vec::new(),
        return_type: "u32".to_string(),
        local_types: Vec::new(),
        contract_bindings: Vec::new(),
        return_expression: Some("u32::MAX + 1".to_string()),
        arithmetic_operations: vec![SemanticArithmeticOperation {
            kind: SemanticArithmeticKind::Add,
            ty: Some("u32".to_string()),
            target: None,
            left: "u32::MAX".to_string(),
            right: Some("1".to_string()),
            expression: "u32::MAX + 1".to_string(),
            guards: Vec::new(),
        }],
        slice_indexes: Vec::new(),
        calls: Vec::new(),
        field_accesses: Vec::new(),
        matches: Vec::new(),
        branches: Vec::new(),
    };

    assert_eq!(verify_total(&metadata), Ok(()));
    assert_eq!(
        verify_totals_with_semantics(&[metadata], &[semantics], VerificationOptions::default()),
        Err(VerificationError::IntegerAdditionOverflow {
            function: "overflow_u32".to_string(),
            expression: "u32::MAX + 1".to_string(),
        })
    );
}

#[test]
fn semantic_arithmetic_allows_safe_typed_constant_addition() {
    let metadata = metadata_named(
        "safe_add",
        "pub fn safe_add() -> i32 { let x: i32 = 40; x + 1 }",
        &[],
    );
    let semantics = TrustFunctionSemantics {
        rust_function_path: "safe_add".to_string(),
        params: Vec::new(),
        return_type: "i32".to_string(),
        local_types: Vec::new(),
        contract_bindings: Vec::new(),
        return_expression: Some("40 + 1".to_string()),
        arithmetic_operations: vec![SemanticArithmeticOperation {
            kind: SemanticArithmeticKind::Add,
            ty: Some("i32".to_string()),
            target: None,
            left: "40".to_string(),
            right: Some("1".to_string()),
            expression: "40 + 1".to_string(),
            guards: Vec::new(),
        }],
        slice_indexes: Vec::new(),
        calls: Vec::new(),
        field_accesses: Vec::new(),
        matches: Vec::new(),
        branches: Vec::new(),
    };

    assert_eq!(
        verify_totals_with_semantics(&[metadata], &[semantics], VerificationOptions::default()),
        Ok(())
    );
}

#[test]
fn semantic_arithmetic_uses_mir_type_for_constant_negation_overflow() {
    let metadata = metadata_named(
        "negate",
        "pub fn negate() -> i32 { let x: i32 = i32::MIN; -x }",
        &[],
    );
    let semantics = TrustFunctionSemantics {
        rust_function_path: "negate".to_string(),
        params: Vec::new(),
        return_type: "i32".to_string(),
        local_types: Vec::new(),
        contract_bindings: Vec::new(),
        return_expression: Some("-i32::MIN".to_string()),
        arithmetic_operations: vec![SemanticArithmeticOperation {
            kind: SemanticArithmeticKind::Neg,
            ty: Some("i32".to_string()),
            target: None,
            left: "i32::MIN".to_string(),
            right: None,
            expression: "-i32::MIN".to_string(),
            guards: Vec::new(),
        }],
        slice_indexes: Vec::new(),
        calls: Vec::new(),
        field_accesses: Vec::new(),
        matches: Vec::new(),
        branches: Vec::new(),
    };

    assert_eq!(verify_total(&metadata), Ok(()));
    assert_eq!(
        verify_totals_with_semantics(&[metadata], &[semantics], VerificationOptions::default()),
        Err(VerificationError::IntegerNegationOverflow {
            function: "negate".to_string(),
            expression: "-i32::MIN".to_string(),
        })
    );
}

#[test]
fn semantic_branch_guard_proves_checked_addition() {
    let metadata = metadata_named(
        "add_if_safe",
        "pub fn add_if_safe(x: i32) -> i32 { if x < i32::MAX { x + 1 } else { x } }",
        &[],
    );
    let semantics = TrustFunctionSemantics {
        rust_function_path: "add_if_safe".to_string(),
        params: vec![SemanticParam {
            name: "x".to_string(),
            ty: "i32".to_string(),
        }],
        return_type: "i32".to_string(),
        local_types: Vec::new(),
        contract_bindings: Vec::new(),
        return_expression: None,
        arithmetic_operations: vec![SemanticArithmeticOperation {
            kind: SemanticArithmeticKind::Add,
            ty: Some("i32".to_string()),
            target: None,
            left: "x".to_string(),
            right: Some("1".to_string()),
            expression: "x + 1".to_string(),
            guards: vec!["x < i32::MAX".to_string()],
        }],
        slice_indexes: Vec::new(),
        calls: Vec::new(),
        field_accesses: Vec::new(),
        matches: Vec::new(),
        branches: Vec::new(),
    };

    assert!(matches!(
        verify_total(&metadata),
        Err(VerificationError::IntegerAdditionOverflow { .. })
    ));
    assert_eq!(
        verify_totals_with_semantics(&[metadata], &[semantics], VerificationOptions::default()),
        Ok(())
    );
}

#[test]
fn semantic_arithmetic_catches_block_division_by_zero() {
    let metadata = metadata_named(
        "divide",
        "pub fn divide(x: i32, y: i32) -> i32 { x / { y } }",
        &[],
    );
    let semantics = TrustFunctionSemantics {
        rust_function_path: "divide".to_string(),
        params: vec![
            SemanticParam {
                name: "x".to_string(),
                ty: "i32".to_string(),
            },
            SemanticParam {
                name: "y".to_string(),
                ty: "i32".to_string(),
            },
        ],
        return_type: "i32".to_string(),
        local_types: Vec::new(),
        contract_bindings: Vec::new(),
        return_expression: Some("x / y".to_string()),
        arithmetic_operations: vec![SemanticArithmeticOperation {
            kind: SemanticArithmeticKind::Div,
            ty: Some("i32".to_string()),
            target: None,
            left: "x".to_string(),
            right: Some("y".to_string()),
            expression: "x / y".to_string(),
            guards: Vec::new(),
        }],
        slice_indexes: Vec::new(),
        calls: Vec::new(),
        field_accesses: Vec::new(),
        matches: Vec::new(),
        branches: Vec::new(),
    };

    assert_eq!(verify_total(&metadata), Ok(()));
    assert_eq!(
        verify_totals_with_semantics(&[metadata], &[semantics], VerificationOptions::default()),
        Err(VerificationError::IntegerDivisionByZero {
            function: "divide".to_string(),
            expression: "x / y".to_string(),
        })
    );
}

#[test]
fn semantic_arithmetic_proves_block_division_precondition() {
    let metadata = metadata_named(
        "divide",
        "pub fn divide(x: i32, y: i32) -> i32 { x / { y } }",
        &["y != 0", "y != -1"],
    );
    let semantics = TrustFunctionSemantics {
        rust_function_path: "divide".to_string(),
        params: vec![
            SemanticParam {
                name: "x".to_string(),
                ty: "i32".to_string(),
            },
            SemanticParam {
                name: "y".to_string(),
                ty: "i32".to_string(),
            },
        ],
        return_type: "i32".to_string(),
        local_types: Vec::new(),
        contract_bindings: Vec::new(),
        return_expression: Some("x / y".to_string()),
        arithmetic_operations: vec![SemanticArithmeticOperation {
            kind: SemanticArithmeticKind::Div,
            ty: Some("i32".to_string()),
            target: None,
            left: "x".to_string(),
            right: Some("y".to_string()),
            expression: "x / y".to_string(),
            guards: Vec::new(),
        }],
        slice_indexes: Vec::new(),
        calls: Vec::new(),
        field_accesses: Vec::new(),
        matches: Vec::new(),
        branches: Vec::new(),
    };

    assert_eq!(
        verify_totals_with_semantics(&[metadata], &[semantics], VerificationOptions::default()),
        Ok(())
    );
}

#[test]
fn semantic_arithmetic_catches_signed_division_overflow() {
    let metadata = metadata_named("divide", "pub fn divide(x: i32) -> i32 { x / { -1 } }", &[]);
    let semantics = TrustFunctionSemantics {
        rust_function_path: "divide".to_string(),
        params: vec![SemanticParam {
            name: "x".to_string(),
            ty: "i32".to_string(),
        }],
        return_type: "i32".to_string(),
        local_types: Vec::new(),
        contract_bindings: Vec::new(),
        return_expression: Some("x / -1".to_string()),
        arithmetic_operations: vec![SemanticArithmeticOperation {
            kind: SemanticArithmeticKind::Div,
            ty: Some("i32".to_string()),
            target: None,
            left: "x".to_string(),
            right: Some("-1".to_string()),
            expression: "x / -1".to_string(),
            guards: Vec::new(),
        }],
        slice_indexes: Vec::new(),
        calls: Vec::new(),
        field_accesses: Vec::new(),
        matches: Vec::new(),
        branches: Vec::new(),
    };

    assert_eq!(verify_total(&metadata), Ok(()));
    assert_eq!(
        verify_totals_with_semantics(&[metadata], &[semantics], VerificationOptions::default()),
        Err(VerificationError::IntegerDivisionOverflow {
            function: "divide".to_string(),
            expression: "x / -1".to_string(),
        })
    );
}

#[test]
fn semantic_arithmetic_proves_signed_division_overflow_precondition() {
    let metadata = metadata_named(
        "divide",
        "pub fn divide(x: i32) -> i32 { x / { -1 } }",
        &["x > i32::MIN"],
    );
    let semantics = TrustFunctionSemantics {
        rust_function_path: "divide".to_string(),
        params: vec![SemanticParam {
            name: "x".to_string(),
            ty: "i32".to_string(),
        }],
        return_type: "i32".to_string(),
        local_types: Vec::new(),
        contract_bindings: Vec::new(),
        return_expression: Some("x / -1".to_string()),
        arithmetic_operations: vec![SemanticArithmeticOperation {
            kind: SemanticArithmeticKind::Div,
            ty: Some("i32".to_string()),
            target: None,
            left: "x".to_string(),
            right: Some("-1".to_string()),
            expression: "x / -1".to_string(),
            guards: Vec::new(),
        }],
        slice_indexes: Vec::new(),
        calls: Vec::new(),
        field_accesses: Vec::new(),
        matches: Vec::new(),
        branches: Vec::new(),
    };

    assert_eq!(
        verify_totals_with_semantics(&[metadata], &[semantics], VerificationOptions::default()),
        Ok(())
    );
}

#[test]
fn semantic_slice_index_proves_block_index_precondition() {
    let metadata = metadata_named(
        "get",
        "pub fn get(xs: &[i32], i: usize) -> i32 { xs[{ let j = i; j }] }",
        &["i < xs.len()"],
    );
    let semantics = TrustFunctionSemantics {
        rust_function_path: "get".to_string(),
        params: vec![
            SemanticParam {
                name: "xs".to_string(),
                ty: "&[i32]".to_string(),
            },
            SemanticParam {
                name: "i".to_string(),
                ty: "usize".to_string(),
            },
        ],
        return_type: "i32".to_string(),
        local_types: Vec::new(),
        contract_bindings: Vec::new(),
        return_expression: Some("xs[i]".to_string()),
        arithmetic_operations: Vec::new(),
        slice_indexes: vec![SemanticSliceIndex {
            base: "xs".to_string(),
            base_type: "&[i32]".to_string(),
            index: "i".to_string(),
            index_type: "usize".to_string(),
            element_type: "i32".to_string(),
            expression: "xs[i]".to_string(),
            guards: Vec::new(),
        }],
        calls: Vec::new(),
        field_accesses: Vec::new(),
        matches: Vec::new(),
        branches: Vec::new(),
    };

    assert!(matches!(
        verify_total(&metadata),
        Err(VerificationError::SliceIndexOutOfBounds { .. })
    ));
    assert_eq!(
        verify_totals_with_semantics(&[metadata], &[semantics], VerificationOptions::default()),
        Ok(())
    );
}

#[test]
fn partial_semantic_slice_indexes_fail_closed() {
    let metadata = metadata_named(
        "get_second",
        "pub fn get_second(xs: &[i32], i: usize, j: usize) -> i32 { let _a = xs[i]; xs[j] }",
        &["i < xs.len()"],
    );
    let semantics = TrustFunctionSemantics {
        rust_function_path: "get_second".to_string(),
        params: vec![
            SemanticParam {
                name: "xs".to_string(),
                ty: "&[i32]".to_string(),
            },
            SemanticParam {
                name: "i".to_string(),
                ty: "usize".to_string(),
            },
            SemanticParam {
                name: "j".to_string(),
                ty: "usize".to_string(),
            },
        ],
        return_type: "i32".to_string(),
        local_types: Vec::new(),
        contract_bindings: Vec::new(),
        return_expression: Some("xs[j]".to_string()),
        arithmetic_operations: Vec::new(),
        slice_indexes: vec![SemanticSliceIndex {
            base: "xs".to_string(),
            base_type: "&[i32]".to_string(),
            index: "i".to_string(),
            index_type: "usize".to_string(),
            element_type: "i32".to_string(),
            expression: "xs[i]".to_string(),
            guards: Vec::new(),
        }],
        calls: Vec::new(),
        field_accesses: Vec::new(),
        matches: Vec::new(),
        branches: Vec::new(),
    };

    assert_eq!(
        verify_totals_with_semantics(&[metadata], &[semantics], VerificationOptions::default()),
        Err(VerificationError::SemanticExtractionIncomplete {
            function: "get_second".to_string(),
            category: "slice index".to_string(),
            expression: "xs[j]".to_string(),
        })
    );
}

#[test]
fn semantic_branch_guard_proves_slice_index_bound() {
    let metadata = metadata_named(
        "get_or_zero",
        "pub fn get_or_zero(xs: &[i32], i: usize) -> i32 { if i < xs.len() { xs[i] } else { 0 } }",
        &[],
    );
    let semantics = TrustFunctionSemantics {
        rust_function_path: "get_or_zero".to_string(),
        params: vec![
            SemanticParam {
                name: "xs".to_string(),
                ty: "&[i32]".to_string(),
            },
            SemanticParam {
                name: "i".to_string(),
                ty: "usize".to_string(),
            },
        ],
        return_type: "i32".to_string(),
        local_types: Vec::new(),
        contract_bindings: Vec::new(),
        return_expression: None,
        arithmetic_operations: Vec::new(),
        slice_indexes: vec![SemanticSliceIndex {
            base: "xs".to_string(),
            base_type: "&[i32]".to_string(),
            index: "i".to_string(),
            index_type: "usize".to_string(),
            element_type: "i32".to_string(),
            expression: "xs[i]".to_string(),
            guards: vec!["i < xs.len()".to_string()],
        }],
        calls: Vec::new(),
        field_accesses: Vec::new(),
        matches: Vec::new(),
        branches: Vec::new(),
    };

    assert!(matches!(
        verify_total(&metadata),
        Err(VerificationError::SliceIndexOutOfBounds { .. })
    ));
    assert_eq!(
        verify_totals_with_semantics(&[metadata], &[semantics], VerificationOptions::default()),
        Ok(())
    );
}

#[test]
fn semantic_slice_index_requires_matching_element_type() {
    let metadata = metadata_named(
        "get",
        "pub fn get(xs: &[i32], i: usize) -> i32 { xs[{ let j = i; j }] }",
        &["i < xs.len()"],
    );
    let semantics = TrustFunctionSemantics {
        rust_function_path: "get".to_string(),
        params: vec![
            SemanticParam {
                name: "xs".to_string(),
                ty: "&[i32]".to_string(),
            },
            SemanticParam {
                name: "i".to_string(),
                ty: "usize".to_string(),
            },
        ],
        return_type: "i32".to_string(),
        local_types: Vec::new(),
        contract_bindings: Vec::new(),
        return_expression: Some("xs[i]".to_string()),
        arithmetic_operations: Vec::new(),
        slice_indexes: vec![SemanticSliceIndex {
            base: "xs".to_string(),
            base_type: "&[i32]".to_string(),
            index: "i".to_string(),
            index_type: "usize".to_string(),
            element_type: "u8".to_string(),
            expression: "xs[i]".to_string(),
            guards: Vec::new(),
        }],
        calls: Vec::new(),
        field_accesses: Vec::new(),
        matches: Vec::new(),
        branches: Vec::new(),
    };

    assert_eq!(
        verify_totals_with_semantics(&[metadata], &[semantics], VerificationOptions::default()),
        Err(VerificationError::SemanticExtractionIncomplete {
            function: "get".to_string(),
            category: "slice index".to_string(),
            expression: "xs[i]".to_string(),
        })
    );
}

#[test]
fn semantic_call_proves_block_argument_callee_precondition() {
    let inc = metadata_named(
        "inc",
        "pub fn inc(x: i32) -> i32 { x + 1 }",
        &["x < i32::MAX"],
    );
    let caller = metadata_named(
        "caller",
        "pub fn caller(x: i32) -> i32 { inc({ let y = x; y }) }",
        &["x < i32::MAX"],
    );
    let semantics = TrustFunctionSemantics {
        rust_function_path: "caller".to_string(),
        params: vec![SemanticParam {
            name: "x".to_string(),
            ty: "i32".to_string(),
        }],
        return_type: "i32".to_string(),
        local_types: Vec::new(),
        contract_bindings: Vec::new(),
        return_expression: Some("inc(x)".to_string()),
        arithmetic_operations: Vec::new(),
        slice_indexes: Vec::new(),
        calls: vec![SemanticCall {
            callee: "inc".to_string(),
            args: vec!["x".to_string()],
            guards: Vec::new(),
            trust_callee: None,
        }],
        field_accesses: Vec::new(),
        matches: Vec::new(),
        branches: Vec::new(),
    };

    assert!(matches!(
        verify_totals(&[inc.clone(), caller.clone()]),
        Err(VerificationError::CalleePreconditionUnproved { .. })
    ));
    assert_eq!(
        verify_totals_with_semantics(
            &[inc, caller],
            &[semantics],
            VerificationOptions::default()
        ),
        Ok(())
    );
}

#[test]
fn partial_semantic_calls_fail_closed() {
    let inc = metadata_named(
        "inc",
        "pub fn inc(x: i32) -> i32 { x + 1 }",
        &["x < i32::MAX"],
    );
    let caller = metadata_named(
        "caller",
        "pub fn caller(x: i32, y: i32) -> i32 { let _ = inc(x); inc(y) }",
        &["x < i32::MAX"],
    );
    let semantics = TrustFunctionSemantics {
        rust_function_path: "caller".to_string(),
        params: vec![
            SemanticParam {
                name: "x".to_string(),
                ty: "i32".to_string(),
            },
            SemanticParam {
                name: "y".to_string(),
                ty: "i32".to_string(),
            },
        ],
        return_type: "i32".to_string(),
        local_types: Vec::new(),
        contract_bindings: Vec::new(),
        return_expression: None,
        arithmetic_operations: Vec::new(),
        slice_indexes: Vec::new(),
        calls: vec![SemanticCall {
            callee: "inc".to_string(),
            args: vec!["x".to_string()],
            guards: Vec::new(),
            trust_callee: None,
        }],
        field_accesses: Vec::new(),
        matches: Vec::new(),
        branches: Vec::new(),
    };

    assert_eq!(
        verify_totals_with_semantics(
            &[inc, caller],
            &[semantics],
            VerificationOptions::default()
        ),
        Err(VerificationError::SemanticExtractionIncomplete {
            function: "caller".to_string(),
            category: "Trust call".to_string(),
            expression: "y<i32::MAX".to_string(),
        })
    );
}

#[test]
fn semantic_call_merge_does_not_reintroduce_ambiguous_leaf_callee() {
    let left_inc = metadata_named(
        "outer::left::inc",
        "pub fn inc(x: i32) -> i32 { x }",
        &["x > 0"],
    );
    let right_inc = metadata_named(
        "outer::right::inc",
        "pub fn inc(x: i32) -> i32 { x }",
        &["x < 0"],
    );
    let caller = metadata_named(
        "outer::right::caller",
        "pub fn caller(x: i32) -> i32 { inc(x) }",
        &["x < 0"],
    );
    let right_callee = SemanticTrustCallee {
        rust_function_path: "outer::right::inc".to_string(),
        params: vec![SemanticParam {
            name: "x".to_string(),
            ty: "i32".to_string(),
        }],
        preconditions: vec!["x < 0".to_string()],
    };
    let semantics = TrustFunctionSemantics {
        rust_function_path: "outer::right::caller".to_string(),
        params: vec![SemanticParam {
            name: "x".to_string(),
            ty: "i32".to_string(),
        }],
        return_type: "i32".to_string(),
        local_types: Vec::new(),
        contract_bindings: Vec::new(),
        return_expression: None,
        arithmetic_operations: Vec::new(),
        slice_indexes: Vec::new(),
        calls: vec![SemanticCall {
            callee: "right::inc".to_string(),
            args: vec!["x".to_string()],
            guards: Vec::new(),
            trust_callee: Some(right_callee),
        }],
        field_accesses: Vec::new(),
        matches: Vec::new(),
        branches: Vec::new(),
    };

    assert_eq!(
        verify_totals_with_semantics(
            &[left_inc, right_inc, caller],
            &[semantics],
            VerificationOptions::default()
        ),
        Ok(())
    );
}

#[test]
fn semantic_call_uses_embedded_trust_callee_contract_metadata() {
    let caller = metadata_named(
        "caller",
        "pub fn caller(x: i32) -> i32 { verified::inc({ x }) }",
        &["x < i32::MAX"],
    );
    let semantics = TrustFunctionSemantics {
        rust_function_path: "caller".to_string(),
        params: vec![SemanticParam {
            name: "x".to_string(),
            ty: "i32".to_string(),
        }],
        return_type: "i32".to_string(),
        local_types: Vec::new(),
        contract_bindings: Vec::new(),
        return_expression: Some("verified::inc(x)".to_string()),
        arithmetic_operations: Vec::new(),
        slice_indexes: Vec::new(),
        calls: vec![SemanticCall {
            callee: "verified::inc".to_string(),
            args: vec!["x".to_string()],
            guards: Vec::new(),
            trust_callee: Some(SemanticTrustCallee {
                rust_function_path: "inc".to_string(),
                params: vec![SemanticParam {
                    name: "x".to_string(),
                    ty: "i32".to_string(),
                }],
                preconditions: vec!["x < i32::MAX".to_string()],
            }),
        }],
        field_accesses: Vec::new(),
        matches: Vec::new(),
        branches: Vec::new(),
    };

    assert_eq!(
        verify_totals_with_semantics(&[caller], &[semantics], VerificationOptions::default()),
        Ok(())
    );
}

#[test]
fn executable_spec_calls_are_supported_without_callee_obligations() {
    let spec = executable_spec_metadata(
        "nonempty",
        "fn nonempty(xs: &[i32]) -> bool { xs.len() > 0 }",
    );
    let caller = metadata_named(
        "caller",
        "pub fn caller(xs: &[i32]) -> bool { nonempty(xs) }",
        &[],
    );

    assert_eq!(verify_totals(&[spec, caller]), Ok(()));
}

#[test]
fn ghost_spec_calls_are_not_supported_runtime_callees() {
    let spec = ghost_spec_metadata("sorted", "fn sorted(xs: &[i32]) -> bool { true }");
    let caller = metadata_named(
        "caller",
        "pub fn caller(xs: &[i32]) -> bool { sorted(xs) }",
        &[],
    );

    assert_eq!(
        verify_totals(&[spec, caller]),
        Err(VerificationError::UnsupportedCall {
            function: "caller".to_string(),
            callee: "sorted".to_string(),
        })
    );
}

#[test]
fn semantic_branch_guard_proves_call_precondition() {
    let inc = metadata_named(
        "inc",
        "pub fn inc(x: i32) -> i32 { x + 1 }",
        &["x < i32::MAX"],
    );
    let caller = metadata_named(
        "caller",
        "pub fn caller(x: i32) -> i32 { if x < i32::MAX { inc(x) } else { x } }",
        &[],
    );
    let semantics = TrustFunctionSemantics {
        rust_function_path: "caller".to_string(),
        params: vec![SemanticParam {
            name: "x".to_string(),
            ty: "i32".to_string(),
        }],
        return_type: "i32".to_string(),
        local_types: Vec::new(),
        contract_bindings: Vec::new(),
        return_expression: None,
        arithmetic_operations: Vec::new(),
        slice_indexes: Vec::new(),
        calls: vec![SemanticCall {
            callee: "inc".to_string(),
            args: vec!["x".to_string()],
            guards: vec!["x < i32::MAX".to_string()],
            trust_callee: None,
        }],
        field_accesses: Vec::new(),
        matches: Vec::new(),
        branches: Vec::new(),
    };

    assert!(matches!(
        verify_totals(&[inc.clone(), caller.clone()]),
        Err(VerificationError::CalleePreconditionUnproved { .. })
    ));
    assert_eq!(
        verify_totals_with_semantics(
            &[inc, caller],
            &[semantics],
            VerificationOptions::default()
        ),
        Ok(())
    );
}

#[test]
fn semantic_call_rejects_unsupported_callee() {
    let metadata = metadata_named("abs_value", "pub fn abs_value(x: i32) -> i32 { x }", &[]);
    let semantics = TrustFunctionSemantics {
        rust_function_path: "abs_value".to_string(),
        params: vec![SemanticParam {
            name: "x".to_string(),
            ty: "i32".to_string(),
        }],
        return_type: "i32".to_string(),
        local_types: Vec::new(),
        contract_bindings: Vec::new(),
        return_expression: Some("x".to_string()),
        arithmetic_operations: Vec::new(),
        slice_indexes: Vec::new(),
        calls: vec![SemanticCall {
            callee: "core::num::<impl i32>::abs".to_string(),
            args: vec!["x".to_string()],
            guards: Vec::new(),
            trust_callee: None,
        }],
        field_accesses: Vec::new(),
        matches: Vec::new(),
        branches: Vec::new(),
    };

    assert_eq!(verify_total(&metadata), Ok(()));
    assert_eq!(
        verify_totals_with_semantics(&[metadata], &[semantics], VerificationOptions::default()),
        Err(VerificationError::UnsupportedCall {
            function: "abs_value".to_string(),
            callee: "core::num::<impl i32>::abs".to_string(),
        })
    );
}

#[test]
fn partial_semantic_unsupported_call_fails_closed() {
    let metadata = metadata_named(
        "abs_value",
        "pub fn abs_value(x: i32) -> i32 { x.abs() }",
        &[],
    );
    let semantics = TrustFunctionSemantics {
        rust_function_path: "abs_value".to_string(),
        params: vec![SemanticParam {
            name: "x".to_string(),
            ty: "i32".to_string(),
        }],
        return_type: "i32".to_string(),
        local_types: Vec::new(),
        contract_bindings: Vec::new(),
        return_expression: Some("x".to_string()),
        arithmetic_operations: Vec::new(),
        slice_indexes: Vec::new(),
        calls: Vec::new(),
        field_accesses: Vec::new(),
        matches: Vec::new(),
        branches: Vec::new(),
    };

    assert_eq!(
        verify_total(&metadata),
        Err(VerificationError::UnsupportedCall {
            function: "abs_value".to_string(),
            callee: "x.abs".to_string(),
        })
    );
    assert_eq!(
        verify_totals_with_semantics(&[metadata], &[semantics], VerificationOptions::default()),
        Err(VerificationError::SemanticExtractionIncomplete {
            function: "abs_value".to_string(),
            category: "unsupported call".to_string(),
            expression: "x.abs".to_string(),
        })
    );
}

#[test]
fn unsupported_index_diagnostic_precedes_semantic_index_call() {
    let metadata = metadata_named(
        "get_vec",
        "pub fn get_vec(xs: Vec<i32>, i: usize) -> i32 { xs[i] }",
        &[],
    );
    let semantics = TrustFunctionSemantics {
        rust_function_path: "get_vec".to_string(),
        params: vec![
            SemanticParam {
                name: "xs".to_string(),
                ty: "Vec<i32>".to_string(),
            },
            SemanticParam {
                name: "i".to_string(),
                ty: "usize".to_string(),
            },
        ],
        return_type: "i32".to_string(),
        local_types: Vec::new(),
        contract_bindings: Vec::new(),
        return_expression: None,
        arithmetic_operations: Vec::new(),
        slice_indexes: Vec::new(),
        calls: vec![SemanticCall {
            callee: "<Vec<i32> as Index<usize>>::index".to_string(),
            args: vec!["xs".to_string(), "i".to_string()],
            guards: Vec::new(),
            trust_callee: None,
        }],
        field_accesses: Vec::new(),
        matches: Vec::new(),
        branches: Vec::new(),
    };

    assert_eq!(
        verify_totals_with_semantics(&[metadata], &[semantics], VerificationOptions::default()),
        Err(VerificationError::UnsupportedIndex {
            function: "get_vec".to_string(),
            expression: "xs[i]".to_string(),
        })
    );
}

#[test]
fn proves_ghost_arithmetic_postcondition() {
    let metadata = metadata_named_with_classes(
        "add_one",
        "pub fn add_one(x: i32) -> i32 { x + 1 }",
        &["x < i32::MAX", "int(out) == int(x) + 1"],
        &["given executable", "gives ghost"],
    );

    assert_eq!(verify_total(&metadata), Ok(()));
}

#[test]
fn rejects_false_postcondition() {
    let metadata = metadata_named_with_classes(
        "zero",
        "pub fn zero() -> i32 { 0 }",
        &["out == 1"],
        &["gives ghost"],
    );

    assert_eq!(
        verify_total(&metadata),
        Err(VerificationError::PostconditionUnproved {
            function: "zero".to_string(),
            condition: "out == 1".to_string(),
        })
    );
}

#[test]
fn does_not_use_postcondition_as_assumption() {
    let metadata = metadata_named_with_classes(
        "add_one",
        "pub fn add_one(x: i32) -> i32 { x + 1 }",
        &["out == x + 1"],
        &["gives executable"],
    );

    assert_eq!(
        verify_total(&metadata),
        Err(VerificationError::IntegerAdditionOverflow {
            function: "add_one".to_string(),
            expression: "x + 1".to_string(),
        })
    );
}

#[test]
fn accepts_function_with_nothing_to_refuse_or_prove() {
    let metadata = metadata_named("pick", "pub fn pick(x: i32, flag: bool) -> i32 { x }", &[]);
    assert_eq!(verify_total(&metadata), Ok(()));
    assert_eq!(verify_totals(&[metadata]), Ok(()));
}

#[test]
fn accepts_body_whose_only_additions_are_bounded_by_given() {
    let metadata = metadata_named("bump", "pub fn bump(x: i64, y: i64) -> i64 { x + 2 }", &["x <= 9223372036854775805"]);
    assert_eq!(verify_total(&metadata), Ok(()));
    assert_eq!(verify_totals(&[metadata.clone()]), Ok(()));
    let unbounded = metadata_named("bump", "pub fn bump(x: i64, y: i64) -> i64 { x + 2 }", &[]);
    assert_eq!(
        verify_total(&unbounded),
        Err(VerificationError::IntegerAdditionOverflow { function: "bump".to_string(), expression: "x + 2".to_string() })
    );
}

#[test]
fn accepts_body_of_bounded_sums_and_products() {
    let metadata = metadata_named(
        "scale",
        "pub fn scale(x: u32, y: u32) -> u32 { x * 3 }",
        &["x <= u32::MAX / 3"],
    );
    assert_eq!(verify_total(&metadata), Ok(()));
    let unbounded = metadata_named("scale", "pub fn scale(x: u32, y: u32) -> u32 { x * 3 }", &[]);
    assert_eq!(
        verify_total(&unbounded),
        Err(VerificationError::IntegerMultiplicationOverflow { function: "scale".to_string(), expression: "x * 3".to_string() })
    );
}
