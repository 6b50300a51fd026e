use trust_core::frontend::{lex, metadata_json, parse_total_source, render_function};
use trust_core::metadata::{parse_metadata_line, TrustMetadata};
use trust_core::pipeline::{verify_total, verify_totals};
use trust_core::semantics::VerificationError;
use trust_core::tokens::{canonical_condition, conditions_equivalent, normalize, token_expression, tokens};

fn cs(s: &str) -> Vec<char> {
    s.chars().collect()
}

fn st(v: &[char]) -> String {
    v.iter().collect()
}

fn record(kind: &str, name: &str, source: &str, contracts: &[&str], classes: &[&str]) -> TrustMetadata {
    TrustMetadata {
        schema_version: 1,
        trust_macro_version: "0.1.0".to_string(),
        module_id: "unknown".to_string(),
        item_kind: kind.to_string(),
        item_id: format!("{kind}:{name}:h"),
        source_span: "unknown".to_string(),
        rust_function_path: name.to_string(),
        visibility: "private".to_string(),
        contracts_original: contracts.iter().map(|c| c.to_string()).collect(),
        contracts_normalized: contracts.iter().map(|c| c.to_string()).collect(),
        contract_classes: classes.iter().map(|c| c.to_string()).collect(),
        assertion_policy: "always".to_string(),
        function_source: source.to_string(),
        body_hash_placeholder: "h".to_string(),
        trust_model_dependencies: Vec::new(),
    }
}

#[test]
fn equivalence_of_conditions_is_reflexive_and_symmetric() {
    let a = cs("x < 5");
    let b = cs("5 > x");
    let c = cs("x <= 5");
    assert!(conditions_equivalent(&a, &a));
    assert!(conditions_equivalent(&a, &b));
    assert!(conditions_equivalent(&b, &a));
    assert!(!conditions_equivalent(&a, &c));
    assert!(!conditions_equivalent(&c, &a));
}

#[test]
fn canonical_condition_is_idempotent_and_strips_outer_parentheses() {
    let once = canonical_condition(&cs("( ( x < 5 ) )"));
    assert_eq!(st(&once), "x<5");
    let twice = canonical_condition(&once);
    assert_eq!(once, twice);
}

#[test]
fn tokens_written_together_are_the_text_without_whitespace() {
    let text = cs("a +  ( b*c )\n <= d");
    assert_eq!(st(&token_expression(&tokens(&text))), "a+(b*c)<=d");
    assert_eq!(token_expression(&tokens(&text)), normalize(&text));
    assert_eq!(token_expression(&lex(&text)), normalize(&text));
}

#[test]
fn metadata_written_by_the_macros_reads_back() {
    let total = parse_total_source(&cs(
        "given executable { x < i32::MAX; } gives ghost |out| { out == x + 1; } pub fn add_one(x: i32) -> i32 { let s = \"a\\\"b\"; x + 1 }",
    ))
    .unwrap();
    let json = metadata_json(&total.fn_info, "hash", "0.1.0", "always", &total.fn_source, &total.contracts);
    let read = parse_metadata_line(&json).unwrap();
    assert_eq!(read.rust_function_path, "add_one");
    assert_eq!(read.item_kind, "total");
    assert_eq!(read.visibility, "public");
    assert_eq!(read.function_source, total.fn_source);
    assert_eq!(read.contracts_original, vec!["x < i32::MAX".to_string(), "out == x + 1".to_string()]);
    assert_eq!(read.contract_classes, vec!["given executable".to_string(), "gives ghost".to_string()]);
}

#[test]
fn every_executable_precondition_of_a_public_function_is_checked() {
    let total = parse_total_source(&cs(
        "given executable { x < 100; y > 0; } pub fn f(x: i32, y: i32) -> i32 { x }",
    ))
    .unwrap();
    let always = render_function(&total, "always");
    assert!(always.contains("::trust::__rt::assert_precondition((x < 100), \"f\", \"x < 100\");"));
    assert!(always.contains("::trust::__rt::assert_precondition((y > 0), \"f\", \"y > 0\");"));
    let debug = render_function(&total, "debug");
    assert!(debug.contains("if cfg!(debug_assertions) { ::trust::__rt::assert_precondition((x < 100)"));
}

#[test]
fn check_messages_quote_the_contract_as_rust_debug_does() {
    let total = parse_total_source(&cs("given executable { x != 7; } pub fn g(x: i32) -> i32 { x }")).unwrap();
    let rendered = render_function(&total, "always");
    assert!(rendered.contains(", \"g\", \"x != 7\");"));
}

#[test]
fn an_error_names_the_function_it_rejects() {
    let good = record("total", "good", "pub fn good(x: u32) -> u32 { x }", &[], &[]);
    let bad = record("total", "bad", "pub fn bad(x: i32) -> i32 { x + 1 }", &[], &[]);
    let error = verify_totals(&[good, bad]).unwrap_err();
    assert_eq!(
        error,
        VerificationError::IntegerAdditionOverflow { function: "bad".to_string(), expression: "x + 1".to_string() }
    );
    assert_eq!(error.message(), "could not prove integer addition cannot overflow in `bad`: `x + 1`");
}

#[test]
fn accepted_bodies_hold_no_unwrap_panic_or_closure() {
    let unwrap = record("total", "u", "pub fn u(x: Option<i32>) -> i32 { x.unwrap() }", &[], &[]);
    assert!(matches!(verify_total(&unwrap), Err(VerificationError::UncheckedUnwrap { .. }) | Err(VerificationError::UnsupportedType { .. })));
    let panic = record("total", "p", "pub fn p(x: i32) -> i32 { panic!(\"no\") }", &[], &[]);
    assert_eq!(verify_total(&panic), Err(VerificationError::ExplicitPanic { function: "p".to_string() }));
    let plain = record("total", "id", "pub fn id(x: i32) -> i32 { x }", &[], &[]);
    assert_eq!(verify_total(&plain), Ok(()));
}

#[test]
fn a_proof_is_accepted_only_when_it_asserts_what_it_gives() {
    let proved = record(
        "proof",
        "lemma",
        "fn lemma(x: i32) { assert(x == x); }",
        &["x == x"],
        &["gives ghost"],
    );
    assert_eq!(verify_totals(&[proved]), Ok(()));
    let unproved = record("proof", "lemma", "fn lemma(x: i32) { assert(x > 0); }", &["x == x"], &["gives ghost"]);
    assert_eq!(
        verify_totals(&[unproved]),
        Err(VerificationError::ProofObligationUnproved { proof: "lemma".to_string(), condition: "x == x".to_string() })
    );
    let step = record("proof", "lemma", "fn lemma(x: i32) { helper(x); }", &["x == x"], &["gives ghost"]);
    assert_eq!(verify_totals(&[step]), Err(VerificationError::UnsupportedProofStep { proof: "lemma".to_string() }));
}

#[test]
fn records_that_are_neither_total_nor_proof_are_never_rejected() {
    let spec = record("spec", "s", "fn s(x: i32) -> bool { x.unwrap() }", &[], &[]);
    let model = record("trust_model", "M", "struct M { a: f32 }", &[], &[]);
    assert_eq!(verify_totals(&[spec, model]), Ok(()));
}

#[test]
fn refused_signature_types_are_never_accepted() {
    let float_param = record("total", "scale", "pub fn scale(x: f64) -> i32 { 0 }", &[], &[]);
    match verify_total(&float_param) {
        Err(VerificationError::UnsupportedType { function, ty }) => {
            assert_eq!(function, "scale");
            assert_eq!(ty, "f64");
        },
        other => panic!("unexpected {:?}", other),
    }
    let plain = record("total", "id", "pub fn id(x: i32) -> i32 { x }", &[], &[]);
    assert!(verify_total(&plain).is_ok());
}

#[test]
fn a_lone_total_function_calls_nothing_and_crate_calls_name_crate_functions() {
    let caller = record("total", "caller", "pub fn caller(x: i32) -> i32 { helper(x) }", &[], &[]);
    assert!(matches!(verify_total(&caller), Err(VerificationError::UnsupportedCall { .. })));
    let helper = record("total", "helper", "pub fn helper(x: i32) -> i32 { x }", &[], &[]);
    assert!(verify_totals(&[helper.clone(), caller.clone()]).is_ok());
    let recursive = record("total", "again", "pub fn again(x: i32) -> i32 { again(x) }", &[], &[]);
    assert!(verify_totals(&[recursive]).is_err());
}
