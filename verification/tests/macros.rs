use trust_core::frontend::{
    inspect_module, inspect_module_info, inspect_total_fn, model_metadata_json, module_metadata_json,
    parse_proof_source, parse_spec_source, parse_total_source, parse_trust_model_source, proof_metadata_json,
    render_function, spec_metadata_json, trusted_model_metadata_json,
};

fn cs(s: &str) -> Vec<char> {
    s.chars().collect()
}


#[test]
fn inspects_single_public_function() {
    let info = inspect_total_fn(&cs("pub fn id_i32(x: i32) -> i32 { x }")).unwrap();

    assert_eq!(info.name, "id_i32");
    assert_eq!(info.visibility, "public");
}

#[test]
fn rejects_multiple_functions() {
    let err = parse_total_source(&cs("fn a() {} fn b() {}")).unwrap_err();

    assert_eq!(
        err,
        "error[trust]: trust::total! accepts exactly one Rust fn item"
    );
}

#[test]
fn module_accepts_total_function() {
    inspect_module(&cs(r#"
        mod verified {
            trust::total! {
                pub fn id_i32(x: i32) -> i32 { x }
            }
        }
        "#))
    .unwrap();
}

#[test]
fn module_metadata_records_module_identity() {
    let module = inspect_module_info(&cs(r#"
        pub mod verified {
            trust::total! {
                pub fn id_i32(x: i32) -> i32 { x }
            }
        }
        "#))
    .unwrap();
    let metadata = module_metadata_json(&module, "pub mod verified {}", "hash", "0.1.0", "always");

    assert_eq!(module.name, "verified");
    assert_eq!(module.visibility, "public");
    assert!(metadata.contains("\"item_kind\":\"module\""));
    assert!(metadata.contains("\"module_id\":\"verified\""));
    assert!(metadata.contains("\"rust_function_path\":\"verified\""));
}

#[test]
fn module_rejects_unverified_function() {
    let err = inspect_module(&cs(r#"
        mod verified {
            pub fn helper(x: i32) -> i32 { x }
        }
        "#))
    .unwrap_err();

    assert_eq!(
        err,
        "error[trust]: unverified Rust functions are not allowed inside #[trust::module] in the MVP"
    );
}

#[test]
fn trust_model_derive_accepts_simple_struct() {
    let model =
        parse_trust_model_source(&cs("pub struct Account { pub id: u64, pub balance: i64 }"))
            .unwrap();

    assert_eq!(model.name, "Account");
    assert!(model_metadata_json(&model, "pub struct Account { pub id: u64, pub balance: i64 }", "hash", "0.1.0")
    .contains("\"item_kind\":\"trust_model\""));
}

#[test]
fn trust_model_derive_rejects_generic_struct() {
    let err = parse_trust_model_source(&cs("pub struct Boxed<T> { pub value: T }")).unwrap_err();

    assert_eq!(
        err,
        "error[trust]: generic TrustModel types are not supported in MVP"
    );
}

#[test]
fn trust_model_derive_rejects_unsupported_field_type() {
    let err = parse_trust_model_source(&cs("pub struct Bag { pub values: Vec<i32> }")).unwrap_err();

    assert_eq!(
        err,
        "error[trust]: field type is not supported by TrustModel MVP"
    );
}

#[test]
fn trusted_model_metadata_is_inert_stub() {
    let metadata = trusted_model_metadata_json("axiom false_is_true: false;", "hash", "0.1.0");

    assert!(metadata.contains("\"item_kind\":\"trusted_model_stub\""));
    assert!(metadata.contains("\"contracts_original\":[]"));
}

#[test]
fn spec_parses_executable_function_and_metadata() {
    let spec =
        parse_spec_source(&cs("executable fn nonempty(xs: &[i32]) -> bool { xs . len() > 0 }"))
            .unwrap();

    assert_eq!(spec.kind, "executable");
    assert_eq!(spec.fn_info.name, "nonempty");
    assert!(spec_metadata_json(&spec, "hash", "0.1.0")
    .contains("\"item_kind\":\"spec\""));
}

#[test]
fn executable_spec_rejects_quantifier() {
    let err =
        parse_spec_source(&cs("executable fn bad(xs: &[i32]) -> bool { forall(|i: usize| i > 0) }"))
            .unwrap_err();

    assert_eq!(
        err,
        "error[trust]: quantifiers are not supported in executable preconditions"
    );
}

#[test]
fn proof_metadata_is_erased_and_keeps_contracts() {
    let proof = parse_proof_source(&cs("fn le_trans(a: i32, b: i32, c: i32) given ghost { a <= b; b <= c; } gives ghost { a <= c; } { assert(a <= c); }"))
    .unwrap();
    let metadata = proof_metadata_json(&proof, "fn le_trans(a: i32, b: i32, c: i32) given ghost { a <= b; b <= c; } gives ghost { a <= c; } { assert(a <= c); }", "hash", "0.1.0");

    assert_eq!(proof.fn_info.name, "le_trans");
    assert_eq!(proof.contracts.len(), 3);
    assert!(metadata.contains("\"item_kind\":\"proof\""));
    assert!(metadata.contains("\"contracts_original\":[\"a <= b\",\"b <= c\",\"a <= c\"]"));
}

#[test]
fn proof_rejects_public_export() {
    let err = parse_proof_source(&cs("pub fn le_refl(a: i32) gives ghost { a <= a; } { assert(a <= a); }"))
    .unwrap_err();

    assert_eq!(
        err,
        "error[trust]: proof functions are erased and cannot be public Rust APIs"
    );
}

#[test]
fn proof_rejects_empty_nontrivial_body() {
    let err = parse_proof_source(&cs("fn le_refl(a: i32) gives ghost { a <= a; } { }")).unwrap_err();

    assert_eq!(
        err,
        "error[trust]: empty proof body cannot prove a nontrivial lemma"
    );
}

#[test]
fn total_parses_executable_given_and_renders_assertion() {
    let total = parse_total_source(&cs("given executable { i < xs . len(); } pub fn get(xs: &[i32], i: usize) -> i32 { xs[i] }"))
    .unwrap();

    assert_eq!(total.fn_info.name, "get");
    assert_eq!(total.contracts[0].expression_display, "i < xs.len()");

    let function = render_function(&total, "always");
    assert!(function.contains(
        "::trust::__rt::assert_precondition((i < xs . len()), \"get\", \"i < xs.len()\");"
    ));
}

#[test]
fn total_parses_private_ghost_given_without_runtime_assertion() {
    let total = parse_total_source(&cs("given ghost { sorted(xs); } fn private_first_sorted(xs: &[i32]) -> i32 { 0 }"))
    .unwrap();

    assert_eq!(total.fn_info.visibility, "private");
    assert_eq!(total.contracts[0].class, "given ghost");
    assert_eq!(total.contracts[0].expression_display, "sorted(xs)");

    let function = render_function(&total, "always");
    assert!(!function.contains("assert_precondition"));
    assert!(!function.contains("sorted(xs)"));
}

#[test]
fn total_rejects_public_ghost_given() {
    let err = parse_total_source(&cs("given ghost { sorted(xs); } pub fn first_sorted(xs: &[i32]) -> i32 { xs[0] }"))
    .unwrap_err();

    assert_eq!(
        err,
        "error[trust]: public function has ghost-only precondition"
    );
}

#[test]
fn total_parses_gives_contracts_without_runtime_precondition_assertion() {
    let total = parse_total_source(&cs("gives executable | out | { out == x; } pub fn id_i32(x: i32) -> i32 { x }"))
    .unwrap();

    assert_eq!(total.contracts[0].class, "gives executable");
    assert_eq!(total.contracts[0].expression_display, "out == x");

    let function = render_function(&total, "always");
    assert!(!function.contains("assert_precondition"));
    assert!(function.contains("assert_postcondition"));
    assert!(function.contains("__trust_out==x"));
}

#[test]
fn executable_given_rejects_quantifier() {
    let err =
        parse_total_source(&cs("given executable { forall i; } pub fn id_i32(x: i32) -> i32 { x }"))
            .unwrap_err();

    assert_eq!(
        err,
        "error[trust]: quantifiers are not supported in executable preconditions"
    );
}

#[test]
fn executable_given_rejects_arbitrary_call() {
    let err = parse_total_source(&cs("given executable { valid_index(i); } pub fn id_i32(x: i32) -> i32 { x }"))
    .unwrap_err();

    assert_eq!(
        err,
        "error[trust]: unsupported function call in executable precondition"
    );
}
