use trust_core::frontend::{inspect_spec_fn, inspect_total_fn, parse_proof_source, parse_spec_source, parse_total_source};
use trust_core::types::{parse_params, parse_return_type};

fn cs(s: &str) -> Vec<char> {
    s.chars().collect()
}

#[test]
fn total_without_fn_is_refused() {
    let err = parse_total_source(&cs("struct S;")).unwrap_err();
    assert_eq!(err, "error[trust]: trust::total! requires exactly one Rust fn item");
}

#[test]
fn async_total_is_refused() {
    let err = inspect_total_fn(&cs("pub async fn f(x: i32) -> i32 { x }")).unwrap_err();
    assert_eq!(err, "error[trust]: async functions are not supported in Trust MVP");
}

#[test]
fn unsafe_total_is_refused() {
    let err = parse_total_source(&cs("pub unsafe fn f(x: i32) -> i32 { x }")).unwrap_err();
    assert_eq!(err, "error[trust]: unsafe functions are not supported in Trust MVP");
}

#[test]
fn extern_total_is_refused() {
    let err = parse_total_source(&cs("pub extern \"C\" fn f(x: i32) -> i32 { x }")).unwrap_err();
    assert_eq!(err, "error[trust]: extern functions are not supported in Trust MVP");
}

#[test]
fn generic_total_is_refused() {
    let err = parse_total_source(&cs("pub fn f<T>(x: T) -> T { x }")).unwrap_err();
    assert_eq!(err, "error[trust]: generic total functions are not supported in MVP");
}

#[test]
fn total_without_body_is_refused() {
    let err = inspect_total_fn(&cs("pub fn f(x: i32) -> i32;")).unwrap_err();
    assert_eq!(err, "error[trust]: trust::total! requires a function body");
}

#[test]
fn total_without_blocks_keeps_its_source() {
    let t = parse_total_source(&cs("  fn f(x: i32) -> i32 { x }  ")).unwrap();
    assert_eq!(t.fn_source, "fn f(x: i32) -> i32 { x }");
    assert!(t.contracts.is_empty());
    assert_eq!(t.fn_info.name, "f");
    assert_eq!(t.fn_info.visibility, "private");
}

#[test]
fn generic_spec_is_refused() {
    let err = inspect_spec_fn(&cs("fn p<T>(x: T) -> bool { true }")).unwrap_err();
    assert_eq!(err, "error[trust]: generic spec functions are not supported in MVP");
}

#[test]
fn spec_needs_a_kind() {
    let err = parse_spec_source(&cs("fn p(x: i32) -> bool { x > 0 }")).unwrap_err();
    assert_eq!(err, "error[trust]: trust::spec! must be `executable fn` or `ghost fn`");
}

#[test]
fn ghost_spec_with_two_functions_is_refused() {
    let err = parse_spec_source(&cs("ghost fn p() -> bool { true } fn q() {}")).unwrap_err();
    assert_eq!(err, "error[trust]: trust::spec! accepts exactly one Rust fn item");
}

#[test]
fn ghost_spec_keeps_its_function() {
    let s = parse_spec_source(&cs("ghost fn sorted(xs: &[i32]) -> bool { true }")).unwrap();
    assert_eq!(s.kind, "ghost");
    assert_eq!(s.fn_source, "fn sorted(xs: &[i32]) -> bool { true }");
}

#[test]
fn async_proof_is_refused() {
    let err = parse_proof_source(&cs("async fn l(a: i32) { }")).unwrap_err();
    assert_eq!(err, "error[trust]: async proof functions are not supported in Trust MVP");
}

#[test]
fn generic_proof_is_refused() {
    let err = parse_proof_source(&cs("fn l<T>(a: T) { }")).unwrap_err();
    assert_eq!(err, "error[trust]: generic proof functions are not supported in MVP");
}

#[test]
fn proof_without_fn_is_refused() {
    let err = parse_proof_source(&cs("given ghost { a <= a; }")).unwrap_err();
    assert_eq!(err, "error[trust]: trust::proof! requires a proof function");
}

#[test]
fn signature_parameters_and_return_type() {
    let src = cs("fn f(mut x: i32, y: &[u64], z) -> Option<u8> { None }");
    let ps = parse_params(&src);
    assert_eq!(ps.len(), 2);
    assert_eq!(ps[0].name.iter().collect::<String>(), " x");
    assert_eq!(ps[0].ty.iter().collect::<String>(), "i32");
    assert_eq!(ps[1].name.iter().collect::<String>(), "y");
    assert_eq!(ps[1].ty.iter().collect::<String>(), "&[u64]");
    assert_eq!(parse_return_type(&src).iter().collect::<String>(), "()");
    let tight = cs("fn f(x: i32)-> Option<u8> { None }");
    assert_eq!(parse_return_type(&tight).iter().collect::<String>(), "Option<u8>");
    assert_eq!(parse_return_type(&cs("fn g(a: i32) { }")).iter().collect::<String>(), "()");
    assert!(parse_params(&cs("fn h")).is_empty());
}
