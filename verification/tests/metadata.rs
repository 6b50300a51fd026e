use trust_core::metadata::{parse_metadata_line, MetadataError};

const TOTAL_METADATA_JSON: &str = r#"{"schema_version":1,"trust_macro_version":"0.1.0","module_id":"unknown","item_id":"total:id:abc","item_kind":"total","source_span":"unknown","rust_function_path":"id","visibility":"public","contracts_original":["x < i32::MAX"],"contracts_normalized":["x < i32::MAX"],"contract_classes":["given executable"],"assertion_policy":"always","function_source":"pub fn id(x: i32) -> i32 { x }","body_hash_placeholder":"abc","trust_model_dependencies":["Model"]}"#;
const EMPTY_ARRAY_METADATA_JSON: &str = r#"{"schema_version":1,"trust_macro_version":"0.1.0","module_id":"unknown","item_id":"total:id:abc","item_kind":"total","source_span":"unknown","rust_function_path":"id","visibility":"public","contracts_original":[],"contracts_normalized":[],"contract_classes":[],"assertion_policy":"always","function_source":"pub fn id(x: i32) -> i32 { x }","body_hash_placeholder":"abc","trust_model_dependencies":[]}"#;

#[test]
fn parses_total_metadata() {
    let metadata = parse_metadata_line(TOTAL_METADATA_JSON).unwrap();

    assert_eq!(metadata.schema_version, 1);
    assert_eq!(metadata.trust_macro_version, "0.1.0");
    assert_eq!(metadata.module_id, "unknown");
    assert_eq!(metadata.item_id, "total:id:abc");
    assert_eq!(metadata.item_kind, "total");
    assert_eq!(metadata.source_span, "unknown");
    assert_eq!(metadata.rust_function_path, "id");
    assert_eq!(metadata.visibility, "public");
    assert_eq!(metadata.contracts_original, ["x < i32::MAX"]);
    assert_eq!(metadata.contracts_normalized, ["x < i32::MAX"]);
    assert_eq!(metadata.contract_classes, ["given executable"]);
    assert_eq!(metadata.assertion_policy, "always");
    assert_eq!(metadata.function_source, "pub fn id(x: i32) -> i32 { x }");
    assert_eq!(metadata.body_hash_placeholder, "abc");
    assert_eq!(metadata.trust_model_dependencies, ["Model"]);
}

#[test]
fn rejects_unknown_schema() {
    let err = parse_metadata_line(
        r#"{"schema_version":99,"item_id":"total:id:abc","item_kind":"total","rust_function_path":"id","contracts_original":[],"contract_classes":[],"function_source":"pub fn id(x: i32) -> i32 { x }"}"#,
    )
    .unwrap_err();

    assert_eq!(err, MetadataError::UnsupportedSchema(99));
}

#[test]
fn parses_empty_string_array() {
    let metadata = parse_metadata_line(EMPTY_ARRAY_METADATA_JSON).unwrap();

    assert!(metadata.contracts_original.is_empty());
    assert!(metadata.contracts_normalized.is_empty());
    assert!(metadata.contract_classes.is_empty());
    assert!(metadata.trust_model_dependencies.is_empty());
}

#[test]
fn rejects_incomplete_metadata() {
    let err = parse_metadata_line(
        r#"{"schema_version":1,"item_id":"total:id:abc","item_kind":"total","rust_function_path":"id","contracts_original":[],"contract_classes":[],"function_source":"pub fn id(x: i32) -> i32 { x }"}"#,
    )
    .unwrap_err();

    assert_eq!(err, MetadataError::MissingField("trust_macro_version"));
}

#[test]
fn decodes_escapes_in_strings_and_arrays() {
    let line = TOTAL_METADATA_JSON
        .replace(r#""pub fn id(x: i32) -> i32 { x }""#, r#""a\"b\\c\nd\te""#)
        .replace(r#"["Model"]"#, r#"[ "M\"1" , "M2" ]"#);
    let metadata = parse_metadata_line(&line).unwrap();
    assert_eq!(metadata.function_source, "a\"b\\c\nd\te");
    assert_eq!(metadata.trust_model_dependencies, ["M\"1", "M2"]);
}

#[test]
fn rejects_non_numeric_and_oversized_schema() {
    let err = parse_metadata_line(r#"{"schema_version":"1"}"#).unwrap_err();
    assert_eq!(err, MetadataError::InvalidNumber("schema_version"));
    let err = parse_metadata_line(r#"{"schema_version":99999999999}"#).unwrap_err();
    assert_eq!(err, MetadataError::InvalidNumber("schema_version"));
    let err = parse_metadata_line(r#"{}"#).unwrap_err();
    assert_eq!(err, MetadataError::MissingField("schema_version"));
}

#[test]
fn rejects_unterminated_array() {
    let line = TOTAL_METADATA_JSON.replace(r#"["Model"]"#, r#"["Model""#);
    let err = parse_metadata_line(&line[..line.len() - 1]).unwrap_err();
    assert_eq!(err, MetadataError::MissingField("trust_model_dependencies"));
}

#[test]
fn error_messages() {
    assert_eq!(
        MetadataError::MissingField("item_id").message(),
        "missing Trust metadata field `item_id`"
    );
    assert_eq!(
        MetadataError::InvalidNumber("schema_version").message(),
        "invalid numeric Trust metadata field `schema_version`"
    );
    assert_eq!(
        MetadataError::UnsupportedSchema(7).message(),
        "unsupported Trust metadata schema version 7"
    );
}
