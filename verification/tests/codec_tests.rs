use dbconfig::codec::{decode, encode};
use dbconfig::model::{DatabaseEntry, DatabaseFile, OptimizationSettings};

fn entry(name: &str, conn: &str, db_type: &str) -> DatabaseEntry {
    DatabaseEntry {
        name: name.to_string(),
        connection_string: conn.to_string(),
        db_type: db_type.to_string(),
        description: None,
        is_default: None,
        optimization_settings: None,
    }
}

fn full_entry() -> DatabaseEntry {
    DatabaseEntry {
        name: "db1".to_string(),
        connection_string: "postgres://x".to_string(),
        db_type: "postgres".to_string(),
        description: Some("main database".to_string()),
        is_default: Some(true),
        optimization_settings: Some(OptimizationSettings {
            auto_to_lower: Some("true".to_string()),
            enable_i_like: Some("false".to_string()),
            identity_strategy: Some("sequence".to_string()),
        }),
    }
}

#[test]
fn round_trip_fully_populated() {
    let doc = DatabaseFile { databases: vec![full_entry(), entry("db2", "c", "t")] };
    let text = encode(&doc);
    let back = decode(text.as_str()).expect("the encoding must decode");
    assert_eq!(back, doc);
}

#[test]
fn round_trip_fully_absent() {
    let doc = DatabaseFile { databases: vec![entry("db1", "postgres://x", "postgres")] };
    let text = encode(&doc);
    let back = decode(text.as_str()).expect("the encoding must decode");
    assert_eq!(back, doc);
}

#[test]
fn round_trip_empty_document() {
    let doc = DatabaseFile { databases: vec![] };
    let text = encode(&doc);
    let back = decode(text.as_str()).expect("the encoding must decode");
    assert_eq!(back, doc);
}

#[test]
fn round_trip_escaped_characters() {
    let doc = DatabaseFile {
        databases: vec![entry("a\"b\\c\nd\te\u{8}f\u{c}g\u{1}h", "c", "t")],
    };
    let text = encode(&doc);
    let back = decode(text.as_str()).expect("the encoding must decode");
    assert_eq!(back, doc);
}

#[test]
fn encode_empty_document_exact_text() {
    let doc = DatabaseFile { databases: vec![] };
    assert_eq!(encode(&doc), "{\n  \"databases\": []\n}");
}

#[test]
fn encode_one_entry_exact_text() {
    let doc = DatabaseFile { databases: vec![entry("db1", "postgres://x", "postgres")] };
    let expected = "{\n  \"databases\": [\n    {\n      \"name\": \"db1\",\n      \"connectionString\": \"postgres://x\",\n      \"dbType\": \"postgres\"\n    }\n  ]\n}";
    assert_eq!(encode(&doc), expected);
}

#[test]
fn encode_full_entry_exact_text() {
    let doc = DatabaseFile { databases: vec![full_entry()] };
    let expected = "{\n  \"databases\": [\n    {\n      \"name\": \"db1\",\n      \"connectionString\": \"postgres://x\",\n      \"dbType\": \"postgres\",\n      \"description\": \"main database\",\n      \"isDefault\": true,\n      \"optimizationSettings\": {\n        \"autoToLower\": \"true\",\n        \"enableILike\": \"false\",\n        \"identityStrategy\": \"sequence\"\n      }\n    }\n  ]\n}";
    assert_eq!(encode(&doc), expected);
}

#[test]
fn encode_is_deterministic() {
    let doc = DatabaseFile { databases: vec![full_entry()] };
    assert_eq!(encode(&doc), encode(&doc));
}

#[test]
fn decode_accepts_compact_text() {
    let back = decode("{\"databases\":[]}").expect("compact text must decode");
    assert_eq!(back.databases.len(), 0);
    let back2 = decode(
        "{\"databases\":[{\"name\":\"a\",\"connectionString\":\"b\",\"dbType\":\"c\"}]}",
    )
    .expect("compact entry must decode");
    assert_eq!(back2.databases[0], entry("a", "b", "c"));
}

#[test]
fn decode_accepts_any_member_order() {
    let back = decode(
        "{\"databases\":[{\"dbType\":\"c\",\"name\":\"a\",\"isDefault\":false,\"connectionString\":\"b\"}]}",
    )
    .expect("reordered members must decode");
    assert_eq!(back.databases[0].name, "a");
    assert_eq!(back.databases[0].is_default, Some(false));
}

#[test]
fn decode_unescapes_hexadecimal() {
    let back = decode(
        "{\"databases\":[{\"name\":\"\\u0041\\u00e9\",\"connectionString\":\"b\",\"dbType\":\"c\"}]}",
    )
    .expect("hexadecimal escapes must decode");
    assert_eq!(back.databases[0].name, "A\u{e9}");
}

#[test]
fn decode_rejects_malformed_text() {
    assert!(decode("").is_none());
    assert!(decode("not a document").is_none());
    assert!(decode("{}").is_none());
    assert!(decode("{\"databases\": {}}").is_none());
    assert!(decode("{\"databases\": []").is_none());
    assert!(decode("{\"databases\": []} trailing").is_none());
}

#[test]
fn decode_rejects_wrong_member_types() {
    assert!(decode("{\"databases\":[{\"name\":true,\"connectionString\":\"b\",\"dbType\":\"c\"}]}").is_none());
    assert!(decode("{\"databases\":[{\"name\":\"a\",\"connectionString\":\"b\"}]}").is_none());
    assert!(decode("{\"databases\":[{}]}").is_none());
}

#[test]
fn decode_rejects_repeated_member() {
    assert!(decode(
        "{\"databases\":[{\"name\":\"a\",\"name\":\"a\",\"connectionString\":\"b\",\"dbType\":\"c\"}]}",
    )
    .is_none());
}

#[test]
fn decode_rejects_bad_escapes() {
    assert!(decode("{\"databases\":[{\"name\":\"\\x\",\"connectionString\":\"b\",\"dbType\":\"c\"}]}").is_none());
    assert!(decode("{\"databases\":[{\"name\":\"\\ud800\",\"connectionString\":\"b\",\"dbType\":\"c\"}]}").is_none());
}
