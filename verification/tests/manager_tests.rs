use dbconfig::errors::{ConfigError, EntryField};
use dbconfig::manager::{delete_database_entry, load_database_config, upsert_database_entry};
use dbconfig::model::{DatabaseEntry, DatabaseFile, OptimizationSettings};
use dbconfig::registry::PathRegistry;

fn entry(name: &str, conn: &str, db_type: &str) -> DatabaseEntry {
    DatabaseEntry {
        name: name.to_string(),
        connection_string: conn.to_string(),
        db_type: db_type.to_string(),
        description: None,
        is_default: None,
        optimization_settings: None,
    }
}

#[test]
fn scenario_create_on_first_save() {
    let mut reg = PathRegistry::new();
    let p = reg.set_path("./cfg.json", Some("/work")).expect("the path is stored");
    assert_eq!(p, "/work/./cfg.json");
    let (doc, text) = upsert_database_entry(None, entry("db1", "postgres://x", "postgres"))
        .expect("the first upsert succeeds on a missing file");
    assert_eq!(doc.databases.len(), 1);
    assert_eq!(doc.databases[0], entry("db1", "postgres://x", "postgres"));
    assert!(!text.contains("isDefault"));
    assert!(!text.contains("description"));
    assert!(!text.contains("optimizationSettings"));
}

#[test]
fn scenario_replace_keeps_single_entry() {
    let (_, text_a) = upsert_database_entry(None, entry("db1", "postgres://x", "postgres"))
        .expect("first upsert");
    let (doc_b, _) = upsert_database_entry(
        Some(&text_a),
        entry("db1", "postgres://y", "postgres"),
    )
    .expect("second upsert replaces");
    assert_eq!(doc_b.databases.len(), 1);
    assert_eq!(doc_b.databases[0].connection_string, "postgres://y");
}

#[test]
fn scenario_normalizes_before_storing() {
    let raw = DatabaseEntry {
        name: " db2 ".to_string(),
        connection_string: " c ".to_string(),
        db_type: " t ".to_string(),
        description: None,
        is_default: None,
        optimization_settings: Some(OptimizationSettings {
            auto_to_lower: Some("TRUE".to_string()),
            enable_i_like: None,
            identity_strategy: None,
        }),
    };
    let (doc, _) = upsert_database_entry(None, raw).expect("the entry is valid after trimming");
    let stored = &doc.databases[0];
    assert_eq!(stored.name, "db2");
    assert_eq!(stored.connection_string, "c");
    assert_eq!(stored.db_type, "t");
    let opt = stored.optimization_settings.as_ref().expect("the settings are kept");
    assert_eq!(opt.auto_to_lower.as_deref(), Some("true"));
}

#[test]
fn scenario_delete_then_not_found() {
    let (_, t1) = upsert_database_entry(None, entry("db1", "postgres://y", "postgres"))
        .expect("seed db1");
    let (_, t2) = upsert_database_entry(Some(&t1), entry("db2", "c", "t")).expect("seed db2");
    let (doc, t3) = delete_database_entry(Some(&t2), &"db1".to_string())
        .expect("db1 is present and removed");
    assert_eq!(doc.databases.len(), 1);
    assert_eq!(doc.databases[0].name, "db2");
    let again = delete_database_entry(Some(&t3), &"db1".to_string());
    assert!(matches!(again, Err(ConfigError::NotFound)));
}

#[test]
fn scenario_load_before_set_path() {
    let reg = PathRegistry::new();
    assert!(matches!(reg.require_path(), Err(ConfigError::NoPathConfigured)));
}

#[test]
fn load_reports_parse_failure_with_path() {
    let err = load_database_config("/work/cfg.json", "not a document")
        .expect_err("malformed content fails");
    assert!(matches!(err, ConfigError::Parse { .. }));
    assert_eq!(
        err.message(),
        "failed to parse the configuration file: /work/cfg.json (the content is not a well-formed configuration document)",
    );
}

#[test]
fn load_decodes_good_content() {
    let (_, text) = upsert_database_entry(None, entry("db1", "postgres://x", "postgres"))
        .expect("seed");
    let doc = load_database_config("/p", text.as_str()).expect("good content loads");
    assert_eq!(doc.databases.len(), 1);
}

#[test]
fn upsert_validates_required_fields() {
    let r1 = upsert_database_entry(None, entry("  ", "c", "t"));
    assert!(matches!(r1, Err(ConfigError::Validation(EntryField::Name))));
    let r2 = upsert_database_entry(None, entry("n", "  ", "t"));
    assert!(matches!(r2, Err(ConfigError::Validation(EntryField::ConnectionString))));
    let r3 = upsert_database_entry(None, entry("n", "c", "  "));
    assert!(matches!(r3, Err(ConfigError::Validation(EntryField::DbType))));
}

#[test]
fn upsert_keeps_position_and_order() {
    let (_, t1) = upsert_database_entry(None, entry("a", "1", "t")).expect("seed a");
    let (_, t2) = upsert_database_entry(Some(&t1), entry("b", "2", "t")).expect("seed b");
    let (_, t3) = upsert_database_entry(Some(&t2), entry("c", "3", "t")).expect("seed c");
    let (doc, _) = upsert_database_entry(Some(&t3), entry("b", "9", "t")).expect("replace b");
    let names: Vec<&str> = doc.databases.iter().map(|e| e.name.as_str()).collect();
    assert_eq!(names, vec!["a", "b", "c"]);
    assert_eq!(doc.databases[1].connection_string, "9");
}

#[test]
fn upsert_treats_malformed_content_as_empty() {
    let (doc, _) = upsert_database_entry(Some(&"garbage".to_string()), entry("a", "1", "t"))
        .expect("malformed prior content is tolerated");
    assert_eq!(doc.databases.len(), 1);
}

#[test]
fn delete_rejects_empty_name() {
    let r = delete_database_entry(None, &"   ".to_string());
    assert!(matches!(r, Err(ConfigError::Validation(EntryField::Name))));
}

#[test]
fn delete_compares_names_without_trimming() {
    let (_, t1) = upsert_database_entry(None, entry("db2", "c", "t")).expect("seed");
    let r = delete_database_entry(Some(&t1), &" db2 ".to_string());
    assert!(matches!(r, Err(ConfigError::NotFound)));
    let (doc, _) = delete_database_entry(Some(&t1), &"db2".to_string())
        .expect("the exact name removes the entry");
    assert_eq!(doc.databases.len(), 0);
}

#[test]
fn delete_on_missing_file_is_not_found() {
    let r = delete_database_entry(None, &"db1".to_string());
    assert!(matches!(r, Err(ConfigError::NotFound)));
}

#[test]
fn normalized_is_idempotent_on_normalized_entry() {
    let raw = DatabaseEntry {
        name: " a ".to_string(),
        connection_string: " b ".to_string(),
        db_type: " c ".to_string(),
        description: Some(" d ".to_string()),
        is_default: Some(false),
        optimization_settings: Some(OptimizationSettings {
            auto_to_lower: Some("tRuE".to_string()),
            enable_i_like: Some(" maybe ".to_string()),
            identity_strategy: Some("   ".to_string()),
        }),
    };
    let once = raw.normalized();
    let twice = once.clone().normalized();
    assert_eq!(twice, once);
    let opt = once.optimization_settings.as_ref().expect("settings kept");
    assert_eq!(opt.auto_to_lower.as_deref(), Some("true"));
    assert_eq!(opt.enable_i_like.as_deref(), Some("maybe"));
    assert_eq!(opt.identity_strategy, None);
}

#[test]
fn normalize_bool_string_spellings() {
    assert_eq!(dbconfig::model::normalize_bool_string("TRUE".to_string()), "true");
    assert_eq!(dbconfig::model::normalize_bool_string("False".to_string()), "false");
    assert_eq!(dbconfig::model::normalize_bool_string(" other ".to_string()), "other");
    assert_eq!(dbconfig::model::normalize_bool_string(" TRUE ".to_string()), "TRUE");
}

#[test]
fn error_messages_name_each_failure() {
    assert_eq!(ConfigError::StateUnavailable.message(), "path state is unavailable");
    assert_eq!(ConfigError::NoPathConfigured.message(), "set the configuration file path first");
    assert_eq!(ConfigError::InvalidArgument.message(), "the path must not be empty");
    assert_eq!(
        ConfigError::Validation(EntryField::Name).message(),
        "the database name must not be empty",
    );
    assert_eq!(ConfigError::NotFound.message(), "no entry has the given name");
    let w = ConfigError::Write { path: "/p".to_string(), cause: "denied".to_string() };
    assert_eq!(w.message(), "failed to write the configuration file: /p (denied)");
    let r = ConfigError::Read { path: "/p".to_string(), cause: "missing".to_string() };
    assert_eq!(r.message(), "failed to read the configuration file: /p (missing)");
}
