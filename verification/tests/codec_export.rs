use envstore::error::AppError;
use envstore::export::{export_docker, export_dotenv, export_environment, export_json, export_yaml};
use envstore::store::JsonStore;

#[test]
fn fresh_store_serializes_empty_document() {
    let st = JsonStore::new(None).unwrap();
    let text = st.save();
    assert!(text.starts_with(
        "{\"projects\":{},\"metadata\":{\"version\":\"1.0.0\",\"last_backup\":"
    ));
    assert!(text.ends_with("}}"));
}

#[test]
fn save_then_load_round_trips() {
    let mut st = JsonStore::new(None).unwrap();
    st.create_project("api".to_string(), Some("desc".to_string())).unwrap();
    st.create_project("web".to_string(), None).unwrap();
    st.set_variable("api", "prod", "DB_URL".to_string(), "postgres://x".to_string(), false)
        .unwrap();
    st.set_variable("api", "prod", "TOKEN".to_string(), "with \"quotes\" \\ ok".to_string(), true)
        .unwrap();
    let text = st.save();
    let st2 = JsonStore::new(Some(text.as_str())).unwrap();
    assert_eq!(st2.save(), text);

    let p = st2.get_project("api").unwrap();
    assert_eq!(p.description, Some("desc".to_string()));
    let v = st2.get_variable("api", "prod", "TOKEN").unwrap();
    assert_eq!(v.value, "with \"quotes\" \\ ok");
    assert!(v.encrypted);
    assert!(st2.get_project("web").unwrap().description.is_none());
}

#[test]
fn load_accepts_whitespace_between_tokens() {
    let text = "{\n  \"projects\": {\n    \"api\": {\n      \"id\": \"abc\",\n      \"name\": \"api\",\n      \"description\": null,\n      \"environments\": {\n        \"dev\": {\n          \"K\": {\n            \"value\": \"v\",\n            \"encrypted\": false,\n            \"created_at\": 5,\n            \"updated_at\": -3\n          }\n        }\n      },\n      \"created_at\": 1,\n      \"updated_at\": 2\n    }\n  },\n  \"metadata\": {\n    \"version\": \"1.0.0\",\n    \"last_backup\": 0\n  }\n}\n";
    let st = JsonStore::new(Some(text)).unwrap();
    let p = st.get_project("api").unwrap();
    assert_eq!(p.id, "abc");
    assert_eq!(p.created_at, 1);
    assert_eq!(p.updated_at, 2);
    let v = st.get_variable("api", "dev", "K").unwrap();
    assert_eq!(v.value, "v");
    assert_eq!(v.created_at, 5);
    assert_eq!(v.updated_at, -3);
}

#[test]
fn load_rejects_garbage() {
    let err = match JsonStore::new(Some("not json at all")) {
        Err(e) => e,
        Ok(_) => panic!("garbage text must not parse"),
    };
    assert!(matches!(err, AppError::JsonError(_)));
}

#[test]
fn load_rejects_duplicate_keys_and_mismatched_names() {
    let dup = "{\"projects\":{\"a\":{\"id\":\"1\",\"name\":\"a\",\"description\":null,\
\"environments\":{\"e\":{\"k\":{\"value\":\"v\",\"encrypted\":false,\"created_at\":0,\
\"updated_at\":0},\"k\":{\"value\":\"w\",\"encrypted\":false,\"created_at\":0,\
\"updated_at\":0}}},\"created_at\":0,\"updated_at\":0}},\"metadata\":{\"version\":\"1\",\
\"last_backup\":0}}";
    assert!(JsonStore::new(Some(dup)).is_err());

    let mismatch = "{\"projects\":{\"a\":{\"id\":\"1\",\"name\":\"b\",\"description\":null,\
\"environments\":{},\"created_at\":0,\"updated_at\":0}},\"metadata\":{\"version\":\"1\",\
\"last_backup\":0}}";
    assert!(JsonStore::new(Some(mismatch)).is_err());
}

#[test]
fn load_rejects_trailing_content() {
    let mut st = JsonStore::new(None).unwrap();
    st.create_project("p".to_string(), None).unwrap();
    let mut text = st.save();
    text.push_str(" x");
    assert!(JsonStore::new(Some(text.as_str())).is_err());
}

fn sample_env() -> envstore::models::Environment {
    let mut st = JsonStore::new(None).unwrap();
    st.create_project("p".to_string(), None).unwrap();
    st.set_variable("p", "e", "DB_URL".to_string(), "postgres://x".to_string(), false).unwrap();
    st.set_variable("p", "e", "KEY".to_string(), "s3cr3t".to_string(), true).unwrap();
    st.get_environment("p", "e").unwrap()
}

#[test]
fn export_dotenv_format() {
    let env = sample_env();
    assert_eq!(export_dotenv(&env), "DB_URL=postgres://x\nKEY=s3cr3t");
    let empty: envstore::models::Environment = Vec::new();
    assert_eq!(export_dotenv(&empty), "");
}

#[test]
fn export_yaml_format() {
    let env = sample_env();
    assert_eq!(export_yaml(&env), "DB_URL: postgres://x\nKEY: s3cr3t");
}

#[test]
fn export_docker_format() {
    let env = sample_env();
    assert_eq!(export_docker(&env), "-e DB_URL=postgres://x -e KEY=s3cr3t");
}

#[test]
fn export_json_format() {
    let env = sample_env();
    assert_eq!(
        export_json(&env).unwrap(),
        "{\n  \"DB_URL\": \"postgres://x\",\n  \"KEY\": \"s3cr3t\"\n}"
    );
    let empty: envstore::models::Environment = Vec::new();
    assert_eq!(export_json(&empty).unwrap(), "{}");
}

#[test]
fn export_environment_dispatches_and_rejects_unknown() {
    let env = sample_env();
    assert_eq!(export_environment(&env, "dotenv").unwrap(), export_dotenv(&env));
    assert_eq!(export_environment(&env, "yaml").unwrap(), export_yaml(&env));
    assert_eq!(export_environment(&env, "docker").unwrap(), export_docker(&env));
    assert_eq!(export_environment(&env, "json").unwrap(), export_json(&env).unwrap());
    let err = export_environment(&env, "xml").unwrap_err();
    assert!(matches!(err, AppError::InvalidInput(ref m) if m == "Unknown format: xml"));
}

#[test]
fn export_via_store_example() {
    let mut st = JsonStore::new(None).unwrap();
    st.create_project("api".to_string(), Some("desc".to_string())).unwrap();
    st.set_variable("api", "prod", "DB_URL".to_string(), "postgres://x".to_string(), false)
        .unwrap();
    let env = st.get_environment("api", "prod").unwrap();
    assert_eq!(env.len(), 1);
    assert_eq!(env[0].0, "DB_URL");
    assert_eq!(env[0].1.value, "postgres://x");
    assert!(!env[0].1.encrypted);
    assert_eq!(export_dotenv(&env), "DB_URL=postgres://x");
}

#[test]
fn config_defaults() {
    let c = envstore::config::AppConfig::load(None).unwrap();
    assert_eq!(c.server.host, "127.0.0.1");
    assert_eq!(c.server.port, 8080);
    assert_eq!(c.database.path, "./data/env-store.json");
    assert!(c.database.auto_backup);
    assert_eq!(c.database.backup_dir.as_deref(), Some("./backups"));
    assert_eq!(c.defaults.environment, "development");
    assert_eq!(c.defaults.export_format, "dotenv");

    let mut custom = envstore::config::AppConfig::load(None).unwrap();
    custom.server.port = 9999;
    let back = envstore::config::AppConfig::load(Some(custom)).unwrap();
    assert_eq!(back.server.port, 9999);
}

#[test]
fn round_trip_edge_values() {
    let mut st = JsonStore::new(None).unwrap();
    st.create_project("".to_string(), Some("".to_string())).unwrap();
    st.set_variable("", "", "".to_string(), "".to_string(), false).unwrap();
    st.set_variable("", "", "unicode".to_string(), "caf\u{e9} \u{1f680} \n\ttab".to_string(), true)
        .unwrap();
    let text = st.save();
    let st2 = JsonStore::new(Some(text.as_str())).unwrap();
    assert_eq!(st2.save(), text);
    assert_eq!(st2.get_variable("", "", "").unwrap().value, "");
    assert_eq!(
        st2.get_variable("", "", "unicode").unwrap().value,
        "caf\u{e9} \u{1f680} \n\ttab"
    );
}
