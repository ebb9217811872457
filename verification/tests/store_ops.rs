use envstore::error::AppError;
use envstore::store::JsonStore;

fn fresh_store() -> JsonStore {
    JsonStore::new(None).unwrap()
}

#[test]
fn create_project_returns_fresh_project() {
    let mut st = fresh_store();
    let p = st.create_project("api".to_string(), Some("desc".to_string())).unwrap();
    assert_eq!(p.name, "api");
    assert_eq!(p.description, Some("desc".to_string()));
    assert_eq!(p.id.len(), 36);
    assert!(p.environments.is_empty());
    assert_eq!(p.created_at, p.updated_at);
}

#[test]
fn create_duplicate_fails_and_leaves_existing_unmodified() {
    let mut st = fresh_store();
    st.create_project("api".to_string(), Some("original".to_string())).unwrap();
    let before = st.get_project("api").unwrap();
    let err = st.create_project("api".to_string(), Some("other".to_string())).unwrap_err();
    assert!(matches!(err, AppError::ProjectAlreadyExists(ref n) if n == "api"));
    let after = st.get_project("api").unwrap();
    assert_eq!(after.id, before.id);
    assert_eq!(after.description, Some("original".to_string()));
    assert_eq!(st.list_projects().unwrap().len(), 1);
}

#[test]
fn get_project_missing_fails() {
    let st = fresh_store();
    let err = st.get_project("nope").unwrap_err();
    assert!(matches!(err, AppError::ProjectNotFound(ref n) if n == "nope"));
}

#[test]
fn set_then_get_returns_just_set_value() {
    let mut st = fresh_store();
    st.create_project("api".to_string(), None).unwrap();
    let v = st
        .set_variable("api", "prod", "DB_URL".to_string(), "postgres://x".to_string(), false)
        .unwrap();
    assert_eq!(v.value, "postgres://x");
    assert!(!v.encrypted);
    let got = st.get_variable("api", "prod", "DB_URL").unwrap();
    assert_eq!(got.value, "postgres://x");
    assert!(!got.encrypted);

    st.set_variable("api", "prod", "KEY".to_string(), "secret".to_string(), true).unwrap();
    let got = st.get_variable("api", "prod", "KEY").unwrap();
    assert_eq!(got.value, "secret");
    assert!(got.encrypted);
}

#[test]
fn set_variable_overwrites_fully() {
    let mut st = fresh_store();
    st.create_project("api".to_string(), None).unwrap();
    st.set_variable("api", "dev", "K".to_string(), "one".to_string(), true).unwrap();
    st.set_variable("api", "dev", "K".to_string(), "two".to_string(), false).unwrap();
    let got = st.get_variable("api", "dev", "K").unwrap();
    assert_eq!(got.value, "two");
    assert!(!got.encrypted);
    let env = st.get_environment("api", "dev").unwrap();
    assert_eq!(env.len(), 1);
}

#[test]
fn delete_project_removes_everything() {
    let mut st = fresh_store();
    st.create_project("api".to_string(), None).unwrap();
    st.set_variable("api", "prod", "K".to_string(), "v".to_string(), false).unwrap();
    st.delete_project("api").unwrap();
    assert!(st.list_projects().unwrap().is_empty());
    let err = st.get_variable("api", "prod", "K").unwrap_err();
    assert!(matches!(err, AppError::ProjectNotFound(ref n) if n == "api"));
    let err = st.get_project("api").unwrap_err();
    assert!(matches!(err, AppError::ProjectNotFound(_)));
}

#[test]
fn delete_project_missing_fails() {
    let mut st = fresh_store();
    let err = st.delete_project("ghost").unwrap_err();
    assert!(matches!(err, AppError::ProjectNotFound(ref n) if n == "ghost"));
}

#[test]
fn rename_is_a_move() {
    let mut st = fresh_store();
    let created = st.create_project("alpha".to_string(), Some("d".to_string())).unwrap();
    st.set_variable("alpha", "dev", "K".to_string(), "v".to_string(), false).unwrap();
    let renamed = st.update_project("alpha", Some("beta".to_string()), None).unwrap();
    assert_eq!(renamed.name, "beta");
    assert_eq!(renamed.id, created.id);
    let err = st.get_project("alpha").unwrap_err();
    assert!(matches!(err, AppError::ProjectNotFound(_)));
    let moved = st.get_project("beta").unwrap();
    assert_eq!(moved.id, created.id);
    let v = st.get_variable("beta", "dev", "K").unwrap();
    assert_eq!(v.value, "v");
    assert_eq!(st.list_projects().unwrap().len(), 1);
}

#[test]
fn rename_to_taken_name_fails_unchanged() {
    let mut st = fresh_store();
    st.create_project("alpha".to_string(), None).unwrap();
    st.create_project("beta".to_string(), None).unwrap();
    let err = st.update_project("alpha", Some("beta".to_string()), None).unwrap_err();
    assert!(matches!(err, AppError::ProjectAlreadyExists(ref n) if n == "beta"));
    assert!(st.get_project("alpha").is_ok());
    assert_eq!(st.list_projects().unwrap().len(), 2);
}

#[test]
fn update_description_only() {
    let mut st = fresh_store();
    let created = st.create_project("api".to_string(), None).unwrap();
    let updated = st.update_project("api", None, Some("fresh".to_string())).unwrap();
    assert_eq!(updated.name, "api");
    assert_eq!(updated.id, created.id);
    assert_eq!(updated.description, Some("fresh".to_string()));
    let got = st.get_project("api").unwrap();
    assert_eq!(got.description, Some("fresh".to_string()));
}

#[test]
fn update_missing_project_fails() {
    let mut st = fresh_store();
    let err = st.update_project("nope", None, Some("d".to_string())).unwrap_err();
    assert!(matches!(err, AppError::ProjectNotFound(_)));
}

#[test]
fn get_variable_error_resolution_order() {
    let mut st = fresh_store();
    let err = st.get_variable("p", "e", "k").unwrap_err();
    assert!(matches!(err, AppError::ProjectNotFound(ref n) if n == "p"));
    st.create_project("p".to_string(), None).unwrap();
    let err = st.get_variable("p", "e", "k").unwrap_err();
    assert!(matches!(err, AppError::EnvironmentNotFound(ref n) if n == "e"));
    st.set_variable("p", "e", "other".to_string(), "v".to_string(), false).unwrap();
    let err = st.get_variable("p", "e", "k").unwrap_err();
    assert!(matches!(err, AppError::VariableNotFound(ref n) if n == "k"));
}

#[test]
fn delete_variable_missing_key_leaves_environment_unchanged() {
    let mut st = fresh_store();
    st.create_project("p".to_string(), None).unwrap();
    st.set_variable("p", "e", "keep".to_string(), "v".to_string(), false).unwrap();
    let err = st.delete_variable("p", "e", "ghost").unwrap_err();
    assert!(matches!(err, AppError::VariableNotFound(ref n) if n == "ghost"));
    let env = st.get_environment("p", "e").unwrap();
    assert_eq!(env.len(), 1);
    assert_eq!(env[0].0, "keep");
    assert_eq!(env[0].1.value, "v");
}

#[test]
fn delete_variable_removes_key() {
    let mut st = fresh_store();
    st.create_project("p".to_string(), None).unwrap();
    st.set_variable("p", "e", "a".to_string(), "1".to_string(), false).unwrap();
    st.set_variable("p", "e", "b".to_string(), "2".to_string(), false).unwrap();
    st.delete_variable("p", "e", "a").unwrap();
    assert!(matches!(
        st.get_variable("p", "e", "a").unwrap_err(),
        AppError::VariableNotFound(_)
    ));
    assert_eq!(st.get_variable("p", "e", "b").unwrap().value, "2");
}

#[test]
fn list_environments_snapshot() {
    let mut st = fresh_store();
    st.create_project("p".to_string(), None).unwrap();
    st.set_variable("p", "dev", "a".to_string(), "1".to_string(), false).unwrap();
    st.set_variable("p", "prod", "b".to_string(), "2".to_string(), false).unwrap();
    let envs = st.list_environments("p").unwrap();
    assert_eq!(envs.len(), 2);
    let names: Vec<&str> = envs.iter().map(|e| e.0.as_str()).collect();
    assert!(names.contains(&"dev"));
    assert!(names.contains(&"prod"));
    let err = st.list_environments("ghost").unwrap_err();
    assert!(matches!(err, AppError::ProjectNotFound(_)));
}

#[test]
fn no_two_projects_share_a_name_across_operations() {
    let mut st = fresh_store();
    st.create_project("a".to_string(), None).unwrap();
    st.create_project("b".to_string(), None).unwrap();
    let _ = st.create_project("a".to_string(), None);
    let _ = st.update_project("a", Some("b".to_string()), None);
    st.delete_project("b").unwrap();
    st.create_project("b".to_string(), None).unwrap();
    let names: Vec<String> =
        st.list_projects().unwrap().into_iter().map(|p| p.name).collect();
    let mut sorted = names.clone();
    sorted.sort();
    sorted.dedup();
    assert_eq!(sorted.len(), names.len());
}

#[test]
fn error_messages_match_taxonomy() {
    assert_eq!(
        AppError::ProjectNotFound("x".to_string()).message(),
        "Project not found: x"
    );
    assert_eq!(
        AppError::EnvironmentNotFound("e".to_string()).message(),
        "Environment not found: e"
    );
    assert_eq!(
        AppError::VariableNotFound("k".to_string()).message(),
        "Variable not found: k"
    );
    assert_eq!(
        AppError::ProjectAlreadyExists("p".to_string()).message(),
        "Project already exists: p"
    );
    assert_eq!(
        AppError::InvalidInput("Unknown format: xml".to_string()).message(),
        "Invalid input: Unknown format: xml"
    );
}

#[test]
fn display_value_masks_encrypted() {
    let mut st = fresh_store();
    st.create_project("p".to_string(), None).unwrap();
    st.set_variable("p", "e", "s".to_string(), "secret".to_string(), true).unwrap();
    st.set_variable("p", "e", "q".to_string(), "plain".to_string(), false).unwrap();
    assert_eq!(st.get_variable("p", "e", "s").unwrap().display_value(), "***");
    assert_eq!(st.get_variable("p", "e", "q").unwrap().display_value(), "plain");
}
