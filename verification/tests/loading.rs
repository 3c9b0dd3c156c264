use env_inventory::{
    load_and_validate_env_vars, load_toml_settings, merge_sources, Document, Environment,
    EnvInventoryError, Priority, Registry, RequiredVar, Settings, Source,
};

fn found(path: &str, content: &str) -> Source {
    Source { path: path.to_string(), content: Some(content.to_string()) }
}

fn unreadable(path: &str) -> Source {
    Source { path: path.to_string(), content: None }
}

fn value<'a>(settings: &'a Settings, key: &str) -> Option<&'a str> {
    settings.get(key).map(|text| text.as_str())
}

fn binary(name: &'static str, default: &'static str) -> RequiredVar {
    RequiredVar {
        name,
        default: Some(default),
        error: None,
        source: "tests",
        priority: Priority::Binary,
    }
}

#[test]
fn test_load_single_toml() {
    let mut registry = Registry::new();
    registry.register(binary("TEST_ENV_VAR", "foo"));
    let sources = [found("settings.conf", "[env]\nTEST_ENV_VAR = \"test_value\"")];
    let mut env = Environment::new();

    load_and_validate_env_vars(&registry, &sources, "env", &mut env).unwrap();
    assert_eq!(env.var("TEST_ENV_VAR").unwrap(), "test_value");
}

#[test]
fn test_merge_priority() {
    let mut registry = Registry::new();
    registry.register(binary("TEST_ENV_VAR", "foo"));
    let sources = [
        found("settings1.conf", "[env]\nTEST_ENV_VAR = \"value1\""),
        found("settings2.conf", "[env]\nTEST_ENV_VAR = \"value2\""),
    ];
    let mut env = Environment::new();

    load_and_validate_env_vars(&registry, &sources, "env", &mut env).unwrap();
    assert_eq!(env.var("TEST_ENV_VAR").unwrap(), "value2");
}

#[test]
fn test_missing_mandatory_config() {
    let mut registry = Registry::new();
    registry.register(binary("TEST_ENV_VAR", "foo"));
    let sources = [
        unreadable("does_not_exist.conf"),
        found("settings.conf", "[env]\nTEST_ENV_VAR = \"test_value\""),
    ];
    let mut env = Environment::new();

    assert!(load_and_validate_env_vars(&registry, &sources, "env", &mut env).is_err());
}

#[test]
fn test_missing_env_vars() {
    let mut registry = Registry::new();
    registry.register(binary("TEST_ENV_VAR", "foo"));
    registry.register(RequiredVar::new("MISSING_VAR"));
    let sources = [found("settings.conf", "[env]\nSOME_OTHER_VAR = \"some_value\"")];
    let mut env = Environment::new();

    assert!(load_and_validate_env_vars(&registry, &sources, "env", &mut env).is_err());
}

#[test]
fn test_present_env_vars() {
    let mut registry = Registry::new();
    registry.register(binary("TEST_ENV_VAR", "foo"));
    registry.register(RequiredVar::new("MISSING_VAR"));
    registry.register(binary("PRESENT_VAR", "default_value"));
    let sources = [found(
        "settings.conf",
        r#"
        [env]
        PRESENT_VAR = "present_value"
        MISSING_VAR = "missing_value"
        TEST_ENV_VAR = "test_value"
        "#,
    )];
    let mut env = Environment::new();

    load_and_validate_env_vars(&registry, &sources, "env", &mut env).unwrap();
    assert_eq!(env.var("PRESENT_VAR").unwrap(), "present_value");
    assert_eq!(env.var("MISSING_VAR").unwrap(), "missing_value");
    assert_eq!(env.var("TEST_ENV_VAR").unwrap(), "test_value");
}

#[test]
fn mandatory_failure_leaves_the_environment_alone() {
    let mut registry = Registry::new();
    registry.register(binary("TEST_ENV_VAR", "foo"));
    let sources = [unreadable("does_not_exist.conf")];
    let mut env = Environment::new();

    let result = load_and_validate_env_vars(&registry, &sources, "env", &mut env);
    assert_eq!(
        result,
        Err(EnvInventoryError::ReadFileError("does_not_exist.conf".to_string()))
    );
    assert!(env.vars().is_empty());
}

#[test]
fn unreadable_source_is_a_read_error() {
    let result = load_toml_settings(&unreadable("/etc/absent.conf"), "env");
    assert_eq!(
        result.err(),
        Some(EnvInventoryError::ReadFileError("/etc/absent.conf".to_string()))
    );
}

#[test]
fn malformed_source_is_a_parse_error() {
    let result = load_toml_settings(&found("broken.conf", "[env\nKEY = "), "env");
    assert_eq!(
        result.err(),
        Some(EnvInventoryError::ParseFileError("broken.conf".to_string()))
    );
}

#[test]
fn absent_section_gives_no_settings() {
    let settings = load_toml_settings(&found("a.conf", "[other]\nKEY = \"v\""), "env").unwrap();
    assert!(settings.entries().is_empty());
}

#[test]
fn empty_document_gives_no_settings() {
    let settings = load_toml_settings(&found("a.conf", ""), "env").unwrap();
    assert!(settings.entries().is_empty());
}

#[test]
fn section_that_is_not_a_table_gives_no_settings() {
    let settings = load_toml_settings(&found("a.conf", "env = \"text\"\n"), "env").unwrap();
    assert!(settings.entries().is_empty());
}

#[test]
fn only_string_entries_are_kept() {
    let text = "top = \"level\"\n[env]\nNAME = \"text\"\nCOUNT = 3\nFLAG = true\nLIST = [\"a\"]\nEMPTY = \"\"\n[env.sub]\nINNER = \"x\"\n[other]\nNAME = \"elsewhere\"\n";
    let settings = load_toml_settings(&found("a.conf", text), "env").unwrap();
    assert_eq!(value(&settings, "NAME"), Some("text"));
    assert_eq!(value(&settings, "EMPTY"), Some(""));
    assert_eq!(value(&settings, "COUNT"), None);
    assert_eq!(value(&settings, "FLAG"), None);
    assert_eq!(value(&settings, "LIST"), None);
    assert_eq!(value(&settings, "sub"), None);
    assert_eq!(value(&settings, "INNER"), None);
    assert_eq!(value(&settings, "top"), None);
    assert_eq!(settings.entries().len(), 2);
}

#[test]
fn section_name_selects_the_table() {
    let text = "[env]\nKEY = \"from env\"\n[prod]\nKEY = \"from prod\"\n";
    let settings = load_toml_settings(&found("a.conf", text), "prod").unwrap();
    assert_eq!(value(&settings, "KEY"), Some("from prod"));
}

#[test]
fn settings_of_a_document_built_by_hand() {
    let document = Document {
        tables: vec![
            ("other".to_string(), Some(vec![("KEY".to_string(), Some("no".to_string()))])),
            ("scalar".to_string(), None),
            (
                "env".to_string(),
                Some(vec![
                    ("A".to_string(), Some("1".to_string())),
                    ("B".to_string(), None),
                    ("C".to_string(), Some("3".to_string())),
                ]),
            ),
        ],
    };
    let settings = env_inventory::loader::settings_of(&document, "env");
    assert_eq!(value(&settings, "A"), Some("1"));
    assert_eq!(value(&settings, "B"), None);
    assert_eq!(value(&settings, "C"), Some("3"));
    assert_eq!(value(&settings, "KEY"), None);
    assert_eq!(settings.entries().len(), 2);

    assert!(env_inventory::loader::settings_of(&document, "scalar").entries().is_empty());
    assert!(env_inventory::loader::settings_of(&document, "absent").entries().is_empty());
}

#[test]
fn last_document_wins_on_a_shared_key() {
    let sources = [
        found("a.conf", "[env]\nKEY = \"a\"\nONLY_A = \"1\""),
        found("b.conf", "[env]\nKEY = \"b\"\nONLY_B = \"2\""),
    ];
    let merged = merge_sources(&sources, "env").unwrap();
    assert_eq!(value(&merged, "KEY"), Some("b"));
    assert_eq!(value(&merged, "ONLY_A"), Some("1"));
    assert_eq!(value(&merged, "ONLY_B"), Some("2"));
    assert_eq!(merged.entries().len(), 3);
}

#[test]
fn later_document_without_the_key_does_not_unset_it() {
    let sources = [
        found("a.conf", "[env]\nKEY = \"a\""),
        found("b.conf", "[env]\nKEY = \"b\""),
        found("c.conf", "[env]\nOTHER = \"c\""),
    ];
    let merged = merge_sources(&sources, "env").unwrap();
    assert_eq!(value(&merged, "KEY"), Some("b"));
    assert_eq!(value(&merged, "OTHER"), Some("c"));
}

#[test]
fn no_documents_merge_to_nothing() {
    let merged = merge_sources(&[], "env").unwrap();
    assert!(merged.entries().is_empty());
}

#[test]
fn first_document_failure_is_fatal() {
    let unread = [unreadable("first.conf"), found("b.conf", "[env]\nKEY = \"b\"")];
    assert_eq!(
        merge_sources(&unread, "env").err(),
        Some(EnvInventoryError::ReadFileError("first.conf".to_string()))
    );
    let unparsed = [found("first.conf", "= nothing"), found("b.conf", "[env]\nKEY = \"b\"")];
    assert_eq!(
        merge_sources(&unparsed, "env").err(),
        Some(EnvInventoryError::ParseFileError("first.conf".to_string()))
    );
}

#[test]
fn later_document_failures_are_passed_over() {
    let sources = [
        found("a.conf", "[env]\nKEY = \"a\""),
        unreadable("gone.conf"),
        found("broken.conf", "[env"),
        found("d.conf", "[env]\nLAST = \"d\""),
    ];
    let merged = merge_sources(&sources, "env").unwrap();
    assert_eq!(value(&merged, "KEY"), Some("a"));
    assert_eq!(value(&merged, "LAST"), Some("d"));
    assert_eq!(merged.entries().len(), 2);
}
