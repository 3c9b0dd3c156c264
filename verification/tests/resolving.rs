use env_inventory::{
    load_and_validate_env_vars, resolve, validate_env_vars, Environment, EnvInventoryError,
    MissingVar, Priority, Registry, RequiredVar, Settings, Source,
};

fn declared(
    name: &'static str,
    default: Option<&'static str>,
    priority: Priority,
) -> RequiredVar {
    RequiredVar { name, default, error: None, source: "tests", priority }
}

fn hinted(name: &'static str, hint: &'static str) -> RequiredVar {
    RequiredVar {
        name,
        default: None,
        error: Some(hint),
        source: "tests",
        priority: Priority::Library,
    }
}

fn missing(name: &str, hint: &str) -> MissingVar {
    MissingVar { name: name.to_string(), hint: hint.to_string() }
}

fn document(path: &str, content: &str) -> Source {
    Source { path: path.to_string(), content: Some(content.to_string()) }
}

fn set<'a>(env: &'a Environment, name: &str) -> Option<&'a str> {
    env.var(name).map(|text| text.as_str())
}

#[test]
fn name_without_a_value_is_reported_missing() {
    let mut registry = Registry::new();
    registry.register(declared("DB_HOST", None, Priority::Library));
    let mut env = Environment::new();

    let result = load_and_validate_env_vars(&registry, &[], "env", &mut env);
    assert_eq!(
        result,
        Err(EnvInventoryError::MissingEnvVars(vec![missing("DB_HOST", "(missing)")]))
    );
    assert_eq!(set(&env, "DB_HOST"), None);
}

#[test]
fn library_default_is_applied() {
    let mut registry = Registry::new();
    registry.register(declared("PORT", Some("8080"), Priority::Library));
    let mut env = Environment::new();

    let result = load_and_validate_env_vars(&registry, &[], "env", &mut env);
    assert_eq!(result, Ok(()));
    assert_eq!(set(&env, "PORT"), Some("8080"));
}

#[test]
fn environment_wins_over_document() {
    let mut registry = Registry::new();
    registry.register(declared("KEY", Some("default"), Priority::Binary));
    let mut env = Environment::new();
    env.set_var("KEY", "env-value");
    let sources = [document("a.conf", "[env]\nKEY = \"doc-value\"")];

    let result = load_and_validate_env_vars(&registry, &sources, "env", &mut env);
    assert_eq!(result, Ok(()));
    assert_eq!(set(&env, "KEY"), Some("env-value"));
}

#[test]
fn document_wins_over_defaults() {
    let mut registry = Registry::new();
    registry.register(declared("KEY", Some("lib"), Priority::Library));
    registry.register(declared("KEY", Some("bin"), Priority::Binary));
    let mut env = Environment::new();
    let sources = [document("a.conf", "[env]\nKEY = \"doc-value\"")];

    load_and_validate_env_vars(&registry, &sources, "env", &mut env).unwrap();
    assert_eq!(set(&env, "KEY"), Some("doc-value"));
}

#[test]
fn binary_default_wins_when_registered_last() {
    let mut registry = Registry::new();
    registry.register(declared("X", Some("lib"), Priority::Library));
    registry.register(declared("X", Some("bin"), Priority::Binary));
    let mut env = Environment::new();

    resolve(&registry, &Settings::new(), &mut env);
    assert_eq!(set(&env, "X"), Some("bin"));
}

#[test]
fn binary_default_wins_when_registered_first() {
    let mut registry = Registry::new();
    registry.register(declared("X", Some("bin"), Priority::Binary));
    registry.register(declared("X", Some("lib"), Priority::Library));
    registry.register(declared("X", Some("lib2"), Priority::Library));
    let mut env = Environment::new();

    resolve(&registry, &Settings::new(), &mut env);
    assert_eq!(set(&env, "X"), Some("bin"));
}

#[test]
fn last_default_of_a_rank_wins() {
    let mut registry = Registry::new();
    registry.register(declared("L", Some("first"), Priority::Library));
    registry.register(declared("L", Some("second"), Priority::Library));
    registry.register(declared("L", None, Priority::Library));
    registry.register(declared("B", Some("one"), Priority::Binary));
    registry.register(declared("B", Some("two"), Priority::Binary));
    registry.register(declared("B", None, Priority::Binary));
    let mut env = Environment::new();

    resolve(&registry, &Settings::new(), &mut env);
    assert_eq!(set(&env, "L"), Some("second"));
    assert_eq!(set(&env, "B"), Some("two"));
}

#[test]
fn resolve_touches_declared_names_only() {
    let mut registry = Registry::new();
    registry.register(declared("DECLARED", None, Priority::Library));
    let mut merged = Settings::new();
    merged.insert("DECLARED".to_string(), "yes".to_string());
    merged.insert("UNDECLARED".to_string(), "no".to_string());
    let mut env = Environment::new();
    env.set_var("BYSTANDER", "kept");

    resolve(&registry, &merged, &mut env);
    assert_eq!(set(&env, "DECLARED"), Some("yes"));
    assert_eq!(set(&env, "UNDECLARED"), None);
    assert_eq!(set(&env, "BYSTANDER"), Some("kept"));
    assert_eq!(env.vars().len(), 2);
}

#[test]
fn resolve_leaves_unsupplied_names_unset() {
    let mut registry = Registry::new();
    registry.register(declared("NOTHING", None, Priority::Binary));
    let mut env = Environment::new();

    resolve(&registry, &Settings::new(), &mut env);
    assert_eq!(set(&env, "NOTHING"), None);
    assert!(env.vars().is_empty());
}

#[test]
fn validation_passes_on_an_empty_registry() {
    assert_eq!(validate_env_vars(&Registry::new(), &Environment::new()), Ok(()));
}

#[test]
fn validation_reports_every_missing_name_once_and_sorted() {
    let mut registry = Registry::new();
    registry.register(declared("ZETA", None, Priority::Library));
    registry.register(declared("ALPHA", None, Priority::Library));
    registry.register(declared("SET", None, Priority::Library));
    registry.register(declared("ZETA", None, Priority::Binary));
    registry.register(declared("MID", None, Priority::Library));
    registry.register(declared("DEFAULTED", Some("d"), Priority::Library));
    registry.register(declared("ALPHA", None, Priority::Library));
    let mut env = Environment::new();
    env.set_var("SET", "here");

    assert_eq!(
        validate_env_vars(&registry, &env),
        Err(EnvInventoryError::MissingEnvVars(vec![
            missing("ALPHA", "(missing)"),
            missing("MID", "(missing)"),
            missing("ZETA", "(missing)"),
        ]))
    );
}

#[test]
fn validation_sorts_by_bytes() {
    let mut registry = Registry::new();
    registry.register(declared("b", None, Priority::Library));
    registry.register(declared("B", None, Priority::Library));
    registry.register(declared("AB", None, Priority::Library));
    registry.register(declared("A", None, Priority::Library));
    registry.register(declared("\u{e9}", None, Priority::Library));
    registry.register(declared("_", None, Priority::Library));

    assert_eq!(
        validate_env_vars(&registry, &Environment::new()),
        Err(EnvInventoryError::MissingEnvVars(vec![
            missing("A", "(missing)"),
            missing("AB", "(missing)"),
            missing("B", "(missing)"),
            missing("_", "(missing)"),
            missing("b", "(missing)"),
            missing("\u{e9}", "(missing)"),
        ]))
    );
}

#[test]
fn validation_shows_the_hint_registered_last() {
    let mut registry = Registry::new();
    registry.register(hinted("TOKEN", "ask the admin"));
    registry.register(declared("TOKEN", None, Priority::Library));
    registry.register(hinted("TOKEN", "see the wiki"));
    registry.register(declared("TOKEN", None, Priority::Binary));
    registry.register(hinted("OTHER", "not this one"));

    assert_eq!(
        validate_env_vars(&registry, &Environment::new()),
        Err(EnvInventoryError::MissingEnvVars(vec![
            missing("OTHER", "not this one"),
            missing("TOKEN", "see the wiki"),
        ]))
    );
}

#[test]
fn any_default_of_the_name_satisfies_validation() {
    let mut registry = Registry::new();
    registry.register(declared("HOST", None, Priority::Library));
    registry.register(declared("HOST", Some("localhost"), Priority::Binary));
    registry.register(declared("HOST", None, Priority::Library));

    assert_eq!(validate_env_vars(&registry, &Environment::new()), Ok(()));
}

#[test]
fn validation_does_not_change_the_environment() {
    let mut registry = Registry::new();
    registry.register(declared("HOST", Some("localhost"), Priority::Library));
    let env = Environment::new();

    assert_eq!(validate_env_vars(&registry, &env), Ok(()));
    assert!(env.vars().is_empty());
}

#[test]
fn validation_is_repeatable() {
    let mut registry = Registry::new();
    registry.register(hinted("B", "hint"));
    registry.register(declared("A", None, Priority::Library));
    registry.register(declared("C", Some("c"), Priority::Library));
    let mut env = Environment::new();

    let first = validate_env_vars(&registry, &env);
    let second = validate_env_vars(&registry, &env);
    assert_eq!(first, second);
    assert_eq!(
        first,
        Err(EnvInventoryError::MissingEnvVars(vec![
            missing("A", "(missing)"),
            missing("B", "hint"),
        ]))
    );

    env.set_var("A", "a");
    env.set_var("B", "b");
    assert_eq!(validate_env_vars(&registry, &env), Ok(()));
    assert_eq!(validate_env_vars(&registry, &env), Ok(()));
}

#[test]
fn success_sets_every_declared_name() {
    let mut registry = Registry::new();
    registry.register(declared("FROM_ENV", None, Priority::Library));
    registry.register(declared("FROM_DOC", None, Priority::Library));
    registry.register(declared("FROM_BIN", Some("bin"), Priority::Binary));
    registry.register(declared("FROM_LIB", Some("lib"), Priority::Library));
    let mut env = Environment::new();
    env.set_var("FROM_ENV", "env");
    let sources = [document("a.conf", "[settings]\nFROM_DOC = \"doc\"")];

    let result = load_and_validate_env_vars(&registry, &sources, "settings", &mut env);
    assert_eq!(result, Ok(()));
    for declaration in registry.declarations() {
        assert!(env.is_set(declaration.name));
    }
    assert_eq!(set(&env, "FROM_ENV"), Some("env"));
    assert_eq!(set(&env, "FROM_DOC"), Some("doc"));
    assert_eq!(set(&env, "FROM_BIN"), Some("bin"));
    assert_eq!(set(&env, "FROM_LIB"), Some("lib"));
}

#[test]
fn failure_reports_all_missing_names_after_resolving_the_rest() {
    let mut registry = Registry::new();
    registry.register(declared("SECOND", None, Priority::Library));
    registry.register(declared("RESOLVED", Some("value"), Priority::Library));
    registry.register(hinted("FIRST", "set FIRST"));
    let mut env = Environment::new();

    let result = load_and_validate_env_vars(&registry, &[], "env", &mut env);
    assert_eq!(
        result,
        Err(EnvInventoryError::MissingEnvVars(vec![
            missing("FIRST", "set FIRST"),
            missing("SECOND", "(missing)"),
        ]))
    );
    assert_eq!(set(&env, "RESOLVED"), Some("value"));
}
