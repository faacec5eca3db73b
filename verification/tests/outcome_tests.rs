use config_tools::Config;

#[test]
fn test_load_outcome_used_default() {
    let default = Config::builder().set("debug", "true").build();

    let outcome = Config::load_or_default_outcome(None, default.clone());

    assert!(outcome.used_default(), "Should detect that default was used");
    assert_eq!(outcome.as_ref(), &default, "Should match the default config");
}

#[test]
fn test_load_outcome_mutation() {
    let mut outcome = Config::load_or_default_outcome(None, Config::default());

    outcome.as_mut().update(None, "key", "value");
    assert_eq!(outcome.as_ref().get(None, "key"), Some("value".to_string()));
}
