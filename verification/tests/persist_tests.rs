use config_tools::persist::without_byte_order_mark;
use config_tools::{Config, Error, LoadOutcome};

fn sample() -> Config {
    Config::builder()
        .section("App")
        .set("theme", "dark")
        .general()
        .set("debug", "true")
        .build()
}

#[test]
fn save_writes_general_values_first_then_sections() {
    assert_eq!(sample().save().unwrap(), "debug=true\n\n[App]\ntheme=dark\n");
}

#[test]
fn save_orders_sections_and_keys() {
    let config = Config::builder()
        .section("zeta")
        .set("b", "2")
        .set("a", "1")
        .section("alpha")
        .set("y", "25")
        .set("x", "24")
        .general()
        .set("n", "14")
        .set("m", "13")
        .build();
    assert_eq!(
        config.save().unwrap(),
        "m=13\nn=14\n\n[alpha]\nx=24\ny=25\n\n[zeta]\na=1\nb=2\n"
    );
}

#[test]
fn save_does_not_depend_on_the_order_of_insertion() {
    let one = Config::builder()
        .set("a", "1")
        .section("S")
        .set("k", "v")
        .section("T")
        .set("l", "w")
        .general()
        .set("b", "2")
        .build();
    let other = Config::builder()
        .section("T")
        .set("l", "w")
        .general()
        .set("b", "2")
        .set("a", "1")
        .section("S")
        .set("k", "v")
        .build();
    assert_eq!(one, other);
    assert_eq!(one.save().unwrap(), other.save().unwrap());
}

#[test]
fn save_of_the_empty_configuration_is_empty() {
    assert_eq!(Config::default().save().unwrap(), "");
    assert_eq!(Config::load("").unwrap(), Config::default());
}

#[test]
fn empty_section_survives_saving_and_loading() {
    let config = Config::builder().section("Empty").section("Full").set("k", "v").build();
    let text = config.save().unwrap();
    assert_eq!(text, "[Empty]\n[Full]\nk=v\n");
    let loaded = Config::load(&text).unwrap();
    assert!(loaded.section("Empty").unwrap().is_empty());
    assert_eq!(loaded, config);
    assert_ne!(loaded, Config::builder().section("Full").set("k", "v").build());
}

#[test]
fn load_reads_general_values_and_sections() {
    let loaded = Config::load("debug=true\n[App]\ntheme=dark\nsize = 10\n").unwrap();
    assert_eq!(loaded.get(None, "debug"), Some("true".to_string()));
    assert_eq!(loaded.get(Some("App"), "theme"), Some("dark".to_string()));
    assert_eq!(loaded.get(Some("App"), "size"), Some("10".to_string()));
    assert_eq!(loaded.get(None, "theme"), None);
    assert_eq!(loaded.sections().len(), 1);
    assert_eq!(loaded.general().len(), 1);
}

#[test]
fn load_merges_sections_of_one_name() {
    let loaded = Config::load("[A]\nx=1\n[B]\ny=2\n[A]\nz=3\n").unwrap();
    let expected = Config::builder()
        .section("A")
        .set("x", "1")
        .set("z", "3")
        .section("B")
        .set("y", "2")
        .build();
    assert_eq!(loaded, expected);
}

#[test]
fn load_keeps_the_last_of_two_values_for_one_key() {
    let loaded = Config::load("k=1\nk=2\n[A]\nx=1\nx=2\n[A]\nx=3\n").unwrap();
    assert_eq!(loaded.get(None, "k"), Some("2".to_string()));
    assert_eq!(loaded.get(Some("A"), "x"), Some("3".to_string()));
    assert_eq!(loaded.general().len(), 1);
    assert_eq!(loaded.section("A").unwrap().len(), 1);
}

#[test]
fn load_rejects_text_that_is_no_ini() {
    match Config::load("=value\n") {
        Err(Error::ConfigLoad(_)) => {}
        other => panic!("expected a load failure, got {:?}", other),
    }
    match Config::load("key without a value") {
        Err(Error::ConfigLoad(_)) => {}
        other => panic!("expected a load failure, got {:?}", other),
    }
}

#[test]
fn from_entries_merges_in_order() {
    let entries = vec![
        (None, vec![("a".to_string(), "1".to_string())]),
        (Some("S".to_string()), vec![("k".to_string(), "v".to_string())]),
        (Some("E".to_string()), Vec::new()),
        (None, vec![("a".to_string(), "2".to_string()), ("b".to_string(), "3".to_string())]),
        (Some("S".to_string()), vec![("l".to_string(), "w".to_string())]),
    ];
    let config = Config::from_entries(&entries);
    let expected = Config::builder()
        .set("a", "2")
        .set("b", "3")
        .section("S")
        .set("k", "v")
        .set("l", "w")
        .section("E")
        .build();
    assert_eq!(config, expected);
    assert_eq!(Config::from_entries(&Vec::new()), Config::default());
}

#[test]
fn load_or_default_uses_the_text_where_it_can() {
    let default = Config::builder().set("debug", "false").build();

    let loaded = Config::load_or_default(Some("debug=true\n"), default.clone());
    assert_eq!(loaded.get(None, "debug"), Some("true".to_string()));

    let fallback = Config::load_or_default(Some("=broken"), default.clone());
    assert_eq!(fallback, default);

    let fallback = Config::load_or_default(None, default.clone());
    assert_eq!(fallback, default);
}

#[test]
fn load_or_default_outcome_says_where_the_configuration_came_from() {
    let default = Config::builder().set("debug", "false").build();

    let outcome = Config::load_or_default_outcome(Some("debug=true\n"), default.clone());
    assert!(!outcome.used_default());
    assert_eq!(outcome, LoadOutcome::FromFile(Config::builder().set("debug", "true").build()));
    assert_eq!(outcome.into_inner().get(None, "debug"), Some("true".to_string()));

    let outcome = Config::load_or_default_outcome(Some("=broken"), default.clone());
    assert!(outcome.used_default());
    assert_eq!(outcome, LoadOutcome::FromDefault(default.clone()));
    assert_ne!(outcome, LoadOutcome::FromFile(default.clone()));
    assert_eq!(outcome.clone(), outcome);
    assert_eq!(outcome.into_inner(), default);
}

#[test]
fn values_with_special_characters_survive_saving_and_loading() {
    let config = Config::builder()
        .set("path", "C:\\temp\\new")
        .set("lines", "one\ntwo")
        .set("tabbed", "a\tb")
        .section("Ünïcode")
        .set("schlüssel", "wert 水")
        .build();
    let loaded = Config::load(&config.save().unwrap()).unwrap();
    assert_eq!(loaded, config);
}

#[test]
fn a_key_that_holds_the_separator_does_not_survive() {
    let config = Config::builder().set("a=b", "c").build();
    let loaded = Config::load(&config.save().unwrap()).unwrap();
    assert_ne!(loaded, config);
    assert_eq!(loaded.get(None, "a"), Some("b=c".to_string()));
}

#[test]
fn entries_walk_the_configuration_in_order() {
    let config = Config::builder()
        .section("zeta")
        .set("b", "2")
        .set("a", "1")
        .section("alpha")
        .general()
        .set("n", "14")
        .set("m", "13")
        .build();
    let pair = |k: &str, v: &str| (k.to_string(), v.to_string());
    assert_eq!(
        config.entries(),
        vec![
            (None, vec![pair("m", "13"), pair("n", "14")]),
            (Some("alpha".to_string()), Vec::new()),
            (Some("zeta".to_string()), vec![pair("a", "1"), pair("b", "2")]),
        ]
    );
    assert_eq!(Config::default().entries(), vec![(None, Vec::new())]);
}

#[test]
fn from_entries_restores_what_entries_hands_out() {
    let config = Config::builder()
        .set("g", "1")
        .section("Empty")
        .section("S")
        .set("k", "a=b")
        .set(" spaced ", "v")
        .build();
    assert_eq!(Config::from_entries(&config.entries()), config);
    assert_eq!(Config::from_entries(&Config::default().entries()), Config::default());
}

#[test]
fn byte_order_mark_is_taken_off_the_start_only() {
    assert_eq!(without_byte_order_mark("\u{feff}key=value\n"), "key=value\n");
    assert_eq!(without_byte_order_mark("key=value\n"), "key=value\n");
    assert_eq!(without_byte_order_mark("\u{feff}"), "");
    assert_eq!(without_byte_order_mark(""), "");
    assert_eq!(without_byte_order_mark("\u{feff}\u{feff}k=v"), "\u{feff}k=v");
    assert_eq!(without_byte_order_mark("k\u{feff}=v"), "k\u{feff}=v");
    assert_eq!(without_byte_order_mark("\u{feff}ä水=🦀"), "ä水=🦀");
    let loaded = Config::load(without_byte_order_mark("\u{feff}debug=true\n")).unwrap();
    assert_eq!(loaded.get(None, "debug"), Some("true".to_string()));
}

#[test]
fn save_succeeds_for_every_configuration_tried() {
    for config in [
        Config::default(),
        Config::builder().section("").set("", "").build(),
        Config::builder().set("k", "\u{0}\u{1f}\u{7f}\\").section("[x]").set("=", ";#:").build(),
    ] {
        assert!(config.save().is_ok());
    }
}
