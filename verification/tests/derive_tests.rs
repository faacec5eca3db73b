use config_tools::materialize::{
    field_outcome, materialize, read_field, Field, FieldKind, FieldValue, Section,
};
use config_tools::values::ValueMap;
use config_tools::{Config, Error};

#[derive(Debug, PartialEq)]
struct ServerSettings {
    address: String,
    port: u16,
    threads: u16,
}

impl Section for ServerSettings {
    fn from_section(map: &ValueMap) -> Result<Self, Error> {
        Ok(ServerSettings {
            address: read_field(map, "address")?,
            port: read_field(map, "port")?,
            threads: read_field(map, "threads")?,
        })
    }
}

fn server_shape() -> Vec<Field> {
    vec![
        Field { name: "address".to_string(), kind: FieldKind::Text },
        Field { name: "port".to_string(), kind: FieldKind::U16 },
        Field { name: "threads".to_string(), kind: FieldKind::U16 },
    ]
}

fn message_of(error: Error) -> String {
    match error {
        Error::ConfigParse(message) => message,
        other => panic!("expected a parse failure, got {:?}", other),
    }
}

#[test]
fn test_incomplete_section_parsing() {
    let config = Config::load_or_default(
        None,
        Config::builder()
            .section("Server")
            .set("address", "192.168.1.1") // Missing `port` and `threads`
            .build(),
    );

    let server_settings_result = ServerSettings::from_section(&config.section("Server").unwrap());

    assert!(
        server_settings_result.is_err(),
        "Parsing an incomplete section should result in an error"
    );
}

#[test]
fn test_section_parsing_into_struct() {
    let config = Config::load_or_default(
        None,
        Config::builder()
            .section("Server")
            .set("address", "192.168.1.1")
            .set("port", "8000")
            .set("threads", "8")
            .build(),
    );

    // Parse section into a struct
    let server_settings =
        ServerSettings::from_section(&config.section("Server").unwrap()).unwrap();

    // Check that the values are correctly parsed into the struct
    let expected_settings = ServerSettings {
        address: "192.168.1.1".to_string(),
        port: 8000,
        threads: 8,
    };
    assert_eq!(server_settings, expected_settings);
}

#[test]
fn incomplete_section_names_port_as_first_missing_field() {
    let config = Config::builder()
        .section("Server")
        .set("address", "192.168.1.1")
        .build();
    let section = config.section("Server").unwrap();

    let failure = materialize(&server_shape(), section).unwrap_err();
    assert_eq!(message_of(failure), "Missing field 'port'");

    let failure = ServerSettings::from_section(section).unwrap_err();
    assert_eq!(message_of(failure), "Missing field 'port'");
}

#[test]
fn complete_section_materializes_in_declaration_order() {
    let config = Config::builder()
        .section("Server")
        .set("address", "192.168.1.1")
        .set("port", "8000")
        .set("threads", "8")
        .build();
    let section = config.section("Server").unwrap();

    let record = materialize(&server_shape(), section).unwrap();
    assert_eq!(
        record,
        vec![
            FieldValue::Text("192.168.1.1".to_string()),
            FieldValue::Unsigned(8000),
            FieldValue::Unsigned(8),
        ]
    );
}

#[test]
fn unparsable_field_fails_and_is_named() {
    let config = Config::builder()
        .section("Server")
        .set("address", "192.168.1.1")
        .set("port", "eighty")
        .set("threads", "also wrong")
        .build();
    let section = config.section("Server").unwrap();

    let failure = materialize(&server_shape(), section).unwrap_err();
    assert_eq!(message_of(failure), "Failed to parse field 'port'");

    let failure = ServerSettings::from_section(section).unwrap_err();
    assert_eq!(message_of(failure), "Failed to parse field 'port'");
}

#[test]
fn absent_and_unparsable_fields_are_told_apart() {
    let absent = Config::builder().section("Server").set("address", "a").build();
    let unparsable = Config::builder()
        .section("Server")
        .set("address", "a")
        .set("port", "x")
        .set("threads", "1")
        .build();

    let first = message_of(
        materialize(&server_shape(), absent.section("Server").unwrap()).unwrap_err(),
    );
    let second = message_of(
        materialize(&server_shape(), unparsable.section("Server").unwrap()).unwrap_err(),
    );
    assert_eq!(first, "Missing field 'port'");
    assert_eq!(second, "Failed to parse field 'port'");
    assert_ne!(first, second);

    let first: Result<u16, Error> = read_field(absent.section("Server").unwrap(), "port");
    let second: Result<u16, Error> = read_field(unparsable.section("Server").unwrap(), "port");
    assert_eq!(message_of(first.unwrap_err()), "Missing field 'port'");
    assert_eq!(message_of(second.unwrap_err()), "Failed to parse field 'port'");
}

#[test]
fn field_outcome_decides_by_what_was_found() {
    assert_eq!(field_outcome("ratio", Some(Some(0.5f64))).unwrap(), 0.5);
    let unparsable: Result<f64, Error> = field_outcome("ratio", Some(None));
    assert_eq!(message_of(unparsable.unwrap_err()), "Failed to parse field 'ratio'");
    let absent: Result<f64, Error> = field_outcome("ratio", None);
    assert_eq!(message_of(absent.unwrap_err()), "Missing field 'ratio'");

    // the way a record with a field of any parsable type is read
    let config = Config::builder().section("S").set("ratio", "0.25").set("word", "x").build();
    let section = config.section("S").unwrap();
    let read = |name: &str| -> Result<f64, Error> {
        field_outcome(name, section.get(name).map(|value| value.parse::<f64>().ok()))
    };
    assert_eq!(read("ratio").unwrap(), 0.25);
    assert_eq!(message_of(read("word").unwrap_err()), "Failed to parse field 'word'");
    assert_eq!(message_of(read("none").unwrap_err()), "Missing field 'none'");
}

#[test]
fn whole_numbers_keep_the_signedness_of_their_kind() {
    assert_eq!(FieldKind::U16.parse("7"), Some(FieldValue::Unsigned(7)));
    assert_ne!(FieldKind::U16.parse("7"), Some(FieldValue::Signed(7)));
    assert_eq!(FieldKind::I16.parse("7"), Some(FieldValue::Signed(7)));
    assert_ne!(FieldKind::I16.parse("7"), Some(FieldValue::Unsigned(7)));
}

#[test]
fn first_failure_follows_the_shape_not_the_keys() {
    let config = Config::builder()
        .section("Server")
        .set("port", "8000")
        .build();
    let section = config.section("Server").unwrap();
    let shape = vec![
        Field { name: "threads".to_string(), kind: FieldKind::U16 },
        Field { name: "address".to_string(), kind: FieldKind::Text },
        Field { name: "port".to_string(), kind: FieldKind::U16 },
    ];

    let failure = materialize(&shape, section).unwrap_err();
    assert_eq!(message_of(failure), "Missing field 'threads'");
}

#[test]
fn empty_shape_gives_the_empty_record() {
    let section = ValueMap::new();
    assert_eq!(materialize(&Vec::new(), &section).unwrap(), Vec::new());
}

#[test]
fn materialization_is_repeatable() {
    let config = Config::builder()
        .section("Server")
        .set("address", "192.168.1.1")
        .set("port", "8000")
        .set("threads", "8")
        .build();
    let section = config.section("Server").unwrap();
    let first = materialize(&server_shape(), section).unwrap();
    let second = materialize(&server_shape(), section).unwrap();
    assert_eq!(first, second);

    let empty = ValueMap::new();
    let first = message_of(materialize(&server_shape(), &empty).unwrap_err());
    let second = message_of(materialize(&server_shape(), &empty).unwrap_err());
    assert_eq!(first, "Missing field 'address'");
    assert_eq!(first, second);
}

#[test]
fn every_kind_reads_its_values() {
    assert_eq!(FieldKind::Text.parse(" any text "), Some(FieldValue::Text(" any text ".to_string())));
    assert_eq!(FieldKind::Bool.parse("true"), Some(FieldValue::Bool(true)));
    assert_eq!(FieldKind::Bool.parse("false"), Some(FieldValue::Bool(false)));
    assert_eq!(FieldKind::Bool.parse("True"), None);
    assert_eq!(FieldKind::U8.parse("255"), Some(FieldValue::Unsigned(255)));
    assert_eq!(FieldKind::U8.parse("256"), None);
    assert_eq!(FieldKind::U16.parse("65535"), Some(FieldValue::Unsigned(65535)));
    assert_eq!(FieldKind::U16.parse("65536"), None);
    assert_eq!(FieldKind::U32.parse("4294967295"), Some(FieldValue::Unsigned(4294967295)));
    assert_eq!(FieldKind::U32.parse("4294967296"), None);
    assert_eq!(
        FieldKind::U64.parse("18446744073709551615"),
        Some(FieldValue::Unsigned(18446744073709551615))
    );
    assert_eq!(FieldKind::U64.parse("18446744073709551616"), None);
    assert_eq!(
        FieldKind::U128.parse("340282366920938463463374607431768211455"),
        Some(FieldValue::Unsigned(u128::MAX))
    );
    assert_eq!(FieldKind::U128.parse("340282366920938463463374607431768211456"), None);
    assert_eq!(
        FieldKind::Usize.parse(&usize::MAX.to_string()),
        Some(FieldValue::Unsigned(usize::MAX as u128))
    );
    assert_eq!(FieldKind::I8.parse("-128"), Some(FieldValue::Signed(-128)));
    assert_eq!(FieldKind::I8.parse("127"), Some(FieldValue::Signed(127)));
    assert_eq!(FieldKind::I8.parse("128"), None);
    assert_eq!(FieldKind::I8.parse("-129"), None);
    assert_eq!(FieldKind::I16.parse("-32768"), Some(FieldValue::Signed(-32768)));
    assert_eq!(FieldKind::I32.parse("+2147483647"), Some(FieldValue::Signed(2147483647)));
    assert_eq!(FieldKind::I64.parse("-9223372036854775808"), Some(FieldValue::Signed(i64::MIN as i128)));
    assert_eq!(
        FieldKind::I128.parse("-170141183460469231731687303715884105728"),
        Some(FieldValue::Signed(i128::MIN))
    );
    assert_eq!(FieldKind::I128.parse("170141183460469231731687303715884105728"), None);
    assert_eq!(
        FieldKind::Isize.parse(&isize::MIN.to_string()),
        Some(FieldValue::Signed(isize::MIN as i128))
    );
}
