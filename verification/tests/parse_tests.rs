use config_tools::parse::{chars_of, parse_bool, parse_signed, parse_unsigned, FromValue};
use config_tools::Config;

const SAMPLES: [&str; 44] = [
    "", "0", "7", "007", "42", "+42", "-42", "+", "-", "+-1", "-+1", "--1", "++1", " 1", "1 ",
    "1_000", "0x10", "1e3", "1.0", "255", "256", "-0", "+0", "-128", "-129", "127", "128",
    "65535", "65536", "-32768", "-32769", "4294967295", "4294967296", "18446744073709551615",
    "18446744073709551616", "-9223372036854775808", "-9223372036854775809",
    "340282366920938463463374607431768211455", "340282366920938463463374607431768211456",
    "-170141183460469231731687303715884105728", "-170141183460469231731687303715884105729",
    "00000000000000000000000000000000000000000000000255", "١٢٣", "12a",
];

#[test]
fn unsigned_types_read_what_std_reads() {
    for text in SAMPLES {
        assert_eq!(u8::from_value(text), text.parse::<u8>().ok(), "u8 {:?}", text);
        assert_eq!(u16::from_value(text), text.parse::<u16>().ok(), "u16 {:?}", text);
        assert_eq!(u32::from_value(text), text.parse::<u32>().ok(), "u32 {:?}", text);
        assert_eq!(u64::from_value(text), text.parse::<u64>().ok(), "u64 {:?}", text);
        assert_eq!(u128::from_value(text), text.parse::<u128>().ok(), "u128 {:?}", text);
        assert_eq!(usize::from_value(text), text.parse::<usize>().ok(), "usize {:?}", text);
    }
}

#[test]
fn signed_types_read_what_std_reads() {
    for text in SAMPLES {
        assert_eq!(i8::from_value(text), text.parse::<i8>().ok(), "i8 {:?}", text);
        assert_eq!(i16::from_value(text), text.parse::<i16>().ok(), "i16 {:?}", text);
        assert_eq!(i32::from_value(text), text.parse::<i32>().ok(), "i32 {:?}", text);
        assert_eq!(i64::from_value(text), text.parse::<i64>().ok(), "i64 {:?}", text);
        assert_eq!(i128::from_value(text), text.parse::<i128>().ok(), "i128 {:?}", text);
        assert_eq!(isize::from_value(text), text.parse::<isize>().ok(), "isize {:?}", text);
    }
}

#[test]
fn bool_and_text_read_what_std_reads() {
    for text in ["true", "false", "", "True", "TRUE", "1", "0", "yes", " true", "true ", "truefalse"] {
        assert_eq!(bool::from_value(text), text.parse::<bool>().ok(), "bool {:?}", text);
        assert_eq!(parse_bool(text), text.parse::<bool>().ok(), "bool {:?}", text);
        assert_eq!(String::from_value(text), Some(text.to_string()));
    }
}

#[test]
fn parse_unsigned_exact_values() {
    assert_eq!(parse_unsigned("0", 0), Some(0));
    assert_eq!(parse_unsigned("1", 0), None);
    assert_eq!(parse_unsigned("+19", 19), Some(19));
    assert_eq!(parse_unsigned("20", 19), None);
    assert_eq!(parse_unsigned("1234567890", u128::MAX), Some(1234567890));
    assert_eq!(parse_unsigned("-1", u128::MAX), None);
}

#[test]
fn parse_signed_exact_values() {
    assert_eq!(parse_signed("-5", -5, 5), Some(-5));
    assert_eq!(parse_signed("-6", -5, 5), None);
    assert_eq!(parse_signed("5", -5, 5), Some(5));
    assert_eq!(parse_signed("6", -5, 5), None);
    assert_eq!(parse_signed("-0", -5, 5), Some(0));
    // Without a negative lower bound a minus sign is no part of a number.
    assert_eq!(parse_signed("-0", 0, 5), None);
    assert_eq!(parse_signed("3", 4, 5), None);
    assert_eq!(parse_signed("4", 4, 5), Some(4));
    assert_eq!(parse_signed("-4", -5, -3), Some(-4));
    assert_eq!(parse_signed("-2", -5, -3), None);
    assert_eq!(parse_signed("4", -5, -3), None);
}

#[test]
fn chars_of_keeps_every_character() {
    assert_eq!(chars_of(""), Vec::<char>::new());
    assert_eq!(chars_of("aß水🦀"), vec!['a', 'ß', '水', '🦀']);
}

#[test]
fn get_as_is_none_for_absent_and_for_unparsable() {
    let config = Config::builder()
        .set("flag", "maybe")
        .set("count", "many")
        .section("Limits")
        .set("small", "300")
        .set("negative", "-1")
        .build();

    // absent
    assert_eq!(config.get_as::<bool>(None, "missing"), None);
    assert_eq!(config.get_as::<u32>(None, "missing"), None);
    assert_eq!(config.get_as::<i64>(Some("Missing"), "small"), None);
    // present but malformed
    assert_eq!(config.get_as::<bool>(None, "flag"), None);
    assert_eq!(config.get_as::<u32>(None, "count"), None);
    assert_eq!(config.get_as::<u8>(Some("Limits"), "small"), None);
    assert_eq!(config.get_as::<u16>(Some("Limits"), "negative"), None);
    // present and well-formed
    assert_eq!(config.get_as::<u16>(Some("Limits"), "small"), Some(300));
    assert_eq!(config.get_as::<i16>(Some("Limits"), "negative"), Some(-1));
    assert_eq!(config.get_as::<String>(None, "flag"), Some("maybe".to_string()));
}

#[test]
fn floating_point_values_are_read_from_the_stored_text() {
    let config = Config::builder().set("ratio", "0.5").set("word", "half").build();
    let ratio = config.get(None, "ratio").and_then(|text| text.parse::<f64>().ok());
    let word = config.get(None, "word").and_then(|text| text.parse::<f64>().ok());
    let missing = config.get(None, "missing").and_then(|text| text.parse::<f64>().ok());
    assert_eq!(ratio, Some(0.5));
    assert_eq!(word, None);
    assert_eq!(missing, None);
}
