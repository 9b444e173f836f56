use conferencier::fmt_num::u64_to_decimal;
use conferencier::store::temporary_path;
use conferencier::value::Timestamp;
use conferencier::Confer;
use conferencier::ConferError;
use conferencier::ConferValue;

#[test]
fn new_store_is_empty() {
    let store = Confer::new();
    assert!(store.list_sections().is_empty());
}

#[test]
fn set_and_get_string_roundtrip() {
    let mut store = Confer::new();
    store.set_string("App", "name", "demo".into()).unwrap();
    assert_eq!(store.get_string("App", "name").unwrap(), "demo");
    match store.get_value("App", "name") {
        Some(ConferValue::String(s)) => assert_eq!(s, "demo"),
        other => panic!("unexpected value: {:?}", other),
    }
}

#[test]
fn datetime_fallback_from_string() {
    let mut store = Confer::new();
    store
        .set_string("Build", "time", "2024-01-01T00:00:00Z".into())
        .unwrap();
    let dt = store.get_datetime("Build", "time").unwrap();
    assert_eq!(dt.text, "2024-01-01T00:00:00Z");
}

#[test]
fn float_vec_accepts_integers() {
    let mut store = Confer::new();
    store
        .set_value(
            "App",
            "thresholds",
            ConferValue::Array(vec![
                ConferValue::Integer(1),
                ConferValue::Float(2.5f64.to_bits()),
            ]),
        )
        .unwrap();
    let values: Vec<f64> = store
        .get_float_vec("App", "thresholds")
        .unwrap()
        .into_iter()
        .map(f64::from_bits)
        .collect();
    assert_eq!(values, vec![1.0, 2.5]);
}

#[test]
fn missing_key_yields_error() {
    let store = Confer::new();
    let err = store.get_string("Missing", "key").unwrap_err();
    assert!(matches!(err, ConferError::MissingKey { .. }));
}

#[test]
fn load_str_replaces_content() {
    let mut store = Confer::new();
    store.set_string("App", "name", "demo".into()).unwrap();
    store.load_str("[Srv]\nport = 8080\n").unwrap();

    assert!(store.get_value("App", "name").is_none());
    assert_eq!(store.get_integer("Srv", "port").unwrap(), 8080);
}

#[test]
fn list_keys_missing_section_empty() {
    let store = Confer::new();
    assert!(store.list_keys("Unknown").unwrap().is_empty());
}

#[test]
fn add_section_is_idempotent() {
    let mut store = Confer::new();
    store.add_section("Srv").unwrap();
    store.add_section("Srv").unwrap();
    assert!(store.section_exists("Srv"));
    assert!(store.list_keys("Srv").unwrap().is_empty());
    assert_eq!(store.list_sections(), vec!["Srv".to_string()]);
}

#[test]
fn remove_key_missing_is_ok() {
    let mut store = Confer::new();
    store.remove_key("Srv", "unknown").unwrap();
    store.add_section("Srv").unwrap();
    store.remove_key("Srv", "missing").unwrap();
}

#[test]
fn load_and_save_roundtrip() {
    let mut store = Confer::from_string("[App]\nname = \"demo\"\n").unwrap();
    assert_eq!(store.get_string("App", "name").unwrap(), "demo");

    store.set_integer("App", "port", 8080).unwrap();
    store
        .set_string_vec("App", "langs", vec!["en".into(), "de".into()])
        .unwrap();

    let output = store.save_str().unwrap();
    assert!(output.contains("name = \"demo\""));
    assert!(output.contains("port = 8080"));
    assert!(output.contains("langs = ["));
}

#[test]
fn scalar_roundtrips_for_every_kind() {
    let mut store = Confer::new();
    store.set_string("S", "a", "text".into()).unwrap();
    store.set_integer("S", "b", -42).unwrap();
    store.set_float("S", "c", 3.25f64.to_bits()).unwrap();
    store.set_boolean("S", "d", true).unwrap();
    store
        .set_datetime("S", "e", Timestamp::new("1999-12-31T23:59:59Z".into()))
        .unwrap();

    assert_eq!(store.get_string("S", "a").unwrap(), "text");
    assert_eq!(store.get_integer("S", "b").unwrap(), -42);
    assert_eq!(f64::from_bits(store.get_float("S", "c").unwrap()), 3.25);
    assert!(store.get_boolean("S", "d").unwrap());
    assert_eq!(
        store.get_datetime("S", "e").unwrap().text,
        "1999-12-31T23:59:59Z"
    );
}

#[test]
fn vector_roundtrips_for_every_kind() {
    let mut store = Confer::new();
    store
        .set_string_vec("V", "s", vec!["x".into(), "y".into()])
        .unwrap();
    store.set_integer_vec("V", "i", vec![1, 2, 3]).unwrap();
    store
        .set_float_vec("V", "f", vec![0.5f64.to_bits(), 1.5f64.to_bits()])
        .unwrap();
    store.set_boolean_vec("V", "b", vec![true, false]).unwrap();
    store
        .set_datetime_vec(
            "V",
            "d",
            vec![Timestamp::new("2020-02-02T02:02:02Z".into())],
        )
        .unwrap();

    assert_eq!(
        store.get_string_vec("V", "s").unwrap(),
        vec!["x".to_string(), "y".to_string()]
    );
    assert_eq!(store.get_integer_vec("V", "i").unwrap(), vec![1, 2, 3]);
    let floats: Vec<f64> = store
        .get_float_vec("V", "f")
        .unwrap()
        .into_iter()
        .map(f64::from_bits)
        .collect();
    assert_eq!(floats, vec![0.5, 1.5]);
    assert_eq!(store.get_boolean_vec("V", "b").unwrap(), vec![true, false]);
    let dts = store.get_datetime_vec("V", "d").unwrap();
    assert_eq!(dts.len(), 1);
    assert_eq!(dts[0].text, "2020-02-02T02:02:02Z");
}

#[test]
fn wrong_shape_yields_type_mismatch() {
    let mut store = Confer::new();
    store.set_integer("App", "port", 8080).unwrap();
    let err = store.get_string("App", "port").unwrap_err();
    match err {
        ConferError::TypeMismatch {
            expected, found, ..
        } => {
            assert_eq!(expected, "string");
            assert_eq!(found, "integer");
        }
        other => panic!("unexpected error: {:?}", other),
    }
}

#[test]
fn non_table_section_yields_type_mismatch() {
    let mut store = Confer::new();
    store.load_str("port = 1\n").unwrap();
    let err = store.get_string("port", "x").unwrap_err();
    assert!(matches!(err, ConferError::TypeMismatch { .. }));
    let err2 = store.list_keys("port").unwrap_err();
    assert!(matches!(err2, ConferError::TypeMismatch { .. }));
    let err3 = store.set_string("port", "x", "v".into()).unwrap_err();
    assert!(matches!(err3, ConferError::TypeMismatch { .. }));
    let err4 = store.add_section("port").unwrap_err();
    assert!(matches!(err4, ConferError::TypeMismatch { .. }));
}

#[test]
fn remove_section_missing_is_ok() {
    let mut store = Confer::new();
    store.remove_section("Nowhere").unwrap();
    store.add_section("Here").unwrap();
    store.remove_section("Here").unwrap();
    assert!(!store.section_exists("Here"));
}

#[test]
fn array_element_error_names_index() {
    let mut store = Confer::new();
    store
        .set_value(
            "App",
            "xs",
            ConferValue::Array(vec![
                ConferValue::String("ok".into()),
                ConferValue::Integer(5),
            ]),
        )
        .unwrap();
    let err = store.get_string_vec("App", "xs").unwrap_err();
    match err {
        ConferError::ValueParse { message, .. } => {
            assert!(message.contains("expected array elements of type string, found integer"));
            assert!(message.contains("(at index 1)"));
        }
        other => panic!("unexpected error: {:?}", other),
    }
}

#[test]
fn parse_error_is_reported() {
    let err = Confer::from_string("not [valid toml").unwrap_err();
    assert!(matches!(err, ConferError::Parse { .. }));
}

#[test]
fn invalid_timestamp_text_fails_serialization() {
    let mut store = Confer::new();
    store
        .set_datetime("S", "t", Timestamp::new("not a timestamp".into()))
        .unwrap();
    let err = store.save_str().unwrap_err();
    assert!(matches!(err, ConferError::Serialize { .. }));
}

#[test]
fn malformed_datetime_string_yields_value_parse() {
    let mut store = Confer::new();
    store.set_string("S", "t", "not a timestamp".into()).unwrap();
    let err = store.get_datetime("S", "t").unwrap_err();
    match err {
        ConferError::ValueParse { message, .. } => {
            assert!(message.contains("failed to parse datetime"));
        }
        other => panic!("unexpected error: {:?}", other),
    }
}

#[test]
fn error_messages_read_as_one_line() {
    let err = ConferError::missing_key("App", "port");
    assert_eq!(err.message(), "missing key App.port");
    let err2 = ConferError::type_mismatch("App", "port", "string", "integer");
    assert_eq!(
        err2.message(),
        "expected string at App.port but found integer"
    );
    let err3 = ConferError::io_error(Some("a/b.toml".into()), "denied".into());
    assert_eq!(err3.message(), "I/O error (path: a/b.toml): denied");
}

#[test]
fn decimal_rendering_matches() {
    assert_eq!(u64_to_decimal(0), "0");
    assert_eq!(u64_to_decimal(7), "7");
    assert_eq!(u64_to_decimal(10), "10");
    assert_eq!(u64_to_decimal(987654321), "987654321");
    assert_eq!(u64_to_decimal(u64::MAX), "18446744073709551615");
}

#[test]
fn temporary_path_appends_suffix() {
    assert_eq!(temporary_path("config.toml"), "config.toml.tmp");
    assert_eq!(temporary_path("dir/settings"), "dir/settings.tmp");
}

#[test]
fn list_keys_reports_in_order() {
    let store = Confer::from_string("[S]\nb = 1\na = 2\n").unwrap();
    let keys = store.list_keys("S").unwrap();
    assert_eq!(keys, vec!["a".to_string(), "b".to_string()]);
}
