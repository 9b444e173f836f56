use conferencier::confer_module::{
    float_from_store, integer_from_store, integer_to_store, FieldSpec, FieldValue, ModuleSchema,
    ScalarValue,
};
use conferencier::model::{ContainerKind, FieldType, FloatKind, IntegerKind, ScalarKind};
use conferencier::value::Timestamp;
use conferencier::Confer;
use conferencier::ConferError;
use conferencier::SectionGuard;

fn plain(scalar: ScalarKind) -> FieldType {
    FieldType {
        container: ContainerKind::Plain,
        scalar,
    }
}

fn field(key: &str, kind: FieldType) -> FieldSpec {
    FieldSpec {
        key: key.to_string(),
        kind,
        default: None,
        init: None,
        ignore: false,
    }
}

fn server_schema() -> ModuleSchema {
    let fields = vec![
        field("p", plain(ScalarKind::Integer(IntegerKind::U16))),
        FieldSpec {
            default: Some(FieldValue::Plain(ScalarValue::Str("0.0.0.0".into()))),
            ..field("host", plain(ScalarKind::String))
        },
        FieldSpec {
            default: Some(FieldValue::Plain(ScalarValue::Int(3))),
            ..field("retries", plain(ScalarKind::Integer(IntegerKind::I32)))
        },
        FieldSpec {
            default: Some(FieldValue::Vec(vec![
                ScalarValue::Str("alpha".into()),
                ScalarValue::Str("beta".into()),
            ])),
            ..field(
                "features",
                FieldType {
                    container: ContainerKind::Vec,
                    scalar: ScalarKind::String,
                },
            )
        },
        FieldSpec {
            default: Some(FieldValue::Plain(ScalarValue::Datetime(Timestamp::new(
                "2024-01-01T00:00:00Z".into(),
            )))),
            ..field("started_at", plain(ScalarKind::Datetime))
        },
        FieldSpec {
            default: Some(FieldValue::Option(Some(ScalarValue::Str(
                "example.com".into(),
            )))),
            ..field(
                "endpoint",
                FieldType {
                    container: ContainerKind::Option,
                    scalar: ScalarKind::String,
                },
            )
        },
        field(
            "notes",
            FieldType {
                container: ContainerKind::Option,
                scalar: ScalarKind::String,
            },
        ),
        FieldSpec {
            init: Some(FieldValue::Vec(Vec::new())),
            ignore: true,
            ..field(
                "cache",
                FieldType {
                    container: ContainerKind::Vec,
                    scalar: ScalarKind::Integer(IntegerKind::U8),
                },
            )
        },
    ];
    ModuleSchema::new("Srv".to_string(), fields).expect("schema is well formed")
}

fn expect_string(v: &FieldValue) -> String {
    match v {
        FieldValue::Plain(ScalarValue::Str(s)) => s.clone(),
        other => panic!("expected a string field, got {:?}", other),
    }
}

#[test]
fn module_from_confer_loads_defaults_and_values() {
    let mut store = Confer::from_string("[Srv]\nextra = 7\np = 8080\nnotes = \"temp\"\n").unwrap();

    let schema = server_schema();
    let mut record = schema.from_confer(&store).expect("load succeeds");

    assert!(matches!(
        record.values[0],
        FieldValue::Plain(ScalarValue::Int(8080))
    ));
    assert_eq!(expect_string(&record.values[1]), "0.0.0.0");
    assert!(matches!(
        record.values[2],
        FieldValue::Plain(ScalarValue::Int(3))
    ));
    match &record.values[3] {
        FieldValue::Vec(items) => {
            assert!(matches!(&items[0], ScalarValue::Str(s) if s == "alpha"));
            assert!(matches!(&items[1], ScalarValue::Str(s) if s == "beta"));
        }
        other => panic!("expected a string array, got {:?}", other),
    }
    match &record.values[4] {
        FieldValue::Plain(ScalarValue::Datetime(d)) => {
            assert!(d.text.starts_with("2024-01-01T00:00:00Z"));
        }
        other => panic!("expected a timestamp, got {:?}", other),
    }
    assert!(matches!(
        &record.values[5],
        FieldValue::Option(Some(ScalarValue::Str(s))) if s == "example.com"
    ));
    assert!(matches!(
        &record.values[6],
        FieldValue::Option(Some(ScalarValue::Str(s))) if s == "temp"
    ));
    assert!(matches!(&record.values[7], FieldValue::Vec(items) if items.is_empty()));

    record.values[1] = FieldValue::Plain(ScalarValue::Str("127.0.0.1".into()));
    record.values[3] = FieldValue::Vec(vec![ScalarValue::Str("gamma".into())]);
    record.values[5] = FieldValue::Option(None);
    record.values[6] = FieldValue::Option(None);

    schema.save(&mut store, &record).expect("save succeeds");

    assert_eq!(store.get_string("Srv", "host").unwrap(), "127.0.0.1");
    assert_eq!(store.get_integer("Srv", "p").unwrap(), 8080);
    assert_eq!(store.get_integer("Srv", "retries").unwrap(), 3);
    assert_eq!(
        store.get_string_vec("Srv", "features").unwrap(),
        vec!["gamma".to_string()]
    );
    assert!(store.get_value("Srv", "endpoint").is_none());
    assert!(store.get_value("Srv", "notes").is_none());
    assert!(store.get_value("Srv", "extra").is_none());
}

fn nested_schema() -> ModuleSchema {
    let opt_u16_vec = FieldType {
        container: ContainerKind::OptionVec,
        scalar: ScalarKind::Integer(IntegerKind::U16),
    };
    let opt_string_vec = FieldType {
        container: ContainerKind::OptionVec,
        scalar: ScalarKind::String,
    };
    let fields = vec![
        FieldSpec {
            default: Some(FieldValue::OptionVec(Some(vec![
                ScalarValue::Int(1),
                ScalarValue::Int(2),
                ScalarValue::Int(3),
            ]))),
            ..field("counters", opt_u16_vec)
        },
        FieldSpec {
            default: Some(FieldValue::OptionVec(Some(vec![
                ScalarValue::Int(4),
                ScalarValue::Int(5),
            ]))),
            ..field("thresholds", opt_u16_vec)
        },
        FieldSpec {
            default: Some(FieldValue::OptionVec(Some(vec![
                ScalarValue::Str("primary".into()),
                ScalarValue::Str("secondary".into()),
            ]))),
            ..field("aliases", opt_string_vec)
        },
    ];
    ModuleSchema::new("Nested".to_string(), fields).expect("schema is well formed")
}

#[test]
fn option_vec_fields_load_modify_and_save() {
    let mut store = Confer::from_string("[Nested]\ncounters = [10, 20]\n").unwrap();

    let schema = nested_schema();
    let mut record = schema.from_confer(&store).expect("load succeeds");

    match &record.values[0] {
        FieldValue::OptionVec(Some(items)) => {
            assert!(matches!(items[0], ScalarValue::Int(10)));
            assert!(matches!(items[1], ScalarValue::Int(20)));
        }
        other => panic!("expected loaded counters, got {:?}", other),
    }
    match &record.values[1] {
        FieldValue::OptionVec(Some(items)) => {
            assert!(matches!(items[0], ScalarValue::Int(4)));
            assert!(matches!(items[1], ScalarValue::Int(5)));
        }
        other => panic!("expected defaulted thresholds, got {:?}", other),
    }
    match &record.values[2] {
        FieldValue::OptionVec(Some(items)) => {
            assert!(matches!(&items[0], ScalarValue::Str(s) if s == "primary"));
            assert!(matches!(&items[1], ScalarValue::Str(s) if s == "secondary"));
        }
        other => panic!("expected defaulted aliases, got {:?}", other),
    }

    record.values[0] = FieldValue::OptionVec(None);
    record.values[1] = FieldValue::OptionVec(Some(vec![
        ScalarValue::Int(30),
        ScalarValue::Int(40),
        ScalarValue::Int(50),
    ]));
    record.values[2] = FieldValue::OptionVec(Some(vec![
        ScalarValue::Str("blue".into()),
        ScalarValue::Str("green".into()),
    ]));

    schema.save(&mut store, &record).expect("save succeeds");

    assert!(store.get_value("Nested", "counters").is_none());
    assert_eq!(
        store.get_integer_vec("Nested", "thresholds").unwrap(),
        vec![30, 40, 50]
    );
    assert_eq!(
        store.get_string_vec("Nested", "aliases").unwrap(),
        vec!["blue".to_string(), "green".to_string()]
    );
}

#[test]
fn narrow_width_rejects_out_of_range_value() {
    let err = integer_from_store(IntegerKind::U8, "S", "k", 300).unwrap_err();
    match err {
        ConferError::ValueParse { message, .. } => {
            assert_eq!(message, "value out of range for u8");
        }
        other => panic!("unexpected error: {:?}", other),
    }
    let ok = integer_from_store(IntegerKind::I16, "S", "k", 300).unwrap();
    assert!(matches!(ok, ScalarValue::Int(300)));
}

#[test]
fn required_field_missing_stops_load() {
    let store = Confer::from_string("[Srv]\nhost = \"h\"\n").unwrap();
    let schema = server_schema();
    let err = schema.from_confer(&store).unwrap_err();
    match err {
        ConferError::MissingKey { section, key } => {
            assert_eq!(section, "Srv");
            assert_eq!(key, "p");
        }
        other => panic!("unexpected error: {:?}", other),
    }
}

#[test]
fn load_is_idempotent_without_writes() {
    let store = Confer::from_string("[Srv]\np = 1\nnotes = \"n\"\n").unwrap();
    let schema = server_schema();
    let mut record = schema.from_confer(&store).expect("first load");
    let first_host = expect_string(&record.values[1]);
    schema.load(&store, &mut record).expect("second load");
    assert_eq!(expect_string(&record.values[1]), first_host);
    assert!(matches!(
        record.values[0],
        FieldValue::Plain(ScalarValue::Int(1))
    ));
    assert!(matches!(
        &record.values[6],
        FieldValue::Option(Some(ScalarValue::Str(s))) if s == "n"
    ));
}

#[test]
fn load_failure_leaves_earlier_fields_assigned() {
    let store =
        Confer::from_string("[Srv]\np = 8080\nhost = \"h\"\nretries = \"oops\"\n").unwrap();
    let schema = server_schema();
    let mut record = schema.init_record();
    let err = schema.load(&store, &mut record).unwrap_err();
    match &err {
        ConferError::TypeMismatch {
            section,
            key,
            expected,
            found,
        } => {
            assert_eq!(section, "Srv");
            assert_eq!(key, "retries");
            assert_eq!(*expected, "integer");
            assert_eq!(*found, "string");
        }
        other => panic!("unexpected error: {:?}", other),
    }
    assert!(matches!(
        record.values[0],
        FieldValue::Plain(ScalarValue::Int(8080))
    ));
    assert_eq!(expect_string(&record.values[1]), "h");
}

#[test]
fn save_reports_the_failing_write_unchanged() {
    let mut store = Confer::new();
    let fields = vec![field("big", plain(ScalarKind::Integer(IntegerKind::U64)))];
    let schema = ModuleSchema::new("S".to_string(), fields).expect("schema is well formed");
    let mut record = schema.init_record();
    record.values[0] = FieldValue::Plain(ScalarValue::Uint(u64::MAX));
    let err = schema.save(&mut store, &record).unwrap_err();
    match err {
        ConferError::ValueParse {
            section,
            key,
            message,
        } => {
            assert_eq!(section, "S");
            assert_eq!(key, "big");
            assert_eq!(
                message,
                "value `18446744073709551615` out of range for TOML integer"
            );
        }
        other => panic!("unexpected error: {:?}", other),
    }
}

#[test]
fn wide_unsigned_value_cannot_reach_the_store() {
    let sv = ScalarValue::Uint(u64::MAX);
    let err = integer_to_store("S", "k", &sv).unwrap_err();
    match err {
        ConferError::ValueParse { message, .. } => {
            assert!(message.contains("out of range for TOML integer"));
            assert!(message.contains("18446744073709551615"));
        }
        other => panic!("unexpected error: {:?}", other),
    }
    let ok = integer_to_store("S", "k", &ScalarValue::Uint(7)).unwrap();
    assert_eq!(ok, 7);
}

#[test]
fn narrow_float_width_demands_finite_in_range() {
    let err = float_from_store(FloatKind::F32, "S", "k", f64::NAN.to_bits()).unwrap_err();
    match err {
        ConferError::ValueParse { message, .. } => assert_eq!(message, "non-finite float"),
        other => panic!("unexpected error: {:?}", other),
    }
    let err2 = float_from_store(FloatKind::F32, "S", "k", 1.0e39f64.to_bits()).unwrap_err();
    match err2 {
        ConferError::ValueParse { message, .. } => {
            assert_eq!(message, "value out of range for f32")
        }
        other => panic!("unexpected error: {:?}", other),
    }
    let ok = float_from_store(FloatKind::F32, "S", "k", 1.5f64.to_bits()).unwrap();
    assert_eq!(f64::from_bits(ok), 1.5);
    let ok64 = float_from_store(FloatKind::F64, "S", "k", f64::NAN.to_bits()).unwrap();
    assert!(f64::from_bits(ok64).is_nan());
}

#[test]
fn duplicate_keys_are_refused_at_construction() {
    let fields = vec![
        field("same", plain(ScalarKind::String)),
        field("same", plain(ScalarKind::Bool)),
    ];
    assert!(ModuleSchema::new("S".to_string(), fields).is_none());
}

#[test]
fn default_and_init_together_are_refused_at_construction() {
    let fields = vec![FieldSpec {
        default: Some(FieldValue::Plain(ScalarValue::Str("a".into()))),
        init: Some(FieldValue::Plain(ScalarValue::Str("b".into()))),
        ..field("name", plain(ScalarKind::String))
    }];
    assert!(ModuleSchema::new("S".to_string(), fields).is_none());
}

#[test]
fn mismatched_default_shape_is_refused_at_construction() {
    let fields = vec![FieldSpec {
        default: Some(FieldValue::Plain(ScalarValue::Bool(true))),
        ..field("name", plain(ScalarKind::String))
    }];
    assert!(ModuleSchema::new("S".to_string(), fields).is_none());
}

#[test]
fn round_trip_scenario_keeps_declared_keys() {
    let mut store = Confer::from_string("[App]\nport = 8080\nbanner = \"hi\"\n").unwrap();
    let fields = vec![
        field("port", plain(ScalarKind::Integer(IntegerKind::I64))),
        FieldSpec {
            default: Some(FieldValue::Plain(ScalarValue::Str("localhost".into()))),
            ..field("host", plain(ScalarKind::String))
        },
        field(
            "banner",
            FieldType {
                container: ContainerKind::Option,
                scalar: ScalarKind::String,
            },
        ),
    ];
    let schema = ModuleSchema::new("App".to_string(), fields).expect("schema is well formed");

    let mut record = schema.from_confer(&store).expect("load succeeds");
    assert!(matches!(
        record.values[0],
        FieldValue::Plain(ScalarValue::Int(8080))
    ));
    assert_eq!(expect_string(&record.values[1]), "localhost");
    assert!(matches!(
        &record.values[2],
        FieldValue::Option(Some(ScalarValue::Str(s))) if s == "hi"
    ));

    record.values[2] = FieldValue::Option(None);
    schema.save(&mut store, &record).expect("save succeeds");

    let text = store.save_str().unwrap();
    assert!(!text.contains("banner"));
    assert!(text.contains("port = 8080"));
    assert!(text.contains("host = \"localhost\""));
}

#[test]
fn section_guard_keeps_each_key_once() {
    let guard = SectionGuard::new(vec!["a".into(), "b".into(), "a".into()]);
    assert_eq!(
        guard.known_keys().clone(),
        vec!["a".to_string(), "b".to_string()]
    );
    assert!(guard.contains("a"));
    assert!(guard.contains("b"));
    assert!(!guard.contains("c"));
}

#[test]
fn setter_names_match_field_types() {
    let t = plain(ScalarKind::Integer(IntegerKind::U32));
    assert_eq!(conferencier::model::setter_name(&t, false), "set_integer");
    assert_eq!(
        conferencier::model::setter_name(&t, true),
        "set_integer_vec"
    );
    let d = plain(ScalarKind::Datetime);
    assert_eq!(conferencier::model::setter_name(&d, false), "set_datetime");
}

#[test]
fn empty_section_with_defaults_loads_them_all() {
    let store = Confer::from_string("[Nested]\n").unwrap();
    let schema = nested_schema();
    let record = schema.from_confer(&store).expect("defaults apply");
    assert!(matches!(&record.values[0], FieldValue::OptionVec(Some(items)) if items.len() == 3));
    assert!(matches!(&record.values[1], FieldValue::OptionVec(Some(items)) if items.len() == 2));
    assert!(matches!(&record.values[2], FieldValue::OptionVec(Some(items)) if items.len() == 2));
}

#[test]
fn ignored_field_key_is_pruned_on_save() {
    let mut store =
        Confer::from_string("[Srv]\np = 1\nnotes = \"n\"\ncache = [9]\n").unwrap();
    let schema = server_schema();
    let record = schema.from_confer(&store).expect("load succeeds");
    schema.save(&mut store, &record).expect("save succeeds");
    assert!(store.get_value("Srv", "cache").is_none());
    assert_eq!(store.get_integer("Srv", "p").unwrap(), 1);
}
