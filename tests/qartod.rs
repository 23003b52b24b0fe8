use standard_knowledge::config::{Context, TimeWindow};
use standard_knowledge::qartod::{
    test_suites, ArgumentType, ArgumentValue, ConfigStream, ConfigStreamQartod, FlatLine, GrossRangeTest, QartodTestTypes,
    RateOfChange, ScaffoldError, Spike, StaticQc, StaticQcTestSuite, TestArgument, TestSuite, TestSuiteInfo,
};

fn args(pairs: Vec<(&str, ArgumentValue)>) -> Vec<(String, ArgumentValue)> {
    pairs.into_iter().map(|(k, v)| (k.to_string(), v)).collect()
}

#[test]
fn water_level_test_trait_object_compatibility() {
    let gulf_of_maine = TestSuite::GulfOfMaine;
    let _info = gulf_of_maine.info();

    let long_island = TestSuite::LongIslandSound;
    let _info = long_island.info();
}

#[test]
fn water_level_test_gulf_of_maine_scaffold_no_args() {
    let gulf_suite = TestSuite::GulfOfMaine;
    let args = Vec::new();
    let config = gulf_suite.scaffold(&args);

    assert!(config.is_err());
    assert_eq!(config.err().unwrap().message(), "Missing required argument: mllw");
}

#[test]
fn water_level_test_gulf_of_maine_missing_arg() {
    let gulf_suite = TestSuite::GulfOfMaine;
    let args = args(vec![("mhhw", ArgumentValue::Float(1_000_000))]); // Missing mllw

    let config = gulf_suite.scaffold(&args);

    assert!(config.is_err());
    assert_eq!(config.err().unwrap().message(), "Missing required argument: mllw");
}

#[test]
fn water_level_test_gulf_of_maine_scaffold_success() {
    let gulf_suite = TestSuite::GulfOfMaine;
    let args = args(vec![("mllw", ArgumentValue::Float(0)), ("mhhw", ArgumentValue::Float(1_000_000))]);

    let config = gulf_suite.scaffold(&args);
    assert!(config.is_ok());
    let config = config.unwrap();

    // Millionths of a metre: -1.3716 m and 2.8288 m.
    let gross_range = GrossRangeTest { suspect_span: (-1_371_600, 2_828_800), fail_span: (-1_371_600, 2_828_800) };
    let rate_of_change = RateOfChange { threshold: 228_600 };
    let spike = Spike { suspect_threshold: 228_600, fail_threshold: 457_200 };
    let flat_line = FlatLine { tolerance: 30_480, suspect_threshold: 7200, fail_threshold: 10800 };

    assert_eq!(config.qartod.gross_range_test, Some(gross_range), "Expected gross range test to match Gulf of Maine specifications");
    assert_eq!(config.qartod.rate_of_change_test, Some(rate_of_change), "Expected rate of change test to match Gulf of Maine specifications");
    assert_eq!(config.qartod.spike_test, Some(spike), "Expected spike test to match Gulf of Maine specifications");
    assert_eq!(config.qartod.flat_line_test, Some(flat_line), "Expected flat line test to match Gulf of Maine specifications");
    assert_eq!(config.qartod.location_test, None);
}

#[test]
fn gulf_of_maine_missing_mhhw() {
    let config = TestSuite::GulfOfMaine.scaffold(&args(vec![("mllw", ArgumentValue::Float(0))]));
    match config {
        Err(ScaffoldError::MissingArgument(n)) => assert_eq!(n, "mhhw"),
        other => panic!("unexpected {other:?}"),
    }
}

#[test]
fn gulf_of_maine_wrong_type() {
    let config = TestSuite::GulfOfMaine.scaffold(&args(vec![
        ("mllw", ArgumentValue::Bool(true)),
        ("mhhw", ArgumentValue::Float(0)),
    ]));
    match config {
        Err(ScaffoldError::WrongArgumentType(n, expected, got)) => {
            assert_eq!(n, "mllw");
            assert_eq!(expected, ArgumentType::Float);
            assert_eq!(got, ArgumentType::Bool);
        }
        other => panic!("unexpected {other:?}"),
    }
}

#[test]
fn gulf_of_maine_missing_checked_before_type() {
    let config = TestSuite::GulfOfMaine.scaffold(&args(vec![("mllw", ArgumentValue::String("x".to_string()))]));
    assert!(matches!(config, Err(ScaffoldError::MissingArgument(ref n)) if n == "mhhw"));
}

#[test]
fn gulf_of_maine_text_arguments_read_as_reals() {
    let config = TestSuite::GulfOfMaine
        .scaffold(&args(vec![
            ("mllw", ArgumentValue::String("0.5".to_string())),
            ("mhhw", ArgumentValue::String("oops".to_string())),
        ]))
        .unwrap();
    assert_eq!(config.qartod.gross_range_test.unwrap().suspect_span, (-871_600, 1_828_800));
}

#[test]
fn scaffold_error_messages() {
    assert_eq!(
        ScaffoldError::WrongArgumentType("mllw".to_string(), ArgumentType::Float, ArgumentType::Bool).message(),
        "Wrong type for argument: mllw"
    );
    assert_eq!(
        ScaffoldError::Unsupported("long_island_sound".to_string()).message(),
        "No configuration can be scaffolded yet by: long_island_sound"
    );
}

#[test]
fn gulf_of_maine_int_arguments_are_whole_metres() {
    let config = TestSuite::GulfOfMaine
        .scaffold(&args(vec![("mllw", ArgumentValue::Int(-1)), ("mhhw", ArgumentValue::Int(2))]))
        .unwrap();
    let span = config.qartod.gross_range_test.unwrap().suspect_span;
    assert_eq!(span, (-2_371_600, 3_828_800));
}

#[test]
fn gulf_of_maine_extreme_values_saturate() {
    let config = TestSuite::GulfOfMaine
        .scaffold(&args(vec![("mllw", ArgumentValue::Float(i64::MIN)), ("mhhw", ArgumentValue::Int(i64::MAX))]))
        .unwrap();
    assert_eq!(config.qartod.gross_range_test.unwrap().suspect_span, (i64::MIN, i64::MAX));
}

#[test]
fn long_island_sound_has_no_configuration() {
    let suite = TestSuite::LongIslandSound;
    assert!(matches!(suite.scaffold(&Vec::new()), Err(ScaffoldError::MissingArgument(ref n)) if n == "mllw"));
    assert!(matches!(
        suite.scaffold(&args(vec![("mhhw", ArgumentValue::Float(1))])),
        Err(ScaffoldError::MissingArgument(ref n)) if n == "mllw"
    ));
    assert!(matches!(
        suite.scaffold(&args(vec![("mllw", ArgumentValue::Float(1))])),
        Err(ScaffoldError::Unsupported(ref s)) if s == "long_island_sound"
    ));
}

fn static_suite() -> TestSuite {
    TestSuite::Static(StaticQcTestSuite {
        slug: "basic".to_string(),
        qc: StaticQc {
            name: "Basic".to_string(),
            summary: "Basic checks".to_string(),
            description: "Fixed limits".to_string(),
            tests: ConfigStream {
                qartod: ConfigStreamQartod {
                    gross_range_test: Some(GrossRangeTest { suspect_span: (1, 2), fail_span: (0, 3) }),
                    location_test: None,
                    rate_of_change_test: None,
                    spike_test: None,
                    flat_line_test: Some(FlatLine { tolerance: 1, suspect_threshold: 2, fail_threshold: 3 }),
                },
            },
        },
    })
}

#[test]
fn static_suite_scaffold_ignores_arguments() {
    let suite = static_suite();
    let a = suite.scaffold(&Vec::new()).unwrap();
    let b = suite.scaffold(&args(vec![("x", ArgumentValue::Int(1))])).unwrap();
    assert_eq!(a, b);
    assert_eq!(a.qartod.gross_range_test, Some(GrossRangeTest { suspect_span: (1, 2), fail_span: (0, 3) }));
}

#[test]
fn static_suite_info_lists_its_tests() {
    let info = static_suite().info();
    assert_eq!(info.slug, "basic");
    assert_eq!(info.name, "Basic");
    assert!(info.arguments.is_empty());
    assert_eq!(info.test_types, vec![QartodTestTypes::GrossRange, QartodTestTypes::FlatLine]);
    assert_eq!(info.summary_line(), "Basic (basic): Basic checks");
}

#[test]
fn gulf_of_maine_details() {
    let info = TestSuite::GulfOfMaine.info();
    let details = info.details();
    assert!(details.starts_with(
        "Gulf of Maine (gulf_of_maine)\n\nWater level tests for stations in the Gulf of Maine developed by Hannah Baranes\n\nTest types:\n- Gross Range\n- Spike\n- Rate of Change\n- Flat Line\n\nArguments:\n- mhhw: Mean higher high water elevation in NAVD 88 meters (required)\n- mllw: Mean lower low water elevation in NAVD 88 meters (required)\n\n"
    ));
    assert!(details.ends_with(&info.description));
}

#[test]
fn registry_attaches_water_level_suites() {
    let suites = test_suites();
    assert_eq!(suites.len(), 1);
    assert_eq!(suites[0].0, "sea_surface_height_above_geopotential_datum");
    assert_eq!(suites[0].1.len(), 2);
}

#[test]
fn test_type_labels() {
    assert_eq!(QartodTestTypes::RateOfChange.label(), "Rate of Change");
    assert_eq!(QartodTestTypes::NearestNeighbor.label(), "Nearest Neighbor");
}

#[test]
fn erddap_categories_are_listed() {
    let cats = standard_knowledge::ioos_categories::erddap_categories();
    assert_eq!(cats.len(), 41);
    assert!(cats.contains(&"Sea Level".to_string()));
    assert!(cats.contains(&"Meteorology".to_string()));
}

#[test]
fn context_holds_window_and_region() {
    let window = TimeWindow { starting: Some("2020-01-01T00:00:00Z".to_string()), ending: None };
    let (context, attrs) = Context::with_attrs(window, Some("something".to_string()), vec![("a".to_string(), "b".to_string())]);
    assert_eq!(context.region, Some("something".to_string()));
    assert_eq!(context.window.starting.as_deref(), Some("2020-01-01T00:00:00Z"));
    assert_eq!(attrs.len(), 1);
    let d = Context::default();
    assert!(d.region.is_none() && d.window.starting.is_none());
}

#[test]
fn details_lists_arguments_by_name() {
    let arg = |d: &str, required: bool| TestArgument { argument_type: ArgumentType::Float, description: d.to_string(), required };
    let info = TestSuiteInfo {
        name: "N".to_string(),
        slug: "n".to_string(),
        summary: "S".to_string(),
        description: "D".to_string(),
        arguments: vec![("zeta".to_string(), arg("last", false)), ("alpha".to_string(), arg("first", true))],
        test_types: vec![QartodTestTypes::Spike],
    };
    assert_eq!(
        info.details(),
        "N (n)\n\nS\n\nTest types:\n- Spike\n\nArguments:\n- alpha: first (required)\n- zeta: last\n\nD"
    );
}
