use standard_knowledge::catalog::{CfCatalog, CfStandard};
use standard_knowledge::cli::{filter_standards, parse_assignment, run_qc, FilterArgs, ListFormat, QcAnswer, QcArgs, QcCommands, QcFailure};
use standard_knowledge::knowledge::{knowledge_file_stem, knowledge_name_from_url, Knowledge};
use standard_knowledge::library::StandardsLibrary;
use standard_knowledge::parse::{parse_int, parse_real};
use standard_knowledge::qartod::{ArgumentType, ArgumentValue, ScaffoldError, TestSuite};

fn library() -> StandardsLibrary {
    let catalog = CfCatalog {
        aliases: vec![("sea_surface_elevation".to_string(), "sea_surface_height_above_geopotential_datum".to_string())],
        standard_names: vec![
            ("sea_surface_height_above_geopotential_datum".to_string(), CfStandard { description: "Water level".to_string(), unit: "m".to_string() }),
            ("air_temperature".to_string(), CfStandard { description: "Air".to_string(), unit: "K".to_string() }),
            ("sea_water_temperature".to_string(), CfStandard { description: "Water".to_string(), unit: "K".to_string() }),
        ],
    };
    let mut library = StandardsLibrary::new();
    library.load_cf_standards(&catalog);
    let mut air = Knowledge::named("air_temperature".to_string());
    air.ioos_category = Some("Meteorology".to_string());
    air.common_variable_names = vec!["air_temp".to_string()];
    let mut water = Knowledge::named("sea_water_temperature".to_string());
    water.ioos_category = Some("Temperature".to_string());
    water.common_variable_names = vec!["water_temp".to_string()];
    library.apply_knowledge(vec![air, water]);
    library.load_test_suites();
    library
}

fn filter_args(var: Option<&str>, category: Option<&str>, unit: Option<&str>) -> FilterArgs {
    FilterArgs {
        var: var.map(|s| s.to_string()),
        ioos_category: category.map(|s| s.to_string()),
        unit: unit.map(|s| s.to_string()),
        search: None,
        format: ListFormat::Short,
    }
}

fn qc(command: QcCommands) -> QcArgs {
    QcArgs { command }
}

#[test]
fn filter_request_chains_criteria() {
    let lib = library();
    let r = filter_standards(&filter_args(None, None, Some("K")), &lib);
    let names: Vec<&str> = r.standards.iter().map(|s| s.name.as_str()).collect();
    assert_eq!(names, vec!["air_temperature", "sea_water_temperature"]);
    let r = filter_standards(&filter_args(Some("AirTemp"), None, Some("K")), &lib);
    assert_eq!(r.standards.len(), 1);
    assert_eq!(r.standards[0].name, "air_temperature");
    let r = filter_standards(&filter_args(None, Some("Nonexistent"), None), &lib);
    assert!(r.standards.is_empty());
    let all = filter_standards(&filter_args(None, None, None), &lib);
    assert_eq!(all.standards.len(), 3);
}

#[test]
fn qc_list_and_get() {
    let lib = library();
    match run_qc(&qc(QcCommands::List { standard_name: "sea_surface_elevation".to_string() }), &lib) {
        Ok(QcAnswer::Suites(s)) => assert_eq!(s.len(), 2),
        other => panic!("unexpected {other:?}"),
    }
    match run_qc(&qc(QcCommands::List { standard_name: "air_temperature".to_string() }), &lib) {
        Err(QcFailure::NoSuites(n)) => assert_eq!(n, "air_temperature"),
        other => panic!("unexpected {other:?}"),
    }
    match run_qc(&qc(QcCommands::List { standard_name: "nothing".to_string() }), &lib) {
        Err(QcFailure::StandardNotFound(n)) => assert_eq!(n, "nothing"),
        other => panic!("unexpected {other:?}"),
    }
    match run_qc(
        &qc(QcCommands::Get {
            standard_name: "sea_surface_height_above_geopotential_datum".to_string(),
            test_suite: "long_island_sound".to_string(),
        }),
        &lib,
    ) {
        Ok(QcAnswer::Suite(TestSuite::LongIslandSound)) => {}
        other => panic!("unexpected {other:?}"),
    }
    match run_qc(
        &qc(QcCommands::Get {
            standard_name: "sea_surface_height_above_geopotential_datum".to_string(),
            test_suite: "nope".to_string(),
        }),
        &lib,
    ) {
        Err(QcFailure::SuiteNotFound(s)) => assert_eq!(s, "nope"),
        other => panic!("unexpected {other:?}"),
    }
}

#[test]
fn qc_config_reads_typed_arguments() {
    let lib = library();
    let request = qc(QcCommands::Config {
        standard_name: "sea_surface_elevation".to_string(),
        test_suite: "gulf_of_maine".to_string(),
        args: vec!["mllw=0.0".to_string(), "mhhw=1.0".to_string()],
    });
    match run_qc(&request, &lib) {
        Ok(QcAnswer::Config(name, config)) => {
            assert_eq!(name, "Gulf of Maine");
            assert_eq!(config.qartod.gross_range_test.unwrap().suspect_span, (-1_371_600, 2_828_800));
        }
        other => panic!("unexpected {other:?}"),
    }
    let bad = qc(QcCommands::Config {
        standard_name: "sea_surface_elevation".to_string(),
        test_suite: "gulf_of_maine".to_string(),
        args: vec!["mllw".to_string()],
    });
    match run_qc(&bad, &lib) {
        Err(QcFailure::InvalidArgument(a)) => assert_eq!(a, "mllw"),
        other => panic!("unexpected {other:?}"),
    }
    let missing = qc(QcCommands::Config {
        standard_name: "sea_surface_elevation".to_string(),
        test_suite: "gulf_of_maine".to_string(),
        args: vec!["mhhw=1".to_string()],
    });
    match run_qc(&missing, &lib) {
        Err(QcFailure::Scaffold(ScaffoldError::MissingArgument(n))) => assert_eq!(n, "mllw"),
        other => panic!("unexpected {other:?}"),
    }
    let unparsable = qc(QcCommands::Config {
        standard_name: "sea_surface_elevation".to_string(),
        test_suite: "gulf_of_maine".to_string(),
        args: vec!["mllw=abc".to_string(), "mhhw=2.5".to_string()],
    });
    match run_qc(&unparsable, &lib) {
        Ok(QcAnswer::Config(_, config)) => {
            assert_eq!(config.qartod.gross_range_test.unwrap().suspect_span, (-1_371_600, 4_328_800));
        }
        other => panic!("unexpected {other:?}"),
    }
}

#[test]
fn assignments_need_exactly_one_equals() {
    assert_eq!(parse_assignment("a=b"), Some(("a".to_string(), "b".to_string())));
    assert_eq!(parse_assignment("a="), Some(("a".to_string(), String::new())));
    assert_eq!(parse_assignment("a=b=c"), None);
    assert_eq!(parse_assignment("ab"), None);
}

#[test]
fn value_type_reads_text_or_zero() {
    assert!(matches!(ArgumentType::Float.value_type("1.5"), ArgumentValue::Float(1_500_000)));
    assert!(matches!(ArgumentType::Float.value_type("-0.3048"), ArgumentValue::Float(-304_800)));
    assert!(matches!(ArgumentType::Float.value_type(".25"), ArgumentValue::Float(250_000)));
    assert!(matches!(ArgumentType::Float.value_type("x"), ArgumentValue::Float(0)));
    assert!(matches!(ArgumentType::Int.value_type("+42"), ArgumentValue::Int(42)));
    assert!(matches!(ArgumentType::Int.value_type("4.2"), ArgumentValue::Int(0)));
    assert!(matches!(ArgumentType::Bool.value_type("true"), ArgumentValue::Bool(true)));
    assert!(matches!(ArgumentType::Bool.value_type("yes"), ArgumentValue::Bool(false)));
    assert!(matches!(ArgumentType::String.value_type("abc"), ArgumentValue::String(ref s) if s == "abc"));
}

#[test]
fn parse_int_range() {
    assert_eq!(parse_int("-9223372036854775808"), Some(i64::MIN));
    assert_eq!(parse_int("9223372036854775807"), Some(i64::MAX));
    assert_eq!(parse_int("9223372036854775808"), None);
    assert_eq!(parse_int("-"), None);
    assert_eq!(parse_int(""), None);
}

#[test]
fn parse_real_to_millionths() {
    assert_eq!(parse_real("2.8288"), Some(2_828_800));
    assert_eq!(parse_real("1.23456789"), Some(1_234_567));
    assert_eq!(parse_real("7."), Some(7_000_000));
    assert_eq!(parse_real("."), None);
    assert_eq!(parse_real("1e3"), None);
    assert_eq!(parse_real("99999999999999999999999"), Some(i64::MAX));
    assert_eq!(parse_real("-99999999999999999999999"), Some(i64::MIN));
}

#[test]
fn knowledge_names_from_urls_and_files() {
    assert_eq!(knowledge_name_from_url("https://example.com/k/air_temperature.yaml"), "air_temperature");
    assert_eq!(knowledge_name_from_url("https://example.com/k/air_pressure.yml"), "air_pressure");
    assert_eq!(knowledge_name_from_url("https://example.com/k/readme.txt"), "unknown_standard");
    assert_eq!(knowledge_file_stem("air_temperature.yaml"), Some("air_temperature".to_string()));
    assert_eq!(knowledge_file_stem("a.b.yml"), Some("a.b".to_string()));
    assert_eq!(knowledge_file_stem("_cf_standards.yaml"), None);
    assert_eq!(knowledge_file_stem("notes.txt"), None);
    assert_eq!(knowledge_file_stem(".yaml"), None);
}
