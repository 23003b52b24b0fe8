use standard_knowledge::filter::StandardsFilter;
use standard_knowledge::qartod::{ConfigStream, ConfigStreamQartod, RateOfChange, StaticQc, StaticQcTestSuite, TestSuite};
use standard_knowledge::standard::Standard;
use standard_knowledge::text::normalize_variable_name;

fn standard(name: &str, unit: &str) -> Standard {
    Standard {
        name: name.to_string(),
        long_name: None,
        unit: unit.to_string(),
        description: String::new(),
        aliases: Vec::new(),
        ioos_category: None,
        common_variable_names: Vec::new(),
        related_standards: Vec::new(),
        sibling_standards: Vec::new(),
        extra_attrs: Vec::new(),
        other_units: Vec::new(),
        comments: None,
        qartod: Vec::new(),
    }
}

fn sample() -> StandardsFilter {
    let mut wind = standard("wind_speed", "m s-1");
    wind.common_variable_names = vec!["WSPD".to_string(), "wind_speed".to_string()];
    wind.ioos_category = Some("Wind".to_string());
    wind.other_units = vec!["knots".to_string()];
    let mut temp = standard("sea_water_temperature", "K");
    temp.common_variable_names = vec!["water_temp".to_string()];
    temp.ioos_category = Some("Temperature".to_string());
    temp.other_units = vec!["degC".to_string()];
    temp.long_name = Some("Water Temperature".to_string());
    let mut air = standard("air_temperature", "K");
    air.common_variable_names = vec!["airTemp".to_string()];
    air.ioos_category = Some("Temperature".to_string());
    air.other_units = vec!["degC".to_string()];
    let mut period = standard("sea_surface_wave_mean_period", "s");
    period.common_variable_names = vec!["mean_period".to_string()];
    StandardsFilter { standards: vec![wind, temp, period, air] }
}

fn names(f: &StandardsFilter) -> Vec<String> {
    f.standards.iter().map(|s| s.name.clone()).collect()
}

#[test]
fn standard_can_match_standard_by_long_name() {
    let standard = Standard {
        name: "air_pressure_at_mean_sea_level".to_string(),
        long_name: None,
        unit: "Pa".to_string(),
        description: "A quick note".to_string(),
        aliases: Vec::new(),
        ioos_category: Some("Meteorology".to_string()),
        common_variable_names: Vec::new(),
        related_standards: Vec::new(),
        sibling_standards: Vec::new(),
        extra_attrs: Vec::new(),
        other_units: Vec::new(),
        comments: None,
        qartod: Vec::new(),
    };

    assert!(standard.matches_pattern("Met"), "Should be able to find met within the standard",);

    assert!(!standard.matches_pattern("Nothing"), "Shouldn't match something random");
}

#[test]
fn by_unit_matches_unit_or_other_units_sorted() {
    let f = sample();
    assert_eq!(names(&f.by_unit("K")), vec!["air_temperature", "sea_water_temperature"]);
    assert_eq!(names(&f.by_unit("degC")), vec!["air_temperature", "sea_water_temperature"]);
    assert_eq!(names(&f.by_unit("knots")), vec!["wind_speed"]);
    assert!(f.by_unit("k").standards.is_empty());
}

#[test]
fn by_ioos_category_ignores_ascii_case() {
    let f = sample();
    assert_eq!(names(&f.by_ioos_category("temperature")), vec!["air_temperature", "sea_water_temperature"]);
    assert_eq!(names(&f.by_ioos_category("WIND")), vec!["wind_speed"]);
}

#[test]
fn filter_by_nonexistent_category_is_empty() {
    let f = sample();
    assert!(f.by_ioos_category("Nonexistent").standards.is_empty());
}

#[test]
fn by_variable_name_normalizes_case_and_underscores() {
    let f = sample();
    for v in ["meanPeriod", "mean_period", "MEAN_PERIOD", "MeanPeriod"] {
        assert_eq!(names(&f.by_variable_name(v)), vec!["sea_surface_wave_mean_period"]);
    }
    assert_eq!(names(&f.by_variable_name("air_temp")), vec!["air_temperature"]);
    assert_eq!(names(&f.by_variable_name("wspd")), vec!["wind_speed"]);
    assert!(f.by_variable_name("period").standards.is_empty());
}

#[test]
fn normalize_lowercases_and_strips_underscores() {
    assert_eq!(normalize_variable_name("MEAN_Period_"), "meanperiod");
    assert_eq!(normalize_variable_name(""), "");
}

#[test]
fn has_qartod_tests_keeps_standards_with_suites() {
    let mut f = sample();
    f.standards[2].qartod.push(TestSuite::GulfOfMaine);
    assert_eq!(names(&f.has_qartod_tests()), vec!["sea_surface_wave_mean_period"]);
}

#[test]
fn chained_filters_narrow() {
    let f = sample();
    let r = f.by_ioos_category("Temperature").by_variable_name("WATER_TEMP");
    assert_eq!(names(&r), vec!["sea_water_temperature"]);
}

#[test]
fn search_finds_by_name_token() {
    let f = sample();
    let r = f.search("wind");
    assert_eq!(names(&r), vec!["wind_speed"]);
    let again = r.search("wind");
    assert_eq!(names(&again), names(&r));
}

#[test]
fn search_results_are_sorted_by_name() {
    let f = sample();
    let r = f.search("temperature");
    let got = names(&r);
    let mut sorted = got.clone();
    sorted.sort();
    assert_eq!(got, sorted);
    assert!(got.contains(&"sea_water_temperature".to_string()));
}

#[test]
fn select_positions_picks_and_sorts() {
    let f = sample();
    let r = f.select_positions(&vec![3, 0, 3]);
    assert_eq!(names(&r), vec!["air_temperature", "wind_speed"]);
}

#[test]
fn display_short_with_and_without_long_name() {
    let f = sample();
    assert_eq!(f.standards[0].display_short(), "wind_speed - m s-1");
    assert_eq!(f.standards[1].display_short(), "sea_water_temperature - Water Temperature - K");
    let mut s = standard("x", "1");
    s.long_name = Some(String::new());
    assert_eq!(s.display_short(), "x - 1");
}

#[test]
fn xarray_attrs_omit_empty_values_and_sort() {
    let mut s = standard("sea_water_temperature", "");
    s.long_name = Some("Water Temperature".to_string());
    s.ioos_category = Some(String::new());
    s.extra_attrs = vec![
        ("empty".to_string(), String::new()),
        ("units".to_string(), "degC".to_string()),
    ];
    let attrs = s.xarray_attrs();
    assert_eq!(
        attrs,
        vec![
            ("long_name".to_string(), "Water Temperature".to_string()),
            ("standard_name".to_string(), "sea_water_temperature".to_string()),
            ("units".to_string(), "degC".to_string()),
        ]
    );
    assert!(attrs.iter().all(|(_, v)| !v.is_empty()));
}

#[test]
fn display_xarray_attrs_block() {
    let s = standard("air_temperature", "K");
    assert_eq!(
        s.display_xarray_attrs(),
        "{\n  \"standard_name\": \"air_temperature\",\n  \"units\": \"K\",\n}"
    );
}

#[test]
fn display_all_lists_non_empty_fields() {
    let mut s = standard("air_temperature", "K");
    s.description = "Bulk temperature".to_string();
    s.aliases = vec!["a1".to_string(), "a2".to_string()];
    s.ioos_category = Some(String::new());
    s.comments = Some("Note".to_string());
    s.other_units = vec!["degC".to_string()];
    assert_eq!(
        s.display_all(),
        "air_temperature - K\n  Aliases: a1, a2\n  Other units: degC\n\nBulk temperature\n\nComments: Note"
    );
}

#[test]
fn display_all_lists_suites_and_extra_attributes() {
    let mut s = standard("air_temperature", "K");
    s.extra_attrs = vec![("source".to_string(), "model".to_string())];
    s.qartod = vec![TestSuite::Static(StaticQcTestSuite {
        slug: "basic".to_string(),
        qc: StaticQc {
            name: "Basic".to_string(),
            summary: "Basic checks".to_string(),
            description: "d".to_string(),
            tests: ConfigStream { qartod: ConfigStreamQartod {
                gross_range_test: None,
                location_test: None,
                rate_of_change_test: Some(RateOfChange { threshold: 5 }),
                spike_test: None,
                flat_line_test: None,
            } },
        },
    })];
    assert_eq!(
        s.display_all(),
        "air_temperature - K\n  Extra attributes:\n {\n  \"source\": \"model\",\n  \"standard_name\": \"air_temperature\",\n  \"units\": \"K\",\n}\n\nQARTOD Test Suites:\n- Basic (basic): Basic checks\n\n"
    );
}

#[test]
fn matches_pattern_is_case_insensitive_substring() {
    let f = sample();
    assert!(f.standards[0].matches_pattern("SPEED"));
    assert!(f.standards[0].matches_pattern("kno"));
    assert!(!f.standards[0].matches_pattern("temperature"));
    assert!(f.standards[1].matches_pattern("water tem"));
}

#[test]
fn search_strings_skip_empty_texts() {
    let mut s = standard("x", "");
    s.long_name = Some(String::new());
    s.aliases = vec![String::new(), "y".to_string()];
    assert_eq!(s.search_strings(), vec!["x".to_string(), "y".to_string()]);
}

#[test]
fn filters_keep_equal_names_in_order() {
    let mut first = standard("same", "K");
    first.description = "first".to_string();
    let mut second = standard("same", "degC");
    second.other_units = vec!["K".to_string()];
    second.description = "second".to_string();
    let f = StandardsFilter { standards: vec![standard("zeta", "K"), first, second, standard("alpha", "K")] };
    let r = f.by_unit("K");
    let got: Vec<(String, String)> = r.standards.iter().map(|s| (s.name.clone(), s.description.clone())).collect();
    assert_eq!(
        got,
        vec![
            ("alpha".to_string(), String::new()),
            ("same".to_string(), "first".to_string()),
            ("same".to_string(), "second".to_string()),
            ("zeta".to_string(), String::new()),
        ]
    );
}
