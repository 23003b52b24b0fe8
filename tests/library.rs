use standard_knowledge::catalog::{aliases_by_standard_name, cf_standards, CfCatalog, CfStandard};
use standard_knowledge::filter::StandardsFilter;
use standard_knowledge::knowledge::{Knowledge, YamlKnowledge};
use standard_knowledge::library::StandardsLibrary;
use standard_knowledge::qartod::TestSuite;
use standard_knowledge::standard::Standard;

fn entry(name: &str, unit: &str, description: &str) -> (String, CfStandard) {
    (
        name.to_string(),
        CfStandard { description: description.to_string(), unit: unit.to_string() },
    )
}

fn catalog() -> CfCatalog {
    CfCatalog {
        aliases: vec![
            ("air_pressure_at_sea_level".to_string(), "air_pressure_at_mean_sea_level".to_string()),
            ("sea_surface_elevation".to_string(), "sea_surface_height_above_geopotential_datum".to_string()),
        ],
        standard_names: vec![
            entry("air_pressure_at_mean_sea_level", "Pa", "Air pressure at sea level is the quantity often abbreviated as MSLP or PMSL."),
            entry("air_temperature", "K", "Air temperature is the bulk temperature of the air."),
            entry("air_pressure", "Pa", "Air pressure is the force per unit area."),
            entry("sea_surface_height_above_geopotential_datum", "m", "Height of the sea surface above a datum."),
            entry("sea_water_temperature", "K", "Sea water temperature is the in situ temperature of the sea water."),
        ],
    }
}

fn loaded() -> StandardsLibrary {
    let mut library = StandardsLibrary::new();
    library.load_cf_standards(&catalog());
    library
}

fn knowledge(name: &str) -> Knowledge {
    Knowledge::named(name.to_string())
}

#[test]
fn load_cf_standards() {
    let standards = cf_standards(&catalog());
    let pressure = standards
        .iter()
        .find(|s| s.name == "air_pressure_at_mean_sea_level")
        .unwrap()
        .clone();
    assert_eq!(pressure.name, "air_pressure_at_mean_sea_level");

    println!("Name is correct");

    assert!(
        pressure.aliases.contains(&"air_pressure_at_sea_level".to_string()),
        "The standard `air_pressure_at_mean_sea_level` should contain the alias `air_pressure_at_sea_level`"
    )
}

#[test]
fn standards_library_can_load_standards() {
    let mut library = StandardsLibrary::new();
    library.load_cf_standards(&catalog());
}

#[test]
fn standards_library_can_get_standard() {
    let library = loaded();
    let pressure = library.get("air_pressure_at_mean_sea_level").unwrap();
    assert_eq!(pressure.name, "air_pressure_at_mean_sea_level");
}

#[test]
fn standards_library_can_get_standard_by_alias() {
    let library = loaded();
    let pressure = library.get("air_pressure_at_sea_level").unwrap();
    assert_eq!(pressure.name, "air_pressure_at_mean_sea_level");
}

#[test]
fn can_apply_knowledge() {
    let mut library = loaded();
    let pressure = library.get("air_pressure_at_mean_sea_level").unwrap();
    assert_eq!(pressure.name, "air_pressure_at_mean_sea_level");
    assert_eq!(pressure.long_name, None);

    let mut know = knowledge("air_pressure_at_mean_sea_level");
    know.long_name = Some("Air Pressure at Sea Level".to_string());

    library.apply_knowledge(vec![know]);

    let updated_pressure = library.get("air_pressure_at_mean_sea_level").unwrap();
    assert_eq!(updated_pressure.name, "air_pressure_at_mean_sea_level");
    assert_eq!(updated_pressure.long_name.as_ref().unwrap(), "Air Pressure at Sea Level");

    assert_ne!(pressure.long_name, updated_pressure.long_name);
}

#[test]
fn can_find_by_variable_name() {
    let mut library = loaded();
    let mut know = knowledge("air_pressure_at_mean_sea_level");
    know.long_name = Some("Air Pressure at Sea Level".to_string());
    know.common_variable_names = vec!["pressure".to_string()];

    library.apply_knowledge(vec![know]);

    let filtered = library.filter().by_variable_name("pressure");
    let pressure = &filtered.standards[0];
    assert_eq!(pressure.name, "air_pressure_at_mean_sea_level");
}

#[test]
fn unknown_name_is_not_found() {
    let library = loaded();
    let err = library.get("not_a_standard").unwrap_err();
    assert_eq!(err.message(), "Unknown Standard");
}

#[test]
fn get_is_case_sensitive() {
    let library = loaded();
    assert!(library.get("Air_Temperature").is_err());
    assert!(library.get("air_temperature").is_ok());
}

#[test]
fn alias_and_name_find_the_same_standard() {
    let library = loaded();
    for name in ["air_pressure_at_mean_sea_level", "sea_surface_height_above_geopotential_datum"] {
        let by_name = library.get(name).unwrap();
        for alias in &by_name.aliases {
            let by_alias = library.get(alias).unwrap();
            assert_eq!(by_alias.name, by_name.name);
        }
    }
}

#[test]
fn unknown_knowledge_changes_nothing() {
    let mut library = loaded();
    let before: Vec<String> = library.standards.iter().map(|s| s.display_short()).collect();
    let mut know = knowledge("no_such_standard");
    know.long_name = Some("Nothing".to_string());
    know.common_variable_names = vec!["x".to_string()];
    library.apply_knowledge(vec![know]);
    let after: Vec<String> = library.standards.iter().map(|s| s.display_short()).collect();
    assert_eq!(before, after);
    assert!(library.standards.iter().all(|s| s.common_variable_names.is_empty()));
}

#[test]
fn knowledge_keeps_canonical_fields_and_merges_overlay() {
    let mut library = loaded();
    let mut know = knowledge("air_temperature");
    know.long_name = Some("Air Temperature".to_string());
    know.ioos_category = Some("Meteorology".to_string());
    know.common_variable_names = vec!["air_temp".to_string()];
    know.related_standards = vec!["sea_water_temperature".to_string()];
    know.sibling_standards = vec!["air_pressure".to_string()];
    know.other_units = vec!["degC".to_string()];
    know.extra_attrs = vec![("coverage_content_type".to_string(), "physicalMeasurement".to_string())];
    know.comments = Some("Often in Celsius".to_string());
    library.apply_knowledge(vec![know]);
    let t = library.get("air_temperature").unwrap();
    assert_eq!(t.name, "air_temperature");
    assert_eq!(t.unit, "K");
    assert_eq!(t.description, "Air temperature is the bulk temperature of the air.");
    assert!(t.aliases.is_empty());
    assert_eq!(t.long_name.as_deref(), Some("Air Temperature"));
    assert_eq!(t.ioos_category.as_deref(), Some("Meteorology"));
    assert_eq!(t.common_variable_names, vec!["air_temp".to_string()]);
    assert_eq!(t.related_standards, vec!["sea_water_temperature".to_string()]);
    assert_eq!(t.sibling_standards, vec!["air_pressure".to_string()]);
    assert_eq!(t.other_units, vec!["degC".to_string()]);
    assert_eq!(t.comments.as_deref(), Some("Often in Celsius"));
    assert_eq!(
        t.extra_attrs,
        vec![("coverage_content_type".to_string(), "physicalMeasurement".to_string())]
    );
}

#[test]
fn applying_twice_appends_lists_and_replaces_other_units() {
    let mut library = loaded();
    let mut know = knowledge("air_temperature");
    know.common_variable_names = vec!["temp".to_string()];
    know.other_units = vec!["degC".to_string()];
    library.apply_knowledge(vec![know]);
    let mut again = knowledge("air_temperature");
    again.common_variable_names = vec!["temp".to_string()];
    again.other_units = vec!["degC".to_string()];
    library.apply_knowledge(vec![again]);
    let t = library.get("air_temperature").unwrap();
    assert_eq!(t.common_variable_names, vec!["temp".to_string(), "temp".to_string()]);
    assert_eq!(t.other_units, vec!["degC".to_string()]);
}

#[test]
fn applying_scalar_knowledge_twice_is_idempotent() {
    let mut library = loaded();
    let make = || {
        let mut know = knowledge("air_pressure");
        know.long_name = Some("Air Pressure".to_string());
        know.ioos_category = Some("Pressure".to_string());
        know.other_units = vec!["hPa".to_string()];
        know.extra_attrs = vec![("units_metadata".to_string(), "none".to_string())];
        know
    };
    library.apply_knowledge(vec![make()]);
    let once = library.get("air_pressure").unwrap();
    library.apply_knowledge(vec![make()]);
    let twice = library.get("air_pressure").unwrap();
    assert_eq!(once.display_all(), twice.display_all());
    assert_eq!(once.extra_attrs, twice.extra_attrs);
    assert_eq!(once.other_units, twice.other_units);
}

#[test]
fn extra_attrs_are_upserted_in_key_order() {
    let mut library = loaded();
    let mut first = knowledge("air_pressure");
    first.extra_attrs = vec![("b".to_string(), "1".to_string()), ("d".to_string(), "2".to_string())];
    let mut second = knowledge("air_pressure");
    second.extra_attrs = vec![("a".to_string(), "3".to_string()), ("d".to_string(), "4".to_string())];
    library.apply_knowledge(vec![first, second]);
    let p = library.get("air_pressure").unwrap();
    assert_eq!(
        p.extra_attrs,
        vec![
            ("a".to_string(), "3".to_string()),
            ("b".to_string(), "1".to_string()),
            ("d".to_string(), "4".to_string()),
        ]
    );
}

#[test]
fn test_suites_replace_and_static_suites_append() {
    let mut library = loaded();
    library.load_test_suites();
    let ssh = library.get("sea_surface_height_above_geopotential_datum").unwrap();
    assert_eq!(ssh.qartod.len(), 2);
    assert!(matches!(ssh.qartod[0], TestSuite::GulfOfMaine));
    assert!(matches!(ssh.qartod[1], TestSuite::LongIslandSound));
    assert!(library.get("air_temperature").unwrap().qartod.is_empty());
    let with_qc = library.filter().has_qartod_tests();
    assert_eq!(with_qc.standards.len(), 1);
    assert_eq!(with_qc.standards[0].name, "sea_surface_height_above_geopotential_datum");
}

#[test]
fn known_categories_are_distinct_and_non_empty() {
    let mut library = loaded();
    let mut a = knowledge("air_temperature");
    a.ioos_category = Some("Meteorology".to_string());
    let mut b = knowledge("air_pressure");
    b.ioos_category = Some("Meteorology".to_string());
    let mut c = knowledge("sea_water_temperature");
    c.ioos_category = Some("Temperature".to_string());
    let mut d = knowledge("air_pressure_at_mean_sea_level");
    d.ioos_category = Some(String::new());
    library.apply_knowledge(vec![a, b, c, d]);
    let mut cats = library.known_ioos_categories();
    cats.sort();
    assert_eq!(cats, vec!["Meteorology".to_string(), "Temperature".to_string()]);
}

#[test]
fn clashing_alias_is_refused() {
    let mut library = loaded();
    let clash = Standard {
        name: "new_standard".to_string(),
        long_name: None,
        unit: "1".to_string(),
        description: String::new(),
        aliases: vec!["air_pressure_at_sea_level".to_string()],
        ioos_category: None,
        common_variable_names: Vec::new(),
        related_standards: Vec::new(),
        sibling_standards: Vec::new(),
        extra_attrs: Vec::new(),
        other_units: Vec::new(),
        comments: None,
        qartod: Vec::new(),
    };
    let count = library.standards.len();
    assert!(!library.insert_standard(clash));
    assert_eq!(library.standards.len(), count);
}

#[test]
fn aliases_grouped_by_standard_name() {
    let groups = aliases_by_standard_name(&catalog());
    assert_eq!(groups.len(), 2);
    assert_eq!(groups[0].0, "air_pressure_at_mean_sea_level");
    assert_eq!(groups[0].1, vec!["air_pressure_at_sea_level".to_string()]);
    assert_eq!(groups[1].0, "sea_surface_height_above_geopotential_datum");
}

#[test]
fn yaml_knowledge_takes_default_name() {
    let doc = YamlKnowledge {
        name: None,
        long_name: Some("Test Air Temperature".to_string()),
        ioos_category: Some("Test".to_string()),
        common_variable_names: Some(vec!["test_temp".to_string()]),
        related_standards: None,
        sibling_standards: None,
        extra_attrs: Some(vec![("z".to_string(), "1".to_string()), ("a".to_string(), "2".to_string()), ("z".to_string(), "3".to_string())]),
        other_units: Some(vec!["F".to_string()]),
        comments: Some("Test knowledge file".to_string()),
        qc: None,
    };
    let k = doc.into_knowledge("air_temperature");
    assert_eq!(k.name, "air_temperature");
    assert_eq!(k.common_variable_names, vec!["test_temp".to_string()]);
    assert!(k.related_standards.is_empty());
    assert_eq!(k.extra_attrs, vec![("a".to_string(), "2".to_string()), ("z".to_string(), "3".to_string())]);
    let mut library = loaded();
    library.apply_knowledge(vec![k]);
    let t = library.get("air_temperature").unwrap();
    assert_eq!(t.long_name.as_deref(), Some("Test Air Temperature"));
    assert_eq!(t.ioos_category.as_deref(), Some("Test"));
    assert!(t.common_variable_names.contains(&"test_temp".to_string()));
    assert_eq!(t.comments.as_deref(), Some("Test knowledge file"));
}

#[test]
fn filter_get_by_alias() {
    let library = loaded();
    let filter: StandardsFilter = library.filter();
    assert_eq!(filter.get("sea_surface_elevation").unwrap().name, "sea_surface_height_above_geopotential_datum");
    assert!(filter.get("nothing").is_err());
}

#[test]
fn overlay_then_lookup_by_variable_name_ignoring_case() {
    let mut library = loaded();
    let mut know = knowledge("air_pressure_at_mean_sea_level");
    know.long_name = Some("Air Pressure at Sea Level".to_string());
    know.common_variable_names = vec!["pressure".to_string()];
    library.apply_knowledge(vec![know]);
    assert_eq!(
        library.get("air_pressure_at_mean_sea_level").unwrap().long_name.as_deref(),
        Some("Air Pressure at Sea Level")
    );
    let filtered = library.filter().by_variable_name("Pressure");
    assert_eq!(filtered.standards[0].name, "air_pressure_at_mean_sea_level");
}
