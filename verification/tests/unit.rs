use ottotom::unit::{get_prom_per_unit, get_prom_units, get_unit_suffixes};

#[test]
fn test_get_unit_suffixes() {
    let test_cases = vec![
        // Direct match
        ("g", Some(String::from("grams"))),
        // Per unit
        ("test/y", Some(String::from("per_year"))),
        ("1/y", Some(String::from("per_year"))),
        ("m/s", Some(String::from("meters_per_second"))),
        // No match
        ("invalid", None),
        ("invalid/invalid", None),
        ("seconds", None),
        ("", None),
        // annotations
        ("{request}", None),
    ];
    for (unit, expected_suffix) in test_cases {
        assert_eq!(get_unit_suffixes(unit), expected_suffix);
    }
}

#[test]
fn direct_unit_table_matches() {
    assert_eq!(get_prom_units("ms"), Some("milliseconds"));
    assert_eq!(get_prom_units("By"), Some("bytes"));
    assert_eq!(get_prom_units("B"), Some("bytes"));
    assert_eq!(get_prom_units("KiBy"), Some("kibibytes"));
    assert_eq!(get_prom_units("Cel"), Some("celsius"));
    assert_eq!(get_prom_units("1"), Some("ratio"));
    assert_eq!(get_prom_units("%"), Some("percent"));
    assert_eq!(get_prom_units("percent"), None);
}

#[test]
fn per_unit_table_matches() {
    assert_eq!(get_prom_per_unit("s"), Some("second"));
    assert_eq!(get_prom_per_unit("mo"), Some("month"));
    assert_eq!(get_prom_per_unit("y"), Some("year"));
    assert_eq!(get_prom_per_unit("x"), None);
}

#[test]
fn non_applicable_numerators_drop_to_per_form() {
    // "d" maps directly, but as a numerator over a per-unit it is dropped
    assert_eq!(get_unit_suffixes("d/y"), Some(String::from("per_year")));
    assert_eq!(get_unit_suffixes("/s"), Some(String::from("per_second")));
    assert_eq!(get_unit_suffixes("g/s"), Some(String::from("grams_per_second")));
}
