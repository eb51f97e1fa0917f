//! The locale-formatting strategy: parsing names and rendering values.
use aki_stats::OptLocaleLoc;

#[test]
fn test_display_c() {
    let loc = OptLocaleLoc::parse_loc("C").unwrap();
    assert_eq!(loc.name_string(), "C");
}

#[test]
fn test_display_en() {
    let loc = OptLocaleLoc::parse_loc("en").unwrap();
    assert_eq!(loc.name_string(), "en");
}

#[test]
fn test_display_fr() {
    let loc = OptLocaleLoc::parse_loc("fr").unwrap();
    assert_eq!(loc.name_string(), "fr");
}

#[test]
fn test_from_str_invalid() {
    match OptLocaleLoc::parse_loc("other") {
        Ok(_c) => unreachable!(),
        Err(e) => {
            assert_eq!(
                e.message(),
                "\'other\': Failed to parse other into a valid locale."
            );
        }
    }
}

#[test]
fn test_formatted_plain() {
    let loc = OptLocaleLoc::default();
    assert_eq!(loc.formatted_string(0), "0");
    assert_eq!(loc.formatted_string(1234567), "1234567");
    assert_eq!(loc.formatted_string(u64::MAX), "18446744073709551615");
}

#[test]
fn test_formatted_grouped() {
    let loc = OptLocaleLoc::parse_loc("en").unwrap();
    assert_eq!(loc.formatted_string(0), "0");
    assert_eq!(loc.formatted_string(1234567), "1,234,567");
}
