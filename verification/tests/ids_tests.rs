use hyperion::ids::{classify_object, names_satellite_type, parse_api_id};

#[test]
fn satellite_id_with_name_segment() {
    assert_eq!(parse_api_id("SAT-Alpha-04"), (4, true));
}

#[test]
fn debris_id() {
    assert_eq!(parse_api_id("DEB-99421"), (99421, false));
}

#[test]
fn non_numeric_tail_gives_zero() {
    assert_eq!(parse_api_id("SAT-Alpha"), (0, true));
    assert_eq!(parse_api_id("SAT-4x"), (0, true));
    assert_eq!(parse_api_id("SAT-"), (0, true));
}

#[test]
fn no_dash_parses_whole_string() {
    assert_eq!(parse_api_id("123"), (123, false));
    assert_eq!(parse_api_id(""), (0, false));
}

#[test]
fn plus_sign_accepted_once() {
    assert_eq!(parse_api_id("DEB-+7"), (7, false));
    assert_eq!(parse_api_id("DEB-+"), (0, false));
    assert_eq!(parse_api_id("DEB-++7"), (0, false));
}

#[test]
fn u32_overflow_gives_zero() {
    assert_eq!(parse_api_id("DEB-4294967295"), (4294967295, false));
    assert_eq!(parse_api_id("DEB-4294967296"), (0, false));
    assert_eq!(parse_api_id("DEB-99999999999999999999"), (0, false));
}

#[test]
fn prefix_is_case_sensitive() {
    assert_eq!(parse_api_id("sat-5"), (5, false));
    assert_eq!(parse_api_id("SATURN-5"), (5, true));
    assert_eq!(parse_api_id("SA-5"), (5, false));
}

#[test]
fn non_ascii_digits_rejected() {
    assert_eq!(parse_api_id("DEB-٣"), (0, false));
    assert_eq!(parse_api_id("DEB-é1"), (0, false));
}

#[test]
fn satellite_type_ignores_ascii_case() {
    assert!(names_satellite_type("SATELLITE"));
    assert!(names_satellite_type("satellite"));
    assert!(names_satellite_type("SaTeLlItE"));
    assert!(!names_satellite_type("DEBRIS"));
    assert!(!names_satellite_type("SATELLITES"));
    assert!(!names_satellite_type("SATELLİTE"));
    assert!(!names_satellite_type(""));
}

#[test]
fn type_or_prefix_marks_satellite() {
    assert_eq!(classify_object("OBJ-12", "Satellite"), (12, true));
    assert_eq!(classify_object("SAT-Beta-3", "DEBRIS"), (3, true));
    assert_eq!(classify_object("DEB-3", "DEBRIS"), (3, false));
}
