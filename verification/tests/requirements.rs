//! Parsing and evaluation of version requirements.

use alpm_types::parse_requirement;
use alpm_types::parse_version;
use alpm_types::Error;
use alpm_types::VersionComparison;

fn satisfied(requirement: &str, candidate: &str) -> bool {
    let r = parse_requirement(requirement).unwrap();
    let c = parse_version(candidate).unwrap();
    r.is_satisfied_by(&c)
}

#[test]
fn comparators_parse_greedily() {
    assert_eq!(
        parse_requirement("<=1.0").unwrap().comparison(),
        VersionComparison::LessOrEqual
    );
    assert_eq!(
        parse_requirement(">=1.0").unwrap().comparison(),
        VersionComparison::GreaterOrEqual
    );
    assert_eq!(
        parse_requirement("<1.0").unwrap().comparison(),
        VersionComparison::Less
    );
    assert_eq!(
        parse_requirement(">1.0").unwrap().comparison(),
        VersionComparison::Greater
    );
    assert_eq!(
        parse_requirement("=1.0").unwrap().comparison(),
        VersionComparison::Equal
    );
}

#[test]
fn requirement_carries_its_version() {
    let r = parse_requirement(">=1.2-1").unwrap();
    assert_eq!(r.version().pkgver().as_str(), "1.2");
    assert_eq!(r.version().pkgrel().unwrap().as_str(), "1");
}

#[test]
fn unknown_comparators_are_rejected() {
    assert_eq!(parse_requirement("1.0").unwrap_err(), Error::UnknownComparator);
    assert_eq!(parse_requirement("").unwrap_err(), Error::UnknownComparator);
    assert_eq!(parse_requirement("~1.0").unwrap_err(), Error::UnknownComparator);
}

#[test]
fn missing_version_is_rejected() {
    assert_eq!(parse_requirement(">=").unwrap_err(), Error::MissingVersion);
    assert_eq!(parse_requirement("<").unwrap_err(), Error::MissingVersion);
}

#[test]
fn version_errors_pass_through() {
    assert_eq!(parse_requirement(">=:1.0").unwrap_err(), Error::InvalidEpoch);
    assert_eq!(parse_requirement("<1.0-").unwrap_err(), Error::InvalidPkgrel);
}

#[test]
fn greater_or_equal_accepts_greater_candidates() {
    assert!(satisfied(">=1.2-1", "1.3-1"));
    assert!(satisfied(">=1.2-1", "1.2-1"));
    assert!(!satisfied(">=1.2-1", "1.1-1"));
}

#[test]
fn less_is_strict() {
    assert!(!satisfied("<1.0", "1.0"));
    assert!(satisfied("<1.0", "0.9"));
    assert!(!satisfied("<1.0", "1.0.1"));
}

#[test]
fn equal_compares_pkgrel_when_both_sides_have_one() {
    // The requirement names pkgrel 1, the candidate pkgrel 2: both sides
    // carry a pkgrel, so the comparison proceeds to it and they differ.
    assert!(!satisfied("=1.0-1", "1.0-2"));
    assert!(satisfied("=1.0-1", "1.0-1"));
}

#[test]
fn equal_ignores_pkgrel_the_requirement_does_not_name() {
    assert!(satisfied("=1.0", "1.0-5"));
    assert!(satisfied("=1.0", "1.00"));
}

#[test]
fn epoch_counts_in_requirement_evaluation() {
    assert!(satisfied(">2.0", "1:0.1"));
    assert!(!satisfied("<=1.0", "1:0.5"));
}
