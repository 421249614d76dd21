//! Parsing of composite version strings and their component types.

use alpm_types::parse_version;
use alpm_types::Epoch;
use alpm_types::Error;
use alpm_types::PackageRelease;
use alpm_types::PackageVersion;
use alpm_types::Version;

#[test]
fn parse_plain_pkgver() {
    let v = parse_version("1.0.0").unwrap();
    assert!(v.epoch().is_none());
    assert_eq!(v.pkgver().as_str(), "1.0.0");
    assert!(v.pkgrel().is_none());
}

#[test]
fn parse_full_version() {
    let v = parse_version("1:2.3_4-5.6").unwrap();
    assert_eq!(v.epoch().unwrap().as_str(), "1");
    assert_eq!(v.pkgver().as_str(), "2.3_4");
    assert_eq!(v.pkgrel().unwrap().as_str(), "5.6");
}

#[test]
fn parse_splits_pkgrel_at_the_last_dash() {
    // A second dash lands inside the pkgver and is rejected there.
    assert_eq!(parse_version("1.0-1-2").unwrap_err(), Error::InvalidCharacter {
            position: 3,
            character: '-'
        });
}

#[test]
fn parse_splits_epoch_at_the_first_colon() {
    assert_eq!(parse_version("1:0:0").unwrap_err(), Error::InvalidCharacter {
            position: 3,
            character: ':'
        });
}

#[test]
fn empty_version_is_rejected() {
    assert_eq!(parse_version("").unwrap_err(), Error::EmptyVersion);
    assert_eq!(parse_version("-1").unwrap_err(), Error::EmptyVersion);
    assert_eq!(parse_version("1:-1").unwrap_err(), Error::EmptyVersion);
}

#[test]
fn malformed_epoch_is_rejected() {
    assert_eq!(parse_version(":1.0").unwrap_err(), Error::InvalidEpoch);
    assert_eq!(parse_version("a:1.0").unwrap_err(), Error::InvalidEpoch);
    assert_eq!(parse_version("1a:1.0").unwrap_err(), Error::InvalidEpoch);
    assert_eq!(parse_version(":").unwrap_err(), Error::InvalidEpoch);
}

#[test]
fn empty_pkgrel_is_rejected() {
    assert_eq!(parse_version("1.0-").unwrap_err(), Error::InvalidPkgrel);
    assert_eq!(parse_version("1:-").unwrap_err(), Error::InvalidPkgrel);
}

#[test]
fn invalid_characters_are_reported_with_their_position() {
    assert_eq!(parse_version("1.0$").unwrap_err(), Error::InvalidCharacter {
            position: 3,
            character: '$'
        });
    assert_eq!(parse_version(".x").unwrap_err(), Error::InvalidCharacter {
            position: 0,
            character: '.'
        });
    assert_eq!(parse_version("1:1.0-x$").unwrap_err(), Error::InvalidCharacter {
            position: 7,
            character: '$'
        });
    assert_eq!(parse_version("1.0-_1").unwrap_err(), Error::InvalidCharacter {
            position: 4,
            character: '_'
        });
}

#[test]
fn the_documented_rejections_use_distinct_kinds() {
    let kinds = [
        parse_version("").unwrap_err(),
        parse_version(":1.0").unwrap_err(),
        parse_version("1.0-").unwrap_err(),
        parse_version("1.0$").unwrap_err(),
    ];
    for (i, a) in kinds.iter().enumerate() {
        for b in kinds.iter().skip(i + 1) {
            assert_ne!(a, b);
        }
    }
}

#[test]
fn version_new_parses_like_parse_version() {
    let v = Version::new("3:1.2-1").unwrap();
    assert_eq!(v.epoch().unwrap().as_str(), "3");
    assert!(Version::new("1.0$").is_err());
}

#[test]
fn with_pkgrel_demands_a_pkgrel() {
    let v = Version::with_pkgrel("1.0-1").unwrap();
    assert_eq!(v.pkgrel().unwrap().as_str(), "1");
    assert!(Version::with_pkgrel("1.0").is_err());
    assert_eq!(Version::with_pkgrel("1.0-").unwrap_err(), Error::InvalidPkgrel);
}

#[test]
fn text_restores_the_parsed_form() {
    assert_eq!(parse_version("1:2.3_4-5.6").unwrap().text(), "1:2.3_4-5.6");
    assert_eq!(parse_version("1.0").unwrap().text(), "1.0");
    assert_eq!(parse_version("1.0-2").unwrap().text(), "1.0-2");
    assert_eq!(parse_version("0:1.0").unwrap().text(), "0:1.0");
}

#[test]
fn epoch_accepts_digit_runs_only() {
    assert_eq!(Epoch::new("42").unwrap().as_str(), "42");
    assert_eq!(Epoch::new("").unwrap_err(), Error::InvalidEpoch);
    assert_eq!(Epoch::new("4x2").unwrap_err(), Error::InvalidEpoch);
}

#[test]
fn package_version_validates_its_text() {
    assert_eq!(PackageVersion::new("1.0_a").unwrap().as_str(), "1.0_a");
    assert_eq!(PackageVersion::new("").unwrap_err(), Error::EmptyVersion);
    assert_eq!(PackageVersion::new("_1").unwrap_err(), Error::InvalidCharacter {
            position: 0,
            character: '_'
        });
    assert_eq!(PackageVersion::new("1-0").unwrap_err(), Error::InvalidCharacter {
            position: 1,
            character: '-'
        });
}

#[test]
fn package_release_validates_like_a_pkgver() {
    assert_eq!(PackageRelease::new("1.2").unwrap().as_str(), "1.2");
    assert_eq!(PackageRelease::new("").unwrap_err(), Error::EmptyVersion);
    assert_eq!(PackageRelease::new("1!").unwrap_err(), Error::InvalidCharacter {
            position: 1,
            character: '!'
        });
}
