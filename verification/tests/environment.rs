//! Option strings, package names, architectures and installed packages.

use alpm_types::Architecture;
use alpm_types::Component;
use alpm_types::Error;
use alpm_types::InstalledPackage;
use alpm_types::MakePkgOption;
use alpm_types::Name;

#[test]
fn option_without_prefix_is_on() {
    let option = MakePkgOption::new("foo").unwrap();
    assert_eq!(option.name(), "foo");
    assert!(option.on());
}

#[test]
fn option_with_prefix_is_off() {
    let option = MakePkgOption::new("!foo").unwrap();
    assert_eq!(option.name(), "foo");
    assert!(!option.on());
}

#[test]
fn option_names_may_hold_separators_and_digits() {
    let option = MakePkgOption::new("1cool.build-option").unwrap();
    assert_eq!(option.name(), "1cool.build-option");
    assert!(option.on());
}

#[test]
fn option_names_may_hold_unicode_alphanumerics() {
    let option = MakePkgOption::new("üñıçøĐë").unwrap();
    assert_eq!(option.name(), "üñıçøĐë");
    assert!(option.on());
    let negated = MakePkgOption::new("!üñıçøĐë").unwrap();
    assert_eq!(negated.name(), "üñıçøĐë");
    assert!(!negated.on());
}

#[test]
fn option_rejects_the_first_invalid_character() {
    assert_eq!(
        MakePkgOption::new("!!something"),
        Err(Error::ValueContainsInvalidChars { invalid_char: '!' })
    );
    assert_eq!(
        MakePkgOption::new("foo\\"),
        Err(Error::ValueContainsInvalidChars { invalid_char: '\\' })
    );
    assert_eq!(
        MakePkgOption::new("a b"),
        Err(Error::ValueContainsInvalidChars { invalid_char: ' ' })
    );
}

#[test]
fn option_text_restores_the_parsed_form() {
    assert_eq!(MakePkgOption::new("foo").unwrap().text(), "foo");
    assert_eq!(MakePkgOption::new("!foo").unwrap().text(), "!foo");
}

#[test]
fn architecture_names_round_trip() {
    assert_eq!(Architecture::Any.name(), "any");
    assert_eq!(Architecture::X86_64V2.name(), "x86_64_v2");
    assert_eq!(
        Architecture::new(Architecture::Riscv64.name()),
        Ok(Architecture::Riscv64)
    );
}

#[test]
fn installed_package_text_restores_the_parsed_form() {
    let p = InstalledPackage::new("foo-bar-1:1.0.0-1-any").unwrap();
    assert_eq!(p.text(), "foo-bar-1:1.0.0-1-any");
    let q = InstalledPackage::new("pkg-2.0-3-x86_64").unwrap();
    assert_eq!(q.text(), "pkg-2.0-3-x86_64");
}

#[test]
fn name_accepts_the_package_name_class() {
    assert_eq!(Name::new("foo-bar".to_string()).unwrap().as_str(), "foo-bar");
    assert_eq!(Name::new("gtk2+extra".to_string()).unwrap().as_str(), "gtk2+extra");
    assert_eq!(Name::new("@java".to_string()).unwrap().as_str(), "@java");
}

#[test]
fn name_rejects_bad_starts_and_characters() {
    assert_eq!(Name::new(String::new()), Err(Error::InvalidName));
    assert_eq!(Name::new("-x".to_string()), Err(Error::InvalidName));
    assert_eq!(Name::new(".x".to_string()), Err(Error::InvalidName));
    assert_eq!(Name::new("foo!".to_string()), Err(Error::InvalidName));
}

#[test]
fn architecture_parses_its_known_names() {
    assert_eq!(Architecture::new("any"), Ok(Architecture::Any));
    assert_eq!(Architecture::new("x86_64"), Ok(Architecture::X86_64));
    assert_eq!(Architecture::new("x86_64_v3"), Ok(Architecture::X86_64V3));
    assert_eq!(Architecture::new("aarch64"), Ok(Architecture::Aarch64));
    assert_eq!(Architecture::new("mips"), Err(Error::InvalidArchitecture));
    assert_eq!(Architecture::new(""), Err(Error::InvalidArchitecture));
}

#[test]
fn installed_package_parses_name_version_and_architecture() {
    let p = InstalledPackage::new("foo-bar-1:1.0.0-1-any").unwrap();
    assert_eq!(p.name().as_str(), "foo-bar");
    assert_eq!(p.architecture(), Architecture::Any);
    assert_eq!(p.version().epoch().unwrap().as_str(), "1");
    assert_eq!(p.version().pkgver().as_str(), "1.0.0");
    assert_eq!(p.version().pkgrel().unwrap().as_str(), "1");
}

#[test]
fn installed_package_needs_a_known_architecture() {
    assert_eq!(InstalledPackage::new("foo-bar-1:1.0.0-1").unwrap_err(), Error::InvalidArchitecture);
    assert_eq!(InstalledPackage::new("foo-1.0-1-sparc").unwrap_err(), Error::InvalidArchitecture);
}

#[test]
fn installed_package_reports_missing_components() {
    assert_eq!(InstalledPackage::new("any").unwrap_err(), Error::MissingComponent {
            component: Component::Pkgrel
        });
    assert_eq!(InstalledPackage::new("x-any").unwrap_err(), Error::MissingComponent {
            component: Component::EpochPkgver
        });
    assert_eq!(InstalledPackage::new("1:1.0.0-1-any").unwrap_err(), Error::MissingComponent {
            component: Component::Name
        });
}

#[test]
fn installed_package_validates_name_and_version() {
    assert_eq!(InstalledPackage::new(".foo-1.0-1-any").unwrap_err(), Error::InvalidName);
    assert_eq!(InstalledPackage::new("foo-bar-1:1.0.0-any").unwrap_err(), Error::InvalidEpoch);
    assert_eq!(InstalledPackage::new("foo--1-any").unwrap_err(), Error::EmptyVersion);
}
