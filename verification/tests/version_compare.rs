//! Ordering behaviour of the segment tokenizer and the version comparators.

use std::cmp::Ordering;

use alpm_types::compare_versions;
use alpm_types::order::{compare_digits, compare_letters, compare_segment};
use alpm_types::parse_version;
use alpm_types::segment::{tokenize, Segment};
use alpm_types::PackageVersion;

fn pkgver_cmp(a: &str, b: &str) -> Ordering {
    let a = PackageVersion::new(a).unwrap();
    let b = PackageVersion::new(b).unwrap();
    a.compare(&b)
}

fn version_cmp(a: &str, b: &str) -> Ordering {
    let a = parse_version(a).unwrap();
    let b = parse_version(b).unwrap();
    compare_versions(&a, &b)
}

#[test]
fn tokenize_splits_on_separators_and_class_changes() {
    assert_eq!(
        tokenize("1.0a12"),
        vec![
            Segment::Digits(vec!['1']),
            Segment::Digits(vec!['0']),
            Segment::Letters(vec!['a']),
            Segment::Digits(vec!['1', '2']),
        ]
    );
}

#[test]
fn tokenize_collapses_separator_runs() {
    assert_eq!(
        tokenize("1.._0"),
        vec![Segment::Digits(vec!['1']), Segment::Digits(vec!['0'])]
    );
    assert_eq!(tokenize(""), vec![]);
    assert_eq!(tokenize("._"), vec![]);
    assert_eq!(
        tokenize("_ab2"),
        vec![Segment::Letters(vec!['a', 'b']), Segment::Digits(vec!['2'])]
    );
}

#[test]
fn digit_runs_compare_by_value_after_zero_stripping() {
    assert_eq!(
        compare_digits(&vec!['0', '0', '7'], &vec!['7']),
        Ordering::Equal
    );
    assert_eq!(compare_digits(&vec!['1', '2'], &vec!['9']), Ordering::Greater);
    assert_eq!(compare_digits(&vec![], &vec!['0']), Ordering::Equal);
}

#[test]
fn letter_runs_compare_lexicographically() {
    assert_eq!(compare_letters(&vec!['a', 'b'], &vec!['a', 'c']), Ordering::Less);
    assert_eq!(compare_letters(&vec!['a'], &vec!['a', 'a']), Ordering::Less);
    assert_eq!(compare_letters(&vec!['b'], &vec!['a', 'z']), Ordering::Greater);
}

#[test]
fn a_numeric_segment_beats_an_alphabetic_one() {
    assert_eq!(
        compare_segment(&Segment::Digits(vec!['0']), &Segment::Letters(vec!['z'])),
        Ordering::Greater
    );
    assert_eq!(
        compare_segment(&Segment::Letters(vec!['z']), &Segment::Digits(vec!['0'])),
        Ordering::Less
    );
}

#[test]
fn compare_is_reflexive_on_examples() {
    assert_eq!(pkgver_cmp("1.0", "1.0"), Ordering::Equal);
    assert_eq!(pkgver_cmp("20220102", "20220102"), Ordering::Equal);
    assert_eq!(version_cmp("1:1.0-1", "1:1.0-1"), Ordering::Equal);
}

#[test]
fn compare_is_antisymmetric_on_examples() {
    assert_eq!(pkgver_cmp("1.0", "1.1"), Ordering::Less);
    assert_eq!(pkgver_cmp("1.1", "1.0"), Ordering::Greater);
}

#[test]
fn compare_is_transitive_on_examples() {
    assert_eq!(pkgver_cmp("1.0", "1.0.1"), Ordering::Less);
    assert_eq!(pkgver_cmp("1.0.1", "1.1"), Ordering::Less);
    assert_eq!(pkgver_cmp("1.0", "1.1"), Ordering::Less);
}

#[test]
fn numeric_beats_alphabetic() {
    assert_eq!(pkgver_cmp("1.0", "1.0a"), Ordering::Greater);
    assert_eq!(pkgver_cmp("1.0a", "1.0"), Ordering::Less);
    assert_eq!(pkgver_cmp("1.0b", "1.00"), Ordering::Less);
}

#[test]
fn truncation_loses_to_numeric_continuation() {
    assert_eq!(pkgver_cmp("1.0", "1.0.1"), Ordering::Less);
    assert_eq!(pkgver_cmp("1.0.1", "1.0"), Ordering::Greater);
}

#[test]
fn separators_are_interchangeable() {
    assert_eq!(pkgver_cmp("1_0", "1.0"), Ordering::Equal);
    assert_eq!(pkgver_cmp("1..0", "1.0"), Ordering::Equal);
    assert_eq!(pkgver_cmp("1_0_a", "1.0a"), Ordering::Equal);
}

#[test]
fn leading_zeros_carry_no_weight() {
    assert_eq!(pkgver_cmp("1.01", "1.1"), Ordering::Equal);
    assert_eq!(pkgver_cmp("0", "00"), Ordering::Equal);
    assert_eq!(pkgver_cmp("1.002", "1.1"), Ordering::Greater);
}

#[test]
fn numeric_segments_compare_by_value() {
    assert_eq!(pkgver_cmp("10", "9"), Ordering::Greater);
    assert_eq!(pkgver_cmp("1.10", "1.9"), Ordering::Greater);
    assert_eq!(pkgver_cmp("2", "10"), Ordering::Less);
}

#[test]
fn numeric_segments_have_no_size_limit() {
    assert_eq!(
        pkgver_cmp("18446744073709551616", "18446744073709551615"),
        Ordering::Greater
    );
    assert_eq!(
        pkgver_cmp("340282366920938463463374607431768211456", "99"),
        Ordering::Greater
    );
}

#[test]
fn alphabetic_segments_compare_lexicographically() {
    assert_eq!(pkgver_cmp("alpha", "beta"), Ordering::Less);
    assert_eq!(pkgver_cmp("1.0rc", "1.0rd"), Ordering::Less);
    assert_eq!(pkgver_cmp("ab", "abc"), Ordering::Less);
    assert_eq!(pkgver_cmp("B", "a"), Ordering::Less);
}

#[test]
fn epoch_dominates_pkgver_and_pkgrel() {
    assert_eq!(version_cmp("1:1.0-1", "2.0-1"), Ordering::Greater);
    assert_eq!(version_cmp("1:0.1-1", "9999.9-99"), Ordering::Greater);
    assert_eq!(version_cmp("1:1.0", "2:0.1"), Ordering::Less);
}

#[test]
fn absent_epoch_counts_as_zero() {
    assert_eq!(version_cmp("0:1.0", "1.0"), Ordering::Equal);
    assert_eq!(version_cmp("00:1.0", "1.0"), Ordering::Equal);
    assert_eq!(version_cmp("10:1", "9:1"), Ordering::Greater);
}

#[test]
fn absent_pkgrel_is_ignored() {
    assert_eq!(version_cmp("1.0", "1.0-2"), Ordering::Equal);
    assert_eq!(version_cmp("1.0-2", "1.0"), Ordering::Equal);
    assert_eq!(version_cmp("1.0-1", "1.0-2"), Ordering::Less);
    assert_eq!(version_cmp("1.0-2", "1.0-1"), Ordering::Greater);
}

#[test]
fn pkgrel_comparison_uses_the_segment_algorithm() {
    assert_eq!(version_cmp("1.0-1.2", "1.0-1.10"), Ordering::Less);
    assert_eq!(version_cmp("1.0-01", "1.0-1"), Ordering::Equal);
}
