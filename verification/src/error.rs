//! The error type shared by every fallible parser of this crate.

use vstd::prelude::*;

verus! {

/// A component of a composite input string, named in errors when it is
/// missing.
#[derive(Clone, Copy, Debug, PartialEq, Eq, Structural)]
pub enum Component {
    /// The package name of an installed-package string.
    Name,
    /// The `epoch:pkgver` part of an installed-package string.
    EpochPkgver,
    /// The package release.
    Pkgrel,
    /// The architecture of an installed-package string.
    Architecture,
}

/// The error that can occur when parsing the types of this crate.
///
/// Every parse failure is reported synchronously as one of these kinds;
/// no malformed input is ever coerced to a default value.
#[derive(Clone, Copy, Debug, PartialEq, Eq, Structural)]
pub enum Error {
    /// A version string, or its `pkgver` part, is empty.
    EmptyVersion,
    /// A `:` delimiter is present but the text before it is empty or not
    /// all decimal digits.
    InvalidEpoch,
    /// A `-` delimiter is present but the `pkgrel` text after it is empty.
    InvalidPkgrel,
    /// A character outside the accepted class appears in the `pkgver` or
    /// `pkgrel` part of a version string. `position` is the index of the
    /// character, counted in characters from the start of the text handed
    /// to the parser.
    InvalidCharacter { position: usize, character: char },
    /// A requirement string starts with none of the five comparator tokens.
    UnknownComparator,
    /// A requirement string holds a comparator token but no version text
    /// after it.
    MissingVersion,
    /// An option string holds a character that is neither alphanumeric nor
    /// one of `-`, `.`, `_`. Carries the first such character.
    ValueContainsInvalidChars { invalid_char: char },
    /// A composite string is missing one of its components.
    MissingComponent { component: Component },
    /// A package name is empty or holds a character outside its accepted
    /// class.
    InvalidName,
    /// An architecture string names no known architecture.
    InvalidArchitecture,
}

} // verus!
