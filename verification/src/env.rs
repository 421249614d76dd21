//! Option strings of the build environment and the description of an
//! installed package.

use vstd::prelude::*;
use vstd::string::{StrSliceExecFns, StringExecFns};

use crate::chars::{chars_of, find_last_char_before, last_index};
use crate::error::{Component, Error};
use crate::name::{name_valid, Name};
use crate::system::{arch_of, arch_text, Architecture};
use crate::version::{spec_parse_version, Version, VersionModel};

verus! {

/// Whether a character counts as alphanumeric under Unicode; named for
/// what `char::is_alphanumeric` returns, which depends on the character
/// alone.
pub uninterp spec fn unicode_alphanumeric(c: char) -> bool;

/// Relies on `char::is_alphanumeric`: a pure classification of the
/// character against the Unicode tables.
pub assume_specification[ char::is_alphanumeric ](c: char) -> (r: bool)
    ensures
        r == unicode_alphanumeric(c),
;

/// True of the characters an option name may hold: anything alphanumeric,
/// and `-`, `.`, `_`.
pub open spec fn is_option_char(c: char) -> bool {
    unicode_alphanumeric(c) || c == '-' || c == '.' || c == '_'
}

/// Executable test for [`is_option_char`].
fn option_char(c: char) -> (r: bool)
    ensures
        r == is_option_char(c),
{
    c.is_alphanumeric() || c == '-' || c == '.' || c == '_'
}

/// The index of the first character of `s` outside the option-name class,
/// or `-1` when every character belongs to it.
pub open spec fn first_bad_option_char(s: Seq<char>) -> int
    decreases s.len(),
{
    if s.len() == 0 {
        -1
    } else if !is_option_char(s[0]) {
        0
    } else if first_bad_option_char(s.skip(1)) < 0 {
        -1
    } else {
        1 + first_bad_option_char(s.skip(1))
    }
}

/// What [`first_bad_option_char`] returns: the position of the first
/// character outside the class, with every earlier one inside it.
pub proof fn lemma_first_bad_option_char(s: Seq<char>)
    ensures
        first_bad_option_char(s) < 0 ==> forall|i: int| 0 <= i < s.len() ==> is_option_char(
            #[trigger] s[i],
        ),
        first_bad_option_char(s) >= 0 ==> first_bad_option_char(s) < s.len() && !is_option_char(
            s[first_bad_option_char(s)],
        ),
        first_bad_option_char(s) >= 0 ==> forall|i: int| 0 <= i < first_bad_option_char(s)
            ==> is_option_char(#[trigger] s[i]),
    decreases s.len(),
{
    if s.len() > 0 && is_option_char(s[0]) {
        lemma_first_bad_option_char(s.skip(1));
        assert forall|i: int| 1 <= i < s.len() implies s.skip(1)[i - 1] == s[i] by {}
    }
}

/// The mathematical value of a [`MakePkgOption`]: its name and whether it
/// is switched on.
pub struct MakePkgOptionModel {
    /// The option name, without the `!` prefix.
    pub name: Seq<char>,
    /// False exactly when the option was written with a `!` prefix.
    pub on: bool,
}

/// What parsing an option string yields: the text after an optional `!`
/// prefix as the name, switched off exactly when the prefix is there; a
/// name character outside the accepted class is rejected, and the first
/// such character is reported.
pub open spec fn spec_parse_option(s: Seq<char>) -> Result<MakePkgOptionModel, Error> {
    let off = s.len() > 0 && s[0] == '!';
    let name = if off {
        s.skip(1)
    } else {
        s
    };
    let f = first_bad_option_char(name);
    if f >= 0 {
        Err(Error::ValueContainsInvalidChars { invalid_char: name[f] })
    } else {
        Ok(MakePkgOptionModel { name, on: !off })
    }
}

/// The textual form of an option: its name, prefixed with `!` when it is
/// switched off.
pub open spec fn option_text(m: MakePkgOptionModel) -> Seq<char> {
    if m.on {
        m.name
    } else {
        seq!['!'] + m.name
    }
}

/// An option string: a name, switched on unless it is prefixed with `!`.
///
/// This type is used for `makepkg` options, build environment options and
/// package options alike.
#[derive(Debug, PartialEq, Eq)]
pub struct MakePkgOption {
    name: String,
    on: bool,
}

impl View for MakePkgOption {
    type V = MakePkgOptionModel;

    closed spec fn view(&self) -> MakePkgOptionModel {
        MakePkgOptionModel { name: self.name@, on: self.on }
    }
}

impl MakePkgOption {
    #[verifier::type_invariant]
    spec fn type_inv(self) -> bool {
        forall|i: int| 0 <= i < self.name@.len() ==> is_option_char(#[trigger] self.name@[i])
    }

    /// Parses an option string, as [`spec_parse_option`] names it.
    pub fn new(option: &str) -> (r: Result<Self, Error>)
        ensures
            (match (r, spec_parse_option(option@)) {
                (Ok(o), Ok(m)) => o@ == m,
                (Err(e), Err(m)) => e == m,
                _ => false,
            }),
    {
        let v = chars_of(option);
        let n = v.len();
        let start: usize = if n > 0 && v[0] == '!' {
            1
        } else {
            0
        };
        let ghost name = if start == 1 {
            option@.skip(1)
        } else {
            option@
        };
        let mut i: usize = start;
        while i < n
            invariant
                start <= i <= n,
                n == v@.len(),
                v@ == option@,
                start == 0 || start == 1,
                (start == 1) == (v@.len() > 0 && v@[0] == '!'),
                name == (if start == 1 {
                    option@.skip(1)
                } else {
                    option@
                }),
                forall|k: int| 0 <= k < i - start ==> is_option_char(#[trigger] name[k]),
            decreases n - i,
        {
            proof {
                assert(name[i - start] == v@[i as int]);
            }
            if !option_char(v[i]) {
                proof {
                    lemma_first_bad_option_char(name);
                }
                return Err(Error::ValueContainsInvalidChars { invalid_char: v[i] });
            }
            i = i + 1;
        }
        proof {
            lemma_first_bad_option_char(name);
        }
        let text = option.substring_char(start, n).to_owned();
        proof {
            assert(text@ =~= name);
        }
        Ok(MakePkgOption { name: text, on: start == 0 })
    }

    /// The textual form of the option: its name, prefixed with `!` when it
    /// is switched off.
    pub fn text(&self) -> (r: String)
        ensures
            r@ == option_text(self@),
    {
        let mut out = String::new();
        if !self.on {
            out.append("!");
        }
        out.append(self.name.as_str());
        proof {
            reveal_strlit("!");
            assert("!"@ =~= seq!['!']);
            assert(out@ =~= option_text(self@));
        }
        out
    }

    /// The name of the option.
    pub fn name(&self) -> (r: &str)
        ensures
            r@ == self@.name,
    {
        self.name.as_str()
    }

    /// Whether the option is switched on.
    pub fn on(&self) -> (r: bool)
        ensures
            r == self@.on,
    {
        self.on
    }
}

/// The mathematical value of an [`InstalledPackage`].
pub struct InstalledPackageModel {
    /// The package name.
    pub name: Seq<char>,
    /// The package version; it always carries a pkgrel.
    pub version: VersionModel,
    /// The architecture the package was built for.
    pub architecture: Architecture,
}

/// What parsing an installed-package string `name-version-pkgrel-arch`
/// yields. The text is split at its last three `-` delimiters, from the
/// right: architecture, pkgrel, epoch and pkgver, and the name takes the
/// remainder.
pub open spec fn spec_parse_installed(s: Seq<char>) -> Result<InstalledPackageModel, Error> {
    let a = last_index(s, '-');
    let arch_text = if a >= 0 {
        s.skip(a + 1)
    } else {
        s
    };
    match arch_of(arch_text) {
        None => Err(Error::InvalidArchitecture),
        Some(arch) => {
            if a < 0 {
                Err(Error::MissingComponent { component: Component::Pkgrel })
            } else {
                let b = last_index(s.take(a), '-');
                if b < 0 {
                    Err(Error::MissingComponent { component: Component::EpochPkgver })
                } else {
                    let c = last_index(s.take(b), '-');
                    if c < 0 {
                        Err(Error::MissingComponent { component: Component::Name })
                    } else {
                        let name_text = s.take(c);
                        if !name_valid(name_text) {
                            Err(Error::InvalidName)
                        } else {
                            match spec_parse_version(s.subrange(c + 1, a)) {
                                Err(e) => Err(e),
                                Ok(m) => {
                                    if m.pkgrel is None {
                                        Err(
                                            Error::MissingComponent {
                                                component: Component::Pkgrel,
                                            },
                                        )
                                    } else {
                                        Ok(
                                            InstalledPackageModel {
                                                name: name_text,
                                                version: m,
                                                architecture: arch,
                                            },
                                        )
                                    }
                                },
                            }
                        }
                    }
                }
            }
        },
    }
}

/// The textual form of an installed package:
/// `name-epoch:pkgver-pkgrel-architecture`.
pub open spec fn installed_text(m: InstalledPackageModel) -> Seq<char> {
    m.name + seq!['-'] + crate::version::version_text_of(m.version) + seq!['-'] + arch_text(
        m.architecture,
    )
}

/// A package installed in an environment: its name, its version (which
/// always carries a pkgrel) and its architecture.
#[derive(Debug)]
pub struct InstalledPackage {
    name: Name,
    version: Version,
    architecture: Architecture,
}

impl View for InstalledPackage {
    type V = InstalledPackageModel;

    closed spec fn view(&self) -> InstalledPackageModel {
        InstalledPackageModel {
            name: self.name@,
            version: self.version@,
            architecture: self.architecture,
        }
    }
}

impl InstalledPackage {
    #[verifier::type_invariant]
    spec fn type_inv(self) -> bool {
        self.version@.pkgrel is Some
    }

    /// Parses an installed-package string, as [`spec_parse_installed`]
    /// names it.
    #[verifier::rlimit(50)]
    pub fn new(installed: &str) -> (r: Result<Self, Error>)
        ensures
            (match (r, spec_parse_installed(installed@)) {
                (Ok(p), Ok(m)) => p@ == m,
                (Err(e), Err(m)) => e == m,
                _ => false,
            }),
    {
        let v = chars_of(installed);
        let n = v.len();
        proof {
            assert(v@.take(n as int) =~= installed@);
        }
        let a = find_last_char_before(&v, n, '-');
        let architecture = match a {
            Some(i) => {
                proof {
                    assert(installed@.skip(i + 1) =~= v@.subrange((i + 1) as int, n as int));
                }
                match Architecture::new(installed.substring_char(i + 1, n)) {
                    Ok(x) => x,
                    Err(e) => {
                        return Err(e);
                    },
                }
            },
            None => {
                match Architecture::new(installed) {
                    Ok(x) => x,
                    Err(e) => {
                        return Err(e);
                    },
                }
            },
        };
        let ai = match a {
            Some(i) => i,
            None => {
                return Err(Error::MissingComponent { component: Component::Pkgrel });
            },
        };
        let b = find_last_char_before(&v, ai, '-');
        let bi = match b {
            Some(i) => i,
            None => {
                return Err(Error::MissingComponent { component: Component::EpochPkgver });
            },
        };
        let c = find_last_char_before(&v, bi, '-');
        let ci = match c {
            Some(i) => i,
            None => {
                return Err(Error::MissingComponent { component: Component::Name });
            },
        };
        proof {
            assert(installed@.take(ci as int) =~= v@.subrange(0, ci as int));
        }
        let name = match Name::new(installed.substring_char(0, ci).to_owned()) {
            Ok(x) => x,
            Err(e) => {
                return Err(e);
            },
        };
        proof {
            assert(installed@.subrange((ci + 1) as int, ai as int) =~= v@.subrange(
                (ci + 1) as int,
                ai as int,
            ));
        }
        let version = match Version::with_pkgrel(installed.substring_char(ci + 1, ai)) {
            Ok(x) => x,
            Err(e) => {
                return Err(e);
            },
        };
        Ok(InstalledPackage { name, version, architecture })
    }

    /// The textual form `name-epoch:pkgver-pkgrel-architecture` of this
    /// installed package.
    pub fn text(&self) -> (r: String)
        ensures
            r@ == installed_text(self@),
    {
        let mut out = String::new();
        out.append(self.name.as_str());
        out.append("-");
        let version = self.version.text();
        out.append(version.as_str());
        out.append("-");
        out.append(self.architecture.name());
        proof {
            reveal_strlit("-");
            assert("-"@ =~= seq!['-']);
            assert(out@ =~= installed_text(self@));
        }
        out
    }

    /// The package name.
    pub fn name(&self) -> (r: &Name)
        ensures
            r@ == self@.name,
    {
        &self.name
    }

    /// The package version.
    pub fn version(&self) -> (r: &Version)
        ensures
            r@ == self@.version,
    {
        &self.version
    }

    /// The architecture the package was built for.
    pub fn architecture(&self) -> (r: Architecture)
        ensures
            r == self@.architecture,
    {
        self.architecture
    }
}

} // verus!
