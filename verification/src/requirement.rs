//! Dependency version requirements: a comparator token (`<`, `<=`, `=`,
//! `>=`, `>`) followed by a composite version, and the predicate that
//! decides whether a candidate version satisfies the requirement.

use core::cmp::Ordering;

use vstd::prelude::*;

use crate::chars::chars_of;
use crate::error::Error;
use crate::version::{
    compare_versions,
    parse_version,
    spec_parse_version,
    version_cmp,
    Version,
    VersionModel,
};

verus! {

/// A comparison a requirement may demand between a candidate version and
/// the requirement's own version.
#[derive(Clone, Copy, Debug, PartialEq, Eq, Structural)]
pub enum VersionComparison {
    /// The candidate must order strictly below the required version.
    Less,
    /// The candidate must order below or equal to the required version.
    LessOrEqual,
    /// The candidate must order equal to the required version.
    Equal,
    /// The candidate must order above or equal to the required version.
    GreaterOrEqual,
    /// The candidate must order strictly above the required version.
    Greater,
}

/// The mathematical value of a [`VersionRequirement`].
pub struct RequirementModel {
    /// The comparator the requirement was written with.
    pub comparison: VersionComparison,
    /// The version the candidate is compared against.
    pub version: VersionModel,
}

/// A parsed version requirement: a comparator and a version.
#[derive(Debug)]
pub struct VersionRequirement {
    comparison: VersionComparison,
    version: Version,
}

impl View for VersionRequirement {
    type V = RequirementModel;

    closed spec fn view(&self) -> RequirementModel {
        RequirementModel { comparison: self.comparison, version: self.version@ }
    }
}

/// The comparator token at the start of a requirement string, with its
/// length. The two-character tokens are matched before the one-character
/// ones, so `<=` is never read as `<`.
pub open spec fn comparator_token(s: Seq<char>) -> Option<(VersionComparison, int)> {
    if s.len() >= 2 && s[0] == '<' && s[1] == '=' {
        Some((VersionComparison::LessOrEqual, 2))
    } else if s.len() >= 2 && s[0] == '>' && s[1] == '=' {
        Some((VersionComparison::GreaterOrEqual, 2))
    } else if s.len() >= 1 && s[0] == '<' {
        Some((VersionComparison::Less, 1))
    } else if s.len() >= 1 && s[0] == '>' {
        Some((VersionComparison::Greater, 1))
    } else if s.len() >= 1 && s[0] == '=' {
        Some((VersionComparison::Equal, 1))
    } else {
        None
    }
}

/// What parsing a requirement string yields: the comparator token and the
/// version after it, or the error for the first rule the text breaks. The
/// position of an [`Error::InvalidCharacter`] counts characters from the
/// start of the version text, after the comparator.
pub open spec fn spec_parse_requirement(s: Seq<char>) -> Result<RequirementModel, Error> {
    match comparator_token(s) {
        None => Err(Error::UnknownComparator),
        Some((comparison, k)) => {
            if s.len() == k {
                Err(Error::MissingVersion)
            } else {
                match spec_parse_version(s.skip(k)) {
                    Ok(m) => Ok(RequirementModel { comparison, version: m }),
                    Err(e) => Err(e),
                }
            }
        },
    }
}

/// Parses a requirement string `<comparator><version>`, returning exactly
/// what [`spec_parse_requirement`] names for it.
pub fn parse_requirement(s: &str) -> (r: Result<VersionRequirement, Error>)
    ensures
        (match (r, spec_parse_requirement(s@)) {
            (Ok(q), Ok(m)) => q@ == m,
            (Err(e), Err(m)) => e == m,
            _ => false,
        }),
{
    let v = chars_of(s);
    let n = v.len();
    if n == 0 {
        return Err(Error::UnknownComparator);
    }
    let c0 = v[0];
    let comparison: VersionComparison;
    let k: usize;
    if c0 == '<' {
        if n >= 2 && v[1] == '=' {
            comparison = VersionComparison::LessOrEqual;
            k = 2;
        } else {
            comparison = VersionComparison::Less;
            k = 1;
        }
    } else if c0 == '>' {
        if n >= 2 && v[1] == '=' {
            comparison = VersionComparison::GreaterOrEqual;
            k = 2;
        } else {
            comparison = VersionComparison::Greater;
            k = 1;
        }
    } else if c0 == '=' {
        comparison = VersionComparison::Equal;
        k = 1;
    } else {
        return Err(Error::UnknownComparator);
    }
    if k == n {
        return Err(Error::MissingVersion);
    }
    let rest = s.substring_char(k, n);
    proof {
        assert(rest@ =~= s@.skip(k as int));
    }
    match parse_version(rest) {
        Ok(version) => Ok(VersionRequirement { comparison, version }),
        Err(e) => Err(e),
    }
}

/// Whether `candidate` stands to `req.version` as `req.comparison`
/// demands.
pub open spec fn spec_satisfies(req: RequirementModel, candidate: VersionModel) -> bool {
    let c = version_cmp(candidate, req.version);
    match req.comparison {
        VersionComparison::Less => c < 0,
        VersionComparison::LessOrEqual => c <= 0,
        VersionComparison::Equal => c == 0,
        VersionComparison::GreaterOrEqual => c >= 0,
        VersionComparison::Greater => c > 0,
    }
}

impl VersionRequirement {
    /// Whether `candidate` satisfies this requirement: the three-way
    /// comparison of `candidate` against the stored version must match
    /// the stored comparator.
    pub fn is_satisfied_by(&self, candidate: &Version) -> (r: bool)
        ensures
            r == spec_satisfies(self@, candidate@),
    {
        let o = compare_versions(candidate, &self.version);
        match self.comparison {
            VersionComparison::Less => matches!(o, Ordering::Less),
            VersionComparison::LessOrEqual => !matches!(o, Ordering::Greater),
            VersionComparison::Equal => matches!(o, Ordering::Equal),
            VersionComparison::GreaterOrEqual => !matches!(o, Ordering::Less),
            VersionComparison::Greater => matches!(o, Ordering::Greater),
        }
    }

    /// The comparator the requirement was written with.
    pub fn comparison(&self) -> (r: VersionComparison)
        ensures
            r == self@.comparison,
    {
        self.comparison
    }

    /// The version the requirement compares candidates against.
    pub fn version(&self) -> (r: &Version)
        ensures
            r@ == self@.version,
    {
        &self.version
    }
}

} // verus!
