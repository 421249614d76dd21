//! Types for an Arch-Linux-style package manager: the version string model
//! (`epoch:pkgver-pkgrel`), the segment-based version-comparison algorithm
//! (`vercmp`), dependency version requirements, and a few small validated
//! string types used around them.

pub mod chars;
pub mod env;
pub mod error;
pub mod laws;
pub mod name;
pub mod order;
pub mod requirement;
pub mod segment;
pub mod system;
pub mod version;

pub use env::{InstalledPackage, MakePkgOption};
pub use error::Component;
pub use error::Error;
pub use name::Name;
pub use system::Architecture;
pub use requirement::{parse_requirement, VersionComparison, VersionRequirement};
pub use version::{compare_versions, parse_version};
pub use version::{Epoch, PackageRelease, PackageVersion, Version};
