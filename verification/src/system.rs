//! The CPU architectures a package can be built for.

use vstd::prelude::*;

use crate::chars::{chars_equal_str, chars_of};
use crate::error::Error;

verus! {

/// A CPU architecture.
#[derive(Clone, Copy, Debug, PartialEq, Eq, Structural)]
pub enum Architecture {
    /// The aarch64 architecture.
    Aarch64,
    /// Any architecture.
    Any,
    /// The arm architecture.
    Arm,
    /// The armv6h architecture.
    Armv6h,
    /// The armv7h architecture.
    Armv7h,
    /// The i486 architecture.
    I486,
    /// The i686 architecture.
    I686,
    /// The pentium4 architecture.
    Pentium4,
    /// The riscv32 architecture.
    Riscv32,
    /// The riscv64 architecture.
    Riscv64,
    /// The x86_64 architecture.
    X86_64,
    /// The x86_64_v2 architecture.
    X86_64V2,
    /// The x86_64_v3 architecture.
    X86_64V3,
    /// The x86_64_v4 architecture.
    X86_64V4,
}

/// The architecture a text names, if any.
pub open spec fn arch_of(s: Seq<char>) -> Option<Architecture> {
    if s == "aarch64"@ {
        Some(Architecture::Aarch64)
    } else if s == "any"@ {
        Some(Architecture::Any)
    } else if s == "arm"@ {
        Some(Architecture::Arm)
    } else if s == "armv6h"@ {
        Some(Architecture::Armv6h)
    } else if s == "armv7h"@ {
        Some(Architecture::Armv7h)
    } else if s == "i486"@ {
        Some(Architecture::I486)
    } else if s == "i686"@ {
        Some(Architecture::I686)
    } else if s == "pentium4"@ {
        Some(Architecture::Pentium4)
    } else if s == "riscv32"@ {
        Some(Architecture::Riscv32)
    } else if s == "riscv64"@ {
        Some(Architecture::Riscv64)
    } else if s == "x86_64"@ {
        Some(Architecture::X86_64)
    } else if s == "x86_64_v2"@ {
        Some(Architecture::X86_64V2)
    } else if s == "x86_64_v3"@ {
        Some(Architecture::X86_64V3)
    } else if s == "x86_64_v4"@ {
        Some(Architecture::X86_64V4)
    } else {
        None
    }
}

/// The text that names an architecture.
pub open spec fn arch_text(a: Architecture) -> Seq<char> {
    match a {
        Architecture::Aarch64 => "aarch64"@,
        Architecture::Any => "any"@,
        Architecture::Arm => "arm"@,
        Architecture::Armv6h => "armv6h"@,
        Architecture::Armv7h => "armv7h"@,
        Architecture::I486 => "i486"@,
        Architecture::I686 => "i686"@,
        Architecture::Pentium4 => "pentium4"@,
        Architecture::Riscv32 => "riscv32"@,
        Architecture::Riscv64 => "riscv64"@,
        Architecture::X86_64 => "x86_64"@,
        Architecture::X86_64V2 => "x86_64_v2"@,
        Architecture::X86_64V3 => "x86_64_v3"@,
        Architecture::X86_64V4 => "x86_64_v4"@,
    }
}

impl Architecture {
    /// Parses an architecture name.
    pub fn new(arch: &str) -> (r: Result<Self, Error>)
        ensures
            (match (r, arch_of(arch@)) {
                (Ok(a), Some(m)) => a == m,
                (Err(e), None) => e == Error::InvalidArchitecture,
                _ => false,
            }),
    {
        let v = chars_of(arch);
        if chars_equal_str(&v, "aarch64") {
            Ok(Architecture::Aarch64)
        } else if chars_equal_str(&v, "any") {
            Ok(Architecture::Any)
        } else if chars_equal_str(&v, "arm") {
            Ok(Architecture::Arm)
        } else if chars_equal_str(&v, "armv6h") {
            Ok(Architecture::Armv6h)
        } else if chars_equal_str(&v, "armv7h") {
            Ok(Architecture::Armv7h)
        } else if chars_equal_str(&v, "i486") {
            Ok(Architecture::I486)
        } else if chars_equal_str(&v, "i686") {
            Ok(Architecture::I686)
        } else if chars_equal_str(&v, "pentium4") {
            Ok(Architecture::Pentium4)
        } else if chars_equal_str(&v, "riscv32") {
            Ok(Architecture::Riscv32)
        } else if chars_equal_str(&v, "riscv64") {
            Ok(Architecture::Riscv64)
        } else if chars_equal_str(&v, "x86_64") {
            Ok(Architecture::X86_64)
        } else if chars_equal_str(&v, "x86_64_v2") {
            Ok(Architecture::X86_64V2)
        } else if chars_equal_str(&v, "x86_64_v3") {
            Ok(Architecture::X86_64V3)
        } else if chars_equal_str(&v, "x86_64_v4") {
            Ok(Architecture::X86_64V4)
        } else {
            Err(Error::InvalidArchitecture)
        }
    }

    /// The name of this architecture, as [`Self::new`] accepts it.
    pub fn name(&self) -> (r: &str)
        ensures
            r@ == arch_text(*self),
    {
        match self {
            Architecture::Aarch64 => "aarch64",
            Architecture::Any => "any",
            Architecture::Arm => "arm",
            Architecture::Armv6h => "armv6h",
            Architecture::Armv7h => "armv7h",
            Architecture::I486 => "i486",
            Architecture::I686 => "i686",
            Architecture::Pentium4 => "pentium4",
            Architecture::Riscv32 => "riscv32",
            Architecture::Riscv64 => "riscv64",
            Architecture::X86_64 => "x86_64",
            Architecture::X86_64V2 => "x86_64_v2",
            Architecture::X86_64V3 => "x86_64_v3",
            Architecture::X86_64V4 => "x86_64_v4",
        }
    }
}

} // verus!
