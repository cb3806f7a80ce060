//! Versions of schema migrations (`major.minor.patch`) and their order.
use vstd::prelude::*;
use vstd::std_specs::cmp::PartialOrdSpecImpl;
use std::cmp::Ordering;
use crate::error::{ErrorCode, RaiseError};
use crate::text::{parse_u32, parse_u32_spec, split_chars, split_spec, to_chars};

verus! {

/// A migration version: three numbers and the text it was read from.
#[derive(Debug, Clone, PartialEq, Eq)]
pub struct MigrationVersion {
    pub major: u32,
    pub minor: u32,
    pub patch: u32,
    pub raw: String,
}

/// What `MigrationVersion::parse` gives for a text: the three numbers, or
/// the error of the first part that is not a `u32`.
pub open spec fn parse_version_spec(s: Seq<char>) -> Result<(u32, u32, u32), ErrorCode> {
    let parts = split_spec(s, '.');
    if parts.len() != 3 {
        Err(ErrorCode::MigrationVersionFormatInvalid)
    } else if parse_u32_spec(parts[0]) is None {
        Err(ErrorCode::VersionParseMajor)
    } else if parse_u32_spec(parts[1]) is None {
        Err(ErrorCode::VersionParseMinor)
    } else if parse_u32_spec(parts[2]) is None {
        Err(ErrorCode::VersionParsePatch)
    } else {
        Ok(
            (
                parse_u32_spec(parts[0]).unwrap(),
                parse_u32_spec(parts[1]).unwrap(),
                parse_u32_spec(parts[2]).unwrap(),
            ),
        )
    }
}

impl MigrationVersion {
    /// Reads `x.y.z`, each part a `u32`.
    pub fn parse(version_str: &str) -> (r: Result<MigrationVersion, RaiseError>)
        ensures
            match parse_version_spec(version_str@) {
                Ok((a, b, c)) => r matches Ok(v) && v.major == a && v.minor == b && v.patch == c
                    && v.raw@ == version_str@,
                Err(code) => r matches Err(e) && e.code == code && e.detail@ == version_str@,
            },
    {
        let cs = to_chars(version_str);
        let parts = split_chars(cs.as_slice(), '.');
        if parts.len() != 3 {
            return Err(RaiseError::new(ErrorCode::MigrationVersionFormatInvalid, version_str));
        }
        let major = match parse_u32(parts[0].as_slice()) {
            Some(v) => v,
            None => {
                return Err(RaiseError::new(ErrorCode::VersionParseMajor, version_str));
            },
        };
        let minor = match parse_u32(parts[1].as_slice()) {
            Some(v) => v,
            None => {
                return Err(RaiseError::new(ErrorCode::VersionParseMinor, version_str));
            },
        };
        let patch = match parse_u32(parts[2].as_slice()) {
            Some(v) => v,
            None => {
                return Err(RaiseError::new(ErrorCode::VersionParsePatch, version_str));
            },
        };
        Ok(MigrationVersion { major, minor, patch, raw: version_str.to_owned() })
    }

    /// The text the version was read from (its display form).
    pub fn to_display_string(&self) -> (s: String)
        ensures
            s@ == self.raw@,
    {
        self.raw.clone()
    }
}

/// Lexicographic order of `(major, minor, patch)`; `raw` plays no part.
pub open spec fn version_order(a: MigrationVersion, b: MigrationVersion) -> Ordering {
    if a.major < b.major {
        Ordering::Less
    } else if a.major > b.major {
        Ordering::Greater
    } else if a.minor < b.minor {
        Ordering::Less
    } else if a.minor > b.minor {
        Ordering::Greater
    } else if a.patch < b.patch {
        Ordering::Less
    } else if a.patch > b.patch {
        Ordering::Greater
    } else {
        Ordering::Equal
    }
}

impl PartialOrd for MigrationVersion {
    fn partial_cmp(&self, other: &MigrationVersion) -> (r: Option<Ordering>) {
        if self.major < other.major {
            Some(Ordering::Less)
        } else if self.major > other.major {
            Some(Ordering::Greater)
        } else if self.minor < other.minor {
            Some(Ordering::Less)
        } else if self.minor > other.minor {
            Some(Ordering::Greater)
        } else if self.patch < other.patch {
            Some(Ordering::Less)
        } else if self.patch > other.patch {
            Some(Ordering::Greater)
        } else {
            Some(Ordering::Equal)
        }
    }
}

impl PartialOrdSpecImpl for MigrationVersion {
    open spec fn obeys_partial_cmp_spec() -> bool {
        true
    }

    open spec fn partial_cmp_spec(&self, other: &MigrationVersion) -> Option<Ordering> {
        Some(version_order(*self, *other))
    }
}

/// The order of versions is total and antisymmetric: swapping the operands
/// reverses the answer, and only equal numbers compare `Equal`.
pub proof fn law_version_order_antisymmetric(a: MigrationVersion, b: MigrationVersion)
    ensures
        version_order(a, b) == Ordering::Less <==> version_order(b, a) == Ordering::Greater,
        version_order(a, b) == Ordering::Equal <==> (a.major == b.major && a.minor == b.minor
            && a.patch == b.patch),
{
}

/// The order of versions is transitive.
pub proof fn law_version_order_transitive(
    a: MigrationVersion,
    b: MigrationVersion,
    c: MigrationVersion,
)
    requires
        version_order(a, b) == Ordering::Less,
        version_order(b, c) == Ordering::Less,
    ensures
        version_order(a, c) == Ordering::Less,
{
}

} // verus!
