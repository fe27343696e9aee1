//! Semantic-version handling: parsing `x.y.z` strings and classifying the
//! compatibility of two versions.

use vstd::prelude::*;

verus! {

/// The version of the tool itself, compared against the `version` key of every
/// configuration.
pub const BONNIE_VERSION: &'static str = "0.2.1";

/// Which side of a version difference the compared version lies on.
#[derive(Debug, Clone, Copy, PartialEq, Eq, Structural)]
pub enum VersionDifference {
    TooOld,
    TooNew,
}

/// How two versions relate. Only `DifferentMajor` and `DifferentBetaVersion`
/// are treated as incompatible by the configuration gate.
#[derive(Debug, Clone, Copy, PartialEq, Eq, Structural)]
pub enum VersionCompatibility {
    Identical,
    DifferentMajor(VersionDifference),
    DifferentMinor(VersionDifference),
    DifferentPatch(VersionDifference),
    DifferentBetaVersion(VersionDifference),
}

/// A `major.minor.patch` triple.
#[derive(Debug, Clone, Copy, PartialEq, Eq, Structural)]
pub struct Version {
    pub patch: u16,
    pub minor: u16,
    pub major: u16,
}

/// Compatibility before the pre-1.0 promotion: the first differing component
/// decides the category, and whether the compared version is older or newer.
pub open spec fn spec_base_compat(a: Version, b: Version) -> VersionCompatibility {
    if a.major > b.major {
        VersionCompatibility::DifferentMajor(VersionDifference::TooOld)
    } else if a.major < b.major {
        VersionCompatibility::DifferentMajor(VersionDifference::TooNew)
    } else if a.minor > b.minor {
        VersionCompatibility::DifferentMinor(VersionDifference::TooOld)
    } else if a.minor < b.minor {
        VersionCompatibility::DifferentMinor(VersionDifference::TooNew)
    } else if a.patch > b.patch {
        VersionCompatibility::DifferentPatch(VersionDifference::TooOld)
    } else if a.patch < b.patch {
        VersionCompatibility::DifferentPatch(VersionDifference::TooNew)
    } else {
        VersionCompatibility::Identical
    }
}

/// The direction carried by a non-identical compatibility value.
pub open spec fn spec_compat_direction(c: VersionCompatibility) -> VersionDifference {
    match c {
        VersionCompatibility::Identical => VersionDifference::TooNew,
        VersionCompatibility::DifferentMajor(d) => d,
        VersionCompatibility::DifferentMinor(d) => d,
        VersionCompatibility::DifferentPatch(d) => d,
        VersionCompatibility::DifferentBetaVersion(d) => d,
    }
}

/// Full compatibility classification: as `spec_base_compat`, except that when
/// either version is pre-1.0, any difference is promoted to
/// `DifferentBetaVersion`.
pub open spec fn spec_compat(a: Version, b: Version) -> VersionCompatibility {
    let base = spec_base_compat(a, b);
    if (a.major == 0 || b.major == 0) && base != VersionCompatibility::Identical {
        VersionCompatibility::DifferentBetaVersion(spec_compat_direction(base))
    } else {
        base
    }
}

impl Version {
    /// Classifies how `comparison` relates to `self`: identical, or different
    /// in the major, minor or patch component, with the first difference
    /// deciding and pre-1.0 versions promoting any difference to
    /// `DifferentBetaVersion`.
    pub fn is_compatible_with(&self, comparison: &Version) -> (r: VersionCompatibility)
        ensures
            r == spec_compat(*self, *comparison),
    {
        let compatibility = if self.major > comparison.major {
            VersionCompatibility::DifferentMajor(VersionDifference::TooOld)
        } else if self.major < comparison.major {
            VersionCompatibility::DifferentMajor(VersionDifference::TooNew)
        } else if self.minor > comparison.minor {
            VersionCompatibility::DifferentMinor(VersionDifference::TooOld)
        } else if self.minor < comparison.minor {
            VersionCompatibility::DifferentMinor(VersionDifference::TooNew)
        } else if self.patch > comparison.patch {
            VersionCompatibility::DifferentPatch(VersionDifference::TooOld)
        } else if self.patch < comparison.patch {
            VersionCompatibility::DifferentPatch(VersionDifference::TooNew)
        } else {
            VersionCompatibility::Identical
        };
        if (self.major == 0 || comparison.major == 0) && !matches!(
            compatibility,
            VersionCompatibility::Identical,
        ) {
            VersionCompatibility::DifferentBetaVersion(
                match compatibility {
                    VersionCompatibility::DifferentMajor(d) => d,
                    VersionCompatibility::DifferentMinor(d) => d,
                    VersionCompatibility::DifferentPatch(d) => d,
                    _ => VersionDifference::TooNew,
                },
            )
        } else {
            compatibility
        }
    }
}

/// A well-formed version string: exactly three `.`-separated parts, each a
/// non-empty string of digits whose value fits a `u16`.
pub open spec fn spec_valid_version(s: Seq<char>) -> bool {
    let parts = crate::strutil::spec_split(s, '.');
    &&& parts.len() == 3
    &&& forall|i: int|
        0 <= i < 3 ==> (#[trigger] parts[i]).len() > 0 && crate::strutil::all_digits(parts[i])
            && crate::strutil::spec_num_val(parts[i]) <= 0xffff
}

/// The version denoted by a well-formed version string.
pub open spec fn spec_version_of(s: Seq<char>) -> Version {
    let parts = crate::strutil::spec_split(s, '.');
    Version {
        major: crate::strutil::spec_num_val(parts[0]) as u16,
        minor: crate::strutil::spec_num_val(parts[1]) as u16,
        patch: crate::strutil::spec_num_val(parts[2]) as u16,
    }
}

/// Breaks a version string of the form `major.minor.patch` into its parts.
/// Succeeds exactly on well-formed version strings.
pub fn get_version_parts(version_str: &str) -> (r: Result<Version, String>)
    ensures
        r is Ok <==> spec_valid_version(version_str@),
        r is Ok ==> r->Ok_0 == spec_version_of(version_str@),
{
    let parts = crate::strutil::split_char(version_str, '.');
    let ghost pdv = parts.deep_view();
    if parts.len() < 3 {
        return Err(
            "Couldn't extract the patch version number from the given version string. If the version string in your Bonnie configuration file is definitely of the form 'x.y.z', you should report this as a bug.".to_owned(),
        );
    }
    if parts.len() > 3 {
        return Err(
            "The given version string has more than the three expected parts. If the version string in your Bonnie configuration file is definitely of the form 'x.y.z', you should report this as a bug.".to_owned(),
        );
    }
    assert(pdv.len() == 3);
    assert(parts@[2]@ == pdv[2] && parts@[1]@ == pdv[1] && parts@[0]@ == pdv[0]);
    let patch = match crate::strutil::parse_u16(parts[2].as_str()) {
        Some(v) => v,
        None => {
            return Err(
                "Couldn't serialize the patch version number from the given version string into an integer. If the version string in your Bonnie configuration file is definitely of the form 'x.y.z', where each of those are integers, you should report this as a bug.".to_owned(),
            );
        },
    };
    let minor = match crate::strutil::parse_u16(parts[1].as_str()) {
        Some(v) => v,
        None => {
            return Err(
                "Couldn't serialize the minor version number from the given version string into an integer. If the version string in your Bonnie configuration file is definitely of the form 'x.y.z', where each of those are integers, you should report this as a bug.".to_owned(),
            );
        },
    };
    let major = match crate::strutil::parse_u16(parts[0].as_str()) {
        Some(v) => v,
        None => {
            return Err(
                "Couldn't serialize the major version number from the given version string into an integer. If the version string in your Bonnie configuration file is definitely of the form 'x.y.z', where each of those are integers, you should report this as a bug.".to_owned(),
            );
        },
    };
    Ok(Version { patch, minor, major })
}

/// Whether two compatibility values fall in the same category, directions
/// aside.
pub open spec fn spec_same_category(x: VersionCompatibility, y: VersionCompatibility) -> bool {
    match (x, y) {
        (VersionCompatibility::Identical, VersionCompatibility::Identical) => true,
        (VersionCompatibility::DifferentMajor(_), VersionCompatibility::DifferentMajor(_)) => true,
        (VersionCompatibility::DifferentMinor(_), VersionCompatibility::DifferentMinor(_)) => true,
        (VersionCompatibility::DifferentPatch(_), VersionCompatibility::DifferentPatch(_)) => true,
        (
            VersionCompatibility::DifferentBetaVersion(_),
            VersionCompatibility::DifferentBetaVersion(_),
        ) => true,
        _ => false,
    }
}

/// The opposite direction.
pub open spec fn spec_flip(d: VersionDifference) -> VersionDifference {
    match d {
        VersionDifference::TooOld => VersionDifference::TooNew,
        VersionDifference::TooNew => VersionDifference::TooOld,
    }
}

/// Law: the classification is total and injective on equality — comparing any
/// two versions yields exactly one compatibility value, and that value is
/// `Identical` exactly when the versions are equal component-wise.
pub proof fn lemma_compat_identical_iff(a: Version, b: Version)
    ensures
        (spec_compat(a, b) == VersionCompatibility::Identical) <==> a == b,
{
}

/// Law: swapping the two versions keeps the compatibility category and flips
/// the reported direction; the pre-1.0 promotion applies symmetrically.
pub proof fn lemma_compat_swap(a: Version, b: Version)
    ensures
        spec_same_category(spec_compat(a, b), spec_compat(b, a)),
        spec_compat(a, b) != VersionCompatibility::Identical ==> spec_compat_direction(
            spec_compat(a, b),
        ) == spec_flip(spec_compat_direction(spec_compat(b, a))),
{
}

/// Builds a version from `[major, minor, patch]`.
pub fn build_version(parts: Vec<u16>) -> (r: Version)
    requires
        parts@.len() == 3,
    ensures
        r.major == parts@[0],
        r.minor == parts@[1],
        r.patch == parts@[2],
{
    Version { patch: parts[2], minor: parts[1], major: parts[0] }
}

} // verus!
