// Tests for comparing versions and for splitting version strings.

use bonnie::version::{build_version, get_version_parts, VersionCompatibility, VersionDifference};

#[test]
fn identifies_identical_versions() {
    let version = build_version(vec![2, 3, 4]);
    let comparison = build_version(vec![2, 3, 4]);
    let compat = version.is_compatible_with(&comparison);

    assert_eq!(compat, VersionCompatibility::Identical);
}

#[test]
fn identifies_major_too_new() {
    let version = build_version(vec![2, 3, 4]);
    let comparison = build_version(vec![3, 3, 4]);
    let compat = version.is_compatible_with(&comparison);

    assert_eq!(
        compat,
        VersionCompatibility::DifferentMajor(VersionDifference::TooNew)
    );
}

#[test]
fn identifies_major_too_old() {
    let version = build_version(vec![2, 3, 4]);
    let comparison = build_version(vec![1, 3, 4]);
    let compat = version.is_compatible_with(&comparison);

    assert_eq!(
        compat,
        VersionCompatibility::DifferentMajor(VersionDifference::TooOld)
    );
}

#[test]
fn identifies_minor_too_new() {
    let version = build_version(vec![2, 3, 4]);
    let comparison = build_version(vec![2, 4, 4]);
    let compat = version.is_compatible_with(&comparison);

    assert_eq!(
        compat,
        VersionCompatibility::DifferentMinor(VersionDifference::TooNew)
    );
}

#[test]
fn identifies_minor_too_old() {
    let version = build_version(vec![2, 3, 4]);
    let comparison = build_version(vec![2, 2, 4]);
    let compat = version.is_compatible_with(&comparison);

    assert_eq!(
        compat,
        VersionCompatibility::DifferentMinor(VersionDifference::TooOld)
    );
}

#[test]
fn identifies_patch_too_new() {
    let version = build_version(vec![2, 3, 4]);
    let comparison = build_version(vec![2, 3, 5]);
    let compat = version.is_compatible_with(&comparison);

    assert_eq!(
        compat,
        VersionCompatibility::DifferentPatch(VersionDifference::TooNew)
    );
}

#[test]
fn identifies_patch_too_old() {
    let version = build_version(vec![2, 3, 4]);
    let comparison = build_version(vec![2, 3, 3]);
    let compat = version.is_compatible_with(&comparison);

    assert_eq!(
        compat,
        VersionCompatibility::DifferentPatch(VersionDifference::TooOld)
    );
}

// All those tests for beta (pre-1.0) versions.
#[test]
fn identifies_identical_versions_in_beta() {
    let version = build_version(vec![0, 3, 4]);
    let comparison = build_version(vec![0, 3, 4]);
    let compat = version.is_compatible_with(&comparison);

    assert_eq!(compat, VersionCompatibility::Identical);
}

#[test]
fn identifies_major_too_new_in_beta() {
    let version = build_version(vec![0, 3, 4]);
    let comparison = build_version(vec![1, 3, 4]);
    let compat = version.is_compatible_with(&comparison);

    assert_eq!(
        compat,
        VersionCompatibility::DifferentBetaVersion(VersionDifference::TooNew)
    );
}

#[test]
fn identifies_minor_too_new_in_beta() {
    let version = build_version(vec![0, 3, 4]);
    let comparison = build_version(vec![0, 4, 4]);
    let compat = version.is_compatible_with(&comparison);

    assert_eq!(
        compat,
        VersionCompatibility::DifferentBetaVersion(VersionDifference::TooNew)
    );
}

#[test]
fn identifies_minor_too_old_in_beta() {
    let version = build_version(vec![0, 3, 4]);
    let comparison = build_version(vec![0, 2, 4]);
    let compat = version.is_compatible_with(&comparison);

    assert_eq!(
        compat,
        VersionCompatibility::DifferentBetaVersion(VersionDifference::TooOld)
    );
}

#[test]
fn identifies_patch_too_new_in_beta() {
    let version = build_version(vec![0, 3, 4]);
    let comparison = build_version(vec![0, 3, 5]);
    let compat = version.is_compatible_with(&comparison);

    assert_eq!(
        compat,
        VersionCompatibility::DifferentBetaVersion(VersionDifference::TooNew)
    );
}

#[test]
fn identifies_patch_too_old_in_beta() {
    let version = build_version(vec![0, 3, 4]);
    let comparison = build_version(vec![0, 3, 3]);
    let compat = version.is_compatible_with(&comparison);

    assert_eq!(
        compat,
        VersionCompatibility::DifferentBetaVersion(VersionDifference::TooOld)
    );
}

// Tests for splitting the version into its parts.
#[test]
fn returns_correct_part_division() {
    let version = "1.2.3";
    let parts = get_version_parts(version);

    assert_eq!(parts, Ok(build_version(vec![1, 2, 3])))
}

#[test]
fn returns_error_on_missing_patch_number() {
    let version = "1.2";
    let parts = get_version_parts(version);

    if parts.is_ok() {
        panic!("Didn't return an error on missing patch number.")
    }
}

#[test]
fn returns_error_on_missing_minor_number() {
    let version = "1";
    let parts = get_version_parts(version);

    if parts.is_ok() {
        panic!("Didn't return an error on missing minor number.")
    }
}

#[test]
fn returns_error_on_invalid_patch_number() {
    let version = "1.2.x";
    let parts = get_version_parts(version);

    if parts.is_ok() {
        panic!("Didn't return an error on invalid patch number.")
    }
}

#[test]
fn returns_error_on_invalid_minor_number() {
    let version = "1.x.3";
    let parts = get_version_parts(version);

    if parts.is_ok() {
        panic!("Didn't return an error on invalid minor number.")
    }
}

#[test]
fn returns_error_on_invalid_major_number() {
    let version = "x.2.3";
    let parts = get_version_parts(version);

    if parts.is_ok() {
        panic!("Didn't return an error on invalid major number.")
    }
}
