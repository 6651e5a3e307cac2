//! Version requirements: the structured matching rule a `.nvmrc` string
//! resolves to, and the matcher that evaluates a concrete version against it.

use crate::version::SemanticVersion;
use vstd::prelude::*;

verus! {

/// A matching rule over semantic versions.
///
/// `Exact` is satisfied by one (major, minor, patch) triple alone.
/// The two caret forms follow standard compatible-release rules for a
/// requirement seeded from `X` or `X.Y` (patch implied zero): upgrades may
/// not change the leftmost non-zero component of the seed.
#[derive(Clone, Copy, Debug, PartialEq, Eq, Structural)]
pub enum VersionRequirement {
    Exact(SemanticVersion),
    CaretMajor { major: u64 },
    CaretMinor { major: u64, minor: u64 },
}

/// What it means for version `v` to satisfy requirement `req`.
///
/// - `Exact(e)`: the triples are identical.
/// - `CaretMajor { major }` (from `X`, seed X.0.0): same major, any minor
///   and patch; for `X == 0` this is every version below 1.0.0.
/// - `CaretMinor { major, minor }` (from `X.Y`, seed X.Y.0): with
///   `major > 0`, same major and minor at least `Y`; with `major == 0` the
///   minor is the leftmost non-zero component, so only the patch may move.
pub open spec fn req_matches(req: VersionRequirement, v: SemanticVersion) -> bool {
    match req {
        VersionRequirement::Exact(e) => v.major == e.major && v.minor == e.minor && v.patch
            == e.patch,
        VersionRequirement::CaretMajor { major } => v.major == major,
        VersionRequirement::CaretMinor { major, minor } => {
            if major > 0 {
                v.major == major && v.minor >= minor
            } else {
                v.major == 0 && v.minor == minor
            }
        },
    }
}

/// An exact-match requirement pinned to `v`, as built for the resolved
/// `lts` and `latest` aliases.
pub fn exact_requirement(v: &SemanticVersion) -> (r: VersionRequirement)
    ensures
        r == VersionRequirement::Exact(*v),
{
    VersionRequirement::Exact(*v)
}

/// Evaluates a version against a requirement. Total: both inputs are
/// already validated, and the verdict depends on them alone.
pub fn is_node_version_matching(
    required_node_version: &VersionRequirement,
    current_node_version: &SemanticVersion,
) -> (r: bool)
    ensures
        r == req_matches(*required_node_version, *current_node_version),
{
    let v = *current_node_version;
    match *required_node_version {
        VersionRequirement::Exact(e) => v.major == e.major && v.minor == e.minor && v.patch
            == e.patch,
        VersionRequirement::CaretMajor { major } => v.major == major,
        VersionRequirement::CaretMinor { major, minor } => {
            if major > 0 {
                v.major == major && v.minor >= minor
            } else {
                v.major == 0 && v.minor == minor
            }
        },
    }
}

/// An exact requirement built from a version always matches that version.
pub proof fn lemma_exact_requirement_reflexive(v: SemanticVersion)
    ensures
        req_matches(VersionRequirement::Exact(v), v),
{
}

} // verus!
