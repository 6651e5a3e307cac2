use node_sentinel::nvmrc::{resolve_nvm_version, ResolutionStep, ResolveError};
use node_sentinel::requirement::{exact_requirement, is_node_version_matching, VersionRequirement};
use node_sentinel::version::{parse_numeric_component, parse_version, SemanticVersion};

fn resolved(s: &str) -> VersionRequirement {
    match resolve_nvm_version(s) {
        Ok(ResolutionStep::Resolved(req)) => req,
        other => panic!("expected a resolved requirement, got {:?}", other),
    }
}

fn ver(major: u64, minor: u64, patch: u64) -> SemanticVersion {
    SemanticVersion { major, minor, patch }
}

#[test]
fn three_components_resolve_to_exact() {
    assert_eq!(resolved("16.13.0"), VersionRequirement::Exact(ver(16, 13, 0)));
}

#[test]
fn exact_matches_only_the_spelled_version() {
    let req = resolved("16.13.0");
    assert!(is_node_version_matching(&req, &ver(16, 13, 0)));
    assert!(!is_node_version_matching(&req, &ver(16, 13, 1)));
    assert!(!is_node_version_matching(&req, &ver(16, 12, 0)));
    assert!(!is_node_version_matching(&req, &ver(17, 13, 0)));
}

#[test]
fn one_component_resolves_to_major_caret() {
    let req = resolved("16");
    assert_eq!(req, VersionRequirement::CaretMajor { major: 16 });
    assert!(is_node_version_matching(&req, &ver(16, 13, 0)));
    assert!(is_node_version_matching(&req, &ver(16, 99, 9)));
    assert!(is_node_version_matching(&req, &ver(16, 0, 0)));
    assert!(!is_node_version_matching(&req, &ver(17, 0, 0)));
    assert!(!is_node_version_matching(&req, &ver(15, 99, 9)));
}

#[test]
fn two_components_resolve_to_minor_caret() {
    let req = resolved("16.13");
    assert_eq!(req, VersionRequirement::CaretMinor { major: 16, minor: 13 });
    assert!(is_node_version_matching(&req, &ver(16, 13, 0)));
    assert!(is_node_version_matching(&req, &ver(16, 13, 7)));
    assert!(is_node_version_matching(&req, &ver(16, 14, 0)));
    assert!(!is_node_version_matching(&req, &ver(16, 12, 9)));
    assert!(!is_node_version_matching(&req, &ver(17, 13, 0)));
}

#[test]
fn zero_major_caret_allows_patch_level_only() {
    let req = resolved("0.4");
    assert_eq!(req, VersionRequirement::CaretMinor { major: 0, minor: 4 });
    assert!(is_node_version_matching(&req, &ver(0, 4, 0)));
    assert!(is_node_version_matching(&req, &ver(0, 4, 9)));
    assert!(!is_node_version_matching(&req, &ver(0, 5, 0)));
    assert!(!is_node_version_matching(&req, &ver(1, 4, 0)));
}

#[test]
fn zero_major_exact_is_pinned() {
    let req = resolved("0.4.2");
    assert_eq!(req, VersionRequirement::Exact(ver(0, 4, 2)));
    assert!(is_node_version_matching(&req, &ver(0, 4, 2)));
    assert!(!is_node_version_matching(&req, &ver(0, 4, 3)));
}

#[test]
fn invalid_shapes_fail_with_invalid_format() {
    for bad in ["", "1.2.3.4", "1.x", "x", "1..2", "16.", ".16", "01", "1.02", "v16", "-1", "1.2.3-beta"] {
        match resolve_nvm_version(bad) {
            Err(ResolveError::InvalidFormat) => {}
            other => panic!("{:?} should be invalid, got {:?}", bad, other),
        }
    }
    assert_eq!(
        ResolveError::InvalidFormat.message(),
        "Invalid version format in .nvmrc"
    );
}

#[test]
fn component_too_large_is_invalid() {
    assert_eq!(parse_numeric_component("18446744073709551615"), Some(u64::MAX));
    assert_eq!(parse_numeric_component("18446744073709551616"), None);
    assert!(matches!(
        resolve_nvm_version("18446744073709551616"),
        Err(ResolveError::InvalidFormat)
    ));
}

#[test]
fn aliases_defer_to_a_listing() {
    assert_eq!(resolve_nvm_version("lts"), Ok(ResolutionStep::QueryLts));
    assert_eq!(resolve_nvm_version("latest"), Ok(ResolutionStep::QueryLatest));
}

#[test]
fn v_prefix_parses_identically() {
    assert_eq!(parse_version("v18.16.0"), parse_version("18.16.0"));
    assert_eq!(parse_version("v18.16.0"), Some(ver(18, 16, 0)));
    assert_eq!(parse_version("18.16.0"), Some(ver(18, 16, 0)));
}

#[test]
fn parse_version_rejects_malformed_text() {
    assert_eq!(parse_version(""), None);
    assert_eq!(parse_version("v"), None);
    assert_eq!(parse_version("18.16"), None);
    assert_eq!(parse_version("vv18.16.0"), None);
    assert_eq!(parse_version("18.16.0-beta"), None);
}

#[test]
fn exact_requirement_is_reflexive() {
    let v = ver(20, 11, 1);
    let req = exact_requirement(&v);
    assert_eq!(req, VersionRequirement::Exact(v));
    assert!(is_node_version_matching(&req, &v));
}

#[test]
fn check_scenario_partial_requirement_matches() {
    let req = resolved("18");
    let current = parse_version("v18.5.0").expect("runtime version parses");
    assert!(is_node_version_matching(&req, &current));
}

#[test]
fn check_scenario_exact_requirement_mismatches() {
    let req = resolved("16.13.0");
    let current = parse_version("v16.13.1").expect("runtime version parses");
    assert!(!is_node_version_matching(&req, &current));
}
