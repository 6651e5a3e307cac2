use node_sentinel::cli::{parse_cli_args, CliError};
use node_sentinel::nvmrc::{
    extract_latest_version, extract_lts_version, resolve_latest_listing, resolve_lts_listing,
    ResolveError,
};
use node_sentinel::requirement::VersionRequirement;
use node_sentinel::version::SemanticVersion;

fn ver(major: u64, minor: u64, patch: u64) -> SemanticVersion {
    SemanticVersion { major, minor, patch }
}

#[test]
fn lts_version_is_read_from_the_active_line() {
    let listing = "        v14.17.0\n->     v16.13.0        lts/gallium\n        v18.0.0\n";
    assert_eq!(extract_lts_version(listing), Ok(ver(16, 13, 0)));
    assert_eq!(
        resolve_lts_listing(listing),
        Ok(VersionRequirement::Exact(ver(16, 13, 0)))
    );
}

#[test]
fn lts_line_needs_both_markers() {
    let listing = "->      v14.17.0\n        v16.13.0        lts/gallium\n";
    assert_eq!(extract_lts_version(listing), Err(ResolveError::NoLtsLine));
    assert_eq!(
        ResolveError::NoLtsLine.message(),
        "Could not determine current LTS version"
    );
}

#[test]
fn lts_takes_the_first_qualifying_line() {
    let listing = "->  v16.13.0  lts/gallium\n->  v18.12.0  lts/hydrogen\n";
    assert_eq!(extract_lts_version(listing), Ok(ver(16, 13, 0)));
}

#[test]
fn lts_token_must_be_a_version() {
    let listing = "->  bogus  lts/gallium\n";
    assert_eq!(extract_lts_version(listing), Err(ResolveError::LtsVersionSyntax));
    assert_eq!(
        ResolveError::LtsVersionSyntax.message(),
        "Failed to parse LTS version"
    );
}

#[test]
fn empty_listing_has_no_lts() {
    assert_eq!(extract_lts_version(""), Err(ResolveError::NoLtsLine));
}

#[test]
fn latest_version_is_the_last_version_line() {
    let listing = "   v16.13.0\n   v18.0.0\n\n";
    assert_eq!(extract_latest_version(listing), Ok(ver(18, 0, 0)));
    assert_eq!(
        resolve_latest_listing(listing),
        Ok(VersionRequirement::Exact(ver(18, 0, 0)))
    );
}

#[test]
fn latest_skips_trailing_lines_without_version() {
    let listing = "   v16.13.0\n   v18.2.1\n   some footer\n";
    assert_eq!(extract_latest_version(listing), Ok(ver(18, 2, 1)));
}

#[test]
fn latest_token_must_be_a_version() {
    let listing = "   v16.13.0\n   vnope\n";
    assert_eq!(
        extract_latest_version(listing),
        Err(ResolveError::LatestVersionSyntax)
    );
    assert_eq!(
        ResolveError::LatestVersionSyntax.message(),
        "Failed to parse latest version"
    );
}

#[test]
fn listing_without_version_lines_has_no_latest() {
    let listing = "nothing here\nat all\n";
    assert_eq!(
        extract_latest_version(listing),
        Err(ResolveError::NoLatestLine)
    );
    assert_eq!(
        ResolveError::NoLatestLine.message(),
        "Could not determine latest Node.js version"
    );
}

fn strings(args: &[&str]) -> Vec<String> {
    args.iter().map(|a| a.to_string()).collect()
}

#[test]
fn no_arguments_give_the_defaults() {
    let args = parse_cli_args(&strings(&[])).expect("empty command line parses");
    assert_eq!(args.directory, None);
    assert!(!args.auto_switch);
    assert!(!args.check_only);
}

#[test]
fn positional_argument_is_the_directory() {
    let args = parse_cli_args(&strings(&["some/project"])).expect("parses");
    assert_eq!(args.directory, Some("some/project".to_string()));
}

#[test]
fn flags_set_their_modes() {
    let args = parse_cli_args(&strings(&["-a", "proj"])).expect("parses");
    assert!(args.auto_switch);
    assert!(!args.check_only);
    assert_eq!(args.directory, Some("proj".to_string()));
    let args = parse_cli_args(&strings(&["--check-only"])).expect("parses");
    assert!(args.check_only);
    let args = parse_cli_args(&strings(&["proj", "--auto-switch", "-c"])).expect("parses");
    assert!(args.auto_switch);
    assert!(args.check_only);
}

#[test]
fn unknown_option_is_rejected() {
    assert!(matches!(
        parse_cli_args(&strings(&["-x"])),
        Err(CliError::UnknownOption)
    ));
    assert!(matches!(
        parse_cli_args(&strings(&["--verbose"])),
        Err(CliError::UnknownOption)
    ));
}

#[test]
fn second_positional_argument_is_rejected() {
    assert!(matches!(
        parse_cli_args(&strings(&["one", "two"])),
        Err(CliError::UnexpectedArgument)
    ));
}
