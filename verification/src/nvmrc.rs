//! Requirement resolution: turns the raw string found in `.nvmrc` into a
//! structured matching rule, and extracts concrete versions from the
//! version manager's listing output for the two symbolic aliases.

use crate::requirement::{req_matches, VersionRequirement};
use crate::text::{
    contains_seq, lemma_split_on_whole, second_token, split_on, split_str, str_contains, str_eq,
    tokens, trim_spec, trim_str,
};
use crate::version::{
    is_digit, is_numeric_component, lemma_numeric_value_nonneg, numeric_value,
    parse_numeric_component, parse_version, parse_version_spec, SemanticVersion,
};
use vstd::prelude::*;
use vstd::string::StrSliceExecFns;

verus! {

/// Why resolution failed. Every variant is fatal; `message` gives the
/// human-readable report.
#[derive(Clone, Copy, Debug, PartialEq, Eq, Structural)]
pub enum ResolveError {
    /// The `.nvmrc` text is neither an alias nor one to three numeric
    /// dot-separated components.
    InvalidFormat,
    /// No line of the installed-versions listing carries both the active
    /// marker and an `lts/` tag alongside a version token.
    NoLtsLine,
    /// No line of the remote-versions listing begins with `v`.
    NoLatestLine,
    /// The version token found on the active LTS line is not a semantic
    /// version.
    LtsVersionSyntax,
    /// The version token found in the remote listing is not a semantic
    /// version.
    LatestVersionSyntax,
}

impl ResolveError {
    /// The report for this failure.
    pub fn message(&self) -> (r: &'static str)
        ensures
            *self == ResolveError::InvalidFormat ==> r@ == "Invalid version format in .nvmrc"@,
            *self == ResolveError::NoLtsLine ==> r@ == "Could not determine current LTS version"@,
            *self == ResolveError::NoLatestLine ==> r@
                == "Could not determine latest Node.js version"@,
            *self == ResolveError::LtsVersionSyntax ==> r@ == "Failed to parse LTS version"@,
            *self == ResolveError::LatestVersionSyntax ==> r@ == "Failed to parse latest version"@,
    {
        match *self {
            ResolveError::InvalidFormat => "Invalid version format in .nvmrc",
            ResolveError::NoLtsLine => "Could not determine current LTS version",
            ResolveError::NoLatestLine => "Could not determine latest Node.js version",
            ResolveError::LtsVersionSyntax => "Failed to parse LTS version",
            ResolveError::LatestVersionSyntax => "Failed to parse latest version",
        }
    }
}

/// The resolver's verdict on a `.nvmrc` string: either a finished rule, or
/// the one external listing that must be fetched and handed back to
/// [`resolve_lts_listing`] or [`resolve_latest_listing`].
#[derive(Clone, Copy, Debug, PartialEq, Eq, Structural)]
pub enum ResolutionStep {
    /// The string resolved on its own.
    Resolved(VersionRequirement),
    /// The string is the `lts` alias: the installed-versions listing is
    /// needed.
    QueryLts,
    /// The string is the `latest` alias: the remote-versions listing is
    /// needed.
    QueryLatest,
}

/// The resolution rule. Aliases defer to a listing; otherwise the string
/// must split on dots into one to three numeric components: one or two
/// give a caret (compatible-release) rule, three give an exact rule.
pub open spec fn resolve_spec(s: Seq<char>) -> Result<ResolutionStep, ResolveError> {
    if s == "lts"@ {
        Ok(ResolutionStep::QueryLts)
    } else if s == "latest"@ {
        Ok(ResolutionStep::QueryLatest)
    } else {
        let parts = split_on(s, '.');
        if parts.len() == 1 && is_numeric_component(parts[0]) {
            Ok(
                ResolutionStep::Resolved(
                    VersionRequirement::CaretMajor { major: numeric_value(parts[0]) as u64 },
                ),
            )
        } else if parts.len() == 2 && is_numeric_component(parts[0]) && is_numeric_component(
            parts[1],
        ) {
            Ok(
                ResolutionStep::Resolved(
                    VersionRequirement::CaretMinor {
                        major: numeric_value(parts[0]) as u64,
                        minor: numeric_value(parts[1]) as u64,
                    },
                ),
            )
        } else if parts.len() == 3 && is_numeric_component(parts[0]) && is_numeric_component(
            parts[1],
        ) && is_numeric_component(parts[2]) {
            Ok(
                ResolutionStep::Resolved(
                    VersionRequirement::Exact(
                        SemanticVersion {
                            major: numeric_value(parts[0]) as u64,
                            minor: numeric_value(parts[1]) as u64,
                            patch: numeric_value(parts[2]) as u64,
                        },
                    ),
                ),
            )
        } else {
            Err(ResolveError::InvalidFormat)
        }
    }
}

/// Resolves a trimmed `.nvmrc` string into a matching rule, or names the
/// listing still needed for an alias.
pub fn resolve_nvm_version(version_str: &str) -> (r: Result<ResolutionStep, ResolveError>)
    ensures
        r == resolve_spec(version_str@),
{
    if str_eq(version_str, "lts") {
        return Ok(ResolutionStep::QueryLts);
    }
    if str_eq(version_str, "latest") {
        return Ok(ResolutionStep::QueryLatest);
    }
    let parts = split_str(version_str, '.');
    proof {
        assert forall|k: int| 0 <= k < parts@.len() implies parts@[k]@ == split_on(
            version_str@,
            '.',
        )[k] by {}
    }
    if parts.len() == 1 {
        match parse_numeric_component(parts[0]) {
            Some(major) => Ok(ResolutionStep::Resolved(VersionRequirement::CaretMajor { major })),
            None => Err(ResolveError::InvalidFormat),
        }
    } else if parts.len() == 2 {
        let major = match parse_numeric_component(parts[0]) {
            Some(x) => x,
            None => { return Err(ResolveError::InvalidFormat) },
        };
        let minor = match parse_numeric_component(parts[1]) {
            Some(x) => x,
            None => { return Err(ResolveError::InvalidFormat) },
        };
        Ok(ResolutionStep::Resolved(VersionRequirement::CaretMinor { major, minor }))
    } else if parts.len() == 3 {
        let major = match parse_numeric_component(parts[0]) {
            Some(x) => x,
            None => { return Err(ResolveError::InvalidFormat) },
        };
        let minor = match parse_numeric_component(parts[1]) {
            Some(x) => x,
            None => { return Err(ResolveError::InvalidFormat) },
        };
        let patch = match parse_numeric_component(parts[2]) {
            Some(x) => x,
            None => { return Err(ResolveError::InvalidFormat) },
        };
        Ok(
            ResolutionStep::Resolved(
                VersionRequirement::Exact(SemanticVersion { major, minor, patch }),
            ),
        )
    } else {
        Err(ResolveError::InvalidFormat)
    }
}

/// An alias string has no dot, so it splits into a single piece.
proof fn lemma_alias_is_single_piece(s: Seq<char>)
    requires
        s == "lts"@ || s == "latest"@,
    ensures
        split_on(s, '.') =~~= seq![s],
{
    reveal_strlit("lts");
    reveal_strlit("latest");
    if s == "lts"@ {
        assert(s[0] == 'l' && s[1] == 't' && s[2] == 's');
        assert(forall|j: int| 0 <= j < s.len() ==> s[j] != '.');
    } else {
        assert(s[0] == 'l' && s[1] == 'a' && s[2] == 't' && s[3] == 'e' && s[4] == 's' && s[5]
            == 't');
        assert(forall|j: int| 0 <= j < s.len() ==> s[j] != '.');
    }
    lemma_split_on_whole(s, '.');
}

/// A well-formed three-component string resolves to an exact-match rule
/// that matches the version it spells out and no other.
pub proof fn lemma_exact_resolution_matches_only_itself(s: Seq<char>, w: SemanticVersion)
    requires
        split_on(s, '.').len() == 3,
        is_numeric_component(split_on(s, '.')[0]),
        is_numeric_component(split_on(s, '.')[1]),
        is_numeric_component(split_on(s, '.')[2]),
    ensures
        ({
            let parts = split_on(s, '.');
            let v = SemanticVersion {
                major: numeric_value(parts[0]) as u64,
                minor: numeric_value(parts[1]) as u64,
                patch: numeric_value(parts[2]) as u64,
            };
            &&& resolve_spec(s) == Ok::<ResolutionStep, ResolveError>(
                ResolutionStep::Resolved(VersionRequirement::Exact(v)),
            )
            &&& (req_matches(VersionRequirement::Exact(v), w) <==> w == v)
        }),
{
    lemma_numeric_value_nonneg(split_on(s, '.')[0]);
    lemma_numeric_value_nonneg(split_on(s, '.')[1]);
    lemma_numeric_value_nonneg(split_on(s, '.')[2]);
    if s == "lts"@ || s == "latest"@ {
        lemma_alias_is_single_piece(s);
    }
}

/// A one-component string `X` with `X > 0` resolves to a caret rule that
/// matches exactly the versions with major component `X`.
pub proof fn lemma_major_caret_matches_same_major(s: Seq<char>, w: SemanticVersion)
    requires
        split_on(s, '.').len() == 1,
        is_numeric_component(split_on(s, '.')[0]),
        numeric_value(split_on(s, '.')[0]) > 0,
    ensures
        ({
            let x = numeric_value(split_on(s, '.')[0]);
            &&& resolve_spec(s) == Ok::<ResolutionStep, ResolveError>(
                ResolutionStep::Resolved(VersionRequirement::CaretMajor { major: x as u64 }),
            )
            &&& (req_matches(
                VersionRequirement::CaretMajor { major: x as u64 },
                w,
            ) <==> w.major == x)
        }),
{
    if s == "lts"@ || s == "latest"@ {
        lemma_alias_is_single_piece(s);
        assert(split_on(s, '.')[0] == s);
        assert(is_digit(s[0]));
        reveal_strlit("lts");
        reveal_strlit("latest");
        assert(false);
    }
}

/// A two-component string `X.Y` with `X > 0` resolves to a caret rule that
/// matches exactly the versions with major `X` and minor at least `Y`.
pub proof fn lemma_minor_caret_matches_compatible(s: Seq<char>, w: SemanticVersion)
    requires
        split_on(s, '.').len() == 2,
        is_numeric_component(split_on(s, '.')[0]),
        is_numeric_component(split_on(s, '.')[1]),
        numeric_value(split_on(s, '.')[0]) > 0,
    ensures
        ({
            let x = numeric_value(split_on(s, '.')[0]);
            let y = numeric_value(split_on(s, '.')[1]);
            &&& resolve_spec(s) == Ok::<ResolutionStep, ResolveError>(
                ResolutionStep::Resolved(
                    VersionRequirement::CaretMinor { major: x as u64, minor: y as u64 },
                ),
            )
            &&& (req_matches(
                VersionRequirement::CaretMinor { major: x as u64, minor: y as u64 },
                w,
            ) <==> w.major == x && w.minor >= y)
        }),
{
    lemma_numeric_value_nonneg(split_on(s, '.')[0]);
    lemma_numeric_value_nonneg(split_on(s, '.')[1]);
    if s == "lts"@ || s == "latest"@ {
        lemma_alias_is_single_piece(s);
    }
}

/// A two-component string `0.Y` resolves to a caret rule that allows
/// patch-level movement only: major and minor are pinned, the patch is
/// free.
pub proof fn lemma_zero_major_caret_restricts_to_patch(s: Seq<char>, w: SemanticVersion)
    requires
        split_on(s, '.').len() == 2,
        is_numeric_component(split_on(s, '.')[0]),
        is_numeric_component(split_on(s, '.')[1]),
        numeric_value(split_on(s, '.')[0]) == 0,
    ensures
        ({
            let y = numeric_value(split_on(s, '.')[1]);
            &&& resolve_spec(s) == Ok::<ResolutionStep, ResolveError>(
                ResolutionStep::Resolved(
                    VersionRequirement::CaretMinor { major: 0, minor: y as u64 },
                ),
            )
            &&& (req_matches(
                VersionRequirement::CaretMinor { major: 0, minor: y as u64 },
                w,
            ) <==> w.major == 0 && w.minor == y)
        }),
{
    lemma_numeric_value_nonneg(split_on(s, '.')[1]);
    if s == "lts"@ || s == "latest"@ {
        lemma_alias_is_single_piece(s);
    }
}

/// A string that is neither an alias nor one to three numeric components
/// always fails with the invalid-format error and produces no rule.
pub proof fn lemma_invalid_shape_never_resolves(s: Seq<char>)
    requires
        s != "lts"@,
        s != "latest"@,
        ({
            let parts = split_on(s, '.');
            &&& !(parts.len() == 1 && is_numeric_component(parts[0]))
            &&& !(parts.len() == 2 && is_numeric_component(parts[0]) && is_numeric_component(
                parts[1],
            ))
            &&& !(parts.len() == 3 && is_numeric_component(parts[0]) && is_numeric_component(
                parts[1],
            ) && is_numeric_component(parts[2]))
        }),
    ensures
        resolve_spec(s) == Err::<ResolutionStep, ResolveError>(ResolveError::InvalidFormat),
{
}

/// A line of the installed-versions listing that names the active LTS
/// release: it carries the active marker `->`, an `lts/` tag, and at least
/// a second whitespace-delimited token (the version).
pub open spec fn is_lts_line(line: Seq<char>) -> bool {
    &&& contains_seq(line, "->"@)
    &&& contains_seq(line, "lts/"@)
    &&& tokens(line).len() >= 2
}

/// Scanning the listing's lines in order: the first active LTS line
/// decides, its second token parsed as a version.
pub open spec fn lts_from_lines(ls: Seq<Seq<char>>) -> Result<SemanticVersion, ResolveError>
    decreases ls.len(),
{
    if ls.len() == 0 {
        Err(ResolveError::NoLtsLine)
    } else if is_lts_line(ls[0]) {
        match parse_version_spec(tokens(ls[0])[1]) {
            Some(v) => Ok(v),
            None => Err(ResolveError::LtsVersionSyntax),
        }
    } else {
        lts_from_lines(ls.drop_first())
    }
}

pub open spec fn lts_listing_spec(listing: Seq<char>) -> Result<SemanticVersion, ResolveError> {
    lts_from_lines(split_on(listing, '\n'))
}

/// Finds the version currently marked as the active LTS release in the
/// version manager's installed-versions listing.
pub fn extract_lts_version(listing: &str) -> (r: Result<SemanticVersion, ResolveError>)
    ensures
        r == lts_listing_spec(listing@),
{
    let lines = split_str(listing, '\n');
    let ghost all = lines.deep_view();
    proof {
        assert(all.skip(0) =~= all);
    }
    let mut k: usize = 0;
    while k < lines.len()
        invariant
            0 <= k <= lines.len(),
            all == lines.deep_view(),
            all == split_on(listing@, '\n'),
            lts_from_lines(all.skip(k as int)) == lts_listing_spec(listing@),
        decreases lines.len() - k,
    {
        let line = lines[k];
        proof {
            assert(line@ == all[k as int]);
            assert(all.skip(k as int)[0] == line@);
            assert(all.skip(k as int).drop_first() =~= all.skip(k as int + 1));
        }
        if str_contains(line, "->") && str_contains(line, "lts/") {
            match second_token(line) {
                Some(tok) => {
                    proof {
                        assert(is_lts_line(line@));
                    }
                    match parse_version(tok) {
                        Some(v) => { return Ok(v) },
                        None => { return Err(ResolveError::LtsVersionSyntax) },
                    }
                },
                None => {
                    proof {
                        assert(!is_lts_line(line@));
                    }
                },
            }
        } else {
            proof {
                assert(!is_lts_line(line@));
            }
        }
        k = k + 1;
    }
    proof {
        assert(all.skip(k as int) =~= Seq::<Seq<char>>::empty());
    }
    Err(ResolveError::NoLtsLine)
}

/// A line of the remote-versions listing that names a version: after
/// trimming it begins with `v`.
pub open spec fn is_latest_line(line: Seq<char>) -> bool {
    trim_spec(line).len() > 0 && trim_spec(line)[0] == 'v'
}

/// Scanning the listing's lines in reverse: the last version line decides,
/// its trimmed text parsed as a version.
pub open spec fn latest_from_lines(ls: Seq<Seq<char>>) -> Result<SemanticVersion, ResolveError>
    decreases ls.len(),
{
    if ls.len() == 0 {
        Err(ResolveError::NoLatestLine)
    } else if is_latest_line(ls.last()) {
        match parse_version_spec(trim_spec(ls.last())) {
            Some(v) => Ok(v),
            None => Err(ResolveError::LatestVersionSyntax),
        }
    } else {
        latest_from_lines(ls.drop_last())
    }
}

pub open spec fn latest_listing_spec(listing: Seq<char>) -> Result<SemanticVersion, ResolveError> {
    latest_from_lines(split_on(listing, '\n'))
}

/// Finds the highest-ordered version in the version manager's
/// remote-versions listing, assuming the listing is ordered ascending:
/// the last line that begins with `v` after trimming.
pub fn extract_latest_version(listing: &str) -> (r: Result<SemanticVersion, ResolveError>)
    ensures
        r == latest_listing_spec(listing@),
{
    let lines = split_str(listing, '\n');
    let ghost all = lines.deep_view();
    proof {
        assert(all.take(lines.len() as int) =~= all);
    }
    let mut k: usize = lines.len();
    while k > 0
        invariant
            0 <= k <= lines.len(),
            all == lines.deep_view(),
            all == split_on(listing@, '\n'),
            latest_from_lines(all.take(k as int)) == latest_listing_spec(listing@),
        decreases k,
    {
        k = k - 1;
        let line = lines[k];
        proof {
            assert(line@ == all[k as int]);
            assert(all.take(k as int + 1).last() == line@);
            assert(all.take(k as int + 1).drop_last() =~= all.take(k as int));
        }
        let t = trim_str(line);
        if t.unicode_len() > 0 && t.get_char(0) == 'v' {
            proof {
                assert(is_latest_line(line@));
            }
            match parse_version(t) {
                Some(v) => { return Ok(v) },
                None => { return Err(ResolveError::LatestVersionSyntax) },
            }
        }
        proof {
            assert(!is_latest_line(line@));
        }
    }
    proof {
        assert(all.take(0) =~= Seq::<Seq<char>>::empty());
    }
    Err(ResolveError::NoLatestLine)
}

/// Resolves the `lts` alias against the installed-versions listing: an
/// exact-match requirement pinned to the active LTS version.
pub fn resolve_lts_listing(listing: &str) -> (r: Result<VersionRequirement, ResolveError>)
    ensures
        r == match lts_listing_spec(listing@) {
            Ok(v) => Ok::<VersionRequirement, ResolveError>(VersionRequirement::Exact(v)),
            Err(e) => Err::<VersionRequirement, ResolveError>(e),
        },
{
    match extract_lts_version(listing) {
        Ok(v) => Ok(VersionRequirement::Exact(v)),
        Err(e) => Err(e),
    }
}

/// Resolves the `latest` alias against the remote-versions listing: an
/// exact-match requirement pinned to the highest listed version.
pub fn resolve_latest_listing(listing: &str) -> (r: Result<VersionRequirement, ResolveError>)
    ensures
        r == match latest_listing_spec(listing@) {
            Ok(v) => Ok::<VersionRequirement, ResolveError>(VersionRequirement::Exact(v)),
            Err(e) => Err::<VersionRequirement, ResolveError>(e),
        },
{
    match extract_latest_version(listing) {
        Ok(v) => Ok(VersionRequirement::Exact(v)),
        Err(e) => Err(e),
    }
}

} // verus!
