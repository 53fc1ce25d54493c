//! Whether a newer release of the program is known.

use vstd::prelude::*;
use std::cmp::Ordering;
use semver::Version;
use crate::order::Rank;

verus! {

/// The seconds for which a remembered release counts.
pub const CACHE_EXPIRE_SECS: u64 = 3600;

/// `semver::Version`: a version as `semver` holds it, carried as it is.
#[verifier::external_type_specification]
#[verifier::external_body]
pub struct ExVersion(Version);

/// The version that `semver::Version::parse` reads from a text, or `None`
/// where it rejects the text.
pub uninterp spec fn parsed_version(text: Seq<char>) -> Option<Version>;

/// How the `Ord` of `semver::Version` orders two versions.
pub uninterp spec fn version_rank(a: Version, b: Version) -> Rank;

/// Reads a version from its text.
///
/// Trusted: the result is what `semver::Version::parse` returns, and `None`
/// where it fails.
#[verifier::external_body]
fn parse_version(text: &str) -> (r: Option<Version>)
    ensures
        r == parsed_version(text@),
{
    Version::parse(text).ok()
}

/// Orders two versions.
///
/// Trusted: the result is how the `Ord` of `semver::Version` orders them.
#[verifier::external_body]
fn rank_versions(a: &Version, b: &Version) -> (r: Rank)
    ensures
        r == version_rank(*a, *b),
{
    match a.cmp(b) {
        Ordering::Less => Rank::Before,
        Ordering::Equal => Rank::Same,
        Ordering::Greater => Rank::After,
    }
}

/// Why two releases cannot be compared.
#[derive(Debug, Clone, Copy, PartialEq, Eq, Structural)]
pub enum VersionError {
    /// The running release is no version.
    Current,
    /// The latest release is no version.
    Latest,
}

impl VersionError {
    /// The message shown to the operator.
    pub fn message(&self) -> (r: &'static str)
        ensures
            r@ == (match *self {
                VersionError::Current => "unable to parse current version"@,
                VersionError::Latest => "unable to parse tag_name"@,
            }),
    {
        match self {
            VersionError::Current => "unable to parse current version",
            VersionError::Latest => "unable to parse tag_name",
        }
    }
}

/// What to make of the release that was remembered.
#[derive(Debug, Clone, Copy, PartialEq, Eq, Structural)]
pub enum CacheVerdict {
    /// Nothing usable is remembered: ask for the latest release.
    Refresh,
    /// A newer release than the running one is remembered.
    NewerAvailable,
    /// The running release is the one remembered.
    UpToDate,
}

/// The verdict for a remembered release that is fresh and stands to the
/// running one as `order` says; `order` is missing where what is remembered
/// is no version.
pub open spec fn verdict_of(order: Option<Rank>) -> CacheVerdict {
    match order {
        Some(Rank::After) => CacheVerdict::NewerAvailable,
        Some(Rank::Same) => CacheVerdict::UpToDate,
        _ => CacheVerdict::Refresh,
    }
}

/// What a remembered release of the given age means for the running one.
/// A running release that is no version is an error, whatever is
/// remembered.
pub open spec fn cached_verdict(cached: Seq<char>, age_secs: u64, current: Seq<char>) -> Result<
    CacheVerdict,
    VersionError,
> {
    match parsed_version(current) {
        None => Err(VersionError::Current),
        Some(running) => if age_secs >= CACHE_EXPIRE_SECS {
            Ok(CacheVerdict::Refresh)
        } else {
            match parsed_version(cached) {
                None => Ok(CacheVerdict::Refresh),
                Some(remembered) => Ok(verdict_of(Some(version_rank(remembered, running)))),
            }
        },
    }
}

/// The verdict for a remembered release that is fresh and stands to the
/// running one as `order` says.
pub fn judge_order(order: Option<Rank>) -> (r: CacheVerdict)
    ensures
        r == verdict_of(order),
{
    match order {
        Some(Rank::After) => CacheVerdict::NewerAvailable,
        Some(Rank::Same) => CacheVerdict::UpToDate,
        _ => CacheVerdict::Refresh,
    }
}

/// Judges the release that was remembered `age_secs` seconds ago against the
/// running one. A memory that is too old, unreadable, or older than the
/// running release calls for a fresh look.
pub fn judge_cached(cached: &str, age_secs: u64, current: &str) -> (r: Result<
    CacheVerdict,
    VersionError,
>)
    ensures
        r == cached_verdict(cached@, age_secs, current@),
{
    let running = match parse_version(current) {
        Some(v) => v,
        None => {
            return Err(VersionError::Current);
        },
    };
    if age_secs >= CACHE_EXPIRE_SECS {
        return Ok(CacheVerdict::Refresh);
    }
    match parse_version(cached) {
        Some(remembered) => Ok(judge_order(Some(rank_versions(&remembered, &running)))),
        None => Ok(judge_order(None)),
    }
}

/// Whether the release `latest` is newer than the running one.
pub open spec fn newer(latest: Seq<char>, current: Seq<char>) -> Result<bool, VersionError> {
    match parsed_version(current) {
        None => Err(VersionError::Current),
        Some(running) => match parsed_version(latest) {
            None => Err(VersionError::Latest),
            Some(found) => Ok(version_rank(found, running) == Rank::After),
        },
    }
}

/// Whether `latest` is a newer release than `current`. It is an error where
/// either is no version; that of the running release comes first.
pub fn is_newer(latest: &str, current: &str) -> (r: Result<bool, VersionError>)
    ensures
        r == newer(latest@, current@),
{
    let running = match parse_version(current) {
        Some(v) => v,
        None => {
            return Err(VersionError::Current);
        },
    };
    match parse_version(latest) {
        Some(found) => Ok(
            match rank_versions(&found, &running) {
                Rank::After => true,
                _ => false,
            },
        ),
        None => Err(VersionError::Latest),
    }
}

} // verus!
