//! Versions of the host tool, and whether two of them differ.

use crate::error::InvalidVersion;
use vstd::prelude::*;

verus! {

#[verifier::external_type_specification]
#[verifier::external_body]
pub struct ExSemverError(semver::Error);

/// A version number by its parts. `pre` and `build` are empty where the
/// version has no pre-release or build part.
#[derive(Debug, PartialEq, Eq)]
pub struct Version {
    pub major: u64,
    pub minor: u64,
    pub patch: u64,
    pub pre: String,
    pub build: String,
}

impl View for Version {
    type V = (u64, u64, u64, Seq<char>, Seq<char>);

    open spec fn view(&self) -> (u64, u64, u64, Seq<char>, Seq<char>) {
        (self.major, self.minor, self.patch, self.pre@, self.build@)
    }
}

/// The parts of the version that `text` spells, where it spells one.
pub uninterp spec fn semver_parts(text: Seq<char>) -> Option<(u64, u64, u64, Seq<char>, Seq<char>)>;

/// `semver::Version::parse`: reads a version number and hands out its five
/// parts. Whether `text` is accepted, and the parts, depend on `text` alone.
#[verifier::external_body]
fn parse_semver(text: &str) -> (parsed: Result<Version, semver::Error>)
    ensures
        match parsed {
            Ok(version) => semver_parts(text@) == Some(version@),
            Err(_) => semver_parts(text@) is None,
        },
{
    let version = semver::Version::parse(text)?;
    Ok(
        Version {
            major: version.major,
            minor: version.minor,
            patch: version.patch,
            pre: version.pre.as_str().to_owned(),
            build: version.build.as_str().to_owned(),
        },
    )
}

impl Version {
    /// Reads the version number that `text` spells.
    pub fn parse(text: &str) -> (parsed: Result<Version, InvalidVersion>)
        ensures
            match parsed {
                Ok(version) => semver_parts(text@) == Some(version@),
                Err(_) => semver_parts(text@) is None,
            },
    {
        match parse_semver(text) {
            Ok(version) => Ok(version),
            Err(_) => Err(InvalidVersion),
        }
    }

    /// Whether the two versions differ in any part.
    pub fn differs(&self, other: &Version) -> (differ: bool)
        ensures
            differ == (self@ != other@),
    {
        self.major != other.major || self.minor != other.minor || self.patch != other.patch
            || self.pre != other.pre || self.build != other.build
    }
}

/// Whether the host's version `calling` differs from `built`, the version the
/// preprocessor was built against. Fails where either is no version number.
pub fn version_mismatch(calling: &str, built: &str) -> (mismatch: Result<bool, InvalidVersion>)
    ensures
        match mismatch {
            Ok(differ) => semver_parts(calling@) is Some && semver_parts(built@) is Some && differ
                == (semver_parts(calling@) != semver_parts(built@)),
            Err(_) => semver_parts(calling@) is None || semver_parts(built@) is None,
        },
{
    let calling = match Version::parse(calling) {
        Ok(version) => version,
        Err(error) => {
            return Err(error);
        },
    };
    let built = match Version::parse(built) {
        Ok(version) => version,
        Err(error) => {
            return Err(error);
        },
    };
    Ok(calling.differs(&built))
}

} // verus!
