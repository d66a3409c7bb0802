//! The versioned envelope of a stored scene: a version text beside the
//! scene itself, released for rendering only when the version lies in the
//! range this build accepts.

use vstd::prelude::*;
use vstd::string::StringExecFns;

verus! {

/// The version that a newly written envelope carries.
pub const FORMAT_VERSION: &'static str = "0.1.0";

/// The range of envelope versions that this build reads.
pub const ACCEPTED_VERSIONS: &'static str = "0.1.*";

/// Whether `semver::Version::parse` reads the text as a version.
pub uninterp spec fn semver_version_parses(text: Seq<char>) -> bool;

/// Whether `semver::VersionReq::parse` reads the text as a requirement.
pub uninterp spec fn semver_requirement_parses(text: Seq<char>) -> bool;

/// Whether the requirement that `semver` reads from the first text is met,
/// by `semver::VersionReq::matches`, by the version it reads from the second.
pub uninterp spec fn semver_matches(requirement: Seq<char>, version: Seq<char>) -> bool;

/// Calls `semver::Version::parse` and tells whether it succeeded. Trusted:
/// the answer depends on the text alone.
#[verifier::external_body]
fn version_parses(text: &str) -> (ok: bool)
    ensures
        ok == semver_version_parses(text@),
{
    semver::Version::parse(text).is_ok()
}

/// Calls `semver::VersionReq::parse` and tells whether it succeeded.
/// Trusted: the answer depends on the text alone.
#[verifier::external_body]
fn requirement_parses(text: &str) -> (ok: bool)
    ensures
        ok == semver_requirement_parses(text@),
{
    semver::VersionReq::parse(text).is_ok()
}

/// Calls `semver::VersionReq::matches` on the requirement and the version
/// that the two texts parse to. Trusted: the answer depends on the two texts
/// alone. Both texts must parse.
#[verifier::external_body]
fn requirement_matches(requirement: &str, version: &str) -> (yes: bool)
    requires
        semver_requirement_parses(requirement@),
        semver_version_parses(version@),
    ensures
        yes == semver_matches(requirement@, version@),
{
    let requirement = semver::VersionReq::parse(requirement).unwrap();
    let version = semver::Version::parse(version).unwrap();
    requirement.matches(&version)
}

/// How a version text stands to a requirement text.
#[derive(Clone, Copy, Debug, PartialEq, Eq, Structural)]
pub enum Verdict {
    /// The version meets the requirement.
    Accepted,
    /// The version text is not a semantic version.
    InvalidVersion,
    /// The version is well formed and does not meet the requirement.
    Mismatch,
    /// The requirement text is not a version requirement.
    InvalidRequirement,
}

/// The verdict on a version text under a requirement text. An unreadable
/// requirement is reported before an unreadable version.
pub open spec fn verdict(requirement: Seq<char>, version: Seq<char>) -> Verdict {
    if !semver_requirement_parses(requirement) {
        Verdict::InvalidRequirement
    } else if !semver_version_parses(version) {
        Verdict::InvalidVersion
    } else if semver_matches(requirement, version) {
        Verdict::Accepted
    } else {
        Verdict::Mismatch
    }
}

/// Holds a version text against a requirement text.
pub fn check_version(requirement: &str, version: &str) -> (v: Verdict)
    ensures
        v == verdict(requirement@, version@),
{
    if !requirement_parses(requirement) {
        Verdict::InvalidRequirement
    } else if !version_parses(version) {
        Verdict::InvalidVersion
    } else if requirement_matches(requirement, version) {
        Verdict::Accepted
    } else {
        Verdict::Mismatch
    }
}

/// Why an envelope's scene was not released.
#[derive(Debug)]
pub enum SceneError {
    /// The envelope's version text is not a semantic version.
    InvalidVersion { version: String },
    /// The envelope's version lies outside the required range.
    VersionMismatch { version: String, required: String },
    /// The required range is not a version requirement.
    InvalidRequirement { required: String },
}

/// The text that reports an unreadable version.
pub open spec fn invalid_version_text(version: Seq<char>) -> Seq<char> {
    "The world file reports a version of "@ + version + ", which is not a valid version."@
}

/// The text that reports a version outside the range; it names both.
pub open spec fn mismatch_text(version: Seq<char>, required: Seq<char>) -> Seq<char> {
    "The world file reports a version of "@ + version
        + ", but this version of the program requires a file with a version that matches "@
        + required + "."@
}

/// The text that reports an unreadable range.
pub open spec fn invalid_requirement_text(required: Seq<char>) -> Seq<char> {
    "Unable to parse the version requirement "@ + required + "."@
}

impl SceneError {
    /// The report of this error as a text.
    pub open spec fn text(self) -> Seq<char> {
        match self {
            SceneError::InvalidVersion { version } => invalid_version_text(version@),
            SceneError::VersionMismatch { version, required } => mismatch_text(
                version@,
                required@,
            ),
            SceneError::InvalidRequirement { required } => invalid_requirement_text(required@),
        }
    }

    /// Writes the report of this error.
    pub fn message(&self) -> (text: String)
        ensures
            text@ == self.text(),
    {
        match self {
            SceneError::InvalidVersion { version } => {
                let mut text = String::from_str("The world file reports a version of ");
                text.append(version.as_str());
                text.append(", which is not a valid version.");
                text
            },
            SceneError::VersionMismatch { version, required } => {
                let mut text = String::from_str("The world file reports a version of ");
                text.append(version.as_str());
                text.append(
                    ", but this version of the program requires a file with a version that matches ",
                );
                text.append(required.as_str());
                text.append(".");
                text
            },
            SceneError::InvalidRequirement { required } => {
                let mut text = String::from_str("Unable to parse the version requirement ");
                text.append(required.as_str());
                text.append(".");
                text
            },
        }
    }
}

/// A scene of type `W` together with the version of the format it was
/// written in.
pub struct WorldInfo<W> {
    version: String,
    world: W,
}

impl<W> WorldInfo<W> {
    /// The version text of the envelope.
    pub closed spec fn version_text(&self) -> Seq<char> {
        self.version@
    }

    /// The scene inside the envelope.
    pub closed spec fn payload(&self) -> W {
        self.world
    }

    /// What releasing the scene under the given verdict yields: the scene
    /// when the version was accepted, and otherwise the error that names the
    /// envelope's version and the range.
    pub open spec fn outcome(self, verdict: Verdict, required: Seq<char>, r: Result<W, SceneError>) -> bool {
        match verdict {
            Verdict::Accepted => r == Ok::<W, SceneError>(self.payload()),
            Verdict::InvalidVersion => r matches Err(SceneError::InvalidVersion { version })
                && version@ == self.version_text(),
            Verdict::Mismatch => r matches Err(
                SceneError::VersionMismatch { version, required: range },
            ) && version@ == self.version_text() && range@ == required,
            Verdict::InvalidRequirement => r matches Err(
                SceneError::InvalidRequirement { required: range },
            ) && range@ == required,
        }
    }

    /// Whether this build reads the envelope: its version is a semantic
    /// version within [`ACCEPTED_VERSIONS`].
    pub open spec fn is_compatible(&self) -> bool {
        verdict(ACCEPTED_VERSIONS@, self.version_text()) == Verdict::Accepted
    }

    /// Wraps a scene in an envelope that carries [`FORMAT_VERSION`].
    pub fn new(world: W) -> (info: Self)
        ensures
            info.version_text() == FORMAT_VERSION@,
            info.payload() == world,
    {
        WorldInfo { version: String::from_str(FORMAT_VERSION), world }
    }

    /// Puts together an envelope as it was read from a file.
    pub fn from_parts(version: String, world: W) -> (info: Self)
        ensures
            info.version_text() == version@,
            info.payload() == world,
    {
        WorldInfo { version, world }
    }

    /// The version text of the envelope.
    pub fn version(&self) -> (text: &str)
        ensures
            text@ == self.version_text(),
    {
        self.version.as_str()
    }

    /// The scene, not yet validated.
    pub fn world(&self) -> (world: &W)
        ensures
            *world == self.payload(),
    {
        &self.world
    }

    /// Takes the envelope apart into version and scene.
    pub fn into_parts(self) -> (parts: (String, W))
        ensures
            parts.0@ == self.version_text(),
            parts.1 == self.payload(),
    {
        (self.version, self.world)
    }

    /// Releases the scene of an envelope that this build reads.
    pub fn validate(self) -> (world: W)
        requires
            self.is_compatible(),
        ensures
            world == self.payload(),
    {
        self.world
    }

    /// Releases the scene or builds the error, as the verdict on the
    /// envelope's version under the range `required` says.
    pub fn release(self, verdict: Verdict, required: &str) -> (r: Result<W, SceneError>)
        ensures
            self.outcome(verdict, required@, r),
    {
        match verdict {
            Verdict::Accepted => Ok(self.world),
            Verdict::InvalidVersion => Err(SceneError::InvalidVersion { version: self.version }),
            Verdict::Mismatch => Err(
                SceneError::VersionMismatch {
                    version: self.version,
                    required: String::from_str(required),
                },
            ),
            Verdict::InvalidRequirement => Err(
                SceneError::InvalidRequirement { required: String::from_str(required) },
            ),
        }
    }

    /// Holds the envelope's version against the range `required` and releases
    /// the scene if it is met.
    pub fn validate_against(self, required: &str) -> (r: Result<W, SceneError>)
        ensures
            self.outcome(verdict(required@, self.version_text()), required@, r),
    {
        let verdict = check_version(required, self.version.as_str());
        self.release(verdict, required)
    }

    /// Holds the envelope's version against [`ACCEPTED_VERSIONS`] and
    /// releases the scene if this build reads it.
    pub fn try_validate(self) -> (r: Result<W, SceneError>)
        ensures
            self.outcome(
                verdict(ACCEPTED_VERSIONS@, self.version_text()),
                ACCEPTED_VERSIONS@,
                r,
            ),
    {
        let verdict = check_version(ACCEPTED_VERSIONS, self.version.as_str());
        match verdict {
            Verdict::Accepted => Ok(self.validate()),
            _ => self.release(verdict, ACCEPTED_VERSIONS),
        }
    }
}

} // verus!
