//! Versions of programs.

use vstd::prelude::*;

use crate::decimal::{dec, u128_to_string};
use crate::text::concat;

verus! {

/// A semantic version. The last two fields are empty where it has no such part.
#[derive(Debug, Clone)]
pub struct Version {
    pub major: u64,
    pub minor: u64,
    pub patch: u64,
    pub pre: String,
    pub build: String,
}

/// A semantic version as a value.
pub ghost struct VersionView {
    pub major: u64,
    pub minor: u64,
    pub patch: u64,
    pub pre: Seq<char>,
    pub build: Seq<char>,
}

impl View for Version {
    type V = VersionView;

    open spec fn view(&self) -> VersionView {
        VersionView {
            major: self.major,
            minor: self.minor,
            patch: self.patch,
            pre: self.pre@,
            build: self.build@,
        }
    }
}

/// A version that may be unknown, as a value.
pub open spec fn version_view(v: Option<Version>) -> Option<VersionView> {
    match v {
        Some(v) => Some(v@),
        None => None,
    }
}

impl VersionView {
    /// Whether the version comes before the release of the given numbers: its numbers are less,
    /// or they are the same and it is a pre-release.
    pub open spec fn before(self, major: u64, minor: u64, patch: u64) -> bool {
        ||| self.major < major
        ||| self.major == major && self.minor < minor
        ||| self.major == major && self.minor == minor && self.patch < patch
        ||| self.major == major && self.minor == minor && self.patch == patch && self.pre.len() > 0
    }

    /// The version as text.
    pub open spec fn text(self) -> Seq<char> {
        let numbers = dec(self.major as nat) + "."@ + dec(self.minor as nat) + "."@ + dec(
            self.patch as nat,
        );
        let with_pre = if self.pre.len() > 0 {
            numbers + "-"@ + self.pre
        } else {
            numbers
        };
        if self.build.len() > 0 {
            with_pre + "+"@ + self.build
        } else {
            with_pre
        }
    }
}

impl Version {
    /// Whether the version comes before the release of the given numbers.
    pub fn is_before(&self, major: u64, minor: u64, patch: u64) -> (r: bool)
        ensures
            r == self@.before(major, minor, patch),
    {
        if self.major != major {
            self.major < major
        } else if self.minor != minor {
            self.minor < minor
        } else if self.patch != patch {
            self.patch < patch
        } else {
            !self.pre.as_str().is_empty()
        }
    }

    /// The version as text.
    pub fn to_text(&self) -> (r: String)
        ensures
            r@ == self@.text(),
    {
        let major = u128_to_string(self.major as u128);
        let minor = u128_to_string(self.minor as u128);
        let patch = u128_to_string(self.patch as u128);
        let mut text = concat(major.as_str(), ".");
        text.append(minor.as_str());
        text.append(".");
        text.append(patch.as_str());
        if !self.pre.as_str().is_empty() {
            text.append("-");
            text.append(self.pre.as_str());
        }
        if !self.build.as_str().is_empty() {
            text.append("+");
            text.append(self.build.as_str());
        }
        text
    }

    /// A copy of the version.
    pub fn copy(&self) -> (r: Version)
        ensures
            r@ == self@,
    {
        Version {
            major: self.major,
            minor: self.minor,
            patch: self.patch,
            pre: self.pre.clone(),
            build: self.build.clone(),
        }
    }
}

/// The numbers, the pre-release and the build metadata of the version that a text is.
pub uninterp spec fn parsed_version(text: Seq<char>) -> Option<
    (u64, u64, u64, Seq<char>, Seq<char>),
>;

/// The version with the given parts.
pub open spec fn version_of(parts: Option<(u64, u64, u64, Seq<char>, Seq<char>)>) -> Option<
    VersionView,
> {
    match parts {
        Some((major, minor, patch, pre, build)) => Some(
            VersionView { major, minor, patch, pre, build },
        ),
        None => None,
    }
}

/// Reads a version: `semver::Version::parse`. `None` where the text is none.
#[verifier::external_body]
pub(crate) fn parse_version(text: &str) -> (r: Option<Version>)
    ensures
        version_view(r) == version_of(parsed_version(text@)),
{
    semver::Version::parse(text).ok().map(|v| Version {
        major: v.major,
        minor: v.minor,
        patch: v.patch,
        pre: v.pre.as_str().to_string(),
        build: v.build.as_str().to_string(),
    })
}

/// The first part of a text that matches a regular expression.
pub uninterp spec fn first_match(pattern: Seq<char>, text: Seq<char>) -> Option<Seq<char>>;

/// Finds the first part of a text that matches a regular expression: `regex::Regex::new` and
/// `Regex::find`. `None` where nothing matches, or the pattern is no regular expression.
#[verifier::external_body]
pub(crate) fn find_match(pattern: &str, text: &str) -> (r: Option<String>)
    ensures
        match r {
            Some(m) => first_match(pattern@, text@) == Some(m@),
            None => first_match(pattern@, text@) is None,
        },
{
    let re = regex::Regex::new(pattern).ok()?;
    re.find(text).map(|m| m.as_str().to_string())
}

/// What three numbers with dots between them match, that no word character touches.
pub const VERSION_PATTERN: &'static str = r"\b(\d+)\.(\d+)\.(\d+)\b";

/// The version that the first match in a text is.
pub open spec fn first_version(text: Seq<char>) -> Option<VersionView> {
    match first_match(VERSION_PATTERN@, text) {
        Some(m) => version_of(parsed_version(m)),
        None => None,
    }
}

/// The version that the first three numbers with dots between them in a text are.
pub fn parse_first_semver(s: &str) -> (r: Option<Version>)
    ensures
        version_view(r) == first_version(s@),
{
    match find_match(VERSION_PATTERN, s) {
        Some(m) => parse_version(m.as_str()),
        None => None,
    }
}

/// No release comes before the release of its own numbers.
pub proof fn law_before_is_irreflexive(v: VersionView)
    requires
        v.pre.len() == 0,
    ensures
        !v.before(v.major, v.minor, v.patch),
{
}

/// Where a version comes before a release, it comes before every release that is not older.
pub proof fn law_before_is_transitive(
    v: VersionView,
    major: u64,
    minor: u64,
    patch: u64,
    next_major: u64,
    next_minor: u64,
    next_patch: u64,
)
    requires
        v.before(major, minor, patch),
        major < next_major || (major == next_major && (minor < next_minor || (minor == next_minor
            && patch <= next_patch))),
    ensures
        v.before(next_major, next_minor, next_patch),
{
}

}
