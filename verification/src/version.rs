//! Semantic versions.

use crate::text;
use vstd::prelude::*;

verus! {

/// A semantic version.
#[derive(Debug, PartialEq, Eq)]
pub struct Version {
    pub major: u64,
    pub minor: u64,
    pub patch: u64,
    pub pre: String,
    pub build: String,
}

/// A semantic version, in specifications.
pub struct VersionView {
    pub major: nat,
    pub minor: nat,
    pub patch: nat,
    pub pre: Seq<char>,
    pub build: Seq<char>,
}

impl View for Version {
    type V = VersionView;

    open spec fn view(&self) -> VersionView {
        VersionView {
            major: self.major as nat,
            minor: self.minor as nat,
            patch: self.patch as nat,
            pre: self.pre@,
            build: self.build@,
        }
    }
}

impl Clone for Version {
    fn clone(&self) -> (result: Self)
        ensures
            result == *self,
    {
        Version {
            major: self.major,
            minor: self.minor,
            patch: self.patch,
            pre: self.pre.clone(),
            build: self.build.clone(),
        }
    }
}

/// The text of an optional part of a version, behind its mark.
pub open spec fn marked(mark: char, part: Seq<char>) -> Seq<char> {
    if part.len() == 0 {
        Seq::empty()
    } else {
        seq![mark] + part
    }
}

/// The text of a version: `major.minor.patch`, then `-pre` and `+build` where they
/// are not empty.
pub open spec fn version_text(version: VersionView) -> Seq<char> {
    text::decimal(version.major).push('.') + text::decimal(version.minor).push('.')
        + text::decimal(version.patch) + marked('-', version.pre) + marked('+', version.build)
}

/// What `semver::Version::parse` makes of a text: the version, or its message.
pub uninterp spec fn semver_parse(s: Seq<char>) -> Result<VersionView, Seq<char>>;

/// Calls `semver::Version::parse` and takes the fields of the version out, or the
/// text of the error. Claims that the outcome is a function of the text, and that a
/// version that was read is written as the text it was read from.
#[verifier::external_body]
fn parse_semver(input: &str) -> (result: Result<Version, String>)
    ensures
        match result {
            Ok(version) => semver_parse(input@) == Ok::<VersionView, Seq<char>>(version@)
                && version_text(version@) == input@,
            Err(message) => semver_parse(input@) == Err::<VersionView, Seq<char>>(message@),
        },
{
    match semver::Version::parse(input) {
        Ok(version) => Ok(
            Version {
                major: version.major,
                minor: version.minor,
                patch: version.patch,
                pre: version.pre.as_str().to_string(),
                build: version.build.as_str().to_string(),
            },
        ),
        Err(error) => Err(error.to_string()),
    }
}

impl Version {
    /// Reads a version.
    pub fn parse(input: &str) -> (result: Result<Version, String>)
        ensures
            match result {
                Ok(version) => semver_parse(input@) == Ok::<VersionView, Seq<char>>(version@)
                    && version_text(version@) == input@,
                Err(message) => semver_parse(input@) == Err::<VersionView, Seq<char>>(message@),
            },
    {
        parse_semver(input)
    }

    /// The text of the version.
    pub fn to_text(&self) -> (result: String)
        ensures
            result@ == version_text(self@),
    {
        let mut result = text::number(self.major);
        result.push('.');
        result.append(text::number(self.minor).as_str());
        result.push('.');
        result.append(text::number(self.patch).as_str());
        let ghost numbers = result@;
        assert(numbers =~= text::decimal(self.major as nat).push('.') + text::decimal(
            self.minor as nat,
        ).push('.') + text::decimal(self.patch as nat));
        if !self.pre.as_str().is_empty() {
            result.push('-');
            result.append(self.pre.as_str());
        }
        assert(result@ =~= numbers + marked('-', self.pre@));
        let ghost released = result@;
        if !self.build.as_str().is_empty() {
            result.push('+');
            result.append(self.build.as_str());
        }
        assert(result@ =~= released + marked('+', self.build@));
        result
    }
}

} // verus!
