//! Why the plugin interface could not be enabled.

use vstd::prelude::*;

use crate::text::concat;

verus! {

/// Why the plugin interface could not be enabled. Each says more in a text.
#[derive(Debug)]
pub enum NriError {
    Io(String),
    CommandFailed(String),
    Parse(String),
    VersionUnsupported(String),
    ConfigNotFound(String),
    Privilege(String),
    RestartUnavailable(String),
    Timeout(String),
    VerificationFailed(String),
    DetectionFailed(String),
    TomlMutation(String),
}

/// What an error says.
pub ghost enum NriErrorView {
    Io(Seq<char>),
    CommandFailed(Seq<char>),
    Parse(Seq<char>),
    VersionUnsupported(Seq<char>),
    ConfigNotFound(Seq<char>),
    Privilege(Seq<char>),
    RestartUnavailable(Seq<char>),
    Timeout(Seq<char>),
    VerificationFailed(Seq<char>),
    DetectionFailed(Seq<char>),
    TomlMutation(Seq<char>),
}

impl View for NriError {
    type V = NriErrorView;

    open spec fn view(&self) -> NriErrorView {
        match *self {
            NriError::Io(s) => NriErrorView::Io(s@),
            NriError::CommandFailed(s) => NriErrorView::CommandFailed(s@),
            NriError::Parse(s) => NriErrorView::Parse(s@),
            NriError::VersionUnsupported(s) => NriErrorView::VersionUnsupported(s@),
            NriError::ConfigNotFound(s) => NriErrorView::ConfigNotFound(s@),
            NriError::Privilege(s) => NriErrorView::Privilege(s@),
            NriError::RestartUnavailable(s) => NriErrorView::RestartUnavailable(s@),
            NriError::Timeout(s) => NriErrorView::Timeout(s@),
            NriError::VerificationFailed(s) => NriErrorView::VerificationFailed(s@),
            NriError::DetectionFailed(s) => NriErrorView::DetectionFailed(s@),
            NriError::TomlMutation(s) => NriErrorView::TomlMutation(s@),
        }
    }
}

impl NriErrorView {
    /// The text of an error.
    pub open spec fn text(self) -> Seq<char> {
        match self {
            NriErrorView::Io(s) => "I/O error: "@ + s,
            NriErrorView::CommandFailed(s) => "Command failed: "@ + s,
            NriErrorView::Parse(s) => "Parse error: "@ + s,
            NriErrorView::VersionUnsupported(s) => "Unsupported version: "@ + s,
            NriErrorView::ConfigNotFound(s) => "Config not found: "@ + s,
            NriErrorView::Privilege(s) => "Insufficient privileges: "@ + s,
            NriErrorView::RestartUnavailable(s) => "Restart unavailable: "@ + s,
            NriErrorView::Timeout(s) => "Timed out: "@ + s,
            NriErrorView::VerificationFailed(s) => "Verification failed: "@ + s,
            NriErrorView::DetectionFailed(s) => "Detection failed: "@ + s,
            NriErrorView::TomlMutation(s) => "TOML mutation failed: "@ + s,
        }
    }
}

impl NriError {
    /// The text of the error.
    pub fn message(&self) -> (r: String)
        ensures
            r@ == self@.text(),
    {
        match self {
            NriError::Io(s) => concat("I/O error: ", s.as_str()),
            NriError::CommandFailed(s) => concat("Command failed: ", s.as_str()),
            NriError::Parse(s) => concat("Parse error: ", s.as_str()),
            NriError::VersionUnsupported(s) => concat("Unsupported version: ", s.as_str()),
            NriError::ConfigNotFound(s) => concat("Config not found: ", s.as_str()),
            NriError::Privilege(s) => concat("Insufficient privileges: ", s.as_str()),
            NriError::RestartUnavailable(s) => concat("Restart unavailable: ", s.as_str()),
            NriError::Timeout(s) => concat("Timed out: ", s.as_str()),
            NriError::VerificationFailed(s) => concat("Verification failed: ", s.as_str()),
            NriError::DetectionFailed(s) => concat("Detection failed: ", s.as_str()),
            NriError::TomlMutation(s) => concat("TOML mutation failed: ", s.as_str()),
        }
    }
}

}
