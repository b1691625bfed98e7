//! The error taxonomy of the engine: fatal parse errors, recoverable
//! source failures, resolution failures, and tracking failures that are
//! only ever logged.

use vstd::prelude::*;

verus! {

/// Why a load or a resolution failed.
#[derive(Debug)]
pub enum Error {
    /// Malformed source content; fatal, names the offending path.
    Parse { path: String, detail: String },
    /// A plugin query failed or timed out; recoverable.
    SourceUnavailable { plugin: String },
    /// No version matched a request; names the plugin and the request.
    Resolution { plugin: String, requested: String },
    /// A change-tracker failure; never escalated.
    Tracking { detail: String },
}

/// Spec model of an [`Error`].
pub ghost enum ErrorModel {
    Parse { path: Seq<char>, detail: Seq<char> },
    SourceUnavailable { plugin: Seq<char> },
    Resolution { plugin: Seq<char>, requested: Seq<char> },
    Tracking { detail: Seq<char> },
}

impl View for Error {
    type V = ErrorModel;

    open spec fn view(&self) -> ErrorModel {
        match self {
            Error::Parse { path, detail } => ErrorModel::Parse { path: path@, detail: detail@ },
            Error::SourceUnavailable { plugin } => ErrorModel::SourceUnavailable {
                plugin: plugin@,
            },
            Error::Resolution { plugin, requested } => ErrorModel::Resolution {
                plugin: plugin@,
                requested: requested@,
            },
            Error::Tracking { detail } => ErrorModel::Tracking { detail: detail@ },
        }
    }
}

/// The message an error is reported under.
pub open spec fn spec_message(e: ErrorModel) -> Seq<char> {
    match e {
        ErrorModel::Parse { path, detail } => "error parsing config file: "@ + path + ": "@
            + detail,
        ErrorModel::SourceUnavailable { plugin } => "plugin unavailable: "@ + plugin,
        ErrorModel::Resolution { plugin, requested } => plugin + ": no version found matching "@
            + requested,
        ErrorModel::Tracking { detail } => "tracking config files: "@ + detail,
    }
}

impl Error {
    /// The user-visible message.
    pub fn message(&self) -> (r: String)
        ensures
            r@ == spec_message(self@),
    {
        match self {
            Error::Parse { path, detail } => String::from_str("error parsing config file: ")
                .concat(path.as_str()).concat(": ").concat(detail.as_str()),
            Error::SourceUnavailable { plugin } => String::from_str("plugin unavailable: ").concat(
                plugin.as_str(),
            ),
            Error::Resolution { plugin, requested } => plugin.clone().concat(
                ": no version found matching ",
            ).concat(requested.as_str()),
            Error::Tracking { detail } => String::from_str("tracking config files: ").concat(
                detail.as_str(),
            ),
        }
    }
}

} // verus!
