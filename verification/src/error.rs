//! Errors of the request pipeline.

use vstd::prelude::*;
use crate::text::push_str;

verus! {

/// Everything that can go wrong in the pipeline. Errors that come from the
/// transport or from a serializer carry that error's text.
#[allow(inconsistent_fields)]
#[derive(Debug)]
pub enum ArtfulError {
    /// The HTTP request could not be executed.
    RequestFailed { message: String },
    /// The HTTP client could not be built.
    ClientBuildError { message: String },
    /// The HTTP request could not be built.
    RequestBuildError { message: String },
    /// A value could not be written as JSON.
    JsonSerializeError { message: String },
    /// A text could not be read as JSON (or as the requested type).
    JsonDeserializeError { message: String, source: Option<String> },
    /// A value could not be written as XML.
    XmlSerializeError { message: String, source: Option<String> },
    /// A text could not be read as XML.
    XmlDeserializeError { message: String, source: Option<String> },
    /// A plugin failed.
    PluginExecutionError { plugin_name: String, message: String, source: Option<String> },
    /// An event listener failed; `original` is the request error it displaced.
    EventListenerError {
        listener_name: String,
        message: String,
        source: Option<Box<ArtfulError>>,
        original: Option<Box<ArtfulError>>,
    },
    /// A required parameter is missing.
    MissingParameter(String),
    /// A parameter is invalid.
    InvalidParameter { param: String, message: String },
    /// The response could not be parsed.
    DirectionParseError(String),
    /// No HTTP request was built.
    MissingRequest,
    /// No HTTP response is at hand.
    MissingResponse,
    /// The destination is not of the kind asked for.
    DestinationMismatch { expected: String, actual: String },
    /// Anything else.
    Other(String),
}

/// The text an error is displayed with.
pub open spec fn error_text(e: ArtfulError) -> Seq<char> {
    match e {
        ArtfulError::RequestFailed { message } => "HTTP request failed: "@ + message@,
        ArtfulError::ClientBuildError { message } => "failed to build HTTP client: "@ + message@,
        ArtfulError::RequestBuildError { message } => "failed to build HTTP request: "@ + message@,
        ArtfulError::JsonSerializeError { message } => "failed to serialize JSON: "@ + message@,
        ArtfulError::JsonDeserializeError { message, .. } => "failed to deserialize JSON: "@ + message@,
        ArtfulError::XmlSerializeError { message, .. } => "failed to serialize XML: "@ + message@,
        ArtfulError::XmlDeserializeError { message, .. } => "failed to deserialize XML: "@ + message@,
        ArtfulError::PluginExecutionError { plugin_name, message, .. } => "plugin execution failed: "@
            + plugin_name@ + " - "@ + message@,
        ArtfulError::EventListenerError { listener_name, message, .. } => "event listener failed: "@
            + listener_name@ + " - "@ + message@,
        ArtfulError::MissingParameter(name) => "missing required parameter: "@ + name@,
        ArtfulError::InvalidParameter { param, message } => "invalid parameter: "@ + param@ + " - "@
            + message@,
        ArtfulError::DirectionParseError(message) => "failed to parse response: "@ + message@,
        ArtfulError::MissingRequest => "missing HTTP request"@,
        ArtfulError::MissingResponse => "missing HTTP response"@,
        ArtfulError::DestinationMismatch { expected, actual } => "destination mismatch: expected "@
            + expected@ + ", got "@ + actual@,
        ArtfulError::Other(message) => message@,
    }
}

fn joined(head: &str, a: &str, mid: &str, b: &str) -> (r: String)
    ensures
        r@ == head@ + a@ + mid@ + b@,
{
    let mut r = head.to_owned();
    push_str(&mut r, a);
    push_str(&mut r, mid);
    push_str(&mut r, b);
    r
}

impl ArtfulError {
    /// The text the error is displayed with; see [`error_text`].
    pub fn message(&self) -> (r: String)
        ensures
            r@ == error_text(*self),
    {
        proof {
            reveal_strlit("");
        }
        match self {
            ArtfulError::RequestFailed { message } => joined("HTTP request failed: ", message.as_str(), "", ""),
            ArtfulError::ClientBuildError { message } => joined("failed to build HTTP client: ", message.as_str(), "", ""),
            ArtfulError::RequestBuildError { message } => joined("failed to build HTTP request: ", message.as_str(), "", ""),
            ArtfulError::JsonSerializeError { message } => joined("failed to serialize JSON: ", message.as_str(), "", ""),
            ArtfulError::JsonDeserializeError { message, .. } => joined("failed to deserialize JSON: ", message.as_str(), "", ""),
            ArtfulError::XmlSerializeError { message, .. } => joined("failed to serialize XML: ", message.as_str(), "", ""),
            ArtfulError::XmlDeserializeError { message, .. } => joined("failed to deserialize XML: ", message.as_str(), "", ""),
            ArtfulError::PluginExecutionError { plugin_name, message, .. } => joined(
                "plugin execution failed: ",
                plugin_name.as_str(),
                " - ",
                message.as_str(),
            ),
            ArtfulError::EventListenerError { listener_name, message, .. } => joined(
                "event listener failed: ",
                listener_name.as_str(),
                " - ",
                message.as_str(),
            ),
            ArtfulError::MissingParameter(name) => joined("missing required parameter: ", name.as_str(), "", ""),
            ArtfulError::InvalidParameter { param, message } => joined(
                "invalid parameter: ",
                param.as_str(),
                " - ",
                message.as_str(),
            ),
            ArtfulError::DirectionParseError(message) => joined("failed to parse response: ", message.as_str(), "", ""),
            ArtfulError::MissingRequest => "missing HTTP request".to_owned(),
            ArtfulError::MissingResponse => "missing HTTP response".to_owned(),
            ArtfulError::DestinationMismatch { expected, actual } => joined(
                "destination mismatch: expected ",
                expected.as_str(),
                ", got ",
                actual.as_str(),
            ),
            ArtfulError::Other(message) => message.clone(),
        }
    }
}

/// The error an event listener's failure becomes: it names the listener,
/// carries the failure's text and the failure itself, and no displaced
/// request error yet.
pub fn listener_failure(listener_name: &str, err: ArtfulError) -> (r: ArtfulError)
    ensures
        r matches ArtfulError::EventListenerError { listener_name: n, message, source: Some(s), original: None }
            && n@ == listener_name@ && message@ == error_text(err) && *s == err,
{
    let message = err.message();
    ArtfulError::EventListenerError {
        listener_name: listener_name.to_owned(),
        message,
        source: Some(Box::new(err)),
        original: None,
    }
}

/// A listener's failure with the request error it displaced attached; any
/// other error as it is.
pub open spec fn attach_original(listener_err: ArtfulError, err: ArtfulError) -> ArtfulError {
    match listener_err {
        ArtfulError::EventListenerError { listener_name, message, source, original: _ } => ArtfulError::EventListenerError {
            listener_name,
            message,
            source,
            original: Some(Box::new(err)),
        },
        _ => listener_err,
    }
}

/// See [`attach_original`].
pub fn with_original(listener_err: ArtfulError, err: ArtfulError) -> (r: ArtfulError)
    ensures
        r == attach_original(listener_err, err),
{
    match listener_err {
        ArtfulError::EventListenerError { listener_name, message, source, original: _ } => {
            ArtfulError::EventListenerError { listener_name, message, source, original: Some(Box::new(err)) }
        },
        other => other,
    }
}
} // verus!
