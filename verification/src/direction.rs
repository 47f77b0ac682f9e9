//! How a response is turned into the result of a request.

use vstd::prelude::*;
use crate::error::ArtfulError;
use crate::json::{JsonValue, JsonView};

verus! {

/// The strategy for parsing a response.
#[derive(Debug, Clone, Copy, PartialEq, Eq, Structural)]
pub enum DirectionKind {
    /// Unpack the response body with the carrier's packer (the default).
    Json,
    /// Hand back the response as it is.
    Response,
    /// Send no request at all.
    NoRequest,
    /// Parse with the custom direction the caller installed.
    Custom,
}

/// The result of a request.
#[derive(Debug)]
pub enum Destination {
    /// A parsed body.
    Json(JsonValue),
    /// The raw HTTP response.
    Response(reqwest::Response),
    /// Nothing (no request was made, or nothing was parsed).
    Nothing,
}

impl Default for Destination {
    fn default() -> (d: Destination)
        ensures
            d is Nothing,
    {
        Destination::Nothing
    }
}

impl From<JsonValue> for Destination {
    fn from(value: JsonValue) -> (d: Destination) {
        Destination::Json(value)
    }
}

impl vstd::std_specs::convert::FromSpecImpl<JsonValue> for Destination {
    open spec fn obeys_from_spec() -> bool {
        true
    }

    open spec fn from_spec(v: JsonValue) -> Destination {
        Destination::Json(v)
    }
}

impl Destination {
    /// The parsed body; any other destination is a mismatch.
    pub fn into_json(self) -> (r: Result<JsonValue, ArtfulError>)
        ensures
            match self {
                Destination::Json(v) => r matches Ok(w) && w@ == v@,
                Destination::Response(_) => r matches Err(ArtfulError::DestinationMismatch { expected, actual })
                    && expected@ == "Json"@ && actual@ == "Response"@,
                Destination::Nothing => r matches Err(ArtfulError::DestinationMismatch { expected, actual })
                    && expected@ == "Json"@ && actual@ == "None"@,
            },
    {
        match self {
            Destination::Json(v) => Ok(v),
            Destination::Response(_) => Err(ArtfulError::DestinationMismatch {
                expected: "Json".to_owned(),
                actual: "Response".to_owned(),
            }),
            Destination::Nothing => Err(ArtfulError::DestinationMismatch {
                expected: "Json".to_owned(),
                actual: "None".to_owned(),
            }),
        }
    }

    /// The view of a parsed body, if this destination is one.
    pub open spec fn json_view(&self) -> Option<JsonView> {
        match self {
            Destination::Json(v) => Some(v@),
            _ => None,
        }
    }
}

} // verus!
