//! The built-in response parsers.
//!
//! Reading a response body is asynchronous and happens around these types;
//! what they decide on the carrier is here.

use vstd::prelude::*;
use crate::direction::Destination;
use crate::error::ArtfulError;
use crate::json::JsonValue;
use crate::packer::Packer;
use crate::rocket::Rocket;

verus! {

/// Unpacks the response body with the carrier's packer.
#[derive(Debug, Clone, Copy)]
pub struct JsonDirection;

/// Hands back what the chain already put in the destination; sends nothing.
#[derive(Debug, Clone, Copy)]
pub struct NoHttpRequestDirection;

/// Hands back the raw response.
#[derive(Debug, Clone, Copy)]
pub struct OriginResponseDirection;

impl JsonDirection {
    /// Takes the response whose body is to be unpacked; without one the
    /// response is missing.
    pub fn take_response(&self, rocket: &mut Rocket) -> (r: Result<reqwest::Response, ArtfulError>)
        ensures
            match old(rocket).destination_origin {
                Some(resp) => r == Ok::<reqwest::Response, ArtfulError>(resp),
                None => r matches Err(ArtfulError::MissingResponse),
            },
            final(rocket).destination_origin is None,
            final(rocket).payload == old(rocket).payload,
            final(rocket).config == old(rocket).config,
            final(rocket).radar == old(rocket).radar,
            final(rocket).destination == old(rocket).destination,
            final(rocket).params == old(rocket).params,
    {
        match rocket.destination_origin.take() {
            Some(resp) => Ok(resp),
            None => Err(ArtfulError::MissingResponse),
        }
    }

    /// Unpacks a response body with the packer, the carrier's whole payload
    /// as the packer's options: the destination is the value the packer
    /// gives, and its error comes back as it is; see [`finish`](Self::finish).
    pub fn unpack_body<K: Packer + ?Sized>(&self, rocket: &Rocket, text: &str, packer: &K) -> (r: Result<
        Destination,
        ArtfulError,
    >)
        ensures
            match r {
                Ok(d) => d matches Destination::Json(v) && packer.unpack_gives(text@, rocket.payload@, Ok(v@)),
                Err(e) => packer.unpack_gives(text@, rocket.payload@, Err(e)),
            },
    {
        let unpacked = packer.unpack(text, &rocket.payload);
        self.finish(unpacked)
    }

    /// The destination for what the packer made of the body.
    pub fn finish(&self, unpacked: Result<JsonValue, ArtfulError>) -> (r: Result<Destination, ArtfulError>)
        ensures
            match unpacked {
                Ok(v) => r == Ok::<Destination, ArtfulError>(Destination::Json(v)),
                Err(e) => r == Err::<Destination, ArtfulError>(e),
            },
    {
        match unpacked {
            Ok(v) => Ok(Destination::Json(v)),
            Err(e) => Err(e),
        }
    }
}

impl NoHttpRequestDirection {
    /// Takes the destination the chain left, or nothing.
    pub fn parse(&self, rocket: &mut Rocket) -> (r: Result<Destination, ArtfulError>)
        ensures
            match old(rocket).destination {
                Some(d) => r == Ok::<Destination, ArtfulError>(d),
                None => r matches Ok(Destination::Nothing),
            },
            final(rocket).destination is None,
            final(rocket).payload == old(rocket).payload,
            final(rocket).config == old(rocket).config,
            final(rocket).radar == old(rocket).radar,
            final(rocket).destination_origin == old(rocket).destination_origin,
            final(rocket).params == old(rocket).params,
    {
        match rocket.destination.take() {
            Some(d) => Ok(d),
            None => Ok(Destination::Nothing),
        }
    }
}

impl OriginResponseDirection {
    /// Takes the raw response; without one the response is missing.
    pub fn parse(&self, rocket: &mut Rocket) -> (r: Result<Destination, ArtfulError>)
        ensures
            match old(rocket).destination_origin {
                Some(resp) => r == Ok::<Destination, ArtfulError>(Destination::Response(resp)),
                None => r matches Err(ArtfulError::MissingResponse),
            },
            final(rocket).destination_origin is None,
            final(rocket).payload == old(rocket).payload,
            final(rocket).config == old(rocket).config,
            final(rocket).radar == old(rocket).radar,
            final(rocket).destination == old(rocket).destination,
            final(rocket).params == old(rocket).params,
    {
        match rocket.destination_origin.take() {
            Some(resp) => Ok(Destination::Response(resp)),
            None => Err(ArtfulError::MissingResponse),
        }
    }
}

} // verus!
