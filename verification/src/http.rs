//! Building the HTTP client from [`ClientOptions`].
//!
//! Options left unset fall back to the framework's defaults: idle pooled
//! connections are kept 90 seconds, 20 per host, and the User-Agent names
//! this library and its version. Unset timeouts stay the client library's
//! own (none).

use vstd::prelude::*;
use crate::error::ArtfulError;
use crate::net::{
    ModeledClient, ModeledClientBuilder, finish_client, header_value_accepted, with_client_timeout, with_connect_timeout,
    with_pool_idle_timeout, with_pool_max_idle_per_host, with_user_agent,
};
use crate::rocket::ClientOptions;

verus! {

/// Seconds an idle pooled connection is kept by default.
pub const DEFAULT_POOL_IDLE_TIMEOUT: u64 = 90;

/// Idle connections kept per host by default.
pub const DEFAULT_POOL_MAX_IDLE_PER_HOST: usize = 20;

/// The default User-Agent.
pub open spec fn default_user_agent() -> Seq<char> {
    "yansongda/artisan-http:0.18.0"@
}

/// The settings a client is built with, every default filled in.
pub struct ClientSettings {
    pub timeout: Option<u64>,
    pub connect_timeout: Option<u64>,
    pub pool_idle_timeout: u64,
    pub pool_max_idle_per_host: usize,
    pub user_agent: String,
}

/// The settings for `options`: what is set is kept, the rest takes the
/// defaults.
pub fn client_settings(options: ClientOptions) -> (s: ClientSettings)
    ensures
        s.timeout == options.timeout,
        s.connect_timeout == options.connect_timeout,
        s.pool_idle_timeout == match options.pool_idle_timeout {
            Some(t) => t,
            None => DEFAULT_POOL_IDLE_TIMEOUT,
        },
        s.pool_max_idle_per_host == match options.pool_max_idle_per_host {
            Some(n) => n,
            None => DEFAULT_POOL_MAX_IDLE_PER_HOST,
        },
        s.user_agent@ == match options.user_agent {
            Some(ua) => ua@,
            None => default_user_agent(),
        },
{
    let pool_idle_timeout = match options.pool_idle_timeout {
        Some(t) => t,
        None => DEFAULT_POOL_IDLE_TIMEOUT,
    };
    let pool_max_idle_per_host = match options.pool_max_idle_per_host {
        Some(n) => n,
        None => DEFAULT_POOL_MAX_IDLE_PER_HOST,
    };
    let user_agent = match options.user_agent {
        Some(ua) => ua,
        None => "yansongda/artisan-http:0.18.0".to_owned(),
    };
    ClientSettings {
        timeout: options.timeout,
        connect_timeout: options.connect_timeout,
        pool_idle_timeout,
        pool_max_idle_per_host,
        user_agent,
    }
}

/// What a client builder is given for `options`: the pool idle timeout,
/// the idle connections per host and the User-Agent always (defaults filled
/// in), the request and connect timeouts as set.
pub open spec fn builder_options(options: ClientOptions, given: ClientOptions) -> bool {
    &&& given.timeout == options.timeout
    &&& given.connect_timeout == options.connect_timeout
    &&& given.pool_idle_timeout == Some(
        match options.pool_idle_timeout {
            Some(t) => t,
            None => DEFAULT_POOL_IDLE_TIMEOUT,
        },
    )
    &&& given.pool_max_idle_per_host == Some(
        match options.pool_max_idle_per_host {
            Some(n) => n,
            None => DEFAULT_POOL_MAX_IDLE_PER_HOST,
        },
    )
    &&& given.user_agent matches Some(ua) && ua@ == match options.user_agent {
        Some(u) => u@,
        None => default_user_agent(),
    }
}

/// A client builder configured from `options` (see [`client_settings`]):
/// pool idle timeout, idle connections per host and User-Agent always, the
/// request and connect timeouts when set. Nothing is built yet.
pub fn build_builder(options: ClientOptions) -> (b: ModeledClientBuilder)
    ensures
        b.given() matches Some(o) && builder_options(options, o),
{
    let s = client_settings(options);
    let mut builder = ModeledClientBuilder::new();
    builder = with_pool_idle_timeout(builder, s.pool_idle_timeout);
    builder = with_pool_max_idle_per_host(builder, s.pool_max_idle_per_host);
    builder = with_user_agent(builder, s.user_agent);
    match s.timeout {
        Some(secs) => {
            builder = with_client_timeout(builder, secs);
        },
        None => {},
    }
    match s.connect_timeout {
        Some(secs) => {
            builder = with_connect_timeout(builder, secs);
        },
        None => {},
    }
    builder
}

/// Builds the client a builder describes; the client carries what the
/// builder was given. A failure (such as a User-Agent that is not a valid
/// header value) is a client build error.
pub fn finish_builder(builder: ModeledClientBuilder) -> (r: Result<ModeledClient, ArtfulError>)
    ensures
        r matches Ok(c) ==> c.given() == builder.given(),
        r is Err ==> r matches Err(ArtfulError::ClientBuildError { .. }),
        (builder.given() matches Some(o) && o.user_agent matches Some(ua) && !header_value_accepted(ua@)) ==> r
            is Err,
{
    match finish_client(builder) {
        Ok(client) => Ok(client),
        Err(message) => Err(ArtfulError::ClientBuildError { message }),
    }
}

/// Builds the client for `options`: the builder of [`build_builder`],
/// finished by [`finish_builder`].
pub fn build_client(options: ClientOptions) -> (r: Result<ModeledClient, ArtfulError>)
    ensures
        r matches Ok(c) ==> (c.given() matches Some(o) && builder_options(options, o)),
        r is Err ==> r matches Err(ArtfulError::ClientBuildError { .. }),
        (options.user_agent matches Some(ua) && !header_value_accepted(ua@)) ==> r is Err,
{
    finish_builder(build_builder(options))
}

} // verus!
