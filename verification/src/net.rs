//! The HTTP client types the carrier holds, and the calls made on them to
//! build a client and a request.
//!
//! Values of these types are opaque here: what the library decides it
//! decides on plain values, and hands them to the client library as they
//! are.

use vstd::prelude::*;
use crate::rocket::ClientOptions;

verus! {

#[verifier::external_type_specification]
#[verifier::external_body]
pub struct ExMethod(reqwest::Method);

#[verifier::external_type_specification]
#[verifier::external_body]
pub struct ExRequest(reqwest::Request);

#[verifier::external_type_specification]
#[verifier::external_body]
pub struct ExResponse(reqwest::Response);

#[verifier::external_type_specification]
#[verifier::external_body]
pub struct ExClient(reqwest::Client);

#[verifier::external_type_specification]
#[verifier::external_body]
pub struct ExClientBuilder(reqwest::ClientBuilder);

#[verifier::external_type_specification]
#[verifier::external_body]
pub struct ExRequestBuilder(reqwest::RequestBuilder);

/// The `POST` method (reqwest's `Method::POST`).
#[verifier::external_body]
pub(crate) fn post_method() -> reqwest::Method {
    reqwest::Method::POST
}

/// What a request is made of, as its builder was given it: the method, the
/// URL, the headers in the order added, the body and the timeout (seconds)
/// when set, and whether everything given was accepted.
pub struct RequestModel {
    pub method: reqwest::Method,
    pub url: Seq<char>,
    pub headers: Seq<(Seq<char>, Seq<char>)>,
    pub body: Option<Seq<char>>,
    pub timeout: Option<u64>,
    pub accepted: bool,
}

/// Whether reqwest takes `url` as a request URL (`Client::request`: it
/// parses as a URL and has a host).
pub uninterp spec fn url_accepted(url: Seq<char>) -> bool;

/// A character a header value may hold (http's `HeaderValue::try_from`
/// checks each byte: a tab, or from 0x20 on except 0x7F; every byte of a
/// non-ASCII character is from 0x80 on).
pub open spec fn header_value_char(c: char) -> bool {
    c == '\t' || ('\u{20}' <= c && c != '\u{7f}')
}

/// Whether `value` is a valid header value.
pub open spec fn header_value_accepted(value: Seq<char>) -> bool {
    forall|i: int| 0 <= i < value.len() ==> #[trigger] header_value_char(value[i])
}

/// A character a header name may hold (http's `HeaderName::from_bytes`
/// table): an ASCII letter or digit, or one of ``!#$%&'*+-.^_`|~``.
pub open spec fn header_name_char(c: char) -> bool {
    ('a' <= c <= 'z') || ('A' <= c <= 'Z') || ('0' <= c <= '9') || c == '!' || c == '#' || c == '$' || c
        == '%' || c == '&' || c == '\'' || c == '*' || c == '+' || c == '-' || c == '.' || c == '^' || c
        == '_' || c == '`' || c == '|' || c == '~'
}

/// Whether `name` is a valid header name: not empty, at most 65535 bytes,
/// every character a header-name character.
pub open spec fn header_name_accepted(name: Seq<char>) -> bool {
    0 < name.len() <= 65535 && forall|i: int| 0 <= i < name.len() ==> #[trigger] header_name_char(name[i])
}

/// Whether reqwest takes a header of this name and value
/// (`RequestBuilder::header`: a valid header name and header value).
pub open spec fn header_accepted(name: Seq<char>, value: Seq<char>) -> bool {
    header_name_accepted(name) && header_value_accepted(value)
}

/// How many headers a request may be given here. Each header takes a slot
/// of http's `HeaderMap` (a URL with credentials takes one more), and the
/// map panics once it cannot grow past its 32768 slots, which colliding
/// names can force from 6554 entries on; below this bound it never does.
pub const MAX_REQUEST_HEADERS: usize = 6553;

/// A reqwest request builder, with what it has been given.
pub struct ModeledRequestBuilder {
    builder: reqwest::RequestBuilder,
    given: Ghost<RequestModel>,
}

/// A built reqwest request, with what its builder had been given (none
/// for a request built elsewhere).
pub struct ModeledRequest {
    request: reqwest::Request,
    given: Ghost<Option<RequestModel>>,
}

impl ModeledRequestBuilder {
    /// What the builder has been given so far.
    pub closed spec fn given(&self) -> RequestModel {
        self.given@
    }
}

impl ModeledRequest {
    /// What the request was built from, when it was built here.
    pub closed spec fn given(&self) -> Option<RequestModel> {
        self.given@
    }

    /// The reqwest request itself.
    pub closed spec fn inner(&self) -> reqwest::Request {
        self.request
    }

    /// A request built elsewhere; what it was built from is not known here.
    pub fn adopt(request: reqwest::Request) -> (r: ModeledRequest)
        ensures
            r.inner() == request,
            r.given() is None,
    {
        ModeledRequest { request, given: Ghost(None) }
    }

    /// The reqwest request, to read.
    pub fn request(&self) -> (r: &reqwest::Request)
        ensures
            *r == self.inner(),
    {
        &self.request
    }

    /// The reqwest request itself, to send.
    pub fn into_request(self) -> (r: reqwest::Request)
        ensures
            r == self.inner(),
    {
        self.request
    }
}

/// Starts a request with a method and a URL (reqwest's `Client::request`),
/// without headers, body or timeout. A URL that reqwest does not take is
/// reported when the request is built.
#[verifier::external_body]
pub(crate) fn start_request(client: &reqwest::Client, method: &reqwest::Method, url: &str) -> (r: ModeledRequestBuilder)
    ensures
        r.given() == (RequestModel {
            method: *method,
            url: url@,
            headers: Seq::<(Seq<char>, Seq<char>)>::empty(),
            body: None,
            timeout: None,
            accepted: url_accepted(url@),
        }),
{
    ModeledRequestBuilder {
        builder: client.request(method.clone(), url),
        given: Ghost(RequestModel {
            method: *method,
            url: url@,
            headers: Seq::empty(),
            body: None,
            timeout: None,
            accepted: url_accepted(url@),
        }),
    }
}

/// Adds a header after those already added (reqwest's
/// `RequestBuilder::header`). An invalid name or value is reported when the
/// request is built.
#[verifier::external_body]
pub(crate) fn with_header(b: ModeledRequestBuilder, key: &str, value: &str) -> (r: ModeledRequestBuilder)
    requires
        b.given().headers.len() < MAX_REQUEST_HEADERS,
    ensures
        r.given() == (RequestModel {
            headers: b.given().headers.push((key@, value@)),
            accepted: b.given().accepted && header_accepted(key@, value@),
            ..b.given()
        }),
{
    ModeledRequestBuilder { builder: b.builder.header(key, value), given: b.given }
}

/// Sets the body (reqwest's `RequestBuilder::body`).
#[verifier::external_body]
pub(crate) fn with_body(b: ModeledRequestBuilder, body: String) -> (r: ModeledRequestBuilder)
    ensures
        r.given() == (RequestModel { body: Some(body@), ..b.given() }),
{
    ModeledRequestBuilder { builder: b.builder.body(body), given: b.given }
}

/// Sets the request timeout in seconds (reqwest's `RequestBuilder::timeout`).
#[verifier::external_body]
pub(crate) fn with_request_timeout(b: ModeledRequestBuilder, secs: u64) -> (r: ModeledRequestBuilder)
    ensures
        r.given() == (RequestModel { timeout: Some(secs), ..b.given() }),
{
    ModeledRequestBuilder { builder: b.builder.timeout(std::time::Duration::from_secs(secs)), given: b.given }
}

/// Builds the request (reqwest's `RequestBuilder::build`): it succeeds
/// exactly when everything given was accepted; a failure comes back as the
/// error's text.
#[verifier::external_body]
pub(crate) fn finish_request(b: ModeledRequestBuilder) -> (r: Result<ModeledRequest, String>)
    ensures
        r is Ok <==> b.given().accepted,
        r matches Ok(q) ==> q.given() == Some(b.given()),
{
    match b.builder.build() {
        Ok(q) => Ok(ModeledRequest { request: q, given: Ghost(Some(b.given@)) }),
        Err(e) => Err(e.to_string()),
    }
}

/// A client builder with reqwest's defaults (reqwest's `Client::builder`).
#[verifier::external_body]
pub(crate) fn client_builder() -> reqwest::ClientBuilder {
    reqwest::Client::builder()
}

/// A reqwest client builder, with the settings it has been given through
/// this module (as options: unset is reqwest's own default).
pub struct ModeledClientBuilder {
    builder: reqwest::ClientBuilder,
    given: Ghost<Option<ClientOptions>>,
}

/// A reqwest client, with the settings its builder had been given.
pub struct ModeledClient {
    client: reqwest::Client,
    given: Ghost<Option<ClientOptions>>,
}

/// No setting given.
pub open spec fn nothing_given() -> ClientOptions {
    ClientOptions {
        timeout: None,
        connect_timeout: None,
        pool_idle_timeout: None,
        pool_max_idle_per_host: None,
        user_agent: None,
    }
}

impl ModeledClientBuilder {
    /// The settings given so far (none for a builder configured elsewhere).
    pub closed spec fn given(&self) -> Option<ClientOptions> {
        self.given@
    }

    /// A fresh builder: nothing given yet.
    pub fn new() -> (r: ModeledClientBuilder)
        ensures
            r.given() == Some(nothing_given()),
    {
        ModeledClientBuilder { builder: client_builder(), given: Ghost(Some(nothing_given())) }
    }

    /// A builder that was configured elsewhere; what it was given is not
    /// known here.
    pub fn adopt(builder: reqwest::ClientBuilder) -> (r: ModeledClientBuilder)
        ensures
            r.given() is None,
    {
        ModeledClientBuilder { builder, given: Ghost(None) }
    }

    /// The reqwest builder itself, to be configured further elsewhere.
    pub fn into_builder(self) -> reqwest::ClientBuilder {
        self.builder
    }
}

impl ModeledClient {
    /// The settings the client was built with (none when its builder was
    /// configured elsewhere).
    pub closed spec fn given(&self) -> Option<ClientOptions> {
        self.given@
    }

    /// The reqwest client itself.
    pub fn into_client(self) -> reqwest::Client {
        self.client
    }
}

/// Sets how long an idle pooled connection is kept, in seconds (reqwest's
/// `ClientBuilder::pool_idle_timeout`); nothing else changes.
#[verifier::external_body]
pub(crate) fn with_pool_idle_timeout(b: ModeledClientBuilder, secs: u64) -> (r: ModeledClientBuilder)
    ensures
        r.given() == match b.given() {
            Some(o) => Some(ClientOptions { pool_idle_timeout: Some(secs), ..o }),
            None => None,
        },
{
    ModeledClientBuilder { builder: b.builder.pool_idle_timeout(Some(std::time::Duration::from_secs(secs))), given: b.given }
}

/// Sets how many idle connections are kept per host (reqwest's
/// `ClientBuilder::pool_max_idle_per_host`); nothing else changes.
#[verifier::external_body]
pub(crate) fn with_pool_max_idle_per_host(b: ModeledClientBuilder, n: usize) -> (r: ModeledClientBuilder)
    ensures
        r.given() == match b.given() {
            Some(o) => Some(ClientOptions { pool_max_idle_per_host: Some(n), ..o }),
            None => None,
        },
{
    ModeledClientBuilder { builder: b.builder.pool_max_idle_per_host(n), given: b.given }
}

/// Sets the User-Agent (reqwest's `ClientBuilder::user_agent`); nothing
/// else changes. A value that is not a valid header value is reported when
/// the client is built.
#[verifier::external_body]
pub(crate) fn with_user_agent(b: ModeledClientBuilder, ua: String) -> (r: ModeledClientBuilder)
    ensures
        r.given() == match b.given() {
            Some(o) => Some(ClientOptions { user_agent: Some(ua), ..o }),
            None => None,
        },
{
    ModeledClientBuilder { builder: b.builder.user_agent(ua), given: b.given }
}

/// Sets the total timeout of every request, in seconds (reqwest's
/// `ClientBuilder::timeout`); nothing else changes.
#[verifier::external_body]
pub(crate) fn with_client_timeout(b: ModeledClientBuilder, secs: u64) -> (r: ModeledClientBuilder)
    ensures
        r.given() == match b.given() {
            Some(o) => Some(ClientOptions { timeout: Some(secs), ..o }),
            None => None,
        },
{
    ModeledClientBuilder { builder: b.builder.timeout(std::time::Duration::from_secs(secs)), given: b.given }
}

/// Sets the connect timeout, in seconds (reqwest's
/// `ClientBuilder::connect_timeout`); nothing else changes.
#[verifier::external_body]
pub(crate) fn with_connect_timeout(b: ModeledClientBuilder, secs: u64) -> (r: ModeledClientBuilder)
    ensures
        r.given() == match b.given() {
            Some(o) => Some(ClientOptions { connect_timeout: Some(secs), ..o }),
            None => None,
        },
{
    ModeledClientBuilder { builder: b.builder.connect_timeout(std::time::Duration::from_secs(secs)), given: b.given }
}

/// Builds the client (reqwest's `ClientBuilder::build`); the client carries
/// the settings its builder was given. A User-Agent that is not a valid
/// header value makes the build fail (reqwest records the error when it is
/// given and reports it here). A failure comes back as the error's text;
/// when else one comes depends on the environment too (such as the TLS
/// backend), so it is not stated.
#[verifier::external_body]
pub(crate) fn finish_client(b: ModeledClientBuilder) -> (r: Result<ModeledClient, String>)
    ensures
        r matches Ok(c) ==> c.given() == b.given(),
        (b.given() matches Some(o) && o.user_agent matches Some(ua) && !header_value_accepted(ua@)) ==> r is Err,
{
    match b.builder.build() {
        Ok(c) => Ok(ModeledClient { client: c, given: b.given }),
        Err(e) => Err(e.to_string()),
    }
}

} // verus!
