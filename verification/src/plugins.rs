//! The built-in plugins: what each decides on the carrier.
//!
//! A plugin runs inside the chain: it works on the carrier, hands over to
//! the next layer, and may work again when that layer returns. The steps a
//! plugin takes on the carrier are here; handing over to the next layer and
//! reading a response body are driven from outside.

use vstd::prelude::*;
use crate::direction::{Destination, DirectionKind};
use crate::directions::{NoHttpRequestDirection, OriginResponseDirection};
use crate::error::ArtfulError;
use crate::net::{
    MAX_REQUEST_HEADERS, ModeledRequest, RequestModel, finish_request, header_accepted, start_request, url_accepted, with_body,
    with_header, with_request_timeout,
};
use crate::rocket::{
    Rocket, RocketConfig, has_name, has_name_ignore_case, header_put, header_value, law_header_put_get, merge_entries,
    names_distinct,
};
use crate::text::same_ignore_case;
use crate::json::{JsonMap, JsonView};
use crate::packer::{Packer, opt_str};

verus! {

/// `Content-Type`.
pub open spec fn content_type_name() -> Seq<char> {
    seq!['C', 'o', 'n', 't', 'e', 'n', 't', '-', 'T', 'y', 'p', 'e']
}

/// Fills an empty payload from the parameters.
#[derive(Debug, Clone, Copy, Default)]
pub struct StartPlugin;

/// Packs the payload into the body when no body was set.
#[derive(Debug, Clone, Copy, Default)]
pub struct AddPayloadBodyPlugin;

/// Builds the HTTP request from the configuration.
#[derive(Debug, Clone, Copy, Default)]
pub struct AddRadarPlugin;

/// Parses the response once the rest of the chain has run.
#[derive(Debug, Clone, Copy, Default)]
pub struct ParserPlugin;

/// Whether reqwest takes every header of `h`.
pub open spec fn headers_accepted(h: Seq<(Seq<char>, Seq<char>)>) -> bool {
    forall|i: int| 0 <= i < h.len() ==> #[trigger] header_accepted(h[i].0, h[i].1)
}

proof fn lemma_headers_accepted_push(h: Seq<(Seq<char>, Seq<char>)>, k: Seq<char>, v: Seq<char>)
    ensures
        headers_accepted(h.push((k, v))) == (headers_accepted(h) && header_accepted(k, v)),
{
    let hp = h.push((k, v));
    if headers_accepted(hp) {
        assert forall|i: int| 0 <= i < h.len() implies #[trigger] header_accepted(h[i].0, h[i].1) by {
            assert(hp[i] == h[i]);
            assert(header_accepted(hp[i].0, hp[i].1));
        }
        assert(hp[h.len() as int] == (k, v));
        assert(header_accepted(hp[h.len() as int].0, hp[h.len() as int].1));
    }
    if headers_accepted(h) && header_accepted(k, v) {
        assert forall|i: int| 0 <= i < hp.len() implies #[trigger] header_accepted(hp[i].0, hp[i].1) by {
            if i < h.len() {
                assert(hp[i] == h[i]);
                assert(header_accepted(h[i].0, h[i].1));
            }
        }
    }
}

/// A fallback body and content type, as plain values.
pub open spec fn fallback_view(fallback: Option<(String, Option<&'static str>)>) -> Option<(Seq<char>, Option<Seq<char>>)> {
    match fallback {
        Some((packed, ct)) => Some((packed@, match ct { Some(t) => Some(t@), None => None })),
        None => None,
    }
}

/// The headers a request is given: the configured ones in order, then, with
/// a fallback body whose packer names a content type, that content type
/// unless a `Content-Type` header is configured in any case.
pub open spec fn request_headers(
    config: RocketConfig,
    fallback: Option<(Seq<char>, Option<Seq<char>>)>,
) -> Seq<(Seq<char>, Seq<char>)> {
    let h = config.headers@;
    match config.body {
        Some(_) => h,
        None => match fallback {
            Some((_, Some(ct))) => if has_name_ignore_case(h, content_type_name()) {
                h
            } else {
                h.push((content_type_name(), ct))
            },
            _ => h,
        },
    }
}

/// The request built from a configuration: its method, URL, headers (see
/// [`request_headers`]), the configured body or else the fallback body, its
/// timeout, and whether reqwest takes the URL and every header.
pub open spec fn request_for(config: RocketConfig, fallback: Option<(Seq<char>, Option<Seq<char>>)>) -> RequestModel {
    let headers = request_headers(config, fallback);
    RequestModel {
        method: config.method,
        url: config.url@,
        headers,
        body: match config.body {
            Some(b) => Some(b@),
            None => match fallback {
                Some((p, _)) => Some(p),
                None => None,
            },
        },
        timeout: config.http.timeout,
        accepted: url_accepted(config.url@) && headers_accepted(headers),
    }
}

/// A fallback body the packer may give for `payload`: packing it with no
/// options succeeds with `packed`, and the packer may declare `ct`.
pub open spec fn packer_fallback<K: Packer + ?Sized>(
    packer: &K,
    payload: Seq<(Seq<char>, JsonView)>,
    packed: Seq<char>,
    ct: Option<Seq<char>>,
) -> bool {
    packer.pack_gives(payload, Seq::empty(), Ok(packed)) && packer.declares(ct)
}

/// The text of an optional string slice.
pub open spec fn opt_text_of(t: Option<&str>) -> Option<Seq<char>> {
    match t {
        Some(s) => Some(s@),
        None => None,
    }
}

/// The headers after a packed body is attached: the content type is added
/// as `Content-Type` unless a header of that name is set in any case.
pub open spec fn body_headers(h: Seq<(Seq<char>, Seq<char>)>, content_type: Option<Seq<char>>) -> Seq<
    (Seq<char>, Seq<char>),
> {
    match content_type {
        Some(ct) => if has_name_ignore_case(h, content_type_name()) {
            h
        } else {
            header_put(h, content_type_name(), ct)
        },
        None => h,
    }
}

/// Attaching a packed body changes the headers only by adding
/// `Content-Type`: every other name reads as before (so every header set
/// before keeps its value), a `Content-Type` set before in any case is
/// left alone, and the packer's content type is stored otherwise; names
/// stay distinct.
pub proof fn law_body_headers_keep(h: Seq<(Seq<char>, Seq<char>)>, ct: Option<Seq<char>>, k: Seq<char>)
    requires
        names_distinct(h),
    ensures
        names_distinct(body_headers(h, ct)),
        k != content_type_name() ==> header_value(body_headers(h, ct), k) == header_value(h, k),
        has_name(h, k) ==> header_value(body_headers(h, ct), k) == header_value(h, k),
        has_name_ignore_case(h, content_type_name()) ==> body_headers(h, ct) == h,
        ct matches Some(t) ==> (!has_name_ignore_case(h, content_type_name()) ==> header_value(
            body_headers(h, ct),
            content_type_name(),
        ) == Some(t)),
{
    match ct {
        Some(t) => {
            if !has_name_ignore_case(h, content_type_name()) {
                law_header_put_get(h, content_type_name(), t, k);
                if has_name(h, k) && k == content_type_name() {
                    let i = choose|i: int| 0 <= i < h.len() && #[trigger] h[i].0 == k;
                    assert(same_ignore_case(h[i].0, content_type_name()));
                }
            }
        },
        None => {},
    }
}

/// The request carries every configured header, first and in order: its
/// headers begin with the configured ones and add at most a `Content-Type`;
/// with a body configured they are exactly the configured ones.
pub proof fn law_request_headers(config: RocketConfig, fallback: Option<(Seq<char>, Option<Seq<char>>)>)
    ensures
        request_for(config, fallback).headers.len() >= config.headers@.len(),
        request_for(config, fallback).headers.len() <= config.headers@.len() + 1,
        request_for(config, fallback).headers.take(config.headers@.len() as int) == config.headers@,
        request_for(config, fallback).headers.len() > config.headers@.len() ==> request_for(
            config,
            fallback,
        ).headers.last().0 == content_type_name(),
        config.body is Some ==> request_for(config, fallback).headers == config.headers@,
{
    let h = config.headers@;
    let r = request_for(config, fallback).headers;
    if r.len() > h.len() {
        assert(r =~= h.push(r.last()));
    }
    assert(r.take(h.len() as int) =~= h);
}

impl StartPlugin {
    /// The plugin's name.
    pub fn name(&self) -> (r: &'static str)
        ensures
            r@ == "StartPlugin"@,
    {
        "StartPlugin"
    }

    /// Before the next layer: an empty payload receives every parameter; a
    /// payload that has entries is kept as it is.
    pub fn prepare(&self, rocket: &mut Rocket)
        ensures
            final(rocket).payload@ == if old(rocket).payload@.len() == 0 {
                merge_entries(old(rocket).payload@, old(rocket).params_view())
            } else {
                old(rocket).payload@
            },
            final(rocket).params == old(rocket).params,
            final(rocket).config == old(rocket).config,
            final(rocket).radar == old(rocket).radar,
            final(rocket).destination_origin == old(rocket).destination_origin,
            final(rocket).destination == old(rocket).destination,
    {
        if rocket.payload.is_empty() {
            rocket.merge_params_to_payload();
        }
    }
}

impl AddPayloadBodyPlugin {
    /// The plugin's name.
    pub fn name(&self) -> (r: &'static str)
        ensures
            r@ == "AddPayloadBodyPlugin"@,
    {
        "AddPayloadBodyPlugin"
    }

    /// Whether the payload is to be packed: no body is set and the payload
    /// has entries.
    pub fn needs_body(&self, rocket: &Rocket) -> (b: bool)
        ensures
            b == (rocket.config.body is None && rocket.payload@.len() > 0),
    {
        rocket.config.body.is_none() && !rocket.payload.is_empty()
    }

    /// Sets the packed payload as the body, and the packer's content type as
    /// `Content-Type` unless a header of that name is set in any case.
    pub fn attach_body(&self, rocket: &mut Rocket, body: String, content_type: Option<&str>)
        ensures
            final(rocket).config.body == Some(body),
            final(rocket).config.headers@ == body_headers(old(rocket).config.headers@, opt_text_of(content_type)),
            final(rocket).config.method == old(rocket).config.method,
            final(rocket).config.url == old(rocket).config.url,
            final(rocket).config.http == old(rocket).config.http,
            final(rocket).config.direction == old(rocket).config.direction,
            final(rocket).payload == old(rocket).payload,
            final(rocket).params == old(rocket).params,
            final(rocket).radar == old(rocket).radar,
            final(rocket).destination_origin == old(rocket).destination_origin,
            final(rocket).destination == old(rocket).destination,
    {
        rocket.config.body = Some(body);
        let name = "Content-Type";
        proof {
            reveal_strlit("Content-Type");
            assert(name@ =~= content_type_name());
        }
        match content_type {
            Some(ct) => {
                if !rocket.has_header(name) {
                    rocket.add_header(name, ct);
                }
            },
            None => {},
        }
    }
}

impl AddPayloadBodyPlugin {
    /// Before the next layer: when no body is set and the payload has
    /// entries, packs the payload (with no packer options) and attaches it
    /// as [`attach_body`](Self::attach_body) does, with the packer's content
    /// type. A packing failure is handed back and changes nothing; otherwise
    /// nothing happens.
    pub fn assemble<K: Packer + ?Sized>(&self, rocket: &mut Rocket, packer: &K) -> (r: Result<(), ArtfulError>)
        ensures
            !(old(rocket).config.body is None && old(rocket).payload@.len() > 0) ==> (r is Ok && *final(rocket)
                == *old(rocket)),
            r matches Err(e) ==> *final(rocket) == *old(rocket) && packer.pack_gives(
                old(rocket).payload@,
                Seq::empty(),
                Err(e),
            ),
            (r is Ok && old(rocket).config.body is None && old(rocket).payload@.len() > 0) ==> exists|ct: Option<
                Seq<char>,
            >|
                #![trigger packer.declares(ct)]
                final(rocket).config.body matches Some(b) && packer.pack_gives(
                    old(rocket).payload@,
                    Seq::empty(),
                    Ok(b@),
                ) && packer.declares(ct) && final(rocket).config.headers@ == body_headers(
                    old(rocket).config.headers@,
                    ct,
                ),
            final(rocket).config.method == old(rocket).config.method,
            final(rocket).config.url == old(rocket).config.url,
            final(rocket).config.http == old(rocket).config.http,
            final(rocket).config.direction == old(rocket).config.direction,
            final(rocket).payload == old(rocket).payload,
            final(rocket).params == old(rocket).params,
            final(rocket).radar == old(rocket).radar,
            final(rocket).destination_origin == old(rocket).destination_origin,
            final(rocket).destination == old(rocket).destination,
    {
        if !self.needs_body(rocket) {
            return Ok(());
        }
        let no_options = JsonMap::new();
        let body = packer.pack(&rocket.payload, &no_options)?;
        let content_type = packer.content_type();
        let ghost ct = opt_str(content_type);
        self.attach_body(rocket, body, content_type);
        assert(packer.declares(ct));
        Ok(())
    }
}

impl AddRadarPlugin {
    /// The plugin's name.
    pub fn name(&self) -> (r: &'static str)
        ensures
            r@ == "AddRadarPlugin"@,
    {
        "AddRadarPlugin"
    }

    /// Builds the request from the configuration, with `fallback` (a packed
    /// payload and the packer's content type) as the body when no body is
    /// configured; see [`request_for`]. It succeeds exactly when reqwest
    /// takes everything given.
    pub fn assemble_request(
        &self,
        rocket: &Rocket,
        client: &reqwest::Client,
        fallback: Option<(String, Option<&'static str>)>,
    ) -> (r: Result<ModeledRequest, ArtfulError>)
        requires
            rocket.config.headers@.len() < MAX_REQUEST_HEADERS,
        ensures
            r is Ok <==> request_for(rocket.config, fallback_view(fallback)).accepted,
            r matches Ok(q) ==> q.given() == Some(request_for(rocket.config, fallback_view(fallback))),
            r is Err ==> r matches Err(ArtfulError::RequestBuildError { .. }),
    {
        let ghost config = rocket.config;
        let ghost h = config.headers@;
        let mut builder = start_request(client, &rocket.config.method, rocket.config.url.as_str());
        let n = rocket.config.headers.len();
        let mut i: usize = 0;
        while i < n
            invariant
                0 <= i <= n,
                n == h.len(),
                h == rocket.config.headers@,
                builder.given().method == config.method,
                builder.given().url == config.url@,
                builder.given().headers == h.take(i as int),
                builder.given().body is None,
                builder.given().timeout is None,
                builder.given().accepted == (url_accepted(config.url@) && headers_accepted(h.take(i as int))),
                n < MAX_REQUEST_HEADERS,
            decreases n - i,
        {
            let (k, v) = rocket.config.headers.entry_at(i);
            builder = with_header(builder, k.as_str(), v.as_str());
            proof {
                assert(h.take(i + 1) =~= h.take(i as int).push((k@, v@)));
                lemma_headers_accepted_push(h.take(i as int), k@, v@);
            }
            i = i + 1;
        }
        assert(h.take(n as int) =~= h);
        match &rocket.config.body {
            Some(body) => {
                builder = with_body(builder, body.clone());
            },
            None => {
                match fallback {
                    Some((packed, content_type)) => {
                        if !rocket.has_header("Content-Type") {
                            match content_type {
                                Some(ct) => {
                                    let name = "Content-Type";
                                    proof {
                                        reveal_strlit("Content-Type");
                                        assert(name@ =~= content_type_name());
                                    }
                                    builder = with_header(builder, name, ct);
                                    proof {
                                        lemma_headers_accepted_push(h, content_type_name(), ct@);
                                    }
                                },
                                None => {},
                            }
                        } else {
                            proof {
                                reveal_strlit("Content-Type");
                                assert("Content-Type"@ =~= content_type_name());
                            }
                        }
                        builder = with_body(builder, packed);
                    },
                    None => {},
                }
            },
        }
        match rocket.config.http.timeout {
            Some(secs) => {
                builder = with_request_timeout(builder, secs);
            },
            None => {},
        }
        assert(builder.given() == request_for(config, fallback_view(fallback)));
        match finish_request(builder) {
            Ok(request) => Ok(request),
            Err(message) => Err(ArtfulError::RequestBuildError { message }),
        }
    }

    /// Builds the request; see [`assemble_request`](Self::assemble_request).
    /// Without a configured body but with payload entries, the payload is
    /// packed (with no packer options) and that packing's result, with the
    /// packer's content type, is the fallback; a packing failure is handed
    /// back. Otherwise nothing is packed and the request is exactly the
    /// configured one.
    pub fn prepare_request<K: Packer + ?Sized>(&self, rocket: &Rocket, client: &reqwest::Client, packer: &K) -> (r:
        Result<ModeledRequest, ArtfulError>)
        requires
            rocket.config.headers@.len() < MAX_REQUEST_HEADERS,
        ensures
            (rocket.config.body is Some || rocket.payload@.len() == 0) ==> {
                &&& r is Ok <==> request_for(rocket.config, None).accepted
                &&& r matches Ok(q) ==> q.given() == Some(request_for(rocket.config, None))
                &&& r is Err ==> r matches Err(ArtfulError::RequestBuildError { .. })
            },
            (rocket.config.body is None && rocket.payload@.len() > 0) ==> {
                &&& r matches Ok(q) ==> exists|packed: Seq<char>, ct: Option<Seq<char>>|
                    #![trigger request_for(rocket.config, Some((packed, ct)))]
                    packer_fallback(packer, rocket.payload@, packed, ct) && q.given() == Some(request_for(
                        rocket.config,
                        Some((packed, ct)),
                    ))
                &&& r matches Err(e) ==> packer.pack_gives(rocket.payload@, Seq::empty(), Err(e)) || (e is RequestBuildError
                    && exists|packed: Seq<char>, ct: Option<Seq<char>>|
                    #![trigger request_for(rocket.config, Some((packed, ct)))]
                    packer_fallback(packer, rocket.payload@, packed, ct) && !request_for(
                        rocket.config,
                        Some((packed, ct)),
                    ).accepted)
            },
    {
        let fallback = if rocket.config.body.is_none() && !rocket.payload.is_empty() {
            let no_options = JsonMap::new();
            let packed = packer.pack(&rocket.payload, &no_options)?;
            let content_type = packer.content_type();
            Some((packed, content_type))
        } else {
            None
        };
        let ghost fb = fallback_view(fallback);
        let r = self.assemble_request(rocket, client, fallback);
        proof {
            if rocket.config.body is None && rocket.payload@.len() > 0 {
                let (packed, ct) = fb->Some_0;
                assert(packer_fallback(packer, rocket.payload@, packed, ct));
                assert(request_for(rocket.config, Some((packed, ct))) == request_for(rocket.config, fb));
            }
        }
        r
    }

    /// Builds the request (see [`prepare_request`](Self::prepare_request));
    /// on success it becomes the carrier's. A packing failure is handed back,
    /// and a request that reqwest does not take (such as one with an invalid
    /// URL) is a build error; either leaves the carrier as it was. When
    /// nothing is packed, success is owed exactly when reqwest takes the
    /// configured request.
    pub fn build_radar<K: Packer + ?Sized>(&self, rocket: &mut Rocket, client: &reqwest::Client, packer: &K) -> (r: Result<(), ArtfulError>)
        requires
            old(rocket).config.headers@.len() < MAX_REQUEST_HEADERS,
        ensures
            r is Ok ==> final(rocket).radar is Some,
            r is Err ==> final(rocket).radar == old(rocket).radar,
            (old(rocket).config.body is Some || old(rocket).payload@.len() == 0) ==> {
                &&& r is Ok <==> request_for(old(rocket).config, None).accepted
                &&& r is Err ==> r matches Err(ArtfulError::RequestBuildError { .. })
            },
            ((old(rocket).config.body is Some || old(rocket).payload@.len() == 0) && r is Ok) ==> (final(rocket).radar matches Some(q)
                && q.given() == Some(request_for(old(rocket).config, None))),
            (old(rocket).config.body is None && old(rocket).payload@.len() > 0) ==> {
                &&& r is Ok ==> exists|packed: Seq<char>, ct: Option<Seq<char>>|
                    #![trigger request_for(old(rocket).config, Some((packed, ct)))]
                    packer_fallback(packer, old(rocket).payload@, packed, ct) && (final(rocket).radar matches Some(q)
                        && q.given() == Some(request_for(old(rocket).config, Some((packed, ct)))))
                &&& r matches Err(e) ==> packer.pack_gives(old(rocket).payload@, Seq::empty(), Err(e)) || (e is RequestBuildError
                    && exists|packed: Seq<char>, ct: Option<Seq<char>>|
                    #![trigger request_for(old(rocket).config, Some((packed, ct)))]
                    packer_fallback(packer, old(rocket).payload@, packed, ct) && !request_for(
                        old(rocket).config,
                        Some((packed, ct)),
                    ).accepted)
            },
            final(rocket).config == old(rocket).config,
            final(rocket).payload == old(rocket).payload,
            final(rocket).params == old(rocket).params,
            final(rocket).destination_origin == old(rocket).destination_origin,
            final(rocket).destination == old(rocket).destination,
    {
        match self.prepare_request(rocket, client, packer) {
            Ok(request) => {
                rocket.radar = Some(request);
                Ok(())
            },
            Err(e) => Err(e),
        }
    }
}

/// What parsing still needs once the chain has returned.
#[derive(Debug, Clone, Copy, PartialEq, Eq, Structural)]
pub enum ParseRoute {
    /// The destination is set.
    Done,
    /// The response body is to be read and unpacked with the packer.
    ReadBody,
    /// The caller's custom direction is to parse.
    Custom,
}

/// The message for a destination that was already parsed.
pub open spec fn parsed_destination_message() -> Seq<char> {
    "ParserPlugin 中 Rocket 的 destination 只能是 None 或 Response"@
}

impl ParserPlugin {
    /// The plugin's name.
    pub fn name(&self) -> (r: &'static str)
        ensures
            r@ == "ParserPlugin"@,
    {
        "ParserPlugin"
    }

    /// After the next layer has returned: a destination that is already a
    /// parsed body is refused; otherwise the response is parsed as the
    /// direction says, here for a raw response or no request, and for the
    /// others by the route handed back.
    pub fn route(&self, rocket: &mut Rocket) -> (r: Result<ParseRoute, ArtfulError>)
        ensures
            old(rocket).destination matches Some(Destination::Json(_)) ==> (r matches Err(
                ArtfulError::InvalidParameter { param, message },
            ) && param@ == "destination"@ && message@ == parsed_destination_message() && *final(rocket)
                == *old(rocket)),
            !(old(rocket).destination matches Some(Destination::Json(_))) ==> match old(rocket).config.direction {
                DirectionKind::Json => r == Ok::<ParseRoute, ArtfulError>(ParseRoute::ReadBody) && *final(rocket)
                    == *old(rocket),
                DirectionKind::Custom => r == Ok::<ParseRoute, ArtfulError>(ParseRoute::Custom) && *final(rocket)
                    == *old(rocket),
                DirectionKind::Response => match old(rocket).destination_origin {
                    Some(resp) => r == Ok::<ParseRoute, ArtfulError>(ParseRoute::Done) && final(rocket).destination
                        == Some(Destination::Response(resp)) && final(rocket).destination_origin is None,
                    None => r matches Err(ArtfulError::MissingResponse) && final(rocket).destination
                        == old(rocket).destination && final(rocket).destination_origin is None,
                },
                DirectionKind::NoRequest => r == Ok::<ParseRoute, ArtfulError>(ParseRoute::Done)
                    && final(rocket).destination == Some(
                    match old(rocket).destination {
                        Some(d) => d,
                        None => Destination::Nothing,
                    },
                ) && final(rocket).destination_origin == old(rocket).destination_origin,
            },
            final(rocket).config == old(rocket).config,
            final(rocket).payload == old(rocket).payload,
            final(rocket).params == old(rocket).params,
            final(rocket).radar == old(rocket).radar,
    {
        if let Some(Destination::Json(_)) = &rocket.destination {
            proof {
                reveal_strlit("destination");
            }
            return Err(ArtfulError::InvalidParameter {
                param: "destination".to_owned(),
                message: "ParserPlugin 中 Rocket 的 destination 只能是 None 或 Response".to_owned(),
            });
        }
        match rocket.config.direction {
            DirectionKind::Json => Ok(ParseRoute::ReadBody),
            DirectionKind::Custom => Ok(ParseRoute::Custom),
            DirectionKind::Response => {
                let d = OriginResponseDirection.parse(rocket)?;
                rocket.destination = Some(d);
                Ok(ParseRoute::Done)
            },
            DirectionKind::NoRequest => {
                let d = NoHttpRequestDirection.parse(rocket)?;
                rocket.destination = Some(d);
                Ok(ParseRoute::Done)
            },
        }
    }
}

} // verus!
