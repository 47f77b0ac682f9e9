use std::time::Duration;

use artisan_http::direction::{Destination, DirectionKind};
use artisan_http::error::ArtfulError;
use artisan_http::json::{JsonMap, JsonValue};
use artisan_http::plugins::{AddPayloadBodyPlugin, AddRadarPlugin, ParseRoute, ParserPlugin, StartPlugin};
use artisan_http::query::QueryPacker;
use artisan_http::rocket::Rocket;

fn s(x: &str) -> JsonValue {
    JsonValue::String(x.to_string())
}

fn map(entries: Vec<(&str, JsonValue)>) -> JsonMap {
    let mut m = JsonMap::new();
    for (k, v) in entries {
        m.insert(k.to_string(), v);
    }
    m
}

#[test]
fn plugin_names() {
    assert_eq!(StartPlugin.name(), "StartPlugin");
    assert_eq!(AddPayloadBodyPlugin.name(), "AddPayloadBodyPlugin");
    assert_eq!(AddRadarPlugin.name(), "AddRadarPlugin");
    assert_eq!(ParserPlugin.name(), "ParserPlugin");
}

#[test]
fn merges_params_to_empty_payload() {
    let mut rocket = Rocket::new(map(vec![("order_id", s("123"))]));

    StartPlugin.prepare(&mut rocket);

    assert_eq!(rocket.payload.get("order_id"), Some(&s("123")));
    assert!(rocket.get_params().contains_key("order_id"));
}

#[test]
fn keeps_existing_payload_when_params_present() {
    let mut rocket = Rocket::new(map(vec![("outer", s("param"))]));
    rocket.payload.insert("inner".to_string(), s("prefill"));

    StartPlugin.prepare(&mut rocket);

    assert_eq!(rocket.payload.get("inner"), Some(&s("prefill")));
    assert!(!rocket.payload.contains_key("outer"));
}

#[test]
fn packs_payload_and_sets_content_type() {
    let mut rocket = Rocket::new(map(vec![("order_id", s("123"))]));
    rocket.merge_params_to_payload();
    assert!(AddPayloadBodyPlugin.needs_body(&rocket));

    AddPayloadBodyPlugin.attach_body(&mut rocket, "{\"order_id\":\"123\"}".to_string(), Some("application/json"));

    assert_eq!(rocket.config.body, Some("{\"order_id\":\"123\"}".to_string()));
    assert_eq!(
        rocket.config.headers.get("Content-Type"),
        Some(&"application/json".to_string())
    );
}

#[test]
fn skips_when_body_preset() {
    let mut rocket = Rocket::new(JsonMap::new());
    rocket.payload.insert("order_id".to_string(), s("123"));
    rocket.set_body("preset body");

    assert!(!AddPayloadBodyPlugin.needs_body(&rocket));
    assert_eq!(rocket.config.body, Some("preset body".to_string()));
    assert!(!rocket.config.headers.contains_key("Content-Type"));
}

#[test]
fn skips_when_payload_empty() {
    let rocket = Rocket::new(JsonMap::new());

    assert!(!AddPayloadBodyPlugin.needs_body(&rocket));
    assert!(rocket.config.body.is_none());
}

#[test]
fn respects_explicit_content_type_case_insensitive() {
    let mut rocket = Rocket::new(JsonMap::new());
    rocket.payload.insert("order_id".to_string(), s("123"));
    rocket.add_header("content-type", "application/custom");

    AddPayloadBodyPlugin.attach_body(&mut rocket, "packed".to_string(), Some("application/json"));

    assert_eq!(
        rocket.config.headers.get("content-type"),
        Some(&"application/custom".to_string())
    );
    assert!(!rocket.config.headers.contains_key("Content-Type"));
}

#[test]
fn no_content_type_when_packer_declares_none() {
    let mut rocket = Rocket::new(JsonMap::new());
    rocket.payload.insert("order_id".to_string(), s("123"));

    AddPayloadBodyPlugin.attach_body(&mut rocket, "packed:1".to_string(), None);

    assert_eq!(rocket.config.body, Some("packed:1".to_string()));
    assert!(!rocket.config.headers.contains_key("Content-Type"));
}

#[test]
fn builds_request_from_config() {
    let client = reqwest::Client::new();
    let mut rocket = Rocket::new(JsonMap::new());
    rocket.set_method(reqwest::Method::PUT);
    rocket.set_url("http://example.com/anything");
    rocket.add_header("X-Test", "1");
    rocket.set_body("preset body");
    rocket.set_timeout(7);

    AddRadarPlugin.build_radar(&mut rocket, &client, &QueryPacker).unwrap();

    let request = rocket.radar.take().expect("radar should be built").into_request();
    assert_eq!(*request.method(), reqwest::Method::PUT);
    assert_eq!(request.url().as_str(), "http://example.com/anything");
    assert_eq!(
        request
            .headers()
            .get("x-test")
            .and_then(|v| v.to_str().ok()),
        Some("1")
    );
    assert_eq!(
        request.body().and_then(|b| b.as_bytes()),
        Some(&b"preset body"[..])
    );
    assert_eq!(request.timeout(), Some(&Duration::from_secs(7)));
}

#[test]
fn empty_payload_no_body() {
    let client = reqwest::Client::new();
    let mut rocket = Rocket::new(JsonMap::new());
    rocket.set_url("http://example.com/anything");

    AddRadarPlugin.build_radar(&mut rocket, &client, &QueryPacker).unwrap();

    let request = rocket.radar.take().expect("radar should be built").into_request();
    assert!(request.body().is_none());
    assert!(request.headers().get("content-type").is_none());
    assert_eq!(*request.method(), reqwest::Method::POST);
}

#[test]
fn build_error_propagates_on_invalid_url() {
    let client = reqwest::Client::new();
    let mut rocket = Rocket::new(JsonMap::new());
    rocket.set_url("not a valid url");

    let result = AddRadarPlugin.build_radar(&mut rocket, &client, &QueryPacker);

    assert!(matches!(
        result.unwrap_err(),
        ArtfulError::RequestBuildError { .. }
    ));
    assert!(rocket.radar.is_none());
}

#[test]
fn rejects_non_response_destination() {
    let mut rocket = Rocket::new(JsonMap::new());
    rocket.destination = Some(Destination::Json(JsonValue::Null));

    let result = ParserPlugin.route(&mut rocket);

    assert!(matches!(
        result.unwrap_err(),
        ArtfulError::InvalidParameter { param, .. } if param == "destination"
    ));
}

#[test]
fn passes_none_with_no_request_direction() {
    let mut rocket = Rocket::new(JsonMap::new());
    rocket.config.direction = DirectionKind::NoRequest;

    assert_eq!(ParserPlugin.route(&mut rocket).unwrap(), ParseRoute::Done);

    assert!(matches!(rocket.destination, Some(Destination::Nothing)));
}

#[test]
fn response_direction_without_response_is_missing() {
    let mut rocket = Rocket::new(JsonMap::new());
    rocket.config.direction = DirectionKind::Response;

    let result = ParserPlugin.route(&mut rocket);

    assert!(matches!(result.unwrap_err(), ArtfulError::MissingResponse));
}

#[test]
fn json_and_custom_directions_route_out() {
    let mut rocket = Rocket::new(JsonMap::new());
    assert_eq!(ParserPlugin.route(&mut rocket).unwrap(), ParseRoute::ReadBody);
    rocket.config.direction = DirectionKind::Custom;
    assert_eq!(ParserPlugin.route(&mut rocket).unwrap(), ParseRoute::Custom);
    assert!(rocket.destination.is_none());
}

fn sample_response(body: &'static str) -> reqwest::Response {
    let inner = http::Response::builder()
        .status(200)
        .body(body.as_bytes().to_vec())
        .unwrap();
    reqwest::Response::from(inner)
}

#[test]
fn wraps_origin_with_response_direction() {
    let mut rocket = Rocket::new(JsonMap::new());
    rocket.destination_origin = Some(sample_response("raw body"));
    rocket.config.direction = DirectionKind::Response;

    assert_eq!(ParserPlugin.route(&mut rocket).unwrap(), ParseRoute::Done);

    assert!(matches!(rocket.destination, Some(Destination::Response(_))));
    assert!(rocket.destination_origin.is_none());
}

#[test]
fn json_direction_leaves_the_response_for_the_body_reader() {
    let mut rocket = Rocket::new(JsonMap::new());
    rocket.destination_origin = Some(sample_response("{\"ok\":true}"));

    assert_eq!(ParserPlugin.route(&mut rocket).unwrap(), ParseRoute::ReadBody);
    assert!(rocket.destination_origin.is_some());
}

#[test]
fn fallback_branch_packs_payload_and_sets_content_type() {
    let client = reqwest::Client::new();
    let mut rocket = Rocket::new(map(vec![("order_id", s("123"))]));
    rocket.merge_params_to_payload();
    rocket.set_url("http://example.com/ct-fallback");

    AddRadarPlugin.build_radar(&mut rocket, &client, &QueryPacker).unwrap();

    let request = rocket.radar.take().expect("radar should be built").into_request();
    assert_eq!(
        request.body().and_then(|b| b.as_bytes()),
        Some(&b"order_id=123"[..])
    );
    assert_eq!(
        request
            .headers()
            .get("content-type")
            .and_then(|v| v.to_str().ok()),
        Some("application/x-www-form-urlencoded")
    );
    assert!(rocket.config.body.is_none());
    assert!(rocket.config.headers.is_empty());
}

#[test]
fn fallback_branch_respects_explicit_content_type() {
    let client = reqwest::Client::new();
    let mut rocket = Rocket::new(map(vec![("order_id", s("123"))]));
    rocket.merge_params_to_payload();
    rocket.set_url("http://example.com/ct-fallback");
    rocket.add_header("content-type", "text/plain");

    AddRadarPlugin.build_radar(&mut rocket, &client, &QueryPacker).unwrap();

    let request = rocket.radar.take().expect("radar should be built").into_request();
    let values: Vec<_> = request.headers().get_all("content-type").iter().collect();
    assert_eq!(values.len(), 1);
    assert_eq!(values[0].to_str().unwrap(), "text/plain");
}

#[test]
fn assemble_packs_with_the_packer() {
    let mut rocket = Rocket::new(map(vec![("a", s("1"))]));
    rocket.merge_params_to_payload();

    AddPayloadBodyPlugin.assemble(&mut rocket, &QueryPacker).unwrap();

    assert_eq!(rocket.config.body, Some("a=1".to_string()));
    assert_eq!(
        rocket.config.headers.get("Content-Type"),
        Some(&"application/x-www-form-urlencoded".to_string())
    );
}

#[test]
fn assemble_hands_back_packing_failures() {
    let mut rocket = Rocket::new(map(vec![("a", JsonValue::Array(vec![]))]));
    rocket.merge_params_to_payload();

    let err = AddPayloadBodyPlugin
        .assemble(&mut rocket, &artisan_http::xml::XmlPacker)
        .unwrap_err();

    assert!(matches!(err, ArtfulError::XmlSerializeError { .. }));
    assert!(rocket.config.body.is_none());
    assert!(rocket.config.headers.is_empty());
}

#[test]
fn assembled_request_takes_the_fallback_body_and_content_type() {
    let client = reqwest::Client::new();
    let mut rocket = Rocket::new(JsonMap::new());
    rocket.set_url("http://example.com/form");
    rocket.add_header("X-Test", "1");

    let request = AddRadarPlugin
        .assemble_request(&rocket, &client, Some(("a=1".to_string(), Some("application/x-www-form-urlencoded"))))
        .unwrap()
        .into_request();

    assert_eq!(request.body().and_then(|b| b.as_bytes()), Some(&b"a=1"[..]));
    assert_eq!(
        request.headers().get("content-type").and_then(|v| v.to_str().ok()),
        Some("application/x-www-form-urlencoded")
    );
    assert!(request.timeout().is_none());
}

#[test]
fn assembled_request_with_an_invalid_header_is_a_build_error() {
    let client = reqwest::Client::new();
    let mut rocket = Rocket::new(JsonMap::new());
    rocket.set_url("http://example.com/");
    rocket.add_header("Bad Name", "1");

    let result = AddRadarPlugin.assemble_request(&rocket, &client, None);
    assert!(matches!(result, Err(ArtfulError::RequestBuildError { .. })));
}

#[test]
fn prepared_request_packs_a_payload_without_body() {
    let client = reqwest::Client::new();
    let mut rocket = Rocket::new(JsonMap::new());
    rocket.set_url("http://example.com/");
    rocket.payload = map(vec![("order_id", s("123"))]);

    let request = AddRadarPlugin.prepare_request(&rocket, &client, &QueryPacker).unwrap().into_request();

    assert_eq!(request.body().and_then(|b| b.as_bytes()), Some(&b"order_id=123"[..]));
    assert!(rocket.radar.is_none());
}
