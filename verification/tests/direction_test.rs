use artisan_http::direction::{Destination, DirectionKind};
use artisan_http::directions::{JsonDirection, NoHttpRequestDirection, OriginResponseDirection};
use artisan_http::error::ArtfulError;
use artisan_http::json::{JsonMap, JsonValue};
use artisan_http::rocket::Rocket;

fn obj(entries: Vec<(&str, JsonValue)>) -> JsonValue {
    let mut m = JsonMap::new();
    for (k, v) in entries {
        m.insert(k.to_string(), v);
    }
    JsonValue::Object(m)
}

fn s(x: &str) -> JsonValue {
    JsonValue::String(x.to_string())
}

#[test]
fn test_direction_kind_variants() {
    assert!(matches!(DirectionKind::Json, DirectionKind::Json));
    assert!(matches!(DirectionKind::Response, DirectionKind::Response));
    assert!(matches!(DirectionKind::NoRequest, DirectionKind::NoRequest));
}

#[test]
fn test_destination_default() {
    let dest = Destination::default();
    assert!(matches!(dest, Destination::Nothing));
}

#[test]
fn test_destination_from_json() {
    let value = obj(vec![("key", s("value"))]);
    let dest: Destination = value.into();
    assert!(matches!(dest, Destination::Json(_)));
}

#[test]
fn test_destination_into_json_ok() {
    let dest = Destination::Json(obj(vec![("key", s("value"))]));
    assert_eq!(dest.into_json().unwrap(), obj(vec![("key", s("value"))]));
}

#[test]
fn test_destination_into_json_none_mismatch() {
    let dest = Destination::Nothing;
    let err = dest.into_json().unwrap_err();
    match err {
        ArtfulError::DestinationMismatch { expected, actual } => {
            assert_eq!(expected, "Json");
            assert_eq!(actual, "None");
        }
        other => panic!("expected DestinationMismatch, got {other:?}"),
    }
}

#[test]
fn test_destination_debug() {
    let dest = Destination::Json(obj(vec![("test", JsonValue::Number("1".to_string()))]));
    let debug_str = format!("{:?}", dest);
    assert!(debug_str.contains("Json"));

    let dest_none = Destination::Nothing;
    assert!(format!("{:?}", dest_none).contains("Nothing"));
}

#[test]
fn test_direction_kind_custom() {
    let kind = DirectionKind::Custom;
    assert!(matches!(kind, DirectionKind::Custom));
}

#[test]
fn no_http_request_passes_through_existing_destination() {
    let mut rocket = Rocket::new(JsonMap::new());
    rocket.destination = Some(Destination::Json(obj(vec![("a", JsonValue::Number("1".to_string()))])));

    let result = NoHttpRequestDirection.parse(&mut rocket).unwrap();

    match result {
        Destination::Json(value) => {
            assert_eq!(value, obj(vec![("a", JsonValue::Number("1".to_string()))]))
        }
        other => panic!("Expected JSON destination, got {:?}", other),
    }
    assert!(rocket.destination.is_none());
}

#[test]
fn no_http_request_returns_nothing_when_destination_absent() {
    let mut rocket = Rocket::new(JsonMap::new());

    let result = NoHttpRequestDirection.parse(&mut rocket).unwrap();

    assert!(matches!(result, Destination::Nothing));
}

#[test]
fn origin_response_missing_when_origin_absent() {
    let mut rocket = Rocket::new(JsonMap::new());

    let result = OriginResponseDirection.parse(&mut rocket);

    assert!(matches!(result.unwrap_err(), ArtfulError::MissingResponse));
}

#[test]
fn json_direction_missing_response_when_origin_absent() {
    let mut rocket = Rocket::new(JsonMap::new());

    let result = JsonDirection.take_response(&mut rocket);

    assert!(matches!(result.unwrap_err(), ArtfulError::MissingResponse));
}

#[test]
fn json_direction_finish_wraps_the_unpacked_value() {
    let d = JsonDirection.finish(Ok(obj(vec![("ok", JsonValue::Bool(true))]))).unwrap();
    assert!(matches!(d, Destination::Json(JsonValue::Object(_))));
    let e = JsonDirection.finish(Err(ArtfulError::MissingResponse)).unwrap_err();
    assert!(matches!(e, ArtfulError::MissingResponse));
}

fn sample_response(body: &'static str) -> reqwest::Response {
    let inner = http::Response::builder()
        .status(200)
        .body(body.as_bytes().to_vec())
        .unwrap();
    reqwest::Response::from(inner)
}

#[test]
fn test_destination_into_json_response_mismatch() {
    let dest = Destination::Response(sample_response(""));
    let err = dest.into_json().unwrap_err();
    match err {
        ArtfulError::DestinationMismatch { expected, actual } => {
            assert_eq!(expected, "Json");
            assert_eq!(actual, "Response");
        }
        other => panic!("expected DestinationMismatch, got {other:?}"),
    }
}

#[test]
fn response_destination_debug() {
    let dest_resp = Destination::Response(sample_response(""));
    assert!(format!("{:?}", dest_resp).contains("Response"));
}

#[test]
fn origin_response_returns_response_and_takes_origin() {
    let mut rocket = Rocket::new(JsonMap::new());
    rocket.destination_origin = Some(sample_response(""));

    let result = OriginResponseDirection.parse(&mut rocket).unwrap();

    assert!(matches!(result, Destination::Response(_)));
    assert!(rocket.destination_origin.is_none());
}

#[test]
fn json_direction_takes_the_response() {
    let mut rocket = Rocket::new(JsonMap::new());
    rocket.destination_origin = Some(sample_response("{\"ok\":true}"));

    let response = JsonDirection.take_response(&mut rocket).unwrap();

    assert_eq!(response.status().as_u16(), 200);
    assert!(rocket.destination_origin.is_none());
}

#[test]
fn json_direction_unpacks_with_the_packer_and_payload_options() {
    let mut rocket = Rocket::new(JsonMap::new());
    let d = JsonDirection
        .unpack_body(&rocket, "name=yan+song", &artisan_http::query::QueryPacker)
        .unwrap();
    assert!(matches!(&d, Destination::Json(v) if *v == obj(vec![("name", s("yan song"))])));

    rocket.payload.insert("_unpack_raw".to_string(), JsonValue::Bool(true));
    let d = JsonDirection
        .unpack_body(&rocket, "name=yan+song", &artisan_http::query::QueryPacker)
        .unwrap();
    assert!(matches!(&d, Destination::Json(v) if *v == obj(vec![("name", s("yan+song"))])));
}

#[test]
fn parses_xml_body_when_packer_replaced() {
    let rocket = Rocket::new(JsonMap::new());
    let d = JsonDirection
        .unpack_body(
            &rocket,
            "<root><ok>true</ok><code>0</code></root>",
            &artisan_http::xml::XmlPacker,
        )
        .unwrap();
    match d {
        Destination::Json(value) => {
            assert_eq!(value, obj(vec![("code", s("0")), ("ok", s("true"))]));
        }
        other => panic!("Expected JSON destination, got {:?}", other),
    }
}
