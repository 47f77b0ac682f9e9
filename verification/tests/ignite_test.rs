use artisan_http::direction::DirectionKind;
use artisan_http::error::ArtfulError;
use artisan_http::ignite::{IgniteAction, IgniteCore, IgniteInput};
use artisan_http::json::JsonMap;
use artisan_http::rocket::Rocket;
use artisan_http::net::ModeledRequest;

fn built_request() -> ModeledRequest {
    ModeledRequest::adopt(
        reqwest::Client::new()
            .request(reqwest::Method::POST, "http://127.0.0.1:9/boom")
            .build()
            .unwrap(),
    )
}

fn request_failed() -> ArtfulError {
    ArtfulError::RequestFailed {
        message: "connection refused".to_string(),
    }
}

#[test]
fn no_request_skips_execution() {
    let mut rocket = Rocket::new(JsonMap::new());
    rocket.config.direction = DirectionKind::NoRequest;

    let mut core = IgniteCore::new(true);
    let action = core.step(&mut rocket, IgniteInput::Begin);

    assert!(matches!(action, IgniteAction::Finish(Ok(()))));
    assert!(core.is_finished());
    assert!(rocket.destination.is_none());
    assert!(rocket.destination_origin.is_none());
}

#[test]
fn missing_request_when_radar_absent() {
    let mut rocket = Rocket::new(JsonMap::new());

    let mut core = IgniteCore::new(false);
    let action = core.step(&mut rocket, IgniteInput::Begin);

    assert!(matches!(action, IgniteAction::Finish(Err(ArtfulError::MissingRequest))));
}

#[test]
fn missing_request_fires_http_start_only() {
    let mut rocket = Rocket::new(JsonMap::new());
    let mut core = IgniteCore::new(true);

    let action = core.step(&mut rocket, IgniteInput::Begin);
    assert!(matches!(action, IgniteAction::DispatchHttpStart));

    let action = core.step(&mut rocket, IgniteInput::Dispatched(Ok(())));
    assert!(matches!(action, IgniteAction::Finish(Err(ArtfulError::MissingRequest))));
}

#[test]
fn http_error_listener_failure_preserves_original() {
    let mut rocket = Rocket::new(JsonMap::new());
    rocket.radar = Some(built_request());
    let mut core = IgniteCore::new(true);

    assert!(matches!(core.step(&mut rocket, IgniteInput::Begin), IgniteAction::DispatchHttpStart));
    let action = core.step(&mut rocket, IgniteInput::Dispatched(Ok(())));
    assert!(matches!(action, IgniteAction::Execute(_)));
    assert!(rocket.radar.is_none());

    let action = core.step(&mut rocket, IgniteInput::Executed(Err(request_failed())));
    assert!(matches!(action, IgniteAction::DispatchHttpError));
    assert!(matches!(core.failure(), Some(ArtfulError::RequestFailed { .. })));

    let listener_err = artisan_http::error::listener_failure(
        "HttpErrorFailing",
        ArtfulError::Other("listener boom".to_string()),
    );
    let action = core.step(&mut rocket, IgniteInput::Dispatched(Err(listener_err)));
    match action {
        IgniteAction::Finish(Err(ArtfulError::EventListenerError {
            listener_name,
            original,
            ..
        })) => {
            assert_eq!(listener_name, "HttpErrorFailing");
            assert!(matches!(*original.unwrap(), ArtfulError::RequestFailed { .. }));
        }
        other => panic!("expected EventListenerError, got {other:?}"),
    }
}

#[test]
fn http_error_without_listener_failure_propagates_the_request_error() {
    let mut rocket = Rocket::new(JsonMap::new());
    rocket.radar = Some(built_request());
    let mut core = IgniteCore::new(true);
    core.step(&mut rocket, IgniteInput::Begin);
    core.step(&mut rocket, IgniteInput::Dispatched(Ok(())));
    core.step(&mut rocket, IgniteInput::Executed(Err(request_failed())));
    let action = core.step(&mut rocket, IgniteInput::Dispatched(Ok(())));
    assert!(matches!(action, IgniteAction::Finish(Err(ArtfulError::RequestFailed { .. }))));
}

#[test]
fn no_events_field_no_dispatch() {
    let mut rocket = Rocket::new(JsonMap::new());
    rocket.radar = Some(built_request());
    let mut core = IgniteCore::new(false);

    let action = core.step(&mut rocket, IgniteInput::Begin);
    assert!(matches!(action, IgniteAction::Execute(_)));
    let action = core.step(&mut rocket, IgniteInput::Executed(Err(request_failed())));
    assert!(matches!(action, IgniteAction::Finish(Err(ArtfulError::RequestFailed { .. }))));
}

#[test]
fn http_start_listener_failure_stops_before_sending() {
    let mut rocket = Rocket::new(JsonMap::new());
    rocket.radar = Some(built_request());
    let mut core = IgniteCore::new(true);
    core.step(&mut rocket, IgniteInput::Begin);
    let err = artisan_http::error::listener_failure("L", ArtfulError::Other("no".to_string()));
    let action = core.step(&mut rocket, IgniteInput::Dispatched(Err(err)));
    assert!(matches!(action, IgniteAction::Finish(Err(ArtfulError::EventListenerError { .. }))));
    assert!(rocket.radar.is_some());
}

#[test]
fn execution_failure_without_listeners_finishes() {
    let mut rocket = Rocket::new(JsonMap::new());
    rocket.radar = Some(built_request());
    let mut core = IgniteCore::new(false);
    core.step(&mut rocket, IgniteInput::Begin);
    assert!(!core.is_finished());
    core.step(&mut rocket, IgniteInput::Executed(Err(request_failed())));
    assert!(core.is_finished());
    assert!(core.failure().is_none());
    assert!(rocket.destination.is_none());
}

fn sample_response(body: &'static str) -> reqwest::Response {
    let inner = http::Response::builder()
        .status(200)
        .body(body.as_bytes().to_vec())
        .unwrap();
    reqwest::Response::from(inner)
}

#[test]
fn response_is_stored_and_not_parsed() {
    let mut rocket = Rocket::new(JsonMap::new());
    rocket.radar = Some(built_request());
    let mut core = IgniteCore::new(true);

    core.step(&mut rocket, IgniteInput::Begin);
    core.step(&mut rocket, IgniteInput::Dispatched(Ok(())));
    let action = core.step(&mut rocket, IgniteInput::Executed(Ok(sample_response("{}"))));
    assert!(matches!(action, IgniteAction::DispatchHttpEnd));
    assert!(rocket.destination_origin.is_some());

    let action = core.step(&mut rocket, IgniteInput::Dispatched(Ok(())));
    assert!(matches!(action, IgniteAction::Finish(Ok(()))));
    assert!(core.is_finished());
    assert!(rocket.destination.is_none());
    assert!(rocket.destination_origin.is_some());
}

#[test]
fn response_without_listeners_finishes_at_once() {
    let mut rocket = Rocket::new(JsonMap::new());
    rocket.radar = Some(built_request());
    rocket.config.direction = DirectionKind::Response;
    let mut core = IgniteCore::new(false);

    core.step(&mut rocket, IgniteInput::Begin);
    let action = core.step(&mut rocket, IgniteInput::Executed(Ok(sample_response("raw"))));
    assert!(matches!(action, IgniteAction::Finish(Ok(()))));
    assert!(rocket.destination.is_none());
    assert!(rocket.destination_origin.is_some());
}

#[test]
fn http_end_listener_failure_is_the_outcome() {
    let mut rocket = Rocket::new(JsonMap::new());
    rocket.radar = Some(built_request());
    let mut core = IgniteCore::new(true);
    core.step(&mut rocket, IgniteInput::Begin);
    core.step(&mut rocket, IgniteInput::Dispatched(Ok(())));
    core.step(&mut rocket, IgniteInput::Executed(Ok(sample_response("{}"))));
    let err = artisan_http::error::listener_failure("L", ArtfulError::Other("no".to_string()));
    let action = core.step(&mut rocket, IgniteInput::Dispatched(Err(err)));
    assert!(matches!(action, IgniteAction::Finish(Err(ArtfulError::EventListenerError { .. }))));
    assert!(rocket.destination.is_none());
    assert!(rocket.destination_origin.is_some());
}
