use artisan_http::error::{ArtfulError, listener_failure, with_original};

fn request_error_text() -> String {
    "builder error".to_string()
}

#[test]
fn request_failed_display_and_from() {
    let err = ArtfulError::RequestFailed {
        message: request_error_text(),
    };
    assert!(matches!(err, ArtfulError::RequestFailed { .. }));
    assert!(err.message().starts_with("HTTP request failed:"));
}

#[test]
fn client_build_error_display_and_source() {
    let err = ArtfulError::ClientBuildError {
        message: request_error_text(),
    };
    assert!(err.message().starts_with("failed to build HTTP client:"));
    assert_eq!(err.message(), "failed to build HTTP client: builder error");
}

#[test]
fn request_build_error_display_and_source() {
    let err = ArtfulError::RequestBuildError {
        message: request_error_text(),
    };
    assert!(err.message().starts_with("failed to build HTTP request:"));
}

#[test]
fn json_serialize_error_from_serde() {
    let err = ArtfulError::JsonSerializeError {
        message: "expected value at line 1 column 1".to_string(),
    };
    assert!(matches!(err, ArtfulError::JsonSerializeError { .. }));
    assert!(err.message().starts_with("failed to serialize JSON:"));
}

#[test]
fn json_deserialize_error_display_and_source() {
    let err = ArtfulError::JsonDeserializeError {
        message: "unexpected token".to_string(),
        source: Some("expected value at line 1 column 1".to_string()),
    };
    assert!(err.message().starts_with("failed to deserialize JSON:"));
    assert_eq!(err.message(), "failed to deserialize JSON: unexpected token");
}

#[test]
fn plugin_execution_error_display() {
    let err = ArtfulError::PluginExecutionError {
        plugin_name: "MyPlugin".to_string(),
        message: "boom".to_string(),
        source: None,
    };
    assert_eq!(err.message(), "plugin execution failed: MyPlugin - boom");
}

#[test]
fn plugin_execution_error_with_source() {
    let err = ArtfulError::PluginExecutionError {
        plugin_name: "MyPlugin".to_string(),
        message: "boom".to_string(),
        source: Some("inner cause".to_string()),
    };
    assert!(matches!(
        err,
        ArtfulError::PluginExecutionError { source: Some(_), .. }
    ));
}

#[test]
fn event_listener_error_display() {
    let err = ArtfulError::EventListenerError {
        listener_name: "MyListener".to_string(),
        message: "boom".to_string(),
        source: None,
        original: None,
    };
    assert_eq!(err.message(), "event listener failed: MyListener - boom");
}

#[test]
fn event_listener_error_with_source() {
    let err = listener_failure("MyListener", ArtfulError::Other("inner cause".to_string()));
    match err {
        ArtfulError::EventListenerError {
            listener_name,
            message,
            source,
            original,
        } => {
            assert_eq!(listener_name, "MyListener");
            assert_eq!(message, "inner cause");
            assert!(matches!(source.as_deref(), Some(ArtfulError::Other(m)) if m == "inner cause"));
            assert!(original.is_none());
        }
        other => panic!("expected EventListenerError, got {other:?}"),
    }
}

#[test]
fn event_listener_error_original_preserved() {
    let listener_err = listener_failure(
        "MetricsListener",
        ArtfulError::Other("metrics sink unreachable".to_string()),
    );
    let err = with_original(
        listener_err,
        ArtfulError::RequestFailed {
            message: request_error_text(),
        },
    );

    assert_eq!(
        err.message(),
        "event listener failed: MetricsListener - metrics sink unreachable"
    );

    match err {
        ArtfulError::EventListenerError {
            original: Some(original),
            source,
            ..
        } => {
            assert!(matches!(*original, ArtfulError::RequestFailed { .. }));
            assert!(source.is_some());
        }
        other => panic!("expected EventListenerError, got {other:?}"),
    }
}

#[test]
fn with_original_leaves_other_errors_alone() {
    let err = with_original(ArtfulError::MissingRequest, ArtfulError::Other("x".to_string()));
    assert!(matches!(err, ArtfulError::MissingRequest));
}

#[test]
fn simple_variants_display() {
    assert_eq!(
        ArtfulError::MissingParameter("token".to_string()).message(),
        "missing required parameter: token"
    );
    assert_eq!(
        ArtfulError::InvalidParameter {
            param: "amount".to_string(),
            message: "must be positive".to_string(),
        }
        .message(),
        "invalid parameter: amount - must be positive"
    );
    assert_eq!(
        ArtfulError::DirectionParseError("bad body".to_string()).message(),
        "failed to parse response: bad body"
    );
    assert_eq!(ArtfulError::MissingRequest.message(), "missing HTTP request");
    assert_eq!(ArtfulError::MissingResponse.message(), "missing HTTP response");
    assert_eq!(
        ArtfulError::Other("custom failure".to_string()).message(),
        "custom failure"
    );
    assert_eq!(
        ArtfulError::DestinationMismatch {
            expected: "Json".to_string(),
            actual: "None".to_string(),
        }
        .message(),
        "destination mismatch: expected Json, got None"
    );
    assert_eq!(
        ArtfulError::XmlDeserializeError {
            message: "no root element".to_string(),
            source: None,
        }
        .message(),
        "failed to deserialize XML: no root element"
    );
}
