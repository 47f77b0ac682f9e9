use artisan_http::direction::DirectionKind;
use artisan_http::json::{JsonMap, JsonValue};
use artisan_http::rocket::{ClientOptions, RequestOptions, Rocket, RocketConfig};

fn s(x: &str) -> JsonValue {
    JsonValue::String(x.to_string())
}

fn map(entries: Vec<(&str, JsonValue)>) -> JsonMap {
    let mut m = JsonMap::new();
    for (k, v) in entries {
        m.insert(k.to_string(), v);
    }
    m
}

#[test]
fn test_rocket_config_default() {
    let config = RocketConfig::default();
    assert_eq!(config.method, reqwest::Method::POST);
    assert_eq!(config.url, "");
    assert!(config.headers.is_empty());
    assert!(config.body.is_none());
}

#[test]
fn test_rocket_new() {
    let params = map(vec![("key", s("value"))]);

    let rocket = Rocket::new(params);

    assert_eq!(rocket.config.method, reqwest::Method::POST);
    assert_eq!(rocket.config.url, "");
    assert!(rocket.radar.is_none());
    assert!(rocket.destination_origin.is_none());
    assert!(rocket.destination.is_none());
}

#[test]
fn test_http_options_default() {
    let client = ClientOptions::default();
    assert!(client.timeout.is_none());
    assert!(client.connect_timeout.is_none());
    assert!(client.pool_idle_timeout.is_none());
    assert!(client.pool_max_idle_per_host.is_none());
    assert!(client.user_agent.is_none());

    let request = RequestOptions::default();
    assert!(request.timeout.is_none());
}

#[test]
fn test_client_options_with_timeout() {
    let http = ClientOptions {
        timeout: Some(30),
        connect_timeout: Some(10),
        ..Default::default()
    };
    assert_eq!(http.timeout, Some(30));
    assert_eq!(http.connect_timeout, Some(10));
}

#[test]
fn test_rocket_merge_params_to_payload() {
    let params = map(vec![("merged", s("value"))]);

    let mut rocket = Rocket::new(params);

    rocket.merge_params_to_payload();
    assert!(rocket.payload.contains_key("merged"));
    assert!(rocket.get_params().contains_key("merged"));
}

#[test]
fn merge_params_overrides_payload_entries() {
    let params = map(vec![("a", s("param")), ("b", s("param"))]);
    let mut rocket = Rocket::new(params);
    rocket.payload.insert("a".to_string(), s("payload"));
    rocket.payload.insert("c".to_string(), s("payload"));

    rocket.merge_params_to_payload();

    assert_eq!(rocket.payload.get("a"), Some(&s("param")));
    assert_eq!(rocket.payload.get("b"), Some(&s("param")));
    assert_eq!(rocket.payload.get("c"), Some(&s("payload")));
    assert_eq!(rocket.get_params().len(), 2);
}

#[test]
fn test_rocket_set_method() {
    let mut rocket = Rocket::new(JsonMap::new());
    rocket.set_method(reqwest::Method::GET);
    assert_eq!(rocket.config.method, reqwest::Method::GET);
}

#[test]
fn test_rocket_set_url() {
    let mut rocket = Rocket::new(JsonMap::new());
    rocket.set_url("https://example.com/api");
    assert_eq!(rocket.config.url, "https://example.com/api");
}

#[test]
fn test_rocket_add_header() {
    let mut rocket = Rocket::new(JsonMap::new());
    rocket.add_header("Content-Type", "application/json");
    rocket.add_header("Authorization", "Bearer token");

    assert_eq!(
        rocket.config.headers.get("Content-Type"),
        Some(&"application/json".to_string())
    );
    assert_eq!(
        rocket.config.headers.get("Authorization"),
        Some(&"Bearer token".to_string())
    );
}

#[test]
fn test_rocket_set_body() {
    let mut rocket = Rocket::new(JsonMap::new());
    rocket.set_body("{\"data\": \"test\"}");
    assert_eq!(rocket.config.body, Some("{\"data\": \"test\"}".to_string()));
}

#[test]
fn test_rocket_set_timeout() {
    let mut rocket = Rocket::new(JsonMap::new());
    rocket.set_timeout(60);
    assert_eq!(rocket.config.http.timeout, Some(60));
}

#[test]
fn test_rocket_get_params() {
    let params = map(vec![
        ("key1", s("value1")),
        ("key2", JsonValue::Number("123".to_string())),
    ]);

    let rocket = Rocket::new(params);
    let retrieved = rocket.get_params();

    assert_eq!(retrieved.len(), 2);
    assert_eq!(retrieved.get("key1"), Some(&s("value1")));
    assert_eq!(retrieved.get("key2"), Some(&JsonValue::Number("123".to_string())));
}

#[test]
fn test_rocket_debug() {
    let params = map(vec![("test", s("value"))]);

    let rocket = Rocket::new(params);
    let debug_str = rocket.describe();

    assert!(debug_str.contains("params"));
    assert!(debug_str.contains("payload"));
    assert!(debug_str.contains("config"));
}

#[test]
fn test_rocket_convenience_methods_chained() {
    let mut rocket = Rocket::new(JsonMap::new());

    rocket.set_method(reqwest::Method::PUT);
    rocket.set_url("https://api.example.com/resource");
    rocket.add_header("X-Custom", "custom-value");
    rocket.add_header("Accept", "application/json");
    rocket.set_body("{\"update\": true}");
    rocket.set_timeout(30);

    assert_eq!(rocket.config.method, reqwest::Method::PUT);
    assert_eq!(rocket.config.url, "https://api.example.com/resource");
    assert_eq!(rocket.config.headers.len(), 2);
    assert!(rocket.config.body.is_some());
    assert_eq!(rocket.config.http.timeout, Some(30));
}

#[test]
fn test_rocket_add_header_overwrite() {
    let mut rocket = Rocket::new(JsonMap::new());

    rocket.add_header("X-Test", "first-value");
    assert_eq!(
        rocket.config.headers.get("X-Test"),
        Some(&"first-value".to_string())
    );

    rocket.add_header("X-Test", "second-value");
    assert_eq!(
        rocket.config.headers.get("X-Test"),
        Some(&"second-value".to_string())
    );
}

#[test]
fn test_rocket_set_body_overwrite() {
    let mut rocket = Rocket::new(JsonMap::new());

    rocket.set_body("first body");
    assert_eq!(rocket.config.body, Some("first body".to_string()));

    rocket.set_body("second body");
    assert_eq!(rocket.config.body, Some("second body".to_string()));
}

#[test]
fn test_client_options_pool_settings() {
    let http = ClientOptions {
        pool_idle_timeout: Some(90),
        pool_max_idle_per_host: Some(20),
        ..Default::default()
    };
    assert_eq!(http.pool_idle_timeout, Some(90));
    assert_eq!(http.pool_max_idle_per_host, Some(20));
}

#[test]
fn test_rocket_config_direction_default() {
    let config = RocketConfig::default();
    assert!(matches!(config.direction, DirectionKind::Json));
}

#[test]
fn test_rocket_config_custom_direction() {
    let config = RocketConfig {
        direction: DirectionKind::Response,
        ..Default::default()
    };
    assert!(matches!(config.direction, DirectionKind::Response));
}

#[test]
fn has_header_ignores_ascii_case_only() {
    let mut rocket = Rocket::new(JsonMap::new());
    rocket.add_header("content-type", "text/plain");
    assert!(rocket.has_header("Content-Type"));
    assert!(rocket.has_header("CONTENT-TYPE"));
    assert!(!rocket.has_header("Content-Typ"));
    assert!(!rocket.config.headers.contains_key("Content-Type"));
    assert!(rocket.config.headers.contains_key("content-type"));
}

#[test]
fn headers_keep_insertion_order_and_replace_in_place() {
    let mut rocket = Rocket::new(JsonMap::new());
    rocket.add_header("B", "1");
    rocket.add_header("A", "2");
    rocket.add_header("B", "3");
    let h = &rocket.config.headers;
    assert_eq!(h.len(), 2);
    assert_eq!(h.entry_at(0), (&"B".to_string(), &"3".to_string()));
    assert_eq!(h.entry_at(1), (&"A".to_string(), &"2".to_string()));
}

#[test]
fn describe_summarises_the_carrier() {
    let params = map(vec![("a", s("1")), ("b", s("2"))]);
    let mut rocket = Rocket::new(params);
    rocket.set_url("http://example.com/");
    rocket.add_header("X-Test", "1");
    assert_eq!(
        rocket.describe(),
        "Rocket { params: [a,b], payload: [], config: { url: http://example.com/, headers: [X-Test], body: none }, radar: none, destination_origin: none, destination: none }"
    );
}
