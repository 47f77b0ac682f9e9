use std::sync::Arc;
use std::sync::Mutex;

use artisan_http::error::ArtfulError;
use artisan_http::event::{Event, EventDispatcher, EventListener, ListenerRound, RoundAction};
use artisan_http::json::{JsonMap, JsonValue};
use artisan_http::rocket::Rocket;

struct Recorder {
    label: &'static str,
    seen: Arc<Mutex<Vec<&'static str>>>,
    fail: bool,
}

impl EventListener<()> for Recorder {
    fn name(&self) -> &'static str {
        self.label
    }

    fn on_event(&self, event: &mut Event<'_, ()>) -> Result<(), ArtfulError> {
        self.seen.lock().unwrap().push(self.label);
        if let Event::ArtfulEnd { rocket } = event {
            rocket.payload.insert("seen".to_string(), JsonValue::Bool(true));
        }
        if self.fail {
            Err(ArtfulError::Other("boom".to_string()))
        } else {
            Ok(())
        }
    }
}

struct Anonymous;

impl EventListener<()> for Anonymous {
    fn on_event(&self, _event: &mut Event<'_, ()>) -> Result<(), ArtfulError> {
        Err(ArtfulError::MissingRequest)
    }
}

type Listener = dyn EventListener<()>;

fn recorder(label: &'static str, seen: &Arc<Mutex<Vec<&'static str>>>, fail: bool) -> Arc<Listener> {
    Arc::new(Recorder { label, seen: seen.clone(), fail })
}


#[test]
fn empty_dispatcher_dispatch_is_noop() {
    let rocket = Rocket::new(JsonMap::new());
    let dispatcher: EventDispatcher<Listener> = EventDispatcher::default();

    let result = dispatcher.dispatch(Event::HttpEnd { rocket: &rocket });

    assert!(result.is_ok());
    assert!(dispatcher.is_empty());
    assert_eq!(dispatcher.len(), 0);
}

#[test]
fn listeners_execute_in_registration_order() {
    let records = Arc::new(Mutex::new(Vec::new()));
    let mut dispatcher: EventDispatcher<Listener> = EventDispatcher::default();
    dispatcher.add_listener(recorder("First", &records, false));
    dispatcher.add_listener(recorder("Second", &records, false));

    let rocket = Rocket::new(JsonMap::new());
    dispatcher.dispatch(Event::HttpEnd { rocket: &rocket }).unwrap();

    assert_eq!(*records.lock().unwrap(), vec!["First", "Second"]);
}

#[test]
fn first_listener_error_aborts_and_wraps() {
    let records = Arc::new(Mutex::new(Vec::new()));
    let mut dispatcher: EventDispatcher<Listener> = EventDispatcher::default();
    dispatcher.add_listener(recorder("Failing", &records, true));
    dispatcher.add_listener(recorder("Second", &records, false));

    let rocket = Rocket::new(JsonMap::new());
    let result = dispatcher.dispatch(Event::HttpEnd { rocket: &rocket });

    match result.unwrap_err() {
        ArtfulError::EventListenerError { listener_name, source, original, .. } => {
            assert_eq!(listener_name, "Failing");
            assert!(source.is_some());
            assert!(original.is_none());
        }
        other => panic!("expected EventListenerError, got {other:?}"),
    }
    assert_eq!(*records.lock().unwrap(), vec!["Failing"]);
}

#[test]
fn dispatch_at_artful_start_without_listeners_succeeds() {
    let events: EventDispatcher<Listener> = EventDispatcher::new();
    assert!(events.is_empty());
    let params = JsonMap::new();
    let plugins: Vec<()> = Vec::new();
    assert!(events.dispatch(Event::ArtfulStart { params: &params, plugins: &plugins }).is_ok());
}

#[test]
fn dispatch_notifies_listeners_in_registration_order() {
    let seen = Arc::new(Mutex::new(Vec::new()));
    let mut events: EventDispatcher<Listener> = EventDispatcher::default();
    events.add_listener(recorder("first", &seen, false));
    events.add_listener(recorder("second", &seen, false));
    events.add_listener(recorder("third", &seen, false));
    assert_eq!(events.len(), 3);
    let rocket = Rocket::new(JsonMap::new());
    assert!(events.dispatch(Event::HttpEnd { rocket: &rocket }).is_ok());
    assert_eq!(*seen.lock().unwrap(), vec!["first", "second", "third"]);
}

#[test]
fn dispatch_stops_at_the_first_failure_and_names_the_listener() {
    let seen = Arc::new(Mutex::new(Vec::new()));
    let mut events: EventDispatcher<Listener> = EventDispatcher::new();
    events.add_listener(recorder("ok", &seen, false));
    events.add_listener(recorder("bad", &seen, true));
    events.add_listener(recorder("never", &seen, false));
    let rocket = Rocket::new(JsonMap::new());
    let error = ArtfulError::MissingResponse;
    let r = events.dispatch(Event::HttpError { rocket: &rocket, error: &error });
    assert_eq!(*seen.lock().unwrap(), vec!["ok", "bad"]);
    match r {
        Err(ArtfulError::EventListenerError { listener_name, message, source, original }) => {
            assert_eq!(listener_name, "bad");
            assert_eq!(message, "boom");
            assert!(matches!(source.as_deref(), Some(ArtfulError::Other(_))));
            assert!(original.is_none());
        }
        other => panic!("unexpected {:?}", other),
    }
}

#[test]
fn unnamed_listener_is_reported_by_its_default_name() {
    let mut events: EventDispatcher<Listener> = EventDispatcher::new();
    events.add_listener(Arc::new(Anonymous));
    let mut rocket = Rocket::new(JsonMap::new());
    match events.dispatch(Event::HttpStart { rocket: &mut rocket }) {
        Err(ArtfulError::EventListenerError { listener_name, .. }) => {
            assert_eq!(listener_name, "UnknownEventListener");
        }
        other => panic!("unexpected {:?}", other),
    }
}

#[test]
fn listener_may_change_the_carrier_at_artful_end() {
    let seen = Arc::new(Mutex::new(Vec::new()));
    let mut events: EventDispatcher<Listener> = EventDispatcher::new();
    events.add_listener(recorder("end", &seen, false));
    let mut params = JsonMap::new();
    params.insert("a".to_string(), JsonValue::Bool(true));
    let mut rocket = Rocket::new(params);
    assert!(!rocket.payload.contains_key("seen"));
    let copy = events.clone();
    assert_eq!(copy.len(), 1);
    assert!(copy.dispatch(Event::ArtfulEnd { rocket: &mut rocket }).is_ok());
    assert!(rocket.payload.contains_key("seen"));
}

#[test]
fn round_notifies_in_order_and_stops_at_the_first_failure() {
    let mut round = ListenerRound::new(3);
    assert!(matches!(round.start(), RoundAction::Notify(0)));
    assert!(matches!(round.heard("first", Ok(())), RoundAction::Notify(1)));
    match round.heard("second", Err(ArtfulError::Other("boom".to_string()))) {
        RoundAction::Finish(Err(ArtfulError::EventListenerError { listener_name, message, original, .. })) => {
            assert_eq!(listener_name, "second");
            assert_eq!(message, "boom");
            assert!(original.is_none());
        }
        other => panic!("unexpected {:?}", other),
    }
}

#[test]
fn round_ends_after_the_last_success_or_at_once_when_empty() {
    let mut empty = ListenerRound::new(0);
    assert!(matches!(empty.start(), RoundAction::Finish(Ok(()))));
    let mut round = ListenerRound::new(2);
    assert!(matches!(round.start(), RoundAction::Notify(0)));
    assert!(matches!(round.heard("a", Ok(())), RoundAction::Notify(1)));
    assert!(matches!(round.heard("b", Ok(())), RoundAction::Finish(Ok(()))));
}
