use std::sync::Arc;

use artisan_http::directions::{JsonDirection, NoHttpRequestDirection, OriginResponseDirection};
use artisan_http::event::{EventDispatcher, EventListener};
use artisan_http::flow_ctrl::FlowCtrl;
use artisan_http::json::JsonPacker;
use artisan_http::query::QueryPacker;
use artisan_http::rocket::{ClientOptions, Rocket, RocketConfig};
use artisan_http::xml::XmlPacker;

fn assert_send_sync<T: Send + Sync + ?Sized>() {}

#[test]
fn core_types_are_send_sync() {
    assert_send_sync::<Rocket>();
    assert_send_sync::<FlowCtrl<Arc<dyn Send + Sync>>>();
    assert_send_sync::<RocketConfig>();
    assert_send_sync::<ClientOptions>();
    assert_send_sync::<JsonPacker>();
    assert_send_sync::<QueryPacker>();
    assert_send_sync::<XmlPacker>();
    assert_send_sync::<JsonDirection>();
    assert_send_sync::<NoHttpRequestDirection>();
    assert_send_sync::<OriginResponseDirection>();
    assert_send_sync::<EventDispatcher<dyn EventListener<()>>>();
}
