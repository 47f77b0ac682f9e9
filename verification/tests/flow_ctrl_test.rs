use artisan_http::flow_ctrl::{FlowCtrl, FlowStep, Next};

#[derive(Debug, Clone)]
struct TestPlugin {
    name: String,
}

fn plugin(name: &str) -> TestPlugin {
    TestPlugin {
        name: name.to_string(),
    }
}

#[test]
fn flow_ctrl_test_flow_ctrl_has_next() {
    let plugins = vec![plugin("p1")];

    let ctrl = FlowCtrl::new(plugins);
    assert!(ctrl.has_next());
}

#[test]
fn flow_ctrl_test_flow_ctrl_no_next() {
    let plugins: Vec<TestPlugin> = vec![];
    let ctrl = FlowCtrl::new(plugins);
    assert!(!ctrl.has_next());
}

#[test]
fn test_flow_ctrl_skip_rest() {
    let plugins = vec![plugin("p1"), plugin("p2"), plugin("p3")];

    let mut ctrl = FlowCtrl::new(plugins);
    assert!(ctrl.has_next());
    assert!(!ctrl.is_ceased());

    ctrl.skip_rest();

    assert!(!ctrl.has_next());
    assert!(ctrl.is_ceased());
}

#[test]
fn flow_ctrl_test_flow_ctrl_is_ceased() {
    let plugins = vec![plugin("p1")];
    let ctrl = FlowCtrl::new(plugins.clone());
    assert!(!ctrl.is_ceased());

    let mut ceased_ctrl = FlowCtrl::new(plugins);
    ceased_ctrl.skip_rest();
    assert!(ceased_ctrl.is_ceased());
}

#[test]
fn flow_ctrl_test_flow_ctrl_debug() {
    let plugins = vec![plugin("p1"), plugin("p2")];

    let ctrl = FlowCtrl::new(plugins);
    let debug_str = format!("{:?}", ctrl);

    assert!(debug_str.contains("cursor"));
    assert!(debug_str.contains("plugins_count"));
    assert!(debug_str.contains("is_ceased"));
}

#[test]
fn flow_ctrl_test_test_flow_ctrl_has_next() {
    let plugins = vec![plugin("p1")];

    let ctrl = FlowCtrl::new(plugins);
    assert!(ctrl.has_next());
}

#[test]
fn flow_ctrl_test_test_flow_ctrl_no_next() {
    let plugins: Vec<TestPlugin> = vec![];
    let ctrl = FlowCtrl::new(plugins);
    assert!(!ctrl.has_next());
}

#[test]
fn test_flow_ctrl_skip_rest_direct() {
    let plugins = vec![plugin("p1"), plugin("p2"), plugin("p3")];

    let mut ctrl = FlowCtrl::new(plugins);
    assert!(ctrl.has_next());
    assert!(!ctrl.is_ceased());

    ctrl.skip_rest();

    assert!(!ctrl.has_next());
    assert!(ctrl.is_ceased());
}

#[test]
fn test_flow_ctrl_skip_rest_directly() {
    let plugins = vec![plugin("p1"), plugin("p2")];

    let mut ctrl = FlowCtrl::new(plugins);
    assert!(ctrl.has_next());
    assert!(!ctrl.is_ceased());

    ctrl.skip_rest();

    assert!(!ctrl.has_next());
    assert!(ctrl.is_ceased());
}

#[test]
fn flow_ctrl_test_test_flow_ctrl_is_ceased() {
    let plugins = vec![plugin("p1")];
    let ctrl = FlowCtrl::new(plugins.clone());
    assert!(!ctrl.is_ceased());

    let mut ceased_ctrl = FlowCtrl::new(plugins);
    ceased_ctrl.skip_rest();
    assert!(ceased_ctrl.is_ceased());
}

#[test]
fn flow_ctrl_test_test_flow_ctrl_debug() {
    let plugins = vec![plugin("p1"), plugin("p2")];

    let ctrl = FlowCtrl::new(plugins);
    let debug_str = format!("{:?}", ctrl);

    assert!(debug_str.contains("cursor"));
    assert!(debug_str.contains("plugins_count"));
    assert!(debug_str.contains("is_ceased"));
}

#[test]
fn test_flow_ctrl_skip_rest_clears_has_next() {
    let plugins = vec![plugin("p1"), plugin("p2"), plugin("p3")];

    let mut ctrl = FlowCtrl::new(plugins);

    assert!(ctrl.has_next());

    ctrl.skip_rest();

    assert!(!ctrl.has_next());
}

#[test]
fn test_flow_ctrl_skip_rest_is_terminal() {
    let plugins = vec![plugin("p1"), plugin("p2")];

    let mut ctrl = FlowCtrl::new(plugins);
    ctrl.skip_rest();
    assert!(!ctrl.has_next());
    assert!(ctrl.is_ceased());
}

#[test]
fn advance_hands_out_plugins_in_order_then_core_once() {
    let mut ctrl = FlowCtrl::new(vec![plugin("first"), plugin("second")]);
    ctrl.set_core();

    assert_eq!(ctrl.advance(), FlowStep::Plugin(0));
    assert_eq!(ctrl.plugin(0).name, "first");
    let next = Next { ctrl: &mut ctrl };
    assert_eq!(next.advance(), FlowStep::Plugin(1));
    assert_eq!(ctrl.plugin(1).name, "second");
    assert_eq!(ctrl.advance(), FlowStep::Core);
    assert_eq!(ctrl.advance(), FlowStep::Finished);
    assert_eq!(ctrl.advance(), FlowStep::Finished);
}

#[test]
fn advance_without_core_finishes_silently() {
    let mut ctrl: FlowCtrl<TestPlugin> = FlowCtrl::new(vec![]);
    assert_eq!(ctrl.plugins_count(), 0);
    assert_eq!(ctrl.advance(), FlowStep::Finished);
}

#[test]
fn skip_rest_also_skips_the_core() {
    let mut ctrl = FlowCtrl::new(vec![plugin("first"), plugin("second")]);
    ctrl.set_core();
    assert_eq!(ctrl.advance(), FlowStep::Plugin(0));
    ctrl.skip_rest();
    assert_eq!(ctrl.advance(), FlowStep::Finished);
    assert_eq!(ctrl.advance(), FlowStep::Finished);
}
