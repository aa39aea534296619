//! Connection plans and traffic counters.

use causeway::listener::{
    bad_gateway, plan_connection, ClassRoute, ConnectionPlan, FirstByte, TrafficCounters,
};

#[test]
fn traffic_is_reset_when_subscription_namespace_changes() {
    let mut counters = TrafficCounters::default();
    counters.select_subscription("alpha");
    counters.add("alpha", "shared-name", 10, 20);
    counters.select_subscription("alpha");
    assert_eq!(counters.snapshot().get("shared-name").unwrap().up, 10);

    counters.select_subscription("beta");
    assert!(counters.snapshot().is_empty());
    counters.add("alpha", "shared-name", 10, 20);
    assert!(counters.snapshot().is_empty());
    counters.add("beta", "shared-name", 1, 2);
    assert_eq!(counters.snapshot().get("shared-name").unwrap().down, 2);
}

#[test]
fn traffic_saturates_instead_of_wrapping() {
    let mut counters = TrafficCounters::default();
    counters.select_subscription("alpha");
    counters.add("alpha", "n", u64::MAX, 1);
    counters.add("alpha", "n", 2, 2);
    let n = counters.snapshot();
    assert_eq!(n.get("n").unwrap().up, u64::MAX);
    assert_eq!(n.get("n").unwrap().down, 3);
}

#[test]
fn a_class_without_a_path_answers_bad_gateway() {
    let route = ClassRoute::default();
    match plan_connection(FirstByte::Byte(b'G'), &route) {
        Ok(plan) => assert!(matches!(plan, ConnectionPlan::BadGateway)),
        Err(e) => panic!("{}", e.message()),
    }
    assert!(bad_gateway().starts_with("HTTP/1.1 502 "));
}
