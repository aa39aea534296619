//! Default routes and the debounced observer.

use causeway::egress::{
    parse_ipv4_defaults, parse_ipv6_defaults, parse_signature, same_signature, DefaultRoute,
    EgressSignature, StableEgressObserver,
};

fn signature(interface: &str) -> EgressSignature {
    EgressSignature {
        ipv4: vec![DefaultRoute {
            interface: interface.to_string(),
            gateway: "0100000a".to_string(),
            metric: 100,
        }],
        ipv6: Vec::new(),
    }
}

fn dual_stack_signature(ipv4_interface: &str, ipv6_interface: &str) -> EgressSignature {
    let mut value = signature(ipv4_interface);
    value.ipv6.push(DefaultRoute {
        interface: ipv6_interface.to_string(),
        gateway: "fe800000000000000000000000000001".to_string(),
        metric: 100,
    });
    value
}

fn secs(n: u64) -> u64 {
    n * 1000
}

#[test]
fn parsers_keep_only_preferred_defaults() {
    let ipv4 = "Iface Destination Gateway Flags RefCnt Use Metric Mask MTU Window IRTT\n\
wlan0 00000000 0101A8C0 0003 0 0 600 00000000 0 0 0\n\
eth0 00000000 0100000A 0003 0 0 100 00000000 0 0 0\n\
eth0 0000000A 00000000 0001 0 0 0 00FFFFFF 0 0 0\n";
    let ipv6 = "00000000000000000000000000000000 00 00000000000000000000000000000000 00 fe800000000000000000000000000001 00000258 00000000 00000000 00000001 wlan0\n\
00000000000000000000000000000000 00 00000000000000000000000000000000 00 fe800000000000000000000000000002 00000064 00000000 00000000 00000001 eth0\n";
    let parsed = parse_signature(ipv4, ipv6);
    assert_eq!(parsed.ipv4, signature("eth0").ipv4);
    assert_eq!(parsed.ipv6.len(), 1);
    assert_eq!(parsed.ipv6[0].interface, "eth0");
    assert_eq!(parsed.ipv6[0].metric, 100);
}

#[test]
fn backup_route_changes_do_not_change_signature() {
    let base = "Iface Destination Gateway Flags RefCnt Use Metric Mask MTU Window IRTT\n\
eth0 00000000 0100000A 0003 0 0 100 00000000 0 0 0\n";
    let with_backup = format!("{base}wlan0 00000000 0101A8C0 0003 0 0 600 00000000 0 0 0\n");
    assert_eq!(parse_signature(base, ""), parse_signature(&with_backup, ""));
    assert!(same_signature(
        &parse_signature(base, ""),
        &parse_signature(&with_backup, "")
    ));
}

#[test]
fn observer_requires_stability_and_cooldown() {
    let start = 1_000_000;
    let mut observer = StableEgressObserver::new(secs(10), secs(30));
    assert!(observer.observe(signature("old"), start).is_none());
    assert!(observer.observe(signature("transient"), start + secs(2)).is_none());
    assert!(observer.observe(signature("old"), start + secs(5)).is_none());
    assert!(observer.observe(signature("new"), start + secs(6)).is_none());
    assert!(observer.observe(signature("new"), start + secs(15)).is_none());
    assert_eq!(
        observer.observe(signature("new"), start + secs(16)),
        Some(signature("new"))
    );

    assert!(observer.observe(signature("old"), start + secs(20)).is_none());
    assert!(observer.observe(signature("old"), start + secs(31)).is_none());
    assert!(observer.observe(signature("old"), start + secs(46)).is_none());

    assert!(observer.observe(signature("third"), start + secs(47)).is_none());
    assert_eq!(
        observer.observe(signature("third"), start + secs(57)),
        Some(signature("third"))
    );
}

#[test]
fn staggered_dual_stack_publication_causes_only_one_rebuild() {
    let start = 0;
    let mut observer = StableEgressObserver::new(secs(10), secs(30));

    assert!(observer.observe(dual_stack_signature("old4", "old6"), start).is_none());
    assert!(observer
        .observe(dual_stack_signature("new4", "old6"), start + secs(1))
        .is_none());
    assert_eq!(
        observer.observe(dual_stack_signature("new4", "old6"), start + secs(11)),
        Some(dual_stack_signature("new4", "old6"))
    );

    assert!(observer
        .observe(dual_stack_signature("new4", "new6"), start + secs(12))
        .is_none());
    assert!(observer
        .observe(dual_stack_signature("new4", "new6"), start + secs(42))
        .is_none());
}

#[test]
fn no_default_is_absorbed_and_restoration_is_debounced() {
    let start = 5;
    let empty = || EgressSignature {
        ipv4: Vec::new(),
        ipv6: Vec::new(),
    };
    let mut observer = StableEgressObserver::new(secs(10), secs(30));
    assert!(observer.observe(signature("old"), start).is_none());
    assert!(observer.observe(empty(), start + secs(1)).is_none());
    assert!(observer.observe(empty(), start + secs(11)).is_none());
    assert!(observer.observe(signature("new"), start + secs(12)).is_none());
    assert_eq!(
        observer.observe(signature("new"), start + secs(22)),
        Some(signature("new"))
    );
}

#[test]
fn malformed_route_lines_are_ignored() {
    let text = "heading\n\neth0\neth0 00000000 0100000A zzzz 0 0 100 00000000 0 0 0\n\
eth0 00000000 0100000A 0000 0 0 100 00000000 0 0 0\n";
    assert!(parse_ipv4_defaults(text).is_empty());
    assert!(parse_ipv6_defaults("short line\n").is_empty());
    assert!(!parse_signature("", "").has_default_route());
    assert!(signature("eth0").has_default_route());
}

#[test]
fn row_order_and_repetition_do_not_change_the_signature() {
    let header = "Iface Destination Gateway Flags RefCnt Use Metric Mask MTU Window IRTT\n";
    let eth = "eth0 00000000 0100000A 0003 0 0 100 00000000 0 0 0\n";
    let usb = "usb0 00000000 0200000A 0003 0 0 100 00000000 0 0 0\n";
    let wlan = "wlan0 00000000 0101A8C0 0003 0 0 600 00000000 0 0 0\n";
    let one = parse_signature(&format!("{header}{eth}{usb}{wlan}"), "");
    let two = parse_signature(&format!("{header}{wlan}{usb}{eth}{usb}"), "");
    assert_eq!(one, two);
    assert_eq!(one.ipv4.len(), 2);
    let better = parse_signature(&format!("{header}{eth}{usb}"), "");
    assert_eq!(one, better);
}
