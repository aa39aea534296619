//! What the command line prints and chooses.

use causeway::cli::{
    choose_class, count_nodes, probe_report, status_report, switch_mode, truncate, SwitchMode,
};
use causeway::config::{ClassConfig, IpAddress};
use causeway::names::NameMap;
use causeway::node::{AnytlsNode, Node, ObfsOpts, SsNode};
use causeway::probe::{
    count_reached, cycle_event, permits, reports_progress, test_permits, ProbeOutcome,
};
use causeway::control::Event;
use causeway::score::NodeStats;

#[test]
fn truncate_handles_zero_and_oversized_limits() {
    assert_eq!(truncate("event", 0), "…");
    assert_eq!(truncate("event", 1), "…");
    assert_eq!(truncate("event", 2), "e…");
    assert_eq!(truncate("event", 5), "event");
    assert_eq!(truncate("event", 9), "event");
    assert_eq!(truncate("", 0), "");
}

#[test]
fn truncation_counts_characters() {
    assert_eq!(truncate("🇭🇰 Hong Kong", 4), "🇭🇰 …");
    assert_eq!(truncate("日本語", 3), "日本語");
    assert_eq!(truncate("日本語", 2), "日…");
}

fn class() -> ClassConfig {
    ClassConfig {
        listen: "127.0.0.1:1".to_string(),
        ip: IpAddress::V4(127, 0, 0, 1),
        port: 1,
        selection: None,
        health: None,
    }
}

#[test]
fn the_first_class_is_the_default() {
    let mut classes = NameMap::new();
    assert_eq!(
        choose_class(&classes, None),
        Err("no classes configured".to_string())
    );
    classes.insert("dev".to_string(), class());
    classes.insert("browser".to_string(), class());
    assert_eq!(choose_class(&classes, None), Ok("browser".to_string()));
    assert_eq!(choose_class(&classes, Some("dev")), Ok("dev".to_string()));
    assert_eq!(
        choose_class(&classes, Some("x\"y")),
        Err("unknown class \"x\\\"y\" (configured: browser, dev)".to_string())
    );
}

#[test]
fn automation_needs_a_confirmation() {
    assert_eq!(switch_mode(false, false, false), SwitchMode::Interactive);
    assert_eq!(switch_mode(false, false, true), SwitchMode::Interactive);
    assert_eq!(switch_mode(true, false, true), SwitchMode::Automatic);
    assert_eq!(switch_mode(false, true, true), SwitchMode::Automatic);
    assert_eq!(switch_mode(false, true, false), SwitchMode::Unconfirmed);
}

fn ss(name: &str, plugin: bool) -> Node {
    Node::Ss(SsNode {
        name: name.to_string(),
        server: "192.0.2.1".to_string(),
        port: 443,
        cipher: "aes-128-gcm".to_string(),
        password: "test-only".to_string(),
        plugin: if plugin {
            Some(ObfsOpts {
                mode: "http".to_string(),
                host: None,
            })
        } else {
            None
        },
    })
}

fn anytls(name: &str) -> Node {
    Node::Anytls(AnytlsNode {
        name: name.to_string(),
        server: "192.0.2.1".to_string(),
        port: 443,
        password: "test-only".to_string(),
        sni: None,
        alpn: None,
        client_fingerprint: None,
        skip_cert_verify: false,
    })
}

#[test]
fn pools_are_counted_by_kind() {
    let c = count_nodes(&vec![ss("a", false), anytls("b"), ss("c", true), anytls("d")]);
    assert_eq!((c.ss, c.anytls, c.with_plugin), (2, 2, 1));
}

fn outcome(name: &str, rtt: Option<u64>) -> ProbeOutcome {
    ProbeOutcome {
        node: ss(name, false),
        rtt,
    }
}

#[test]
fn probe_reports_list_the_fastest_first() {
    let results = vec![
        outcome("slow", Some(900)),
        outcome("gone", None),
        outcome("fast", Some(10)),
        outcome("tie", Some(10)),
    ];
    let rows = probe_report(&results);
    let names: Vec<&str> = rows.iter().map(|r| r.node.as_str()).collect();
    assert_eq!(names, ["fast", "tie", "slow"]);
    assert_eq!(count_reached(&results), 3);
    assert_eq!(
        cycle_event("periodic", &results, 9),
        Event::Probed {
            unix: 9,
            source: "periodic".to_string(),
            ok: 3,
            total: 4,
        }
    );
}

#[test]
fn status_reports_list_the_best_first() {
    let stats = |success: f64, probes| NodeStats {
        success_ema: success.to_bits(),
        rtt_ema_ms: None,
        recent_rtts_ms: Vec::new(),
        consecutive_health_failures: 0,
        probe_count: probes,
        last_probe_unix: None,
    };
    let mut all = NameMap::new();
    all.insert("z".to_string(), stats(0.9, 1));
    all.insert("a".to_string(), stats(0.5, 1));
    all.insert("b".to_string(), stats(0.5, 1));
    all.insert("never".to_string(), stats(1.0, 0));
    let rows = status_report(&all);
    let names: Vec<&str> = rows.iter().map(|r| r.name.as_str()).collect();
    assert_eq!(names, ["z", "a", "b"]);
}

#[test]
fn probing_is_bounded_and_reported_in_steps() {
    assert_eq!(permits(0), 1);
    assert_eq!(permits(32), 32);
    assert_eq!(test_permits(0), 1);
    assert_eq!(test_permits(3), 3);
    assert_eq!(test_permits(100), 8);
    assert!(reports_progress(50, 120));
    assert!(reports_progress(120, 120));
    assert!(!reports_progress(51, 120));
}
