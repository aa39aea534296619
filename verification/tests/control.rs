//! The control socket: requests, replies, ownership.

use causeway::config::{
    default_log_dir, default_obfs_plugin_bin, default_singbox_bin, default_sslocal_bin,
    ClassConfig, Config, HealthConfig, IpAddress, ProbeConfig, RoutingConfig, SelectionConfig,
    SitesConfig, SubscriptionsConfig,
};
use causeway::control::{
    claim_connected, claim_found, claim_inspected, invalid_request, line_action, owns_socket,
    socket_path, ClaimStep, Client, ConnectOutcome, Event, LineAction, PathFound, ProbeResult,
    Reply, SocketIdentity, SwitchOutcome, SOCKET_NAME,
};
use causeway::events::EventLog;
use causeway::names::NameMap;

const PATH: &str = "/d/run/control.sock";

fn identity(inode: u64) -> SocketIdentity {
    SocketIdentity { device: 1, inode }
}

fn refusal(step: ClaimStep) -> String {
    match step {
        ClaimStep::Refuse(why) => why,
        other => panic!("expected a refusal, got {other:?}"),
    }
}

#[test]
fn regular_control_path_is_preserved() {
    assert!(refusal(claim_found(PATH, PathFound::Other)).contains("non-socket"));
}

#[test]
fn symlink_control_path_is_preserved() {
    // A symlink is looked at, not followed, so it is no socket.
    assert!(refusal(claim_found(PATH, PathFound::Other)).contains("non-socket"));
}

#[test]
fn live_control_socket_is_preserved() {
    assert_eq!(
        claim_found(PATH, PathFound::Socket(identity(7))),
        ClaimStep::Connect(identity(7))
    );
    assert!(refusal(claim_connected(PATH, ConnectOutcome::Accepted)).contains("already active"));
}

#[test]
fn stale_control_socket_is_removed_and_rebound() {
    assert_eq!(
        claim_connected(PATH, ConnectOutcome::Refused),
        ClaimStep::Inspect
    );
    assert_eq!(
        claim_inspected(PATH, identity(7), PathFound::Socket(identity(7))),
        ClaimStep::Remove
    );
    assert_eq!(claim_found(PATH, PathFound::Missing), ClaimStep::Bind);
    assert!(owns_socket(identity(7), &PathFound::Socket(identity(7))));
}

#[test]
fn owned_socket_cleanup_preserves_replacement() {
    assert!(!owns_socket(identity(7), &PathFound::Other));
    assert!(!owns_socket(identity(7), &PathFound::Socket(identity(8))));
    assert!(!owns_socket(identity(7), &PathFound::Missing));
}

#[test]
fn doubtful_sockets_are_left_alone() {
    assert!(refusal(claim_found(PATH, PathFound::Unreadable("denied".into())))
        .ends_with(": denied"));
    assert!(
        refusal(claim_connected(PATH, ConnectOutcome::Failed("odd".into())))
            .contains("refusing to remove it: odd")
    );
    assert!(refusal(claim_connected(PATH, ConnectOutcome::TimedOut)).contains("timed out"));
    assert!(refusal(claim_inspected(
        PATH,
        identity(7),
        PathFound::Socket(identity(8))
    ))
    .contains("changed while checking"));
    assert!(
        refusal(claim_inspected(PATH, identity(7), PathFound::Missing)).contains("re-inspect")
    );
}

#[test]
fn socket_path_lives_in_state_run_dir() {
    let mut classes = NameMap::new();
    classes.insert(
        "dev".to_string(),
        ClassConfig {
            listen: "127.0.0.1:17879".to_string(),
            ip: IpAddress::V4(127, 0, 0, 1),
            port: 17879,
            selection: None,
            health: None,
        },
    );
    let cfg = Config {
        log_dir: default_log_dir("/home/u"),
        state_file: "/tmp/state.json".to_string(),
        sslocal_bin: default_sslocal_bin("/home/u"),
        obfs_plugin_bin: default_obfs_plugin_bin("/home/u"),
        singbox_bin: default_singbox_bin("/home/u"),
        subscriptions: SubscriptionsConfig {
            files: vec!["/nonexistent-test.yaml".to_string()],
            default: None,
            profiles: NameMap::new(),
        },
        classes,
        probe: ProbeConfig::default(),
        health: HealthConfig::default(),
        selection: SelectionConfig::default(),
        sites: SitesConfig {
            list: NameMap::new(),
            timeout_ms: 1,
            user_agent: String::new(),
            verdict_ttl_secs: 1,
            max_candidates: 1,
        },
        routing: RoutingConfig {
            direct_hosts: Vec::new(),
        },
    };
    let p = socket_path(&cfg);
    assert!(p.ends_with(&format!("/{SOCKET_NAME}")));
    assert!(p.contains("/run/"));
    assert_eq!(Client::new(p.clone()).path(), p);
}

#[test]
fn requests_that_race_with_shutdown_are_dropped() {
    assert!(matches!(line_action(true, 5, "ping\n"), LineAction::Close));
    assert!(matches!(line_action(false, 0, ""), LineAction::Close));
    match line_action(false, 7, "  {}  \n") {
        LineAction::Dispatch(text) => assert_eq!(text, "{}"),
        LineAction::Close => panic!("a complete line is read"),
    }
    assert_eq!(
        invalid_request("eof").error.as_deref(),
        Some("invalid request: eof")
    );
}

#[test]
fn replies_carry_one_payload() {
    assert!(Reply::ok().ok);
    assert!(Reply::ok().message.is_none());
    let err = Reply::err("no");
    assert!(!err.ok);
    assert_eq!(err.error.as_deref(), Some("no"));
    assert_eq!(Reply::ok_msg("done").message.as_deref(), Some("done"));
    let switch = Reply::ok_switch(SwitchOutcome {
        requested: "a".into(),
        installed: "b".into(),
        fallback: true,
    });
    assert!(switch.ok && switch.switch.unwrap().fallback);
    let probe = Reply::ok_probe(vec![ProbeResult {
        node: "a".into(),
        ok: true,
        rtt_ms: Some(1.5f64.to_bits()),
        http_status: None,
        error: None,
    }]);
    assert_eq!(probe.probe.unwrap().len(), 1);
    assert_eq!(Reply::ok_events(Vec::new()).events, Some(Vec::new()));
    assert!(Reply::ok_site_matrix(NameMap::new())
        .site_matrix
        .unwrap()
        .is_empty());
}

fn reloaded(unix: i64) -> Event {
    Event::Reloaded {
        unix,
        detail: format!("event {unix}"),
    }
}

#[test]
fn the_event_log_keeps_the_newest() {
    let mut log = EventLog::new(3);
    for unix in 0..5 {
        log.push(reloaded(unix));
    }
    let times: Vec<i64> = log.snapshot().iter().map(|e| e.unix()).collect();
    assert_eq!(times, [2, 3, 4]);
    // A log without room still keeps one event.
    let mut tiny = EventLog::new(0);
    tiny.push(reloaded(1));
    tiny.push(reloaded(2));
    assert_eq!(tiny.snapshot(), vec![reloaded(2)]);
}
