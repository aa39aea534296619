//! The supervisor's decisions, run against scripted data planes.

use causeway::change::{
    begin_change, change_next, end_change, hold_class, ChangeEnd, ChangeEvent, ChangeRun,
    ChangeStep,
};
use causeway::config::{
    default_log_dir, default_obfs_plugin_bin, default_singbox_bin, default_sslocal_bin,
    ClassConfig, ClassHealth, ClassSelection, Config, FileFact, HealthConfig, IpAddress, PathFact,
    ProbeConfig, RoutingConfig, SelectionConfig, SitesConfig, SubscriptionProfileConfig,
    SubscriptionsConfig, LEGACY_SUBSCRIPTION_NAME,
};
use causeway::control::{Event, ProbeResult, Reply, Request, SwitchOutcome};
use causeway::events::EventLog;
use causeway::health::check_plan;
use causeway::listener::{ClassRoute, TrafficCounters};
use causeway::names::{Model, NameMap};
use causeway::node::{Node, SsNode};
use causeway::probe::{
    in_pool_order, judge_test, on_demand_event, skip_test, Booking, NodeTest,
};
use causeway::recovery::{AutoRecoveryBackoff, AUTO_RECOVERY_INITIAL_BACKOFF};
use causeway::reload::{
    check_reload, finish_reload, non_subscription_config_changed, refuse_reload, ReloadRefusal,
};
use causeway::runtime::{
    decide_recovery, find_challenger, install_active, record_activation_failure,
    record_health_outcome, record_probes, recovery_plan, should_switch, ClassRuntime, Ports,
    ProbeRecord, RecoveryDecision,
};
use causeway::score::{NodeStats, ProbeBlend, RttBlend, SuccessGap};
use causeway::selection::{profile_candidates, ranked_candidates, MAX_SWITCH_CANDIDATES};
use causeway::state::{
    load, save_next, ClassState, SaveOutcome, SaveProgress, SaveStep, StateDocument, StateFile,
};
use causeway::subscription::{
    cache_slot_path, load_profile_snapshot_from_slot, FileText, SubscriptionFault, CACHE_SLOT_A,
    CACHE_SLOT_B,
};
use causeway::supervisor::{
    begin_rebuild, begin_startup, check_startup, class_snapshot, clear_ports, drain_step,
    handle_control, initial_candidates, judge_precheck, needs_startup_probe, rebuild_is_current,
    startup_paths, startup_snapshot, status_class, ControlAction, DrainStep,
};
use causeway::switching::{
    attempts_for, begin_manual, manual_fallbacks, manual_outcome, recovery_attempts, Attempt,
    ManualStart, SwitchRun, EGRESS_CHANGE, HEALTH_FAILURES, INITIAL, MANUAL,
};
use causeway::transaction::{SubscriptionRuntime, TransactionFault};

fn node(name: &str) -> Node {
    Node::Ss(SsNode {
        name: name.to_string(),
        server: "192.0.2.1".to_string(),
        port: 443,
        cipher: "aes-128-gcm".to_string(),
        password: "test-only".to_string(),
        plugin: None,
    })
}

fn stats(success: f64, rtt_ms: Option<f64>) -> NodeStats {
    NodeStats {
        success_ema: success.to_bits(),
        rtt_ema_ms: rtt_ms.map(f64::to_bits),
        recent_rtts_ms: rtt_ms.map(f64::to_bits).into_iter().collect(),
        consecutive_health_failures: 0,
        probe_count: 1,
        last_probe_unix: Some(1),
    }
}

fn test_config() -> Config {
    let mut classes = NameMap::new();
    classes.insert(
        "dev".to_string(),
        ClassConfig {
            listen: "127.0.0.1:17878".to_string(),
            ip: IpAddress::V4(127, 0, 0, 1),
            port: 17878,
            selection: None,
            health: None,
        },
    );
    let mut health = HealthConfig::default();
    health.url = "http://health.test/generate_204".to_string();
    health.timeout_ms = 1_000;
    health.drain_grace_secs = 10;
    Config {
        log_dir: default_log_dir("/home/u"),
        state_file: "/d/state.json".to_string(),
        sslocal_bin: default_sslocal_bin("/home/u"),
        obfs_plugin_bin: default_obfs_plugin_bin("/home/u"),
        singbox_bin: default_singbox_bin("/home/u"),
        subscriptions: SubscriptionsConfig {
            files: vec!["/test/unused.yaml".to_string()],
            default: None,
            profiles: NameMap::new(),
        },
        classes,
        probe: ProbeConfig::default(),
        health,
        selection: SelectionConfig::default(),
        sites: SitesConfig {
            list: NameMap::new(),
            timeout_ms: 1_000,
            user_agent: "agent".to_string(),
            verdict_ttl_secs: 600,
            max_candidates: 5,
        },
        routing: RoutingConfig {
            direct_hosts: Vec::new(),
        },
    }
}

fn one_node_manifest(name: &str) -> String {
    format!(
        "proxies:\n  - name: {name}\n    type: ss\n    server: 192.0.2.20\n    port: 443\n    cipher: aes-128-gcm\n    password: test-only\n"
    )
}

/// A daemon with one class on the node "current".
struct Fixture {
    cfg: Config,
    subscriptions: SubscriptionRuntime,
    state: StateFile,
    class: ClassRuntime,
    events: EventLog,
    traffic: TrafficCounters,
    /// What each started node answers, in this order.
    responses: Vec<(&'static str, u16)>,
    starts: Vec<String>,
    /// Nodes whose staged path was stopped before it went live.
    stops: Vec<String>,
    /// Nodes whose path was retired.
    drained: Vec<String>,
    next_port: u16,
}

fn fixture(nodes: &[&str], responses: &[(&'static str, u16)], generation: u64) -> Fixture {
    let cfg = test_config();
    let mut state = StateFile::default();
    state.activate_subscription(LEGACY_SUBSCRIPTION_NAME);
    for name in nodes {
        let quality = if *name == "current" { 0.5 } else { 0.9 };
        state
            .nodes
            .insert(name.to_string(), stats(quality, Some(100.0)));
    }
    state.classes.insert(
        "dev".to_string(),
        ClassState {
            active_node: Some("current".to_string()),
            socks_port: Some(41001),
            http_port: Some(41002),
            generation,
        },
    );
    Fixture {
        subscriptions: SubscriptionRuntime {
            active: LEGACY_SUBSCRIPTION_NAME.to_string(),
            nodes: nodes.iter().map(|n| node(n)).collect(),
            catalog: cfg.subscriptions.dup(),
            generation: 0,
        },
        cfg,
        state,
        class: ClassRuntime {
            name: "dev".to_string(),
            route: ClassRoute {
                socks_upstream: Some(41001),
                http_upstream: Some(41002),
                node_name: "current".to_string(),
                generation,
                traffic_subscription: LEGACY_SUBSCRIPTION_NAME.to_string(),
            },
            active: Some(node("current")),
            auto_recovery: AutoRecoveryBackoff::default(),
            health_failures: 0,
        },
        events: EventLog::new(32),
        traffic: TrafficCounters::default(),
        responses: responses.to_vec(),
        starts: Vec::new(),
        stops: Vec::new(),
        drained: Vec::new(),
        next_port: 51001,
    }
}

fn failure_blend() -> ProbeBlend {
    ProbeBlend {
        success: 0.35f64.to_bits(),
        rtt: None,
    }
}

impl Fixture {
    fn respond(&mut self, name: &str) -> Option<String> {
        self.starts.push(name.to_string());
        let i = self
            .responses
            .iter()
            .position(|(n, _)| *n == name)
            .expect("an unscripted start");
        let (_, code) = self.responses.remove(i);
        judge_precheck(Ok(code))
    }

    fn ports(&mut self) -> Ports {
        let p = Ports {
            socks: self.next_port,
            http: self.next_port + 1,
        };
        self.next_port += 2;
        p
    }

    fn install(&mut self, node: Node, reason: &str) {
        let ports = self.ports();
        let subscription = self.subscriptions.active.clone();
        let (event, old) = install_active(
            &mut self.class,
            &mut self.state,
            node,
            ports,
            &subscription,
            reason,
            100,
        );
        self.events.push(event);
        if let Some(n) = old {
            self.drained.push(n.name().to_string());
        }
    }

    /// Try the attempts in order; the first that passes is installed.
    fn run(&mut self, attempts: Vec<Attempt>) -> Option<String> {
        let mut run = SwitchRun::new(attempts);
        loop {
            let (name, reason) = match run.candidate() {
                Some(a) => (a.node.name().to_string(), a.reason.clone()),
                None => return None,
            };
            match self.respond(&name) {
                None => {
                    self.install(node(&name), &reason);
                    return Some(name);
                }
                Some(error) => {
                    let own = self.cfg.has_own_target("dev");
                    let event = record_activation_failure(
                        &mut self.state,
                        "dev",
                        &name,
                        own,
                        failure_blend(),
                        &error,
                        100,
                    );
                    self.events.push(event);
                    run.failed();
                }
            }
        }
    }

    fn recovery(&mut self) -> Option<String> {
        let plan = recovery_plan(
            &self.subscriptions.nodes,
            self.state.stats(),
            &self.cfg.regions_of("dev"),
            self.class.active_name(),
        );
        self.run(recovery_attempts(plan, HEALTH_FAILURES))
    }

    fn recover_after_health_failure(&mut self, now: u64) {
        match decide_recovery(&self.class, self.cfg.auto_switch_of("dev"), now) {
            RecoveryDecision::Attempt => {
                if self.recovery().is_none() {
                    self.class.auto_recovery.record_failure_at(now);
                }
            }
            RecoveryDecision::Pinned | RecoveryDecision::CoolingDown(_) => {}
        }
    }

    fn switch_to(&mut self, requested: &str) -> Result<SwitchOutcome, String> {
        match begin_manual(
            &self.subscriptions.nodes,
            self.class.active_name(),
            requested,
        ) {
            ManualStart::Unknown(e) => Err(e),
            ManualStart::Done(o) => Ok(o),
            ManualStart::Try(n) => {
                if let Some(name) = self.run(attempts_for(vec![n], MANUAL)) {
                    return manual_outcome(requested, Some(name), false);
                }
                let fallbacks = manual_fallbacks(
                    &self.subscriptions.nodes,
                    self.state.stats(),
                    self.class.active_name(),
                    requested,
                );
                let installed = self.run(attempts_for(fallbacks, MANUAL));
                manual_outcome(requested, installed, true)
            }
        }
    }

    fn activate_initial(&mut self) {
        let candidates = initial_candidates(
            &self.subscriptions.nodes,
            &self.state,
            "dev",
            &self.cfg.regions_of("dev"),
        );
        let mut run = SwitchRun::new(attempts_for(candidates, INITIAL));
        while let Some(attempt) = run.candidate() {
            let (next, reason) = (attempt.node.dup(), attempt.reason.clone());
            let name = next.name().to_string();
            if self.respond(&name).is_none() {
                self.install(next, &reason);
                return;
            }
            run.failed();
        }
    }

    /// One test of a node, asked for under the pool of that era.
    fn test_node(&mut self, name: &str, era: u64) -> (ProbeResult, Booking) {
        let test = match skip_test(era, self.subscriptions.generation) {
            Some(skipped) => skipped,
            None => {
                let answer = self.respond(name);
                NodeTest::Answered(if answer.is_none() { 204 } else { 503 }, 1.0f64.to_bits())
            }
        };
        let own = self.cfg.has_own_target("dev");
        let (result, booking) = judge_test(name, own, test);
        if booking != Booking::Nothing {
            let record = ProbeRecord {
                node: name.to_string(),
                blend: failure_blend(),
            };
            record_probes(&mut self.state, &vec![record], 100);
        }
        (result, booking)
    }

    fn rebuild(&mut self, shutting_down: bool, txns: u64, egress_unchanged: bool) {
        let target = match begin_rebuild(&self.class, shutting_down, txns) {
            Some(n) => n,
            None => return,
        };
        let name = target.name().to_string();
        if self.respond(&name).is_some() {
            return;
        }
        if rebuild_is_current(shutting_down, txns, egress_unchanged) {
            self.install(target, EGRESS_CHANGE);
        }
    }

    fn switched_events(&self) -> usize {
        self.events
            .snapshot()
            .iter()
            .filter(|e| matches!(e, Event::Switched { .. }))
            .count()
    }

    fn snapshot_flag(&self, before: u64, after: u64) -> Option<bool> {
        class_snapshot(
            "dev",
            &self.subscriptions,
            &self.state,
            &self.traffic,
            0,
            before,
            after,
        )
        .unwrap()
        .subscription_txn_in_progress
    }
}

fn names(nodes: &[Node]) -> Vec<&str> {
    nodes.iter().map(|n| n.name()).collect()
}

// ---------------------------------------------------------------------------
// Retired paths
// ---------------------------------------------------------------------------

#[test]
fn supervisor_tests_retired_path_waits_for_captured_connections_then_stops() {
    // No grace, a second of extension, looked at every 5 ms.
    assert_eq!(drain_step(25, 0, 1000, 5, 1, false), DrainStep::Wait(5));
    assert_eq!(drain_step(25, 0, 1000, 5, 0, false), DrainStep::Stop);
}

#[test]
fn supervisor_tests_retired_path_hard_cap_bounds_stuck_connection() {
    assert_eq!(drain_step(29, 0, 30, 5, 1, false), DrainStep::Wait(1));
    assert_eq!(drain_step(30, 0, 30, 5, 1, false), DrainStep::StopCapped);
}

#[test]
fn supervisor_tests_shutdown_bypasses_retired_path_wait_and_reaps_handle() {
    assert_eq!(
        drain_step(0, 3_600_000, 1000, 5, 1, false),
        DrainStep::Wait(3_600_000)
    );
    assert_eq!(drain_step(0, 3_600_000, 1000, 5, 1, true), DrainStep::Stop);
    assert_eq!(
        drain_step(u64::MAX, u64::MAX, 1000, 5, 1, false),
        DrainStep::StopCapped
    );
}

// ---------------------------------------------------------------------------
// Status
// ---------------------------------------------------------------------------

fn status_marks_transactions() {
    let f = fixture(&["current"], &[], 3);
    let idle = class_snapshot(
        "dev",
        &f.subscriptions,
        &f.state,
        &f.traffic,
        4,
        0,
        0,
    )
    .unwrap();
    assert_eq!(idle.subscription_generation, Some(0));
    assert_eq!(idle.subscription_txn_in_progress, Some(false));
    assert_eq!(idle.active_conns, 4);
    assert_eq!(idle.available_nodes, ["current"]);
    assert_eq!(idle.available_subscriptions.len(), 1);
    assert_eq!(idle.available_subscriptions[0].node_count, Some(1));

    let staging = class_snapshot(
        "dev",
        &f.subscriptions,
        &f.state,
        &f.traffic,
        0,
        1,
        1,
    )
    .unwrap();
    assert_eq!(
        staging.active_subscription.as_deref(),
        Some(LEGACY_SUBSCRIPTION_NAME)
    );
    assert_eq!(staging.subscription_generation, Some(0));
    assert_eq!(staging.subscription_txn_in_progress, Some(true));
    assert_eq!(f.snapshot_flag(1, 0), Some(true));
    assert_eq!(f.snapshot_flag(0, 1), Some(true));
    assert_eq!(f.snapshot_flag(0, 0), Some(false));
}

#[test]
fn supervisor_status_marks_subscription_transaction_until_guard_drops() {
    status_marks_transactions();
}

#[test]
fn supervisor_tests_status_marks_subscription_transaction_until_guard_drops() {
    status_marks_transactions();
}

fn answer(f: &Fixture, req: Request) -> Reply {
    match act(f, req) {
        ControlAction::Answer(reply) => reply,
        _ => panic!("this request is answered at once"),
    }
}

fn act(f: &Fixture, req: Request) -> ControlAction {
    let status = match status_class(&req) {
        Some(class) => class_snapshot(
            class,
            &f.subscriptions,
            &f.state,
            &f.traffic,
            0,
            0,
            0,
        ),
        None => None,
    };
    handle_control(
        req,
        &f.cfg.classes,
        &f.cfg.sites.list,
        status,
        &f.events,
        &f.state,
    )
}

#[test]
fn requests_are_answered_or_turned_into_actions() {
    let mut f = fixture(&["current"], &[], 3);
    f.cfg
        .sites
        .list
        .insert("news".to_string(), "https://news.example/".to_string());
    assert!(answer(&f, Request::Ping).ok);
    let unknown = Some("unknown class \"x\"");
    let s = answer(&f, Request::Status { class: "x".into() });
    assert_eq!(s.error.as_deref(), unknown);
    let s = answer(&f, Request::Status { class: "dev".into() });
    assert_eq!(s.status.unwrap().generation, 3);
    assert!(matches!(
        act(&f, Request::Switch { class: "dev".into(), node: "n".into() }),
        ControlAction::Switch { class, node } if class == "dev" && node == "n"
    ));
    let r = answer(&f, Request::Switch { class: "x".into(), node: "n".into() });
    assert_eq!(r.error.as_deref(), unknown);
    assert!(matches!(
        act(&f, Request::SwitchSubscription { name: "p".into() }),
        ControlAction::SwitchSubscription { name } if name == "p"
    ));
    assert!(matches!(
        act(&f, Request::ProbeNow { class: "dev".into() }),
        ControlAction::ProbeNow { .. }
    ));
    let r = answer(&f, Request::ProbeNow { class: "x".into() });
    assert_eq!(r.error.as_deref(), unknown);
    assert_eq!(answer(&f, Request::Events).events, Some(Vec::new()));
    assert!(matches!(act(&f, Request::Reload), ControlAction::Reload));
    assert!(matches!(
        act(&f, Request::SiteProbe { site: None }),
        ControlAction::SiteProbe { sites } if sites.len() == 1
    ));
    let r = answer(&f, Request::SiteProbe { site: Some("s".into()) });
    assert_eq!(
        r.error.as_deref(),
        Some("unknown site \"s\"; configured sites: [\"news\"]")
    );
    assert!(answer(&f, Request::SiteStatus).site_matrix.unwrap().is_empty());
    assert!(matches!(
        act(&f, Request::SwitchForSite { class: "dev".into(), site: "news".into() }),
        ControlAction::SwitchForSite { .. }
    ));
    let r = answer(&f, Request::SwitchForSite { class: "x".into(), site: "news".into() });
    assert_eq!(r.error.as_deref(), unknown);
    let r = answer(&f, Request::SwitchForSite { class: "x".into(), site: "s".into() });
    assert!(r.error.unwrap().starts_with("unknown site"));
}

// ---------------------------------------------------------------------------
// Recovery
// ---------------------------------------------------------------------------

#[test]
fn supervisor_tests_recovery_tries_alternates_then_freshly_rebuilds_incumbent() {
    let mut f = fixture(
        &["current", "alternate"],
        &[("alternate", 503), ("current", 204)],
        7,
    );
    f.recovery();
    assert_eq!(f.starts, ["alternate", "current"]);
    assert_eq!(f.class.active_name(), Some("current"));
    assert_eq!(f.class.route.node_name, "current");
    assert_eq!(f.class.route.generation, 8);
    assert_ne!(f.class.route.http_upstream, Some(41002));
    assert_eq!(f.drained, ["current"]);
    let dev = f.state.classes.get("dev").unwrap();
    assert_eq!(dev.active_node.as_deref(), Some("current"));
    assert_eq!(dev.generation, 8);
}

#[test]
fn supervisor_tests_failed_rebuild_keeps_old_route_handle_and_generation() {
    let mut f = fixture(
        &["current", "alternate"],
        &[("alternate", 503), ("current", 503)],
        11,
    );
    f.recovery();
    assert_eq!(f.starts, ["alternate", "current"]);
    assert!(f.drained.is_empty());
    assert_eq!(f.class.route.node_name, "current");
    assert_eq!(f.class.route.generation, 11);
    assert_eq!(f.class.route.socks_upstream, Some(41001));
    assert_eq!(f.class.route.http_upstream, Some(41002));
    let dev = f.state.classes.get("dev").unwrap();
    assert_eq!(dev.active_node.as_deref(), Some("current"));
    assert_eq!(dev.generation, 11);
    assert_eq!(f.switched_events(), 0);
}

fn backoff_grows() {
    let start: u64 = 1_000;
    let mut backoff = AutoRecoveryBackoff::default();
    assert!(backoff.is_ready_at(start));

    let mut delays = Vec::new();
    let mut now = start;
    for _ in 0..8 {
        let delay = backoff.record_failure_at(now);
        delays.push(delay);
        assert!(!backoff.is_ready_at(now));
        assert_eq!(backoff.remaining_at(now), delay);
        now += delay;
        assert!(backoff.is_ready_at(now));
    }
    assert_eq!(
        delays,
        [60_000, 120_000, 240_000, 480_000, 900_000, 900_000, 900_000, 900_000]
    );

    backoff.reset();
    assert_eq!(backoff.consecutive_failures, 0);
    assert!(backoff.retry_not_before.is_none());
    assert!(backoff.is_ready_at(now));
    assert_eq!(
        backoff.record_failure_at(now),
        AUTO_RECOVERY_INITIAL_BACKOFF,
        "a successful publication must restart the sequence"
    );
}

#[test]
fn supervisor_automatic_recovery_backoff_grows_caps_and_resets() {
    backoff_grows();
}

#[test]
fn supervisor_tests_automatic_recovery_backoff_grows_caps_and_resets() {
    backoff_grows();
}

#[test]
fn supervisor_tests_health_recovery_cooldown_skips_churn_but_manual_path_is_unblocked() {
    let mut f = fixture(
        &["current", "alternate"],
        &[("alternate", 503), ("current", 503), ("alternate", 204)],
        2,
    );
    f.recover_after_health_failure(1_000);
    assert_eq!(f.starts, ["alternate", "current"]);
    assert_eq!(f.class.auto_recovery.consecutive_failures, 1);

    f.recover_after_health_failure(2_000);
    assert_eq!(
        f.starts,
        ["alternate", "current"],
        "a health tick inside cooldown must not start more adapters"
    );

    let outcome = f.switch_to("alternate").unwrap();
    assert_eq!(outcome.installed, "alternate");
    assert_eq!(f.starts, ["alternate", "current", "alternate"]);
    assert_eq!(f.class.active_name(), Some("alternate"));
    assert_eq!(f.class.auto_recovery.consecutive_failures, 0);
    assert!(f.class.auto_recovery.retry_not_before.is_none());
}

#[test]
fn supervisor_tests_missing_active_path_also_obeys_health_recovery_cooldown() {
    let mut f = fixture(
        &["current", "alternate"],
        &[("alternate", 503), ("current", 503)],
        0,
    );
    f.class.active = None;
    f.class.route = ClassRoute::default();
    f.recover_after_health_failure(1_000);
    assert_eq!(f.starts, ["alternate", "current"]);
    assert_eq!(f.class.auto_recovery.consecutive_failures, 1);
    f.recover_after_health_failure(2_000);
    assert_eq!(
        f.starts,
        ["alternate", "current"],
        "a listener with no active path must not respawn candidates every health tick"
    );
    assert!(f.class.active.is_none());
    assert_eq!(f.class.route.generation, 0);
}

#[test]
fn supervisor_tests_only_successful_publication_schedules_and_stops_old_handle() {
    let mut f = fixture(
        &["current", "bad", "good"],
        &[("bad", 503), ("good", 204)],
        3,
    );
    assert_eq!(f.run(attempts_for(vec![node("bad")], "test")), None);
    assert_eq!(f.class.active_name(), Some("current"));
    assert_eq!(f.class.route.generation, 3);
    assert!(f.drained.is_empty());

    assert_eq!(
        f.run(attempts_for(vec![node("good")], "test")),
        Some("good".to_string())
    );
    assert_eq!(f.class.active_name(), Some("good"));
    assert_eq!(f.class.route.generation, 4);
    assert_eq!(f.drained, ["current"]);
    assert_eq!(f.switched_events(), 1);
}

#[test]
fn supervisor_tests_pinned_mode_health_failure_stays_on_active_node() {
    let mut f = fixture(
        &["current", "alternate"],
        &[("alternate", 204), ("current", 503)],
        2,
    );
    f.cfg.selection.auto_switch = false;
    f.recover_after_health_failure(1_000);
    assert!(
        f.starts.is_empty(),
        "pinned mode must not switch away from the active node on health failure"
    );
    // Manual switching stays available and unrestricted.
    let outcome = f.switch_to("alternate").unwrap();
    assert_eq!(outcome.installed, "alternate");
    assert_eq!(f.starts, ["alternate"]);
}

#[test]
fn supervisor_tests_pinned_mode_without_active_node_still_activates() {
    let mut f = fixture(
        &["current", "alternate"],
        &[("alternate", 204), ("current", 204)],
        2,
    );
    f.cfg.selection.auto_switch = false;
    f.class.active = None;
    f.recover_after_health_failure(1_000);
    assert!(
        !f.starts.is_empty(),
        "establishing a path with no active node is activation, not switching"
    );
}

#[test]
fn per_class_pinned_override_holds_while_global_policy_stays_automatic() {
    let mut f = fixture(
        &["current", "alternate"],
        &[("alternate", 204), ("current", 503)],
        2,
    );
    override_class(
        &mut f,
        Some(ClassSelection {
            regions: None,
            auto_switch: Some(false),
        }),
        None,
    );
    f.recover_after_health_failure(1_000);
    assert!(
        f.starts.is_empty(),
        "the per-class pin must hold even though global policy is automatic"
    );
    let outcome = f.switch_to("alternate").unwrap();
    assert_eq!(outcome.installed, "alternate");
    assert_eq!(f.starts, ["alternate"]);
}

fn override_class(
    f: &mut Fixture,
    selection: Option<ClassSelection>,
    health: Option<ClassHealth>,
) {
    f.cfg.classes.insert(
        "dev".to_string(),
        ClassConfig {
            listen: "127.0.0.1:17878".to_string(),
            ip: IpAddress::V4(127, 0, 0, 1),
            port: 17878,
            selection,
            health,
        },
    );
}

fn own_target(f: &mut Fixture) {
    override_class(
        f,
        None,
        Some(ClassHealth {
            url: Some("connect://api.example:443".to_string()),
            samples: None,
        }),
    );
}

#[test]
fn health_streak_is_class_local_when_classes_share_a_node() {
    let mut f = fixture(&["current", "alternate"], &[], 1);
    let runtime = |name: &str| ClassRuntime {
        name: name.to_string(),
        route: ClassRoute::default(),
        active: Some(node("current")),
        auto_recovery: AutoRecoveryBackoff::default(),
        health_failures: 0,
    };
    let mut dev = runtime("dev");
    let mut browser = runtime("browser");
    let threshold = f.cfg.health.fail_threshold;

    let (o, event) = record_health_outcome(&mut f.state, &mut dev, false, threshold, 5);
    assert_eq!((o.failures, o.has_active), (1, true));
    assert!(matches!(
        event,
        Some(Event::HealthFailed { consecutive: 1, .. })
    ));
    // The other class's ok resets only the shared display counter.
    let (o, event) = record_health_outcome(&mut f.state, &mut browser, true, threshold, 5);
    assert_eq!(o.failures, 0);
    assert!(event.is_none());
    assert_eq!(
        f.state
            .nodes
            .get("current")
            .unwrap()
            .consecutive_health_failures,
        0,
        "shared display counter follows the last verdict"
    );
    // dev's streak survives the reset and keeps climbing.
    let (o, _) = record_health_outcome(&mut f.state, &mut dev, false, threshold, 5);
    assert_eq!(
        o.failures, 2,
        "the class-local streak is not reset by another class"
    );
    assert!(!o.recover);
    // A class ok clears its own streak.
    let (o, _) = record_health_outcome(&mut f.state, &mut dev, true, threshold, 5);
    assert_eq!(o.failures, 0);
    // No active path: the caller establishes one immediately.
    dev.active = None;
    let (o, _) = record_health_outcome(&mut f.state, &mut dev, false, threshold, 5);
    assert!(!o.has_active);
    assert_eq!(o.failures, threshold);
    assert!(o.recover);
}

#[test]
fn class_target_precheck_failures_never_touch_the_shared_scores() {
    let mut f = fixture(&["current", "alternate"], &[("alternate", 503)], 1);
    own_target(&mut f);
    let before = f.state.nodes.get("alternate").unwrap().probe_count;
    assert_eq!(
        f.run(attempts_for(vec![node("alternate")], "test")),
        None,
        "the 503 pre-check fails the candidate"
    );
    assert_eq!(
        f.state.nodes.get("alternate").unwrap().probe_count,
        before,
        "an override class's pre-check failure must not write shared scores"
    );
    // Without an own target the same failure is booked.
    let mut g = fixture(&["current", "alternate"], &[("alternate", 503)], 1);
    g.run(attempts_for(vec![node("alternate")], "test"));
    assert_eq!(
        g.state.nodes.get("alternate").unwrap().probe_count,
        before + 1
    );
}

#[test]
fn class_target_probe_verdicts_never_touch_the_shared_scores() {
    let failed = judge_test("current", true, NodeTest::Answered(503, 0));
    let fine = judge_test("alternate", true, NodeTest::Answered(204, 5.0f64.to_bits()));
    assert_eq!((failed.0.ok, fine.0.ok), (false, true));
    assert_eq!((failed.1, fine.1), (Booking::Nothing, Booking::Nothing));
    // The global target keeps recording.
    assert_eq!(
        judge_test("current", false, NodeTest::Answered(503, 0)).1,
        Booking::Failure
    );
    assert_eq!(
        judge_test("current", false, NodeTest::Answered(204, 0)).1,
        Booking::Success
    );
}

#[test]
fn per_class_health_target_reaches_the_wire() {
    let mut f = fixture(&["current"], &[], 1);
    let plan = check_plan(&f.cfg.target_of("dev")).unwrap();
    assert!(plan.request.starts_with("GET http://"));
    own_target(&mut f);
    let plan = check_plan(&f.cfg.target_of("dev")).unwrap();
    assert!(plan.request.starts_with("CONNECT api.example:443 "));
}

#[test]
fn probe_now_results_follow_pool_order_not_completion_order() {
    let nodes: Vec<Node> = ["current", "middle", "late", "last"]
        .iter()
        .map(|n| node(n))
        .collect();
    let test = |name: &str, code| {
        judge_test(name, false, NodeTest::Answered(code, 1.0f64.to_bits())).0
    };
    let completed = vec![
        test("last", 204),
        test("current", 204),
        test("late", 503),
        test("middle", 204),
    ];
    let results = in_pool_order(&nodes, &completed);
    assert_eq!(
        results
            .iter()
            .map(|r| (r.node.as_str(), r.ok))
            .collect::<Vec<_>>(),
        vec![
            ("current", true),
            ("middle", true),
            ("late", false),
            ("last", true)
        ]
    );
    assert_eq!(
        on_demand_event(&results, 3),
        Event::Probed {
            unix: 3,
            source: "on-demand".to_string(),
            ok: 3,
            total: 4,
        }
    );
}

#[test]
fn supervisor_tests_on_demand_probe_skips_nodes_from_a_replaced_pool() {
    let mut f = fixture(&["current"], &[("current", 204)], 1);
    // Live era: the test of a node runs and is booked.
    let era = f.subscriptions.generation;
    let (result, booking) = f.test_node("current", era);
    assert!(result.ok);
    assert_eq!(booking, Booking::Success);
    assert!(f.state.nodes.get("current").unwrap().probe_count >= 1);

    // Publication moved the pool on: a test that still holds the old pool is
    // skipped, and nothing of it reaches the statistics.
    f.subscriptions.publish(
        LEGACY_SUBSCRIPTION_NAME,
        vec![node("current")],
        f.cfg.subscriptions.dup(),
    );
    let before = f.state.nodes.get("current").unwrap().dup();
    let (result, booking) = f.test_node("current", era);
    assert!(!result.ok);
    assert_eq!(
        result.error.as_deref(),
        Some("skipped: subscription changed")
    );
    assert_eq!(
        booking,
        Booking::Nothing,
        "skipped probe must not record stats"
    );
    let after = f.state.nodes.get("current").unwrap();
    assert_eq!(after.success_ema, before.success_ema);
    assert_eq!(after.rtt_ema_ms, before.rtt_ema_ms);
    assert_eq!(after.recent_rtts_ms, before.recent_rtts_ms);
    assert_eq!(
        after.consecutive_health_failures,
        before.consecutive_health_failures
    );
    assert_eq!(
        after.probe_count, before.probe_count,
        "skipped probe must not record stats"
    );
    assert_eq!(after.last_probe_unix, before.last_probe_unix);
    assert_eq!(f.starts, ["current"]);
}

#[test]
fn node_tests_are_reported_and_booked() {
    let fail = |error: &str| ProbeResult {
        node: "n".to_string(),
        ok: false,
        rtt_ms: None,
        http_status: None,
        error: Some(error.to_string()),
    };
    assert_eq!(
        judge_test("n", false, NodeTest::NoPorts("full".into())),
        (fail("reserve adapter ports: full"), Booking::Nothing)
    );
    assert_eq!(
        judge_test("n", false, NodeTest::NotStarted("no bin".into())),
        (fail("no bin"), Booking::Failure)
    );
    assert_eq!(
        judge_test("n", false, NodeTest::Failed("timeout".into())),
        (fail("timeout"), Booking::Failure)
    );
    let (ok, _) = judge_test("n", false, NodeTest::Answered(204, 12.5f64.to_bits()));
    assert_eq!(ok.rtt_ms.map(f64::from_bits), Some(12.5));
}

// ---------------------------------------------------------------------------
// Egress changes
// ---------------------------------------------------------------------------

#[test]
fn supervisor_tests_egress_rebuild_keeps_same_node_and_drains_old_path() {
    let mut f = fixture(&["current", "alternate"], &[("current", 204)], 4);
    f.rebuild(false, 0, true);
    assert_eq!(f.starts, ["current"]);
    assert_eq!(f.class.active_name(), Some("current"));
    assert_eq!(f.class.route.generation, 5);
    assert_eq!(f.drained, ["current"]);
    assert!(f.events.snapshot().iter().any(|event| matches!(
        event,
        Event::Switched { reason, node, .. } if reason == "egress-change" && node == "current"
    )));
}

#[test]
fn supervisor_tests_failed_or_superseded_egress_rebuild_preserves_incumbent() {
    let mut failed = fixture(&["current"], &[("current", 503)], 8);
    failed.rebuild(false, 0, true);
    assert_eq!(failed.starts, ["current"]);
    assert_eq!(failed.class.route.generation, 8);
    assert!(failed.drained.is_empty());
    assert_eq!(
        failed.state.nodes.get("current").unwrap().probe_count,
        1,
        "an egress-triggered failure must not poison node quality"
    );

    let mut stale = fixture(&["current"], &[("current", 204)], 9);
    stale.rebuild(false, 0, false);
    assert_eq!(stale.starts, ["current"]);
    assert_eq!(stale.class.route.generation, 9);
    assert!(stale.drained.is_empty());
    assert_eq!(stale.state.nodes.get("current").unwrap().probe_count, 1);

    assert!(!rebuild_is_current(true, 0, true));
    assert!(!rebuild_is_current(false, 1, true));
}

#[test]
fn supervisor_tests_egress_rebuild_yields_to_subscription_or_class_mutation_and_shutdown() {
    let mut f = fixture(&["current"], &[], 3);
    f.rebuild(false, 1, true);
    f.rebuild(true, 0, true);
    assert!(f.starts.is_empty());
    assert_eq!(f.class.route.generation, 3);
}

// ---------------------------------------------------------------------------
// Candidates
// ---------------------------------------------------------------------------

fn stats_map(pairs: Vec<(&str, NodeStats)>) -> NameMap<NodeStats> {
    let mut m = NameMap::new();
    for (k, v) in pairs {
        m.insert(k.to_string(), v);
    }
    m
}

fn candidates_prefer_incumbent() {
    let nodes = vec![
        node("unknown-z"),
        node("slow"),
        node("preferred"),
        node("fast"),
        node("best"),
        node("unknown-a"),
        node("unknown-m"),
    ];
    let stats = stats_map(vec![
        ("preferred", stats(0.10, Some(900.0))),
        ("best", stats(0.99, Some(500.0))),
        ("fast", stats(0.80, Some(50.0))),
        ("slow", stats(0.80, Some(500.0))),
    ]);

    let ordered = profile_candidates(&nodes, &stats, Some("preferred"), &Vec::new());
    assert_eq!(
        names(&ordered),
        [
            "preferred",
            "best",
            "fast",
            "slow",
            "unknown-a",
            "unknown-m",
            "unknown-z"
        ]
    );

    let attempted: Vec<_> = names(&ordered)
        .into_iter()
        .take(MAX_SWITCH_CANDIDATES)
        .collect();
    assert_eq!(attempted.len(), MAX_SWITCH_CANDIDATES);
    assert_eq!(
        attempted,
        ["preferred", "best", "fast", "slow", "unknown-a"]
    );
}

#[test]
fn supervisor_profile_candidates_prefer_incumbent_then_quality_then_unknown_name() {
    candidates_prefer_incumbent();
}

#[test]
fn supervisor_tests_profile_candidates_prefer_incumbent_then_quality_then_unknown_name() {
    candidates_prefer_incumbent();
}

fn region_filter_covers_everything() {
    let nodes = vec![
        node("🇭🇰 Hong Kong丨01"),
        node("🇯🇵 Japan丨01"),
        node("🇯🇵 Japan丨02"),
    ];
    let stats = stats_map(vec![
        ("🇭🇰 Hong Kong丨01", stats(0.5, Some(500.0))),
        ("🇯🇵 Japan丨01", stats(0.99, Some(50.0))),
    ]);
    let ordered = profile_candidates(
        &nodes,
        &stats,
        Some("🇯🇵 Japan丨01"),
        &vec!["🇭🇰".to_string()],
    );
    assert_eq!(names(&ordered), ["🇭🇰 Hong Kong丨01"]);

    let unfiltered = profile_candidates(&nodes, &stats, Some("🇯🇵 Japan丨01"), &Vec::new());
    assert_eq!(unfiltered.len(), 3, "empty allowlist keeps the whole pool");
}

#[test]
fn supervisor_profile_candidates_region_filter_covers_preferred_probed_and_unknown() {
    region_filter_covers_everything();
}

#[test]
fn supervisor_tests_profile_candidates_region_filter_covers_preferred_probed_and_unknown() {
    region_filter_covers_everything();
}

fn region_filter_restricts_automatic_pool() {
    let nodes = vec![
        node("🇭🇰 Hong Kong丨01"),
        node("🇭🇰 Hong Kong丨02"),
        node("🇯🇵 Japan丨01"),
    ];
    let mut state = StateFile::default();
    state.activate_subscription(LEGACY_SUBSCRIPTION_NAME);
    for n in &nodes {
        state
            .nodes
            .insert(n.name().to_string(), stats(1.0, Some(100.0)));
    }
    let all = ranked_candidates(&nodes, &state.nodes, &Vec::new());
    assert_eq!(all.len(), 3, "no filter keeps the whole pool");
    let hk_only = ranked_candidates(&nodes, &state.nodes, &vec!["🇭🇰".to_string()]);
    assert_eq!(hk_only.len(), 2);
    assert!(hk_only.iter().all(|n| n.name().contains("🇭🇰")));
}

#[test]
fn supervisor_ranked_candidates_region_filter_restricts_automatic_pool() {
    region_filter_restricts_automatic_pool();
}

#[test]
fn supervisor_tests_ranked_candidates_region_filter_restricts_automatic_pool() {
    region_filter_restricts_automatic_pool();
}

#[test]
fn supervisor_tests_initial_activation_respects_region_allowlist() {
    let mut f = fixture(
        &["current", "🇭🇰 Hong Kong丨01"],
        &[("🇭🇰 Hong Kong丨01", 204)],
        1,
    );
    f.cfg.selection.regions = vec!["🇭🇰".to_string()];
    f.class.active = None;
    f.activate_initial();
    assert_eq!(
        f.starts,
        ["🇭🇰 Hong Kong丨01"],
        "initial activation must not try the out-of-allowlist incumbent"
    );
    assert_eq!(f.class.active_name(), Some("🇭🇰 Hong Kong丨01"));
}

#[test]
fn initial_activation_respects_per_class_region_override() {
    let mut f = fixture(
        &["current", "🇭🇰 Hong Kong丨01"],
        &[("🇭🇰 Hong Kong丨01", 204)],
        1,
    );
    override_class(
        &mut f,
        Some(ClassSelection {
            regions: Some(vec!["🇭🇰".to_string()]),
            auto_switch: None,
        }),
        None,
    );
    f.class.active = None;
    f.activate_initial();
    assert_eq!(
        f.starts,
        ["🇭🇰 Hong Kong丨01"],
        "initial activation must not try the node outside the class allowlist"
    );
    assert_eq!(f.class.active_name(), Some("🇭🇰 Hong Kong丨01"));
}

#[test]
fn manual_switches_fall_back_and_report_it() {
    let mut f = fixture(
        &["current", "bad", "good"],
        &[("bad", 503), ("good", 204)],
        1,
    );
    let outcome = f.switch_to("bad").unwrap();
    assert_eq!(
        outcome,
        SwitchOutcome {
            requested: "bad".to_string(),
            installed: "good".to_string(),
            fallback: true,
        }
    );
    assert!(f.switch_to("nobody").is_err());
    let same = f.switch_to("good").unwrap();
    assert!(!same.fallback);
    let mut g = fixture(&["current", "bad"], &[("bad", 503)], 1);
    assert!(g.switch_to("bad").is_err());
    assert_eq!(g.class.active_name(), Some("current"));
}

#[test]
fn challengers_are_other_nodes_with_a_clear_lead() {
    let f = fixture(&["current", "alternate"], &[], 1);
    let none = Vec::new();
    let c = find_challenger(&f.subscriptions.nodes, &f.state.nodes, &none, "current");
    assert_eq!(c.as_deref(), Some("alternate"));
    let ahead = SuccessGap::ChallengerAhead;
    assert!(should_switch(
        &f.state.nodes,
        "alternate",
        "current",
        true,
        ahead,
        false
    ));
    assert!(!should_switch(
        &f.state.nodes,
        "alternate",
        "current",
        false,
        ahead,
        false
    ));
    // An incumbent without statistics yields to any challenger with some.
    assert!(should_switch(
        &f.state.nodes,
        "alternate",
        "stranger",
        true,
        SuccessGap::ChallengerBehind,
        false
    ));
    assert!(!should_switch(
        &f.state.nodes,
        "stranger",
        "current",
        true,
        ahead,
        true
    ));
}

#[test]
fn probe_cycles_are_booked_in_order() {
    let mut f = fixture(&["current"], &[], 1);
    let record = |name: &str, ms: f64| ProbeRecord {
        node: name.to_string(),
        blend: ProbeBlend {
            success: 0.65f64.to_bits(),
            rtt: Some(RttBlend {
                sample: ms.to_bits(),
                blended: ms.to_bits(),
            }),
        },
    };
    record_probes(
        &mut f.state,
        &vec![record("current", 20.0), record("new", 30.0)],
        55,
    );
    assert_eq!(f.state.updated_unix, 55);
    assert_eq!(f.state.nodes.get("current").unwrap().probe_count, 2);
    assert_eq!(
        f.state.nodes.get("current").unwrap().success_ema,
        0.65f64.to_bits()
    );
    let fresh = f.state.nodes.get("new").unwrap();
    assert_eq!(fresh.probe_count, 1);
    assert_eq!(f64::from_bits(fresh.success_ema), 1.0);
}

// ---------------------------------------------------------------------------
// Reload
// ---------------------------------------------------------------------------

fn reload_shape() {
    let running = test_config();
    let mut subscriptions_only = test_config();
    subscriptions_only.subscriptions.files = vec!["/test/new.yaml".to_string()];
    assert!(!non_subscription_config_changed(
        &running,
        &subscriptions_only
    ));

    let mut changed = Vec::new();
    let mut candidate = test_config();
    candidate.log_dir.push_str("/different");
    changed.push(candidate);
    let mut candidate = test_config();
    candidate.state_file = "/d/different-state.json".to_string();
    changed.push(candidate);
    let mut candidate = test_config();
    candidate.sslocal_bin.push_str("/different");
    changed.push(candidate);
    let mut candidate = test_config();
    candidate.obfs_plugin_bin.push_str("/different");
    changed.push(candidate);
    let mut candidate = test_config();
    candidate.singbox_bin.push_str("/different");
    changed.push(candidate);
    let mut candidate = test_config();
    candidate.classes.insert(
        "dev".to_string(),
        ClassConfig {
            listen: "127.0.0.1:17879".to_string(),
            ip: IpAddress::V4(127, 0, 0, 1),
            port: 17879,
            selection: None,
            health: None,
        },
    );
    changed.push(candidate);
    let mut candidate = test_config();
    candidate.probe.interval_secs += 1;
    changed.push(candidate);
    let mut candidate = test_config();
    candidate.health.timeout_ms += 1;
    changed.push(candidate);
    let mut candidate = test_config();
    candidate.selection.ema_alpha = 0.5f64.to_bits();
    changed.push(candidate);
    let mut candidate = test_config();
    candidate.routing.direct_hosts = vec!["api.example.test".to_string()];
    changed.push(candidate);

    for candidate in changed {
        assert!(non_subscription_config_changed(&running, &candidate));
    }
}

#[test]
fn supervisor_reload_shape_accepts_only_subscription_changes() {
    reload_shape();
}

#[test]
fn supervisor_tests_reload_shape_accepts_only_subscription_changes() {
    reload_shape();
}

#[test]
fn reloads_are_refused_with_a_reason_or_finish_with_a_count() {
    let running = test_config();
    assert_eq!(
        check_reload(&running, &None, LEGACY_SUBSCRIPTION_NAME),
        Some(ReloadRefusal::InvalidConfiguration)
    );
    let mut changed = test_config();
    changed.sites.max_candidates += 1;
    assert_eq!(
        check_reload(&running, &Some(changed), LEGACY_SUBSCRIPTION_NAME),
        Some(ReloadRefusal::RestartRequired)
    );
    assert_eq!(
        check_reload(&running, &Some(test_config()), "gone"),
        Some(ReloadRefusal::ActiveGone)
    );
    assert_eq!(
        check_reload(&running, &Some(test_config()), LEGACY_SUBSCRIPTION_NAME),
        None
    );
    // Zeros are equal whatever their sign; what is not a number never is.
    let mut zero = test_config();
    zero.selection.hysteresis = 0.0f64.to_bits();
    let mut minus = test_config();
    minus.selection.hysteresis = (-0.0f64).to_bits();
    assert!(!non_subscription_config_changed(&zero, &minus));
    let mut nan = test_config();
    nan.selection.hysteresis = f64::NAN.to_bits();
    assert!(non_subscription_config_changed(&nan, &nan));

    let (reply, event) = refuse_reload(ReloadRefusal::RestartRequired, 4);
    assert_eq!(
        reply.error.as_deref(),
        Some("non-subscription configuration changed — daemon restart required")
    );
    assert_eq!(event.unix(), 4);
    let (reply, _) = finish_reload(&Reply::err("no nodes"), 4);
    assert_eq!(reply.error.as_deref(), Some("no nodes"));
    let (reply, _) = finish_reload(&Reply::ok(), 4);
    assert_eq!(
        reply.message.as_deref(),
        Some("config OK — 0 node(s) in pool (interval changes take effect on restart)")
    );
}

// ---------------------------------------------------------------------------
// Startup and shutdown
// ---------------------------------------------------------------------------

fn missing(path: &str) -> PathFact {
    PathFact {
        normalized: Some(path.to_string()),
        exists: false,
        file: FileFact::Unreadable,
    }
}

fn facts(paths: &[&str]) -> NameMap<PathFact> {
    let mut m = NameMap::new();
    for p in paths {
        m.insert(p.to_string(), missing(p));
    }
    m
}

fn remote(url: &str, cache: &str) -> SubscriptionProfileConfig {
    SubscriptionProfileConfig {
        files: Vec::new(),
        url_file: Some(url.to_string()),
        cache_file: Some(cache.to_string()),
    }
}

fn single(name: &str, identity: String) -> NameMap<String> {
    let mut m = NameMap::new();
    m.insert(name.to_string(), identity);
    m
}

fn startup_quarantine() {
    let facts = facts(&["/d/url", "/d/moved.url", "/d/cache.yaml"]);
    let mut read = NameMap::new();
    read.insert(
        "/d/cache.yaml".to_string(),
        FileText::Text(one_node_manifest("legacy-node")),
    );
    let profile = remote("/d/url", "/d/cache.yaml");

    // A bare cache without a confirmed slot, and an identity that still
    // matches: the compatibility fallback must keep working.
    let mut st = StateFile::default();
    let identities = single("remote", profile.source_identity(&facts).unwrap());
    st.reconcile_startup_sources(&identities);
    assert_eq!(
        startup_paths(&st, &identities, "remote", &profile),
        ["/d/cache.yaml"]
    );
    let (nodes, quarantined) = startup_snapshot(&st, &identities, "remote", &profile, &read);
    assert_eq!(nodes.len(), 1, "trusted source keeps the legacy fallback");
    assert!(!quarantined);

    // Same-name source change: startup must not serve the previous source's
    // bare cache.
    let new_profile = remote("/d/moved.url", "/d/cache.yaml");
    let changed = single("remote", new_profile.source_identity(&facts).unwrap());
    st.reconcile_startup_sources(&changed);
    assert!(startup_paths(&st, &changed, "remote", &new_profile).is_empty());
    let (nodes, quarantined) = startup_snapshot(&st, &changed, "remote", &new_profile, &read);
    assert!(nodes.is_empty(), "quarantined cache must not be served");
    assert!(quarantined);
    assert!(check_startup("remote", &new_profile, &nodes, quarantined)
        .unwrap()
        .contains("quarantined"));
}

#[test]
fn supervisor_startup_snapshot_quarantines_legacy_cache_after_source_change() {
    startup_quarantine();
}

#[test]
fn supervisor_tests_startup_snapshot_quarantines_legacy_cache_after_source_change() {
    startup_quarantine();
}

#[test]
fn startup_prefers_the_recorded_profile_while_it_is_configured() {
    let mut catalog = SubscriptionsConfig {
        files: Vec::new(),
        default: Some("a".to_string()),
        profiles: NameMap::new(),
    };
    catalog
        .profiles
        .insert("a".to_string(), remote("/d/a.url", "/d/a.yaml"));
    catalog
        .profiles
        .insert("b".to_string(), remote("/d/b.url", "/d/b.yaml"));
    let mut state = StateFile::default();
    state.activate_subscription("b");
    let mut ids = single("a", "ida".to_string());
    ids.insert("b".to_string(), "idb".to_string());
    assert_eq!(
        begin_startup(&mut state, &catalog, &ids),
        Ok("b".to_string())
    );
    assert!(needs_startup_probe(&state));
    state.nodes.insert("n".to_string(), stats(0.5, None));
    assert!(!needs_startup_probe(&state));

    let mut gone = StateFile::default();
    gone.activate_subscription("gone");
    assert_eq!(
        begin_startup(&mut gone, &catalog, &ids),
        Ok("a".to_string())
    );
    catalog.default = None;
    assert!(begin_startup(&mut gone, &catalog, &ids).is_err());

    let none = Vec::new();
    let r = remote("/d/a.url", "/d/a.yaml");
    assert!(check_startup("a", &r, &none, false)
        .unwrap()
        .contains("has no local snapshot"));
    let local = SubscriptionProfileConfig {
        files: vec!["/d/x.yaml".to_string()],
        url_file: None,
        cache_file: None,
    };
    assert_eq!(
        check_startup("a", &local, &none, false).as_deref(),
        Some("selected subscription has no supported nodes in its local snapshot")
    );
    assert_eq!(check_startup("a", &local, &vec![node("n")], false), None);
}

#[test]
fn a_stopped_class_keeps_its_node_and_loses_its_ports() {
    let mut f = fixture(&["current"], &[], 6);
    clear_ports(&mut f.state, "dev");
    let dev = f.state.classes.get("dev").unwrap();
    assert_eq!(dev.active_node.as_deref(), Some("current"));
    assert_eq!((dev.socks_port, dev.http_port), (None, None));
    assert_eq!(dev.generation, 6);
}

// ---------------------------------------------------------------------------
// Subscription changes
// ---------------------------------------------------------------------------

/// How the parts of a change outside the library go.
struct World {
    read: NameMap<FileText<String>>,
    fetched: Result<String, SubscriptionFault<String>>,
    facts: NameMap<PathFact>,
    cache_written: bool,
    /// The step at which saving the state fails.
    save_fails_at: Option<SaveStep>,
    /// What a restart would load.
    disk: Option<StateFile>,
    /// The step at which the deadline is found to be over.
    overdue_at: Option<&'static str>,
    /// The step whose worker dies.
    lost_at: Option<&'static str>,
    /// The steps that were asked for, in order.
    asked: Vec<&'static str>,
}

fn world(fetched: Result<String, SubscriptionFault<String>>, paths: &[&str]) -> World {
    World {
        read: NameMap::new(),
        fetched,
        facts: facts(paths),
        cache_written: true,
        save_fails_at: None,
        disk: None,
        overdue_at: None,
        lost_at: None,
        asked: Vec::new(),
    }
}

impl World {
    fn save(&mut self, state: &StateFile) -> Option<SaveOutcome> {
        let document = state.to_document().ok()?;
        let mut step = SaveStep::CreateParent;
        loop {
            let failure = match self.save_fails_at {
                Some(s) if s == step => Some("injected".to_string()),
                _ => None,
            };
            match save_next("/d/state.json", step, failure) {
                SaveProgress::Go(next) => step = next,
                SaveProgress::Failed(_) => return None,
                SaveProgress::Finished(outcome) => {
                    self.disk = load("/d/state.json", StateDocument::Version2(document))
                        .ok()
                        .flatten();
                    return Some(outcome);
                }
            }
        }
    }

    fn name_of(step: &ChangeStep) -> &'static str {
        match step {
            ChangeStep::Prepare { .. } => "prepare",
            ChangeStep::LockClasses { .. } => "gate",
            ChangeStep::Try { .. } => "try",
            ChangeStep::CheckDeadline => "deadline",
            ChangeStep::WriteCache(_) => "cache",
            ChangeStep::InspectCatalog => "inspect",
            ChangeStep::SaveState(_) => "save",
            ChangeStep::Publish => "publish",
            ChangeStep::Refuse(_) => "refuse",
        }
    }
}

impl Fixture {
    /// Perform whatever steps a change asks for.
    fn change(
        &mut self,
        world: &mut World,
        target: &str,
        catalog: &SubscriptionsConfig,
        allow_cached: bool,
        is_reload: bool,
    ) -> Reply {
        let (mut run, mut step) = begin_change(
            &self.subscriptions,
            &self.state,
            &world.facts,
            catalog.dup(),
            target,
            allow_cached,
            is_reload,
        );
        let mut staged: Vec<String> = Vec::new();
        world.asked.clear();
        loop {
            let name = World::name_of(&step);
            world.asked.push(name);
            let event = if world.overdue_at == Some(name) {
                ChangeEvent::Overdue
            } else if world.lost_at == Some(name) {
                ChangeEvent::WorkerLost
            } else {
                match step {
                    ChangeStep::Prepare { .. } => ChangeEvent::Fetched {
                        read: world.read.dup(),
                        fetched: match &world.fetched {
                            Ok(t) => Ok(t.clone()),
                            Err(_) => Err(SubscriptionFault::FetchStart("offline".to_string())),
                        },
                        active_now: self.subscriptions.active.clone(),
                    },
                    ChangeStep::LockClasses { .. } => ChangeEvent::ClassesLocked {
                        state: &self.state,
                        classes: vec![hold_class(&self.class, self.cfg.regions_of("dev"))],
                    },
                    ChangeStep::Try { node, .. } => {
                        let name = node.name().to_string();
                        if self.respond(&name).is_none() {
                            staged.push(name);
                            ChangeEvent::Passed(self.ports())
                        } else {
                            self.stops.push(name);
                            ChangeEvent::Failed
                        }
                    }
                    ChangeStep::CheckDeadline => ChangeEvent::OnTime,
                    ChangeStep::WriteCache(None) => ChangeEvent::CacheWritten(Ok(())),
                    ChangeStep::WriteCache(Some((path, bytes))) => {
                        ChangeEvent::CacheWritten(if world.cache_written {
                            let text = String::from_utf8(bytes).unwrap();
                            world.read.insert(path, FileText::Text(text));
                            Ok(())
                        } else {
                            Err(SubscriptionFault::Cache {
                                path,
                                detail: "full".to_string(),
                            })
                        })
                    }
                    ChangeStep::InspectCatalog => ChangeEvent::Inspected {
                        facts: world.facts.dup(),
                        state: &self.state,
                        now: 100,
                    },
                    ChangeStep::SaveState(state) => match world.save(&state) {
                        Some(outcome) => ChangeEvent::StateSaved(outcome),
                        None => ChangeEvent::StateFailed,
                    },
                    ChangeStep::Publish => return self.end(run, Vec::new()),
                    ChangeStep::Refuse(_) => return self.end(run, staged),
                }
            };
            step = change_next(&mut run, event);
        }
    }

    fn end(&mut self, run: ChangeRun, stop: Vec<String>) -> Reply {
        self.stops.extend(stop);
        let class = ClassRuntime {
            name: self.class.name.clone(),
            route: ClassRoute {
                socks_upstream: self.class.route.socks_upstream,
                http_upstream: self.class.route.http_upstream,
                node_name: self.class.route.node_name.clone(),
                generation: self.class.route.generation,
                traffic_subscription: self.class.route.traffic_subscription.clone(),
            },
            active: self.class.active.as_ref().map(|n| n.dup()),
            auto_recovery: AutoRecoveryBackoff::default(),
            health_failures: self.class.health_failures,
        };
        let classes = vec![class];
        assert!(run.can_end(&classes));
        let ChangeEnd {
            mut classes,
            reply,
            events,
            retired,
        } = end_change(
            run,
            &mut self.state,
            &mut self.subscriptions,
            classes,
            &mut self.traffic,
            100,
        );
        self.class = classes.remove(0);
        for e in events {
            self.events.push(e);
        }
        for n in retired.into_iter().flatten() {
            self.drained.push(n.name().to_string());
        }
        reply
    }
}

fn same_catalog(a: &SubscriptionsConfig, b: &SubscriptionsConfig) -> bool {
    a.files == b.files
        && a.default == b.default
        && a.profile_names() == b.profile_names()
        && a.profile_names()
            .iter()
            .all(|name| a.profile(name) == b.profile(name))
}

fn two_profiles(first: (&str, SubscriptionProfileConfig), second: (&str, SubscriptionProfileConfig)) -> SubscriptionsConfig {
    let mut profiles = NameMap::new();
    let default = Some(first.0.to_string());
    profiles.insert(first.0.to_string(), first.1);
    profiles.insert(second.0.to_string(), second.1);
    SubscriptionsConfig {
        files: Vec::new(),
        default,
        profiles,
    }
}

fn local(file: &str) -> SubscriptionProfileConfig {
    SubscriptionProfileConfig {
        files: vec![file.to_string()],
        url_file: None,
        cache_file: None,
    }
}

#[test]
fn supervisor_tests_state_commit_failure_keeps_live_and_confirmed_cache_generation() {
    let mut f = fixture(&["current"], &[("candidate", 204)], 5);
    let catalog = two_profiles(
        ("old", local("/d/old.yaml")),
        ("new", remote("/d/new.url", "/d/new-cache.yaml")),
    );
    f.subscriptions.active = "old".to_string();
    f.subscriptions.catalog = catalog.dup();
    f.state.active_subscription = Some("old".to_string());
    f.state
        .subscription_cache_slots
        .insert("new".to_string(), CACHE_SLOT_A.to_string());
    let slot_a = cache_slot_path("/d/new-cache.yaml", CACHE_SLOT_A).unwrap();
    let slot_b = cache_slot_path("/d/new-cache.yaml", CACHE_SLOT_B).unwrap();
    let mut world = world(
        Ok(one_node_manifest("candidate")),
        &["/d/old.yaml", "/d/new.url", "/d/new-cache.yaml"],
    );
    world.read.insert(
        slot_a,
        FileText::Text(one_node_manifest("generation-a")),
    );
    assert_eq!(world.save(&f.state), Some(SaveOutcome::Durable));
    // The state cannot be replaced after the cache is written: its temporary
    // file does not open. What is on disk stays.
    world.save_fails_at = Some(SaveStep::OpenTemporary);

    let reply = f.change(&mut world, "new", &catalog, false, false);
    assert!(!reply.ok);
    assert_eq!(
        reply.error.as_deref(),
        Some("subscription state commit failed")
    );
    assert!(
        world.read.contains_key(&slot_b),
        "fresh generation B must reach its inactive slot"
    );
    let profile = remote("/d/new.url", "/d/new-cache.yaml");
    assert_eq!(
        load_profile_snapshot_from_slot(&profile, Some(CACHE_SLOT_A), &world.read)[0].name(),
        "generation-a",
        "restart must ignore the unconfirmed B slot"
    );
    assert_eq!(
        load_profile_snapshot_from_slot(&profile, Some(CACHE_SLOT_B), &world.read)[0].name(),
        "candidate"
    );
    assert_eq!(f.subscriptions.active, "old");
    assert_eq!(names(&f.subscriptions.nodes), ["current"]);
    assert!(same_catalog(&f.subscriptions.catalog, &catalog));
    assert_eq!(f.subscriptions.generation, 0);
    assert_eq!(f.state.active_subscription.as_deref(), Some("old"));
    assert_eq!(
        f.state
            .subscription_cache_slots
            .get("new")
            .map(String::as_str),
        Some(CACHE_SLOT_A)
    );
    assert_eq!(f.state.classes.get("dev").unwrap().generation, 5);
    let disk = world.disk.as_ref().unwrap();
    assert_eq!(disk.active_subscription.as_deref(), Some("old"));
    assert_eq!(
        disk.subscription_cache_slots
            .get("new")
            .map(String::as_str),
        Some(CACHE_SLOT_A)
    );
    assert_eq!(disk.classes.get("dev").unwrap().generation, 5);
    assert_eq!(f.class.active_name(), Some("current"));
    assert_eq!(f.class.route.node_name, "current");
    assert_eq!(f.class.route.generation, 5);
    assert_eq!(f.class.route.socks_upstream, Some(41001));
    assert_eq!(f.class.route.http_upstream, Some(41002));
    assert_eq!(f.starts, ["candidate"]);
    assert_eq!(f.stops, ["candidate"]);
    assert!(f.drained.is_empty());
    assert!(!f.events.snapshot().iter().any(|event| matches!(
        event,
        Event::Switched { .. } | Event::SubscriptionChanged { .. }
    )));
}

#[test]
fn a_committed_change_moves_everything_together() {
    let mut f = fixture(&["current"], &[("candidate", 204)], 5);
    let catalog = two_profiles(
        ("old", local("/d/old.yaml")),
        ("new", remote("/d/new.url", "/d/new-cache.yaml")),
    );
    f.subscriptions.active = "old".to_string();
    f.subscriptions.catalog = catalog.dup();
    f.state.active_subscription = Some("old".to_string());
    f.traffic.select_subscription("old");
    f.traffic.add("old", "current", 1, 1);
    let mut world = world(
        Ok(one_node_manifest("candidate")),
        &["/d/old.yaml", "/d/new.url", "/d/new-cache.yaml"],
    );
    let reply = f.change(&mut world, "new", &catalog, false, false);
    assert!(reply.ok);
    assert_eq!(
        world.asked,
        ["prepare", "gate", "try", "deadline", "cache", "inspect", "save", "publish"]
    );
    assert_eq!(
        world.disk.as_ref().unwrap().active_subscription.as_deref(),
        Some("new")
    );
    assert_eq!(f.state.classes.get("dev").unwrap().socks_port, Some(51001));
    assert_eq!(reply.subscription_switch.unwrap().node_count, 1);
    assert_eq!(f.subscriptions.active, "new");
    assert_eq!(f.subscriptions.generation, 1);
    assert_eq!(names(&f.subscriptions.nodes), ["candidate"]);
    assert_eq!(f.state.active_subscription.as_deref(), Some("new"));
    assert_eq!(
        f.state
            .subscription_cache_slots
            .get("new")
            .map(String::as_str),
        Some(CACHE_SLOT_A)
    );
    assert_eq!(f.class.active_name(), Some("candidate"));
    assert_eq!(f.class.route.generation, 6);
    assert_eq!(f.class.route.traffic_subscription, "new");
    assert_eq!(f.drained, ["current"]);
    assert!(f.traffic.snapshot().is_empty());

    // Every way it can fail is told, and changes nothing.
    assert_eq!(
        f.change(&mut world, "nobody", &catalog, false, false)
            .error
            .as_deref(),
        Some(TransactionFault::UnknownProfile.message())
    );
    world.fetched = Err(SubscriptionFault::RemoteYaml);
    assert_eq!(
        f.change(&mut world, "new", &catalog, false, false)
            .error
            .as_deref(),
        Some("subscription preparation failed")
    );
    assert_eq!(f.subscriptions.generation, 1);
    // The profile in use has no fallback; another may start from its
    // confirmed cache.
    assert!(!f.change(&mut world, "new", &catalog, true, false).ok);
    world.read.insert(
        "/d/old.yaml".to_string(),
        FileText::Text(one_node_manifest("current")),
    );
    f.responses.push(("current", 204));
    assert!(f.change(&mut world, "old", &catalog, true, false).ok);
    f.responses.push(("candidate", 503));
    assert_eq!(
        f.change(&mut world, "new", &catalog, true, false)
            .error
            .as_deref(),
        Some(TransactionFault::NoCandidate.message())
    );
    assert_eq!(f.subscriptions.generation, 2);
    f.responses.push(("candidate", 204));
    assert!(f.change(&mut world, "new", &catalog, true, false).ok);
    assert_eq!(f.subscriptions.generation, 3);
    world.fetched = Ok(one_node_manifest("candidate"));
    world.cache_written = false;
    f.responses.push(("candidate", 204));
    assert_eq!(
        f.change(&mut world, "new", &catalog, false, false)
            .error
            .as_deref(),
        Some(TransactionFault::CacheCommitFailed.message())
    );
    assert_eq!(f.subscriptions.generation, 3);
}

#[test]
fn supervisor_tests_reload_source_change_blocks_inactive_old_cache_and_stats() {
    let mut f = fixture(&["current"], &[("current", 204)], 2);
    let facts = facts(&[
        "/d/active.yaml",
        "/d/old.url",
        "/d/new.url",
        "/d/inactive-cache.yaml",
    ]);
    let old_inactive = remote("/d/old.url", "/d/inactive-cache.yaml");
    let new_inactive = remote("/d/new.url", "/d/inactive-cache.yaml");
    let old_identity = old_inactive.source_identity(&facts).unwrap();
    let new_identity = new_inactive.source_identity(&facts).unwrap();
    let old_catalog = two_profiles(
        ("active", local("/d/active.yaml")),
        ("inactive", old_inactive),
    );
    let new_catalog = two_profiles(
        ("active", local("/d/active.yaml")),
        ("inactive", new_inactive),
    );
    f.subscriptions.active = "active".to_string();
    f.subscriptions.catalog = old_catalog;
    f.state.activate_subscription("active");
    f.state.activate_subscription("inactive");
    f.state
        .nodes
        .insert("old-cached-node".to_string(), stats(0.99, Some(1.0)));
    f.state.activate_subscription("active");
    f.state
        .subscription_cache_slots
        .insert("inactive".to_string(), CACHE_SLOT_A.to_string());
    f.state
        .subscription_source_identities
        .insert("inactive".to_string(), old_identity);

    let old_slot = cache_slot_path("/d/inactive-cache.yaml", CACHE_SLOT_A).unwrap();
    let mut world = world(Err(SubscriptionFault::RemoteYaml), &[]);
    world.facts = facts;
    world.read.insert(
        "/d/active.yaml".to_string(),
        FileText::Text(one_node_manifest("current")),
    );
    world.read.insert(
        old_slot.clone(),
        FileText::Text(one_node_manifest("old-cached-node")),
    );
    let refreshed = f.change(&mut world, "active", &new_catalog, false, true);
    assert!(refreshed.ok);
    assert!(f.state.nodes_for_subscription("inactive").is_none());
    assert!(!f.state.subscription_cache_slots.contains_key("inactive"));
    assert!(!f.state.source_is_trusted("inactive", &new_identity));
    assert!(
        world.read.contains_key(&old_slot),
        "invalidation need not delete an old file"
    );

    let rejected = f.change(&mut world, "inactive", &new_catalog, true, false);
    assert!(!rejected.ok);
    assert_eq!(
        rejected.error.as_deref(),
        Some("subscription preparation failed")
    );
    assert_eq!(f.starts, ["current"]);
}

#[test]
fn a_refused_change_names_its_failure_and_leaves_no_path() {
    let paths = ["/d/old.yaml", "/d/new.url", "/d/new-cache.yaml"];
    let catalog = two_profiles(
        ("old", local("/d/old.yaml")),
        ("new", remote("/d/new.url", "/d/new-cache.yaml")),
    );
    let start = || {
        let mut f = fixture(&["current"], &[("candidate", 204)], 5);
        f.subscriptions.active = "old".to_string();
        f.subscriptions.catalog = catalog.dup();
        f.state.active_subscription = Some("old".to_string());
        let w = world(Ok(one_node_manifest("candidate")), &paths);
        (f, w)
    };
    let refused = |f: &mut Fixture, w: &mut World, fault: TransactionFault, stops: &[&str]| {
        let reply = f.change(w, "new", &catalog, false, false);
        assert!(!reply.ok);
        assert_eq!(reply.error.as_deref(), Some(fault.message()));
        assert!(!w.asked.contains(&"publish"));
        assert_eq!(w.asked.last(), Some(&"refuse"));
        assert_eq!(f.subscriptions.active, "old");
        assert_eq!(f.subscriptions.generation, 0);
        assert_eq!(f.class.route.generation, 5);
        assert!(w.disk.is_none());
        assert_eq!(f.stops, stops);
    };
    for (step, stops) in [
        ("prepare", &[][..]),
        ("gate", &[][..]),
        ("try", &[][..]),
        ("deadline", &["candidate"][..]),
    ] {
        let (mut f, mut w) = start();
        w.overdue_at = Some(step);
        refused(&mut f, &mut w, TransactionFault::TimedOut, stops);
    }
    let (mut f, mut w) = start();
    w.lost_at = Some("prepare");
    refused(&mut f, &mut w, TransactionFault::PreparationFailed, &[]);
    let (mut f, mut w) = start();
    w.lost_at = Some("cache");
    refused(
        &mut f,
        &mut w,
        TransactionFault::CacheCommitFailed,
        &["candidate"],
    );
    let (mut f, mut w) = start();
    w.save_fails_at = Some(SaveStep::Rename);
    refused(
        &mut f,
        &mut w,
        TransactionFault::StateCommitFailed,
        &["candidate"],
    );

    // A directory that does not sync holds nothing up: the state is in place.
    let (mut f, mut w) = start();
    w.save_fails_at = Some(SaveStep::SyncParent);
    assert!(f.change(&mut w, "new", &catalog, false, false).ok);
    assert_eq!(f.subscriptions.active, "new");
    assert!(f.stops.is_empty());
}

#[test]
fn a_change_does_not_end_on_classes_that_moved() {
    let mut f = fixture(&["current"], &[], 5);
    let catalog = two_profiles(("old", local("/d/old.yaml")), ("new", local("/d/new.yaml")));
    f.subscriptions.active = "old".to_string();
    f.subscriptions.catalog = catalog.dup();
    let (run, step) = begin_change(
        &f.subscriptions,
        &f.state,
        &facts(&["/d/old.yaml", "/d/new.yaml"]),
        catalog.dup(),
        "new",
        false,
        false,
    );
    assert!(matches!(step, ChangeStep::Prepare { .. }));
    assert!(!run.can_end(&Vec::new()), "it has only begun");

    let mut run = run;
    let mut read = NameMap::new();
    read.insert(
        "/d/new.yaml".to_string(),
        FileText::Text(one_node_manifest("candidate")),
    );
    change_next(
        &mut run,
        ChangeEvent::Fetched {
            read,
            fetched: Ok(String::new()),
            active_now: "old".to_string(),
        },
    );
    let held = hold_class(&f.class, Vec::new());
    change_next(
        &mut run,
        ChangeEvent::ClassesLocked {
            state: &f.state,
            classes: vec![held],
        },
    );
    // An event that nobody waits for leads nowhere.
    assert!(matches!(
        change_next(&mut run, ChangeEvent::StateSaved(SaveOutcome::Durable)),
        ChangeStep::Try { .. }
    ));
    for event in [
        ChangeEvent::Passed(Ports {
            socks: 1,
            http: 2,
        }),
        ChangeEvent::OnTime,
        ChangeEvent::CacheWritten(Ok(())),
        ChangeEvent::Inspected {
            facts: facts(&["/d/old.yaml", "/d/new.yaml"]),
            state: &f.state,
            now: 100,
        },
        ChangeEvent::StateSaved(SaveOutcome::Durable),
        // Committed is committed.
        ChangeEvent::Overdue,
    ] {
        change_next(&mut run, event);
    }
    f.class.route.generation = 6;
    let moved = vec![f.class];
    assert!(!run.can_end(&moved));
    assert!(!run.can_end(&Vec::new()));
}
