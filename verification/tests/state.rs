//! Persistent runtime state.

use causeway::names::NameMap;
use causeway::score::NodeStats;
use causeway::siteprobe::{SiteStatus, SiteVerdict};
use causeway::state::{
    document_shape, load, now_unix, save_next, save_parent, save_temporary, ClassState,
    DocumentShape, SaveOutcome, SaveProgress, SaveStep, StateDocument, StateFault, StateFile,
    StateFileV1, StateFileV2, LEGACY_STATE_VERSION, STATE_VERSION,
};
use causeway::subscription::{CACHE_SLOT_A, CACHE_SLOT_B};

const PATH: &str = "/d/state.json";

fn stats(success_ema: f64) -> NodeStats {
    NodeStats {
        success_ema: success_ema.to_bits(),
        rtt_ema_ms: Some(88.5f64.to_bits()),
        recent_rtts_ms: vec![80.0f64.to_bits(), 88.5f64.to_bits(), 95.0f64.to_bits()],
        consecutive_health_failures: 0,
        probe_count: 7,
        last_probe_unix: Some(12300),
    }
}

fn ema(map: &NameMap<NodeStats>, node: &str) -> f64 {
    f64::from_bits(map.get(node).unwrap().success_ema)
}

fn text_map(pairs: &[(&str, &str)]) -> NameMap<String> {
    let mut m = NameMap::new();
    for (k, v) in pairs {
        m.insert(k.to_string(), v.to_string());
    }
    m
}

fn saved(state: &StateFile) -> StateFileV2 {
    match state.to_document() {
        Ok(d) => d,
        Err(e) => panic!("{}", e.message()),
    }
}

fn reloaded(state: &StateFile) -> StateFile {
    match load(PATH, StateDocument::Version2(saved(state))) {
        Ok(Some(s)) => s,
        Ok(None) => panic!("a saved state is there"),
        Err(e) => panic!("{}", e.message()),
    }
}

fn load_error(doc: StateDocument) -> StateFault<String> {
    match load(PATH, doc) {
        Ok(_) => panic!("this document must be refused"),
        Err(e) => e,
    }
}

fn empty_document() -> StateFileV2 {
    StateFileV2 {
        version: 2,
        updated_unix: 1,
        active_subscription: Some("p".to_string()),
        classes: NameMap::new(),
        subscription_nodes: {
            let mut m = NameMap::new();
            m.insert("p".to_string(), NameMap::new());
            m
        },
        subscription_cache_slots: NameMap::new(),
        subscription_source_identities: NameMap::new(),
        pending_subscription_sources: NameMap::new(),
        site_verdicts: NameMap::new(),
    }
}

#[test]
fn version_two_roundtrip_uses_active_flat_view() {
    let mut state = StateFile::default();
    assert!(state.activate_subscription("primary"));
    state.updated_unix = 12345;
    state.classes.insert(
        "dev".to_string(),
        ClassState {
            active_node: Some("Node A".into()),
            socks_port: Some(20001),
            http_port: Some(20002),
            generation: 3,
        },
    );
    state.nodes.insert("Node A".to_string(), stats(0.9));
    state
        .subscription_cache_slots
        .insert("primary".into(), "b".into());

    let raw = saved(&state);
    assert_eq!(raw.active_subscription.as_deref(), Some("primary"));
    assert!(raw
        .subscription_nodes
        .get("primary")
        .unwrap()
        .contains_key("Node A"));

    let loaded = reloaded(&state);
    assert_eq!(loaded.version, STATE_VERSION);
    assert_eq!(loaded.active_subscription.as_deref(), Some("primary"));
    let dev = loaded.classes.get("dev").unwrap();
    assert_eq!(dev.active_node.as_deref(), Some("Node A"));
    assert_eq!(dev.generation, 3);
    assert!((ema(&loaded.nodes, "Node A") - 0.9).abs() < 1e-9);
    assert_eq!(
        loaded
            .subscription_cache_slots
            .get("primary")
            .map(String::as_str),
        Some("b")
    );
}

#[test]
fn same_node_name_is_isolated_between_subscriptions() {
    let mut state = StateFile::default();
    state.activate_subscription("alpha");
    state.nodes.insert("shared".into(), stats(0.9));

    assert!(state.activate_subscription("beta"));
    assert!(state.nodes.is_empty());
    state.nodes.insert("shared".into(), stats(0.2));
    assert_eq!(
        ema(state.nodes_for_subscription("alpha").unwrap(), "shared"),
        0.9
    );

    assert!(state.activate_subscription("alpha"));
    assert_eq!(ema(&state.nodes, "shared"), 0.9);
    assert_eq!(
        ema(state.nodes_for_subscription("beta").unwrap(), "shared"),
        0.2
    );
    assert!(!state.activate_subscription("alpha"));
    assert!(state.nodes_for_subscription("alpha").is_some());
    assert!(state.nodes_for_subscription("beta").is_some());
}

#[test]
fn catalog_change_invalidates_old_source_namespace_and_survives_roundtrip() {
    let mut state = StateFile::default();
    state.activate_subscription("active");
    state.activate_subscription("inactive");
    state.nodes.insert("old-node".into(), stats(0.95));
    state.activate_subscription("active");
    state
        .subscription_cache_slots
        .insert("inactive".into(), CACHE_SLOT_A.into());
    state
        .subscription_source_identities
        .insert("inactive".into(), "old-id".into());
    state
        .subscription_source_identities
        .insert("removed".into(), "removed-id".into());
    state
        .subscription_cache_slots
        .insert("removed".into(), CACHE_SLOT_B.into());

    state.apply_subscription_catalog(
        &text_map(&[
            ("active", "active-id"),
            ("inactive", "old-id"),
            ("removed", "removed-id"),
        ]),
        &text_map(&[("active", "active-id"), ("inactive", "new-id")]),
        Some("active"),
    );

    assert!(state.nodes_for_subscription("inactive").is_none());
    assert!(!state.subscription_cache_slots.contains_key("inactive"));
    assert_eq!(
        state
            .pending_subscription_sources
            .get("inactive")
            .map(String::as_str),
        Some("new-id")
    );
    assert!(!state.source_is_trusted("inactive", "new-id"));
    assert!(!state.subscription_source_identities.contains_key("removed"));
    assert!(!state.subscription_cache_slots.contains_key("removed"));

    let loaded = reloaded(&state);
    assert!(!loaded.source_is_trusted("inactive", "new-id"));
    assert_eq!(
        loaded
            .pending_subscription_sources
            .get("inactive")
            .map(String::as_str),
        Some("new-id")
    );
}

#[test]
fn fresh_publication_trusts_new_source_but_never_restores_old_stats() {
    let mut state = StateFile::default();
    state.activate_subscription("active");
    state.activate_subscription("changed");
    state.nodes.insert("same-name".into(), stats(0.99));
    state.activate_subscription("active");
    let old = text_map(&[("active", "active-id"), ("changed", "old-id")]);
    let next = text_map(&[("active", "active-id"), ("changed", "new-id")]);
    state.apply_subscription_catalog(&old, &next, Some("active"));
    state.apply_subscription_catalog(&next, &next, Some("changed"));
    assert!(state.source_is_trusted("changed", "new-id"));
    assert!(state.nodes_for_subscription("changed").is_none());
}

#[test]
fn identity_less_v2_wire_format_remains_compatible() {
    let mut doc = empty_document();
    doc.subscription_cache_slots = text_map(&[("p", "a")]);
    let loaded = load(PATH, StateDocument::Version2(doc)).ok().unwrap().unwrap();
    assert!(loaded.subscription_source_identities.is_empty());
    assert!(loaded.pending_subscription_sources.is_empty());
}

#[test]
fn version_two_rejects_invalid_cache_slot() {
    let mut doc = empty_document();
    doc.subscription_cache_slots = text_map(&[("p", "causeway-a")]);
    assert!(matches!(
        load_error(StateDocument::Version2(doc)),
        StateFault::InvalidSubscriptionCacheSlot { profile, slot, .. }
            if profile == "p" && slot == "causeway-a"
    ));
}

#[test]
fn startup_rejects_cache_and_stats_from_a_persisted_different_source() {
    let mut state = StateFile::default();
    state.activate_subscription("profile");
    state.nodes.insert("old-node".into(), stats(0.8));
    state
        .subscription_cache_slots
        .insert("profile".into(), CACHE_SLOT_A.into());
    state
        .subscription_source_identities
        .insert("profile".into(), "old-id".into());
    state.reconcile_startup_sources(&text_map(&[("profile", "new-id")]));
    assert!(state.nodes.is_empty());
    assert!(!state.subscription_cache_slots.contains_key("profile"));
    assert!(!state.source_is_trusted("profile", "new-id"));
    assert_eq!(
        state
            .pending_subscription_sources
            .get("profile")
            .map(String::as_str),
        Some("new-id")
    );
}

#[test]
fn active_mutations_are_synchronized_only_in_saved_snapshot() {
    let mut state = StateFile::default();
    state.activate_subscription("alpha");
    state.nodes.insert("node".into(), stats(0.4));
    let _ = saved(&state);
    state.nodes.insert("node".into(), stats(0.8));

    let loaded = reloaded(&state);
    assert_eq!(ema(&loaded.nodes, "node"), 0.8);
    assert_eq!(ema(&state.nodes, "node"), 0.8);
}

#[test]
fn version_one_load_requires_explicit_profile_migration() {
    let mut classes = NameMap::new();
    classes.insert(
        "dev".to_string(),
        ClassState {
            active_node: Some("Node A".to_string()),
            socks_port: Some(20001),
            http_port: Some(20002),
            generation: 3,
        },
    );
    let mut nodes = NameMap::new();
    nodes.insert("Node A".to_string(), stats(0.75));
    let old = StateFileV1 {
        version: 1,
        updated_unix: 12345,
        classes,
        nodes,
    };

    let mut loaded = load(PATH, StateDocument::Version1(old)).ok().unwrap().unwrap();
    assert_eq!(loaded.version, LEGACY_STATE_VERSION);
    assert_eq!(loaded.active_subscription, None);
    assert_eq!(ema(&loaded.nodes, "Node A"), 0.75);
    assert!(matches!(
        loaded.to_document().err(),
        Some(StateFault::NeedsMigration)
    ));

    assert!(loaded.migrate_for_subscription("legacy"));
    assert!(!loaded.migrate_for_subscription("ignored"));
    assert_eq!(loaded.version, STATE_VERSION);
    assert_eq!(loaded.active_subscription.as_deref(), Some("legacy"));

    let migrated = reloaded(&loaded);
    assert_eq!(migrated.active_subscription.as_deref(), Some("legacy"));
    assert_eq!(ema(&migrated.nodes, "Node A"), 0.75);
}

#[test]
fn activate_subscription_also_migrates_version_one() {
    let mut state = StateFile::default();
    state.version = LEGACY_STATE_VERSION;
    state.updated_unix = 1;
    state.nodes.insert("same".into(), stats(0.6));
    assert!(state.activate_subscription("selected"));
    assert_eq!(state.version, STATE_VERSION);
    assert_eq!(state.active_subscription.as_deref(), Some("selected"));
    assert_eq!(ema(&state.nodes, "same"), 0.6);
}

#[test]
fn unbound_nonempty_nodes_are_not_silently_lost() {
    let mut state = StateFile::default();
    state.nodes.insert("orphan".into(), stats(1.0));
    assert!(matches!(
        state.to_document().err(),
        Some(StateFault::UnboundNodes)
    ));
}

#[test]
fn rename_success_with_parent_sync_failure_is_reported_as_committed() {
    let outcome = save_next(
        PATH,
        SaveStep::SyncParent,
        Some("injected directory sync failure".to_string()),
    );
    assert_eq!(
        outcome,
        SaveProgress::Finished(SaveOutcome::CommittedNotDurable)
    );
}

#[test]
fn future_version_is_rejected() {
    assert_eq!(document_shape(99), DocumentShape::Unsupported);
    assert!(matches!(
        load_error(StateDocument::Other(99)),
        StateFault::UnsupportedVersion { version: 99, .. }
    ));
}

#[test]
fn missing_file_is_none() {
    assert!(load(PATH, StateDocument::Missing).ok().unwrap().is_none());
}

#[test]
fn version_two_rejects_missing_active_profile_entry() {
    let mut doc = empty_document();
    doc.active_subscription = Some("missing".to_string());
    doc.subscription_nodes = NameMap::new();
    assert!(matches!(
        load_error(StateDocument::Version2(doc)),
        StateFault::MissingActiveSubscription { active, .. } if active == "missing"
    ));
}

#[test]
fn state_errors_are_spelled_out() {
    assert_eq!(
        load_error(StateDocument::Unreadable("denied".into())).message(),
        "failed to read state file /d/state.json: denied"
    );
    assert_eq!(
        load_error(StateDocument::Malformed("eof".into())).message(),
        "failed to parse state file /d/state.json (delete it and restart to rebuild): eof"
    );
    assert_eq!(
        load_error(StateDocument::Other(99)).message(),
        "unsupported state version 99 in /d/state.json (this build supports versions 1 and 2)"
    );
    let mut doc = empty_document();
    doc.subscription_cache_slots = text_map(&[("p\"q", "x")]);
    assert_eq!(
        load_error(StateDocument::Version2(doc)).message(),
        "state version 2 contains invalid subscription cache slot \"x\" for profile \"p\\\"q\" in /d/state.json"
    );
}

#[test]
fn a_save_goes_through_every_step_before_it_is_durable() {
    let mut step = SaveStep::CreateParent;
    let mut seen = vec![step];
    loop {
        match save_next(PATH, step, None) {
            SaveProgress::Go(next) => {
                step = next;
                seen.push(step);
            }
            SaveProgress::Finished(outcome) => {
                assert_eq!(outcome, SaveOutcome::Durable);
                break;
            }
            SaveProgress::Failed(e) => panic!("{}", e.message()),
        }
    }
    assert_eq!(seen.len(), 7);
    for failing in [
        SaveStep::CreateParent,
        SaveStep::OpenTemporary,
        SaveStep::ProtectTemporary,
        SaveStep::WriteTemporary,
        SaveStep::SyncTemporary,
        SaveStep::Rename,
    ] {
        assert!(matches!(
            save_next(PATH, failing, Some("no".into())),
            SaveProgress::Failed(StateFault::Io { .. })
        ));
    }
    assert_eq!(save_parent(PATH), "/d");
    assert_eq!(save_parent("state.json"), "");
    assert_eq!(save_temporary(PATH), "/d/state.json.tmp");
}

#[test]
fn versions_have_their_shapes() {
    assert_eq!(document_shape(1), DocumentShape::Flat);
    assert_eq!(document_shape(2), DocumentShape::Profiles);
    assert_eq!(document_shape(0), DocumentShape::Unsupported);
    assert_eq!(now_unix(None), 0);
    assert_eq!(now_unix(Some(17)), 17);
}

#[test]
fn startup_keeps_a_confirmed_source_and_adopts_an_unknown_one() {
    let mut state = StateFile::default();
    state.activate_subscription("p");
    state.nodes.insert("n".into(), stats(0.5));
    state.reconcile_startup_sources(&text_map(&[("p", "id")]));
    assert_eq!(ema(&state.nodes, "n"), 0.5);
    assert!(state.source_is_trusted("p", "id"));
    state.reconcile_startup_sources(&text_map(&[("p", "id")]));
    assert_eq!(ema(&state.nodes, "n"), 0.5);
    assert!(state.source_is_trusted("p", "id"));
}

#[test]
fn verdicts_are_recorded_per_site_and_node() {
    let verdict = |code| SiteVerdict {
        status: SiteStatus::Blocked,
        http_status: Some(code),
        checked_unix: 5,
        detail: None,
    };
    let mut state = StateFile::default();
    state.set_verdict("site", "a", verdict(403));
    state.set_verdict("site", "b", verdict(429));
    state.set_verdict("site", "a", verdict(451));
    let m = state.verdicts();
    assert_eq!(m.get("site").unwrap().len(), 2);
    assert_eq!(
        m.get("site").unwrap().get("a").unwrap().http_status,
        Some(451)
    );
}
