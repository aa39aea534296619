//! Adapters: configurations, workspaces, readiness.

use std::sync::Arc;

use causeway::dataplane::{
    begin_stop, build_singbox_config, build_sslocal_config, child_owns_listeners, describe,
    finish_stop, proxy_env_vars, readiness, wanted_listeners, Adapter, ChildState, DispatchPlane,
    Endpoint, KillOutcome, PortOffer, PortSearch, PortStep, Programs, ReadyStep, SingboxPlane,
    SslocalPlane, StartSpec, StopStep,
};
use causeway::identity::{
    identity_from_instance_name, parse_process_start_time, private_config_name, read_boot_id,
    strict_credential_name, strict_instance_name, valid_boot_id, ProcessIdentity,
};
use causeway::node::{AnytlsNode, Node, ObfsOpts, SsNode};
use causeway::workspace::{
    adapters_dir, allocation_step, definitely_dead, plan_stale_removal, stale_instance,
    AdapterWorkspace, Allocation, CleanupPlan, Creation, Entry, EntryKind, Observed, StalePlan,
    WorkspaceFound, IDENTITY_FILE_NAME,
};

const BOOT: &str = "01234567-89ab-cdef-0123-456789abcdef";

fn socks() -> Endpoint {
    Endpoint::loopback(21001)
}

fn http() -> Endpoint {
    Endpoint::loopback(21002)
}

fn ss_node(plugin: Option<ObfsOpts>) -> SsNode {
    SsNode {
        name: "T".to_string(),
        server: "203.0.113.1".to_string(),
        port: 12022,
        cipher: "aes-128-gcm".to_string(),
        password: "pw".to_string(),
        plugin,
    }
}

fn obfs() -> Option<ObfsOpts> {
    Some(ObfsOpts {
        mode: "http".to_string(),
        host: Some("cdn.example.com".to_string()),
    })
}

#[test]
fn config_json_injects_plugin_on_both_locals() {
    let node = ss_node(obfs());
    let obfs_bin = "/home/u/.local/share/causeway/bin/obfs-local";
    let cfg = build_sslocal_config(&node, socks(), http(), obfs_bin);
    let locals = cfg["locals"].as_array().unwrap();
    assert_eq!(locals.len(), 2, "still one process with two locals");
    for l in locals {
        assert_eq!(
            l["plugin"].as_str().unwrap(),
            "/home/u/.local/share/causeway/bin/obfs-local",
            "plugin referenced by absolute path"
        );
        assert_eq!(
            l["plugin_opts"].as_str().unwrap(),
            "obfs=http;obfs-host=cdn.example.com",
            "plugin_opts semicolon-string format"
        );
    }
    // Existing fields survive the plugin injection
    assert_eq!(locals[0]["protocol"].as_str().unwrap(), "socks");
    assert_eq!(locals[1]["protocol"].as_str().unwrap(), "http");
    assert_eq!(locals[0]["server_port"].as_u64().unwrap(), 12022);
}

#[test]
fn config_json_omits_plugin_when_node_has_none() {
    let node = ss_node(None);
    // A plugin-free node does not require the plugin binary to exist (any
    // path will do)
    let cfg = build_sslocal_config(&node, socks(), http(), "/nonexistent/obfs-local");
    let locals = cfg["locals"].as_array().unwrap();
    for l in locals {
        assert!(
            l.get("plugin").is_none(),
            "a plugin-free node must not gain a plugin key"
        );
        assert!(l.get("plugin_opts").is_none());
    }
    assert_eq!(locals[0]["local_address"].as_str(), Some("127.0.0.1"));
    assert_eq!(locals[0]["local_port"].as_u64(), Some(21001));
    assert_eq!(locals[1]["local_port"].as_u64(), Some(21002));
    assert_eq!(locals[0]["mode"].as_str(), Some("tcp_only"));
    assert_eq!(locals[0]["method"].as_str(), Some("aes-128-gcm"));
    assert_eq!(locals[0]["password"].as_str(), Some("pw"));
    assert_eq!(locals[0]["server"].as_str(), Some("203.0.113.1"));
}

fn anytls_node(
    sni: Option<&str>,
    alpn: Option<Vec<String>>,
    fingerprint: Option<&str>,
    skip_cert_verify: bool,
) -> AnytlsNode {
    AnytlsNode {
        name: "T".to_string(),
        server: "node.example.com".to_string(),
        port: 443,
        password: "pw".to_string(),
        sni: sni.map(str::to_string),
        alpn,
        client_fingerprint: fingerprint.map(str::to_string),
        skip_cert_verify,
    }
}

fn texts(v: &serde_json::Value) -> Vec<&str> {
    v.as_array()
        .unwrap()
        .iter()
        .map(|x| x.as_str().unwrap())
        .collect()
}

#[test]
fn singbox_config_maps_node_fields() {
    let node = anytls_node(
        Some("cdn.example.com"),
        Some(vec!["h2".to_string()]),
        Some("firefox"),
        true,
    );
    let cfg = build_singbox_config(&node, socks(), http());

    let inbounds = cfg["inbounds"].as_array().unwrap();
    assert_eq!(inbounds.len(), 2, "one process with two inbounds");
    assert_eq!(inbounds[0]["type"].as_str().unwrap(), "socks");
    assert_eq!(inbounds[0]["tag"].as_str().unwrap(), "socks-in");
    assert_eq!(inbounds[0]["listen"].as_str().unwrap(), "127.0.0.1");
    assert_eq!(inbounds[0]["listen_port"].as_u64().unwrap(), 21001);
    assert_eq!(inbounds[1]["type"].as_str().unwrap(), "http");
    assert_eq!(inbounds[1]["listen_port"].as_u64().unwrap(), 21002);

    let out = &cfg["outbounds"][0];
    assert_eq!(out["type"].as_str().unwrap(), "anytls");
    assert_eq!(out["server"].as_str().unwrap(), "node.example.com");
    assert_eq!(out["server_port"].as_u64().unwrap(), 443);
    assert_eq!(out["password"].as_str().unwrap(), "pw");
    let tls = &out["tls"];
    assert!(tls["enabled"].as_bool().unwrap());
    assert_eq!(tls["server_name"].as_str().unwrap(), "cdn.example.com");
    assert_eq!(texts(&tls["alpn"]), ["h2"]);
    assert!(tls["insecure"].as_bool().unwrap());
    assert!(tls["utls"]["enabled"].as_bool().unwrap());
    assert_eq!(tls["utls"]["fingerprint"].as_str().unwrap(), "firefox");
    assert!(cfg.get("dns").is_none());
    assert_eq!(cfg["route"]["auto_detect_interface"], false);
    assert_eq!(cfg["route"]["final"], "out");
    assert!(inbounds.iter().all(|inbound| inbound["type"] != "tun"));
}

#[test]
fn singbox_config_defaults_when_optional_fields_absent() {
    let node = anytls_node(None, None, None, false);
    let cfg = build_singbox_config(&node, socks(), http());
    let tls = &cfg["outbounds"][0]["tls"];
    assert!(
        tls.get("server_name").is_none(),
        "no sni → server_name omitted"
    );
    assert!(
        tls.get("insecure").is_none(),
        "skip_cert_verify=false → insecure omitted"
    );
    assert_eq!(texts(&tls["alpn"]), ["h2", "http/1.1"], "default ALPN list");
    assert_eq!(
        tls["utls"]["fingerprint"].as_str().unwrap(),
        "chrome",
        "default fingerprint"
    );
    let mut members: Vec<&String> = cfg.as_object().unwrap().keys().collect();
    members.sort();
    assert_eq!(members, ["inbounds", "log", "outbounds", "route"]);
}

fn identity(boot_id: &str, pid: u32, start_time: u64) -> ProcessIdentity {
    ProcessIdentity {
        boot_id: boot_id.to_string(),
        pid,
        start_time,
    }
}

fn file(name: &str) -> Entry {
    Entry {
        name: Some(name.to_string()),
        kind: EntryKind::Regular,
    }
}

const CREDENTIAL: &str = "sslocal-123-0000000000000001.json";

#[test]
fn crash_stale_workspace_is_removed_but_legacy_root_file_is_preserved() {
    let stale = identity(BOOT, 4294967295, 1);
    let name = strict_instance_name(&stale, "11111111111111111111111111111111");
    let marker = stale.encode();
    let owner = stale_instance(&name, marker.len() as u64, Some(&marker)).unwrap();
    assert!(definitely_dead(&owner, BOOT, Observed::Gone));
    assert_eq!(
        plan_stale_removal(&vec![file(IDENTITY_FILE_NAME), file(CREDENTIAL)]),
        StalePlan::Remove(vec![CREDENTIAL.to_string()])
    );
    // A file of the shared root is no instance at all.
    assert!(stale_instance("sslocal-123-456.json", 10, Some(&marker)).is_none());
}

#[test]
fn live_workspace_and_malformed_stale_workspace_are_preserved() {
    let live = identity(BOOT, 77, 12345);
    assert!(
        !definitely_dead(&live, BOOT, Observed::Started(12345)),
        "matching live process identity is preserved"
    );
    assert!(!definitely_dead(&live, BOOT, Observed::Unknown));
    assert!(definitely_dead(&live, BOOT, Observed::Started(9)));
    assert!(definitely_dead(
        &live,
        "00000000-0000-0000-0000-000000000000",
        Observed::Started(12345)
    ));
    assert_eq!(
        plan_stale_removal(&vec![file(IDENTITY_FILE_NAME), file("unexpected")]),
        StalePlan::Preserve,
        "unexpected contents make stale cleanup fail-safe"
    );
}

#[test]
fn stale_cleanup_refuses_symlink_entries() {
    let link = Entry {
        name: Some(CREDENTIAL.to_string()),
        kind: EntryKind::Other,
    };
    assert_eq!(
        plan_stale_removal(&vec![file(IDENTITY_FILE_NAME), link]),
        StalePlan::Preserve,
        "symlink makes the whole instance fail-safe"
    );
    let unreadable = Entry {
        name: Some(CREDENTIAL.to_string()),
        kind: EntryKind::Unreadable("denied".to_string()),
    };
    assert_eq!(
        plan_stale_removal(&vec![unreadable]),
        StalePlan::Failed("denied".to_string())
    );
    assert_eq!(
        plan_stale_removal(&vec![file(CREDENTIAL)]),
        StalePlan::Preserve,
        "without a marker nothing is removed"
    );
}

#[test]
fn normal_workspace_cleanup_removes_only_owned_instance() {
    let own = identity(BOOT, 42, 7);
    let nonce = "44444444444444444444444444444444";
    let workspace = AdapterWorkspace::create("/d/run", &own, nonce);
    let dir = format!("/d/run/adapters/causeway-instance-v1-{BOOT}-42-7-{nonce}");
    assert_eq!(workspace.path(), dir);
    assert_eq!(workspace.identity_path(), format!("{dir}/identity-v1"));
    assert_eq!(adapters_dir("/d/run"), "/d/run/adapters");
    assert_eq!(
        workspace.cleanup(
            false,
            WorkspaceFound::Directory(vec![file(IDENTITY_FILE_NAME), file(CREDENTIAL)])
        ),
        CleanupPlan::Remove(vec![
            format!("{dir}/identity-v1"),
            format!("{dir}/{CREDENTIAL}")
        ])
    );
    assert_eq!(
        workspace.cleanup(true, WorkspaceFound::NotDirectory),
        CleanupPlan::Done
    );
    assert_eq!(
        workspace.cleanup(false, WorkspaceFound::Missing),
        CleanupPlan::Done
    );
    let refused = |found| match workspace.cleanup(false, found) {
        CleanupPlan::Refuse(why) => why,
        other => panic!("expected a refusal, got {other:?}"),
    };
    assert!(refused(WorkspaceFound::NotDirectory).contains("no longer a real directory"));
    assert!(refused(WorkspaceFound::Unreadable("x".into())).ends_with(": x"));
    assert!(refused(WorkspaceFound::Unlistable("x".into())).contains(&dir));
    assert!(refused(WorkspaceFound::Directory(vec![file(CREDENTIAL)]))
        .contains("marker disappeared"));
    assert!(
        refused(WorkspaceFound::Directory(vec![file("stranger")])).contains("unexpected contents")
    );
    assert!(refused(WorkspaceFound::Directory(vec![Entry {
        name: None,
        kind: EntryKind::Regular
    }]))
    .contains("non-UTF-8"));
    assert!(refused(WorkspaceFound::Directory(vec![Entry {
        name: Some(IDENTITY_FILE_NAME.to_string()),
        kind: EntryKind::Other
    }]))
    .contains("non-regular"));
}

#[test]
fn adapter_commands_remove_every_proxy_environment_spelling() {
    let mut command = tokio::process::Command::new("adapter-fixture");
    for name in proxy_env_vars() {
        command.env(name, "http://127.0.0.1:1");
    }
    for name in proxy_env_vars() {
        command.env_remove(name);
    }
    let mutations: std::collections::BTreeMap<String, Option<String>> = command
        .as_std()
        .get_envs()
        .map(|(name, value)| {
            (
                name.to_string_lossy().into_owned(),
                value.map(|value| value.to_string_lossy().into_owned()),
            )
        })
        .collect();
    for name in proxy_env_vars() {
        assert_eq!(mutations.get(&name), Some(&None), "{name} must be removed");
    }
}

#[test]
fn adapters_start_without_proxy_variables() {
    assert_eq!(
        proxy_env_vars(),
        [
            "HTTP_PROXY",
            "HTTPS_PROXY",
            "ALL_PROXY",
            "NO_PROXY",
            "http_proxy",
            "https_proxy",
            "all_proxy",
            "no_proxy"
        ]
    );
}

#[test]
fn markers_and_instance_names_round_trip() {
    let id = identity(BOOT, 4294967295, u64::MAX);
    assert_eq!(
        id.encode(),
        format!("schema=1\nboot_id={BOOT}\npid=4294967295\nstart_time={}\n", u64::MAX)
    );
    assert_eq!(ProcessIdentity::parse(&id.encode()), Some(identity(BOOT, 4294967295, u64::MAX)));
    for bad in [
        String::new(),
        id.encode().replace("schema=1", "schema=2"),
        id.encode() + "\n",
        id.encode().replace("pid=", "pid=+"),
        id.encode().replace("pid=4", "pid=04"),
        id.encode().replace('\n', "\r\n"),
        id.encode().to_uppercase(),
        id.encode().replace("4294967295", "4294967296"),
    ] {
        assert_eq!(ProcessIdentity::parse(&bad), None, "{bad:?}");
    }
    let nonce = "0123456789abcdef0123456789abcdef";
    let name = strict_instance_name(&id, nonce);
    assert_eq!(identity_from_instance_name(&name), Some(identity(BOOT, 4294967295, u64::MAX)));
    for bad in [
        name.replace("causeway-", "other-"),
        name.clone() + "0",
        name.replace(nonce, &nonce.to_uppercase()),
        name.replace("-4294967295-", "-04294967295-"),
        name.clone() + "-0",
        "causeway-instance-v1-".to_string(),
    ] {
        assert_eq!(identity_from_instance_name(&bad), None, "{bad:?}");
    }
}

#[test]
fn stale_instances_need_an_agreeing_marker_of_moderate_size() {
    let id = identity(BOOT, 5, 6);
    let name = strict_instance_name(&id, "11111111111111111111111111111111");
    let marker = id.encode();
    assert!(stale_instance(&name, 513, Some(&marker)).is_none());
    assert!(stale_instance(&name, 512, Some(&marker)).is_some());
    assert!(stale_instance(&name, 10, None).is_none());
    let other = identity(BOOT, 6, 6).encode();
    assert!(stale_instance(&name, 10, Some(&other)).is_none());
}

#[test]
fn boot_ids_and_start_times_are_read_from_proc() {
    assert!(valid_boot_id(BOOT));
    assert!(!valid_boot_id(&BOOT.to_uppercase()));
    assert!(!valid_boot_id("short"));
    assert_eq!(
        read_boot_id(&format!("{}\n", BOOT.to_uppercase())).as_deref(),
        Some(BOOT)
    );
    assert_eq!(read_boot_id("garbage"), None);
    let stat = "42 (odd ) name) S 1 2 3 4 5 6 7 8 9 10 11 12 13 14 15 16 17 18 987654 20 21";
    assert_eq!(parse_process_start_time(stat), Some(987654));
    assert_eq!(parse_process_start_time("42 no brackets"), None);
    assert_eq!(parse_process_start_time("42 (x) S 1 2"), None);
}

#[test]
fn credential_names_are_strict() {
    assert_eq!(
        private_config_name("sslocal", 123, 0x2a),
        "sslocal-123-000000000000002a.json"
    );
    assert!(strict_credential_name(&private_config_name("singbox", 1, u64::MAX)));
    assert!(strict_credential_name(CREDENTIAL));
    for bad in [
        "sslocal-123-000000000000001.json",
        "sslocal-0123-0000000000000001.json",
        "sslocal-+123-0000000000000001.json",
        "sslocal-4294967296-0000000000000001.json",
        "sslocal-123-000000000000000A.json",
        "other-123-0000000000000001.json",
        "sslocal-123-0000000000000001.json.tmp",
        "sslocal--0000000000000001.json",
        "identity-v1",
    ] {
        assert!(!strict_credential_name(bad), "{bad}");
    }
}

#[test]
fn names_that_are_taken_are_tried_again() {
    assert_eq!(allocation_step(1, 2, Creation::Created), Allocation::Owned);
    assert_eq!(
        allocation_step(1, 2, Creation::AlreadyThere),
        Allocation::Again
    );
    assert_eq!(
        allocation_step(2, 2, Creation::AlreadyThere),
        Allocation::Exhausted
    );
    assert_eq!(
        allocation_step(1, 2, Creation::Failed("full".into())),
        Allocation::Failed("full".to_string())
    );
}

#[test]
fn reserved_adapter_ports_are_distinct_and_held() {
    let mut search = PortSearch::new();
    assert_eq!(
        search.offer(PortOffer::Bound(socks(), socks())),
        PortStep::Again
    );
    match search.offer(PortOffer::Bound(socks(), http())) {
        PortStep::Reserved(pair) => {
            assert_ne!(pair.socks_addr(), pair.http_addr());
            assert_eq!(pair.release(), (socks(), http()));
        }
        other => panic!("two distinct ports are a reservation, got {other:?}"),
    }
}

#[test]
fn the_port_search_gives_up_with_the_last_reason() {
    let mut search = PortSearch::new();
    for _ in 0..7 {
        assert_eq!(
            search.offer(PortOffer::Unbound("in use".into())),
            PortStep::Again
        );
    }
    assert_eq!(
        search.offer(PortOffer::Bound(http(), http())),
        PortStep::Failed("reserve two distinct loopback adapter ports: in use".to_string())
    );
    assert_eq!(
        PortSearch::new().offer(PortOffer::Unnamed("no address".into())),
        PortStep::Failed("no address".to_string())
    );
}

fn reserved() -> causeway::dataplane::LoopbackPortPair {
    match PortSearch::new().offer(PortOffer::Bound(socks(), http())) {
        PortStep::Reserved(pair) => pair,
        other => panic!("{other:?}"),
    }
}

fn plane() -> DispatchPlane {
    let workspace = Arc::new(AdapterWorkspace::create(
        "/d/run",
        &identity(BOOT, 1, 2),
        "11111111111111111111111111111111",
    ));
    DispatchPlane::new(
        SslocalPlane::new(
            "/bin/sslocal".to_string(),
            Arc::clone(&workspace),
            "/bin/obfs-local".to_string(),
        ),
        SingboxPlane::new("/bin/sing-box".to_string(), Arc::clone(&workspace)),
        workspace,
    )
}

const ALL: Programs = Programs {
    sslocal: true,
    obfs_plugin: true,
    singbox: true,
};

#[test]
fn starts_go_to_the_adapter_of_the_protocol() {
    let plane = plane();
    let spec = StartSpec::reserve(Node::Ss(ss_node(obfs())), reserved());
    assert_eq!((spec.socks_addr(), spec.http_addr()), (socks(), http()));
    let plan = plane.start(&spec, ALL).unwrap();
    assert_eq!(plan.adapter, Adapter::Sslocal);
    assert_eq!(plan.bin, "/bin/sslocal");
    assert_eq!(plan.arguments, ["-c"]);
    let written: serde_json::Value = serde_json::from_slice(&plan.config).unwrap();
    assert_eq!(
        written,
        build_sslocal_config(&ss_node(obfs()), socks(), http(), "/bin/obfs-local")
    );
    assert!(
        plan.config.contains(&b'\n'),
        "the configuration is pretty-printed"
    );

    let node = anytls_node(None, None, None, false);
    let spec = StartSpec::reserve(
        Node::Anytls(anytls_node(None, None, None, false)),
        reserved(),
    );
    let plan = plane.start(&spec, ALL).unwrap();
    assert_eq!(plan.adapter, Adapter::Singbox);
    assert_eq!(plan.arguments, ["run", "-c"]);
    let written: serde_json::Value = serde_json::from_slice(&plan.config).unwrap();
    assert_eq!(written, build_singbox_config(&node, socks(), http()));
    assert_eq!(plane.workspace().path(), plane.workspace().path());
    assert_eq!(Adapter::Singbox.config_prefix(), "singbox");
}

#[test]
fn missing_programs_refuse_the_start() {
    let plane = plane();
    let with_plugin = StartSpec::reserve(Node::Ss(ss_node(obfs())), reserved());
    let plain = StartSpec::reserve(Node::Ss(ss_node(None)), reserved());
    let anytls = StartSpec::reserve(
        Node::Anytls(anytls_node(None, None, None, false)),
        reserved(),
    );
    let none = Programs {
        sslocal: false,
        obfs_plugin: false,
        singbox: false,
    };
    assert_eq!(
        plane.start(&plain, none).unwrap_err().message(),
        "sslocal does not exist: /bin/sslocal (run scripts/install-dataplane.sh first)"
    );
    assert_eq!(
        plane.start(&anytls, none).unwrap_err().message(),
        "sing-box does not exist: /bin/sing-box (set singbox_bin in the config)"
    );
    let no_plugin = Programs {
        obfs_plugin: false,
        ..ALL
    };
    assert!(plane.start(&plain, no_plugin).is_ok());
    assert_eq!(
        plane.start(&with_plugin, no_plugin).unwrap_err().message(),
        "node T requires the simple-obfs plugin, but the binary does not exist: /bin/obfs-local (run scripts/install-plugin.sh first)"
    );
    assert_eq!(
        plane.ss().start(&anytls, true, true).unwrap_err().message(),
        "sslocal plane only serves ss nodes (got anytls)"
    );
    assert_eq!(
        plane.singbox().start(&plain, true).unwrap_err().message(),
        "sing-box plane only serves anytls nodes (got ss)"
    );
}

#[test]
fn readiness_ends_with_the_ports_or_with_a_reason() {
    let step = |ready, child, timed_out| readiness(Adapter::Sslocal, "N", ready, child, timed_out);
    assert_eq!(
        step(Ok(true), ChildState::Running, true),
        ReadyStep::Ready
    );
    assert_eq!(step(Ok(false), ChildState::Running, false), ReadyStep::Wait);
    assert_eq!(
        step(Ok(false), ChildState::Running, true),
        ReadyStep::Failed("sslocal port readiness timed out (10s)".to_string())
    );
    assert_eq!(
        step(Err("denied".into()), ChildState::Running, false),
        ReadyStep::Failed("verify sslocal listener ownership: denied".to_string())
    );
    assert_eq!(
        step(Ok(false), ChildState::Exited("exit status: 1".into()), false),
        ReadyStep::Failed("sslocal exited immediately after start (exit status: 1), node N (check whether the cipher/password is supported)".to_string())
    );
    assert_eq!(
        readiness(
            Adapter::Singbox,
            "N",
            Ok(false),
            ChildState::Unknown("gone".into()),
            false
        ),
        ReadyStep::Failed("query sing-box during readiness: gone".to_string())
    );
}

#[test]
fn ownership_check_matches_procfs_address_format() {
    let word = u32::from_ne_bytes([127, 0, 0, 1]);
    let wanted = wanted_listeners(word, 21001, 21002);
    let le = "0100007F:5209";
    if cfg_little() {
        assert_eq!(wanted[0], le);
    }
    let row = |at: &str, state: &str, inode: &str| {
        format!("   0: {at} 00000000:0000 {state} 00000000:00000000 00:00000000 00000000  1000        0 {inode} 1 0000000000000000 100 0 0 10 0\n")
    };
    let heading = "  sl  local_address rem_address   st tx_queue rx_queue tr tm->when retrnsmt   uid  timeout inode\n";
    let table = format!(
        "{heading}{}{}{}",
        row(&wanted[0], "0A", "111"),
        row(&wanted[1], "0A", "222"),
        row(&wanted[1], "01", "333"),
    );
    let links = |inodes: &[&str]| -> Vec<String> {
        let mut v: Vec<String> = inodes.iter().map(|i| format!("socket:[{i}]")).collect();
        v.push("/dev/null".to_string());
        v
    };
    assert!(child_owns_listeners(&table, &wanted, &links(&["111", "222"])));
    assert!(!child_owns_listeners(&table, &wanted, &links(&["111"])));
    assert!(!child_owns_listeners(
        &format!("{heading}{}", row(&wanted[0], "0A", "111")),
        &wanted,
        &links(&["111", "222"])
    ));
    assert!(!child_owns_listeners("", &wanted, &links(&["111", "222"])));
}

fn cfg_little() -> bool {
    1u16.to_ne_bytes() == [1, 0]
}

#[test]
fn running_adapters_are_described_and_stopped() {
    assert_eq!(
        describe(Adapter::Singbox, "N", 1, 2, Some(42)),
        "sing-box[N] socks=1 http=2 pid=Some(42)"
    );
    assert_eq!(
        describe(Adapter::Sslocal, "N", 1, 2, None),
        "sslocal[N] socks=1 http=2 pid=None"
    );
    assert_eq!(
        begin_stop(Adapter::Sslocal, ChildState::Exited("0".into())),
        StopStep::Stopped
    );
    assert_eq!(
        begin_stop(Adapter::Sslocal, ChildState::Running),
        StopStep::Kill
    );
    assert_eq!(
        begin_stop(Adapter::Sslocal, ChildState::Unknown("x".into())),
        StopStep::Failed("query sslocal status: x".to_string())
    );
    assert_eq!(finish_stop(Adapter::Singbox, KillOutcome::Exited), None);
    assert_eq!(
        finish_stop(Adapter::Singbox, KillOutcome::StillRunning).as_deref(),
        Some("owned sing-box process did not exit within 3s after KILL")
    );
    assert_eq!(
        finish_stop(Adapter::Singbox, KillOutcome::NotKilled("x".into())).as_deref(),
        Some("kill owned sing-box process: x")
    );
    assert_eq!(
        finish_stop(Adapter::Singbox, KillOutcome::NotAwaited("x".into())).as_deref(),
        Some("wait for killed sing-box: x")
    );
}
