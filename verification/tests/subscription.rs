//! Manifests, profiles and cache generations.

use causeway::config::SubscriptionProfileConfig;
use causeway::manifest::{parse_str, ManifestError};
use causeway::names::NameMap;
use causeway::node::{AnytlsNode, Node, ObfsOpts, SsNode};
use causeway::subscription::{
    cache_next, cache_slot_path, cache_temporary, escape_curl_config, fetch_target,
    fetcher_arguments, fetcher_config, judge_fetch, load_all, load_profile_snapshot_from_slot,
    parse_file, prepare_profile, prepare_remote, secret_url, snapshot_paths, CacheProgress,
    CacheStep, FetchEnd, FileText, PrepareFault, SecretMeta, SubscriptionFault, CACHE_SLOT_A,
    CACHE_SLOT_B,
};

fn as_ss(n: &Node) -> &SsNode {
    match n {
        Node::Ss(n) => n,
        other => panic!("expected an ss node, got {}", other.kind()),
    }
}

fn as_anytls(n: &Node) -> &AnytlsNode {
    match n {
        Node::Anytls(n) => n,
        other => panic!("expected an anytls node, got {}", other.kind()),
    }
}

fn one_node_manifest(name: &str) -> String {
    format!(
        "proxies:\n  - name: {name:?}\n    type: ss\n    server: 203.0.113.10\n    port: 8388\n    cipher: aes-256-gcm\n    password: pass\n"
    )
}

const FIXTURE: &str = r#"
mixed-port: 7890
proxies:
  - name: "Node A"
    type: ss
    server: 203.0.113.10
    port: 8388
    cipher: aes-256-gcm
    password: "pass-a"
  - name: "Node B (numeric password)"
    type: ss
    server: 203.0.113.11
    port: "8389"
    cipher: chacha20-ietf-poly1305
    password: 12345678
  - name: "Node C"
    type: anytls
    server: anytls.example.com
    port: 443
    password: "pass-c"
    sni: "cdn.example.com"
    client-fingerprint: chrome
    alpn: ["h2", "http/1.1"]
    skip-cert-verify: true
    udp: true
  - name: "Trojan dropped"
    type: trojan
    server: 198.51.100.6
    port: 443
    password: x
  - name: "Broken SS missing cipher"
    type: ss
    server: 203.0.113.12
    port: 8388
    password: y
  - name: "Broken AnyTLS missing password"
    type: anytls
    server: 198.51.100.7
    port: 443
  - name: "Node A"
    type: anytls
    server: 198.51.100.99
    port: 443
    password: "dup"
proxy-groups:
  - name: PROXY
    type: select
rules:
  - MATCH,PROXY
"#;

#[test]
fn parses_ss_and_anytls_entries() {
    let nodes = parse_str(FIXTURE).unwrap();
    assert_eq!(
        nodes.len(),
        3,
        "2 valid ss + 1 valid anytls, non-duplicate nodes"
    );
    let a = as_ss(&nodes[0]);
    assert_eq!(a.name, "Node A");
    assert_eq!(a.server, "203.0.113.10");
    assert_eq!(a.port, 8388);
    assert_eq!(a.cipher, "aes-256-gcm");
    assert_eq!(a.password, "pass-a");
}

#[test]
fn numeric_password_and_string_port_coerced() {
    let nodes = parse_str(FIXTURE).unwrap();
    let b = as_ss(&nodes[1]);
    assert_eq!(
        b.password, "12345678",
        "numeric password preserved as string"
    );
    assert_eq!(b.port, 8389, "quoted port parsed as number");
}

#[test]
fn anytls_optional_fields_parsed() {
    let nodes = parse_str(FIXTURE).unwrap();
    let c = as_anytls(&nodes[2]);
    assert_eq!(c.name, "Node C");
    assert_eq!(c.server, "anytls.example.com");
    assert_eq!(c.port, 443);
    assert_eq!(c.password, "pass-c");
    assert_eq!(c.sni.as_deref(), Some("cdn.example.com"));
    assert_eq!(c.client_fingerprint.as_deref(), Some("chrome"));
    assert_eq!(
        c.alpn.as_deref(),
        Some(&["h2".to_string(), "http/1.1".to_string()][..])
    );
    assert!(c.skip_cert_verify);
}

#[test]
fn anytls_minimal_entry_gets_defaults() {
    let text = r#"
proxies:
  - name: "Minimal AnyTLS"
    type: anytls
    server: 198.51.100.20
    port: 8443
    password: 987654321
"#;
    let nodes = parse_str(text).unwrap();
    assert_eq!(nodes.len(), 1);
    let n = as_anytls(&nodes[0]);
    assert_eq!(
        n.password, "987654321",
        "numeric password preserved as string"
    );
    assert!(n.sni.is_none());
    assert!(n.alpn.is_none());
    assert!(n.client_fingerprint.is_none());
    assert!(!n.skip_cert_verify);
}

#[test]
fn unsupported_and_broken_entries_dropped() {
    let nodes = parse_str(FIXTURE).unwrap();
    assert!(nodes.iter().all(|n| !n.name().contains("dropped")));
    assert!(nodes.iter().all(|n| !n.name().contains("Broken")));
    // For duplicate "Node A" the first one wins, across protocols too
    assert_eq!(nodes.iter().filter(|n| n.name() == "Node A").count(), 1);
    assert_eq!(nodes[0].server(), "203.0.113.10");
}

#[test]
fn empty_or_missing_proxies_is_ok() {
    assert!(parse_str("rules:\n  - MATCH,DIRECT\n").unwrap().is_empty());
    assert!(parse_str("proxies: []\n").unwrap().is_empty());
}

#[test]
fn garbage_yaml_errors() {
    assert!(parse_str("proxies: [ {unclosed").is_err());
}

#[test]
fn manifest_errors_tell_syntax_from_shape() {
    assert_eq!(
        parse_str("proxies: [ {unclosed").err(),
        Some(ManifestError::Syntax)
    );
    assert_eq!(
        parse_str("- just\n- a list\n").err(),
        Some(ManifestError::Shape)
    );
    // An entry that is no proxy does not sink the others.
    let text = format!("{}  - 17\n", one_node_manifest("Only"));
    assert_eq!(parse_str(&text).unwrap().len(), 1);
}

const FIXTURE_PLUGINS: &str = r#"
proxies:
  - name: "Obfs Node"
    type: ss
    server: 203.0.113.20
    port: 12022
    cipher: aes-128-gcm
    password: "pass-obfs"
    plugin: obfs
    plugin-opts: {mode: http, host: cdn.example.com}
    udp: true
  - name: "Plain Node"
    type: ss
    server: 203.0.113.21
    port: 8388
    cipher: aes-256-gcm
    password: "pass-plain"
  - name: "Unknown Plugin Node"
    type: ss
    server: 203.0.113.22
    port: 8388
    cipher: aes-256-gcm
    password: "pass-x"
    plugin: v2ray-plugin
    plugin-opts: {mode: websocket}
  - name: "Obfs Missing Opts"
    type: ss
    server: 203.0.113.23
    port: 8388
    cipher: aes-256-gcm
    password: "pass-y"
    plugin: obfs
"#;

#[test]
fn obfs_plugin_parsed_into_node() {
    let nodes = parse_str(FIXTURE_PLUGINS).unwrap();
    assert_eq!(
        nodes.len(),
        2,
        "unknown plugin types and obfs entries missing opts must be skipped"
    );
    let obfs_node = as_ss(&nodes[0]);
    assert_eq!(obfs_node.name, "Obfs Node");
    let plugin = obfs_node
        .plugin
        .as_ref()
        .expect("plugin parameters should be parsed");
    assert_eq!(plugin.mode, "http");
    assert_eq!(plugin.host.as_deref(), Some("cdn.example.com"));
    assert_eq!(
        plugin.to_plugin_opts(),
        "obfs=http;obfs-host=cdn.example.com",
        "sslocal plugin_opts string format"
    );
}

#[test]
fn plain_node_has_no_plugin() {
    let nodes = parse_str(FIXTURE_PLUGINS).unwrap();
    assert!(
        as_ss(&nodes[1]).plugin.is_none(),
        "plugin-free nodes stay backward compatible"
    );
}

#[test]
fn unknown_plugin_type_skipped_not_bare() {
    let nodes = parse_str(FIXTURE_PLUGINS).unwrap();
    assert!(
        nodes.iter().all(|n| n.name() != "Unknown Plugin Node"),
        "unknown plugin types must be skipped explicitly, never silently connected plain"
    );
}

#[test]
fn plugin_opts_string_without_host() {
    let opts = ObfsOpts {
        mode: "tls".to_string(),
        host: None,
    };
    assert_eq!(opts.to_plugin_opts(), "obfs=tls");
}

fn files(pairs: &[(&str, &str)]) -> NameMap<FileText<String>> {
    let mut m = NameMap::new();
    for (path, text) in pairs {
        m.insert(path.to_string(), FileText::Text(text.to_string()));
    }
    m
}

fn names(nodes: &[Node]) -> Vec<&str> {
    nodes.iter().map(|n| n.name()).collect()
}

#[test]
fn local_profile_loads_only_its_own_files() {
    let read = files(&[
        ("/d/a.yaml", &one_node_manifest("A")),
        ("/d/b.yaml", &one_node_manifest("B")),
        ("/d/outside.yaml", &one_node_manifest("Outside")),
    ]);
    let profile = SubscriptionProfileConfig {
        files: vec!["/d/a.yaml".to_string(), "/d/b.yaml".to_string()],
        url_file: None,
        cache_file: None,
    };
    let nodes = load_profile_snapshot_from_slot(&profile, None, &read);
    assert_eq!(names(&nodes), ["A", "B"]);
}

fn remote_profile() -> SubscriptionProfileConfig {
    SubscriptionProfileConfig {
        files: Vec::new(),
        url_file: Some("/d/remote.url".to_string()),
        cache_file: Some("/d/cache.yaml".to_string()),
    }
}

#[test]
fn oversized_fetcher_response_is_killed_and_reaped() {
    let received = "response-larger-than-limit".len() as u64;
    let error = judge_fetch(received, 8, FetchEnd::Success, None).unwrap_err();
    assert!(matches!(error, SubscriptionFault::TooLarge { limit: 8 }));
    assert_eq!(
        error.message(),
        "remote subscription exceeds the 8 byte safety limit"
    );
}

#[test]
fn successful_fetcher_is_waited_and_reaped_without_cleanup_kill() {
    let body = "fixture-response".to_string();
    let response =
        judge_fetch(body.len() as u64, 64, FetchEnd::Success, Some(body)).unwrap();
    assert_eq!(response, "fixture-response");
}

#[test]
fn every_way_a_fetch_can_fail_is_told() {
    assert_eq!(
        judge_fetch(0, 64, FetchEnd::WaitFailed("gone".into()), None),
        Err(SubscriptionFault::FetchIo("gone".into()))
    );
    assert_eq!(
        judge_fetch(0, 64, FetchEnd::Failure("exit status: 22".into()), None)
            .unwrap_err()
            .message(),
        "subscription fetch failed: exit status: 22"
    );
    assert_eq!(
        judge_fetch(3, 64, FetchEnd::Success, None)
            .unwrap_err()
            .message(),
        "subscription fetch failed: response was not UTF-8"
    );
}

#[test]
fn remote_prepare_keeps_secret_out_of_argv_and_commits_private_cache() {
    let secret = "https://subscription.example/fixture?credential=secret-marker";
    let meta = SecretMeta {
        regular: true,
        mode: 0o600,
        len: secret.len() as u64,
    };
    let url = secret_url("/d/remote.url", Ok(meta), FileText::Text(secret.to_string())).unwrap();
    assert_eq!(url, secret);
    assert!(fetcher_arguments().iter().all(|a| !a.contains(secret)));
    assert!(fetcher_config(&url).contains(secret));

    let profile = remote_profile();
    assert_eq!(fetch_target(&profile).as_deref(), Some("/d/remote.url"));
    let body = one_node_manifest("Remote");
    let mut prepared = prepare_profile(&profile, &NameMap::new(), Ok(body.clone()))
        .ok()
        .unwrap();
    assert_eq!(prepared.nodes()[0].name(), "Remote");
    assert!(prepared.committed_slot().is_none());
    let (path, bytes) = prepared.pending_write(None).unwrap();
    assert_eq!(path, cache_slot_path("/d/cache.yaml", CACHE_SLOT_A).unwrap());
    assert_eq!(bytes, body.as_bytes());
    assert_eq!(
        prepared.commit_cache_slot(None, Ok(())).unwrap().as_deref(),
        Some(CACHE_SLOT_A)
    );
    let read = files(&[(&path, &body)]);
    assert_eq!(
        load_profile_snapshot_from_slot(&profile, Some(CACHE_SLOT_A), &read)[0].name(),
        "Remote"
    );
}

#[test]
fn cache_slots_alternate_and_only_the_confirmed_slot_is_loaded() {
    let profile = remote_profile();
    let mut disk = NameMap::new();

    let body = one_node_manifest("Generation A");
    let mut first = prepare_remote("/d/cache.yaml", &body).ok().unwrap();
    let (path, bytes) = first.pending_write(None).unwrap();
    disk.insert(
        path,
        FileText::Text(String::from_utf8(bytes.clone()).unwrap()),
    );
    assert_eq!(
        first.commit_cache_slot(None, Ok(())).unwrap().as_deref(),
        Some(CACHE_SLOT_A)
    );

    let body = one_node_manifest("Generation B");
    let mut second = prepare_remote("/d/cache.yaml", &body).ok().unwrap();
    let (path, bytes) = second.pending_write(Some(CACHE_SLOT_A)).unwrap();
    disk.insert(
        path,
        FileText::Text(String::from_utf8(bytes.clone()).unwrap()),
    );
    assert_eq!(
        second
            .commit_cache_slot(Some(CACHE_SLOT_A), Ok(()))
            .unwrap()
            .as_deref(),
        Some(CACHE_SLOT_B)
    );

    assert_eq!(
        load_profile_snapshot_from_slot(&profile, Some(CACHE_SLOT_A), &disk)[0].name(),
        "Generation A",
        "an unconfirmed newer slot must be ignored after a crash"
    );
    assert_eq!(
        load_profile_snapshot_from_slot(&profile, Some(CACHE_SLOT_B), &disk)[0].name(),
        "Generation B"
    );
}

#[test]
fn invalid_confirmed_slot_never_falls_back_to_an_unconfirmed_cache() {
    let profile = remote_profile();
    let read = files(&[("/d/cache.yaml", &one_node_manifest("Legacy"))]);
    assert!(load_profile_snapshot_from_slot(&profile, Some("invalid"), &read).is_empty());
    assert_eq!(
        load_profile_snapshot_from_slot(&profile, None, &read)[0].name(),
        "Legacy"
    );
    assert!(cache_slot_path("/d/cache.yaml", "invalid").is_none());
}

#[test]
fn failed_remote_prepare_preserves_last_known_good_cache_and_redacts_secret() {
    let secret = "https://subscription.example/fixture?credential=never-report-this";
    let profile = remote_profile();
    let read = files(&[("/d/cache.yaml", &one_node_manifest("Last Good"))]);
    let error = prepare_profile(&profile, &read, Ok("not: [valid".to_string()))
        .err()
        .unwrap();
    assert_eq!(error, PrepareFault::Source(SubscriptionFault::RemoteYaml));
    assert!(!error.message().contains(secret));
    assert_eq!(
        load_profile_snapshot_from_slot(&profile, None, &read)[0].name(),
        "Last Good"
    );
}

#[test]
fn non_https_or_public_url_file_is_rejected_without_spawning_fetcher() {
    let private = |len: usize| {
        Ok(SecretMeta {
            regular: true,
            mode: 0o600,
            len: len as u64,
        })
    };
    let plain = "http://subscription.example/not-secure";
    let error = secret_url("/d/u", private(plain.len()), FileText::Text(plain.into())).unwrap_err();
    assert!(matches!(error, SubscriptionFault::InvalidUrlFile { .. }));

    let good = "https://subscription.example/fixture";
    let public = Ok(SecretMeta {
        regular: true,
        mode: 0o644,
        len: good.len() as u64,
    });
    let error = secret_url("/d/u", public, FileText::Text(good.into())).unwrap_err();
    assert!(matches!(error, SubscriptionFault::InvalidUrlFile { .. }));

    let error = secret_url("/d/u", Err("gone".into()), FileText::Text(good.into())).unwrap_err();
    assert_eq!(error.message(), "failed to read subscription file /d/u: gone");
    let blank = "https://subscription.example/with blank";
    assert!(secret_url("/d/u", private(blank.len()), FileText::Text(blank.into())).is_err());
    assert_eq!(
        secret_url(
            "/d/u",
            private(good.len()),
            FileText::Text(format!("{good}\n"))
        ),
        Ok(good.to_string())
    );
}

#[test]
fn prepare_failures_are_told_apart() {
    let none = NameMap::new();
    let mut profile = SubscriptionProfileConfig {
        files: vec!["/d/missing.yaml".to_string()],
        url_file: None,
        cache_file: None,
    };
    assert_eq!(
        prepare_profile(&profile, &none, Ok(String::new())).err(),
        Some(PrepareFault::NoLocalNodes)
    );
    profile.files.clear();
    assert_eq!(
        prepare_profile(&profile, &none, Ok(String::new())).err(),
        Some(PrepareFault::NoUrlFile)
    );
    profile.url_file = Some("/d/u".to_string());
    assert_eq!(
        prepare_profile(&profile, &none, Ok(String::new())).err(),
        Some(PrepareFault::NoCacheFile)
    );
    profile.cache_file = Some("/d/c".to_string());
    assert_eq!(
        prepare_profile(&profile, &none, Ok("proxies: []\n".to_string())).err(),
        Some(PrepareFault::NoRemoteNodes)
    );
    let fault = SubscriptionFault::FetchStart("no curl".to_string());
    assert_eq!(
        prepare_profile(&profile, &none, Err(fault)).err().unwrap().message(),
        "failed to start the subscription fetcher: no curl"
    );
    let mut many = "proxies:\n".to_string();
    for i in 0..20_000 {
        many.push_str(&format!(
            "  - {{name: n{i}, type: ss, server: s, port: 1, cipher: c, password: p}}\n"
        ));
    }
    assert_eq!(
        prepare_remote("/d/c", &many).err(),
        Some(PrepareFault::TooManyNodes)
    );
}

#[test]
fn files_that_fail_are_skipped_and_reported() {
    let mut read = files(&[("/d/a.yaml", &one_node_manifest("A"))]);
    read.insert(
        "/d/b.yaml".to_string(),
        FileText::Unreadable("denied".to_string()),
    );
    read.insert(
        "/d/c.yaml".to_string(),
        FileText::Text("proxies: [ {unclosed".to_string()),
    );
    let paths: Vec<String> = ["/d/b.yaml", "/d/c.yaml", "/d/a.yaml", "/d/a.yaml"]
        .iter()
        .map(|p| p.to_string())
        .collect();
    assert_eq!(names(&load_all(&paths, &read)), ["A"]);
    assert_eq!(
        parse_file("/d/b.yaml", &read).err().unwrap().message(),
        "failed to read subscription file /d/b.yaml: denied"
    );
    assert!(parse_file("/d/c.yaml", &read)
        .err()
        .unwrap()
        .message()
        .starts_with("failed to parse subscription file /d/c.yaml: "));
}

#[test]
fn curl_quoting_escapes_quotes_and_backslashes() {
    assert_eq!(escape_curl_config(r#"a"b\c"#), r#"a\"b\\c"#);
    assert_eq!(escape_curl_config("plain"), "plain");
    assert!(fetcher_config("https://h/\"x\"").contains(r#"https://h/\"x\""#));
    assert_eq!(fetcher_arguments().len(), 20);
}

#[test]
fn a_failed_cache_write_confirms_no_slot() {
    let mut prepared = prepare_remote("/d/cache.yaml", &one_node_manifest("R")).ok().unwrap();
    let fault = SubscriptionFault::Cache {
        path: "/d/cache.yaml".to_string(),
        detail: "full".to_string(),
    };
    let error = prepared.commit_cache_slot(None, Err(fault)).unwrap_err();
    assert_eq!(
        error.message(),
        "failed to update subscription cache /d/cache.yaml: full"
    );
    assert!(prepared.committed_slot().is_none());
    assert_eq!(names(&prepared.into_nodes()), ["R"]);
}

#[test]
fn cache_writes_go_through_a_temporary_file() {
    let tmp = cache_temporary("/d/cache.yaml", 42, 7);
    assert_eq!(tmp, "/d/.causeway-subscription-42-7.tmp");
    let mut step = CacheStep::CreateParent;
    let mut steps = 1;
    loop {
        match cache_next("/d/cache.yaml", &tmp, step, None) {
            CacheProgress::Go(next) => {
                step = next;
                steps += 1;
            }
            CacheProgress::Finished => break,
            CacheProgress::Failed { .. } => panic!("no step failed"),
        }
    }
    assert_eq!(steps, 6);
    match cache_next(
        "/d/cache.yaml",
        &tmp,
        CacheStep::WriteTemporary,
        Some("full".to_string()),
    ) {
        CacheProgress::Failed {
            error,
            remove_temporary,
        } => {
            assert!(remove_temporary);
            assert!(error.message().contains(&tmp));
        }
        _ => panic!("a failed write must fail the update"),
    }
}

#[test]
fn snapshot_paths_follow_the_confirmed_slot() {
    let profile = remote_profile();
    assert_eq!(snapshot_paths(&profile, None), ["/d/cache.yaml"]);
    assert_eq!(
        snapshot_paths(&profile, Some(CACHE_SLOT_B)),
        [cache_slot_path("/d/cache.yaml", CACHE_SLOT_B).unwrap()]
    );
    assert!(snapshot_paths(&profile, Some("invalid")).is_empty());
}

#[test]
fn a_manifest_is_a_mapping_with_scalar_keys_or_empty() {
    for text in ["", "# nothing yet\n", "---\n", "proxies:\n", "1: a\n~: b\n"] {
        assert_eq!(parse_str(text).map(|nodes| nodes.len()), Ok(0), "{text:?}");
    }
    for text in ["null\n", "~\n", "[a, b]: c\nproxies: []\n", "just text\n"] {
        assert_eq!(
            parse_str(text).map(|nodes| nodes.len()),
            Err(ManifestError::Shape),
            "{text:?}"
        );
    }
}
