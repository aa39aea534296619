//! Configuration: defaults, profiles, validation.

use causeway::config::{
    default_config_path, default_log_dir, default_obfs_plugin_bin, default_singbox_bin,
    default_sslocal_bin, default_state_file, expand_tilde, run_dir, CatalogError, ClassConfig,
    ClassHealth, ClassSelection, Config, FileFact, HealthConfig, IdentityError, IpAddress,
    PathFact, ProbeConfig, RoutingConfig, SelectionConfig, SitesConfig,
    SubscriptionProfileConfig, SubscriptionsConfig, LEGACY_SUBSCRIPTION_NAME,
};
use causeway::names::NameMap;
use causeway::validate::{ConfigError, Problem};

const HOME: &str = "/home/u";

fn home(rest: &str) -> String {
    format!("{HOME}/{rest}")
}

fn class(ip: IpAddress, port: u16, listen: &str) -> ClassConfig {
    ClassConfig {
        listen: listen.to_string(),
        ip,
        port,
        selection: None,
        health: None,
    }
}

fn catalog(files: &[&str], default: Option<&str>) -> SubscriptionsConfig {
    SubscriptionsConfig {
        files: files.iter().map(|f| f.to_string()).collect(),
        default: default.map(str::to_string),
        profiles: NameMap::new(),
    }
}

fn local(files: &[&str]) -> SubscriptionProfileConfig {
    SubscriptionProfileConfig {
        files: files.iter().map(|f| f.to_string()).collect(),
        url_file: None,
        cache_file: None,
    }
}

fn remote(url_file: &str, cache_file: &str) -> SubscriptionProfileConfig {
    SubscriptionProfileConfig {
        files: Vec::new(),
        url_file: Some(url_file.to_string()),
        cache_file: Some(cache_file.to_string()),
    }
}

/// A configuration with one loopback class and defaults everywhere else.
fn config(subscriptions: SubscriptionsConfig) -> Config {
    let mut classes = NameMap::new();
    classes.insert(
        "dev".to_string(),
        class(IpAddress::V4(127, 0, 0, 1), 17878, "127.0.0.1:17878"),
    );
    Config {
        log_dir: default_log_dir(HOME),
        state_file: default_state_file(HOME),
        sslocal_bin: default_sslocal_bin(HOME),
        obfs_plugin_bin: default_obfs_plugin_bin(HOME),
        singbox_bin: default_singbox_bin(HOME),
        subscriptions,
        classes,
        probe: ProbeConfig::default(),
        health: HealthConfig::default(),
        selection: SelectionConfig::default(),
        sites: SitesConfig {
            list: NameMap::new(),
            timeout_ms: 10_000,
            user_agent: "agent".to_string(),
            verdict_ttl_secs: 600,
            max_candidates: 5,
        },
        routing: RoutingConfig {
            direct_hosts: Vec::new(),
        },
    }
}

fn minimal() -> Config {
    config(catalog(&["~/sub.yaml"], None))
}

fn missing(path: &str) -> PathFact {
    PathFact {
        normalized: Some(path.to_string()),
        exists: false,
        file: FileFact::Unreadable,
    }
}

/// Facts of a file system that holds none of the configured paths.
fn nothing_there(cfg: &Config, config_path: Option<&str>) -> NameMap<PathFact> {
    let mut facts = NameMap::new();
    for p in cfg.paths_to_inspect(config_path) {
        let fact = missing(&p);
        facts.insert(p, fact);
    }
    facts
}

fn problem(cfg: &Config) -> ConfigError {
    cfg.validate_at(None, &nothing_there(cfg, None)).unwrap_err()
}

#[test]
fn minimal_config_gets_defaults() {
    let mut cfg = minimal();
    cfg.expand_paths(HOME);
    assert_eq!(cfg.probe.interval_secs, 600);
    assert_eq!(cfg.probe.timeout_ms, 3000);
    assert_eq!(cfg.probe.concurrency, 32);
    assert_eq!(cfg.health.interval_secs, 30);
    assert_eq!(cfg.health.fail_threshold, 3);
    assert_eq!(cfg.health.url, "http://www.gstatic.com/generate_204");
    assert!((f64::from_bits(cfg.selection.hysteresis) - 0.30).abs() < 1e-9);
    assert!((f64::from_bits(cfg.selection.ema_alpha) - 0.3).abs() < 1e-9);
    // ~ expansion
    assert_eq!(cfg.subscriptions.files[0], home("sub.yaml"));
    assert_eq!(cfg.state_file, home(".local/share/causeway/state.json"));
    assert_eq!(
        cfg.obfs_plugin_bin,
        home(".local/share/causeway/bin/obfs-local"),
        "obfs plugin default path"
    );
    assert_eq!(
        cfg.singbox_bin,
        home(".local/share/causeway/bin/sing-box"),
        "sing-box default path"
    );
    assert!(cfg.validate_at(None, &nothing_there(&cfg, None)).is_ok());
}

#[test]
fn non_loopback_listen_rejected() {
    let mut cfg = config(catalog(&["/tmp/x.yaml"], None));
    cfg.classes = NameMap::new();
    cfg.classes.insert(
        "bad".to_string(),
        class(IpAddress::V4(0, 0, 0, 0), 17878, "0.0.0.0:17878"),
    );
    assert_eq!(
        problem(&cfg),
        Problem::NotLoopback {
            class: "bad".to_string(),
            listen: "0.0.0.0:17878".to_string(),
        }
    );
}

#[test]
fn https_health_url_rejected() {
    let mut cfg = config(catalog(&["/tmp/x.yaml"], None));
    cfg.health.url = "https://www.gstatic.com/generate_204".to_string();
    assert_eq!(problem(&cfg), Problem::HealthUrl);
}

#[test]
fn legacy_files_normalize_to_one_default_profile() {
    let cfg = minimal();
    assert_eq!(
        cfg.subscriptions.profile_names(),
        [LEGACY_SUBSCRIPTION_NAME]
    );
    assert_eq!(
        cfg.subscriptions.default_profile_name().unwrap(),
        LEGACY_SUBSCRIPTION_NAME
    );
    let profile = cfg
        .subscriptions
        .profile(LEGACY_SUBSCRIPTION_NAME)
        .expect("legacy profile");
    assert_eq!(profile.files, ["~/sub.yaml"]);
    assert!(profile.url_file.is_none());
    assert!(profile.cache_file.is_none());
}

#[test]
fn named_local_and_remote_profiles_parse_without_mixing() {
    let mut subs = catalog(&[], Some("remote"));
    subs.profiles.insert(
        "local".to_string(),
        local(&["~/local-a.yaml", "~/local-b.yaml"]),
    );
    subs.profiles.insert(
        "remote".to_string(),
        remote(
            "~/.config/causeway/remote.url",
            "~/.local/share/causeway/subscriptions/remote.yaml",
        ),
    );
    let mut cfg = config(subs);
    cfg.expand_paths(HOME);
    assert_eq!(cfg.subscriptions.profile_names(), ["local", "remote"]);
    assert_eq!(cfg.subscriptions.default_profile_name().unwrap(), "remote");
    let local = cfg.subscriptions.profile("local").unwrap();
    assert_eq!(local.files.len(), 2);
    assert!(local.files.iter().all(|p| p.starts_with(HOME)));
    let remote = cfg.subscriptions.profile("remote").unwrap();
    assert!(remote.files.is_empty());
    assert!(remote.url_file.unwrap().starts_with(HOME));
    assert!(remote.cache_file.unwrap().starts_with(HOME));
}

fn facts_for(paths: &[&str]) -> NameMap<PathFact> {
    let mut facts = NameMap::new();
    for p in paths {
        facts.insert(p.to_string(), missing(p));
    }
    facts
}

#[test]
fn source_identity_tracks_paths_without_reading_url_secret() {
    let facts = facts_for(&[
        "/d/provider.url",
        "/d/other.url",
        "/d/cache.yaml",
        "/d/other-cache.yaml",
    ]);
    let profile = remote("/d/provider.url", "/d/cache.yaml");
    let identity = profile.source_identity(&facts).unwrap();
    assert!(identity.starts_with("sha256:"));
    assert!(!identity.contains("secret"));
    assert_eq!(profile.source_identity(&facts).unwrap(), identity);

    let changed_url = remote("/d/other.url", "/d/cache.yaml");
    assert_ne!(changed_url.source_identity(&facts).unwrap(), identity);
    let changed_cache = remote("/d/provider.url", "/d/other-cache.yaml");
    assert_ne!(changed_cache.source_identity(&facts).unwrap(), identity);
}

#[test]
fn source_identities_hash_the_normalized_paths() {
    // The digest is over the normalized source, so an alias of the same file
    // has the same identity, and another kind of source another one.
    let mut facts = facts_for(&["/d/a.yaml"]);
    facts.insert("/alias/a.yaml".to_string(), missing("/d/a.yaml"));
    let direct = local(&["/d/a.yaml"]).source_identity(&facts).unwrap();
    let alias = local(&["/alias/a.yaml"]).source_identity(&facts).unwrap();
    assert_eq!(direct, alias);
    assert_eq!(direct.len(), "sha256:".len() + 64);
    assert!(direct["sha256:".len()..]
        .bytes()
        .all(|b| b.is_ascii_digit() || (b'a'..=b'f').contains(&b)));
    assert_eq!(
        remote("/gone.url", "/d/a.yaml").source_identity(&facts),
        Err(IdentityError::Unresolvable("/gone.url".to_string()))
    );
    let mut half = remote("/d/a.yaml", "/d/a.yaml");
    half.cache_file = None;
    assert_eq!(
        half.source_identity(&facts),
        Err(IdentityError::NoCacheFile)
    );
    half.url_file = None;
    assert_eq!(half.source_identity(&facts), Err(IdentityError::NoUrlFile));
    let subs = catalog(&["/d/a.yaml"], None);
    let all = subs.source_identities(&facts).ok().unwrap();
    assert_eq!(all.get(LEGACY_SUBSCRIPTION_NAME), Some(&direct));
}

#[test]
fn legacy_and_named_profiles_are_mutually_exclusive() {
    let mut subs = catalog(&["/tmp/legacy.yaml"], None);
    subs.profiles
        .insert("named".to_string(), local(&["/tmp/named.yaml"]));
    assert!(problem(&config(subs))
        .message()
        .contains("mutually exclusive"));
}

#[test]
fn multiple_profiles_require_a_known_default() {
    let mut subs = catalog(&[], None);
    subs.profiles
        .insert("a".to_string(), local(&["/tmp/a.yaml"]));
    subs.profiles
        .insert("b".to_string(), local(&["/tmp/b.yaml"]));
    assert_eq!(
        subs.default_profile_name(),
        Err(CatalogError::DefaultRequired)
    );
    assert!(problem(&config(subs))
        .message()
        .contains("subscriptions.default"));

    let mut subs = catalog(&[], Some("missing"));
    subs.profiles
        .insert("only".to_string(), local(&["/tmp/a.yaml"]));
    assert!(problem(&config(subs)).message().contains("unknown profile"));
}

#[test]
fn remote_profile_requires_url_and_cache_only() {
    let mut without_cache = catalog(&[], None);
    without_cache.profiles.insert(
        "remote".to_string(),
        SubscriptionProfileConfig {
            files: Vec::new(),
            url_file: Some("/tmp/remote.url".to_string()),
            cache_file: None,
        },
    );
    assert!(problem(&config(without_cache))
        .message()
        .contains("requires cache_file"));

    let mut mixed_source = catalog(&[], None);
    mixed_source.profiles.insert(
        "remote".to_string(),
        SubscriptionProfileConfig {
            files: vec!["/tmp/a.yaml".to_string()],
            url_file: Some("/tmp/remote.url".to_string()),
            cache_file: Some("/tmp/cache.yaml".to_string()),
        },
    );
    assert!(problem(&config(mixed_source))
        .message()
        .contains("exactly one source"));
}

#[test]
fn invalid_profile_name_is_rejected() {
    let mut subs = catalog(&[], None);
    subs.profiles
        .insert("not a name".to_string(), local(&["/tmp/a.yaml"]));
    assert!(problem(&config(subs))
        .message()
        .contains("invalid subscription profile name"));
}

#[test]
fn remote_profiles_cannot_overwrite_secret_or_each_other() {
    let mut same_path = catalog(&[], None);
    same_path
        .profiles
        .insert("remote".to_string(), remote("/tmp/shared", "/tmp/shared"));
    assert!(problem(&config(same_path))
        .message()
        .contains("conflicts with URL secret"));

    let mut shared_cache = catalog(&[], Some("a"));
    shared_cache
        .profiles
        .insert("a".to_string(), remote("/tmp/a.url", "/tmp/shared.yaml"));
    shared_cache
        .profiles
        .insert("b".to_string(), remote("/tmp/b.url", "/tmp/shared.yaml"));
    assert!(problem(&config(shared_cache))
        .message()
        .contains("must not share cache_file"));
}

#[test]
fn cache_cannot_overwrite_another_profile_source_or_state() {
    let mut source_conflict = catalog(&[], Some("local"));
    source_conflict
        .profiles
        .insert("local".to_string(), local(&["/tmp/source.yaml"]));
    source_conflict.profiles.insert(
        "remote".to_string(),
        remote("/tmp/remote.url", "/tmp/a/../source.yaml"),
    );
    assert!(problem(&config(source_conflict))
        .message()
        .contains("must not contain '..'"));

    let mut state_conflict = catalog(&[], None);
    state_conflict.profiles.insert(
        "remote".to_string(),
        remote("/tmp/remote.url", "/tmp/x/../state.json"),
    );
    let mut cfg = config(state_conflict);
    cfg.state_file = "/tmp/state.json".to_string();
    assert!(problem(&cfg).message().contains("must not contain '..'"));
}

fn config_with_legacy_source(state_file: &str, log_dir: &str, source: &str) -> Config {
    let mut cfg = config(catalog(&[source], None));
    cfg.state_file = state_file.to_string();
    cfg.log_dir = log_dir.to_string();
    cfg
}

#[test]
fn state_and_legacy_source_collision_is_rejected() {
    let cfg = config_with_legacy_source("/d/state.json", "/d/logs", "/d/state.json");
    let error = problem(&cfg).message();
    assert!(error.contains("persistent state file"), "{error}");
    assert!(
        error.contains("legacy local subscription source"),
        "{error}"
    );
}

#[test]
fn derived_cache_slot_cannot_collide_with_a_source() {
    let mut subs = catalog(&[], Some("remote"));
    subs.profiles.insert(
        "local".to_string(),
        local(&["/d/remote.yaml.causeway-a"]),
    );
    subs.profiles.insert(
        "remote".to_string(),
        remote("/d/missing.url", "/d/remote.yaml"),
    );
    let mut cfg = config(subs);
    cfg.state_file = "/d/state.json".to_string();
    cfg.log_dir = "/d/logs".to_string();
    let error = problem(&cfg).message();
    assert!(error.contains("cache slot A"), "{error}");
    assert!(error.contains("local source"), "{error}");
}

#[test]
fn run_control_and_log_namespace_collisions_are_rejected() {
    for log_dir in ["/d/run", "/d/run/control.sock"] {
        let cfg = config_with_legacy_source("/d/state.json", log_dir, "/d/source.yaml");
        let error = problem(&cfg).message();
        assert!(error.contains("log directory namespace"), "{error}");
        assert!(
            error.contains("control socket")
                || error.contains("runtime and data-plane credential directory"),
            "{error}"
        );
    }
}

#[test]
fn every_configured_writable_path_rejects_parent_components() {
    let cfg = config_with_legacy_source("/d/child/../state.json", "/d/logs", "/d/source.yaml");
    assert!(problem(&cfg)
        .message()
        .contains("state_file must not contain '..'"));

    let cfg = config_with_legacy_source("/d/state.json", "/d/child/../logs", "/d/source.yaml");
    assert!(problem(&cfg)
        .message()
        .contains("log_dir must not contain '..'"));

    let mut subs = catalog(&[], None);
    subs.profiles.insert(
        "remote".to_string(),
        remote("/d/missing.url", "/d/child/../cache.yaml"),
    );
    let mut cfg = config(subs);
    cfg.state_file = "/d/state.json".to_string();
    cfg.log_dir = "/d/logs".to_string();
    assert!(problem(&cfg)
        .message()
        .contains("cache_file of subscription profile"));
}

#[test]
fn symlink_alias_collision_is_rejected_without_lexical_precollapse() {
    let cfg = config_with_legacy_source("/d/real/state.json", "/d/logs", "/d/alias/state.json");
    let mut facts = nothing_there(&cfg, None);
    facts.insert(
        "/d/alias/state.json".to_string(),
        missing("/d/real/state.json"),
    );
    let error = cfg.validate_at(None, &facts).unwrap_err().message();
    assert!(error.contains("persistent state file"), "{error}");
    assert!(
        error.contains("legacy local subscription source"),
        "{error}"
    );
}

#[test]
fn loaded_config_protects_its_own_path_from_cache_updates() {
    let mut subs = catalog(&[], None);
    subs.profiles.insert(
        "remote".to_string(),
        remote("/d/missing.url", "/d/config.toml"),
    );
    let cfg = config(subs);
    let error = cfg
        .validate_at(
            Some("/d/config.toml"),
            &nothing_there(&cfg, Some("/d/config.toml")),
        )
        .unwrap_err()
        .message();
    assert!(error.contains("main config file"), "{error}");
}

#[test]
fn zero_intervals_and_malformed_health_urls_are_rejected() {
    let mut cfg = minimal();
    cfg.probe.interval_secs = 0;
    assert_eq!(problem(&cfg), Problem::ZeroInterval);
    let mut cfg = minimal();
    cfg.health.interval_secs = 0;
    assert_eq!(problem(&cfg), Problem::ZeroInterval);
    for url in [
        "http://example.com\r\nX-Test: injected",
        "http://user@example.com/path",
        "http:///missing-host",
        "http://example.com/path#fragment",
    ] {
        let mut cfg = minimal();
        cfg.health.url = url.to_string();
        assert_eq!(problem(&cfg), Problem::HealthUrl, "accepted {url:?}");
    }
}

#[test]
fn existing_remote_secret_must_be_private() {
    let mut subs = catalog(&[], None);
    subs.profiles.insert(
        "remote".to_string(),
        remote("/d/remote.url", "/d/cache.yaml"),
    );
    let cfg = config(subs);
    let mut facts = nothing_there(&cfg, None);
    let mut secret = |mode| {
        facts.insert(
            "/d/remote.url".to_string(),
            PathFact {
                normalized: Some("/d/remote.url".to_string()),
                exists: true,
                file: FileFact::Regular(mode),
            },
        );
        cfg.validate_at(None, &facts)
    };
    assert!(secret(0o644).unwrap_err().message().contains("chmod 600"));
    assert!(secret(0o600).is_ok());
}

#[test]
fn remaining_problems_have_an_input_each() {
    let mut cfg = minimal();
    cfg.classes = NameMap::new();
    assert_eq!(problem(&cfg), Problem::NoClasses);

    let cfg = config(catalog(&[], None));
    assert_eq!(problem(&cfg), Problem::NoSubscriptions);

    let cfg = config(catalog(&["/tmp/x.yaml"], Some("other")));
    assert_eq!(problem(&cfg), Problem::LegacyDefault);

    let mut cfg = minimal();
    cfg.probe.concurrency = 0;
    assert_eq!(problem(&cfg), Problem::ZeroConcurrency);
    let mut cfg = minimal();
    cfg.probe.timeout_ms = 0;
    assert_eq!(problem(&cfg), Problem::ZeroTimeout);
    let mut cfg = minimal();
    cfg.health.fail_threshold = 0;
    assert_eq!(problem(&cfg), Problem::ZeroThreshold);

    for bad in [-0.1f64, 1.1, f64::NAN] {
        let mut cfg = minimal();
        cfg.selection.hysteresis = bad.to_bits();
        assert_eq!(problem(&cfg), Problem::Hysteresis, "{bad}");
    }
    for bad in [0.0f64, 1.1, -0.5, f64::NAN] {
        let mut cfg = minimal();
        cfg.selection.ema_alpha = bad.to_bits();
        assert_eq!(problem(&cfg), Problem::EmaAlpha, "{bad}");
    }

    let mut cfg = minimal();
    cfg.classes.insert(
        "dev".to_string(),
        ClassConfig {
            health: Some(ClassHealth {
                url: Some("ftp://nowhere".to_string()),
                samples: None,
            }),
            ..class(IpAddress::V4(127, 0, 0, 1), 17878, "127.0.0.1:17878")
        },
    );
    assert_eq!(
        problem(&cfg).message(),
        "health.url of class \"dev\" must be a plaintext http:// URL or connect://host[:port]"
    );

    let mut subs = catalog(&[], None);
    subs.profiles.insert(
        "l".to_string(),
        SubscriptionProfileConfig {
            files: vec!["/tmp/a.yaml".to_string()],
            url_file: None,
            cache_file: Some("/tmp/c.yaml".to_string()),
        },
    );
    assert_eq!(
        problem(&config(subs)),
        Problem::LocalCache {
            profile: "l".to_string()
        }
    );
    let mut cfg = minimal();
    cfg.state_file = String::new();
    assert!(matches!(problem(&cfg), Problem::EmptyPath { .. }));
}

#[test]
fn class_policy_overrides_the_global_one() {
    let mut cfg = minimal();
    cfg.selection.regions = vec!["HK".to_string()];
    assert_eq!(cfg.regions_of("dev"), ["HK"]);
    assert!(cfg.auto_switch_of("dev"));
    assert!(!cfg.has_own_target("dev"));
    assert_eq!(cfg.target_of("dev"), cfg.health.url);
    assert_eq!(cfg.samples_of("dev"), 1);
    cfg.classes.insert(
        "dev".to_string(),
        ClassConfig {
            selection: Some(ClassSelection {
                regions: Some(vec!["JP".to_string()]),
                auto_switch: Some(false),
            }),
            health: Some(ClassHealth {
                url: Some("connect://api.example:443".to_string()),
                samples: Some(3),
            }),
            ..class(IpAddress::V6(1), 17878, "[::1]:17878")
        },
    );
    assert_eq!(cfg.regions_of("dev"), ["JP"]);
    assert!(!cfg.auto_switch_of("dev"));
    assert!(cfg.has_own_target("dev"));
    assert_eq!(cfg.target_of("dev"), "connect://api.example:443");
    assert_eq!(cfg.samples_of("dev"), 3);
    assert_eq!(cfg.regions_of("other"), ["HK"]);
}

#[test]
fn paths_expand_and_derive() {
    assert_eq!(expand_tilde("~/x", HOME), "/home/u/x");
    assert_eq!(expand_tilde("/abs", HOME), "/abs");
    assert_eq!(expand_tilde("~other/x", HOME), "~other/x");
    assert_eq!(
        default_config_path(HOME),
        "/home/u/.config/causeway/config.toml"
    );
    assert_eq!(run_dir("/d/state.json"), "/d/run");
    assert_eq!(run_dir("/"), "/tmp/causeway-run");
    assert!(IpAddress::V4(127, 8, 8, 8).is_loopback());
    assert!(!IpAddress::V6(2).is_loopback());
}

#[test]
fn source_identities_have_an_exact_form() {
    let odd = "/d/\"é\".yaml";
    let facts = facts_for(&[odd, "/d/a.yaml", "/d/url"]);
    let hashed = |canonical: String| {
        let digest = <sha2::Sha256 as sha2::Digest>::digest(canonical.as_bytes());
        let hex: String = digest.iter().map(|b| format!("{b:02x}")).collect();
        format!("sha256:{hex}")
    };
    assert_eq!(
        local(&[odd, "/d/a.yaml"]).source_identity(&facts),
        Ok(hashed(
            r#"{"kind":"local","files":["/d/\"é\".yaml","/d/a.yaml"]}"#.to_string()
        ))
    );
    assert_eq!(
        remote("/d/url", odd).source_identity(&facts),
        Ok(hashed(
            r#"{"kind":"remote","url_file":"/d/url","cache_file":"/d/\"é\".yaml"}"#.to_string()
        ))
    );

    // Every form of escape, and what needs none.
    let wild = "/d/\u{1}\u{1f}\u{8}\t\n\u{c}\r\\\"\u{7f}/é";
    let facts = facts_for(&[wild]);
    assert_eq!(
        local(&[wild]).source_identity(&facts),
        Ok(hashed(format!(
            "{}{}{}",
            r#"{"kind":"local","files":["/d/\u0001\u001f\b\t\n\f\r\\\""#, '\u{7f}', r#"/é"]}"#
        )))
    );
}
