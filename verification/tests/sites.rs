//! Switching for a site, and probing sites.

use causeway::control::{Event, SwitchForSiteOutcome};
use causeway::names::NameMap;
use causeway::node::{Node, SsNode};
use causeway::probe::{
    count_reached, cycle_event, permits, reports_progress, test_permits, ProbeOutcome,
};
use causeway::score::NodeStats;
use causeway::siteprobe::{SiteStatus, SiteVerdict};
use causeway::sites::{
    begin_site_switch, fresh_verdict, judge_incumbent, saves_state, select_sites, site_next,
    site_probe_event,
    SiteAction, SiteEvent, SiteRun, SiteSearch,
};

fn node(name: &str) -> Node {
    Node::Ss(SsNode {
        name: name.to_string(),
        server: "192.0.2.1".to_string(),
        port: 443,
        cipher: "aes-128-gcm".to_string(),
        password: "test-only".to_string(),
        plugin: None,
    })
}

fn pool() -> Vec<Node> {
    vec![node("current"), node("slow"), node("fast")]
}

fn verdict(status: SiteStatus, code: Option<u16>) -> SiteVerdict {
    SiteVerdict {
        status,
        http_status: code,
        checked_unix: 100,
        detail: None,
    }
}

fn outcome(
    action: &str,
    before: Option<&str>,
    after: Option<&str>,
    detail: &str,
) -> SwitchForSiteOutcome {
    SwitchForSiteOutcome {
        site: "news".to_string(),
        action: action.to_string(),
        node_before: before.map(str::to_string),
        node_after: after.map(str::to_string),
        detail: detail.to_string(),
    }
}

fn stats() -> NameMap<NodeStats> {
    let mut m = NameMap::new();
    for (name, rtt) in [("current", 10.0f64), ("slow", 500.0), ("fast", 50.0)] {
        m.insert(
            name.to_string(),
            NodeStats {
                success_ema: 0.9f64.to_bits(),
                rtt_ema_ms: Some(rtt.to_bits()),
                recent_rtts_ms: Vec::new(),
                consecutive_health_failures: 0,
                probe_count: 1,
                last_probe_unix: Some(1),
            },
        );
    }
    m
}

fn done(action: SiteAction) -> SwitchForSiteOutcome {
    match action {
        SiteAction::Done(o) => o,
        _ => panic!("the request was to be answered"),
    }
}

#[test]
fn only_a_confirmed_freeze_leaves_the_incumbent() {
    let current = Some("current");
    assert!(matches!(
        begin_site_switch("news", &pool(), current, None),
        SiteAction::ProbeIncumbent(n) if n.name() == "current"
    ));
    assert!(matches!(
        begin_site_switch("news", &pool(), None, None),
        SiteAction::Search
    ));
    // An incumbent that left the pool cannot be asked.
    assert!(matches!(
        begin_site_switch("news", &pool(), Some("gone"), None),
        SiteAction::Search
    ));
    let served = verdict(SiteStatus::Served, Some(200));
    assert_eq!(
        done(begin_site_switch("news", &pool(), current, Some(served))),
        outcome("kept", current, current, "incumbent serves the site (HTTP Some(200))")
    );
    assert_eq!(
        done(judge_incumbent(
            "news",
            current,
            &verdict(SiteStatus::Unknown, Some(503))
        )),
        outcome(
            "kept",
            current,
            current,
            "no confirmed freeze of the incumbent (HTTP Some(503)); staying put"
        )
    );
    assert!(matches!(
        judge_incumbent("news", current, &verdict(SiteStatus::Blocked, Some(403))),
        SiteAction::Search
    ));
}

#[test]
fn the_search_takes_the_best_candidate_that_the_site_serves() {
    let mut s = SiteSearch::new("news", &pool(), &stats(), Some("current"), 5);
    assert!(matches!(s.action(), SiteAction::ProbeCandidate(n) if n.name() == "fast"));
    s.probed(&verdict(SiteStatus::Blocked, Some(403)));
    assert!(matches!(s.action(), SiteAction::ProbeCandidate(n) if n.name() == "slow"));
    s.probed(&verdict(SiteStatus::Served, Some(302)));
    assert!(matches!(s.action(), SiteAction::Switch(n) if n.name() == "slow"));
    assert_eq!(
        s.switched(),
        outcome(
            "switched",
            Some("current"),
            Some("slow"),
            "incumbent frozen; switched to a node the site serves (HTTP Some(302))"
        )
    );
    // It passed the site and still could not be installed.
    s.failed();
    assert_eq!(
        done(s.action()),
        outcome(
            "no-candidate",
            Some("current"),
            Some("current"),
            "no probed candidate served the site among 2 tried; staying put"
        )
    );
    let one = SiteSearch::new("news", &pool(), &stats(), Some("current"), 1);
    assert!(matches!(one.action(), SiteAction::ProbeCandidate(n) if n.name() == "fast"));
    let none = SiteSearch::new("news", &pool(), &stats(), Some("current"), 0);
    assert!(matches!(none.action(), SiteAction::Done(_)));
}

fn sites() -> NameMap<String> {
    let mut m = NameMap::new();
    m.insert("news".to_string(), "https://news.example/".to_string());
    m.insert("mail".to_string(), "https://mail.example/".to_string());
    m
}

fn verdicts() -> NameMap<NameMap<SiteVerdict>> {
    let mut news = NameMap::new();
    news.insert(
        "current".to_string(),
        verdict(SiteStatus::Served, Some(200)),
    );
    let mut mail = NameMap::new();
    mail.insert(
        "current".to_string(),
        verdict(SiteStatus::Blocked, Some(403)),
    );
    let mut all = NameMap::new();
    all.insert("news".to_string(), news);
    all.insert("mail".to_string(), mail);
    all
}

#[test]
fn verdicts_age() {
    let all = verdicts();
    assert!(fresh_verdict(&all, "news", "current", 700, 600).is_some());
    assert!(fresh_verdict(&all, "news", "current", 701, 600).is_none());
    assert!(fresh_verdict(&all, "news", "fast", 100, 600).is_none());
    assert!(fresh_verdict(&all, "radio", "current", 100, 600).is_none());
}

#[test]
fn sites_are_selected_by_name_or_all() {
    let all = select_sites(&sites(), None).unwrap();
    let names: Vec<_> = all.iter().map(|t| t.name.as_str()).collect();
    assert_eq!(names, ["mail", "news"]);
    let one = select_sites(&sites(), Some("news")).unwrap();
    assert_eq!(one[0].url, "https://news.example/");
    assert_eq!(
        select_sites(&sites(), Some("radio")).err().as_deref(),
        Some("unknown site \"radio\"; configured sites: [\"mail\", \"news\"]")
    );
    assert_eq!(
        select_sites(&NameMap::new(), None).err().as_deref(),
        Some("no sites configured under [sites.list]")
    );
}

#[test]
fn a_site_counts_once_any_node_gets_through() {
    let all = select_sites(&sites(), None).unwrap();
    assert_eq!(
        site_probe_event(&all, &verdicts(), 3, 9),
        Event::Probed {
            unix: 9,
            source: "site-probe:mail,news".to_string(),
            ok: 1,
            total: 6,
        }
    );
}

#[test]
fn probe_cycles_are_counted_and_bounded() {
    let v = vec![
        ProbeOutcome {
            node: node("a"),
            rtt: Some(5),
        },
        ProbeOutcome {
            node: node("b"),
            rtt: None,
        },
    ];
    assert_eq!(count_reached(&v), 1);
    assert_eq!(
        cycle_event("scheduled", &v, 7),
        Event::Probed {
            unix: 7,
            source: "scheduled".to_string(),
            ok: 1,
            total: 2,
        }
    );
    assert_eq!((permits(0), permits(1), permits(64)), (1, 1, 64));
    assert_eq!(
        (test_permits(0), test_permits(3), test_permits(100)),
        (1, 3, 8)
    );
    let told: Vec<_> = (1..=120).filter(|d| reports_progress(*d, 120)).collect();
    assert_eq!(told, [50, 100, 120]);
}

#[test]
fn a_site_switch_goes_from_refusal_to_a_node_that_is_served() {
    let (nodes, stats) = (pool(), stats());
    let (mut run, first) = SiteRun::begin("news", &nodes, Some("current"), None, 5);
    assert!(matches!(first, SiteAction::ProbeIncumbent(n) if n.name() == "current"));
    // An event that nobody waits for leads nowhere.
    assert!(matches!(
        site_next(&mut run, SiteEvent::Installed),
        SiteAction::ProbeIncumbent(_)
    ));
    assert!(matches!(
        site_next(
            &mut run,
            SiteEvent::Probed(verdict(SiteStatus::Blocked, Some(403)))
        ),
        SiteAction::Search
    ));
    let next = site_next(
        &mut run,
        SiteEvent::Ranked {
            nodes: &nodes,
            stats: &stats,
        },
    );
    assert!(matches!(next, SiteAction::ProbeCandidate(n) if n.name() == "fast"));
    let next = site_next(
        &mut run,
        SiteEvent::Probed(verdict(SiteStatus::Served, Some(200))),
    );
    assert!(matches!(next, SiteAction::Switch(n) if n.name() == "fast"));
    let next = site_next(&mut run, SiteEvent::NotInstalled);
    assert!(matches!(next, SiteAction::ProbeCandidate(n) if n.name() == "slow"));
    let next = site_next(
        &mut run,
        SiteEvent::Probed(verdict(SiteStatus::Served, Some(302))),
    );
    assert!(matches!(next, SiteAction::Switch(n) if n.name() == "slow"));
    let switched = outcome(
        "switched",
        Some("current"),
        Some("slow"),
        "incumbent frozen; switched to a node the site serves (HTTP Some(302))",
    );
    assert_eq!(done(site_next(&mut run, SiteEvent::Installed)), switched);
    assert_eq!(done(site_next(&mut run, SiteEvent::NotInstalled)), switched);
    assert!(saves_state(&switched));

    // A site that cannot be asked moves nothing.
    let (mut run, _) = SiteRun::begin("news", &nodes, Some("current"), None, 5);
    let kept = done(site_next(
        &mut run,
        SiteEvent::Probed(verdict(SiteStatus::Unknown, None)),
    ));
    assert_eq!(kept.node_after.as_deref(), Some("current"));
    assert!(!saves_state(&kept));

    // With nobody to ask, the class stays where it is.
    let fresh = Some(verdict(SiteStatus::Blocked, Some(451)));
    let (mut run, first) = SiteRun::begin("news", &nodes, Some("current"), fresh, 0);
    assert!(matches!(first, SiteAction::Search));
    let ended = done(site_next(
        &mut run,
        SiteEvent::Ranked {
            nodes: &nodes,
            stats: &stats,
        },
    ));
    assert_eq!(ended.action, "no-candidate");
    assert_eq!(ended.node_after.as_deref(), Some("current"));
}
