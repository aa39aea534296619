//! Reloading the configuration: only the subscription catalog may change
//! while the daemon runs.

use vstd::prelude::*;

use crate::config::{
    ClassConfig, ClassHealth, ClassSelection, Config, HealthConfig, ProbeConfig, SelectionConfig,
    SitesConfig,
};
use crate::control::{refusal, Event, Reply, ReplyView};
use crate::digest::say;
use crate::manifest::opt_view;
use crate::names::{lemma_ordered, ordered, NameMap};
use crate::text::{borrow_opt, decimal, decimal_text, opt_texts, same, same_opt, texts};

verus! {

// ---------------------------------------------------------------------------
// Comparison
// ---------------------------------------------------------------------------

pub open spec fn magnitude(bits: u64) -> u64 {
    if bits < 0x8000_0000_0000_0000 {
        bits
    } else {
        (bits - 0x8000_0000_0000_0000) as u64
    }
}

/// The doubles with these bits compare equal: zeros do whatever their sign,
/// and what is not a number never does.
pub open spec fn double_equal(a: u64, b: u64) -> bool {
    magnitude(a) <= 0x7ff0_0000_0000_0000 && (a == b || (magnitude(a) == 0 && magnitude(b) == 0))
}

fn same_double(a: u64, b: u64) -> (r: bool)
    ensures
        r == double_equal(a, b),
{
    let sign: u64 = 0x8000_0000_0000_0000;
    let m: u64 = if a < sign {
        a
    } else {
        a - sign
    };
    let n: u64 = if b < sign {
        b
    } else {
        b - sign
    };
    m <= 0x7ff0_0000_0000_0000 && (a == b || (m == 0 && n == 0))
}

fn same_texts(a: &Vec<String>, b: &Vec<String>) -> (r: bool)
    ensures
        r == (texts(a@) == texts(b@)),
{
    if a.len() != b.len() {
        assert(texts(a@).len() != texts(b@).len());
        return false;
    }
    let mut i: usize = 0;
    while i < a.len()
        invariant
            i <= a@.len(),
            a@.len() == b@.len(),
            forall|j: int| 0 <= j < i ==> (#[trigger] a@[j])@ == b@[j]@,
        decreases a@.len() - i,
    {
        if !same(a[i].as_str(), b[i].as_str()) {
            assert(texts(a@)[i as int] != texts(b@)[i as int]);
            return false;
        }
        i = i + 1;
    }
    assert(texts(a@) =~= texts(b@));
    true
}

fn same_opt_texts(a: &Option<Vec<String>>, b: &Option<Vec<String>>) -> (r: bool)
    ensures
        r == (opt_texts(*a) == opt_texts(*b)),
{
    match (a, b) {
        (Some(x), Some(y)) => same_texts(x, y),
        (None, None) => true,
        _ => false,
    }
}

fn same_selection(a: &Option<ClassSelection>, b: &Option<ClassSelection>) -> (r: bool)
    ensures
        r == (opt_view(*a) == opt_view(*b)),
{
    match (a, b) {
        (Some(x), Some(y)) => same_opt_texts(&x.regions, &y.regions) && x.auto_switch
            == y.auto_switch,
        (None, None) => true,
        _ => false,
    }
}

fn same_health(a: &Option<ClassHealth>, b: &Option<ClassHealth>) -> (r: bool)
    ensures
        r == (opt_view(*a) == opt_view(*b)),
{
    match (a, b) {
        (Some(x), Some(y)) => same_opt(borrow_opt(&x.url), borrow_opt(&y.url)) && x.samples
            == y.samples,
        (None, None) => true,
        _ => false,
    }
}

fn same_class(a: &ClassConfig, b: &ClassConfig) -> (r: bool)
    ensures
        r == (a@ == b@),
{
    same(a.listen.as_str(), b.listen.as_str()) && a.ip == b.ip && a.port == b.port
        && same_selection(&a.selection, &b.selection) && same_health(&a.health, &b.health)
}

proof fn lemma_same_maps<V>(a: Map<Seq<char>, V>, b: Map<Seq<char>, V>)
    requires
        a.dom().finite(),
        b.dom().finite(),
        ordered(a.dom()) == ordered(b.dom()),
        forall|i: int|
            0 <= i < ordered(a.dom()).len() ==> a[#[trigger] ordered(a.dom())[i]] == b[ordered(
                a.dom(),
            )[i]],
    ensures
        a == b,
{
    lemma_ordered(a.dom());
    lemma_ordered(b.dom());
    let ks = ordered(a.dom());
    assert(a.dom() =~= b.dom());
    assert forall|k: Seq<char>| a.contains_key(k) implies a[k] == b[k] by {
        assert(ks.to_set().contains(k));
        let i = ks.index_of(k);
        assert(ks[i] == k);
    }
    assert(a =~= b);
}

fn same_classes(a: &NameMap<ClassConfig>, b: &NameMap<ClassConfig>) -> (r: bool)
    ensures
        r == (a@ == b@),
{
    let n: usize = a.len();
    if b.len() != n {
        return false;
    }
    let mut i: usize = 0;
    while i < n
        invariant
            i <= n,
            n == ordered(a@.dom()).len(),
            n == ordered(b@.dom()).len(),
            forall|j: int|
                0 <= j < i ==> #[trigger] ordered(a@.dom())[j] == ordered(b@.dom())[j]
                    && a@[ordered(a@.dom())[j]] == b@[ordered(a@.dom())[j]],
        decreases n - i,
    {
        if !same(a.key_at(i).as_str(), b.key_at(i).as_str()) {
            return false;
        }
        if !same_class(a.value_at(i), b.value_at(i)) {
            return false;
        }
        i = i + 1;
    }
    proof {
        assert(ordered(a@.dom()) =~= ordered(b@.dom()));
    }
    let _ = a.len();
    let _ = b.len();
    proof {
        lemma_same_maps(a@, b@);
    }
    true
}

fn same_text_maps(a: &NameMap<String>, b: &NameMap<String>) -> (r: bool)
    ensures
        r == (a@ == b@),
{
    let n: usize = a.len();
    if b.len() != n {
        return false;
    }
    let mut i: usize = 0;
    while i < n
        invariant
            i <= n,
            n == ordered(a@.dom()).len(),
            n == ordered(b@.dom()).len(),
            a@.dom().finite(),
            b@.dom().finite(),
            forall|j: int|
                0 <= j < i ==> #[trigger] ordered(a@.dom())[j] == ordered(b@.dom())[j]
                    && a@[ordered(a@.dom())[j]] == b@[ordered(a@.dom())[j]],
        decreases n - i,
    {
        if !same(a.key_at(i).as_str(), b.key_at(i).as_str()) {
            return false;
        }
        if !same(a.value_at(i).as_str(), b.value_at(i).as_str()) {
            return false;
        }
        i = i + 1;
    }
    proof {
        assert(ordered(a@.dom()) =~= ordered(b@.dom()));
        lemma_same_maps(a@, b@);
    }
    true
}

pub open spec fn same_probe(a: ProbeConfig, b: ProbeConfig) -> bool {
    a == b
}

pub open spec fn same_health_policy(a: HealthConfig, b: HealthConfig) -> bool {
    a.interval_secs == b.interval_secs && a.timeout_ms == b.timeout_ms && a.fail_threshold
        == b.fail_threshold && a.url@ == b.url@ && a.drain_grace_secs == b.drain_grace_secs
}

pub open spec fn same_policy(a: SelectionConfig, b: SelectionConfig) -> bool {
    double_equal(a.hysteresis, b.hysteresis) && double_equal(a.ema_alpha, b.ema_alpha) && texts(
        a.regions@,
    ) == texts(b.regions@) && a.auto_switch == b.auto_switch
}

pub open spec fn same_sites(a: SitesConfig, b: SitesConfig) -> bool {
    a.list@ == b.list@ && a.timeout_ms == b.timeout_ms && a.user_agent@ == b.user_agent@
        && a.verdict_ttl_secs == b.verdict_ttl_secs && a.max_candidates == b.max_candidates
}

/// Everything but the subscriptions is the same.
pub open spec fn same_startup_shape(a: Config, b: Config) -> bool {
    &&& a.log_dir@ == b.log_dir@
    &&& a.state_file@ == b.state_file@
    &&& a.sslocal_bin@ == b.sslocal_bin@
    &&& a.obfs_plugin_bin@ == b.obfs_plugin_bin@
    &&& a.singbox_bin@ == b.singbox_bin@
    &&& a.classes@ == b.classes@
    &&& same_probe(a.probe, b.probe)
    &&& same_health_policy(a.health, b.health)
    &&& same_policy(a.selection, b.selection)
    &&& same_sites(a.sites, b.sites)
    &&& texts(a.routing.direct_hosts@) == texts(b.routing.direct_hosts@)
}

/// Has anything changed that the daemon builds once at startup?
pub fn non_subscription_config_changed(running: &Config, candidate: &Config) -> (r: bool)
    ensures
        r == !same_startup_shape(*running, *candidate),
{
    let a = running;
    let b = candidate;
    !(same(a.log_dir.as_str(), b.log_dir.as_str()) && same(
        a.state_file.as_str(),
        b.state_file.as_str(),
    ) && same(a.sslocal_bin.as_str(), b.sslocal_bin.as_str()) && same(
        a.obfs_plugin_bin.as_str(),
        b.obfs_plugin_bin.as_str(),
    ) && same(a.singbox_bin.as_str(), b.singbox_bin.as_str()) && same_classes(
        &a.classes,
        &b.classes,
    ) && a.probe.interval_secs == b.probe.interval_secs && a.probe.timeout_ms
        == b.probe.timeout_ms && a.probe.concurrency == b.probe.concurrency
        && a.health.interval_secs == b.health.interval_secs && a.health.timeout_ms
        == b.health.timeout_ms && a.health.fail_threshold == b.health.fail_threshold && same(
        a.health.url.as_str(),
        b.health.url.as_str(),
    ) && a.health.drain_grace_secs == b.health.drain_grace_secs && same_double(
        a.selection.hysteresis,
        b.selection.hysteresis,
    ) && same_double(a.selection.ema_alpha, b.selection.ema_alpha) && same_texts(
        &a.selection.regions,
        &b.selection.regions,
    ) && a.selection.auto_switch == b.selection.auto_switch && same_text_maps(
        &a.sites.list,
        &b.sites.list,
    ) && a.sites.timeout_ms == b.sites.timeout_ms && same(
        a.sites.user_agent.as_str(),
        b.sites.user_agent.as_str(),
    ) && a.sites.verdict_ttl_secs == b.sites.verdict_ttl_secs && a.sites.max_candidates
        == b.sites.max_candidates && same_texts(
        &a.routing.direct_hosts,
        &b.routing.direct_hosts,
    ))
}

// ---------------------------------------------------------------------------
// Reload
// ---------------------------------------------------------------------------

/// Why a reload stops before the refresh.
#[derive(Debug, Clone, Copy, PartialEq, Eq, Structural)]
pub enum ReloadRefusal {
    InvalidConfiguration,
    RestartRequired,
    ActiveGone,
}

pub open spec fn reload_refusal_text(r: ReloadRefusal) -> Seq<char> {
    match r {
        ReloadRefusal::InvalidConfiguration => "reload failed: invalid configuration"@,
        ReloadRefusal::RestartRequired => "non-subscription configuration changed — daemon restart required"@,
        ReloadRefusal::ActiveGone => "reload aborted: active subscription is no longer configured"@,
    }
}

impl ReloadRefusal {
    pub fn message(&self) -> (r: &'static str)
        ensures
            r@ == reload_refusal_text(*self),
    {
        match self {
            ReloadRefusal::InvalidConfiguration => "reload failed: invalid configuration",
            ReloadRefusal::RestartRequired => "non-subscription configuration changed — daemon restart required",
            ReloadRefusal::ActiveGone => "reload aborted: active subscription is no longer configured",
        }
    }
}

pub open spec fn reload_check(
    running: Config,
    candidate: Option<Config>,
    active: Seq<char>,
) -> Option<ReloadRefusal> {
    match candidate {
        None => Some(ReloadRefusal::InvalidConfiguration),
        Some(c) => if !same_startup_shape(running, c) {
            Some(ReloadRefusal::RestartRequired)
        } else if crate::config::catalog_profile(c.subscriptions@, active) is None {
            Some(ReloadRefusal::ActiveGone)
        } else {
            None
        },
    }
}

/// May a reload go on to refresh the active profile? `candidate` is `None`
/// where the configuration does not load.
pub fn check_reload(running: &Config, candidate: &Option<Config>, active: &str) -> (r: Option<
    ReloadRefusal,
>)
    ensures
        r == reload_check(*running, *candidate, active@),
{
    match candidate {
        None => Some(ReloadRefusal::InvalidConfiguration),
        Some(c) => if non_subscription_config_changed(running, c) {
            Some(ReloadRefusal::RestartRequired)
        } else if c.subscriptions.profile(active).is_none() {
            Some(ReloadRefusal::ActiveGone)
        } else {
            None
        },
    }
}

/// What a reload says after the refresh.
pub open spec fn reload_detail(outcome: ReplyView) -> Seq<char> {
    if !outcome.ok {
        match outcome.error {
            Some(e) => e,
            None => "reload failed: subscription refresh failed"@,
        }
    } else {
        "config OK — "@ + decimal(
            match outcome.subscription_switch {
                Some(o) => o.node_count as nat,
                None => 0,
            },
        ) + " node(s) in pool (interval changes take effect on restart)"@
    }
}

/// The reply and the event that close a reload, given how the refresh went.
pub fn finish_reload(outcome: &Reply, now: i64) -> (r: (Reply, Event))
    ensures
        (r.0)@ == (if outcome@.ok {
            ReplyView {
                message: Some(reload_detail(outcome@)),
                ..crate::control::plain_ok()
            }
        } else {
            refusal(reload_detail(outcome@))
        }),
        (r.1)@ == (Event::<Seq<char>>::Reloaded { unix: now, detail: reload_detail(outcome@) }),
{
    if !outcome.ok {
        let detail = match &outcome.error {
            Some(e) => e.clone(),
            None => "reload failed: subscription refresh failed".to_string(),
        };
        (Reply::err(detail.as_str()), Event::Reloaded { unix: now, detail })
    } else {
        let count: usize = match &outcome.subscription_switch {
            Some(o) => o.node_count,
            None => 0,
        };
        let mut detail = "config OK — ".to_string();
        let n = decimal_text(count as u64);
        say(&mut detail, n.as_str());
        say(&mut detail, " node(s) in pool (interval changes take effect on restart)");
        (Reply::ok_msg(detail.as_str()), Event::Reloaded { unix: now, detail })
    }
}

/// The reply and the event of a reload that stops early.
pub fn refuse_reload(refusal_reason: ReloadRefusal, now: i64) -> (r: (Reply, Event))
    ensures
        (r.0)@ == refusal(reload_refusal_text(refusal_reason)),
        (r.1)@ == (Event::<Seq<char>>::Reloaded {
            unix: now,
            detail: reload_refusal_text(refusal_reason),
        }),
{
    let m = refusal_reason.message();
    (Reply::err(m), Event::Reloaded { unix: now, detail: m.to_string() })
}

/// A reload goes ahead only where the new file is valid, differs from the
/// running configuration in its subscriptions alone, and still has the active
/// profile.
pub proof fn law_reload_changes_subscriptions_only(
    running: Config,
    c: Config,
    active: Seq<char>,
)
    ensures
        reload_check(running, None, active) == Some(ReloadRefusal::InvalidConfiguration),
        reload_check(running, Some(c), active) is None ==> {
            &&& crate::config::catalog_profile(c.subscriptions@, active) is Some
            &&& running.log_dir@ == c.log_dir@ && running.state_file@ == c.state_file@
            &&& running.sslocal_bin@ == c.sslocal_bin@ && running.obfs_plugin_bin@
                == c.obfs_plugin_bin@ && running.singbox_bin@ == c.singbox_bin@
            &&& running.classes@ == c.classes@
            &&& running.probe == c.probe
            &&& running.health.interval_secs == c.health.interval_secs
            &&& running.health.timeout_ms == c.health.timeout_ms
            &&& running.health.fail_threshold == c.health.fail_threshold
            &&& running.health.url@ == c.health.url@
            &&& running.health.drain_grace_secs == c.health.drain_grace_secs
            &&& texts(running.selection.regions@) == texts(c.selection.regions@)
            &&& running.selection.auto_switch == c.selection.auto_switch
            &&& double_equal(running.selection.hysteresis, c.selection.hysteresis)
            &&& double_equal(running.selection.ema_alpha, c.selection.ema_alpha)
            &&& running.sites.list@ == c.sites.list@ && running.sites.timeout_ms
                == c.sites.timeout_ms && running.sites.user_agent@ == c.sites.user_agent@
                && running.sites.verdict_ttl_secs == c.sites.verdict_ttl_secs
                && running.sites.max_candidates == c.sites.max_candidates
            &&& texts(running.routing.direct_hosts@) == texts(c.routing.direct_hosts@)
        },
        reload_check(running, Some(c), active) == Some(ReloadRefusal::ActiveGone)
            ==> crate::config::catalog_profile(c.subscriptions@, active) is None,
        reload_check(running, Some(c), active) != Some(ReloadRefusal::InvalidConfiguration),
{
}

/// Another catalog that still has the active profile is taken over: nothing
/// but the subscriptions was changed.
pub proof fn law_reload_takes_a_new_catalog(
    running: Config,
    c: Config,
    active: Seq<char>,
)
    requires
        c == (Config { subscriptions: c.subscriptions, ..running }),
        magnitude(running.selection.hysteresis) <= 0x7ff0_0000_0000_0000,
        magnitude(running.selection.ema_alpha) <= 0x7ff0_0000_0000_0000,
    ensures
        reload_check(running, Some(c), active) is None
            == crate::config::catalog_profile(c.subscriptions@, active) is Some,
        crate::config::catalog_profile(c.subscriptions@, active) is None ==> reload_check(
            running,
            Some(c),
            active,
        ) == Some(ReloadRefusal::ActiveGone),
{
}

/// Doubles are equal as numbers: the two zeros are one, a double equals itself
/// unless it is no number, and nothing equals what is no number.
pub proof fn law_double_equality(a: u64, b: u64)
    ensures
        double_equal(a, b) == double_equal(b, a),
        double_equal(a, a) <==> magnitude(a) <= 0x7ff0_0000_0000_0000,
        double_equal(0, 0x8000_0000_0000_0000),
        a != b && double_equal(a, b) ==> magnitude(a) == 0 && magnitude(b) == 0,
{
}

/// A reload that worked says how many nodes there are; one that failed says
/// why in the words of the failure.
pub proof fn law_reload_report(outcome: ReplyView)
    ensures
        !outcome.ok && outcome.error is Some ==> reload_detail(outcome) == outcome.error->0,
        outcome.ok && outcome.subscription_switch is Some ==> reload_detail(outcome)
            == "config OK — "@ + decimal((outcome.subscription_switch->0).node_count as nat)
            + " node(s) in pool (interval changes take effect on restart)"@,
{
}

} // verus!
