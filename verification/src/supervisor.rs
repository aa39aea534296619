//! What the daemon decides around its paths: answering control requests,
//! retiring old paths, rebuilding after a change of the host's egress,
//! starting up and shutting down.

use vstd::prelude::*;

use crate::config::{
    catalog_default, catalog_names, catalog_profile, CatalogError, CatalogView, ClassConfig,
    ProfileView, SubscriptionProfileConfig, SubscriptionsConfig,
};
use crate::control::{
    plain_ok, refusal, summaries, EventView, Reply, ReplyView, Request, StatusSnapshot, StatusView,
    SubscriptionSummary,
};
use crate::digest::{debug_quoted, say, say_quoted};
use crate::events::EventLog;
use crate::health::{is_success, success};
use crate::listener::{TrafficCounters, TrafficView};
use crate::manifest::opt_view;
use crate::names::{lemma_ordered_contains, ordered, Model, NameMap};
use crate::node::{pool, Node, NodeView};
use crate::runtime::ClassRuntime;
use crate::selection::{profile_candidates, profile_list};
use crate::sites::{select_sites, sites_to_probe, tasks, unknown_site, unknown_site_text, SiteTask};
use crate::state::{
    activated, no_route, reconciled, ClassState, ClassStateView, StateFile, StateView, TextMap,
    VerdictMap,
};
use crate::subscription::{
    all_nodes, load_profile_snapshot_from_slot, snapshot_paths, snapshot_paths_of, FileText,
    ReadMap,
};
use crate::text::{borrow_opt, decimal, decimal_text, opt_str, opt_text, same, texts};
use crate::transaction::{SubscriptionRuntime, SubscriptionView};

verus! {

// ---------------------------------------------------------------------------
// Status
// ---------------------------------------------------------------------------

/// The configured profiles; the size of the pool is told of the active one.
pub open spec fn catalog_summaries(names: Seq<Seq<char>>, active: Seq<char>, count: nat) -> Seq<
    SubscriptionSummary<Seq<char>>,
> {
    names.map_values(
        |name: Seq<char>|
            SubscriptionSummary {
                name,
                node_count: if name == active {
                    Some(count as usize)
                } else {
                    None
                },
            },
    )
}

pub open spec fn node_names(nodes: Seq<NodeView>) -> Seq<Seq<char>> {
    nodes.map_values(|n: NodeView| n.name())
}

/// The live snapshot of a class. `queued` tells whether a subscription change
/// was queued or under way before or after the rest was read.
pub open spec fn snapshot_of(
    class: Seq<char>,
    rt: SubscriptionView,
    s: StateView,
    t: TrafficView,
    conns: u64,
    queued: bool,
) -> Option<StatusView> {
    if !s.classes.contains_key(class) {
        None
    } else {
        let route = s.classes[class];
        Some(
            StatusView {
                class,
                active_node: route.active_node,
                socks_port: route.socks_port,
                http_port: route.http_port,
                generation: route.generation,
                nodes: s.nodes,
                traffic: t.nodes,
                active_conns: conns,
                active_subscription: Some(rt.active),
                subscription_generation: Some(rt.generation),
                subscription_txn_in_progress: Some(queued),
                available_subscriptions: catalog_summaries(
                    catalog_names(rt.catalog),
                    rt.active,
                    rt.nodes.len(),
                ),
                available_nodes: node_names(rt.nodes),
            },
        )
    }
}

fn names_of(nodes: &Vec<Node>) -> (r: Vec<String>)
    ensures
        texts(r@) == node_names(pool(nodes@)),
{
    let mut out: Vec<String> = Vec::new();
    let mut i: usize = 0;
    while i < nodes.len()
        invariant
            i <= nodes@.len(),
            out@.len() == i,
            forall|j: int| 0 <= j < i ==> (#[trigger] out@[j])@ == nodes@[j]@.name(),
        decreases nodes@.len() - i,
    {
        out.push(nodes[i].name().to_string());
        i = i + 1;
    }
    assert(texts(out@) =~= node_names(pool(nodes@)));
    out
}

fn summarize(catalog: &SubscriptionsConfig, active: &str, count: usize) -> (r: Vec<
    SubscriptionSummary,
>)
    ensures
        summaries(r@) == catalog_summaries(catalog_names(catalog@), active@, count as nat),
{
    let names = catalog.profile_names();
    let mut out: Vec<SubscriptionSummary> = Vec::new();
    let mut i: usize = 0;
    while i < names.len()
        invariant
            i <= names@.len(),
            out@.len() == i,
            forall|j: int|
                0 <= j < i ==> (#[trigger] out@[j])@ == (SubscriptionSummary {
                    name: names@[j]@,
                    node_count: if names@[j]@ == active@ {
                        Some(count)
                    } else {
                        None
                    },
                }),
        decreases names@.len() - i,
    {
        let name = names[i].clone();
        let node_count: Option<usize> = if same(name.as_str(), active) {
            Some(count)
        } else {
            None
        };
        out.push(SubscriptionSummary { name, node_count });
        i = i + 1;
    }
    assert(texts(names@).len() == names@.len());
    assert(summaries(out@) =~= catalog_summaries(texts(names@), active@, count as nat));
    out
}

/// A snapshot of one class, or `None` if the state knows no such class. The
/// number of queued changes is read before and after the rest, so that a
/// change under way is never missed.
pub fn class_snapshot(
    class: &str,
    runtime: &SubscriptionRuntime,
    state: &StateFile,
    traffic: &TrafficCounters,
    conns: u64,
    txns_before: u64,
    txns_after: u64,
) -> (r: Option<StatusSnapshot>)
    ensures
        opt_view(r) == snapshot_of(
            class@,
            runtime@,
            state@,
            traffic@,
            conns,
            txns_before != 0 || txns_after != 0,
        ),
{
    match state.routes().get(class) {
        None => None,
        Some(route) => {
            let route = route.dup();
            let available_nodes = names_of(&runtime.nodes);
            let available_subscriptions = summarize(
                &runtime.catalog,
                runtime.active.as_str(),
                runtime.nodes.len(),
            );
            let s = StatusSnapshot {
                class: class.to_string(),
                active_node: route.active_node,
                socks_port: route.socks_port,
                http_port: route.http_port,
                generation: route.generation,
                nodes: state.stats().dup(),
                traffic: traffic.snapshot(),
                active_conns: conns,
                active_subscription: Some(runtime.active.clone()),
                subscription_generation: Some(runtime.generation),
                subscription_txn_in_progress: Some(txns_before != 0 || txns_after != 0),
                available_subscriptions,
                available_nodes,
            };
            assert(pool(runtime.nodes@).len() == runtime.nodes@.len());
            Some(s)
        },
    }
}

// ---------------------------------------------------------------------------
// Requests
// ---------------------------------------------------------------------------

pub open spec fn unknown_class_text(class: Seq<char>) -> Seq<char> {
    "unknown class "@ + debug_quoted(class)
}

pub fn unknown_class(class: &str) -> (r: Reply)
    ensures
        r@ == refusal(unknown_class_text(class@)),
{
    let mut s = "unknown class ".to_string();
    say_quoted(&mut s, class);
    Reply::err(s.as_str())
}

/// What a request asks of the daemon.
pub enum ControlAction {
    Answer(Reply),
    Switch { class: String, node: String },
    SwitchSubscription { name: String },
    ProbeNow { class: String },
    Reload,
    SiteProbe { sites: Vec<SiteTask> },
    SwitchForSite { class: String, site: String },
}

pub enum ActionView {
    Answer(ReplyView),
    Switch { class: Seq<char>, node: Seq<char> },
    SwitchSubscription { name: Seq<char> },
    ProbeNow { class: Seq<char> },
    Reload,
    SiteProbe { sites: Seq<SiteTask<Seq<char>>> },
    SwitchForSite { class: Seq<char>, site: Seq<char> },
}

impl View for ControlAction {
    type V = ActionView;

    open spec fn view(&self) -> ActionView {
        match self {
            ControlAction::Answer(r) => ActionView::Answer(r@),
            ControlAction::Switch { class, node } => ActionView::Switch {
                class: class@,
                node: node@,
            },
            ControlAction::SwitchSubscription { name } => ActionView::SwitchSubscription {
                name: name@,
            },
            ControlAction::ProbeNow { class } => ActionView::ProbeNow { class: class@ },
            ControlAction::Reload => ActionView::Reload,
            ControlAction::SiteProbe { sites } => ActionView::SiteProbe { sites: tasks(sites@) },
            ControlAction::SwitchForSite { class, site } => ActionView::SwitchForSite {
                class: class@,
                site: site@,
            },
        }
    }
}

/// The request that changes or tests something; the others are answered from
/// what the daemon knows.
pub open spec fn action_of(
    req: Request,
    classes: Set<Seq<char>>,
    sites: TextMap,
    status: Option<StatusView>,
    log: Seq<EventView>,
    verdicts: VerdictMap,
) -> ActionView {
    match req {
        Request::Ping => ActionView::Answer(plain_ok()),
        Request::Status { class } => match status {
            Some(s) => ActionView::Answer(ReplyView { status: Some(s), ..plain_ok() }),
            None => ActionView::Answer(refusal(unknown_class_text(class@))),
        },
        Request::Switch { class, node } => if classes.contains(class@) {
            ActionView::Switch { class: class@, node: node@ }
        } else {
            ActionView::Answer(refusal(unknown_class_text(class@)))
        },
        Request::SwitchSubscription { name } => ActionView::SwitchSubscription { name: name@ },
        Request::ProbeNow { class } => if classes.contains(class@) {
            ActionView::ProbeNow { class: class@ }
        } else {
            ActionView::Answer(refusal(unknown_class_text(class@)))
        },
        Request::Events => ActionView::Answer(ReplyView { events: Some(log), ..plain_ok() }),
        Request::Reload => ActionView::Reload,
        Request::SiteProbe { site } => match sites_to_probe(sites, opt_text(site)) {
            Ok(list) => ActionView::SiteProbe { sites: list },
            Err(e) => ActionView::Answer(refusal(e)),
        },
        Request::SiteStatus => ActionView::Answer(
            ReplyView { site_matrix: Some(verdicts), ..plain_ok() },
        ),
        Request::SwitchForSite { class, site } => if !sites.contains_key(site@) {
            ActionView::Answer(
                refusal(unknown_site_text(site@, ordered(sites.dom()))),
            )
        } else if !classes.contains(class@) {
            ActionView::Answer(refusal(unknown_class_text(class@)))
        } else {
            ActionView::SwitchForSite { class: class@, site: site@ }
        },
    }
}

/// The class whose snapshot a request wants.
pub fn status_class(req: &Request) -> (r: Option<&str>)
    ensures
        opt_str(r) == (match *req {
            Request::Status { class } => Some(class@),
            _ => None,
        }),
{
    match req {
        Request::Status { class } => Some(class.as_str()),
        _ => None,
    }
}

/// Decide what a request leads to. `status` is the snapshot of the class that
/// a status request names.
pub fn handle_control(
    req: Request,
    classes: &NameMap<ClassConfig>,
    sites: &NameMap<String>,
    status: Option<StatusSnapshot>,
    events: &EventLog,
    state: &StateFile,
) -> (r: ControlAction)
    ensures
        r@ == action_of(
            req,
            classes@.dom(),
            sites@,
            opt_view(status),
            events@.events,
            state@.verdicts,
        ),
{
    match req {
        Request::Ping => ControlAction::Answer(Reply::ok()),
        Request::Status { class } => match status {
            Some(s) => ControlAction::Answer(Reply::ok_status(s)),
            None => ControlAction::Answer(unknown_class(class.as_str())),
        },
        Request::Switch { class, node } => if classes.contains_key(class.as_str()) {
            ControlAction::Switch { class, node }
        } else {
            ControlAction::Answer(unknown_class(class.as_str()))
        },
        Request::SwitchSubscription { name } => ControlAction::SwitchSubscription { name },
        Request::ProbeNow { class } => if classes.contains_key(class.as_str()) {
            ControlAction::ProbeNow { class }
        } else {
            ControlAction::Answer(unknown_class(class.as_str()))
        },
        Request::Events => ControlAction::Answer(Reply::ok_events(events.snapshot())),
        Request::Reload => ControlAction::Reload,
        Request::SiteProbe { site } => {
            let wanted = borrow_opt(&site);
            match select_sites(sites, wanted) {
                Ok(list) => ControlAction::SiteProbe { sites: list },
                Err(e) => ControlAction::Answer(Reply::err(e.as_str())),
            }
        },
        Request::SiteStatus => ControlAction::Answer(
            Reply::ok_site_matrix(state.verdicts().dup()),
        ),
        Request::SwitchForSite { class, site } => if !sites.contains_key(site.as_str()) {
            let e = unknown_site(site.as_str(), sites);
            ControlAction::Answer(Reply::err(e.as_str()))
        } else if !classes.contains_key(class.as_str()) {
            ControlAction::Answer(unknown_class(class.as_str()))
        } else {
            ControlAction::SwitchForSite { class, site }
        },
    }
}

// ---------------------------------------------------------------------------
// Pre-checks
// ---------------------------------------------------------------------------

/// Why a candidate path is not installed: its check did not succeed.
pub open spec fn precheck_fault(check: Result<u16, Seq<char>>) -> Option<Seq<char>> {
    match check {
        Ok(code) => if success(code) {
            None
        } else {
            Some("candidate path pre-check returned HTTP "@ + decimal(code as nat))
        },
        Err(e) => Some("candidate path pre-check failed: "@ + e),
    }
}

/// Judge the check of a candidate path, which comes before any switch to it.
pub fn judge_precheck(check: Result<u16, String>) -> (r: Option<String>)
    ensures
        opt_text(r) == precheck_fault(
            match check {
                Ok(code) => Ok(code),
                Err(e) => Err(e@),
            },
        ),
{
    match check {
        Ok(code) => if is_success(code) {
            None
        } else {
            let mut s = "candidate path pre-check returned HTTP ".to_string();
            let n = decimal_text(code as u64);
            say(&mut s, n.as_str());
            Some(s)
        },
        Err(e) => {
            let mut s = "candidate path pre-check failed: ".to_string();
            say(&mut s, e.as_str());
            Some(s)
        },
    }
}

// ---------------------------------------------------------------------------
// Retired paths
// ---------------------------------------------------------------------------

/// How long connections may hold a retired path beyond the grace period, in
/// milliseconds.
pub const RETIRED_PATH_MAX_EXTENSION_MS: u64 = 1_800_000;

/// How often a retired path's connections are counted, in milliseconds.
pub const RETIRED_PATH_POLL_MS: u64 = 100;

/// What to do with a retired path.
#[derive(Debug, Clone, Copy, PartialEq, Eq, Structural)]
pub enum DrainStep {
    /// Look again after so many milliseconds.
    Wait(u64),
    Stop,
    /// Connections are left, but they have had their time.
    StopCapped,
}

pub open spec fn hard_cap(grace: u64, extension: u64) -> u64 {
    if grace + extension > u64::MAX {
        u64::MAX
    } else {
        (grace + extension) as u64
    }
}

/// A retired path waits out the grace period, and then for its connections,
/// up to the hard cap. Shutdown ends the wait at once.
pub open spec fn drained(
    elapsed: u64,
    grace: u64,
    extension: u64,
    poll: u64,
    connections: u64,
    shutting_down: bool,
) -> DrainStep {
    let cap = hard_cap(grace, extension);
    if shutting_down {
        DrainStep::Stop
    } else if elapsed < grace {
        DrainStep::Wait((grace - elapsed) as u64)
    } else if connections == 0 {
        DrainStep::Stop
    } else if elapsed >= cap {
        DrainStep::StopCapped
    } else if cap - elapsed < poll {
        DrainStep::Wait((cap - elapsed) as u64)
    } else {
        DrainStep::Wait(poll)
    }
}

pub fn drain_step(
    elapsed: u64,
    grace: u64,
    extension: u64,
    poll: u64,
    connections: u64,
    shutting_down: bool,
) -> (r: DrainStep)
    ensures
        r == drained(elapsed, grace, extension, poll, connections, shutting_down),
{
    let cap: u64 = if grace > u64::MAX - extension {
        u64::MAX
    } else {
        grace + extension
    };
    if shutting_down {
        DrainStep::Stop
    } else if elapsed < grace {
        DrainStep::Wait(grace - elapsed)
    } else if connections == 0 {
        DrainStep::Stop
    } else if elapsed >= cap {
        DrainStep::StopCapped
    } else if cap - elapsed < poll {
        DrainStep::Wait(cap - elapsed)
    } else {
        DrainStep::Wait(poll)
    }
}

/// A retired path is never stopped within its grace period, nor while
/// connections use it before the hard cap, unless the daemon shuts down. From
/// the cap on it always is.
pub proof fn law_drain_is_gentle_and_bounded(
    elapsed: u64,
    grace: u64,
    extension: u64,
    poll: u64,
    connections: u64,
)
    ensures
        elapsed < grace ==> drained(elapsed, grace, extension, poll, connections, false) is Wait,
        connections > 0 && elapsed < hard_cap(grace, extension) ==> drained(
            elapsed,
            grace,
            extension,
            poll,
            connections,
            false,
        ) is Wait,
        elapsed >= hard_cap(grace, extension) ==> !(drained(
            elapsed,
            grace,
            extension,
            poll,
            connections,
            false,
        ) is Wait),
        drained(elapsed, grace, extension, poll, connections, true) == DrainStep::Stop,
        poll > 0 ==> match drained(elapsed, grace, extension, poll, connections, false) {
            DrainStep::Wait(ms) => ms > 0,
            _ => true,
        },
{
}

// ---------------------------------------------------------------------------
// Changes of the host's egress
// ---------------------------------------------------------------------------

/// How often the default routes are read, in milliseconds.
pub const EGRESS_OBSERVE_INTERVAL_MS: u64 = 2_000;

/// How long a change must last, in milliseconds.
pub const EGRESS_STABLE_MS: u64 = 15_000;

/// How long after a rebuild the next one may follow, in milliseconds.
pub const EGRESS_REBUILD_COOLDOWN_MS: u64 = 60_000;

/// The node that a class is to be rebuilt on: its own. Shutdown and every
/// queued subscription change take precedence.
pub fn begin_rebuild(rt: &ClassRuntime, shutting_down: bool, txns: u64) -> (r: Option<Node>)
    ensures
        opt_view(r) == (if shutting_down || txns != 0 {
            None
        } else {
            rt@.active
        }),
{
    if shutting_down || txns != 0 {
        return None;
    }
    match &rt.active {
        Some(n) => Some(n.dup()),
        None => None,
    }
}

/// Is a rebuilt path still wanted once it is ready?
pub fn rebuild_is_current(shutting_down: bool, txns: u64, egress_unchanged: bool) -> (r: bool)
    ensures
        r == (!shutting_down && txns == 0 && egress_unchanged),
{
    !shutting_down && txns == 0 && egress_unchanged
}

// ---------------------------------------------------------------------------
// Startup
// ---------------------------------------------------------------------------

/// The profile to start with: the one that the state names, if it is still
/// configured, or the catalog's default.
pub open spec fn startup_profile(active: Option<Seq<char>>, c: CatalogView) -> Result<
    Seq<char>,
    CatalogError,
> {
    match catalog_default(c) {
        Err(e) => Err(e),
        Ok(default) => match active {
            Some(name) => if catalog_profile(c, name) is Some {
                Ok(name)
            } else {
                Ok(default)
            },
            None => Ok(default),
        },
    }
}

pub fn choose_profile(active: Option<&str>, catalog: &SubscriptionsConfig) -> (r: Result<
    String,
    CatalogError,
>)
    ensures
        match r {
            Ok(name) => startup_profile(opt_str(active), catalog@) == Ok::<
                Seq<char>,
                CatalogError,
            >(name@),
            Err(e) => startup_profile(opt_str(active), catalog@) == Err::<Seq<char>, CatalogError>(
                e,
            ),
        },
{
    let default = match catalog.default_profile_name() {
        Ok(d) => d,
        Err(e) => return Err(e),
    };
    match active {
        Some(name) => if catalog.profile(name).is_some() {
            Ok(name.to_string())
        } else {
            Ok(default)
        },
        None => Ok(default),
    }
}

/// Bring a loaded state up to date with the configured sources, and activate
/// the profile to start with.
pub fn begin_startup(
    state: &mut StateFile,
    catalog: &SubscriptionsConfig,
    identities: &NameMap<String>,
) -> (r: Result<String, CatalogError>)
    ensures
        match r {
            Ok(name) => {
                let s = reconciled(old(state)@, identities@);
                &&& startup_profile(s.active, catalog@) == Ok::<Seq<char>, CatalogError>(name@)
                &&& final(state)@ == activated(s, name@)
            },
            Err(e) => {
                let s = reconciled(old(state)@, identities@);
                &&& startup_profile(s.active, catalog@) == Err::<Seq<char>, CatalogError>(e)
                &&& final(state)@ == s
            },
        },
{
    state.reconcile_startup_sources(identities);
    let name = match choose_profile(state.active(), catalog) {
        Ok(n) => n,
        Err(e) => return Err(e),
    };
    state.activate_subscription(name.as_str());
    Ok(name)
}

/// The cache generation to start from: `None` keeps everything that an
/// unconfirmed source left behind out.
pub open spec fn startup_slot(s: StateView, identities: TextMap, active: Seq<char>) -> Option<
    Option<Seq<char>>,
> {
    if s.slots.contains_key(active) {
        Some(Some(s.slots[active]))
    } else if identities.contains_key(active) && s.trusts(active, identities[active]) {
        Some(None)
    } else {
        None
    }
}

/// The nodes to start with, and whether an unconfirmed source kept its cache
/// out.
pub open spec fn startup_pool(
    s: StateView,
    identities: TextMap,
    active: Seq<char>,
    profile: ProfileView,
    read: ReadMap,
) -> (Seq<NodeView>, bool) {
    match startup_slot(s, identities, active) {
        Some(slot) => (all_nodes(snapshot_paths_of(profile, slot), read), false),
        None => (Seq::empty(), true),
    }
}

/// The files to read before `startup_snapshot`.
pub fn startup_paths(
    state: &StateFile,
    identities: &NameMap<String>,
    active: &str,
    profile: &SubscriptionProfileConfig,
) -> (r: Vec<String>)
    ensures
        texts(r@) == (match startup_slot(state@, identities@, active@) {
            Some(slot) => snapshot_paths_of(profile@, slot),
            None => Seq::empty(),
        }),
{
    match state.slots().get(active) {
        Some(slot) => snapshot_paths(profile, Some(slot.as_str())),
        None => {
            let trusted = match identities.get(active) {
                Some(identity) => state.source_is_trusted(active, identity.as_str()),
                None => false,
            };
            if trusted {
                snapshot_paths(profile, None)
            } else {
                let none: Vec<String> = Vec::new();
                assert(texts(none@) =~= Seq::empty());
                none
            }
        },
    }
}

/// The offline pool that the daemon starts with.
pub fn startup_snapshot(
    state: &StateFile,
    identities: &NameMap<String>,
    active: &str,
    profile: &SubscriptionProfileConfig,
    read: &NameMap<FileText<String>>,
) -> (r: (Vec<Node>, bool))
    ensures
        (pool(r.0@), r.1) == startup_pool(state@, identities@, active@, profile@, read@),
{
    match state.slots().get(active) {
        Some(slot) => (load_profile_snapshot_from_slot(profile, Some(slot.as_str()), read), false),
        None => {
            let trusted = match identities.get(active) {
                Some(identity) => state.source_is_trusted(active, identity.as_str()),
                None => false,
            };
            if trusted {
                (load_profile_snapshot_from_slot(profile, None, read), false)
            } else {
                let none: Vec<Node> = Vec::new();
                assert(pool(none@) =~= Seq::empty());
                (none, true)
            }
        },
    }
}

/// A profile whose source changed while its change is unconfirmed never
/// starts from what the old source left in the bare cache file.
pub proof fn law_startup_respects_quarantine(
    s: StateView,
    identities: TextMap,
    active: Seq<char>,
    profile: ProfileView,
    read: ReadMap,
)
    requires
        !s.slots.contains_key(active),
        !identities.contains_key(active) || !s.trusts(active, identities[active]),
    ensures
        startup_pool(s, identities, active, profile, read) == (Seq::<NodeView>::empty(), true),
{
}

/// Why the daemon cannot start with an empty pool.
pub open spec fn startup_fault(active: Seq<char>, quarantined: bool, remote: bool) -> Seq<char> {
    if quarantined {
        "subscription profile "@ + debug_quoted(active)
            + " has a pending source change and its previous-source cache is quarantined; start with a different default profile and complete the change via `causeway switch`, or delete the state file to reset source trust"@
    } else if remote {
        "remote subscription profile "@ + debug_quoted(active)
            + " has no local snapshot; startup never fetches — prime its cache file once with a supported manifest, or start with a local snapshot profile and switch"@
    } else {
        "selected subscription has no supported nodes in its local snapshot"@
    }
}

/// May the daemon start with this pool?
pub fn check_startup(
    active: &str,
    profile: &SubscriptionProfileConfig,
    nodes: &Vec<Node>,
    quarantined: bool,
) -> (r: Option<String>)
    ensures
        opt_text(r) == (if nodes@.len() == 0 {
            Some(startup_fault(active@, quarantined, profile@.files.len() == 0))
        } else {
            None
        }),
{
    if nodes.len() > 0 {
        return None;
    }
    assert(profile@.files.len() == profile.files@.len());
    if quarantined {
        let mut s = "subscription profile ".to_string();
        say_quoted(&mut s, active);
        say(
            &mut s,
            " has a pending source change and its previous-source cache is quarantined; start with a different default profile and complete the change via `causeway switch`, or delete the state file to reset source trust",
        );
        Some(s)
    } else if profile.files.len() == 0 {
        let mut s = "remote subscription profile ".to_string();
        say_quoted(&mut s, active);
        say(
            &mut s,
            " has no local snapshot; startup never fetches — prime its cache file once with a supported manifest, or start with a local snapshot profile and switch",
        );
        Some(s)
    } else {
        Some("selected subscription has no supported nodes in its local snapshot".to_string())
    }
}

/// Has no node ever been probed?
pub open spec fn unprobed(s: StateView) -> bool {
    forall|n: Seq<char>| #[trigger] s.nodes.contains_key(n) ==> s.nodes[n].probe_count == 0
}

/// Without any probe data the first activation would pick blindly.
pub fn needs_startup_probe(state: &StateFile) -> (r: bool)
    ensures
        r == unprobed(state@),
{
    let stats = state.stats();
    let ghost ks = ordered(stats@.dom());
    let n: usize = stats.len();
    let mut i: usize = 0;
    while i < n
        invariant
            i <= n,
            n == ks.len(),
            stats@ == state@.nodes,
            stats@.dom().finite(),
            ks == ordered(stats@.dom()),
            forall|j: int|
                0 <= j < i ==> stats@[#[trigger] ks[j]].probe_count == 0,
        decreases n - i,
    {
        if stats.value_at(i).is_probed() {
            assert(stats@.contains_key(ks[i as int])) by {
                lemma_ordered_contains(stats@.dom(), ks[i as int]);
                assert(ks.contains(ks[i as int]));
            }
            return false;
        }
        i = i + 1;
    }
    assert forall|m: Seq<char>| #[trigger] state@.nodes.contains_key(m) implies state@.nodes[m].probe_count
        == 0 by {
        lemma_ordered_contains(stats@.dom(), m);
        let j = ks.index_of(m);
        assert(ks[j] == m);
    }
    true
}

/// The nodes to try for a class at startup: the one that the state recorded
/// for it, then by score, then those never probed.
pub fn initial_candidates(
    nodes: &Vec<Node>,
    state: &StateFile,
    class: &str,
    regions: &Vec<String>,
) -> (r: Vec<Node>)
    ensures
        pool(r@) == profile_list(
            pool(nodes@),
            state@.nodes,
            (if state@.classes.contains_key(class@) {
                state@.classes[class@].active_node
            } else {
                None
            }),
            texts(regions@),
        ),
        state@.classes.contains_key(class@) && state@.classes[class@].active_node is Some
            && crate::node::named(
            crate::selection::region_pool(pool(nodes@), texts(regions@)),
            state@.classes[class@].active_node->0,
        ) ==> r@.len() > 0 && pool(r@)[0].name() == state@.classes[class@].active_node->0,
{
    proof {
        if state@.classes.contains_key(class@) {
            crate::selection::law_profile_candidates(
                pool(nodes@),
                state@.nodes,
                state@.classes[class@].active_node,
                texts(regions@),
            );
        }
    }
    let preferred = match state.routes().get(class) {
        Some(c) => borrow_opt(&c.active_node),
        None => None,
    };
    profile_candidates(nodes, state.stats(), preferred, regions)
}

// ---------------------------------------------------------------------------
// Shutdown
// ---------------------------------------------------------------------------

/// A stopped class keeps its node and loses its ports.
pub fn clear_ports(state: &mut StateFile, class: &str)
    ensures
        final(state)@ == (StateView {
            classes: old(state)@.classes.insert(
                class@,
                ClassStateView {
                    socks_port: None,
                    http_port: None,
                    ..if old(state)@.classes.contains_key(class@) {
                        old(state)@.classes[class@]
                    } else {
                        no_route()
                    }
                },
            ),
            ..old(state)@
        }),
{
    let mut route = match state.routes().get(class) {
        Some(c) => c.dup(),
        None => ClassState::default(),
    };
    route.socks_port = None;
    route.http_port = None;
    state.set_class(class, route);
}

// ---------------------------------------------------------------------------
// What requests and snapshots promise
// ---------------------------------------------------------------------------

/// The status of a class shows what the state has on record for it, the pool
/// and the profiles of the running catalog; only the active profile shows how
/// many nodes it has.
pub proof fn law_status_shows_the_record(
    class: Seq<char>,
    rt: SubscriptionView,
    s: StateView,
    t: TrafficView,
    conns: u64,
    queued: bool,
)
    requires
        rt.nodes.len() <= usize::MAX,
    ensures
        snapshot_of(class, rt, s, t, conns, queued) is Some <==> s.classes.contains_key(class),
        snapshot_of(class, rt, s, t, conns, queued) matches Some(v) ==> {
            &&& v.class == class
            &&& v.active_node == s.classes[class].active_node
            &&& v.socks_port == s.classes[class].socks_port
            &&& v.http_port == s.classes[class].http_port
            &&& v.generation == s.classes[class].generation
            &&& v.nodes == s.nodes && v.traffic == t.nodes && v.active_conns == conns
            &&& v.active_subscription == Some(rt.active)
            &&& v.subscription_generation == Some(rt.generation)
            &&& v.subscription_txn_in_progress == Some(queued)
            &&& v.available_nodes.len() == rt.nodes.len()
            &&& forall|i: int|
                0 <= i < rt.nodes.len() ==> #[trigger] v.available_nodes[i] == rt.nodes[i].name()
            &&& v.available_subscriptions.len() == catalog_names(rt.catalog).len()
            &&& forall|i: int|
                0 <= i < v.available_subscriptions.len() ==> {
                    let p = #[trigger] v.available_subscriptions[i];
                    &&& p.name == catalog_names(rt.catalog)[i]
                    &&& p.name == rt.active ==> p.node_count == Some(rt.nodes.len() as usize)
                    &&& p.name != rt.active ==> p.node_count is None
                }
        },
{
}

/// A path that was installed is what the status then shows.
pub proof fn law_status_shows_the_installed_path(
    class: Seq<char>,
    rt: SubscriptionView,
    s: StateView,
    t: TrafficView,
    conns: u64,
    queued: bool,
    node: Seq<char>,
    ports: crate::runtime::Ports,
    generation: u64,
    now: i64,
)
    ensures
        snapshot_of(
            class,
            rt,
            crate::runtime::installed_state(s, class, node, ports, generation, now),
            t,
            conns,
            queued,
        ) matches Some(v) && v.active_node == Some(node) && v.socks_port == Some(ports.socks)
            && v.http_port == Some(ports.http) && v.generation == generation,
{
}

/// A request about a class or a site that is not configured is answered with a
/// refusal; any other is carried out on the very class, node, profile and site
/// that it names. Requests that only ask are answered at once.
pub proof fn law_requests_act_on_what_they_name(
    req: Request,
    classes: Set<Seq<char>>,
    sites: TextMap,
    status: Option<StatusView>,
    log: Seq<EventView>,
    verdicts: VerdictMap,
)
    ensures
        ({
            let a = action_of(req, classes, sites, status, log, verdicts);
            &&& req is Ping ==> (a matches ActionView::Answer(r) && r.ok)
            &&& req is Status ==> (a matches ActionView::Answer(r) && r.ok == (status is Some)
                && r.status == status)
            &&& req matches Request::Switch { class, node } ==> if classes.contains(class@) {
                a matches ActionView::Switch { class: c, node: n } && c == class@ && n == node@
            } else {
                a matches ActionView::Answer(r) && !r.ok
            }
            &&& req matches Request::SwitchSubscription { name } ==> (a matches
                ActionView::SwitchSubscription { name: n } && n == name@)
            &&& req matches Request::ProbeNow { class } ==> if classes.contains(class@) {
                a matches ActionView::ProbeNow { class: c } && c == class@
            } else {
                a matches ActionView::Answer(r) && !r.ok
            }
            &&& req is Events ==> (a matches ActionView::Answer(r) && r.ok && r.events == Some(log))
            &&& req is Reload ==> a is Reload
            &&& req is SiteStatus ==> (a matches ActionView::Answer(r) && r.ok && r.site_matrix
                == Some(verdicts))
            &&& req matches Request::SiteProbe { site: Some(site) } ==> if sites.contains_key(site@) {
                a matches ActionView::SiteProbe { sites: v } && v.len() == 1 && v[0].name == site@
                    && v[0].url == sites[site@]
            } else {
                a matches ActionView::Answer(r) && !r.ok
            }
            &&& req matches Request::SwitchForSite { class, site } ==> if classes.contains(class@)
                && sites.contains_key(site@) {
                a matches ActionView::SwitchForSite { class: c, site: t } && c == class@ && t
                    == site@
            } else {
                a matches ActionView::Answer(r) && !r.ok
            }
        }),
{
}

/// A candidate path passes its check exactly with a code from 200 to 299.
pub proof fn law_precheck_needs_a_2xx(check: Result<u16, Seq<char>>)
    ensures
        precheck_fault(check) is None <==> (check matches Ok(code) && 200 <= code <= 299),
{
}

/// A retired path is waited for until its grace is over, then as long as it
/// has connections and the extension lasts, looking again after each poll; it
/// never waits past either end.
pub proof fn law_drain_waits_no_longer(
    elapsed: u64,
    grace: u64,
    extension: u64,
    poll: u64,
    connections: u64,
)
    requires
        grace + extension <= u64::MAX,
    ensures
        ({
            let step = drained(elapsed, grace, extension, poll, connections, false);
            &&& elapsed < grace ==> step == DrainStep::Wait((grace - elapsed) as u64)
            &&& elapsed >= grace && connections == 0 ==> step == DrainStep::Stop
            &&& step == DrainStep::StopCapped <==> elapsed >= grace + extension && connections > 0
            &&& elapsed >= grace ==> (step matches DrainStep::Wait(ms) ==> ms <= poll && elapsed
                + ms <= grace + extension && connections > 0)
        }),
{
}

/// At startup the profile that was active goes on where the catalog still has
/// it; otherwise the default of the catalog takes its place.
pub proof fn law_startup_goes_on_with_the_active_profile(active: Option<Seq<char>>, c: CatalogView)
    ensures
        startup_profile(active, c) is Ok <==> catalog_default(c) is Ok,
        catalog_default(c) is Ok && active is Some && catalog_profile(c, active->0) is Some
            ==> startup_profile(active, c) == Ok::<Seq<char>, CatalogError>(active->0),
        catalog_default(c) is Ok && (active is None || catalog_profile(c, active->0) is None)
            ==> startup_profile(active, c) == catalog_default(c),
{
}

/// At startup the nodes come from the confirmed slot where there is one, else
/// from the plain snapshot of a trusted source; otherwise there are none and
/// the profile counts as quarantined.
pub proof fn law_startup_pool(
    s: StateView,
    identities: TextMap,
    active: Seq<char>,
    profile: ProfileView,
    read: ReadMap,
)
    ensures
        s.slots.contains_key(active) ==> startup_pool(s, identities, active, profile, read) == (
            all_nodes(snapshot_paths_of(profile, Some(s.slots[active])), read),
            false,
        ),
        !s.slots.contains_key(active) && identities.contains_key(active)
            && s.identities.contains_key(active) && s.identities[active] == identities[active]
            && !s.pending.contains_key(active) ==> startup_pool(
            s,
            identities,
            active,
            profile,
            read,
        ) == (all_nodes(snapshot_paths_of(profile, None), read), false),
        startup_pool(s, identities, active, profile, read).1 ==> startup_pool(
            s,
            identities,
            active,
            profile,
            read,
        ).0.len() == 0 && !s.slots.contains_key(active),
{
}

/// A pool is probed at startup exactly where no node was ever probed: one that
/// was is enough.
pub proof fn law_one_probe_is_enough(s: StateView, n: Seq<char>)
    requires
        s.nodes.contains_key(n),
    ensures
        s.nodes[n].probe_count > 0 ==> !unprobed(s),
        (forall|m: Seq<char>| #[trigger] s.nodes.contains_key(m) ==> s.nodes[m].probe_count == 0)
            ==> unprobed(s),
        unprobed(StateView { nodes: Map::empty(), ..s }),
{
}

} // verus!
