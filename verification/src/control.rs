//! The control surface: requests, replies and events, and who may own the
//! control socket.

use vstd::prelude::*;

use crate::config::{run_dir, run_dir_of, Config};
use crate::digest::say;
use crate::manifest::opt_view;
use crate::names::{Model, NameMap};
use crate::paths::{join, joined};
use crate::score::NodeStats;
use crate::siteprobe::SiteVerdict;
use crate::state::{StatsMap, VerdictMap};
use crate::text::{opt_text, texts, trim, trimmed};

verus! {

/// Socket file inside the daemon's run directory.
pub const SOCKET_NAME: &'static str = "control.sock";

/// One line per request, capped.
pub const MAX_REQUEST_BYTES: u64 = 4096;

pub open spec fn socket_path_of(state_file: Seq<char>) -> Seq<char> {
    joined(run_dir_of(state_file), SOCKET_NAME@)
}

pub fn socket_path(cfg: &Config) -> (r: String)
    ensures
        r@ == socket_path_of(cfg.state_file@),
{
    let dir = run_dir(cfg.state_file.as_str());
    join(dir.as_str(), SOCKET_NAME)
}

// ---------------------------------------------------------------------------
// Requests, events and replies
// ---------------------------------------------------------------------------

#[allow(inconsistent_fields)]
#[derive(Debug, PartialEq, Eq)]
pub enum Request<T = String> {
    /// Liveness probe.
    Ping,
    /// Live snapshot of one class.
    Status { class: T },
    /// Switch a class to a node, or to the best node that works.
    Switch { class: T, node: T },
    /// Switch every class to a subscription profile at once.
    SwitchSubscription { name: T },
    /// End-to-end test of every node.
    ProbeNow { class: T },
    /// The recent events.
    Events,
    /// Read the configuration and the subscriptions again.
    Reload,
    /// Probe one site, or all of them, through every node.
    SiteProbe { site: Option<T> },
    /// The verdicts on record.
    SiteStatus,
    /// Leave a node whose exit the site refuses.
    SwitchForSite { class: T, site: T },
}

#[derive(Debug, PartialEq, Eq)]
pub struct SwitchOutcome<T = String> {
    /// The node that was asked for.
    pub requested: T,
    /// The node that was installed.
    pub installed: T,
    /// The requested node failed its pre-check and another one won.
    pub fallback: bool,
}

impl View for SwitchOutcome<String> {
    type V = SwitchOutcome<Seq<char>>;

    open spec fn view(&self) -> SwitchOutcome<Seq<char>> {
        SwitchOutcome {
            requested: self.requested@,
            installed: self.installed@,
            fallback: self.fallback,
        }
    }
}

/// A configured profile as clients see it: no sources and no URLs.
#[derive(Debug, PartialEq, Eq)]
pub struct SubscriptionSummary<T = String> {
    pub name: T,
    /// Known for the active profile only.
    pub node_count: Option<usize>,
}

impl View for SubscriptionSummary<String> {
    type V = SubscriptionSummary<Seq<char>>;

    open spec fn view(&self) -> SubscriptionSummary<Seq<char>> {
        SubscriptionSummary { name: self.name@, node_count: self.node_count }
    }
}

/// Result of a subscription switch or refresh.
#[derive(Debug, PartialEq, Eq)]
pub struct SubscriptionSwitchOutcome<T = String> {
    pub previous: T,
    pub active: T,
    pub node_count: usize,
    /// The profile was active already and was read and activated again.
    pub refreshed: bool,
}

impl View for SubscriptionSwitchOutcome<String> {
    type V = SubscriptionSwitchOutcome<Seq<char>>;

    open spec fn view(&self) -> SubscriptionSwitchOutcome<Seq<char>> {
        SubscriptionSwitchOutcome {
            previous: self.previous@,
            active: self.active@,
            node_count: self.node_count,
            refreshed: self.refreshed,
        }
    }
}

/// Result of a switch that a site asked for.
#[derive(Debug, PartialEq, Eq)]
pub struct SwitchForSiteOutcome<T = String> {
    pub site: T,
    /// `kept`, `switched` or `no-candidate`.
    pub action: T,
    pub node_before: Option<T>,
    pub node_after: Option<T>,
    pub detail: T,
}

impl View for SwitchForSiteOutcome<String> {
    type V = SwitchForSiteOutcome<Seq<char>>;

    open spec fn view(&self) -> SwitchForSiteOutcome<Seq<char>> {
        SwitchForSiteOutcome {
            site: self.site@,
            action: self.action@,
            node_before: opt_text(self.node_before),
            node_after: opt_text(self.node_after),
            detail: self.detail@,
        }
    }
}

/// Cumulative byte counts of one node.
#[derive(Debug, Clone, Copy, PartialEq, Eq, Structural)]
pub struct NodeTraffic {
    /// Client to node.
    pub up: u64,
    /// Node to client.
    pub down: u64,
}

impl View for NodeTraffic {
    type V = NodeTraffic;

    open spec fn view(&self) -> NodeTraffic {
        *self
    }
}

impl Model for NodeTraffic {
    fn dup(&self) -> (r: Self) {
        *self
    }
}

impl Default for NodeTraffic {
    fn default() -> (r: Self)
        ensures
            r == (NodeTraffic { up: 0, down: 0 }),
    {
        NodeTraffic { up: 0, down: 0 }
    }
}

/// Result of one end-to-end node test. The round trip is the bits of its
/// milliseconds as a double.
#[derive(Debug, PartialEq, Eq)]
pub struct ProbeResult<T = String> {
    pub node: T,
    pub ok: bool,
    pub rtt_ms: Option<u64>,
    /// The status, where it was not a success.
    pub http_status: Option<u16>,
    pub error: Option<T>,
}

impl View for ProbeResult<String> {
    type V = ProbeResult<Seq<char>>;

    open spec fn view(&self) -> ProbeResult<Seq<char>> {
        ProbeResult {
            node: self.node@,
            ok: self.ok,
            rtt_ms: self.rtt_ms,
            http_status: self.http_status,
            error: opt_text(self.error),
        }
    }
}

/// Notable daemon events.
#[derive(Debug, PartialEq, Eq)]
pub enum Event<T = String> {
    /// A path was installed on a class.
    Switched { unix: i64, class: T, node: T, reason: T, generation: u64 },
    /// A candidate failed during a switch attempt.
    ActivationFailed { unix: i64, class: T, node: T, error: T },
    /// The active path failed a health check.
    HealthFailed { unix: i64, class: T, node: T, consecutive: u32 },
    /// A probe cycle finished.
    Probed { unix: i64, source: T, ok: usize, total: usize },
    /// A reload attempt finished.
    Reloaded { unix: i64, detail: T },
    /// A profile was installed for every class.
    SubscriptionChanged { unix: i64, previous: T, active: T, node_count: usize, refreshed: bool },
    /// A subscription change failed before its commit.
    SubscriptionChangeFailed { unix: i64, profile: T, error: T },
}

pub type EventView = Event<Seq<char>>;

impl<T> Event<T> {
    /// The time that every event carries.
    pub open spec fn time(self) -> i64 {
        match self {
            Event::Switched { unix, .. } => unix,
            Event::ActivationFailed { unix, .. } => unix,
            Event::HealthFailed { unix, .. } => unix,
            Event::Probed { unix, .. } => unix,
            Event::Reloaded { unix, .. } => unix,
            Event::SubscriptionChanged { unix, .. } => unix,
            Event::SubscriptionChangeFailed { unix, .. } => unix,
        }
    }

    /// Unix timestamp of the event.
    pub fn unix(&self) -> (r: i64)
        ensures
            r == self.time(),
    {
        match self {
            Event::Switched { unix, .. } => *unix,
            Event::ActivationFailed { unix, .. } => *unix,
            Event::HealthFailed { unix, .. } => *unix,
            Event::Probed { unix, .. } => *unix,
            Event::Reloaded { unix, .. } => *unix,
            Event::SubscriptionChanged { unix, .. } => *unix,
            Event::SubscriptionChangeFailed { unix, .. } => *unix,
        }
    }
}

impl View for Event<String> {
    type V = Event<Seq<char>>;

    open spec fn view(&self) -> Event<Seq<char>> {
        match self {
            Event::Switched { unix, class, node, reason, generation } => Event::Switched {
                unix: *unix,
                class: class@,
                node: node@,
                reason: reason@,
                generation: *generation,
            },
            Event::ActivationFailed { unix, class, node, error } => Event::ActivationFailed {
                unix: *unix,
                class: class@,
                node: node@,
                error: error@,
            },
            Event::HealthFailed { unix, class, node, consecutive } => Event::HealthFailed {
                unix: *unix,
                class: class@,
                node: node@,
                consecutive: *consecutive,
            },
            Event::Probed { unix, source, ok, total } => Event::Probed {
                unix: *unix,
                source: source@,
                ok: *ok,
                total: *total,
            },
            Event::Reloaded { unix, detail } => Event::Reloaded { unix: *unix, detail: detail@ },
            Event::SubscriptionChanged { unix, previous, active, node_count, refreshed } => {
                Event::SubscriptionChanged {
                    unix: *unix,
                    previous: previous@,
                    active: active@,
                    node_count: *node_count,
                    refreshed: *refreshed,
                }
            },
            Event::SubscriptionChangeFailed { unix, profile, error } => {
                Event::SubscriptionChangeFailed {
                    unix: *unix,
                    profile: profile@,
                    error: error@,
                }
            },
        }
    }
}

impl Model for Event<String> {
    fn dup(&self) -> (r: Self) {
        match self {
            Event::Switched { unix, class, node, reason, generation } => Event::Switched {
                unix: *unix,
                class: class.clone(),
                node: node.clone(),
                reason: reason.clone(),
                generation: *generation,
            },
            Event::ActivationFailed { unix, class, node, error } => Event::ActivationFailed {
                unix: *unix,
                class: class.clone(),
                node: node.clone(),
                error: error.clone(),
            },
            Event::HealthFailed { unix, class, node, consecutive } => Event::HealthFailed {
                unix: *unix,
                class: class.clone(),
                node: node.clone(),
                consecutive: *consecutive,
            },
            Event::Probed { unix, source, ok, total } => Event::Probed {
                unix: *unix,
                source: source.clone(),
                ok: *ok,
                total: *total,
            },
            Event::Reloaded { unix, detail } => Event::Reloaded {
                unix: *unix,
                detail: detail.clone(),
            },
            Event::SubscriptionChanged { unix, previous, active, node_count, refreshed } => {
                Event::SubscriptionChanged {
                    unix: *unix,
                    previous: previous.clone(),
                    active: active.clone(),
                    node_count: *node_count,
                    refreshed: *refreshed,
                }
            },
            Event::SubscriptionChangeFailed { unix, profile, error } => {
                Event::SubscriptionChangeFailed {
                    unix: *unix,
                    profile: profile.clone(),
                    error: error.clone(),
                }
            },
        }
    }
}

/// Live snapshot of one class.
pub struct StatusSnapshot {
    pub class: String,
    pub active_node: Option<String>,
    pub socks_port: Option<u16>,
    pub http_port: Option<u16>,
    pub generation: u64,
    pub nodes: NameMap<NodeStats>,
    pub traffic: NameMap<NodeTraffic>,
    /// Connections that the listeners carry now.
    pub active_conns: u64,
    pub active_subscription: Option<String>,
    /// Publication counter of the subscription, within one process.
    pub subscription_generation: Option<u64>,
    /// Is any subscription change queued or under way?
    pub subscription_txn_in_progress: Option<bool>,
    pub available_subscriptions: Vec<SubscriptionSummary>,
    /// Nodes of the active pool, with or without statistics.
    pub available_nodes: Vec<String>,
}

#[verifier::ext_equal]
pub struct StatusView {
    pub class: Seq<char>,
    pub active_node: Option<Seq<char>>,
    pub socks_port: Option<u16>,
    pub http_port: Option<u16>,
    pub generation: u64,
    pub nodes: StatsMap,
    pub traffic: Map<Seq<char>, NodeTraffic>,
    pub active_conns: u64,
    pub active_subscription: Option<Seq<char>>,
    pub subscription_generation: Option<u64>,
    pub subscription_txn_in_progress: Option<bool>,
    pub available_subscriptions: Seq<SubscriptionSummary<Seq<char>>>,
    pub available_nodes: Seq<Seq<char>>,
}

pub open spec fn summaries(v: Seq<SubscriptionSummary>) -> Seq<SubscriptionSummary<Seq<char>>> {
    v.map_values(|s: SubscriptionSummary| s@)
}

impl View for StatusSnapshot {
    type V = StatusView;

    open spec fn view(&self) -> StatusView {
        StatusView {
            class: self.class@,
            active_node: opt_text(self.active_node),
            socks_port: self.socks_port,
            http_port: self.http_port,
            generation: self.generation,
            nodes: self.nodes@,
            traffic: self.traffic@,
            active_conns: self.active_conns,
            active_subscription: opt_text(self.active_subscription),
            subscription_generation: self.subscription_generation,
            subscription_txn_in_progress: self.subscription_txn_in_progress,
            available_subscriptions: summaries(self.available_subscriptions@),
            available_nodes: texts(self.available_nodes@),
        }
    }
}

pub struct Reply {
    pub ok: bool,
    pub error: Option<String>,
    pub status: Option<StatusSnapshot>,
    pub switch: Option<SwitchOutcome>,
    pub subscription_switch: Option<SubscriptionSwitchOutcome>,
    pub probe: Option<Vec<ProbeResult>>,
    pub events: Option<Vec<Event>>,
    pub site_matrix: Option<NameMap<NameMap<SiteVerdict>>>,
    pub site_switch: Option<SwitchForSiteOutcome>,
    /// Free-form detail of a success.
    pub message: Option<String>,
}

#[verifier::ext_equal]
pub struct ReplyView {
    pub ok: bool,
    pub error: Option<Seq<char>>,
    pub status: Option<StatusView>,
    pub switch: Option<SwitchOutcome<Seq<char>>>,
    pub subscription_switch: Option<SubscriptionSwitchOutcome<Seq<char>>>,
    pub probe: Option<Seq<ProbeResult<Seq<char>>>>,
    pub events: Option<Seq<EventView>>,
    pub site_matrix: Option<VerdictMap>,
    pub site_switch: Option<SwitchForSiteOutcome<Seq<char>>>,
    pub message: Option<Seq<char>>,
}

pub open spec fn event_views(v: Seq<Event>) -> Seq<EventView> {
    v.map_values(|e: Event| e@)
}

pub open spec fn result_views(v: Seq<ProbeResult>) -> Seq<ProbeResult<Seq<char>>> {
    v.map_values(|e: ProbeResult| e@)
}

impl View for Reply {
    type V = ReplyView;

    open spec fn view(&self) -> ReplyView {
        ReplyView {
            ok: self.ok,
            error: opt_text(self.error),
            status: opt_view(self.status),
            switch: opt_view(self.switch),
            subscription_switch: opt_view(self.subscription_switch),
            probe: match self.probe {
                Some(v) => Some(result_views(v@)),
                None => None,
            },
            events: match self.events {
                Some(v) => Some(event_views(v@)),
                None => None,
            },
            site_matrix: opt_view(self.site_matrix),
            site_switch: opt_view(self.site_switch),
            message: opt_text(self.message),
        }
    }
}

/// Success with no payload.
pub open spec fn plain_ok() -> ReplyView {
    ReplyView {
        ok: true,
        error: None,
        status: None,
        switch: None,
        subscription_switch: None,
        probe: None,
        events: None,
        site_matrix: None,
        site_switch: None,
        message: None,
    }
}

/// A refusal.
pub open spec fn refusal(error: Seq<char>) -> ReplyView {
    ReplyView { ok: false, error: Some(error), ..plain_ok() }
}

impl Reply {
    pub fn ok() -> (r: Self)
        ensures
            r@ == plain_ok(),
    {
        Reply {
            ok: true,
            error: None,
            status: None,
            switch: None,
            subscription_switch: None,
            probe: None,
            events: None,
            site_matrix: None,
            site_switch: None,
            message: None,
        }
    }

    pub fn ok_status(status: StatusSnapshot) -> (r: Self)
        ensures
            r@ == (ReplyView { status: Some(status@), ..plain_ok() }),
    {
        let mut r = Reply::ok();
        r.status = Some(status);
        r
    }

    pub fn ok_switch(switch: SwitchOutcome) -> (r: Self)
        ensures
            r@ == (ReplyView { switch: Some(switch@), ..plain_ok() }),
    {
        let mut r = Reply::ok();
        r.switch = Some(switch);
        r
    }

    pub fn ok_subscription_switch(subscription_switch: SubscriptionSwitchOutcome) -> (r: Self)
        ensures
            r@ == (ReplyView { subscription_switch: Some(subscription_switch@), ..plain_ok() }),
    {
        let mut r = Reply::ok();
        r.subscription_switch = Some(subscription_switch);
        r
    }

    pub fn ok_probe(probe: Vec<ProbeResult>) -> (r: Self)
        ensures
            r@ == (ReplyView { probe: Some(result_views(probe@)), ..plain_ok() }),
    {
        let mut r = Reply::ok();
        r.probe = Some(probe);
        r
    }

    pub fn ok_events(events: Vec<Event>) -> (r: Self)
        ensures
            r@ == (ReplyView { events: Some(event_views(events@)), ..plain_ok() }),
    {
        let mut r = Reply::ok();
        r.events = Some(events);
        r
    }

    pub fn ok_site_matrix(matrix: NameMap<NameMap<SiteVerdict>>) -> (r: Self)
        ensures
            r@ == (ReplyView { site_matrix: Some(matrix@), ..plain_ok() }),
    {
        let mut r = Reply::ok();
        r.site_matrix = Some(matrix);
        r
    }

    pub fn ok_site_switch(outcome: SwitchForSiteOutcome) -> (r: Self)
        ensures
            r@ == (ReplyView { site_switch: Some(outcome@), ..plain_ok() }),
    {
        let mut r = Reply::ok();
        r.site_switch = Some(outcome);
        r
    }

    pub fn ok_msg(message: &str) -> (r: Self)
        ensures
            r@ == (ReplyView { message: Some(message@), ..plain_ok() }),
    {
        let mut r = Reply::ok();
        r.message = Some(message.to_string());
        r
    }

    pub fn err(error: &str) -> (r: Self)
        ensures
            r@ == refusal(error@),
    {
        let mut r = Reply::ok();
        r.ok = false;
        r.error = Some(error.to_string());
        r
    }
}

// ---------------------------------------------------------------------------
// One connection
// ---------------------------------------------------------------------------

/// What to do with a connection once its line was read.
#[derive(Debug, PartialEq, Eq)]
pub enum LineAction<T = String> {
    /// Nothing was asked, or the daemon is shutting down: close.
    Close,
    /// Hand the text on to the parser.
    Dispatch(T),
}

pub open spec fn line_action_of(
    shutting_down: bool,
    read: nat,
    line: Seq<char>,
) -> LineAction<Seq<char>> {
    if read == 0 || shutting_down {
        LineAction::Close
    } else {
        LineAction::Dispatch(trimmed(line))
    }
}

/// No request has had any effect yet, so one that races with the shutdown is
/// dropped; a dispatched one is finished.
pub fn line_action(shutting_down: bool, read: usize, line: &str) -> (r: LineAction)
    ensures
        match r {
            LineAction::Close => line_action_of(shutting_down, read as nat, line@)
                == LineAction::<Seq<char>>::Close,
            LineAction::Dispatch(t) => line_action_of(shutting_down, read as nat, line@)
                == LineAction::Dispatch(t@),
        },
{
    if read == 0 || shutting_down {
        LineAction::Close
    } else {
        LineAction::Dispatch(trim(line))
    }
}

/// The reply to a line that is no request.
pub fn invalid_request(detail: &str) -> (r: Reply)
    ensures
        r@ == refusal("invalid request: "@ + detail@),
{
    let mut s = "invalid request: ".to_string();
    say(&mut s, detail);
    Reply::err(s.as_str())
}

// ---------------------------------------------------------------------------
// Ownership of the socket
// ---------------------------------------------------------------------------

/// What identifies a socket file.
#[derive(Debug, Clone, Copy, PartialEq, Eq, Structural)]
pub struct SocketIdentity {
    pub device: u64,
    pub inode: u64,
}

/// What stands at the control path; a symlink is not followed.
#[derive(Debug, PartialEq, Eq)]
pub enum PathFound<T = String> {
    Missing,
    Socket(SocketIdentity),
    /// Anything that is no socket.
    Other,
    Unreadable(T),
}

pub open spec fn found_view(f: PathFound) -> PathFound<Seq<char>> {
    match f {
        PathFound::Missing => PathFound::Missing,
        PathFound::Socket(i) => PathFound::Socket(i),
        PathFound::Other => PathFound::Other,
        PathFound::Unreadable(d) => PathFound::Unreadable(d@),
    }
}

/// How connecting to a socket that was found went.
#[derive(Debug, PartialEq, Eq)]
pub enum ConnectOutcome<T = String> {
    Accepted,
    Refused,
    Failed(T),
    TimedOut,
}

pub open spec fn connect_view(f: ConnectOutcome) -> ConnectOutcome<Seq<char>> {
    match f {
        ConnectOutcome::Accepted => ConnectOutcome::Accepted,
        ConnectOutcome::Refused => ConnectOutcome::Refused,
        ConnectOutcome::Failed(d) => ConnectOutcome::Failed(d@),
        ConnectOutcome::TimedOut => ConnectOutcome::TimedOut,
    }
}

/// The next step towards owning the control path.
#[derive(Debug, PartialEq, Eq)]
pub enum ClaimStep<T = String> {
    /// The path is free.
    Bind,
    /// See whether anyone answers at the socket.
    Connect(SocketIdentity),
    /// Nobody answers; look once more before removing it.
    Inspect,
    /// Remove the stale socket, then bind.
    Remove,
    Refuse(T),
}

pub open spec fn claim_view(f: ClaimStep) -> ClaimStep<Seq<char>> {
    match f {
        ClaimStep::Bind => ClaimStep::Bind,
        ClaimStep::Connect(i) => ClaimStep::Connect(i),
        ClaimStep::Inspect => ClaimStep::Inspect,
        ClaimStep::Remove => ClaimStep::Remove,
        ClaimStep::Refuse(d) => ClaimStep::Refuse(d@),
    }
}

pub open spec fn claim_after_look(path: Seq<char>, found: PathFound<Seq<char>>) -> ClaimStep<
    Seq<char>,
> {
    match found {
        PathFound::Missing => ClaimStep::Bind,
        PathFound::Socket(i) => ClaimStep::Connect(i),
        PathFound::Other => ClaimStep::Refuse(
            "refusing to replace non-socket control path "@ + path
                + "; move it aside and restart CAUSEWAY"@,
        ),
        PathFound::Unreadable(detail) => ClaimStep::Refuse(
            "inspect control socket "@ + path + ": "@ + detail,
        ),
    }
}

pub open spec fn claim_after_connect(
    path: Seq<char>,
    outcome: ConnectOutcome<Seq<char>>,
) -> ClaimStep<Seq<char>> {
    match outcome {
        ConnectOutcome::Accepted => ClaimStep::Refuse(
            "control socket "@ + path + " is already active; use the running CAUSEWAY daemon"@,
        ),
        ConnectOutcome::Refused => ClaimStep::Inspect,
        ConnectOutcome::Failed(detail) => ClaimStep::Refuse(
            "cannot verify whether control socket "@ + path
                + " is stale; refusing to remove it: "@ + detail,
        ),
        ConnectOutcome::TimedOut => ClaimStep::Refuse(
            "timed out checking control socket "@ + path + "; refusing to remove it"@,
        ),
    }
}

pub open spec fn claim_after_second_look(
    path: Seq<char>,
    expected: SocketIdentity,
    found: PathFound<Seq<char>>,
) -> ClaimStep<Seq<char>> {
    match found {
        PathFound::Socket(i) => if i == expected {
            ClaimStep::Remove
        } else {
            ClaimStep::Refuse(
                "control socket "@ + path
                    + " changed while checking it; refusing to remove it"@,
            )
        },
        PathFound::Other => ClaimStep::Refuse(
            "control socket "@ + path + " changed while checking it; refusing to remove it"@,
        ),
        PathFound::Missing => ClaimStep::Refuse(
            "re-inspect stale control socket "@ + path + ": not found"@,
        ),
        PathFound::Unreadable(detail) => ClaimStep::Refuse(
            "re-inspect stale control socket "@ + path + ": "@ + detail,
        ),
    }
}

fn phrase(before: &str, path: &str, after: &str) -> (r: String)
    ensures
        r@ == before@ + path@ + after@,
{
    let mut s = before.to_string();
    say(&mut s, path);
    say(&mut s, after);
    s
}

/// First look at the control path: only a socket may be replaced.
pub fn claim_found(path: &str, found: PathFound) -> (r: ClaimStep)
    ensures
        claim_view(r) == claim_after_look(path@, found_view(found)),
{
    match found {
        PathFound::Missing => ClaimStep::Bind,
        PathFound::Socket(i) => ClaimStep::Connect(i),
        PathFound::Other => ClaimStep::Refuse(
            phrase(
                "refusing to replace non-socket control path ",
                path,
                "; move it aside and restart CAUSEWAY",
            ),
        ),
        PathFound::Unreadable(detail) => {
            let mut s = phrase("inspect control socket ", path, ": ");
            say(&mut s, detail.as_str());
            ClaimStep::Refuse(s)
        },
    }
}

/// A socket that answers, or that may answer, is left alone.
pub fn claim_connected(path: &str, outcome: ConnectOutcome) -> (r: ClaimStep)
    ensures
        claim_view(r) == claim_after_connect(path@, connect_view(outcome)),
{
    match outcome {
        ConnectOutcome::Accepted => ClaimStep::Refuse(
            phrase(
                "control socket ",
                path,
                " is already active; use the running CAUSEWAY daemon",
            ),
        ),
        ConnectOutcome::Refused => ClaimStep::Inspect,
        ConnectOutcome::Failed(detail) => {
            let mut s = phrase(
                "cannot verify whether control socket ",
                path,
                " is stale; refusing to remove it: ",
            );
            say(&mut s, detail.as_str());
            ClaimStep::Refuse(s)
        },
        ConnectOutcome::TimedOut => ClaimStep::Refuse(
            phrase("timed out checking control socket ", path, "; refusing to remove it"),
        ),
    }
}

/// Second look: only the very socket that was found dead is removed.
pub fn claim_inspected(path: &str, expected: SocketIdentity, found: PathFound) -> (r: ClaimStep)
    ensures
        claim_view(r) == claim_after_second_look(path@, expected, found_view(found)),
{
    match found {
        PathFound::Socket(i) => if i == expected {
            ClaimStep::Remove
        } else {
            ClaimStep::Refuse(
                phrase(
                    "control socket ",
                    path,
                    " changed while checking it; refusing to remove it",
                ),
            )
        },
        PathFound::Other => ClaimStep::Refuse(
            phrase("control socket ", path, " changed while checking it; refusing to remove it"),
        ),
        PathFound::Missing => ClaimStep::Refuse(
            phrase("re-inspect stale control socket ", path, ": not found"),
        ),
        PathFound::Unreadable(detail) => {
            let mut s = phrase("re-inspect stale control socket ", path, ": ");
            say(&mut s, detail.as_str());
            ClaimStep::Refuse(s)
        },
    }
}

/// At the end the socket is removed only where it is still the one that was
/// bound.
pub fn owns_socket(expected: SocketIdentity, found: &PathFound) -> (r: bool)
    ensures
        r == (found_view(*found) == PathFound::<Seq<char>>::Socket(expected)),
{
    match found {
        PathFound::Socket(i) => *i == expected,
        _ => false,
    }
}

/// Nothing but a socket that was found dead, and that is still the same one,
/// is ever removed to make room.
pub proof fn law_only_dead_sockets_are_removed(
    path: Seq<char>,
    first: PathFound<Seq<char>>,
    outcome: ConnectOutcome<Seq<char>>,
    second: PathFound<Seq<char>>,
)
    requires
        claim_after_look(path, first) is Connect,
        claim_after_connect(path, outcome) is Inspect,
        claim_after_second_look(path, claim_after_look(path, first)->Connect_0, second) is Remove,
    ensures
        outcome is Refused,
        first is Socket,
        second == first,
{
}

/// One-shot client of the control socket.
pub struct Client {
    path: String,
}

impl Client {
    /// Where the client connects.
    pub closed spec fn target(&self) -> Seq<char> {
        self.path@
    }

    pub fn new(path: String) -> (r: Self)
        ensures
            r.target() == path@,
    {
        Client { path }
    }

    pub fn path(&self) -> (r: &str)
        ensures
            r@ == self.target(),
    {
        self.path.as_str()
    }
}

/// A claim goes ahead only on certain grounds: it binds at once only where
/// nothing is there, asks only a socket whether it is alive, looks again only
/// after a refused connection, and removes only the socket that it saw first.
/// Everything else is refused.
pub proof fn law_claims_go_ahead_on_certain_grounds(
    path: Seq<char>,
    found: PathFound<Seq<char>>,
    outcome: ConnectOutcome<Seq<char>>,
    expected: SocketIdentity,
)
    ensures
        claim_after_look(path, found) is Bind <==> found is Missing,
        claim_after_look(path, found) is Connect <==> found is Socket,
        claim_after_look(path, found) matches ClaimStep::Connect(i) ==> found == PathFound::<
            Seq<char>,
        >::Socket(i),
        claim_after_look(path, found) is Refuse <==> found is Other || found is Unreadable,
        claim_after_connect(path, outcome) is Inspect <==> outcome is Refused,
        claim_after_connect(path, outcome) is Refuse <==> !(outcome is Refused),
        claim_after_second_look(path, expected, found) is Remove <==> found == PathFound::<
            Seq<char>,
        >::Socket(expected),
        claim_after_second_look(path, expected, found) is Refuse <==> found != PathFound::<
            Seq<char>,
        >::Socket(expected),
{
}

/// A line is answered while the daemon is not shutting down and something was
/// read: it is handed on without the blanks around it.
pub proof fn law_lines_are_dispatched(shutting_down: bool, read: nat, line: Seq<char>)
    ensures
        line_action_of(shutting_down, read, line) is Dispatch <==> read > 0 && !shutting_down,
        line_action_of(shutting_down, read, line) matches LineAction::Dispatch(t) ==> t == trimmed(
            line,
        ),
{
}

/// A refusal says why and carries nothing else; a plain success carries
/// nothing.
pub proof fn law_refusals_say_why(error: Seq<char>)
    ensures
        !refusal(error).ok && refusal(error).error == Some(error),
        plain_ok().ok && plain_ok().error is None,
        refusal(error).status is None && refusal(error).switch is None && refusal(
            error,
        ).subscription_switch is None && refusal(error).probe is None && refusal(error).events
            is None && refusal(error).site_matrix is None && refusal(error).site_switch is None
            && refusal(error).message is None,
        plain_ok().status is None && plain_ok().switch is None && plain_ok().subscription_switch
            is None && plain_ok().probe is None && plain_ok().events is None
            && plain_ok().site_matrix is None && plain_ok().site_switch is None
            && plain_ok().message is None,
{
}

} // verus!
