//! Switching away from a node whose exit a site refuses, and probing sites
//! through the pool.

use vstd::prelude::*;

use crate::control::{Event, SwitchForSiteOutcome};
use crate::digest::{debug_quoted, say, say_quoted};
use crate::manifest::opt_view;
use crate::names::{ordered, Model, NameMap};
use crate::node::{find_node, named, pool, Node, NodeView};
use crate::runtime::current_in;
use crate::score::NodeStats;
use crate::selection::{switch_candidates, switch_list};
use crate::siteprobe::{SiteStatus, SiteVerdict, SiteVerdictView};
use crate::state::{StatsMap, VerdictMap};
use crate::text::{borrow_opt, copy_opt, decimal, decimal_text, opt_str, opt_text, same, texts};

verus! {

// ---------------------------------------------------------------------------
// Messages
// ---------------------------------------------------------------------------

/// `Some(200)` or `None`.
pub open spec fn status_words(code: Option<u16>) -> Seq<char> {
    match code {
        Some(n) => "Some("@ + decimal(n as nat) + ")"@,
        None => "None"@,
    }
}

fn say_status(s: &mut String, code: Option<u16>)
    ensures
        final(s)@ == old(s)@ + status_words(code),
{
    match code {
        Some(n) => {
            let ghost before = s@;
            say(s, "Some(");
            let d = decimal_text(n as u64);
            say(s, d.as_str());
            say(s, ")");
            assert(s@ =~= before + status_words(code));
        },
        None => {
            say(s, "None");
        },
    }
}

/// The quoted names, separated by commas.
pub open spec fn quoted_names(names: Seq<Seq<char>>) -> Seq<char>
    decreases names.len(),
{
    if names.len() == 0 {
        Seq::empty()
    } else if names.len() == 1 {
        debug_quoted(names[0])
    } else {
        quoted_names(names.drop_last()) + ", "@ + debug_quoted(names.last())
    }
}

pub open spec fn unknown_site_text(site: Seq<char>, known: Seq<Seq<char>>) -> Seq<char> {
    "unknown site "@ + debug_quoted(site) + "; configured sites: ["@ + quoted_names(known) + "]"@
}

/// The refusal of a site that is not configured.
pub fn unknown_site(site: &str, list: &NameMap<String>) -> (r: String)
    ensures
        r@ == unknown_site_text(site@, ordered(list@.dom())),
{
    let ghost ks = ordered(list@.dom());
    let n: usize = list.len();
    let mut names = String::new();
    let mut i: usize = 0;
    assert(ks.take(0) =~= Seq::<Seq<char>>::empty());
    assert(names@ =~= Seq::<char>::empty());
    while i < n
        invariant
            i <= n,
            n == ks.len(),
            ks == ordered(list@.dom()),
            names@ == quoted_names(ks.take(i as int)),
        decreases n - i,
    {
        let ghost t = ks.take(i + 1);
        assert(t.drop_last() =~= ks.take(i as int));
        assert(t.last() == ks[i as int]);
        let ghost before = names@;
        if i > 0 {
            say(&mut names, ", ");
        }
        let k = list.key_at(i);
        say_quoted(&mut names, k.as_str());
        if i == 0 {
            assert(names@ =~= debug_quoted(ks[0]));
        }
        i = i + 1;
    }
    assert(ks.take(n as int) =~= ks);
    let mut s = "unknown site ".to_string();
    say_quoted(&mut s, site);
    say(&mut s, "; configured sites: [");
    say(&mut s, names.as_str());
    say(&mut s, "]");
    s
}

// ---------------------------------------------------------------------------
// Verdicts on record
// ---------------------------------------------------------------------------

/// A verdict no older than the time to live is authoritative; one from the
/// future counts as new.
pub open spec fn fresh_verdict_of(
    all: VerdictMap,
    site: Seq<char>,
    node: Seq<char>,
    now: i64,
    ttl_secs: u64,
) -> Option<SiteVerdictView> {
    if all.contains_key(site) && all[site].contains_key(node) && now
        - all[site][node].checked_unix <= ttl_secs {
        Some(all[site][node])
    } else {
        None
    }
}

pub fn fresh_verdict(
    all: &NameMap<NameMap<SiteVerdict>>,
    site: &str,
    node: &str,
    now: i64,
    ttl_secs: u64,
) -> (r: Option<SiteVerdict>)
    ensures
        opt_view(r) == fresh_verdict_of(all@, site@, node@, now, ttl_secs),
{
    match all.get(site) {
        None => None,
        Some(by_node) => match by_node.get(node) {
            None => None,
            Some(v) => {
                let age: i128 = now as i128 - v.checked_unix as i128;
                if age <= ttl_secs as i128 {
                    Some(v.dup())
                } else {
                    None
                }
            },
        },
    }
}

// ---------------------------------------------------------------------------
// Switching for a site
// ---------------------------------------------------------------------------

/// What a switch for a site does next.
pub enum SiteAction {
    /// Ask the site through the incumbent.
    ProbeIncumbent(Node),
    /// Ask the site through a candidate.
    ProbeCandidate(Node),
    /// Install the candidate that the site serves.
    Switch(Node),
    Done(SwitchForSiteOutcome),
    /// Look for candidates.
    Search,
}

pub enum SiteStep {
    ProbeIncumbent(NodeView),
    ProbeCandidate(NodeView),
    Switch(NodeView),
    Done(SwitchForSiteOutcome<Seq<char>>),
    Search,
}

impl View for SiteAction {
    type V = SiteStep;

    open spec fn view(&self) -> SiteStep {
        match self {
            SiteAction::ProbeIncumbent(n) => SiteStep::ProbeIncumbent(n@),
            SiteAction::ProbeCandidate(n) => SiteStep::ProbeCandidate(n@),
            SiteAction::Switch(n) => SiteStep::Switch(n@),
            SiteAction::Done(o) => SiteStep::Done(o@),
            SiteAction::Search => SiteStep::Search,
        }
    }
}

pub open spec fn kept_outcome(
    site: Seq<char>,
    before: Option<Seq<char>>,
    status: Option<u16>,
) -> SwitchForSiteOutcome<Seq<char>> {
    SwitchForSiteOutcome {
        site,
        action: "kept"@,
        node_before: before,
        node_after: before,
        detail: "incumbent serves the site (HTTP "@ + status_words(status) + ")"@,
    }
}

pub open spec fn unconfirmed_outcome(
    site: Seq<char>,
    before: Option<Seq<char>>,
    status: Option<u16>,
) -> SwitchForSiteOutcome<Seq<char>> {
    SwitchForSiteOutcome {
        site,
        action: "kept"@,
        node_before: before,
        node_after: before,
        detail: "no confirmed freeze of the incumbent (HTTP "@ + status_words(status)
            + "); staying put"@,
    }
}

pub open spec fn switched_outcome(
    site: Seq<char>,
    before: Option<Seq<char>>,
    after: Seq<char>,
    status: Option<u16>,
) -> SwitchForSiteOutcome<Seq<char>> {
    SwitchForSiteOutcome {
        site,
        action: "switched"@,
        node_before: before,
        node_after: Some(after),
        detail: "incumbent frozen; switched to a node the site serves (HTTP "@ + status_words(
            status,
        ) + ")"@,
    }
}

pub open spec fn no_candidate_outcome(
    site: Seq<char>,
    before: Option<Seq<char>>,
    tried: nat,
) -> SwitchForSiteOutcome<Seq<char>> {
    SwitchForSiteOutcome {
        site,
        action: "no-candidate"@,
        node_before: before,
        node_after: before,
        detail: "no probed candidate served the site among "@ + decimal(tried)
            + " tried; staying put"@,
    }
}

/// The first step: a fresh verdict on the incumbent decides, an old one is
/// asked for again, and without an incumbent the search begins.
pub open spec fn site_begin(
    site: Seq<char>,
    nodes: Seq<NodeView>,
    current: Option<Seq<char>>,
    fresh: Option<SiteVerdictView>,
) -> SiteStep {
    match current {
        None => SiteStep::Search,
        Some(name) => match fresh {
            Some(v) => site_judged(site, current, v),
            None => match current_in(nodes, current) {
                Some(n) => SiteStep::ProbeIncumbent(n),
                None => SiteStep::Search,
            },
        },
    }
}

/// Only a confirmed freeze lets a class leave its node. A site that serves
/// the incumbent moves nothing, and neither does an unknown verdict.
pub open spec fn site_judged(
    site: Seq<char>,
    current: Option<Seq<char>>,
    verdict: SiteVerdictView,
) -> SiteStep {
    match verdict.status {
        SiteStatus::Served => SiteStep::Done(kept_outcome(site, current, verdict.http_status)),
        SiteStatus::Blocked => SiteStep::Search,
        SiteStatus::Unknown => SiteStep::Done(
            unconfirmed_outcome(site, current, verdict.http_status),
        ),
    }
}

pub fn begin_site_switch(
    site: &str,
    nodes: &Vec<Node>,
    current: Option<&str>,
    fresh: Option<SiteVerdict>,
) -> (r: SiteAction)
    ensures
        r@ == site_begin(site@, pool(nodes@), opt_str(current), opt_view(fresh)),
{
    let name = match current {
        None => return SiteAction::Search,
        Some(name) => name,
    };
    match fresh {
        Some(v) => judge_incumbent(site, current, &v),
        None => match find_node(nodes, name) {
            Some(i) => SiteAction::ProbeIncumbent(nodes[i].dup()),
            None => SiteAction::Search,
        },
    }
}

fn own(o: Option<&str>) -> (r: Option<String>)
    ensures
        opt_text(r) == opt_str(o),
{
    match o {
        Some(s) => Some(s.to_string()),
        None => None,
    }
}

pub fn judge_incumbent(site: &str, current: Option<&str>, verdict: &SiteVerdict) -> (r: SiteAction)
    ensures
        r@ == site_judged(site@, opt_str(current), verdict@),
{
    let mut detail = String::new();
    match verdict.status {
        SiteStatus::Blocked => return SiteAction::Search,
        SiteStatus::Served => {
            say(&mut detail, "incumbent serves the site (HTTP ");
            say_status(&mut detail, verdict.http_status);
            say(&mut detail, ")");
        },
        SiteStatus::Unknown => {
            say(&mut detail, "no confirmed freeze of the incumbent (HTTP ");
            say_status(&mut detail, verdict.http_status);
            say(&mut detail, "); staying put");
        },
    }
    assert(detail@ =~= if verdict.status == SiteStatus::Served {
        kept_outcome(site@, opt_str(current), verdict.http_status).detail
    } else {
        unconfirmed_outcome(site@, opt_str(current), verdict.http_status).detail
    });
    SiteAction::Done(
        SwitchForSiteOutcome {
            site: site.to_string(),
            action: "kept".to_string(),
            node_before: own(current),
            node_after: own(current),
            detail,
        },
    )
}

/// The search for a node that the site serves.
pub struct SiteSearch {
    site: String,
    before: Option<String>,
    candidates: Vec<Node>,
    at: usize,
    /// The candidate passed the site and waits for its installation.
    served: Option<Option<u16>>,
}

#[verifier::ext_equal]
pub struct SearchView {
    pub site: Seq<char>,
    pub before: Option<Seq<char>>,
    /// The candidates that are left, the current one first.
    pub left: Seq<NodeView>,
    pub total: nat,
    pub served: Option<Option<u16>>,
}

impl View for SiteSearch {
    type V = SearchView;

    closed spec fn view(&self) -> SearchView {
        SearchView {
            site: self.site@,
            before: opt_text(self.before),
            left: pool(self.candidates@).skip(self.at as int),
            total: self.candidates@.len(),
            served: self.served,
        }
    }
}

/// What the search does next.
pub open spec fn search_step(v: SearchView) -> SiteStep {
    if v.left.len() == 0 {
        SiteStep::Done(no_candidate_outcome(v.site, v.before, v.total))
    } else if v.served is Some {
        SiteStep::Switch(v.left[0])
    } else {
        SiteStep::ProbeCandidate(v.left[0])
    }
}

/// After a probe of the candidate: one that the site serves is installed,
/// any other is passed over.
pub open spec fn search_probed(v: SearchView, verdict: SiteVerdictView) -> SearchView {
    if verdict.status == SiteStatus::Served {
        SearchView { served: Some(verdict.http_status), ..v }
    } else {
        SearchView { left: v.left.skip(1), ..v }
    }
}

/// The installation of the candidate failed: the search goes on.
pub open spec fn search_failed(v: SearchView) -> SearchView {
    SearchView { left: v.left.skip(1), served: None, ..v }
}

impl SiteSearch {
    #[verifier::type_invariant]
    spec fn wf(self) -> bool {
        self.at <= self.candidates@.len()
    }

    /// The candidates in order of score; regions do not apply to a request.
    pub fn new(
        site: &str,
        nodes: &Vec<Node>,
        stats: &NameMap<NodeStats>,
        current: Option<&str>,
        max_candidates: usize,
    ) -> (r: Self)
        ensures
            r@.site == site@,
            r@.before == opt_str(current),
            r@.left == switch_list(
                pool(nodes@),
                stats@,
                Seq::empty(),
                opt_str(current),
                None,
                max_candidates as nat,
            ),
            r@.total == r@.left.len(),
            r@.served is None,
    {
        let everywhere: Vec<String> = Vec::new();
        assert(texts(everywhere@) =~= Seq::<Seq<char>>::empty());
        let candidates = switch_candidates(
            nodes,
            stats,
            &everywhere,
            current,
            None,
            max_candidates,
        );
        assert(pool(candidates@).skip(0) =~= pool(candidates@));
        SiteSearch {
            site: site.to_string(),
            before: own(current),
            candidates,
            at: 0,
            served: None,
        }
    }

    pub fn action(&self) -> (r: SiteAction)
        ensures
            r@ == search_step(self@),
    {
        proof {
            use_type_invariant(self);
        }
        if self.at >= self.candidates.len() {
            let mut detail = "no probed candidate served the site among ".to_string();
            let n = decimal_text(self.candidates.len() as u64);
            say(&mut detail, n.as_str());
            say(&mut detail, " tried; staying put");
            return SiteAction::Done(
                SwitchForSiteOutcome {
                    site: self.site.clone(),
                    action: "no-candidate".to_string(),
                    node_before: copy_opt(&self.before),
                    node_after: copy_opt(&self.before),
                    detail,
                },
            );
        }
        assert(pool(self.candidates@).skip(self.at as int)[0]
            == self.candidates@[self.at as int]@);
        let n = self.candidates[self.at].dup();
        if self.served.is_some() {
            SiteAction::Switch(n)
        } else {
            SiteAction::ProbeCandidate(n)
        }
    }

    pub fn probed(&mut self, verdict: &SiteVerdict)
        requires
            old(self)@.left.len() > 0,
        ensures
            final(self)@ == search_probed(old(self)@, verdict@),
    {
        proof {
            use_type_invariant(&*self);
        }
        let ghost before = self@;
        if verdict.status == SiteStatus::Served {
            self.served = Some(verdict.http_status);
        } else {
            let n: usize = self.candidates.len();
            assert(self.at < n);
            self.at = self.at + 1;
            assert(self@.left =~= before.left.skip(1));
        }
    }

    pub fn failed(&mut self)
        requires
            old(self)@.left.len() > 0,
        ensures
            final(self)@ == search_failed(old(self)@),
    {
        proof {
            use_type_invariant(&*self);
        }
        let ghost before = self@;
        let n: usize = self.candidates.len();
        assert(self.at < n);
        self.at = self.at + 1;
        self.served = None;
        assert(self@.left =~= before.left.skip(1));
    }

    /// The candidate was installed.
    pub fn switched(&self) -> (r: SwitchForSiteOutcome)
        requires
            self@.left.len() > 0,
            self@.served is Some,
        ensures
            r@ == switched_outcome(
                self@.site,
                self@.before,
                self@.left[0].name(),
                self@.served->0,
            ),
    {
        proof {
            use_type_invariant(self);
        }
        let k: usize = self.at;
        assert(k < self.candidates@.len());
        assert(pool(self.candidates@).skip(k as int)[0] == self.candidates@[k as int]@);
        let status = match self.served {
            Some(s) => s,
            None => None,
        };
        let mut detail =
            "incumbent frozen; switched to a node the site serves (HTTP ".to_string();
        say_status(&mut detail, status);
        say(&mut detail, ")");
        SwitchForSiteOutcome {
            site: self.site.clone(),
            action: "switched".to_string(),
            node_before: copy_opt(&self.before),
            node_after: Some(self.candidates[k].name().to_string()),
            detail,
        }
    }
}

// ---------------------------------------------------------------------------
// The switch as a whole
// ---------------------------------------------------------------------------

/// How an outside step of a switch for a site went.
pub enum SiteEvent<'a> {
    /// What the site answered through the node that was to be probed.
    Probed(SiteVerdict),
    /// The pool and its statistics at the begin of the search.
    Ranked { nodes: &'a Vec<Node>, stats: &'a NameMap<NodeStats> },
    /// The node was installed.
    Installed,
    NotInstalled,
}

pub enum SiteEventView {
    Probed(SiteVerdictView),
    Ranked { nodes: Seq<NodeView>, stats: StatsMap },
    Installed,
    NotInstalled,
}

pub open spec fn site_event(e: SiteEvent) -> SiteEventView {
    match e {
        SiteEvent::Probed(v) => SiteEventView::Probed(v@),
        SiteEvent::Ranked { nodes, stats } => SiteEventView::Ranked {
            nodes: pool(nodes@),
            stats: stats@,
        },
        SiteEvent::Installed => SiteEventView::Installed,
        SiteEvent::NotInstalled => SiteEventView::NotInstalled,
    }
}

enum SitePhase {
    Incumbent(Node),
    Ranking,
    Searching(SiteSearch),
    Ended(SwitchForSiteOutcome),
}

/// How far a switch for a site has come.
pub enum SitePhaseView {
    /// The incumbent is being probed.
    Incumbent(NodeView),
    /// The class may leave its node; the candidates are not known yet.
    Ranking,
    Searching(SearchView),
    Ended(SwitchForSiteOutcome<Seq<char>>),
}

impl View for SitePhase {
    type V = SitePhaseView;

    closed spec fn view(&self) -> SitePhaseView {
        match self {
            SitePhase::Incumbent(n) => SitePhaseView::Incumbent(n@),
            SitePhase::Ranking => SitePhaseView::Ranking,
            SitePhase::Searching(s) => SitePhaseView::Searching(s@),
            SitePhase::Ended(o) => SitePhaseView::Ended(o@),
        }
    }
}

/// A switch for a site under way.
pub struct SiteRun {
    site: String,
    before: Option<String>,
    max_candidates: usize,
    phase: SitePhase,
}

pub struct SiteRunView {
    pub site: Seq<char>,
    /// The node that the class was on.
    pub before: Option<Seq<char>>,
    pub max_candidates: nat,
    pub phase: SitePhaseView,
}

impl View for SiteRun {
    type V = SiteRunView;

    closed spec fn view(&self) -> SiteRunView {
        SiteRunView {
            site: self.site@,
            before: opt_text(self.before),
            max_candidates: self.max_candidates as nat,
            phase: self.phase@,
        }
    }
}

/// The phase that a decision on the incumbent leads to.
pub open spec fn site_phase(step: SiteStep) -> SitePhaseView {
    match step {
        SiteStep::Done(o) => SitePhaseView::Ended(o),
        SiteStep::ProbeIncumbent(n) => SitePhaseView::Incumbent(n),
        _ => SitePhaseView::Ranking,
    }
}

pub open spec fn site_begun(
    site: Seq<char>,
    nodes: Seq<NodeView>,
    current: Option<Seq<char>>,
    fresh: Option<SiteVerdictView>,
    max_candidates: nat,
) -> SiteRunView {
    SiteRunView {
        site,
        before: current,
        max_candidates,
        phase: site_phase(site_begin(site, nodes, current, fresh)),
    }
}

/// A run after one event. One that it does not wait for leads nowhere.
pub open spec fn site_advanced(v: SiteRunView, e: SiteEventView) -> SiteRunView {
    SiteRunView {
        phase: match (v.phase, e) {
            (SitePhaseView::Incumbent(_), SiteEventView::Probed(verdict)) => site_phase(
                site_judged(v.site, v.before, verdict),
            ),
            (SitePhaseView::Ranking, SiteEventView::Ranked { nodes, stats }) => {
                let left = switch_list(
                    nodes,
                    stats,
                    Seq::empty(),
                    v.before,
                    None,
                    v.max_candidates,
                );
                SitePhaseView::Searching(
                    SearchView {
                        site: v.site,
                        before: v.before,
                        left,
                        total: left.len(),
                        served: None,
                    },
                )
            },
            (SitePhaseView::Searching(s), SiteEventView::Probed(verdict)) => if search_step(
                s,
            ) is ProbeCandidate {
                SitePhaseView::Searching(search_probed(s, verdict))
            } else {
                v.phase
            },
            (SitePhaseView::Searching(s), SiteEventView::Installed) => if search_step(
                s,
            ) is Switch {
                SitePhaseView::Ended(
                    switched_outcome(s.site, s.before, s.left[0].name(), s.served->0),
                )
            } else {
                v.phase
            },
            (SitePhaseView::Searching(s), SiteEventView::NotInstalled) => if search_step(
                s,
            ) is Switch {
                SitePhaseView::Searching(search_failed(s))
            } else {
                v.phase
            },
            _ => v.phase,
        },
        ..v
    }
}

/// What a run does next.
pub open spec fn site_due(p: SitePhaseView) -> SiteStep {
    match p {
        SitePhaseView::Incumbent(n) => SiteStep::ProbeIncumbent(n),
        SitePhaseView::Ranking => SiteStep::Search,
        SitePhaseView::Searching(s) => search_step(s),
        SitePhaseView::Ended(o) => SiteStep::Done(o),
    }
}

fn phase_for(action: SiteAction) -> (r: SitePhase)
    ensures
        r@ == site_phase(action@),
{
    match action {
        SiteAction::Done(o) => SitePhase::Ended(o),
        SiteAction::ProbeIncumbent(n) => SitePhase::Incumbent(n),
        _ => SitePhase::Ranking,
    }
}

impl SiteRun {
    /// Begin with what is known of the incumbent.
    pub fn begin(
        site: &str,
        nodes: &Vec<Node>,
        current: Option<&str>,
        fresh: Option<SiteVerdict>,
        max_candidates: usize,
    ) -> (r: (Self, SiteAction))
        ensures
            (r.0)@ == site_begun(
                site@,
                pool(nodes@),
                opt_str(current),
                opt_view(fresh),
                max_candidates as nat,
            ),
            (r.1)@ == site_due((r.0)@.phase),
    {
        let run = SiteRun {
            site: site.to_string(),
            before: own(current),
            max_candidates,
            phase: phase_for(begin_site_switch(site, nodes, current, fresh)),
        };
        let action = run.action();
        (run, action)
    }

    fn action(&self) -> (r: SiteAction)
        ensures
            r@ == site_due(self@.phase),
    {
        match &self.phase {
            SitePhase::Incumbent(n) => SiteAction::ProbeIncumbent(n.dup()),
            SitePhase::Ranking => SiteAction::Search,
            SitePhase::Searching(s) => s.action(),
            SitePhase::Ended(o) => SiteAction::Done(
                SwitchForSiteOutcome {
                    site: o.site.clone(),
                    action: o.action.clone(),
                    node_before: copy_opt(&o.node_before),
                    node_after: copy_opt(&o.node_after),
                    detail: o.detail.clone(),
                },
            ),
        }
    }

    fn next_phase(&self, phase: SitePhase, event: SiteEvent) -> (r: SitePhase)
        ensures
            r@ == site_advanced(SiteRunView { phase: phase@, ..self@ }, site_event(event)).phase,
    {
        match phase {
            SitePhase::Incumbent(n) => match event {
                SiteEvent::Probed(verdict) => phase_for(
                    judge_incumbent(self.site.as_str(), borrow_opt(&self.before), &verdict),
                ),
                _ => SitePhase::Incumbent(n),
            },
            SitePhase::Ranking => match event {
                SiteEvent::Ranked { nodes, stats } => {
                    let search = SiteSearch::new(
                        self.site.as_str(),
                        nodes,
                        stats,
                        borrow_opt(&self.before),
                        self.max_candidates,
                    );
                    assert(search@ =~= (SearchView {
                        site: self.site@,
                        before: opt_text(self.before),
                        left: search@.left,
                        total: search@.left.len(),
                        served: None,
                    }));
                    SitePhase::Searching(search)
                },
                _ => SitePhase::Ranking,
            },
            SitePhase::Searching(search) => {
                let mut search = search;
                match (search.action(), event) {
                    (SiteAction::ProbeCandidate(_), SiteEvent::Probed(verdict)) => {
                        search.probed(&verdict);
                        SitePhase::Searching(search)
                    },
                    (SiteAction::Switch(_), SiteEvent::Installed) => SitePhase::Ended(
                        search.switched(),
                    ),
                    (SiteAction::Switch(_), SiteEvent::NotInstalled) => {
                        search.failed();
                        SitePhase::Searching(search)
                    },
                    _ => SitePhase::Searching(search),
                }
            },
            SitePhase::Ended(o) => SitePhase::Ended(o),
        }
    }
}

/// Take in how the last step went, and say which one comes next.
pub fn site_next(run: &mut SiteRun, event: SiteEvent) -> (r: SiteAction)
    ensures
        final(run)@ == site_advanced(old(run)@, site_event(event)),
        r@ == site_due(final(run)@.phase),
{
    let ghost v = run@;
    let mut phase = SitePhase::Ranking;
    std::mem::swap(&mut phase, &mut run.phase);
    let next = run.next_phase(phase, event);
    assert(SiteRunView { phase: phase@, ..run@ } == v);
    run.phase = next;
    run.action()
}

/// Does a switch with this outcome have something to save? One that kept its
/// node has not.
pub fn saves_state(outcome: &SwitchForSiteOutcome) -> (r: bool)
    ensures
        r == (outcome@.action != "kept"@),
{
    !same(outcome.action.as_str(), "kept")
}

/// A run after a sequence of events, whatever they are.
pub open spec fn site_run_after(v: SiteRunView, es: Seq<SiteEventView>) -> SiteRunView
    decreases es.len(),
{
    if es.len() == 0 {
        v
    } else {
        site_advanced(site_run_after(v, es.drop_last()), es.last())
    }
}

/// The `i`-th event says that the site refuses the incumbent.
pub open spec fn refused_at(v: SiteRunView, es: Seq<SiteEventView>, i: int) -> bool {
    &&& 0 <= i < es.len()
    &&& site_run_after(v, es.take(i)).phase is Incumbent
    &&& es[i] matches SiteEventView::Probed(verdict) && verdict.status == SiteStatus::Blocked
}

/// The `i`-th event says that the site serves this candidate.
pub open spec fn served_at(v: SiteRunView, es: Seq<SiteEventView>, n: NodeView, i: int) -> bool {
    &&& 0 <= i < es.len()
    &&& site_due(site_run_after(v, es.take(i)).phase) == SiteStep::ProbeCandidate(n)
    &&& es[i] matches SiteEventView::Probed(verdict) && verdict.status == SiteStatus::Served
}

/// The class has been allowed to leave its node.
pub open spec fn released(p: SitePhaseView, before: Option<Seq<char>>) -> bool {
    match p {
        SitePhaseView::Incumbent(_) => false,
        SitePhaseView::Ended(o) => o.node_after != before,
        _ => true,
    }
}

/// Whatever happens, a class is let go from a node of its pool only after the
/// site refused it, and what it is told to install is a node that the site has
/// served before.
pub proof fn law_site_switch_is_confirmed(
    site: Seq<char>,
    nodes: Seq<NodeView>,
    current: Seq<char>,
    fresh: Option<SiteVerdictView>,
    max_candidates: nat,
    es: Seq<SiteEventView>,
)
    requires
        named(nodes, current),
    ensures
        ({
            let v = site_begun(site, nodes, Some(current), fresh, max_candidates);
            let w = site_run_after(v, es);
            &&& released(w.phase, Some(current)) ==> (fresh is Some && (fresh->0).status
                == SiteStatus::Blocked) || exists|i: int| #[trigger] refused_at(v, es, i)
            &&& site_due(w.phase) matches SiteStep::Switch(n) ==> exists|i: int| #[trigger]
                served_at(v, es, n, i)
            &&& w.phase matches SitePhaseView::Ended(o) ==> o.node_after == Some(current)
                || exists|n: NodeView, i: int| #[trigger]
                served_at(v, es, n, i) && o.node_after == Some(n.name())
        }),
    decreases es.len(),
{
    let v = site_begun(site, nodes, Some(current), fresh, max_candidates);
    lemma_site_run_keeps(v, es);
    if es.len() > 0 {
        let n = es.len() as int;
        let p = es.drop_last();
        let w = site_run_after(v, p);
        assert(es.take(n - 1) =~= p);
        law_site_switch_is_confirmed(site, nodes, current, fresh, max_candidates, p);
        let next = site_run_after(v, es);
        if released(next.phase, Some(current)) {
            if w.phase is Incumbent {
                assert(refused_at(v, es, n - 1));
            } else if released(w.phase, Some(current)) {
                if exists|i: int| #[trigger] refused_at(v, p, i) {
                    let i = choose|i: int| #[trigger] refused_at(v, p, i);
                    assert(p.take(i) =~= es.take(i));
                    assert(refused_at(v, es, i));
                }
            }
        }
        if let SiteStep::Switch(c) = site_due(next.phase) {
            if site_due(w.phase) == SiteStep::Switch(c) {
                let i = choose|i: int| #[trigger] served_at(v, p, c, i);
                assert(p.take(i) =~= es.take(i));
                assert(served_at(v, es, c, i));
            } else {
                assert(served_at(v, es, c, n - 1));
            }
        }
        if let SitePhaseView::Ended(o) = next.phase {
            if let SitePhaseView::Ended(_) = w.phase {
                if o.node_after != Some(current) {
                    let (c, i) = choose|c: NodeView, i: int| #[trigger]
                        served_at(v, p, c, i) && o.node_after == Some(c.name());
                    assert(p.take(i) =~= es.take(i));
                    assert(served_at(v, es, c, i));
                }
            } else if let SitePhaseView::Searching(s) = w.phase {
                let c = s.left[0];
                assert(site_due(w.phase) == SiteStep::Switch(c));
                let i = choose|i: int| #[trigger] served_at(v, p, c, i);
                assert(p.take(i) =~= es.take(i));
                assert(served_at(v, es, c, i));
            }
        }
    }
}

proof fn lemma_site_run_keeps(v: SiteRunView, es: Seq<SiteEventView>)
    ensures
        site_run_after(v, es).site == v.site,
        site_run_after(v, es).before == v.before,
    decreases es.len(),
{
    if es.len() > 0 {
        lemma_site_run_keeps(v, es.drop_last());
    }
}

// ---------------------------------------------------------------------------
// Probing sites on request
// ---------------------------------------------------------------------------

/// One site to probe.
#[derive(Debug, PartialEq, Eq)]
pub struct SiteTask<T = String> {
    pub name: T,
    pub url: T,
}

impl View for SiteTask<String> {
    type V = SiteTask<Seq<char>>;

    open spec fn view(&self) -> SiteTask<Seq<char>> {
        SiteTask { name: self.name@, url: self.url@ }
    }
}

pub open spec fn tasks(v: Seq<SiteTask>) -> Seq<SiteTask<Seq<char>>> {
    v.map_values(|t: SiteTask| t@)
}

/// The sites that a request is about, or its refusal.
pub open spec fn sites_to_probe(
    list: Map<Seq<char>, Seq<char>>,
    site: Option<Seq<char>>,
) -> Result<Seq<SiteTask<Seq<char>>>, Seq<char>> {
    let ks = ordered(list.dom());
    match site {
        Some(name) => if list.contains_key(name) {
            Ok(seq![SiteTask { name, url: list[name] }])
        } else {
            Err(unknown_site_text(name, ks))
        },
        None => if ks.len() == 0 {
            Err("no sites configured under [sites.list]"@)
        } else {
            Ok(Seq::new(ks.len(), |i: int| SiteTask { name: ks[i], url: list[ks[i]] }))
        },
    }
}

pub fn select_sites(list: &NameMap<String>, site: Option<&str>) -> (r: Result<
    Vec<SiteTask>,
    String,
>)
    ensures
        match r {
            Ok(v) => sites_to_probe(list@, opt_str(site)) == Ok::<
                Seq<SiteTask<Seq<char>>>,
                Seq<char>,
            >(tasks(v@)),
            Err(m) => sites_to_probe(list@, opt_str(site)) == Err::<
                Seq<SiteTask<Seq<char>>>,
                Seq<char>,
            >(m@),
        },
{
    let mut v: Vec<SiteTask> = Vec::new();
    if let Some(name) = site {
        return match list.get(name) {
            Some(url) => {
                v.push(SiteTask { name: name.to_string(), url: url.clone() });
                assert(tasks(v@) =~= seq![SiteTask { name: name@, url: list@[name@] }]);
                Ok(v)
            },
            None => Err(unknown_site(name, list)),
        };
    }
    let ghost ks = ordered(list@.dom());
    let n: usize = list.len();
    if n == 0 {
        return Err("no sites configured under [sites.list]".to_string());
    }
    let ghost want = Seq::new(ks.len(), |i: int| SiteTask { name: ks[i], url: list@[ks[i]] });
    let mut i: usize = 0;
    while i < n
        invariant
            i <= n,
            n == ks.len(),
            ks == ordered(list@.dom()),
            want == Seq::new(ks.len(), |i: int| SiteTask { name: ks[i], url: list@[ks[i]] }),
            tasks(v@) == want.take(i as int),
        decreases n - i,
    {
        let t = SiteTask { name: list.key_at(i).clone(), url: list.value_at(i).clone() };
        let ghost before = tasks(v@);
        let ghost tv = t@;
        v.push(t);
        assert(tasks(v@) =~= before.push(tv));
        assert(want.take(i + 1) =~= want.take(i as int).push(want[i as int]));
        i = i + 1;
    }
    assert(want.take(n as int) =~= want);
    Ok(v)
}

/// Does any node get through to the site?
pub open spec fn anyone_served(all: VerdictMap, site: Seq<char>) -> bool {
    all.contains_key(site) && exists|n: Seq<char>| #[trigger]
        all[site].contains_key(n) && all[site][n].status == SiteStatus::Served
}

fn is_anyone_served(all: &NameMap<NameMap<SiteVerdict>>, site: &str) -> (r: bool)
    ensures
        r == anyone_served(all@, site@),
{
    let by_node = match all.get(site) {
        None => return false,
        Some(m) => m,
    };
    let ghost ks = ordered(by_node@.dom());
    let n: usize = by_node.len();
    let mut i: usize = 0;
    while i < n
        invariant
            i <= n,
            n == ks.len(),
            ks == ordered(by_node@.dom()),
            all@.contains_key(site@),
            by_node@ == all@[site@],
            forall|j: int| 0 <= j < i ==> by_node@[#[trigger] ks[j]].status != SiteStatus::Served,
        decreases n - i,
    {
        let k = by_node.key_at(i);
        if by_node.value_at(i).status == SiteStatus::Served {
            assert(by_node@.contains_key(k@));
            return true;
        }
        i = i + 1;
    }
    proof {
        if anyone_served(all@, site@) {
            let w = choose|w: Seq<char>| #[trigger]
                all@[site@].contains_key(w) && all@[site@][w].status == SiteStatus::Served;
            crate::names::lemma_ordered_contains(by_node@.dom(), w);
            let j = ks.index_of(w);
            assert(ks[j] == w);
        }
    }
    false
}

/// The names, separated by commas.
pub open spec fn task_names(v: Seq<SiteTask<Seq<char>>>) -> Seq<char>
    decreases v.len(),
{
    if v.len() == 0 {
        Seq::empty()
    } else if v.len() == 1 {
        v[0].name
    } else {
        task_names(v.drop_last()) + ","@ + v.last().name
    }
}

/// How many of the sites serve at least one node.
pub open spec fn served_count(v: Seq<SiteTask<Seq<char>>>, all: VerdictMap) -> nat
    decreases v.len(),
{
    if v.len() == 0 {
        0
    } else {
        served_count(v.drop_last(), all) + if anyone_served(all, v.last().name) {
            1nat
        } else {
            0
        }
    }
}

/// The event that closes a request to probe sites.
pub fn site_probe_event(
    sites: &Vec<SiteTask>,
    verdicts: &NameMap<NameMap<SiteVerdict>>,
    node_count: usize,
    now: i64,
) -> (r: Event)
    requires
        sites@.len() * node_count <= usize::MAX,
    ensures
        r@ == (Event::<Seq<char>>::Probed {
            unix: now,
            source: "site-probe:"@ + task_names(tasks(sites@)),
            ok: served_count(tasks(sites@), verdicts@) as usize,
            total: (sites@.len() * node_count) as usize,
        }),
        served_count(tasks(sites@), verdicts@) <= sites@.len(),
{
    let ghost all = tasks(sites@);
    let mut names = String::new();
    let mut ok: usize = 0;
    let mut i: usize = 0;
    assert(all.take(0) =~= Seq::<SiteTask<Seq<char>>>::empty());
    assert(names@ =~= Seq::<char>::empty());
    while i < sites.len()
        invariant
            i <= sites@.len(),
            all == tasks(sites@),
            names@ == task_names(all.take(i as int)),
            ok == served_count(all.take(i as int), verdicts@),
            ok <= i,
        decreases sites@.len() - i,
    {
        let ghost t = all.take(i + 1);
        assert(t.drop_last() =~= all.take(i as int));
        assert(t.last() == sites@[i as int]@);
        if i > 0 {
            say(&mut names, ",");
        }
        say(&mut names, sites[i].name.as_str());
        if i == 0 {
            assert(names@ =~= t[0].name);
        }
        if is_anyone_served(verdicts, sites[i].name.as_str()) {
            ok = ok + 1;
        }
        i = i + 1;
    }
    assert(all.take(sites@.len() as int) =~= all);
    let mut source = "site-probe:".to_string();
    say(&mut source, names.as_str());
    Event::Probed { unix: now, source, ok, total: sites.len() * node_count }
}

/// The verdict on record counts while it is no older than the time allowed;
/// it is then the one of that very site and node.
pub proof fn law_fresh_verdicts(
    all: VerdictMap,
    site: Seq<char>,
    node: Seq<char>,
    now: i64,
    ttl_secs: u64,
    verdict: SiteVerdictView,
)
    ensures
        fresh_verdict_of(all, site, node, now, ttl_secs) is Some <==> all.contains_key(site)
            && all[site].contains_key(node) && now <= all[site][node].checked_unix + ttl_secs,
        fresh_verdict_of(all, site, node, now, ttl_secs) matches Some(v) ==> v == all[site][node],
        ({
            let t = crate::state::verdict_recorded(all, site, node, verdict);
            now <= verdict.checked_unix + ttl_secs ==> fresh_verdict_of(
                t,
                site,
                node,
                now,
                ttl_secs,
            ) == Some(verdict)
        }),
{
}

/// A class with a node is left alone unless the site refuses that node: a
/// served verdict and one that says nothing both keep it.
pub proof fn law_incumbent_is_kept_unless_refused(
    site: Seq<char>,
    current: Option<Seq<char>>,
    verdict: SiteVerdictView,
)
    ensures
        site_judged(site, current, verdict) is Search <==> verdict.status is Blocked,
        site_judged(site, current, verdict) matches SiteStep::Done(o) ==> o.site == site
            && o.node_before == current && o.node_after == current && o.action == "kept"@,
        site_judged(site, current, verdict) is Search || site_judged(site, current, verdict)
            is Done,
{
}

/// A switch for a site begins with the verdict at hand where it is fresh, with
/// a probe of the node in use where the pool has it, else with a search.
pub proof fn law_site_switch_begins(
    site: Seq<char>,
    nodes: Seq<NodeView>,
    current: Seq<char>,
    verdict: SiteVerdictView,
)
    ensures
        site_begin(site, nodes, None, Some(verdict)) is Search,
        site_begin(site, nodes, None, None) is Search,
        site_begin(site, nodes, Some(current), Some(verdict)) is Search <==> verdict.status
            is Blocked,
        named(nodes, current) ==> (site_begin(site, nodes, Some(current), None) matches
            SiteStep::ProbeIncumbent(n) && n.name() == current && nodes.contains(n)),
        !named(nodes, current) ==> site_begin(site, nodes, Some(current), None) is Search,
{
    crate::runtime::law_rebuild_is_the_current_node(nodes, Some(current));
}

/// The search after so many candidates that the site does not serve.
pub open spec fn search_after(v: SearchView, verdicts: Seq<SiteVerdictView>) -> SearchView
    decreases verdicts.len(),
{
    if verdicts.len() == 0 {
        v
    } else {
        search_probed(search_after(v, verdicts.drop_last()), verdicts.last())
    }
}

/// The candidates are asked in their order: after so many that the site does
/// not serve, the next one is probed; one that it serves is the one to switch
/// to, and if that fails the one behind it is next. With none left the class
/// stays where it is, and the outcome says how many there were.
pub proof fn law_site_search_takes_the_first_that_serves(
    v: SearchView,
    verdicts: Seq<SiteVerdictView>,
    served: SiteVerdictView,
)
    requires
        v.served is None,
        verdicts.len() <= v.left.len(),
        forall|i: int|
            0 <= i < verdicts.len() ==> (#[trigger] verdicts[i]).status != SiteStatus::Served,
        served.status == SiteStatus::Served,
    ensures
        ({
            let w = search_after(v, verdicts);
            let n = verdicts.len() as int;
            &&& w.left == v.left.skip(n) && w.served is None && w.total == v.total && w.site
                == v.site && w.before == v.before
            &&& n < v.left.len() ==> {
                let x = search_probed(w, served);
                &&& search_step(w) == SiteStep::ProbeCandidate(v.left[n])
                &&& search_step(x) == SiteStep::Switch(v.left[n])
                &&& x.served == Some(served.http_status)
                &&& search_failed(x).left == v.left.skip(n + 1) && search_failed(x).served is None
            }
            &&& n == v.left.len() ==> (search_step(w) matches SiteStep::Done(o) && o.node_after
                == v.before && o.node_before == v.before && o.site == v.site && o.action
                == "no-candidate"@)
        }),
    decreases verdicts.len(),
{
    if verdicts.len() == 0 {
        assert(v.left.skip(0) =~= v.left);
    } else {
        let d = verdicts.drop_last();
        assert forall|i: int| 0 <= i < d.len() implies (#[trigger] d[i]).status
            != SiteStatus::Served by {
            assert(d[i] == verdicts[i]);
        }
        law_site_search_takes_the_first_that_serves(v, d, served);
        assert(verdicts[verdicts.len() - 1].status != SiteStatus::Served);
        assert(v.left.skip(d.len() as int).skip(1) =~= v.left.skip(verdicts.len() as int));
    }
    let n = verdicts.len() as int;
    if n < v.left.len() {
        assert(v.left.skip(n)[0] == v.left[n]);
        assert(v.left.skip(n).skip(1) =~= v.left.skip(n + 1));
    }
}

/// A switch that was made is reported with the node before it and the node
/// after it.
pub proof fn law_site_switch_report(
    site: Seq<char>,
    before: Option<Seq<char>>,
    after: Seq<char>,
    status: Option<u16>,
)
    ensures
        switched_outcome(site, before, after, status).site == site,
        switched_outcome(site, before, after, status).node_before == before,
        switched_outcome(site, before, after, status).node_after == Some(after),
        switched_outcome(site, before, after, status).action == "switched"@,
{
}

/// A named site is probed alone, at its address; without a name all sites are,
/// each once and in the order of their names. An unknown site and an empty
/// list are refused.
pub proof fn law_sites_to_probe(list: Map<Seq<char>, Seq<char>>, name: Seq<char>)
    requires
        list.dom().finite(),
    ensures
        sites_to_probe(list, Some(name)) is Ok <==> list.contains_key(name),
        sites_to_probe(list, Some(name)) matches Ok(v) ==> v.len() == 1 && v[0].name == name
            && v[0].url == list[name],
        sites_to_probe(list, None) matches Ok(v) ==> {
            &&& forall|i: int|
                0 <= i < v.len() ==> list.contains_key((#[trigger] v[i]).name) && v[i].url
                    == list[v[i].name]
            &&& list.contains_key(name) ==> exists|i: int|
                0 <= i < v.len() && (#[trigger] v[i]).name == name
            &&& forall|i: int, j: int|
                0 <= i < j < v.len() ==> crate::names::text_less(
                    (#[trigger] v[i]).name,
                    (#[trigger] v[j]).name,
                )
        },
        list.contains_key(name) ==> sites_to_probe(list, None) is Ok,
{
    let ks = ordered(list.dom());
    crate::names::lemma_ordered(list.dom());
    crate::names::lemma_ordered_contains(list.dom(), name);
    if list.contains_key(name) {
        let i = ks.index_of(name);
        assert(ks[i] == name);
        if sites_to_probe(list, None) is Ok {
            let v = sites_to_probe(list, None)->Ok_0;
            assert(v[i].name == name);
        }
    }
    assert forall|i: int| 0 <= i < ks.len() implies list.contains_key(#[trigger] ks[i]) by {
        crate::names::lemma_ordered_contains(list.dom(), ks[i]);
        assert(ks.contains(ks[i]));
    }
}

/// All sites count as served exactly where each is served by some node, and
/// none where none is.
pub proof fn law_served_sites_are_counted(v: Seq<SiteTask<Seq<char>>>, all: VerdictMap)
    ensures
        served_count(v, all) <= v.len(),
        served_count(v, all) == v.len() <==> forall|i: int|
            0 <= i < v.len() ==> anyone_served(all, (#[trigger] v[i]).name),
        served_count(v, all) == 0 <==> forall|i: int|
            0 <= i < v.len() ==> !anyone_served(all, (#[trigger] v[i]).name),
    decreases v.len(),
{
    if v.len() > 0 {
        let d = v.drop_last();
        law_served_sites_are_counted(d, all);
        let last = v[v.len() - 1];
        if served_count(v, all) == v.len() {
            assert forall|i: int| 0 <= i < v.len() implies anyone_served(
                all,
                (#[trigger] v[i]).name,
            ) by {
                if i < d.len() {
                    assert(d[i] == v[i]);
                }
            }
        }
        if forall|i: int| 0 <= i < v.len() ==> anyone_served(all, (#[trigger] v[i]).name) {
            assert forall|i: int| 0 <= i < d.len() implies anyone_served(
                all,
                (#[trigger] d[i]).name,
            ) by {
                assert(d[i] == v[i]);
            }
            assert(anyone_served(all, last.name));
        }
        if served_count(v, all) == 0 {
            assert forall|i: int| 0 <= i < v.len() implies !anyone_served(
                all,
                (#[trigger] v[i]).name,
            ) by {
                if i < d.len() {
                    assert(d[i] == v[i]);
                }
            }
        }
        if forall|i: int| 0 <= i < v.len() ==> !anyone_served(all, (#[trigger] v[i]).name) {
            assert forall|i: int| 0 <= i < d.len() implies !anyone_served(
                all,
                (#[trigger] d[i]).name,
            ) by {
                assert(d[i] == v[i]);
            }
            assert(!anyone_served(all, last.name));
        }
    }
}

/// A site counts as served once a verdict says that some node is, and not
/// before.
pub proof fn law_served_by_some_node(
    all: VerdictMap,
    site: Seq<char>,
    node: Seq<char>,
    verdict: SiteVerdictView,
)
    ensures
        verdict.status is Served ==> anyone_served(
            crate::state::verdict_recorded(all, site, node, verdict),
            site,
        ),
        !all.contains_key(site) ==> !anyone_served(all, site),
        !all.contains_key(site) && !(verdict.status is Served) ==> !anyone_served(
            crate::state::verdict_recorded(all, site, node, verdict),
            site,
        ),
{
    let t = crate::state::verdict_recorded(all, site, node, verdict);
    assert(t[site].contains_key(node));
    if !all.contains_key(site) && anyone_served(t, site) {
        let n = choose|n: Seq<char>| #[trigger]
            t[site].contains_key(n) && t[site][n].status == SiteStatus::Served;
        assert(n == node);
    }
}

} // verus!
