//! Configuration shapes, profile resolution and source identities.

use vstd::prelude::*;
use vstd::utf8::encode_utf8;

use crate::digest::{
    hex_bytes, hex_of, json_quoted, lemma_hex_bytes, lemma_hex_bytes_unique, lemma_json_quoted_unique, quote_json,
    sha256, sha256_digest,
};
use crate::manifest::opt_view;
use crate::names::{lemma_ordered_contains, ordered, Model, NameMap};
use crate::paths::{join, joined, parent, parent_of};
use crate::text::{
    after_prefix, begins, copy_opt, copy_texts, lower_hex, opt_text, opt_texts, same, strip_prefix,
    texts,
};

verus! {

/// Stable name of the profile that a bare `subscriptions.files` list makes.
pub const LEGACY_SUBSCRIPTION_NAME: &'static str = "default";

/// An IP address as plain numbers.
#[derive(Debug, Clone, Copy, PartialEq, Eq, Structural)]
pub enum IpAddress {
    V4(u8, u8, u8, u8),
    V6(u128),
}

impl IpAddress {
    /// 127.0.0.0/8 and ::1.
    pub open spec fn loopback(self) -> bool {
        match self {
            IpAddress::V4(a, _, _, _) => a == 127,
            IpAddress::V6(n) => n == 1,
        }
    }

    pub fn is_loopback(&self) -> (b: bool)
        ensures
            b == self.loopback(),
    {
        match self {
            IpAddress::V4(a, _, _, _) => *a == 127,
            IpAddress::V6(n) => *n == 1,
        }
    }
}

/// Selection policy of one class, where it differs from the global one.
#[derive(Debug, PartialEq, Eq)]
pub struct ClassSelection {
    pub regions: Option<Vec<String>>,
    pub auto_switch: Option<bool>,
}

#[verifier::ext_equal]
pub struct ClassSelectionView {
    pub regions: Option<Seq<Seq<char>>>,
    pub auto_switch: Option<bool>,
}

impl View for ClassSelection {
    type V = ClassSelectionView;

    open spec fn view(&self) -> ClassSelectionView {
        ClassSelectionView { regions: opt_texts(self.regions), auto_switch: self.auto_switch }
    }
}

/// Health target of one class, where it differs from the global one.
#[derive(Debug, PartialEq, Eq)]
pub struct ClassHealth {
    /// A plaintext URL or a `connect://host[:port]` target.
    pub url: Option<String>,
    /// Samples per health tick.
    pub samples: Option<u32>,
}

#[verifier::ext_equal]
pub struct ClassHealthView {
    pub url: Option<Seq<char>>,
    pub samples: Option<u32>,
}

impl View for ClassHealth {
    type V = ClassHealthView;

    open spec fn view(&self) -> ClassHealthView {
        ClassHealthView { url: opt_text(self.url), samples: self.samples }
    }
}

/// One traffic class.
#[derive(Debug, PartialEq, Eq)]
pub struct ClassConfig {
    /// The listen address as it is written, for messages.
    pub listen: String,
    pub ip: IpAddress,
    pub port: u16,
    pub selection: Option<ClassSelection>,
    pub health: Option<ClassHealth>,
}

#[verifier::ext_equal]
pub struct ClassConfigView {
    pub listen: Seq<char>,
    pub ip: IpAddress,
    pub port: u16,
    pub selection: Option<ClassSelectionView>,
    pub health: Option<ClassHealthView>,
}

impl View for ClassConfig {
    type V = ClassConfigView;

    open spec fn view(&self) -> ClassConfigView {
        ClassConfigView {
            listen: self.listen@,
            ip: self.ip,
            port: self.port,
            selection: opt_view(self.selection),
            health: opt_view(self.health),
        }
    }
}

impl Model for ClassConfig {
    fn dup(&self) -> (r: Self) {
        ClassConfig {
            listen: self.listen.clone(),
            ip: self.ip,
            port: self.port,
            selection: match &self.selection {
                Some(s) => Some(
                    ClassSelection {
                        regions: match &s.regions {
                            Some(v) => Some(copy_texts(v)),
                            None => None,
                        },
                        auto_switch: s.auto_switch,
                    },
                ),
                None => None,
            },
            health: match &self.health {
                Some(h) => Some(ClassHealth { url: copy_opt(&h.url), samples: h.samples }),
                None => None,
            },
        }
    }
}

/// One named subscription source: local manifests, or a private URL file with
/// an atomic cache.
#[derive(Debug, PartialEq, Eq)]
pub struct SubscriptionProfileConfig {
    pub files: Vec<String>,
    pub url_file: Option<String>,
    pub cache_file: Option<String>,
}

#[verifier::ext_equal]
pub struct ProfileView {
    pub files: Seq<Seq<char>>,
    pub url_file: Option<Seq<char>>,
    pub cache_file: Option<Seq<char>>,
}

impl View for SubscriptionProfileConfig {
    type V = ProfileView;

    open spec fn view(&self) -> ProfileView {
        ProfileView {
            files: texts(self.files@),
            url_file: opt_text(self.url_file),
            cache_file: opt_text(self.cache_file),
        }
    }
}

impl Model for SubscriptionProfileConfig {
    fn dup(&self) -> (r: Self) {
        SubscriptionProfileConfig {
            files: copy_texts(&self.files),
            url_file: copy_opt(&self.url_file),
            cache_file: copy_opt(&self.cache_file),
        }
    }
}

/// The configured subscriptions: either a bare list of manifest files, or
/// named profiles of which one supplies the live pool at a time.
pub struct SubscriptionsConfig {
    pub files: Vec<String>,
    /// Profile selected on first run.
    pub default: Option<String>,
    pub profiles: NameMap<SubscriptionProfileConfig>,
}

#[verifier::ext_equal]
pub struct CatalogView {
    pub files: Seq<Seq<char>>,
    pub default: Option<Seq<char>>,
    pub profiles: Map<Seq<char>, ProfileView>,
}

impl View for SubscriptionsConfig {
    type V = CatalogView;

    open spec fn view(&self) -> CatalogView {
        CatalogView {
            files: texts(self.files@),
            default: opt_text(self.default),
            profiles: self.profiles@,
        }
    }
}

impl Model for SubscriptionsConfig {
    fn dup(&self) -> (r: Self) {
        SubscriptionsConfig {
            files: copy_texts(&self.files),
            default: copy_opt(&self.default),
            profiles: self.profiles.dup(),
        }
    }
}

#[derive(Debug, PartialEq, Eq)]
pub struct ProbeConfig {
    pub interval_secs: u64,
    pub timeout_ms: u64,
    pub concurrency: usize,
}

impl Default for ProbeConfig {
    fn default() -> (c: Self)
        ensures
            c.interval_secs == 600,
            c.timeout_ms == 3000,
            c.concurrency == 32,
    {
        ProbeConfig { interval_secs: 600, timeout_ms: 3000, concurrency: 32 }
    }
}

#[derive(Debug, PartialEq, Eq)]
pub struct HealthConfig {
    pub interval_secs: u64,
    pub timeout_ms: u64,
    pub fail_threshold: u32,
    pub url: String,
    /// Minimum drain grace period for an old data plane after a switch.
    pub drain_grace_secs: u64,
}

impl Default for HealthConfig {
    fn default() -> (c: Self)
        ensures
            c.interval_secs == 30,
            c.timeout_ms == 5000,
            c.fail_threshold == 3,
            c.url@ == "http://www.gstatic.com/generate_204"@,
            c.drain_grace_secs == 10,
    {
        HealthConfig {
            interval_secs: 30,
            timeout_ms: 5000,
            fail_threshold: 3,
            url: "http://www.gstatic.com/generate_204".to_owned(),
            drain_grace_secs: 10,
        }
    }
}

/// Selection policy. The two ratios are bits of doubles.
#[derive(Debug, PartialEq, Eq)]
pub struct SelectionConfig {
    /// A challenger must beat the incumbent by this margin.
    pub hysteresis: u64,
    /// Smoothing factor of the moving averages.
    pub ema_alpha: u64,
    /// Name parts that automatic selection is limited to; empty is no limit.
    pub regions: Vec<String>,
    /// Automatic switching without operator action.
    pub auto_switch: bool,
}

/// The bits of the double 0.3.
pub const THREE_TENTHS_BITS: u64 = 0x3fd3_3333_3333_3333;

impl Default for SelectionConfig {
    fn default() -> (c: Self)
        ensures
            c.hysteresis == THREE_TENTHS_BITS,
            c.ema_alpha == THREE_TENTHS_BITS,
            c.regions@.len() == 0,
            c.auto_switch,
    {
        SelectionConfig {
            hysteresis: THREE_TENTHS_BITS,
            ema_alpha: THREE_TENTHS_BITS,
            regions: Vec::new(),
            auto_switch: true,
        }
    }
}

/// Anti-bot freeze awareness: the sites worth protecting and how to probe
/// them.
pub struct SitesConfig {
    /// Site name to probe URL.
    pub list: NameMap<String>,
    pub timeout_ms: u64,
    pub user_agent: String,
    pub verdict_ttl_secs: u64,
    pub max_candidates: usize,
}

/// Hosts that are listed for direct routing. The list is kept, counted and
/// compared on reload; no adapter configuration carries it.
#[derive(Debug, PartialEq, Eq)]
pub struct RoutingConfig {
    pub direct_hosts: Vec<String>,
}

pub struct Config {
    pub log_dir: String,
    pub state_file: String,
    pub sslocal_bin: String,
    pub obfs_plugin_bin: String,
    pub singbox_bin: String,
    pub subscriptions: SubscriptionsConfig,
    pub classes: NameMap<ClassConfig>,
    pub probe: ProbeConfig,
    pub health: HealthConfig,
    pub selection: SelectionConfig,
    pub sites: SitesConfig,
    pub routing: RoutingConfig,
}

// ---------------------------------------------------------------------------
// Policy of a class
// ---------------------------------------------------------------------------

/// The regions that automatic selection of a class is limited to.
pub open spec fn class_regions(c: Config, class: Seq<char>) -> Seq<Seq<char>> {
    if c.classes@.contains_key(class) && c.classes@[class].selection is Some
        && (c.classes@[class].selection->0).regions is Some {
        (c.classes@[class].selection->0).regions->0
    } else {
        texts(c.selection.regions@)
    }
}

/// May the class leave a working node without operator action?
pub open spec fn class_auto_switch(c: Config, class: Seq<char>) -> bool {
    if c.classes@.contains_key(class) && c.classes@[class].selection is Some
        && (c.classes@[class].selection->0).auto_switch is Some {
        (c.classes@[class].selection->0).auto_switch->0
    } else {
        c.selection.auto_switch
    }
}

/// The class has a health target of its own.
pub open spec fn own_target(c: Config, class: Seq<char>) -> Option<Seq<char>> {
    if c.classes@.contains_key(class) && c.classes@[class].health is Some {
        (c.classes@[class].health->0).url
    } else {
        None
    }
}

pub open spec fn class_target(c: Config, class: Seq<char>) -> Seq<char> {
    match own_target(c, class) {
        Some(url) => url,
        None => c.health.url@,
    }
}

/// Samples per health tick; one where the class says nothing.
pub open spec fn class_samples(c: Config, class: Seq<char>) -> u32 {
    if c.classes@.contains_key(class) && c.classes@[class].health is Some
        && (c.classes@[class].health->0).samples is Some {
        (c.classes@[class].health->0).samples->0
    } else {
        1
    }
}

impl Config {
    pub fn regions_of(&self, class: &str) -> (r: Vec<String>)
        ensures
            texts(r@) == class_regions(*self, class@),
    {
        if let Some(c) = self.classes.get(class) {
            if let Some(s) = &c.selection {
                if let Some(regions) = &s.regions {
                    return copy_texts(regions);
                }
            }
        }
        copy_texts(&self.selection.regions)
    }

    pub fn auto_switch_of(&self, class: &str) -> (r: bool)
        ensures
            r == class_auto_switch(*self, class@),
    {
        if let Some(c) = self.classes.get(class) {
            if let Some(s) = &c.selection {
                if let Some(auto) = s.auto_switch {
                    return auto;
                }
            }
        }
        self.selection.auto_switch
    }

    /// The class judges nodes by a target of its own, so its verdicts stay
    /// out of the shared scores.
    pub fn has_own_target(&self, class: &str) -> (r: bool)
        ensures
            r == (own_target(*self, class@) is Some),
    {
        if let Some(c) = self.classes.get(class) {
            if let Some(h) = &c.health {
                return h.url.is_some();
            }
        }
        false
    }

    pub fn target_of(&self, class: &str) -> (r: String)
        ensures
            r@ == class_target(*self, class@),
    {
        if let Some(c) = self.classes.get(class) {
            if let Some(h) = &c.health {
                if let Some(url) = &h.url {
                    return url.clone();
                }
            }
        }
        self.health.url.clone()
    }

    pub fn samples_of(&self, class: &str) -> (r: u32)
        ensures
            r == class_samples(*self, class@),
    {
        if let Some(c) = self.classes.get(class) {
            if let Some(h) = &c.health {
                if let Some(n) = h.samples {
                    return n;
                }
            }
        }
        1
    }
}

// ---------------------------------------------------------------------------
// Home-relative paths
// ---------------------------------------------------------------------------

/// The config file used when none is named.
pub fn default_config_path(home: &str) -> (r: String)
    ensures
        r@ == joined(home@, ".config/causeway/config.toml"@),
{
    join(home, ".config/causeway/config.toml")
}

pub fn default_log_dir(home: &str) -> (r: String)
    ensures
        r@ == joined(home@, ".local/share/causeway/logs"@),
{
    join(home, ".local/share/causeway/logs")
}

pub fn default_state_file(home: &str) -> (r: String)
    ensures
        r@ == joined(home@, ".local/share/causeway/state.json"@),
{
    join(home, ".local/share/causeway/state.json")
}

pub fn default_sslocal_bin(home: &str) -> (r: String)
    ensures
        r@ == joined(home@, ".local/share/causeway/bin/sslocal"@),
{
    join(home, ".local/share/causeway/bin/sslocal")
}

pub fn default_obfs_plugin_bin(home: &str) -> (r: String)
    ensures
        r@ == joined(home@, ".local/share/causeway/bin/obfs-local"@),
{
    join(home, ".local/share/causeway/bin/obfs-local")
}

pub fn default_singbox_bin(home: &str) -> (r: String)
    ensures
        r@ == joined(home@, ".local/share/causeway/bin/sing-box"@),
{
    join(home, ".local/share/causeway/bin/sing-box")
}

/// A leading `~` stands for the home directory.
pub open spec fn expanded(p: Seq<char>, home: Seq<char>) -> Seq<char> {
    if p == "~"@ {
        home
    } else {
        match after_prefix(p, "~/"@) {
            Some(rest) => joined(home, rest),
            None => p,
        }
    }
}

pub fn expand_tilde(p: &str, home: &str) -> (r: String)
    ensures
        r@ == expanded(p@, home@),
{
    if same(p, "~") {
        home.to_owned()
    } else {
        match strip_prefix(p, "~/") {
            Some(rest) => join(home, rest.as_str()),
            None => p.to_owned(),
        }
    }
}

pub open spec fn expanded_opt(p: Option<Seq<char>>, home: Seq<char>) -> Option<Seq<char>> {
    match p {
        Some(s) => Some(expanded(s, home)),
        None => None,
    }
}

pub open spec fn expanded_all(v: Seq<Seq<char>>, home: Seq<char>) -> Seq<Seq<char>> {
    v.map_values(|p: Seq<char>| expanded(p, home))
}

pub open spec fn expanded_profile(p: ProfileView, home: Seq<char>) -> ProfileView {
    ProfileView {
        files: expanded_all(p.files, home),
        url_file: expanded_opt(p.url_file, home),
        cache_file: expanded_opt(p.cache_file, home),
    }
}

fn expand_list(v: &Vec<String>, home: &str) -> (r: Vec<String>)
    ensures
        texts(r@) == expanded_all(texts(v@), home@),
{
    let mut r: Vec<String> = Vec::new();
    let mut i: usize = 0;
    while i < v.len()
        invariant
            i <= v@.len(),
            r@.len() == i,
            forall|j: int| 0 <= j < i ==> (#[trigger] r@[j])@ == expanded(v@[j]@, home@),
        decreases v@.len() - i,
    {
        r.push(expand_tilde(v[i].as_str(), home));
        i = i + 1;
    }
    assert(texts(r@) =~= expanded_all(texts(v@), home@));
    r
}

fn expand_opt(p: &Option<String>, home: &str) -> (r: Option<String>)
    ensures
        opt_text(r) == expanded_opt(opt_text(*p), home@),
{
    match p {
        Some(s) => Some(expand_tilde(s.as_str(), home)),
        None => None,
    }
}

impl Config {
    /// Expand `~` in every path field. Nothing else changes.
    pub fn expand_paths(&mut self, home: &str)
        ensures
            final(self).log_dir@ == expanded(old(self).log_dir@, home@),
            final(self).state_file@ == expanded(old(self).state_file@, home@),
            final(self).sslocal_bin@ == expanded(old(self).sslocal_bin@, home@),
            final(self).obfs_plugin_bin@ == expanded(old(self).obfs_plugin_bin@, home@),
            final(self).singbox_bin@ == expanded(old(self).singbox_bin@, home@),
            final(self).subscriptions@ == (CatalogView {
                files: expanded_all(old(self).subscriptions@.files, home@),
                default: old(self).subscriptions@.default,
                profiles: old(self).subscriptions@.profiles.map_values(
                    |p: ProfileView| expanded_profile(p, home@),
                ),
            }),
            final(self).classes == old(self).classes,
            final(self).probe == old(self).probe,
            final(self).health == old(self).health,
            final(self).selection == old(self).selection,
            final(self).sites == old(self).sites,
            final(self).routing == old(self).routing,
    {
        self.log_dir = expand_tilde(self.log_dir.as_str(), home);
        self.state_file = expand_tilde(self.state_file.as_str(), home);
        self.sslocal_bin = expand_tilde(self.sslocal_bin.as_str(), home);
        self.obfs_plugin_bin = expand_tilde(self.obfs_plugin_bin.as_str(), home);
        self.singbox_bin = expand_tilde(self.singbox_bin.as_str(), home);
        let files = expand_list(&self.subscriptions.files, home);
        let ghost before = self.subscriptions.profiles@;
        let ghost ks = ordered(before.dom());
        let mut profiles: NameMap<SubscriptionProfileConfig> = NameMap::new();
        let n: usize = self.subscriptions.profiles.len();
        let mut i: usize = 0;
        while i < n
            invariant
                i <= n,
                n == ks.len(),
                before == self.subscriptions.profiles@,
                ks == ordered(before.dom()),
                forall|k: Seq<char>| #[trigger]
                    profiles@.contains_key(k) <==> ks.take(i as int).contains(k),
                forall|k: Seq<char>| #[trigger]
                    profiles@.contains_key(k) ==> before.contains_key(k) && profiles@[k]
                        == expanded_profile(before[k], home@),
                before.dom().finite(),
            decreases n - i,
        {
            let name = self.subscriptions.profiles.key_at(i).clone();
            let p = self.subscriptions.profiles.value_at(i);
            let q = SubscriptionProfileConfig {
                files: expand_list(&p.files, home),
                url_file: expand_opt(&p.url_file, home),
                cache_file: expand_opt(&p.cache_file, home),
            };
            let ghost key = name@;
            proof {
                assert(q@ =~= expanded_profile(before[key], home@));
            }
            profiles.insert(name, q);
            proof {
                let t = ks.take(i as int);
                let t2 = ks.take(i + 1);
                assert(t2 =~= t.push(key));
                assert forall|k: Seq<char>| t2.contains(k) <==> (t.contains(k) || k == key) by {
                    if t.contains(k) {
                        let j = t.index_of(k);
                        assert(t2[j] == k);
                    }
                    if k == key {
                        assert(t2[i as int] == k);
                    }
                    if t2.contains(k) {
                        let j = t2.index_of(k);
                        if j < i {
                            assert(t[j] == k);
                        }
                    }
                }
            }
            i = i + 1;
        }
        proof {
            assert(ks.take(n as int) =~= ks);
            let want = before.map_values(|p: ProfileView| expanded_profile(p, home@));
            assert forall|k: Seq<char>| profiles@.contains_key(k) <==> #[trigger] want.contains_key(k) by {
                lemma_ordered_contains(before.dom(), k);
            }
            assert(profiles@ =~= want);
        }
        self.subscriptions.files = files;
        self.subscriptions.profiles = profiles;
    }
}

// ---------------------------------------------------------------------------
// What the file system says about the configured paths
// ---------------------------------------------------------------------------

/// What is known of a path as a file.
#[derive(Debug, Clone, Copy, PartialEq, Eq, Structural)]
pub enum FileFact {
    Unreadable,
    NotRegular,
    /// A regular file with its permission bits.
    Regular(u32),
}

/// What the file system says about one configured path.
#[derive(Debug, PartialEq, Eq)]
pub struct PathFact {
    /// The canonical form of the nearest existing ancestor with the rest
    /// resolved below it; `None` where that failed.
    pub normalized: Option<String>,
    pub exists: bool,
    pub file: FileFact,
}

#[verifier::ext_equal]
pub struct PathFactView {
    pub normalized: Option<Seq<char>>,
    pub exists: bool,
    pub file: FileFact,
}

impl View for PathFact {
    type V = PathFactView;

    open spec fn view(&self) -> PathFactView {
        PathFactView {
            normalized: opt_text(self.normalized),
            exists: self.exists,
            file: self.file,
        }
    }
}

impl Model for PathFact {
    fn dup(&self) -> (r: Self) {
        PathFact {
            normalized: copy_opt(&self.normalized),
            exists: self.exists,
            file: self.file,
        }
    }
}

pub type FactMap = Map<Seq<char>, PathFactView>;

/// The canonical form of a path, if it is known.
pub open spec fn canonical(facts: FactMap, p: Seq<char>) -> Option<Seq<char>> {
    if facts.contains_key(p) {
        facts[p].normalized
    } else {
        None
    }
}

pub open spec fn present(facts: FactMap, p: Seq<char>) -> bool {
    facts.contains_key(p) && facts[p].exists
}

pub open spec fn file_fact(facts: FactMap, p: Seq<char>) -> FileFact {
    if facts.contains_key(p) {
        facts[p].file
    } else {
        FileFact::Unreadable
    }
}

pub fn normalized_path(facts: &NameMap<PathFact>, p: &str) -> (r: Option<String>)
    ensures
        opt_text(r) == canonical(facts@, p@),
{
    match facts.get(p) {
        Some(f) => copy_opt(&f.normalized),
        None => None,
    }
}

pub fn path_exists(facts: &NameMap<PathFact>, p: &str) -> (r: bool)
    ensures
        r == present(facts@, p@),
{
    match facts.get(p) {
        Some(f) => f.exists,
        None => false,
    }
}

pub fn known_file(facts: &NameMap<PathFact>, p: &str) -> (r: FileFact)
    ensures
        r == file_fact(facts@, p@),
{
    match facts.get(p) {
        Some(f) => f.file,
        None => FileFact::Unreadable,
    }
}

// ---------------------------------------------------------------------------
// Profiles
// ---------------------------------------------------------------------------

/// Why no subscription could be named.
#[derive(Debug, Clone, Copy, PartialEq, Eq, Structural)]
pub enum CatalogError {
    /// Several profiles and no default among them.
    DefaultRequired,
}

/// The profile names that control clients see, ascending.
pub open spec fn catalog_names(c: CatalogView) -> Seq<Seq<char>> {
    if c.files.len() > 0 {
        seq![LEGACY_SUBSCRIPTION_NAME@]
    } else {
        ordered(c.profiles.dom())
    }
}

/// The profile that a name stands for.
pub open spec fn catalog_profile(c: CatalogView, name: Seq<char>) -> Option<ProfileView> {
    if c.files.len() > 0 {
        if name == LEGACY_SUBSCRIPTION_NAME@ {
            Some(ProfileView { files: c.files, url_file: None, cache_file: None })
        } else {
            None
        }
    } else if c.profiles.contains_key(name) {
        Some(c.profiles[name])
    } else {
        None
    }
}

/// The selection before a persisted choice is considered.
pub open spec fn catalog_default(c: CatalogView) -> Result<Seq<char>, CatalogError> {
    if c.files.len() > 0 {
        Ok(LEGACY_SUBSCRIPTION_NAME@)
    } else if c.default is Some {
        Ok(c.default->0)
    } else if ordered(c.profiles.dom()).len() == 1 {
        Ok(ordered(c.profiles.dom())[0])
    } else {
        Err(CatalogError::DefaultRequired)
    }
}

impl SubscriptionsConfig {
    /// Names visible to control clients. A bare file list looks like one
    /// normal profile.
    pub fn profile_names(&self) -> (r: Vec<String>)
        ensures
            texts(r@) == catalog_names(self@),
    {
        let mut out: Vec<String> = Vec::new();
        if self.files.len() > 0 {
            out.push(LEGACY_SUBSCRIPTION_NAME.to_owned());
            assert(texts(out@) =~= seq![LEGACY_SUBSCRIPTION_NAME@]);
            return out;
        }
        let ghost ks = ordered(self.profiles@.dom());
        let n: usize = self.profiles.len();
        let mut i: usize = 0;
        while i < n
            invariant
                i <= n,
                n == ks.len(),
                ks == ordered(self.profiles@.dom()),
                texts(out@) == ks.take(i as int),
            decreases n - i,
        {
            let ghost before = texts(out@);
            out.push(self.profiles.key_at(i).clone());
            assert(texts(out@) =~= before.push(ks[i as int]));
            assert(ks.take(i + 1) =~= ks.take(i as int).push(ks[i as int]));
            i = i + 1;
        }
        assert(ks.take(n as int) =~= ks);
        out
    }

    /// Startup selection before a persisted runtime choice is considered.
    pub fn default_profile_name(&self) -> (r: Result<String, CatalogError>)
        ensures
            match r {
                Ok(name) => catalog_default(self@) == Ok::<Seq<char>, CatalogError>(name@),
                Err(e) => catalog_default(self@) == Err::<Seq<char>, CatalogError>(e),
            },
    {
        if self.files.len() > 0 {
            return Ok(LEGACY_SUBSCRIPTION_NAME.to_owned());
        }
        if let Some(name) = &self.default {
            return Ok(name.clone());
        }
        if self.profiles.len() == 1 {
            Ok(self.profiles.key_at(0).clone())
        } else {
            Err(CatalogError::DefaultRequired)
        }
    }

    /// Resolve either configuration shape to a profile.
    pub fn profile(&self, name: &str) -> (r: Option<SubscriptionProfileConfig>)
        ensures
            crate::manifest::opt_view(r) == catalog_profile(self@, name@),
    {
        if self.files.len() > 0 {
            return if same(name, LEGACY_SUBSCRIPTION_NAME) {
                Some(
                    SubscriptionProfileConfig {
                        files: copy_texts(&self.files),
                        url_file: None,
                        cache_file: None,
                    },
                )
            } else {
                None
            };
        }
        match self.profiles.get(name) {
            Some(p) => Some(p.dup()),
            None => None,
        }
    }
}

// ---------------------------------------------------------------------------
// Source identities
// ---------------------------------------------------------------------------

/// Why a profile has no identity.
#[derive(Debug, PartialEq, Eq)]
pub enum IdentityError {
    NoUrlFile,
    NoCacheFile,
    /// The path could not be normalized.
    Unresolvable(String),
}

pub enum IdentityErrorView {
    NoUrlFile,
    NoCacheFile,
    Unresolvable(Seq<char>),
}

impl View for IdentityError {
    type V = IdentityErrorView;

    open spec fn view(&self) -> IdentityErrorView {
        match self {
            IdentityError::NoUrlFile => IdentityErrorView::NoUrlFile,
            IdentityError::NoCacheFile => IdentityErrorView::NoCacheFile,
            IdentityError::Unresolvable(p) => IdentityErrorView::Unresolvable(p@),
        }
    }
}

/// The quoted canonical paths, separated by commas.
pub open spec fn quoted_list(facts: FactMap, files: Seq<Seq<char>>) -> Seq<char>
    decreases files.len(),
{
    if files.len() == 0 {
        Seq::empty()
    } else {
        let q = json_quoted(canonical(facts, files.last())->0);
        if files.len() == 1 {
            q
        } else {
            quoted_list(facts, files.drop_last()) + ","@ + q
        }
    }
}

/// The canonical description of a source: its kind and its canonical paths,
/// as compact JSON.
pub open spec fn source_text(facts: FactMap, p: ProfileView) -> Seq<char> {
    if p.files.len() > 0 {
        "{\"kind\":\"local\",\"files\":["@ + quoted_list(facts, p.files) + "]}"@
    } else {
        "{\"kind\":\"remote\",\"url_file\":"@ + json_quoted(canonical(facts, p.url_file->0)->0)
            + ",\"cache_file\":"@ + json_quoted(canonical(facts, p.cache_file->0)->0) + "}"@
    }
}

/// Why a source has no identity: a missing part, or the first path that
/// cannot be normalized.
pub open spec fn source_problem(facts: FactMap, p: ProfileView) -> Option<IdentityErrorView> {
    if p.files.len() > 0 {
        let bad = crate::seqs::first_index(
            p.files.len(),
            |i: int| canonical(facts, p.files[i]) is None,
        ) as int;
        if bad < p.files.len() {
            Some(IdentityErrorView::Unresolvable(p.files[bad]))
        } else {
            None
        }
    } else if p.url_file is None {
        Some(IdentityErrorView::NoUrlFile)
    } else if canonical(facts, p.url_file->0) is None {
        Some(IdentityErrorView::Unresolvable(p.url_file->0))
    } else if p.cache_file is None {
        Some(IdentityErrorView::NoCacheFile)
    } else if canonical(facts, p.cache_file->0) is None {
        Some(IdentityErrorView::Unresolvable(p.cache_file->0))
    } else {
        None
    }
}

/// The credential-free identity of a source: the SHA-256 of its canonical
/// description.
pub open spec fn identity_of(facts: FactMap, p: ProfileView) -> Result<
    Seq<char>,
    IdentityErrorView,
> {
    match source_problem(facts, p) {
        Some(e) => Err(e),
        None => Ok("sha256:"@ + hex_bytes(sha256_digest(encode_utf8(source_text(facts, p))))),
    }
}

fn quote_list(facts: &NameMap<PathFact>, files: &Vec<String>) -> (r: Result<String, usize>)
    ensures
        match r {
            Ok(s) => s@ == quoted_list(facts@, texts(files@)) && forall|i: int|
                0 <= i < files@.len() ==> canonical(facts@, #[trigger] texts(files@)[i]) is Some,
            Err(i) => i < files@.len() && canonical(facts@, texts(files@)[i as int]) is None && (
            forall|j: int|
                0 <= j < i ==> canonical(facts@, #[trigger] texts(files@)[j]) is Some),
        },
{
    let mut out = String::new();
    let mut i: usize = 0;
    let ghost all = texts(files@);
    assert(all.take(0) =~= Seq::<Seq<char>>::empty());
    while i < files.len()
        invariant
            i <= files@.len(),
            all == texts(files@),
            out@ == quoted_list(facts@, all.take(i as int)),
            forall|j: int| 0 <= j < i ==> canonical(facts@, #[trigger] all[j]) is Some,
        decreases files@.len() - i,
    {
        let ghost t = all.take(i + 1);
        assert(t.drop_last() =~= all.take(i as int));
        assert(t.last() == files@[i as int]@);
        assert(all[i as int] == files@[i as int]@);
        match normalized_path(facts, files[i].as_str()) {
            None => return Err(i),
            Some(p) => {
                if i > 0 {
                    out.append(",");
                }
                let q = quote_json(p.as_str());
                out.append(q.as_str());
                proof {
                    if i == 0 {
                        assert(all.take(0) =~= Seq::<Seq<char>>::empty());
                        assert(out@ =~= q@);
                    }
                    assert(out@ == quoted_list(facts@, t));
                }
            },
        }
        i = i + 1;
    }
    assert(all.take(files@.len() as int) =~= all);
    Ok(out)
}

/// The form of every identity: a prefix and 64 lower-case hexadecimal digits.
pub open spec fn identity_form(s: Seq<char>) -> bool {
    &&& s.len() == 71
    &&& begins(s, "sha256:"@)
    &&& forall|i: int| 7 <= i < 71 ==> lower_hex(#[trigger] s[i])
}

fn identity_digest(text: &str) -> (r: String)
    ensures
        r@ == "sha256:"@ + hex_bytes(sha256_digest(encode_utf8(text@))),
        identity_form(r@),
{
    let d = sha256(text.as_bytes());
    proof {
        reveal_strlit("sha256:");
        lemma_hex_bytes(d@);
        let h = hex_bytes(d@);
        let s = "sha256:"@ + h;
        assert(s.take(7) =~= "sha256:"@);
        assert forall|i: int| 7 <= i < 71 implies lower_hex(#[trigger] s[i]) by {
            assert(s[i] == h[i - 7]);
        }
    }
    let mut r = "sha256:".to_owned();
    let h = hex_of(&d);
    r.append(h.as_str());
    r
}

impl SubscriptionProfileConfig {
    /// Identify the configured source by its canonical paths. Neither a
    /// manifest nor the credential-bearing URL file is read.
    pub fn source_identity(&self, facts: &NameMap<PathFact>) -> (r: Result<String, IdentityError>)
        ensures
            match r {
                Ok(s) => identity_of(facts@, self@) == Ok::<Seq<char>, IdentityErrorView>(s@)
                    && identity_form(s@),
                Err(e) => identity_of(facts@, self@) == Err::<Seq<char>, IdentityErrorView>(e@),
            },
    {
        if self.files.len() > 0 {
            let ghost bad = |i: int| canonical(facts@, self@.files[i]) is None;
            match quote_list(facts, &self.files) {
                Err(i) => {
                    proof {
                        crate::seqs::lemma_first_is(self@.files.len(), bad, i as nat);
                    }
                    Err(IdentityError::Unresolvable(self.files[i].clone()))
                },
                Ok(list) => {
                    proof {
                        crate::seqs::lemma_first_is(self@.files.len(), bad, self@.files.len());
                    }
                    let mut s = "{\"kind\":\"local\",\"files\":[".to_owned();
                    s.append(list.as_str());
                    s.append("]}");
                    Ok(identity_digest(s.as_str()))
                },
            }
        } else {
            let url_file = match &self.url_file {
                Some(p) => p,
                None => return Err(IdentityError::NoUrlFile),
            };
            let url = match normalized_path(facts, url_file.as_str()) {
                Some(p) => p,
                None => return Err(IdentityError::Unresolvable(url_file.clone())),
            };
            let cache_file = match &self.cache_file {
                Some(p) => p,
                None => return Err(IdentityError::NoCacheFile),
            };
            let cache = match normalized_path(facts, cache_file.as_str()) {
                Some(p) => p,
                None => return Err(IdentityError::Unresolvable(cache_file.clone())),
            };
            let mut s = "{\"kind\":\"remote\",\"url_file\":".to_owned();
            let q = quote_json(url.as_str());
            s.append(q.as_str());
            s.append(",\"cache_file\":");
            let q2 = quote_json(cache.as_str());
            s.append(q2.as_str());
            s.append("}");
            Ok(identity_digest(s.as_str()))
        }
    }
}

/// The identities of all profiles, or the first problem in name order.
pub open spec fn identities_of(facts: FactMap, c: CatalogView) -> Result<
    Map<Seq<char>, Seq<char>>,
    IdentityErrorView,
> {
    let names = catalog_names(c);
    let bad = crate::seqs::first_index(
        names.len(),
        |i: int| source_problem(facts, catalog_profile(c, names[i])->0) is Some,
    ) as int;
    if bad < names.len() {
        Err(source_problem(facts, catalog_profile(c, names[bad])->0)->0)
    } else {
        Ok(
            Map::new(
                |n: Seq<char>| catalog_profile(c, n) is Some,
                |n: Seq<char>| identity_of(facts, catalog_profile(c, n)->0)->Ok_0,
            ),
        )
    }
}

/// The listed names are exactly those that resolve to a profile.
pub proof fn law_listed_names_resolve(c: CatalogView, name: Seq<char>)
    requires
        c.profiles.dom().finite(),
    ensures
        catalog_names(c).contains(name) == (catalog_profile(c, name) is Some),
{
    lemma_ordered_contains(c.profiles.dom(), name);
    if c.files.len() > 0 {
        assert(seq![LEGACY_SUBSCRIPTION_NAME@][0] == LEGACY_SUBSCRIPTION_NAME@);
    }
}

/// Sources with the same canonical paths have the same identity, however the
/// paths are spelled and whatever else the file system says about them.
pub proof fn law_identity_ignores_spelling(
    fa: FactMap,
    a: ProfileView,
    fb: FactMap,
    b: ProfileView,
)
    requires
        a.files.len() == b.files.len(),
        forall|i: int|
            0 <= i < a.files.len() ==> canonical(fa, #[trigger] a.files[i]) == canonical(
                fb,
                b.files[i],
            ),
        a.url_file is Some == b.url_file is Some,
        a.url_file is Some ==> canonical(fa, a.url_file->0) == canonical(fb, b.url_file->0),
        a.cache_file is Some == b.cache_file is Some,
        a.cache_file is Some ==> canonical(fa, a.cache_file->0) == canonical(fb, b.cache_file->0),
        identity_of(fa, a) is Ok,
    ensures
        identity_of(fb, b) == identity_of(fa, a),
{
    let pa = |i: int| canonical(fa, a.files[i]) is None;
    let pb = |i: int| canonical(fb, b.files[i]) is None;
    crate::seqs::lemma_first(a.files.len(), pa);
    assert forall|j: int| 0 <= j < b.files.len() implies !#[trigger] pb(j) by {
        assert(!pa(j));
    }
    crate::seqs::lemma_first_is(b.files.len(), pb, b.files.len());
    lemma_quoted_list_eq(fa, a.files, fb, b.files);
}

/// The canonical paths of a list of files.
pub open spec fn canonical_list(facts: FactMap, files: Seq<Seq<char>>) -> Seq<Seq<char>> {
    files.map_values(|f: Seq<char>| canonical(facts, f)->0)
}

/// The quoted list from its front.
proof fn lemma_quoted_front(facts: FactMap, files: Seq<Seq<char>>)
    requires
        files.len() > 1,
    ensures
        quoted_list(facts, files) == json_quoted(canonical(facts, files[0])->0) + (","@
            + quoted_list(facts, files.skip(1))),
    decreases files.len(),
{
    let d = files.drop_last();
    let q = json_quoted(canonical(facts, files.last())->0);
    let first = json_quoted(canonical(facts, files[0])->0);
    let rest = files.skip(1);
    assert(rest.last() == files.last());
    assert(d[0] == files[0]);
    if files.len() == 2 {
        assert(d.len() == 1);
        assert(quoted_list(facts, d) == first);
        assert(quoted_list(facts, rest) == q);
        assert(quoted_list(facts, files) =~= first + (","@ + q));
    } else {
        lemma_quoted_front(facts, d);
        assert(d.skip(1) =~= rest.drop_last());
        let mid = quoted_list(facts, rest.drop_last());
        assert(quoted_list(facts, rest) == mid + ","@ + q);
        assert(quoted_list(facts, files) =~= first + (","@ + (mid + ","@ + q)));
    }
}

proof fn lemma_quoted_list_unique(
    facts: FactMap,
    a: Seq<Seq<char>>,
    other: FactMap,
    b: Seq<Seq<char>>,
)
    requires
        a.len() > 0,
        b.len() > 0,
        quoted_list(facts, a) + "]}"@ == quoted_list(other, b) + "]}"@,
    ensures
        canonical_list(facts, a) == canonical_list(other, b),
    decreases a.len(),
{
    reveal_strlit(",");
    reveal_strlit("]}");
    let s = quoted_list(facts, a) + "]}"@;
    let t = quoted_list(other, b) + "]}"@;
    let x = canonical(facts, a[0])->0;
    let y = canonical(other, b[0])->0;
    let p = if a.len() == 1 {
        "]}"@
    } else {
        ","@ + quoted_list(facts, a.skip(1)) + "]}"@
    };
    let q = if b.len() == 1 {
        "]}"@
    } else {
        ","@ + quoted_list(other, b.skip(1)) + "]}"@
    };
    if a.len() > 1 {
        lemma_quoted_front(facts, a);
    }
    if b.len() > 1 {
        lemma_quoted_front(other, b);
    }
    assert(s =~= json_quoted(x) + p);
    assert(t =~= json_quoted(y) + q);
    lemma_json_quoted_unique(x, p, y, q);
    let ca = canonical_list(facts, a);
    let cb = canonical_list(other, b);
    if a.len() == 1 && b.len() > 1 {
        assert(p[0] == ']' && q[0] == ',');
    } else if a.len() > 1 && b.len() == 1 {
        assert(p[0] == ',' && q[0] == ']');
    } else if a.len() > 1 {
        let ra = quoted_list(facts, a.skip(1)) + "]}"@;
        let rb = quoted_list(other, b.skip(1)) + "]}"@;
        assert(p.skip(1) =~= ra);
        assert(q.skip(1) =~= rb);
        lemma_quoted_list_unique(facts, a.skip(1), other, b.skip(1));
        assert(canonical_list(facts, a.skip(1)) =~= ca.skip(1));
        assert(canonical_list(other, b.skip(1)) =~= cb.skip(1));
        assert(ca =~= seq![x] + ca.skip(1));
        assert(cb =~= seq![y] + cb.skip(1));
    } else {
        assert(ca =~= cb);
    }
}

/// Two sources are of one kind and have the same canonical paths.
pub open spec fn same_source(fa: FactMap, a: ProfileView, fb: FactMap, b: ProfileView) -> bool {
    if a.files.len() > 0 || b.files.len() > 0 {
        canonical_list(fa, a.files) == canonical_list(fb, b.files)
    } else {
        canonical(fa, a.url_file->0) == canonical(fb, b.url_file->0) && canonical(
            fa,
            a.cache_file->0,
        ) == canonical(fb, b.cache_file->0)
    }
}

proof fn lemma_source_text_unique(fa: FactMap, a: ProfileView, fb: FactMap, b: ProfileView)
    requires
        source_problem(fa, a) is None,
        source_problem(fb, b) is None,
        source_text(fa, a) == source_text(fb, b),
    ensures
        same_source(fa, a, fb, b),
{
    reveal_strlit("{\"kind\":\"local\",\"files\":[");
    reveal_strlit("{\"kind\":\"remote\",\"url_file\":");
    reveal_strlit(",\"cache_file\":");
    reveal_strlit("}");
    let local = "{\"kind\":\"local\",\"files\":["@;
    let remote = "{\"kind\":\"remote\",\"url_file\":"@;
    let s = source_text(fa, a);
    let t = source_text(fb, b);
    assert(a.files.len() > 0 ==> s[9] == local[9]);
    assert(b.files.len() > 0 ==> t[9] == local[9]);
    assert(a.files.len() == 0 ==> s[9] == remote[9]);
    assert(b.files.len() == 0 ==> t[9] == remote[9]);
    assert(local[9] != remote[9]);
    if a.files.len() > 0 {
        let n = local.len() as int;
        assert(s.skip(n) =~= quoted_list(fa, a.files) + "]}"@);
        assert(t.skip(n) =~= quoted_list(fb, b.files) + "]}"@);
        lemma_quoted_list_unique(fa, a.files, fb, b.files);
    } else {
        let n = remote.len() as int;
        let middle = ",\"cache_file\":"@;
        let ua = canonical(fa, a.url_file->0)->0;
        let ub = canonical(fb, b.url_file->0)->0;
        let ca = canonical(fa, a.cache_file->0)->0;
        let cb = canonical(fb, b.cache_file->0)->0;
        let pa = middle + (json_quoted(ca) + "}"@);
        let pb = middle + (json_quoted(cb) + "}"@);
        assert(s.skip(n) =~= json_quoted(ua) + pa);
        assert(t.skip(n) =~= json_quoted(ub) + pb);
        lemma_json_quoted_unique(ua, pa, ub, pb);
        let m = middle.len() as int;
        assert(pa.skip(m) =~= json_quoted(ca) + "}"@);
        assert(pb.skip(m) =~= json_quoted(cb) + "}"@);
        lemma_json_quoted_unique(ca, "}"@, cb, "}"@);
    }
}

/// Another file list, URL file or cache file gives another identity: two
/// sources share one only where they have the same canonical paths, or where
/// SHA-256 gives the same digest for two different descriptions.
pub proof fn law_identity_tracks_paths(fa: FactMap, a: ProfileView, fb: FactMap, b: ProfileView)
    requires
        identity_of(fa, a) is Ok,
        identity_of(fa, a) == identity_of(fb, b),
    ensures
        same_source(fa, a, fb, b) || {
            let x = encode_utf8(source_text(fa, a));
            let y = encode_utf8(source_text(fb, b));
            x != y && sha256_digest(x) == sha256_digest(y)
        },
{
    let x = encode_utf8(source_text(fa, a));
    let y = encode_utf8(source_text(fb, b));
    let prefix = "sha256:"@;
    let n = prefix.len() as int;
    let s = prefix + hex_bytes(sha256_digest(x));
    let t = prefix + hex_bytes(sha256_digest(y));
    assert(s == t);
    assert(s.skip(n) =~= hex_bytes(sha256_digest(x)));
    assert(t.skip(n) =~= hex_bytes(sha256_digest(y)));
    lemma_hex_bytes_unique(sha256_digest(x), sha256_digest(y));
    if x == y {
        vstd::utf8::encode_utf8_decode_utf8(source_text(fa, a));
        vstd::utf8::encode_utf8_decode_utf8(source_text(fb, b));
        lemma_source_text_unique(fa, a, fb, b);
    }
}

/// A remote source with two paths that can be resolved has an identity. It
/// stays the same as long as the paths resolve to the same places, whatever
/// the file system holds there; and with another URL file or another cache
/// file it is another, but for a collision of SHA-256.
pub proof fn law_remote_identity(
    before: FactMap,
    after: FactMap,
    p: ProfileView,
    q: ProfileView,
)
    requires
        p.files.len() == 0 && q.files.len() == 0,
        p.url_file is Some && p.cache_file is Some,
        q.url_file is Some && q.cache_file is Some,
        canonical(before, p.url_file->0) is Some,
        canonical(before, p.cache_file->0) is Some,
        canonical(after, p.url_file->0) == canonical(before, p.url_file->0),
        canonical(after, p.cache_file->0) == canonical(before, p.cache_file->0),
        canonical(after, q.url_file->0) is Some,
        canonical(after, q.cache_file->0) is Some,
        canonical(after, q.url_file->0) != canonical(after, p.url_file->0) || canonical(
            after,
            q.cache_file->0,
        ) != canonical(after, p.cache_file->0),
    ensures
        identity_of(before, p) is Ok,
        identity_of(after, p) == identity_of(before, p),
        identity_of(after, q) is Ok,
        identity_of(after, q) != identity_of(after, p) || {
            let x = encode_utf8(source_text(after, p));
            let y = encode_utf8(source_text(after, q));
            x != y && sha256_digest(x) == sha256_digest(y)
        },
{
    law_identity_ignores_spelling(before, p, after, p);
    if identity_of(after, q) == identity_of(after, p) {
        law_identity_tracks_paths(after, p, after, q);
    }
}

proof fn lemma_quoted_list_eq(
    fa: FactMap,
    a: Seq<Seq<char>>,
    fb: FactMap,
    b: Seq<Seq<char>>,
)
    requires
        a.len() == b.len(),
        forall|i: int| 0 <= i < a.len() ==> canonical(fa, #[trigger] a[i]) == canonical(fb, b[i]),
    ensures
        quoted_list(fa, a) == quoted_list(fb, b),
    decreases a.len(),
{
    if a.len() > 0 {
        assert forall|i: int| 0 <= i < a.drop_last().len() implies canonical(
            fa,
            #[trigger] a.drop_last()[i],
        ) == canonical(fb, b.drop_last()[i]) by {
            assert(a.drop_last()[i] == a[i]);
        }
        lemma_quoted_list_eq(fa, a.drop_last(), fb, b.drop_last());
        assert(a.last() == a[a.len() - 1]);
    }
}

impl SubscriptionsConfig {
    /// Deterministic, credential-free identities for every configured source.
    pub fn source_identities(&self, facts: &NameMap<PathFact>) -> (r: Result<
        NameMap<String>,
        IdentityError,
    >)
        ensures
            match r {
                Ok(m) => identities_of(facts@, self@) == Ok::<
                    Map<Seq<char>, Seq<char>>,
                    IdentityErrorView,
                >(m@),
                Err(e) => identities_of(facts@, self@) == Err::<
                    Map<Seq<char>, Seq<char>>,
                    IdentityErrorView,
                >(e@),
            },
    {
        let n0: usize = self.profiles.len();
        let names = self.profile_names();
        let ghost ns = catalog_names(self@);
        let ghost bad = |i: int| source_problem(facts@, catalog_profile(self@, ns[i])->0) is Some;
        let mut out: NameMap<String> = NameMap::new();
        let mut i: usize = 0;
        while i < names.len()
            invariant
                i <= names@.len(),
                ns == catalog_names(self@),
                texts(names@) == ns,
                self@.profiles.dom().finite(),
                bad == (|i: int| source_problem(facts@, catalog_profile(self@, ns[i])->0) is Some),
                forall|j: int| 0 <= j < i ==> !#[trigger] bad(j),
                forall|k: Seq<char>| #[trigger] out@.contains_key(k) ==> ns.contains(k)
                    && identity_of(facts@, catalog_profile(self@, k)->0) == Ok::<
                    Seq<char>,
                    IdentityErrorView,
                >(out@[k]),
                forall|j: int| 0 <= j < i ==> out@.contains_key(#[trigger] ns[j]),
            decreases names@.len() - i,
        {
            assert(ns[i as int] == names@[i as int]@);
            proof {
                law_listed_names_resolve(self@, ns[i as int]);
                assert(ns.contains(ns[i as int]));
            }
            let p = self.profile(names[i].as_str()).unwrap();
            match p.source_identity(facts) {
                Ok(id) => {
                    out.insert(names[i].clone(), id);
                },
                Err(e) => {
                    proof {
                        crate::seqs::lemma_first_is(ns.len(), bad, i as nat);
                    }
                    return Err(e);
                },
            }
            i = i + 1;
        }
        proof {
            crate::seqs::lemma_first_is(ns.len(), bad, ns.len());
            let want = identities_of(facts@, self@)->Ok_0;
            assert forall|k: Seq<char>| out@.contains_key(k) == #[trigger] want.contains_key(k) by {
                law_listed_names_resolve(self@, k);
                if ns.contains(k) {
                    assert(out@.contains_key(ns[ns.index_of(k)]));
                }
            }
            assert(out@ =~= want);
        }
        Ok(out)
    }
}

// ---------------------------------------------------------------------------
// Runtime directory
// ---------------------------------------------------------------------------

/// The private runtime directory: `run` beside the state file.
pub open spec fn run_dir_of(state_file: Seq<char>) -> Seq<char> {
    match parent_of(state_file) {
        Some(dir) => joined(dir, "run"@),
        None => "/tmp/causeway-run"@,
    }
}

pub fn run_dir(state_file: &str) -> (r: String)
    ensures
        r@ == run_dir_of(state_file@),
{
    match parent(state_file) {
        Some(dir) => join(dir.as_str(), "run"),
        None => "/tmp/causeway-run".to_owned(),
    }
}

// ---------------------------------------------------------------------------
// What the settings mean
// ---------------------------------------------------------------------------

/// A class goes by its settings where it has them, each for itself, and by the
/// common ones otherwise; without a number of samples there is one.
pub proof fn law_class_settings_override_the_common_ones(c: Config, class: Seq<char>)
    ensures
        !c.classes@.contains_key(class) ==> class_regions(c, class) == texts(c.selection.regions@)
            && class_auto_switch(c, class) == c.selection.auto_switch && class_target(c, class)
            == c.health.url@ && class_samples(c, class) == 1 && own_target(c, class) is None,
        c.classes@.contains_key(class) ==> {
            let k = c.classes@[class];
            &&& k.selection is None ==> class_regions(c, class) == texts(c.selection.regions@)
                && class_auto_switch(c, class) == c.selection.auto_switch
            &&& k.selection matches Some(s) ==> {
                &&& s.regions is Some ==> class_regions(c, class) == s.regions->0
                &&& s.regions is None ==> class_regions(c, class) == texts(c.selection.regions@)
                &&& s.auto_switch is Some ==> class_auto_switch(c, class) == s.auto_switch->0
                &&& s.auto_switch is None ==> class_auto_switch(c, class)
                    == c.selection.auto_switch
            }
            &&& k.health is None ==> class_target(c, class) == c.health.url@ && class_samples(
                c,
                class,
            ) == 1 && own_target(c, class) is None
            &&& k.health matches Some(h) ==> {
                &&& own_target(c, class) == h.url
                &&& h.url is Some ==> class_target(c, class) == h.url->0
                &&& h.url is None ==> class_target(c, class) == c.health.url@
                &&& h.samples is Some ==> class_samples(c, class) == h.samples->0
                &&& h.samples is None ==> class_samples(c, class) == 1
            }
        },
{
}

/// A path below the home directory is written with a tilde and a slash; the
/// tilde alone is the home directory, and any other path stays as it is.
pub proof fn law_tilde_is_home(rest: Seq<char>, home: Seq<char>, p: Seq<char>)
    requires
        home.len() > 0 && home.last() != '/',
        rest.len() == 0 || rest[0] != '/',
    ensures
        expanded("~"@, home) == home,
        expanded("~/"@ + rest, home) == home.push('/') + rest,
        p.len() > 0 && p[0] != '~' ==> expanded(p, home) == p,
        p.len() == 0 ==> expanded(p, home) == p,
        p.len() >= 2 && p[1] != '/' ==> expanded(p, home) == p,
{
    reveal_strlit("~");
    reveal_strlit("~/");
    crate::text::lemma_after_prefix("~/"@, rest);
    assert(("~/"@ + rest).len() >= 2);
    assert("~"@.len() == 1 && "~"@[0] == '~');
    assert("~/"@.len() == 2 && "~/"@[0] == '~' && "~/"@[1] == '/');
    if begins(p, "~/"@) {
        assert(p.subrange(0, 2) == "~/"@);
        assert(p[0] == p.subrange(0, 2)[0] && p[1] == p.subrange(0, 2)[1]);
    }
}

/// A catalog of plain files is one profile of the name `default` with those
/// files; any other has the profiles that it names, as they are.
pub proof fn law_catalog_profiles(c: CatalogView, name: Seq<char>)
    ensures
        c.files.len() > 0 ==> (catalog_profile(c, name) is Some <==> name == "default"@),
        c.files.len() > 0 && name == "default"@ ==> catalog_profile(c, name) == Some(
            ProfileView { files: c.files, url_file: None, cache_file: None },
        ),
        c.files.len() == 0 ==> (catalog_profile(c, name) is Some <==> c.profiles.contains_key(name)),
        c.files.len() == 0 && c.profiles.contains_key(name) ==> catalog_profile(c, name) == Some(
            c.profiles[name],
        ),
{
}

/// The default of a catalog: of plain files the one profile there is; else the
/// one that is named, or the only one.
pub proof fn law_catalog_default(c: CatalogView, only: Seq<char>)
    requires
        c.profiles.dom().finite(),
    ensures
        c.files.len() > 0 ==> catalog_default(c) == Ok::<Seq<char>, CatalogError>("default"@),
        c.files.len() == 0 && c.default is Some ==> catalog_default(c) == Ok::<
            Seq<char>,
            CatalogError,
        >(c.default->0),
        c.files.len() == 0 && c.default is None && c.profiles.dom() == set![only]
            ==> catalog_default(c) == Ok::<Seq<char>, CatalogError>(only),
        catalog_default(c) is Err ==> c.files.len() == 0 && c.default is None,
{
    if c.profiles.dom() == set![only] {
        let ks = seq![only];
        assert(ks.to_set() =~= set![only]) by {
            assert(ks[0] == only);
            assert(ks.contains(only));
        }
        crate::names::lemma_ordered_is(ks, c.profiles.dom());
    }
}

/// The identities of a catalog are those of its profiles, each under the name
/// of its profile; there are none where a profile cannot be identified.
pub proof fn law_identities_are_of_the_profiles(facts: FactMap, c: CatalogView, name: Seq<char>)
    requires
        c.profiles.dom().finite(),
    ensures
        identities_of(facts, c) matches Ok(m) ==> {
            &&& m.contains_key(name) <==> catalog_profile(c, name) is Some
            &&& m.contains_key(name) ==> identity_of(facts, catalog_profile(c, name)->0) == Ok::<
                Seq<char>,
                IdentityErrorView,
            >(m[name])
        },
        catalog_profile(c, name) is Some && identity_of(facts, catalog_profile(c, name)->0) is Err
            ==> identities_of(facts, c) is Err,
{
    law_listed_names_resolve(c, name);
    let names = catalog_names(c);
    let p = |i: int| source_problem(facts, catalog_profile(c, names[i])->0) is Some;
    crate::seqs::lemma_first(names.len(), p);
    if catalog_profile(c, name) is Some {
        let i = names.index_of(name);
        assert(names[i] == name);
        let bad = crate::seqs::first_index(names.len(), p) as int;
        if bad >= names.len() {
            assert(!p(i));
        }
    }
}

/// A profile can be identified exactly where every path that its source is
/// made of can be resolved: all its files, or its URL file and its cache.
pub proof fn law_identity_needs_resolved_paths(facts: FactMap, p: ProfileView)
    ensures
        identity_of(facts, p) is Ok <==> if p.files.len() > 0 {
            forall|i: int| 0 <= i < p.files.len() ==> canonical(facts, #[trigger] p.files[i]) is Some
        } else {
            p.url_file is Some && p.cache_file is Some && canonical(facts, p.url_file->0) is Some
                && canonical(facts, p.cache_file->0) is Some
        },
{
    if p.files.len() > 0 {
        let q = |i: int| canonical(facts, p.files[i]) is None;
        crate::seqs::lemma_first(p.files.len(), q);
        let bad = crate::seqs::first_index(p.files.len(), q) as int;
        if bad < p.files.len() {
            assert(q(bad));
        } else {
            assert forall|i: int| 0 <= i < p.files.len() implies canonical(
                facts,
                #[trigger] p.files[i],
            ) is Some by {
                assert(!q(i));
            }
        }
    }
}

/// A path counts as there only where it was looked at and found; one that was
/// not looked at is neither there nor resolved nor a readable file.
pub proof fn law_facts_are_what_was_found(facts: FactMap, p: Seq<char>)
    ensures
        present(facts, p) ==> facts.contains_key(p),
        facts.contains_key(p) ==> present(facts, p) == facts[p].exists && canonical(facts, p)
            == facts[p].normalized && file_fact(facts, p) == facts[p].file,
        !facts.contains_key(p) ==> !present(facts, p) && canonical(facts, p) is None && file_fact(
            facts,
            p,
        ) == FileFact::Unreadable,
{
}

/// A catalog has its identities wherever each of its profiles has one.
pub proof fn law_identified_profiles_give_identities(facts: FactMap, c: CatalogView)
    requires
        c.profiles.dom().finite(),
        forall|name: Seq<char>|
            (#[trigger] catalog_profile(c, name)) is Some ==> identity_of(
                facts,
                catalog_profile(c, name)->0,
            ) is Ok,
    ensures
        identities_of(facts, c) is Ok,
{
    let names = catalog_names(c);
    let p = |i: int| source_problem(facts, catalog_profile(c, names[i])->0) is Some;
    crate::seqs::lemma_first(names.len(), p);
    let bad = crate::seqs::first_index(names.len(), p) as int;
    if bad < names.len() {
        assert(p(bad));
        law_listed_names_resolve(c, names[bad]);
        assert(names.contains(names[bad]));
        assert(identity_of(facts, catalog_profile(c, names[bad])->0) is Ok);
    }
}

} // verus!
