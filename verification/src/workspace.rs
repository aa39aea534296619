//! The private directory that holds this daemon's adapter credentials, and
//! what may be removed from it and from those that dead daemons left.

use vstd::prelude::*;

use crate::digest::say;
use crate::identity::{
    credential, identity_from_instance_name, instance_name, instance_owner, marked, opt_identity,
    strict_credential_name, strict_instance_name, IdentityView, ProcessIdentity,
};
use crate::paths::{join, joined};
use crate::text::{opt_str, opt_text, same, texts};

verus! {

pub const ADAPTERS_DIR_NAME: &'static str = "adapters";

pub const IDENTITY_FILE_NAME: &'static str = "identity-v1";

/// Attempts at a directory name that nobody has.
pub const WORKSPACE_ATTEMPTS: u32 = 32;

/// Attempts at a configuration file name that nobody has.
pub const CONFIG_ATTEMPTS: u32 = 256;

/// A marker longer than this is not read.
pub const MAX_MARKER_BYTES: u64 = 512;

/// The credential namespace of one daemon.
#[derive(Debug, PartialEq, Eq)]
pub struct AdapterWorkspace {
    instance_dir: String,
    identity_path: String,
}

pub struct WorkspaceView {
    pub instance_dir: Seq<char>,
    pub identity_path: Seq<char>,
}

impl View for AdapterWorkspace {
    type V = WorkspaceView;

    closed spec fn view(&self) -> WorkspaceView {
        WorkspaceView { instance_dir: self.instance_dir@, identity_path: self.identity_path@ }
    }
}

/// Where a daemon with a run directory keeps its adapters.
pub fn adapters_dir(run_dir: &str) -> (r: String)
    ensures
        r@ == joined(run_dir@, ADAPTERS_DIR_NAME@),
{
    join(run_dir, ADAPTERS_DIR_NAME)
}

/// The workspace of a process for one nonce.
pub open spec fn workspace_at(run_dir: Seq<char>, i: IdentityView, nonce: Seq<char>) -> WorkspaceView {
    let dir = joined(joined(run_dir, ADAPTERS_DIR_NAME@), instance_name(i, nonce));
    WorkspaceView { instance_dir: dir, identity_path: joined(dir, IDENTITY_FILE_NAME@) }
}

// ---------------------------------------------------------------------------
// Allocation
// ---------------------------------------------------------------------------

/// How creating something exclusively went.
#[derive(Debug, PartialEq, Eq)]
pub enum Creation<T = String> {
    Created,
    AlreadyThere,
    Failed(T),
}

pub open spec fn creation_view(c: Creation) -> Creation<Seq<char>> {
    match c {
        Creation::Created => Creation::Created,
        Creation::AlreadyThere => Creation::AlreadyThere,
        Creation::Failed(e) => Creation::Failed(e@),
    }
}

/// What follows an attempt to create something under a fresh name.
#[derive(Debug, PartialEq, Eq)]
pub enum Allocation<T = String> {
    Owned,
    /// The name was taken; try another.
    Again,
    /// Every attempt met a name that was taken.
    Exhausted,
    Failed(T),
}

pub open spec fn allocation_view(a: Allocation) -> Allocation<Seq<char>> {
    match a {
        Allocation::Owned => Allocation::Owned,
        Allocation::Again => Allocation::Again,
        Allocation::Exhausted => Allocation::Exhausted,
        Allocation::Failed(e) => Allocation::Failed(e@),
    }
}

/// After attempt number `attempt`, counted from one, of at most `limit`.
pub open spec fn allocated(attempt: u32, limit: u32, c: Creation<Seq<char>>) -> Allocation<
    Seq<char>,
> {
    match c {
        Creation::Created => Allocation::Owned,
        Creation::AlreadyThere => if attempt < limit {
            Allocation::Again
        } else {
            Allocation::Exhausted
        },
        Creation::Failed(e) => Allocation::Failed(e),
    }
}

pub fn allocation_step(attempt: u32, limit: u32, creation: Creation) -> (r: Allocation)
    ensures
        allocation_view(r) == allocated(attempt, limit, creation_view(creation)),
{
    match creation {
        Creation::Created => Allocation::Owned,
        Creation::AlreadyThere => if attempt < limit {
            Allocation::Again
        } else {
            Allocation::Exhausted
        },
        Creation::Failed(e) => Allocation::Failed(e),
    }
}

// ---------------------------------------------------------------------------
// What a directory holds
// ---------------------------------------------------------------------------

/// What an entry is; a symlink is not followed.
#[derive(Debug, PartialEq, Eq)]
pub enum EntryKind<T = String> {
    Regular,
    Other,
    Unreadable(T),
}

/// One entry of a directory. A name that is no text is `None`.
#[derive(Debug, PartialEq, Eq)]
pub struct Entry<T = String> {
    pub name: Option<T>,
    pub kind: EntryKind<T>,
}

impl View for Entry {
    type V = Entry<Seq<char>>;

    open spec fn view(&self) -> Entry<Seq<char>> {
        Entry {
            name: opt_text(self.name),
            kind: match self.kind {
                EntryKind::Regular => EntryKind::Regular,
                EntryKind::Other => EntryKind::Other,
                EntryKind::Unreadable(e) => EntryKind::Unreadable(e@),
            },
        }
    }
}

pub open spec fn listing(v: Seq<Entry>) -> Seq<Entry<Seq<char>>> {
    v.map_values(|e: Entry| e@)
}

/// A file that a workspace is made of.
pub open spec fn recognised(name: Seq<char>) -> bool {
    name == IDENTITY_FILE_NAME@ || credential(name)
}

fn is_recognised(name: &str) -> (b: bool)
    ensures
        b == recognised(name@),
{
    same(name, IDENTITY_FILE_NAME) || strict_credential_name(name)
}

pub open spec fn has_marker(entries: Seq<Entry<Seq<char>>>) -> bool {
    exists|i: int| 0 <= i < entries.len() && (#[trigger] entries[i]).name == Some(IDENTITY_FILE_NAME@)
}

fn holds_marker(entries: &Vec<Entry>) -> (b: bool)
    ensures
        b == has_marker(listing(entries@)),
{
    let mut i: usize = 0;
    while i < entries.len()
        invariant
            i <= entries@.len(),
            forall|j: int|
                0 <= j < i ==> (#[trigger] listing(entries@)[j]).name != Some(IDENTITY_FILE_NAME@),
        decreases entries@.len() - i,
    {
        assert(listing(entries@)[i as int] == entries@[i as int]@);
        if let Some(n) = &entries[i].name {
            if same(n.as_str(), IDENTITY_FILE_NAME) {
                return true;
            }
        }
        i = i + 1;
    }
    false
}

// ---------------------------------------------------------------------------
// Removing the own workspace
// ---------------------------------------------------------------------------

/// Why an entry keeps the own workspace from being removed.
pub open spec fn entry_fault(e: Entry<Seq<char>>) -> Option<Seq<char>> {
    match e.name {
        None => Some("adapter instance has a non-UTF-8 entry; preserving it"@),
        Some(name) => if !recognised(name) {
            Some("adapter instance has unexpected contents; preserving it"@)
        } else {
            match e.kind {
                EntryKind::Regular => None,
                EntryKind::Other => Some("adapter instance has a non-regular entry; preserving it"@),
                EntryKind::Unreadable(detail) => Some(detail),
            }
        },
    }
}

/// The fault of the first entry that has one.
pub open spec fn first_fault(entries: Seq<Entry<Seq<char>>>) -> Option<Seq<char>>
    decreases entries.len(),
{
    if entries.len() == 0 {
        None
    } else {
        match first_fault(entries.drop_last()) {
            Some(f) => Some(f),
            None => entry_fault(entries.last()),
        }
    }
}

/// What stands where the own workspace should be.
pub enum WorkspaceFound {
    Missing,
    Unreadable(String),
    /// Not a directory, or a symlink.
    NotDirectory,
    Unlistable(String),
    Directory(Vec<Entry>),
}

pub enum FoundView {
    Missing,
    Unreadable(Seq<char>),
    NotDirectory,
    Unlistable(Seq<char>),
    Directory(Seq<Entry<Seq<char>>>),
}

impl View for WorkspaceFound {
    type V = FoundView;

    open spec fn view(&self) -> FoundView {
        match self {
            WorkspaceFound::Missing => FoundView::Missing,
            WorkspaceFound::Unreadable(e) => FoundView::Unreadable(e@),
            WorkspaceFound::NotDirectory => FoundView::NotDirectory,
            WorkspaceFound::Unlistable(e) => FoundView::Unlistable(e@),
            WorkspaceFound::Directory(v) => FoundView::Directory(listing(v@)),
        }
    }
}

/// What to do with the own workspace.
#[derive(Debug, PartialEq, Eq)]
pub enum CleanupPlan {
    /// It is gone.
    Done,
    /// Keep all of it.
    Refuse(String),
    /// Remove these files, then the directory.
    Remove(Vec<String>),
}

pub enum CleanupView {
    Done,
    Refuse(Seq<char>),
    Remove(Seq<Seq<char>>),
}

impl View for CleanupPlan {
    type V = CleanupView;

    open spec fn view(&self) -> CleanupView {
        match self {
            CleanupPlan::Done => CleanupView::Done,
            CleanupPlan::Refuse(m) => CleanupView::Refuse(m@),
            CleanupPlan::Remove(v) => CleanupView::Remove(texts(v@)),
        }
    }
}

/// The paths of the named entries of a directory.
pub open spec fn entry_paths(dir: Seq<char>, entries: Seq<Entry<Seq<char>>>) -> Seq<Seq<char>> {
    entries.map_values(
        |e: Entry<Seq<char>>|
            joined(
                dir,
                match e.name {
                    Some(n) => n,
                    None => Seq::empty(),
                },
            ),
    )
}

pub open spec fn cleanup_of(w: WorkspaceView, cleaned: bool, found: FoundView) -> CleanupView {
    if cleaned {
        CleanupView::Done
    } else {
        match found {
            FoundView::Missing => CleanupView::Done,
            FoundView::Unreadable(e) => CleanupView::Refuse(
                "inspect owned adapter workspace: "@ + e,
            ),
            FoundView::NotDirectory => CleanupView::Refuse(
                "owned adapter workspace is no longer a real directory"@,
            ),
            FoundView::Unlistable(e) => CleanupView::Refuse(
                "inspect adapter instance "@ + w.instance_dir + ": "@ + e,
            ),
            FoundView::Directory(entries) => match first_fault(entries) {
                Some(f) => CleanupView::Refuse(f),
                None => if has_marker(entries) {
                    CleanupView::Remove(entry_paths(w.instance_dir, entries))
                } else {
                    CleanupView::Refuse(
                        "adapter identity marker disappeared; preserving workspace"@,
                    )
                },
            },
        }
    }
}

fn check_entry(e: &Entry) -> (r: Option<String>)
    ensures
        opt_text(r) == entry_fault(e@),
{
    match &e.name {
        None => Some("adapter instance has a non-UTF-8 entry; preserving it".to_string()),
        Some(name) => if !is_recognised(name.as_str()) {
            Some("adapter instance has unexpected contents; preserving it".to_string())
        } else {
            match &e.kind {
                EntryKind::Regular => None,
                EntryKind::Other => Some(
                    "adapter instance has a non-regular entry; preserving it".to_string(),
                ),
                EntryKind::Unreadable(detail) => Some(detail.clone()),
            }
        },
    }
}

impl AdapterWorkspace {
    /// The workspace that a process keeps under `run_dir`, for one nonce.
    pub fn create(run_dir: &str, identity: &ProcessIdentity, nonce_hex: &str) -> (r: Self)
        ensures
            r@ == workspace_at(run_dir@, identity@, nonce_hex@),
    {
        let base = adapters_dir(run_dir);
        let name = strict_instance_name(identity, nonce_hex);
        let instance_dir = join(base.as_str(), name.as_str());
        let identity_path = join(instance_dir.as_str(), IDENTITY_FILE_NAME);
        AdapterWorkspace { instance_dir, identity_path }
    }

    pub fn path(&self) -> (r: &str)
        ensures
            r@ == self@.instance_dir,
    {
        self.instance_dir.as_str()
    }

    pub fn identity_path(&self) -> (r: &str)
        ensures
            r@ == self@.identity_path,
    {
        self.identity_path.as_str()
    }

    /// What may be removed once every adapter has stopped: the marker and
    /// the credential files, and only if nothing else is there.
    pub fn cleanup(&self, cleaned: bool, found: WorkspaceFound) -> (r: CleanupPlan)
        ensures
            r@ == cleanup_of(self@, cleaned, found@),
    {
        if cleaned {
            return CleanupPlan::Done;
        }
        match found {
            WorkspaceFound::Missing => CleanupPlan::Done,
            WorkspaceFound::Unreadable(e) => {
                let mut s = "inspect owned adapter workspace: ".to_string();
                say(&mut s, e.as_str());
                CleanupPlan::Refuse(s)
            },
            WorkspaceFound::NotDirectory => CleanupPlan::Refuse(
                "owned adapter workspace is no longer a real directory".to_string(),
            ),
            WorkspaceFound::Unlistable(e) => {
                let mut s = "inspect adapter instance ".to_string();
                say(&mut s, self.instance_dir.as_str());
                say(&mut s, ": ");
                say(&mut s, e.as_str());
                CleanupPlan::Refuse(s)
            },
            WorkspaceFound::Directory(entries) => self.plan_removal(&entries),
        }
    }

    fn plan_removal(&self, entries: &Vec<Entry>) -> (r: CleanupPlan)
        ensures
            r@ == cleanup_of(self@, false, FoundView::Directory(listing(entries@))),
    {
        let ghost all = listing(entries@);
        let mut files: Vec<String> = Vec::new();
        let mut i: usize = 0;
        assert(all.take(0) =~= Seq::empty());
        while i < entries.len()
            invariant
                i <= entries@.len(),
                all == listing(entries@),
                first_fault(all.take(i as int)) is None,
                texts(files@) == entry_paths(self@.instance_dir, all.take(i as int)),
            decreases entries@.len() - i,
        {
            let ghost t = all.take(i + 1);
            assert(t.drop_last() =~= all.take(i as int));
            assert(t.last() == entries@[i as int]@);
            if let Some(f) = check_entry(&entries[i]) {
                proof {
                    lemma_fault_stays(all, i + 1);
                }
                return CleanupPlan::Refuse(f);
            }
            if let Some(n) = &entries[i].name {
                let path = join(self.instance_dir.as_str(), n.as_str());
                let ghost before = texts(files@);
                files.push(path);
                assert(texts(files@) =~= before.push(path@));
                assert(texts(files@) =~= entry_paths(self@.instance_dir, t));
            }
            i = i + 1;
        }
        assert(all.take(all.len() as int) =~= all);
        if holds_marker(entries) {
            CleanupPlan::Remove(files)
        } else {
            CleanupPlan::Refuse(
                "adapter identity marker disappeared; preserving workspace".to_string(),
            )
        }
    }
}

proof fn lemma_fault_stays(entries: Seq<Entry<Seq<char>>>, n: int)
    requires
        0 <= n <= entries.len(),
        first_fault(entries.take(n)) is Some,
    ensures
        first_fault(entries) == first_fault(entries.take(n)),
    decreases entries.len() - n,
{
    if n < entries.len() {
        assert(entries.take(n + 1).drop_last() =~= entries.take(n));
        lemma_fault_stays(entries, n + 1);
    } else {
        assert(entries.take(n) =~= entries);
    }
}

proof fn lemma_no_fault(entries: Seq<Entry<Seq<char>>>, i: int)
    requires
        first_fault(entries) is None,
        0 <= i < entries.len(),
    ensures
        entry_fault(entries[i]) is None,
    decreases entries.len(),
{
    if i < entries.len() - 1 {
        lemma_no_fault(entries.drop_last(), i);
        assert(entries.drop_last()[i] == entries[i]);
    }
}

/// A workspace is removed only if all it holds are the daemon's own regular
/// files: its marker and its credentials. Anything else preserves all of it.
pub proof fn law_cleanup_preserves_strangers(
    w: WorkspaceView,
    cleaned: bool,
    entries: Seq<Entry<Seq<char>>>,
    i: int,
)
    requires
        0 <= i < entries.len(),
        cleanup_of(w, cleaned, FoundView::Directory(entries)) is Remove,
    ensures
        entries[i].kind is Regular,
        entries[i].name is Some,
        recognised(entries[i].name->0),
        has_marker(entries),
{
    lemma_no_fault(entries, i);
}

// ---------------------------------------------------------------------------
// Removing what dead daemons left
// ---------------------------------------------------------------------------

/// The process that left an instance directory: the name and a marker of
/// moderate size must agree on it.
pub open spec fn stale_candidate(name: Seq<char>, marker_len: u64, marker: Option<Seq<char>>) -> Option<
    IdentityView,
> {
    match (instance_owner(name), marker) {
        (Some(i), Some(text)) => if marker_len <= MAX_MARKER_BYTES && marked(text) == Some(i) {
            Some(i)
        } else {
            None
        },
        _ => None,
    }
}

/// Whose directory this is, if it is one that an earlier daemon made. The
/// marker is `None` unless it is a regular file that could be read.
pub fn stale_instance(name: &str, marker_len: u64, marker: Option<&str>) -> (r: Option<
    ProcessIdentity,
>)
    ensures
        opt_identity(r) == stale_candidate(name@, marker_len, opt_str(marker)),
{
    let owner = match identity_from_instance_name(name) {
        Some(i) => i,
        None => return None,
    };
    match marker {
        None => None,
        Some(text) => {
            if marker_len > MAX_MARKER_BYTES {
                return None;
            }
            match ProcessIdentity::parse(text) {
                Some(i) => if i.matches(&owner) {
                    Some(i)
                } else {
                    None
                },
                None => None,
            }
        },
    }
}

/// What is known of the process that now has a number.
#[derive(Debug, Clone, Copy, PartialEq, Eq, Structural)]
pub enum Observed {
    /// No process has the number.
    Gone,
    /// One has, and it started then.
    Started(u64),
    /// It could not be told.
    Unknown,
}

pub open spec fn dead(i: IdentityView, current_boot: Seq<char>, observed: Observed) -> bool {
    i.boot_id != current_boot || match observed {
        Observed::Gone => true,
        Observed::Started(t) => t != i.start_time,
        Observed::Unknown => false,
    }
}

/// Is the process certainly no longer running?
pub fn definitely_dead(identity: &ProcessIdentity, current_boot: &str, observed: Observed) -> (b:
    bool)
    ensures
        b == dead(identity@, current_boot@, observed),
{
    if !same(identity.boot_id.as_str(), current_boot) {
        return true;
    }
    match observed {
        Observed::Gone => true,
        Observed::Started(t) => t != identity.start_time,
        Observed::Unknown => false,
    }
}

/// A running daemon's directory is never taken for a dead one's, nor is one
/// whose process cannot be looked at.
pub proof fn law_live_instances_are_kept(i: IdentityView, current_boot: Seq<char>, observed: Observed)
    requires
        i.boot_id == current_boot,
        observed == Observed::Started(i.start_time) || observed == Observed::Unknown,
    ensures
        !dead(i, current_boot, observed),
{
}

/// What to do with the contents of a dead daemon's directory.
#[derive(Debug, PartialEq, Eq)]
pub enum StalePlan {
    Preserve,
    Failed(String),
    /// Remove these credential files, then the marker, then the directory.
    Remove(Vec<String>),
}

pub enum StaleView {
    Preserve,
    Failed(Seq<char>),
    Remove(Seq<Seq<char>>),
}

impl View for StalePlan {
    type V = StaleView;

    open spec fn view(&self) -> StaleView {
        match self {
            StalePlan::Preserve => StaleView::Preserve,
            StalePlan::Failed(e) => StaleView::Failed(e@),
            StalePlan::Remove(v) => StaleView::Remove(texts(v@)),
        }
    }
}

/// What one entry makes of the plan so far.
pub open spec fn stale_step(plan: StaleView, e: Entry<Seq<char>>) -> StaleView {
    match plan {
        StaleView::Remove(files) => match (e.name, e.kind) {
            (None, _) => StaleView::Preserve,
            (_, EntryKind::Unreadable(detail)) => StaleView::Failed(detail),
            (Some(name), kind) => if !recognised(name) || kind is Other {
                StaleView::Preserve
            } else if credential(name) {
                StaleView::Remove(files.push(name))
            } else {
                plan
            },
        },
        _ => plan,
    }
}

pub open spec fn stale_scan(entries: Seq<Entry<Seq<char>>>) -> StaleView
    decreases entries.len(),
{
    if entries.len() == 0 {
        StaleView::Remove(Seq::empty())
    } else {
        stale_step(stale_scan(entries.drop_last()), entries.last())
    }
}

/// Without a marker nothing is removed.
pub open spec fn stale_plan_of(entries: Seq<Entry<Seq<char>>>) -> StaleView {
    match stale_scan(entries) {
        StaleView::Remove(files) => if has_marker(entries) {
            StaleView::Remove(files)
        } else {
            StaleView::Preserve
        },
        other => other,
    }
}

proof fn lemma_stale_stays(entries: Seq<Entry<Seq<char>>>, n: int)
    requires
        0 <= n <= entries.len(),
        !(stale_scan(entries.take(n)) is Remove),
    ensures
        stale_scan(entries) == stale_scan(entries.take(n)),
    decreases entries.len() - n,
{
    if n < entries.len() {
        assert(entries.take(n + 1).drop_last() =~= entries.take(n));
        lemma_stale_stays(entries, n + 1);
    } else {
        assert(entries.take(n) =~= entries);
    }
}

/// A dead daemon's directory may hold only its marker and credential files;
/// anything else preserves the whole of it.
pub fn plan_stale_removal(entries: &Vec<Entry>) -> (r: StalePlan)
    ensures
        r@ == stale_plan_of(listing(entries@)),
{
    let ghost all = listing(entries@);
    let mut files: Vec<String> = Vec::new();
    let mut i: usize = 0;
    assert(all.take(0) =~= Seq::empty());
    assert(texts(files@) =~= Seq::empty());
    while i < entries.len()
        invariant
            i <= entries@.len(),
            all == listing(entries@),
            stale_scan(all.take(i as int)) == StaleView::Remove(texts(files@)),
        decreases entries@.len() - i,
    {
        let ghost t = all.take(i + 1);
        proof {
            assert(t.drop_last() =~= all.take(i as int));
            assert(t.last() == entries@[i as int]@);
            assert(stale_scan(t) == stale_step(stale_scan(all.take(i as int)), t.last()));
        }
        let name = match &entries[i].name {
            Some(n) => n,
            None => {
                proof {
                    lemma_stale_stays(all, i + 1);
                }
                return StalePlan::Preserve;
            },
        };
        match &entries[i].kind {
            EntryKind::Unreadable(detail) => {
                proof {
                    lemma_stale_stays(all, i + 1);
                }
                return StalePlan::Failed(detail.clone());
            },
            EntryKind::Other => {
                proof {
                    lemma_stale_stays(all, i + 1);
                }
                return StalePlan::Preserve;
            },
            EntryKind::Regular => {
                if !is_recognised(name.as_str()) {
                    proof {
                        lemma_stale_stays(all, i + 1);
                    }
                    return StalePlan::Preserve;
                }
            },
        }
        if strict_credential_name(name.as_str()) {
            let ghost before = texts(files@);
            files.push(name.clone());
            assert(texts(files@) =~= before.push(name@));
        }
        i = i + 1;
    }
    assert(all.take(all.len() as int) =~= all);
    if holds_marker(entries) {
        StalePlan::Remove(files)
    } else {
        StalePlan::Preserve
    }
}

proof fn lemma_stale_scan(entries: Seq<Entry<Seq<char>>>, i: int)
    requires
        stale_scan(entries) is Remove,
        0 <= i < entries.len(),
    ensures
        entries[i].kind is Regular,
        entries[i].name is Some,
        recognised(entries[i].name->0),
    decreases entries.len(),
{
    if i < entries.len() - 1 {
        lemma_stale_scan(entries.drop_last(), i);
        assert(entries.drop_last()[i] == entries[i]);
    }
}

/// A dead daemon's directory is removed only if all it holds are regular
/// files with the names of a marker and of credentials.
pub proof fn law_stale_removal_preserves_strangers(entries: Seq<Entry<Seq<char>>>, i: int)
    requires
        0 <= i < entries.len(),
        stale_plan_of(entries) is Remove,
    ensures
        entries[i].kind is Regular,
        entries[i].name is Some,
        recognised(entries[i].name->0),
        has_marker(entries),
{
    lemma_stale_scan(entries, i);
}

/// A workspace is the directory of its process below the run directory: its
/// name says whose it is, and the marker lies in it.
pub proof fn law_workspace_names_its_owner(
    run_dir: Seq<char>,
    i: IdentityView,
    nonce: Seq<char>,
)
    requires
        crate::identity::boot_id(i.boot_id),
        crate::identity::hex_word(nonce, 32),
    ensures
        exists|name: Seq<char>|
            workspace_at(run_dir, i, nonce).instance_dir == joined(
                joined(run_dir, "adapters"@),
                name,
            ) && #[trigger] instance_owner(name) == Some(i) && stale_candidate(
                name,
                crate::identity::encoded(i).len() as u64,
                Some(crate::identity::encoded(i)),
            ) is Some == (crate::identity::encoded(i).len() as u64 <= 512),
        workspace_at(run_dir, i, nonce).identity_path == joined(
            workspace_at(run_dir, i, nonce).instance_dir,
            "identity-v1"@,
        ),
{
    crate::identity::law_instance_name_round_trip(i, nonce);
    crate::identity::law_marker_round_trip(i);
    let name = instance_name(i, nonce);
    assert(instance_owner(name) == Some(i));
}

/// An instance counts as left behind by a process only where its name and its
/// marker, of at most 512 bytes, both say so.
pub proof fn law_left_behind_needs_name_and_marker(
    name: Seq<char>,
    marker_len: u64,
    marker: Option<Seq<char>>,
)
    ensures
        stale_candidate(name, marker_len, marker) matches Some(i) ==> instance_owner(name)
            == Some(i) && marker is Some && marked(marker->0) == Some(i) && marker_len <= 512,
        instance_owner(name) is Some && marker is Some && marked(marker->0) == instance_owner(name)
            && marker_len <= 512 ==> stale_candidate(name, marker_len, marker) == instance_owner(
            name,
        ),
{
}

/// A process is dead for certain after another boot, where it is gone, and
/// where its number went to a process with another start.
pub proof fn law_dead_for_certain(i: IdentityView, current_boot: Seq<char>, t: u64)
    ensures
        i.boot_id != current_boot ==> dead(i, current_boot, Observed::Unknown) && dead(
            i,
            current_boot,
            Observed::Started(t),
        ),
        dead(i, current_boot, Observed::Gone),
        i.boot_id == current_boot ==> (dead(i, current_boot, Observed::Started(t)) <==> t
            != i.start_time),
        i.boot_id == current_boot ==> !dead(i, current_boot, Observed::Unknown),
{
}

/// A directory or file is owned only by the one that created it; a name that
/// is taken is tried again under another while attempts are left.
pub proof fn law_creation_decides_ownership(attempt: u32, limit: u32, c: Creation<Seq<char>>)
    ensures
        allocated(attempt, limit, c) is Owned <==> c is Created,
        allocated(attempt, limit, c) is Again <==> c is AlreadyThere && attempt < limit,
        allocated(attempt, limit, c) is Exhausted <==> c is AlreadyThere && attempt >= limit,
        allocated(attempt, limit, c) matches Allocation::Failed(e) ==> c == Creation::<
            Seq<char>,
        >::Failed(e),
{
}

/// A workspace is removed where the marker is there and everything in it is a
/// known regular file, and then exactly what is in it is; a workspace that is
/// gone, or was cleaned, needs nothing.
pub proof fn law_cleanup_removes_what_is_there(
    w: WorkspaceView,
    entries: Seq<Entry<Seq<char>>>,
    found: FoundView,
)
    requires
        has_marker(entries),
        forall|i: int|
            0 <= i < entries.len() ==> (#[trigger] entries[i]).kind is Regular && entries[i].name
                is Some && recognised(entries[i].name->0),
    ensures
        cleanup_of(w, false, FoundView::Directory(entries)) matches CleanupView::Remove(v)
            && v.len() == entries.len() && forall|i: int|
            0 <= i < v.len() ==> #[trigger] v[i] == joined(w.instance_dir, entries[i].name->0),
        cleanup_of(w, true, found) is Done,
        cleanup_of(w, false, FoundView::Missing) is Done,
        cleanup_of(w, false, FoundView::NotDirectory) is Refuse,
{
    lemma_known_entries(entries);
}

proof fn lemma_known_entries(entries: Seq<Entry<Seq<char>>>)
    requires
        forall|i: int|
            0 <= i < entries.len() ==> (#[trigger] entries[i]).kind is Regular && entries[i].name
                is Some && recognised(entries[i].name->0),
    ensures
        first_fault(entries) is None,
    decreases entries.len(),
{
    if entries.len() > 0 {
        let d = entries.drop_last();
        assert forall|i: int| 0 <= i < d.len() implies (#[trigger] d[i]).kind is Regular
            && d[i].name is Some && recognised(d[i].name->0) by {
            assert(d[i] == entries[i]);
        }
        lemma_known_entries(d);
        assert(entries[entries.len() - 1].kind is Regular);
    }
}

/// Of an instance that was left behind, the credential files are removed, all
/// of them and nothing else, where the marker is there and everything in it is
/// a known regular file.
pub proof fn law_left_behind_credentials_are_removed(
    entries: Seq<Entry<Seq<char>>>,
    name: Seq<char>,
)
    ensures
        stale_plan_of(entries) matches StaleView::Remove(files) ==> (files.contains(name)
            <==> credential(name) && exists|i: int|
            0 <= i < entries.len() && (#[trigger] entries[i]).name == Some(name)),
        (forall|i: int|
            0 <= i < entries.len() ==> (#[trigger] entries[i]).kind is Regular && entries[i].name
                is Some && recognised(entries[i].name->0)) && has_marker(entries) ==> stale_plan_of(
            entries,
        ) is Remove,
        !has_marker(entries) ==> !(stale_plan_of(entries) is Remove),
{
    lemma_stale_files(entries, name);
}

proof fn lemma_stale_files(entries: Seq<Entry<Seq<char>>>, name: Seq<char>)
    ensures
        stale_scan(entries) matches StaleView::Remove(files) ==> (files.contains(name)
            <==> credential(name) && exists|i: int|
            0 <= i < entries.len() && (#[trigger] entries[i]).name == Some(name)),
        (forall|i: int|
            0 <= i < entries.len() ==> (#[trigger] entries[i]).kind is Regular && entries[i].name
                is Some && recognised(entries[i].name->0)) ==> stale_scan(entries) is Remove,
    decreases entries.len(),
{
    if entries.len() > 0 {
        let d = entries.drop_last();
        let last = entries[entries.len() - 1];
        lemma_stale_files(d, name);
        if forall|i: int|
            0 <= i < entries.len() ==> (#[trigger] entries[i]).kind is Regular && entries[i].name
                is Some && recognised(entries[i].name->0) {
            assert forall|i: int| 0 <= i < d.len() implies (#[trigger] d[i]).kind is Regular
                && d[i].name is Some && recognised(d[i].name->0) by {
                assert(d[i] == entries[i]);
            }
            assert(last.kind is Regular);
        }
        if stale_scan(entries) is Remove {
            let before = stale_scan(d)->Remove_0;
            let files = stale_scan(entries)->Remove_0;
            if files.contains(name) {
                let k = files.index_of(name);
                if k < before.len() {
                    assert(before[k] == name);
                    assert(before.contains(name));
                    let i = choose|i: int|
                        0 <= i < d.len() && (#[trigger] d[i]).name == Some(name);
                    assert(entries[i] == d[i]);
                } else {
                    assert(last.name == Some(name));
                }
            }
            if credential(name) && exists|i: int|
                0 <= i < entries.len() && (#[trigger] entries[i]).name == Some(name) {
                let i = choose|i: int|
                    0 <= i < entries.len() && (#[trigger] entries[i]).name == Some(name);
                if i < d.len() {
                    assert(d[i].name == Some(name));
                    let k = before.index_of(name);
                    assert(files[k] == name);
                } else {
                    assert(files[files.len() - 1] == name);
                }
            }
        }
    }
}

/// The marker is the file `identity-v1`: without it nothing of a workspace is
/// removed, neither on the way out nor when it was left behind.
pub proof fn law_nothing_is_removed_without_the_marker(
    w: WorkspaceView,
    cleaned: bool,
    entries: Seq<Entry<Seq<char>>>,
)
    requires
        forall|i: int|
            0 <= i < entries.len() ==> (#[trigger] entries[i]).name != Some("identity-v1"@),
    ensures
        !(cleanup_of(w, cleaned, FoundView::Directory(entries)) is Remove),
        !(stale_plan_of(entries) is Remove),
{
    assert(!has_marker(entries));
}

/// With the marker alone in it, a workspace is removed.
pub proof fn law_marker_alone_is_enough(w: WorkspaceView)
    ensures
        ({
            let entries = seq![
                Entry { name: Some("identity-v1"@), kind: EntryKind::<Seq<char>>::Regular },
            ];
            &&& cleanup_of(w, false, FoundView::Directory(entries)) == CleanupView::Remove(
                seq![joined(w.instance_dir, "identity-v1"@)],
            )
            &&& stale_plan_of(entries) is Remove
        }),
{
    let entries = seq![Entry { name: Some("identity-v1"@), kind: EntryKind::<Seq<char>>::Regular }];
    assert(entries[0].name == Some("identity-v1"@));
    assert(has_marker(entries));
    law_cleanup_removes_what_is_there(w, entries, FoundView::Missing);
    law_left_behind_credentials_are_removed(entries, "identity-v1"@);
    assert(entry_paths(w.instance_dir, entries) =~= seq![joined(w.instance_dir, "identity-v1"@)]);
}

} // verus!
