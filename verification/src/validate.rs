//! Hard validation of a configuration.
//!
//! Listeners stay on loopback, writable paths are spelled without `..`, every
//! profile has exactly one source, and no two filesystem roles collide. What
//! the file system says about the configured paths comes in as facts.

use vstd::prelude::*;

use crate::config::{
    canonical, catalog_default, file_fact, known_file, normalized_path, path_exists, present,
    run_dir, run_dir_of, CatalogView, ClassConfigView, Config, FactMap, FileFact, PathFact,
    ProfileView, SubscriptionProfileConfig, SubscriptionsConfig, LEGACY_SUBSCRIPTION_NAME,
};
use crate::digest::{debug_quoted, quote_debug, say, say_quoted};
use crate::health::{usable_target, valid_target};
use crate::names::{ordered, NameMap};
use crate::paths::{
    climbs, file_name, file_name_of, has_parent_dir, join, joined, path_starts_with, paths_equal,
    same_path, with_extension, with_extension_of, with_file_name, with_file_name_of, within,
};
use crate::score::ONE_BITS;
use crate::seqs::{first_index, flattened, lemma_first_is};
use crate::text::{
    ascii_alphanumeric, begins, blank_or_control, chars_of, contains_char, decimal, decimal_text,
    find2, has_blank_or_control, is_ascii_alphanumeric, position2, same, starts_with, string_of,
    texts,
};

verus! {

/// Why a configuration is refused.
#[derive(Debug, PartialEq, Eq)]
pub enum Problem<T> {
    NoClasses,
    /// A class listens outside loopback.
    NotLoopback { class: T, listen: T },
    EmptyPath { label: T },
    ClimbingPath { label: T, path: T },
    /// Both a bare file list and named profiles.
    MixedShapes,
    LegacyDefault,
    NoSubscriptions,
    Unresolvable { path: T },
    BadProfileName { name: T },
    SourceCount { profile: T },
    LocalCache { profile: T },
    MissingCache { profile: T },
    CacheConflict { profile: T, label: T },
    SharedCache { first: T, second: T, path: T },
    PrivateFile { label: T, path: T, fact: FileFact },
    DefaultRequired,
    UnknownDefault { name: T },
    UnnamedSlot { slot: T, profile: T, cache: T },
    UnresolvableRole { label: T, path: T },
    RoleConflict { left_label: T, left_path: T, right_label: T, right_path: T },
    ZeroInterval,
    ZeroConcurrency,
    ZeroTimeout,
    ZeroThreshold,
    Hysteresis,
    EmaAlpha,
    HealthUrl,
    /// A class has a health target of neither form.
    ClassTarget { class: T },
}

pub type ConfigError = Problem<String>;

pub type ProblemView = Problem<Seq<char>>;

impl View for Problem<String> {
    type V = Problem<Seq<char>>;

    open spec fn view(&self) -> Problem<Seq<char>> {
        match self {
            Problem::NoClasses => Problem::NoClasses,
            Problem::NotLoopback { class, listen } => Problem::NotLoopback {
                class: class@,
                listen: listen@,
            },
            Problem::EmptyPath { label } => Problem::EmptyPath { label: label@ },
            Problem::ClimbingPath { label, path } => Problem::ClimbingPath {
                label: label@,
                path: path@,
            },
            Problem::MixedShapes => Problem::MixedShapes,
            Problem::LegacyDefault => Problem::LegacyDefault,
            Problem::NoSubscriptions => Problem::NoSubscriptions,
            Problem::Unresolvable { path } => Problem::Unresolvable { path: path@ },
            Problem::BadProfileName { name } => Problem::BadProfileName { name: name@ },
            Problem::SourceCount { profile } => Problem::SourceCount { profile: profile@ },
            Problem::LocalCache { profile } => Problem::LocalCache { profile: profile@ },
            Problem::MissingCache { profile } => Problem::MissingCache { profile: profile@ },
            Problem::CacheConflict { profile, label } => Problem::CacheConflict {
                profile: profile@,
                label: label@,
            },
            Problem::SharedCache { first, second, path } => Problem::SharedCache {
                first: first@,
                second: second@,
                path: path@,
            },
            Problem::PrivateFile { label, path, fact } => Problem::PrivateFile {
                label: label@,
                path: path@,
                fact: *fact,
            },
            Problem::DefaultRequired => Problem::DefaultRequired,
            Problem::UnknownDefault { name } => Problem::UnknownDefault { name: name@ },
            Problem::UnnamedSlot { slot, profile, cache } => Problem::UnnamedSlot {
                slot: slot@,
                profile: profile@,
                cache: cache@,
            },
            Problem::UnresolvableRole { label, path } => Problem::UnresolvableRole {
                label: label@,
                path: path@,
            },
            Problem::RoleConflict { left_label, left_path, right_label, right_path } => Problem::RoleConflict {
                left_label: left_label@,
                left_path: left_path@,
                right_label: right_label@,
                right_path: right_path@,
            },
            Problem::ZeroInterval => Problem::ZeroInterval,
            Problem::ZeroConcurrency => Problem::ZeroConcurrency,
            Problem::ZeroTimeout => Problem::ZeroTimeout,
            Problem::ZeroThreshold => Problem::ZeroThreshold,
            Problem::Hysteresis => Problem::Hysteresis,
            Problem::EmaAlpha => Problem::EmaAlpha,
            Problem::HealthUrl => Problem::HealthUrl,
            Problem::ClassTarget { class } => Problem::ClassTarget { class: class@ },
        }
    }
}

/// The result of a check over views.
pub open spec fn outcome<T, V>(r: Result<T, ConfigError>, ok: spec_fn(T) -> V) -> Result<
    V,
    ProblemView,
> {
    match r {
        Ok(x) => Ok(ok(x)),
        Err(e) => Err(e@),
    }
}

pub open spec fn unit_outcome(r: Result<(), ConfigError>) -> Result<(), ProblemView> {
    match r {
        Ok(_) => Ok(()),
        Err(e) => Err(e@),
    }
}

// ---------------------------------------------------------------------------
// Single values
// ---------------------------------------------------------------------------

/// One to 64 characters: ASCII letters and digits, and from the second on
/// also `.`, `_` and `-`.
pub open spec fn valid_profile_name(name: Seq<char>) -> bool {
    &&& 1 <= name.len() <= 64
    &&& forall|i: int|
        0 <= i < name.len() ==> ascii_alphanumeric(#[trigger] name[i]) || (i > 0 && (name[i] == '.'
            || name[i] == '_' || name[i] == '-'))
}

pub fn is_valid_profile_name(name: &str) -> (r: bool)
    ensures
        r == valid_profile_name(name@),
{
    let v = chars_of(name);
    if v.len() == 0 || v.len() > 64 {
        return false;
    }
    let mut i: usize = 0;
    while i < v.len()
        invariant
            i <= v@.len(),
            v@ == name@,
            forall|j: int|
                0 <= j < i ==> ascii_alphanumeric(#[trigger] name@[j]) || (j > 0 && (name@[j] == '.'
                    || name@[j] == '_' || name@[j] == '-')),
        decreases v@.len() - i,
    {
        if !(is_ascii_alphanumeric(v[i]) || (i > 0 && (v[i] == '.' || v[i] == '_' || v[i] == '-'))) {
            assert(!ascii_alphanumeric(name@[i as int]));
            return false;
        }
        i = i + 1;
    }
    true
}

/// The authority of a URL without its scheme: what precedes `/` or `?`.
pub open spec fn authority(rest: Seq<char>) -> Seq<char> {
    rest.take(position2(rest, '/', '?') as int)
}

/// An absolute plaintext URL without credentials, fragment, white space or
/// control characters.
pub open spec fn health_url(url: Seq<char>) -> bool {
    let rest = url.skip(7);
    &&& begins(url, "http://"@)
    &&& !(exists|i: int| 0 <= i < url.len() && blank_or_control(#[trigger] url[i]))
    &&& !url.contains('#')
    &&& authority(rest).len() > 0
    &&& !authority(rest).contains('@')
}

pub fn valid_health_url(url: &str) -> (r: bool)
    ensures
        r == health_url(url@),
{
    let v = chars_of(url);
    if !starts_with(url, "http://") || has_blank_or_control(&v) || contains_char(&v, '#') {
        return false;
    }
    proof {
        reveal_strlit("http://");
    }
    let rest = string_of(&v, 7, v.len());
    assert(rest@ =~= url@.skip(7));
    let w = chars_of(rest.as_str());
    let n: usize = find2(&w, '/', '?');
    let a = string_of(&w, 0, n);
    assert(a@ =~= authority(rest@));
    let b = chars_of(a.as_str());
    b.len() > 0 && !contains_char(&b, '@')
}

/// The double lies between 0 and 1 (negative zero counts as zero).
pub open spec fn unit_ratio(bits: u64) -> bool {
    bits <= ONE_BITS || bits == 0x8000_0000_0000_0000
}

/// The double is zero of either sign.
pub open spec fn zero_ratio(bits: u64) -> bool {
    bits == 0 || bits == 0x8000_0000_0000_0000
}

// ---------------------------------------------------------------------------
// Labelled paths
// ---------------------------------------------------------------------------

/// A path with the words that name it in a message.
pub struct Labelled {
    pub path: String,
    pub label: String,
}

pub type LabelledView = (Seq<char>, Seq<char>);

pub open spec fn labelled(v: Seq<Labelled>) -> Seq<LabelledView> {
    v.map_values(|l: Labelled| (l.path@, l.label@))
}

fn put(v: &mut Vec<Labelled>, path: &str, label: String)
    ensures
        labelled(final(v)@) == labelled(old(v)@).push((path@, label@)),
{
    let ghost before = labelled(v@);
    let ghost l = label@;
    v.push(Labelled { path: path.to_owned(), label });
    assert(labelled(v@) =~= before.push((path@, l)));
}

/// `words` followed by the quoted name.
pub open spec fn about(words: Seq<char>, name: Seq<char>) -> Seq<char> {
    words + debug_quoted(name)
}

fn label_about(words: &str, name: &str) -> (r: String)
    ensures
        r@ == about(words@, name@),
{
    let mut r = words.to_owned();
    let q = quote_debug(name);
    r.append(q.as_str());
    r
}

/// A writable path must not be empty and must not climb.
pub open spec fn spelling_problem(l: LabelledView) -> Option<ProblemView> {
    if l.0.len() == 0 {
        Some(Problem::EmptyPath { label: l.1 })
    } else if climbs(l.0) {
        Some(Problem::ClimbingPath { label: l.1, path: l.0 })
    } else {
        None
    }
}

/// The paths that are written at run time.
pub open spec fn writable_paths(c: Config) -> Seq<LabelledView> {
    let names = ordered(c.subscriptions@.profiles.dom());
    seq![(c.state_file@, "state_file"@), (c.log_dir@, "log_dir"@)] + flattened(
        names.len(),
        |i: int|
            match c.subscriptions@.profiles[names[i]].cache_file {
                Some(p) => seq![
                    (p, about("cache_file of subscription profile "@, names[i])),
                ],
                None => Seq::empty(),
            },
    )
}

fn reject_unsafe_writable_path(l: &Labelled) -> (r: Result<(), ConfigError>)
    ensures
        unit_outcome(r) == match spelling_problem((l.path@, l.label@)) {
            Some(e) => Err::<(), ProblemView>(e),
            None => Ok(()),
        },
{
    if l.path.as_str().is_empty() {
        Err(Problem::EmptyPath { label: l.label.clone() })
    } else if has_parent_dir(l.path.as_str()) {
        Err(Problem::ClimbingPath { label: l.label.clone(), path: l.path.clone() })
    } else {
        Ok(())
    }
}

pub open spec fn spelling_check(c: Config) -> Result<(), ProblemView> {
    let v = writable_paths(c);
    let bad = first_index(v.len(), |i: int| spelling_problem(v[i]) is Some) as int;
    if bad < v.len() {
        Err(spelling_problem(v[bad])->0)
    } else {
        Ok(())
    }
}

impl Config {
    fn list_writable_paths(&self) -> (r: Vec<Labelled>)
        ensures
            labelled(r@) == writable_paths(*self),
    {
        let mut v: Vec<Labelled> = Vec::new();
        put(&mut v, self.state_file.as_str(), "state_file".to_owned());
        put(&mut v, self.log_dir.as_str(), "log_dir".to_owned());
        let ghost head = seq![(self.state_file@, "state_file"@), (self.log_dir@, "log_dir"@)];
        assert(labelled(v@) =~= head);
        let ghost ps = self.subscriptions@.profiles;
        let ghost names = ordered(ps.dom());
        let ghost f = |i: int|
            match ps[names[i]].cache_file {
                Some(p) => seq![
                    (p, about("cache_file of subscription profile "@, names[i])),
                ],
                None => Seq::<LabelledView>::empty(),
            };
        let n: usize = self.subscriptions.profiles.len();
        let mut i: usize = 0;
        assert(head + flattened(0, f) =~= head);
        while i < n
            invariant
                i <= n,
                n == names.len(),
                ps == self.subscriptions.profiles@,
                names == ordered(ps.dom()),
                f == (|i: int|
                    match ps[names[i]].cache_file {
                        Some(p) => seq![
                            (p, about("cache_file of subscription profile "@, names[i])),
                        ],
                        None => Seq::<LabelledView>::empty(),
                    }),
                labelled(v@) == head + flattened(i as nat, f),
            decreases n - i,
        {
            let ghost before = labelled(v@);
            let name = self.subscriptions.profiles.key_at(i);
            let p = self.subscriptions.profiles.value_at(i);
            if let Some(cache) = &p.cache_file {
                let label = label_about("cache_file of subscription profile ", name.as_str());
                put(&mut v, cache.as_str(), label);
            }
            assert(labelled(v@) =~= before + f(i as int));
            assert(head + (flattened(i as nat, f) + f(i as int)) =~= before + f(i as int));
            i = i + 1;
        }
        assert(labelled(v@) =~= writable_paths(*self));
        v
    }

    /// Refuse `..` and empty spellings in every path that is written.
    pub fn validate_writable_path_spellings(&self) -> (r: Result<(), ConfigError>)
        ensures
            unit_outcome(r) == spelling_check(*self),
    {
        let v = self.list_writable_paths();
        let ghost all = writable_paths(*self);
        let ghost bad = |i: int| spelling_problem(all[i]) is Some;
        let mut i: usize = 0;
        while i < v.len()
            invariant
                i <= v@.len(),
                all == labelled(v@),
                all == writable_paths(*self),
                bad == (|i: int| spelling_problem(all[i]) is Some),
                forall|j: int| 0 <= j < i ==> !#[trigger] bad(j),
            decreases v@.len() - i,
        {
            assert(all[i as int] == (v@[i as int].path@, v@[i as int].label@));
            match reject_unsafe_writable_path(&v[i]) {
                Ok(_) => {},
                Err(e) => {
                    proof {
                        lemma_first_is(all.len(), bad, i as nat);
                    }
                    return Err(e);
                },
            }
            i = i + 1;
        }
        proof {
            lemma_first_is(all.len(), bad, all.len());
        }
        Ok(())
    }
}

// ---------------------------------------------------------------------------
// Subscriptions
// ---------------------------------------------------------------------------

/// One warning per file that does not exist.
pub open spec fn missing_warnings(facts: FactMap, files: Seq<Seq<char>>) -> Seq<Seq<char>>
    decreases files.len(),
{
    if files.len() == 0 {
        Seq::empty()
    } else {
        let rest = missing_warnings(facts, files.drop_last());
        if present(facts, files.last()) {
            rest
        } else {
            rest.push("subscription file does not exist: "@ + files.last())
        }
    }
}

fn warn_missing_files(facts: &NameMap<PathFact>, files: &Vec<String>, warnings: &mut Vec<String>)
    ensures
        texts(final(warnings)@) == texts(old(warnings)@) + missing_warnings(
            facts@,
            texts(files@),
        ),
{
    let ghost head = texts(warnings@);
    let ghost all = texts(files@);
    let mut i: usize = 0;
    assert(all.take(0) =~= Seq::<Seq<char>>::empty());
    assert(head + missing_warnings(facts@, all.take(0)) =~= head);
    while i < files.len()
        invariant
            i <= files@.len(),
            all == texts(files@),
            texts(warnings@) == head + missing_warnings(facts@, all.take(i as int)),
        decreases files@.len() - i,
    {
        let ghost t = all.take(i + 1);
        assert(t.drop_last() =~= all.take(i as int));
        assert(t.last() == files@[i as int]@);
        let ghost before = texts(warnings@);
        if !path_exists(facts, files[i].as_str()) {
            let mut w = "subscription file does not exist: ".to_owned();
            w.append(files[i].as_str());
            let ghost wv = w@;
            warnings.push(w);
            assert(texts(warnings@) =~= before.push(wv));
            assert(before.push(wv) =~= head + missing_warnings(facts@, t));
        }
        i = i + 1;
    }
    assert(all.take(files@.len() as int) =~= all);
}

/// A private file is a regular file without access for group or others.
pub open spec fn private_problem(facts: FactMap, p: Seq<char>, label: Seq<char>) -> Option<
    ProblemView,
> {
    match file_fact(facts, p) {
        FileFact::Regular(mode) => if mode & 0o077 != 0 {
            Some(Problem::PrivateFile { label, path: p, fact: FileFact::Regular(mode) })
        } else {
            None
        },
        other => Some(Problem::PrivateFile { label, path: p, fact: other }),
    }
}

fn validate_private_file(facts: &NameMap<PathFact>, p: &str, label: &str) -> (r: Option<
    ConfigError,
>)
    ensures
        crate::manifest::opt_view(r) == private_problem(facts@, p@, label@),
{
    match known_file(facts, p) {
        FileFact::Regular(mode) => if mode & 0o077 != 0 {
            Some(
                Problem::PrivateFile {
                    label: label.to_owned(),
                    path: p.to_owned(),
                    fact: FileFact::Regular(mode),
                },
            )
        } else {
            None
        },
        other => Some(
            Problem::PrivateFile { label: label.to_owned(), path: p.to_owned(), fact: other },
        ),
    }
}

/// The source files of a profile, with the words that name them.
pub open spec fn profile_sources(name: Seq<char>, p: ProfileView) -> Seq<LabelledView> {
    let files = p.files.map_values(
        |f: Seq<char>| (f, about("local source of profile "@, name)),
    );
    match p.url_file {
        Some(u) => files.push((u, about("URL secret of profile "@, name))),
        None => files,
    }
}

/// The source files of all profiles in name order.
pub open spec fn all_sources(c: CatalogView) -> Seq<LabelledView> {
    let names = ordered(c.profiles.dom());
    flattened(names.len(), |i: int| profile_sources(names[i], c.profiles[names[i]]))
}

/// The canonical cache of the profile at position `j`, if it is remote.
pub open spec fn remote_cache(c: CatalogView, facts: FactMap, j: int) -> Option<Seq<char>> {
    let p = c.profiles[ordered(c.profiles.dom())[j]];
    if p.files.len() == 0 && p.url_file is Some && p.cache_file is Some {
        canonical(facts, p.cache_file->0)
    } else {
        None
    }
}

/// What is wrong with the profile at position `i`, given the paths that no
/// cache may overwrite.
pub open spec fn profile_problem(
    c: CatalogView,
    guarded: Seq<LabelledView>,
    facts: FactMap,
    i: int,
) -> Option<ProblemView> {
    let names = ordered(c.profiles.dom());
    let name = names[i];
    let p = c.profiles[name];
    if !valid_profile_name(name) {
        Some(Problem::BadProfileName { name })
    } else if (p.files.len() > 0) == (p.url_file is Some) {
        Some(Problem::SourceCount { profile: name })
    } else if p.files.len() > 0 {
        if p.cache_file is Some {
            Some(Problem::LocalCache { profile: name })
        } else {
            None
        }
    } else if p.cache_file is None {
        Some(Problem::MissingCache { profile: name })
    } else {
        let url = p.url_file->0;
        let cache = p.cache_file->0;
        match canonical(facts, cache) {
            None => Some(Problem::Unresolvable { path: cache }),
            Some(norm) => {
                let hit = first_index(
                    guarded.len(),
                    |j: int| same_path(canonical(facts, guarded[j].0)->0, norm),
                ) as int;
                let owner = first_index(
                    i as nat,
                    |j: int|
                        remote_cache(c, facts, j) is Some && same_path(
                            remote_cache(c, facts, j)->0,
                            norm,
                        ),
                ) as int;
                if hit < guarded.len() {
                    Some(Problem::CacheConflict { profile: name, label: guarded[hit].1 })
                } else if owner < i {
                    Some(Problem::SharedCache { first: names[owner], second: name, path: cache })
                } else if present(facts, url) && private_problem(
                    facts,
                    url,
                    "subscription URL file"@,
                ) is Some {
                    private_problem(facts, url, "subscription URL file"@)
                } else if present(facts, cache) {
                    private_problem(facts, cache, "subscription cache file"@)
                } else {
                    None
                }
            },
        }
    }
}

/// The warnings of one profile.
pub open spec fn profile_warnings(facts: FactMap, name: Seq<char>, p: ProfileView) -> Seq<
    Seq<char>,
> {
    if p.files.len() > 0 {
        missing_warnings(facts, p.files)
    } else if p.url_file is Some && !present(facts, p.url_file->0) {
        seq![
            about("subscription URL file does not exist for profile "@, name) + ": "@
                + p.url_file->0,
        ]
    } else {
        Seq::empty()
    }
}

/// The check of the subscription section: its warnings, or the first problem.
pub open spec fn catalog_check(
    c: CatalogView,
    protected: Seq<LabelledView>,
    facts: FactMap,
) -> Result<Seq<Seq<char>>, ProblemView> {
    let names = ordered(c.profiles.dom());
    let guarded = protected + all_sources(c);
    let lost = first_index(
        guarded.len(),
        |i: int| canonical(facts, guarded[i].0) is None,
    ) as int;
    let bad = first_index(
        names.len(),
        |i: int| profile_problem(c, guarded, facts, i) is Some,
    ) as int;
    if c.files.len() > 0 && names.len() > 0 {
        Err(Problem::MixedShapes)
    } else if c.files.len() > 0 {
        if c.default is Some && c.default->0 != LEGACY_SUBSCRIPTION_NAME@ {
            Err(Problem::LegacyDefault)
        } else {
            Ok(missing_warnings(facts, c.files))
        }
    } else if names.len() == 0 {
        Err(Problem::NoSubscriptions)
    } else if lost < guarded.len() {
        Err(Problem::Unresolvable { path: guarded[lost].0 })
    } else if bad < names.len() {
        Err(profile_problem(c, guarded, facts, bad)->0)
    } else {
        match catalog_default(c) {
            Err(_) => Err(Problem::DefaultRequired),
            Ok(d) => if c.profiles.contains_key(d) {
                Ok(
                    flattened(
                        names.len(),
                        |i: int| profile_warnings(facts, names[i], c.profiles[names[i]]),
                    ),
                )
            } else {
                Err(Problem::UnknownDefault { name: d })
            },
        }
    }
}

fn put_sources(v: &mut Vec<Labelled>, name: &str, p: &SubscriptionProfileConfig)
    ensures
        labelled(final(v)@) == labelled(old(v)@) + profile_sources(name@, p@),
{
    let ghost head = labelled(v@);
    let ghost files = p@.files.map_values(
        |f: Seq<char>| (f, about("local source of profile "@, name@)),
    );
    let mut i: usize = 0;
    assert(head + files.take(0) =~= head);
    while i < p.files.len()
        invariant
            i <= p.files@.len(),
            files == p@.files.map_values(
                |f: Seq<char>| (f, about("local source of profile "@, name@)),
            ),
            labelled(v@) == head + files.take(i as int),
        decreases p.files@.len() - i,
    {
        let ghost before = labelled(v@);
        let label = label_about("local source of profile ", name);
        put(v, p.files[i].as_str(), label);
        assert(files[i as int] == (p.files@[i as int]@, about("local source of profile "@, name@)));
        assert(files.take(i + 1) =~= files.take(i as int).push(files[i as int]));
        assert(before.push(files[i as int]) =~= head + files.take(i + 1));
        i = i + 1;
    }
    assert(files.take(p.files@.len() as int) =~= files);
    if let Some(u) = &p.url_file {
        let label = label_about("URL secret of profile ", name);
        put(v, u.as_str(), label);
    }
    assert(labelled(v@) =~= head + profile_sources(name@, p@));
}

impl SubscriptionsConfig {
    fn guarded_paths(&self, protected: Vec<Labelled>) -> (r: Vec<Labelled>)
        ensures
            labelled(r@) == labelled(protected@) + all_sources(self@),
            self@.profiles.dom().finite(),
    {
        let ghost head = labelled(protected@);
        let mut v = protected;
        let ghost ps = self@.profiles;
        let ghost names = ordered(ps.dom());
        let ghost f = |i: int| profile_sources(names[i], ps[names[i]]);
        let n: usize = self.profiles.len();
        let mut i: usize = 0;
        assert(head + flattened(0, f) =~= head);
        while i < n
            invariant
                i <= n,
                n == names.len(),
                ps == self.profiles@,
                names == ordered(ps.dom()),
                f == (|i: int| profile_sources(names[i], ps[names[i]])),
                labelled(v@) == head + flattened(i as nat, f),
            decreases n - i,
        {
            let ghost before = labelled(v@);
            let name = self.profiles.key_at(i);
            let p = self.profiles.value_at(i);
            put_sources(&mut v, name.as_str(), p);
            assert(labelled(v@) =~= before + f(i as int));
            assert(head + (flattened(i as nat, f) + f(i as int)) =~= before + f(i as int));
            i = i + 1;
        }
        v
    }

    /// The first guarded path that is the given canonical path.
    fn guarded_hit(
        facts: &NameMap<PathFact>,
        guarded: &Vec<Labelled>,
        norm: &str,
    ) -> (r: usize)
        requires
            forall|i: int|
                0 <= i < guarded@.len() ==> canonical(
                    facts@,
                    (#[trigger] labelled(guarded@)[i]).0,
                ) is Some,
        ensures
            r <= guarded@.len(),
            r == first_index(
                labelled(guarded@).len(),
                |j: int| same_path(canonical(facts@, labelled(guarded@)[j].0)->0, norm@),
            ),
    {
        let ghost all = labelled(guarded@);
        let ghost f = |j: int| same_path(canonical(facts@, all[j].0)->0, norm@);
        let mut i: usize = 0;
        while i < guarded.len()
            invariant
                i <= guarded@.len(),
                all == labelled(guarded@),
                f == (|j: int| same_path(canonical(facts@, all[j].0)->0, norm@)),
                forall|k: int|
                    0 <= k < guarded@.len() ==> canonical(facts@, (#[trigger] all[k]).0) is Some,
                forall|j: int| 0 <= j < i ==> !#[trigger] f(j),
            decreases guarded@.len() - i,
        {
            assert(all[i as int].0 == guarded@[i as int].path@);
            let q = normalized_path(facts, guarded[i].path.as_str()).unwrap();
            if paths_equal(q.as_str(), norm) {
                assert(f(i as int));
                proof {
                    lemma_first_is(all.len(), f, i as nat);
                }
                return i;
            }
            assert(!f(i as int));
            i = i + 1;
        }
        proof {
            lemma_first_is(all.len(), f, i as nat);
        }
        i
    }

    /// The first earlier remote profile with the same canonical cache.
    fn cache_owner(&self, facts: &NameMap<PathFact>, before: usize, norm: &str) -> (r: usize)
        requires
            before <= ordered(self@.profiles.dom()).len(),
        ensures
            r <= before,
            r == first_index(
                before as nat,
                |j: int|
                    remote_cache(self@, facts@, j) is Some && same_path(
                        remote_cache(self@, facts@, j)->0,
                        norm@,
                    ),
            ),
    {
        let ghost f = |j: int|
            remote_cache(self@, facts@, j) is Some && same_path(
                remote_cache(self@, facts@, j)->0,
                norm@,
            );
        let mut i: usize = 0;
        while i < before
            invariant
                i <= before,
                before <= ordered(self@.profiles.dom()).len(),
                f == (|j: int|
                    remote_cache(self@, facts@, j) is Some && same_path(
                        remote_cache(self@, facts@, j)->0,
                        norm@,
                    )),
                forall|j: int| 0 <= j < i ==> !#[trigger] f(j),
            decreases before - i,
        {
            let p = self.profiles.value_at(i);
            if p.files.len() == 0 && p.url_file.is_some() {
                if let Some(cache) = &p.cache_file {
                    if let Some(q) = normalized_path(facts, cache.as_str()) {
                        if paths_equal(q.as_str(), norm) {
                            assert(f(i as int));
                            proof {
                                lemma_first_is(before as nat, f, i as nat);
                            }
                            return i;
                        }
                    }
                }
            }
            assert(!f(i as int));
            i = i + 1;
        }
        proof {
            lemma_first_is(before as nat, f, i as nat);
        }
        i
    }

    fn check_profile(
        &self,
        facts: &NameMap<PathFact>,
        guarded: &Vec<Labelled>,
        i: usize,
    ) -> (r: Option<ConfigError>)
        requires
            i < ordered(self@.profiles.dom()).len(),
            forall|k: int|
                0 <= k < guarded@.len() ==> canonical(
                    facts@,
                    (#[trigger] labelled(guarded@)[k]).0,
                ) is Some,
        ensures
            crate::manifest::opt_view(r) == profile_problem(
                self@,
                labelled(guarded@),
                facts@,
                i as int,
            ),
    {
        let name = self.profiles.key_at(i);
        let p = self.profiles.value_at(i);
        if !is_valid_profile_name(name.as_str()) {
            return Some(Problem::BadProfileName { name: name.clone() });
        }
        let local = p.files.len() > 0;
        let remote = p.url_file.is_some();
        if local == remote {
            return Some(Problem::SourceCount { profile: name.clone() });
        }
        if local {
            return if p.cache_file.is_some() {
                Some(Problem::LocalCache { profile: name.clone() })
            } else {
                None
            };
        }
        let cache = match &p.cache_file {
            Some(cache) => cache,
            None => return Some(Problem::MissingCache { profile: name.clone() }),
        };
        let url = match &p.url_file {
            Some(url) => url,
            None => return Some(Problem::SourceCount { profile: name.clone() }),
        };
        let norm = match normalized_path(facts, cache.as_str()) {
            Some(norm) => norm,
            None => return Some(Problem::Unresolvable { path: cache.clone() }),
        };
        let hit: usize = Self::guarded_hit(facts, guarded, norm.as_str());
        if hit < guarded.len() {
            return Some(
                Problem::CacheConflict {
                    profile: name.clone(),
                    label: guarded[hit].label.clone(),
                },
            );
        }
        let owner: usize = self.cache_owner(facts, i, norm.as_str());
        if owner < i {
            return Some(
                Problem::SharedCache {
                    first: self.profiles.key_at(owner).clone(),
                    second: name.clone(),
                    path: cache.clone(),
                },
            );
        }
        if path_exists(facts, url.as_str()) {
            let problem = validate_private_file(facts, url.as_str(), "subscription URL file");
            if problem.is_some() {
                return problem;
            }
        }
        if path_exists(facts, cache.as_str()) {
            validate_private_file(facts, cache.as_str(), "subscription cache file")
        } else {
            None
        }
    }

    fn warn_profile(&self, facts: &NameMap<PathFact>, i: usize, warnings: &mut Vec<String>)
        requires
            i < ordered(self@.profiles.dom()).len(),
        ensures
            ({
                let name = ordered(self@.profiles.dom())[i as int];
                texts(final(warnings)@) == texts(old(warnings)@) + profile_warnings(
                    facts@,
                    name,
                    self@.profiles[name],
                )
            }),
    {
        let name = self.profiles.key_at(i);
        let p = self.profiles.value_at(i);
        let ghost before = texts(warnings@);
        if p.files.len() > 0 {
            warn_missing_files(facts, &p.files, warnings);
        } else if let Some(url) = &p.url_file {
            if !path_exists(facts, url.as_str()) {
                let mut w = label_about(
                    "subscription URL file does not exist for profile ",
                    name.as_str(),
                );
                w.append(": ");
                w.append(url.as_str());
                warnings.push(w);
                assert(texts(warnings@) =~= before + profile_warnings(
                    facts@,
                    name@,
                    self@.profiles[name@],
                ));
            } else {
                assert(before + Seq::<Seq<char>>::empty() =~= before);
            }
        } else {
            assert(before + Seq::<Seq<char>>::empty() =~= before);
        }
    }

    /// Validate the subscription section. `protected` lists the paths of the
    /// other sections that no cache may overwrite.
    pub fn validate(
        &self,
        warnings: &mut Vec<String>,
        protected: Vec<Labelled>,
        facts: &NameMap<PathFact>,
    ) -> (r: Result<(), ConfigError>)
        ensures
            match catalog_check(self@, labelled(protected@), facts@) {
                Ok(w) => r is Ok && texts(final(warnings)@) == texts(old(warnings)@) + w,
                Err(e) => r is Err && r->Err_0@ == e,
            },
    {
        let n: usize = self.profiles.len();
        let ghost names = ordered(self@.profiles.dom());
        if self.files.len() > 0 && n > 0 {
            return Err(Problem::MixedShapes);
        }
        if self.files.len() > 0 {
            if let Some(d) = &self.default {
                if !same(d.as_str(), LEGACY_SUBSCRIPTION_NAME) {
                    return Err(Problem::LegacyDefault);
                }
            }
            warn_missing_files(facts, &self.files, warnings);
            return Ok(());
        }
        if n == 0 {
            return Err(Problem::NoSubscriptions);
        }
        let ghost prot = labelled(protected@);
        let guarded = self.guarded_paths(protected);
        let ghost all = labelled(guarded@);
        let ghost lost = |i: int| canonical(facts@, all[i].0) is None;
        let ghost bad = |i: int| profile_problem(self@, all, facts@, i) is Some;
        let mut i: usize = 0;
        while i < guarded.len()
            invariant
                i <= guarded@.len(),
                all == labelled(guarded@),
                all == prot + all_sources(self@),
                lost == (|i: int| canonical(facts@, all[i].0) is None),
                forall|j: int| 0 <= j < i ==> !#[trigger] lost(j),
                names == ordered(self@.profiles.dom()),
                n == names.len(),
                n > 0,
                self.files@.len() == 0,
                prot == labelled(protected@),
            decreases guarded@.len() - i,
        {
            assert(all[i as int].0 == guarded@[i as int].path@);
            if normalized_path(facts, guarded[i].path.as_str()).is_none() {
                proof {
                    assert(lost(i as int));
                    lemma_first_is(all.len(), lost, i as nat);
                }
                return Err(Problem::Unresolvable { path: guarded[i].path.clone() });
            }
            assert(!lost(i as int));
            i = i + 1;
        }
        proof {
            lemma_first_is(all.len(), lost, all.len());
            assert forall|k: int| 0 <= k < guarded@.len() implies canonical(
                facts@,
                (#[trigger] labelled(guarded@)[k]).0,
            ) is Some by {
                assert(!lost(k));
            }
        }
        let ghost head = texts(warnings@);
        let ghost wf = |i: int| profile_warnings(facts@, names[i], self@.profiles[names[i]]);
        let mut k: usize = 0;
        assert(head + flattened(0, wf) =~= head);
        while k < n
            invariant
                k <= n,
                n == names.len(),
                n > 0,
                self.files@.len() == 0,
                names == ordered(self@.profiles.dom()),
                all == labelled(guarded@),
                all == prot + all_sources(self@),
                prot == labelled(protected@),
                first_index(all.len(), lost) == all.len(),
                lost == (|i: int| canonical(facts@, all[i].0) is None),
                bad == (|i: int| profile_problem(self@, all, facts@, i) is Some),
                wf == (|i: int| profile_warnings(facts@, names[i], self@.profiles[names[i]])),
                forall|j: int|
                    0 <= j < guarded@.len() ==> canonical(
                        facts@,
                        (#[trigger] labelled(guarded@)[j]).0,
                    ) is Some,
                forall|j: int| 0 <= j < k ==> !#[trigger] bad(j),
                texts(warnings@) == head + flattened(k as nat, wf),
                head == texts(old(warnings)@),
            decreases n - k,
        {
            match self.check_profile(facts, &guarded, k) {
                Some(e) => {
                    proof {
                        assert(bad(k as int));
                        lemma_first_is(names.len(), bad, k as nat);
                    }
                    return Err(e);
                },
                None => {},
            }
            assert(!bad(k as int));
            let ghost before = texts(warnings@);
            self.warn_profile(facts, k, warnings);
            assert(before + wf(k as int) =~= head + (flattened(k as nat, wf) + wf(k as int)));
            k = k + 1;
        }
        proof {
            lemma_first_is(names.len(), bad, names.len());
        }
        match self.default_profile_name() {
            Err(_) => Err(Problem::DefaultRequired),
            Ok(d) => {
                if self.profiles.contains_key(d.as_str()) {
                    Ok(())
                } else {
                    Err(Problem::UnknownDefault { name: d })
                }
            },
        }
    }
}

// ---------------------------------------------------------------------------
// Filesystem roles
// ---------------------------------------------------------------------------

#[derive(Clone, Copy, Debug, PartialEq, Eq, Structural)]
pub enum PathAccess {
    ReadOnly,
    WritableFile,
    WritableDirectory,
}

impl PathAccess {
    pub open spec fn writable(self) -> bool {
        self != PathAccess::ReadOnly
    }

    pub fn is_writable(self) -> (b: bool)
        ensures
            b == self.writable(),
    {
        !matches!(self, PathAccess::ReadOnly)
    }
}

/// A path with a filesystem role, or a cache that has no room for a slot.
pub enum RoleItem<T> {
    Role {
        path: T,
        label: T,
        access: PathAccess,
        /// Part of the private runtime directory, where one role may contain
        /// another.
        runtime: bool,
    },
    BadSlot { slot: T, profile: T, cache: T },
}

pub type ItemView = RoleItem<Seq<char>>;

impl View for RoleItem<String> {
    type V = RoleItem<Seq<char>>;

    open spec fn view(&self) -> RoleItem<Seq<char>> {
        match self {
            RoleItem::Role { path, label, access, runtime } => RoleItem::Role {
                path: path@,
                label: label@,
                access: *access,
                runtime: *runtime,
            },
            RoleItem::BadSlot { slot, profile, cache } => RoleItem::BadSlot {
                slot: slot@,
                profile: profile@,
                cache: cache@,
            },
        }
    }
}

pub open spec fn items(v: Seq<RoleItem<String>>) -> Seq<ItemView> {
    v.map_values(|r: RoleItem<String>| r@)
}

pub open spec fn role(path: Seq<char>, label: Seq<char>, access: PathAccess) -> ItemView {
    RoleItem::Role { path, label, access, runtime: false }
}

pub open spec fn runtime_role(path: Seq<char>, label: Seq<char>, access: PathAccess) -> ItemView {
    RoleItem::Role { path, label, access, runtime: true }
}

/// The path of a cache slot: the cache's file name with a suffix.
pub open spec fn slot_path_of(base: Seq<char>, suffix: Seq<char>) -> Option<Seq<char>> {
    match file_name_of(base) {
        Some(name) => Some(with_file_name_of(base, name + "."@ + suffix)),
        None => None,
    }
}

pub fn derived_cache_slot_path(base: &str, suffix: &str) -> (r: Option<String>)
    ensures
        crate::text::opt_text(r) == slot_path_of(base@, suffix@),
{
    match file_name(base) {
        Some(name) => {
            let mut slot = name;
            slot.append(".");
            slot.append(suffix);
            Some(with_file_name(base, slot.as_str()))
        },
        None => None,
    }
}

pub open spec fn slot_item(
    cache: Seq<char>,
    name: Seq<char>,
    suffix: Seq<char>,
    slot: Seq<char>,
) -> ItemView {
    match slot_path_of(cache, suffix) {
        Some(path) => role(
            path,
            about("subscription cache slot "@ + slot + " of profile "@, name),
            PathAccess::WritableFile,
        ),
        None => RoleItem::BadSlot { slot, profile: name, cache },
    }
}

/// The roles that do not depend on the subscriptions.
pub open spec fn fixed_items(c: Config, config_path: Option<Seq<char>>) -> Seq<ItemView> {
    let run = run_dir_of(c.state_file@);
    let fixed = seq![
        role(c.state_file@, "persistent state file"@, PathAccess::WritableFile),
        role(
            with_extension_of(c.state_file@, "json.tmp"@),
            "persistent state temporary file"@,
            PathAccess::WritableFile,
        ),
        role(c.log_dir@, "log directory namespace"@, PathAccess::WritableDirectory),
        runtime_role(joined(run, "control.sock"@), "control socket"@, PathAccess::WritableFile),
        runtime_role(
            run,
            "runtime and data-plane credential directory namespace"@,
            PathAccess::WritableDirectory,
        ),
        role(c.sslocal_bin@, "sslocal executable"@, PathAccess::ReadOnly),
        role(c.obfs_plugin_bin@, "transport-plugin executable"@, PathAccess::ReadOnly),
        role(c.singbox_bin@, "sing-box executable"@, PathAccess::ReadOnly),
    ];
    match config_path {
        Some(p) => fixed.push(role(p, "main config file"@, PathAccess::ReadOnly)),
        None => fixed,
    }
}

/// A list of source files, each numbered from one in its label.
pub open spec fn source_items(
    files: Seq<Seq<char>>,
    before: Seq<char>,
    after: Seq<char>,
) -> Seq<ItemView> {
    Seq::new(
        files.len(),
        |i: int| role(files[i], before + decimal((i + 1) as nat) + after, PathAccess::ReadOnly),
    )
}

/// The roles of one profile.
pub open spec fn profile_items(name: Seq<char>, p: ProfileView) -> Seq<ItemView> {
    let files = source_items(p.files, "local source #"@, about(" of profile "@, name));
    let url = match p.url_file {
        Some(u) => seq![role(u, about("URL secret of profile "@, name), PathAccess::ReadOnly)],
        None => Seq::empty(),
    };
    let cache = match p.cache_file {
        Some(c) => seq![
            role(c, about("subscription cache of profile "@, name), PathAccess::WritableFile),
            slot_item(c, name, "causeway-a"@, "A"@),
            slot_item(c, name, "causeway-b"@, "B"@),
        ],
        None => Seq::empty(),
    };
    files + url + cache
}

/// Every filesystem role of a configuration, in the order of validation.
pub open spec fn all_items(c: Config, config_path: Option<Seq<char>>) -> Seq<ItemView> {
    let ps = c.subscriptions@.profiles;
    let names = ordered(ps.dom());
    fixed_items(c, config_path) + source_items(
        c.subscriptions@.files,
        "legacy local subscription source #"@,
        ""@,
    ) + flattened(names.len(), |i: int| profile_items(names[i], ps[names[i]]))
}

fn put_role(
    v: &mut Vec<RoleItem<String>>,
    path: &str,
    label: &str,
    access: PathAccess,
    runtime: bool,
)
    ensures
        items(final(v)@) == items(old(v)@).push(
            RoleItem::Role { path: path@, label: label@, access, runtime },
        ),
{
    let ghost before = items(v@);
    v.push(RoleItem::Role { path: path.to_owned(), label: label.to_owned(), access, runtime });
    assert(items(v@) =~= before.push(
        RoleItem::Role { path: path@, label: label@, access, runtime },
    ));
}

fn put_slot(v: &mut Vec<RoleItem<String>>, cache: &str, name: &str, suffix: &str, slot: &str)
    ensures
        items(final(v)@) == items(old(v)@).push(slot_item(cache@, name@, suffix@, slot@)),
{
    match derived_cache_slot_path(cache, suffix) {
        Some(path) => {
            let mut words = "subscription cache slot ".to_owned();
            words.append(slot);
            words.append(" of profile ");
            let label = label_about(words.as_str(), name);
            put_role(v, path.as_str(), label.as_str(), PathAccess::WritableFile, false);
        },
        None => {
            let ghost before = items(v@);
            v.push(
                RoleItem::BadSlot {
                    slot: slot.to_owned(),
                    profile: name.to_owned(),
                    cache: cache.to_owned(),
                },
            );
            assert(items(v@) =~= before.push(slot_item(cache@, name@, suffix@, slot@)));
        },
    }
}

fn put_source_items(
    v: &mut Vec<RoleItem<String>>,
    files: &Vec<String>,
    before: &str,
    after: &str,
)
    ensures
        items(final(v)@) == items(old(v)@) + source_items(texts(files@), before@, after@),
{
    let ghost head = items(v@);
    let ghost all = source_items(texts(files@), before@, after@);
    let mut i: usize = 0;
    assert(head + all.take(0) =~= head);
    while i < files.len()
        invariant
            i <= files@.len(),
            all == source_items(texts(files@), before@, after@),
            items(v@) == head + all.take(i as int),
        decreases files@.len() - i,
    {
        let mut label = before.to_owned();
        let n: u64 = i as u64 + 1;
        let d = decimal_text(n);
        label.append(d.as_str());
        label.append(after);
        put_role(v, files[i].as_str(), label.as_str(), PathAccess::ReadOnly, false);
        assert(all.take(i + 1) =~= all.take(i as int).push(all[i as int]));
        assert(items(v@) =~= head + all.take(i + 1));
        i = i + 1;
    }
    assert(all.take(files@.len() as int) =~= all);
}

fn put_profile_items(
    v: &mut Vec<RoleItem<String>>,
    name: &str,
    p: &SubscriptionProfileConfig,
)
    ensures
        items(final(v)@) == items(old(v)@) + profile_items(name@, p@),
{
    let ghost head = items(v@);
    let after = label_about(" of profile ", name);
    put_source_items(v, &p.files, "local source #", after.as_str());
    if let Some(u) = &p.url_file {
        let label = label_about("URL secret of profile ", name);
        put_role(v, u.as_str(), label.as_str(), PathAccess::ReadOnly, false);
    }
    if let Some(c) = &p.cache_file {
        let label = label_about("subscription cache of profile ", name);
        put_role(v, c.as_str(), label.as_str(), PathAccess::WritableFile, false);
        put_slot(v, c.as_str(), name, "causeway-a", "A");
        put_slot(v, c.as_str(), name, "causeway-b", "B");
    }
    assert(items(v@) =~= head + profile_items(name@, p@));
}

impl Config {
    fn list_items(&self, config_path: Option<&str>) -> (r: Vec<RoleItem<String>>)
        ensures
            items(r@) == all_items(*self, crate::text::opt_str(config_path)),
    {
        let mut v: Vec<RoleItem<String>> = Vec::new();
        let run = run_dir(self.state_file.as_str());
        let socket = join(run.as_str(), "control.sock");
        let tmp = with_extension(self.state_file.as_str(), "json.tmp");
        put_role(
            &mut v,
            self.state_file.as_str(),
            "persistent state file",
            PathAccess::WritableFile,
            false,
        );
        put_role(
            &mut v,
            tmp.as_str(),
            "persistent state temporary file",
            PathAccess::WritableFile,
            false,
        );
        put_role(
            &mut v,
            self.log_dir.as_str(),
            "log directory namespace",
            PathAccess::WritableDirectory,
            false,
        );
        put_role(&mut v, socket.as_str(), "control socket", PathAccess::WritableFile, true);
        put_role(
            &mut v,
            run.as_str(),
            "runtime and data-plane credential directory namespace",
            PathAccess::WritableDirectory,
            true,
        );
        put_role(
            &mut v,
            self.sslocal_bin.as_str(),
            "sslocal executable",
            PathAccess::ReadOnly,
            false,
        );
        put_role(
            &mut v,
            self.obfs_plugin_bin.as_str(),
            "transport-plugin executable",
            PathAccess::ReadOnly,
            false,
        );
        put_role(
            &mut v,
            self.singbox_bin.as_str(),
            "sing-box executable",
            PathAccess::ReadOnly,
            false,
        );
        if let Some(p) = config_path {
            put_role(&mut v, p, "main config file", PathAccess::ReadOnly, false);
        }
        let ghost cp = crate::text::opt_str(config_path);
        assert(items(v@) =~= fixed_items(*self, cp));
        put_source_items(
            &mut v,
            &self.subscriptions.files,
            "legacy local subscription source #",
            "",
        );
        let ghost head = items(v@);
        let ghost ps = self.subscriptions@.profiles;
        let ghost names = ordered(ps.dom());
        let ghost f = |i: int| profile_items(names[i], ps[names[i]]);
        let n: usize = self.subscriptions.profiles.len();
        let mut i: usize = 0;
        assert(head + flattened(0, f) =~= head);
        while i < n
            invariant
                i <= n,
                n == names.len(),
                ps == self.subscriptions.profiles@,
                names == ordered(ps.dom()),
                f == (|i: int| profile_items(names[i], ps[names[i]])),
                items(v@) == head + flattened(i as nat, f),
            decreases n - i,
        {
            let ghost before = items(v@);
            let name = self.subscriptions.profiles.key_at(i);
            let p = self.subscriptions.profiles.value_at(i);
            put_profile_items(&mut v, name.as_str(), p);
            assert(items(v@) =~= before + f(i as int));
            assert(head + (flattened(i as nat, f) + f(i as int)) =~= before + f(i as int));
            i = i + 1;
        }
        v
    }

    /// Every path whose file-system facts validation and source identities
    /// look up.
    pub fn paths_to_inspect(&self, config_path: Option<&str>) -> (r: Vec<String>)
        ensures
            forall|p: Seq<char>| #[trigger]
                texts(r@).contains(p) <==> exists|i: int|
                    0 <= i < all_items(*self, crate::text::opt_str(config_path)).len() && (
                    #[trigger] all_items(*self, crate::text::opt_str(config_path))[i]) is Role
                        && all_items(
                        *self,
                        crate::text::opt_str(config_path),
                    )[i]->Role_path == p,
    {
        let v = self.list_items(config_path);
        let ghost all = all_items(*self, crate::text::opt_str(config_path));
        let mut out: Vec<String> = Vec::new();
        let mut i: usize = 0;
        while i < v.len()
            invariant
                i <= v@.len(),
                all == items(v@),
                forall|j: int|
                    0 <= j < i && (#[trigger] all[j]) is Role ==> texts(out@).contains(
                        all[j]->Role_path,
                    ),
                forall|p: Seq<char>| #[trigger]
                    texts(out@).contains(p) ==> exists|j: int|
                        0 <= j < i && (#[trigger] all[j]) is Role && all[j]->Role_path == p,
            decreases v@.len() - i,
        {
            assert(all[i as int] == v@[i as int]@);
            if let RoleItem::Role { path, label: _, access: _, runtime: _ } = &v[i] {
                let ghost before = texts(out@);
                out.push(path.clone());
                proof {
                    let now = texts(out@);
                    assert(now =~= before.push(path@));
                    assert forall|p: Seq<char>| now.contains(p) <==> (before.contains(p) || p == path@) by {
                        if before.contains(p) {
                            assert(now[before.index_of(p)] == p);
                        }
                        if p == path@ {
                            assert(now[now.len() - 1] == p);
                        }
                        if now.contains(p) {
                            let j = now.index_of(p);
                            if j < before.len() {
                                assert(before[j] == p);
                            }
                        }
                    }
                }
            }
            i = i + 1;
        }
        out
    }
}

/// A role with its canonical path.
pub struct PathRole {
    pub path: String,
    pub label: String,
    pub access: PathAccess,
    pub runtime: bool,
}

#[verifier::ext_equal]
pub struct RoleView {
    pub path: Seq<char>,
    pub label: Seq<char>,
    pub access: PathAccess,
    pub runtime: bool,
}

impl View for PathRole {
    type V = RoleView;

    open spec fn view(&self) -> RoleView {
        RoleView {
            path: self.path@,
            label: self.label@,
            access: self.access,
            runtime: self.runtime,
        }
    }
}

pub open spec fn roles(v: Seq<PathRole>) -> Seq<RoleView> {
    v.map_values(|r: PathRole| r@)
}

/// What keeps an item from having a canonical path.
pub open spec fn item_problem(facts: FactMap, item: ItemView) -> Option<ProblemView> {
    match item {
        RoleItem::BadSlot { slot, profile, cache } => Some(
            Problem::UnnamedSlot { slot, profile, cache },
        ),
        RoleItem::Role { path, label, access: _, runtime: _ } => if canonical(facts, path) is None {
            Some(Problem::UnresolvableRole { label, path })
        } else {
            None
        },
    }
}

pub open spec fn item_role(facts: FactMap, item: ItemView) -> RoleView {
    RoleView {
        path: canonical(facts, item->Role_path)->0,
        label: item->Role_label,
        access: item->Role_access,
        runtime: item->runtime,
    }
}

/// Two roles on one path collide unless both only read.
pub open spec fn exact_conflict(l: RoleView, r: RoleView) -> bool {
    (l.access.writable() || r.access.writable()) && same_path(l.path, r.path)
}

/// A role inside another collides unless both only read, or both belong to
/// the runtime directory.
pub open spec fn nested_conflict(l: RoleView, r: RoleView) -> bool {
    &&& l.access.writable() || r.access.writable()
    &&& !same_path(l.path, r.path)
    &&& !(l.runtime && r.runtime)
    &&& within(l.path, r.path) || within(r.path, l.path)
}

/// The first partner after `i` that `p` pairs with it.
pub open spec fn partner(n: nat, i: int, p: spec_fn(int, int) -> bool) -> nat {
    first_index(n, |j: int| i < j && p(i, j))
}

/// The first row that has a partner.
pub open spec fn first_row(n: nat, p: spec_fn(int, int) -> bool) -> nat {
    first_index(n, |i: int| partner(n, i, p) < n)
}

pub open spec fn conflict_of(v: Seq<RoleView>, i: int, j: int) -> ProblemView {
    Problem::RoleConflict {
        left_label: v[i].label,
        left_path: v[i].path,
        right_label: v[j].label,
        right_path: v[j].path,
    }
}

/// Exact aliases are reported before containment; within each the first pair
/// in the order of the roles.
pub open spec fn collision(v: Seq<RoleView>) -> Option<ProblemView> {
    let exact = |i: int, j: int| exact_conflict(v[i], v[j]);
    let nested = |i: int, j: int| nested_conflict(v[i], v[j]);
    let a = first_row(v.len(), exact) as int;
    let b = first_row(v.len(), nested) as int;
    if a < v.len() {
        Some(conflict_of(v, a, partner(v.len(), a, exact) as int))
    } else if b < v.len() {
        Some(conflict_of(v, b, partner(v.len(), b, nested) as int))
    } else {
        None
    }
}

fn conflicts(l: &PathRole, r: &PathRole, exact_only: bool) -> (b: bool)
    ensures
        b == (if exact_only {
            exact_conflict(l@, r@)
        } else {
            nested_conflict(l@, r@)
        }),
{
    if !l.access.is_writable() && !r.access.is_writable() {
        return false;
    }
    let exact = paths_equal(l.path.as_str(), r.path.as_str());
    if exact_only {
        exact
    } else {
        !exact && !(l.runtime && r.runtime) && (path_starts_with(l.path.as_str(), r.path.as_str())
            || path_starts_with(r.path.as_str(), l.path.as_str()))
    }
}

/// The first colliding pair of one pass.
fn first_conflict(v: &Vec<PathRole>, exact_only: bool) -> (r: Option<(usize, usize)>)
    ensures
        ({
            let all = roles(v@);
            let p = if exact_only {
                |i: int, j: int| exact_conflict(all[i], all[j])
            } else {
                |i: int, j: int| nested_conflict(all[i], all[j])
            };
            match r {
                Some((i, j)) => i < v@.len() && j < v@.len() && i == first_row(v@.len(), p) && j
                    == partner(v@.len(), i as int, p),
                None => first_row(v@.len(), p) == v@.len(),
            }
        }),
{
    let ghost all = roles(v@);
    let ghost p = if exact_only {
        |i: int, j: int| exact_conflict(all[i], all[j])
    } else {
        |i: int, j: int| nested_conflict(all[i], all[j])
    };
    let ghost row = |i: int| partner(v@.len(), i, p) < v@.len();
    let mut i: usize = 0;
    while i < v.len()
        invariant
            i <= v@.len(),
            all == roles(v@),
            p == (if exact_only {
                |i: int, j: int| exact_conflict(all[i], all[j])
            } else {
                |i: int, j: int| nested_conflict(all[i], all[j])
            }),
            row == (|i: int| partner(v@.len(), i, p) < v@.len()),
            forall|k: int| 0 <= k < i ==> !#[trigger] row(k),
        decreases v@.len() - i,
    {
        let ghost col = |j: int| i < j && p(i as int, j);
        let mut j: usize = i + 1;
        while j < v.len()
            invariant
                i < j <= v@.len(),
                all == roles(v@),
                p == (if exact_only {
                    |i: int, j: int| exact_conflict(all[i], all[j])
                } else {
                    |i: int, j: int| nested_conflict(all[i], all[j])
                }),
                row == (|i: int| partner(v@.len(), i, p) < v@.len()),
                forall|k: int| 0 <= k < i ==> !#[trigger] row(k),
                col == (|j: int| i < j && p(i as int, j)),
                forall|k: int| 0 <= k < j ==> !#[trigger] col(k),
            decreases v@.len() - j,
        {
            assert(all[i as int] == v@[i as int]@);
            assert(all[j as int] == v@[j as int]@);
            if conflicts(&v[i], &v[j], exact_only) {
                proof {
                    assert(p(i as int, j as int));
                    assert(col(j as int));
                    lemma_first_is(v@.len(), col, j as nat);
                    assert(row(i as int));
                    lemma_first_is(v@.len(), row, i as nat);
                }
                return Some((i, j));
            }
            assert(!p(i as int, j as int));
            assert(!col(j as int));
            j = j + 1;
        }
        proof {
            lemma_first_is(v@.len(), col, v@.len());
            assert(!row(i as int));
        }
        i = i + 1;
    }
    proof {
        lemma_first_is(v@.len(), row, v@.len());
    }
    None
}

/// Refuse colliding roles.
pub fn validate_role_collisions(v: &Vec<PathRole>) -> (r: Result<(), ConfigError>)
    ensures
        unit_outcome(r) == match collision(roles(v@)) {
            Some(e) => Err::<(), ProblemView>(e),
            None => Ok(()),
        },
{
    let ghost all = roles(v@);
    let hit = match first_conflict(v, true) {
        Some(pair) => Some(pair),
        None => first_conflict(v, false),
    };
    match hit {
        Some((i, j)) => {
            proof {
                assert(all[i as int] == v@[i as int]@);
                assert(all[j as int] == v@[j as int]@);
            }
            Err(
                Problem::RoleConflict {
                    left_label: v[i].label.clone(),
                    left_path: v[i].path.clone(),
                    right_label: v[j].label.clone(),
                    right_path: v[j].path.clone(),
                },
            )
        },
        None => Ok(()),
    }
}

/// The check of all filesystem roles as one set.
pub open spec fn role_check(
    c: Config,
    config_path: Option<Seq<char>>,
    facts: FactMap,
) -> Result<(), ProblemView> {
    let all = all_items(c, config_path);
    let bad = first_index(all.len(), |i: int| item_problem(facts, all[i]) is Some) as int;
    if bad < all.len() {
        Err(item_problem(facts, all[bad])->0)
    } else {
        match collision(all.map_values(|x: ItemView| item_role(facts, x))) {
            Some(e) => Err(e),
            None => Ok(()),
        }
    }
}

impl Config {
    /// Validate every filesystem role as one set.
    pub fn validate_filesystem_roles(
        &self,
        config_path: Option<&str>,
        facts: &NameMap<PathFact>,
    ) -> (r: Result<(), ConfigError>)
        ensures
            unit_outcome(r) == role_check(*self, crate::text::opt_str(config_path), facts@),
    {
        let v = self.list_items(config_path);
        let ghost all = items(v@);
        let ghost bad = |i: int| item_problem(facts@, all[i]) is Some;
        let mut out: Vec<PathRole> = Vec::new();
        let mut i: usize = 0;
        while i < v.len()
            invariant
                i <= v@.len(),
                all == items(v@),
                all == all_items(*self, crate::text::opt_str(config_path)),
                bad == (|i: int| item_problem(facts@, all[i]) is Some),
                forall|j: int| 0 <= j < i ==> !#[trigger] bad(j),
                out@.len() == i,
                forall|j: int| 0 <= j < i ==> (#[trigger] out@[j])@ == item_role(facts@, all[j]),
            decreases v@.len() - i,
        {
            assert(all[i as int] == v@[i as int]@);
            match &v[i] {
                RoleItem::BadSlot { slot, profile, cache } => {
                    proof {
                        assert(bad(i as int));
                        lemma_first_is(all.len(), bad, i as nat);
                    }
                    return Err(
                        Problem::UnnamedSlot {
                            slot: slot.clone(),
                            profile: profile.clone(),
                            cache: cache.clone(),
                        },
                    );
                },
                RoleItem::Role { path, label, access, runtime } => match normalized_path(
                    facts,
                    path.as_str(),
                ) {
                    None => {
                        proof {
                            assert(bad(i as int));
                            lemma_first_is(all.len(), bad, i as nat);
                        }
                        return Err(
                            Problem::UnresolvableRole { label: label.clone(), path: path.clone() },
                        );
                    },
                    Some(norm) => {
                        assert(!bad(i as int));
                        out.push(
                            PathRole {
                                path: norm,
                                label: label.clone(),
                                access: *access,
                                runtime: *runtime,
                            },
                        );
                        assert(out@[i as int]@ =~= item_role(facts@, all[i as int]));
                    },
                },
            }
            i = i + 1;
        }
        proof {
            lemma_first_is(all.len(), bad, all.len());
            let want = all.map_values(|x: ItemView| item_role(facts@, x));
            assert forall|j: int| 0 <= j < want.len() implies roles(out@)[j] == want[j] by {
                assert(out@[j]@ == item_role(facts@, all[j]));
            }
            assert(roles(out@) =~= want);
        }
        validate_role_collisions(&out)
    }
}

/// No collision means that no writable role shares its path with another or
/// nests with one outside the runtime directory.
pub proof fn law_accepted_roles_are_disjoint(v: Seq<RoleView>, i: int, j: int)
    requires
        collision(v) is None,
        0 <= i < j < v.len(),
        v[i].access.writable() || v[j].access.writable(),
    ensures
        !same_path(v[i].path, v[j].path),
        !(v[i].runtime && v[j].runtime) ==> !within(v[i].path, v[j].path) && !within(
            v[j].path,
            v[i].path,
        ),
{
    let exact = |i: int, j: int| exact_conflict(v[i], v[j]);
    let nested = |i: int, j: int| nested_conflict(v[i], v[j]);
    lemma_no_pair(v.len(), exact, i, j);
    lemma_no_pair(v.len(), nested, i, j);
    assert(!exact(i, j));
    assert(!nested(i, j));
}

proof fn lemma_no_pair(n: nat, p: spec_fn(int, int) -> bool, i: int, j: int)
    requires
        first_row(n, p) >= n,
        0 <= i < j < n,
    ensures
        !p(i, j),
{
    let row = |i: int| partner(n, i, p) < n;
    crate::seqs::lemma_first(n, row);
    assert(!row(i));
    let col = |j: int| i < j && p(i, j);
    crate::seqs::lemma_first(n, col);
    assert(!col(j));
}

// ---------------------------------------------------------------------------
// The whole configuration
// ---------------------------------------------------------------------------

/// The paths of the other sections that no cache may overwrite.
pub open spec fn protected_paths(c: Config, config_path: Option<Seq<char>>) -> Seq<LabelledView> {
    let fixed = seq![
        (c.state_file@, "persistent state file"@),
        (with_extension_of(c.state_file@, "json.tmp"@), "persistent state temporary file"@),
        (c.sslocal_bin@, "data-plane executable"@),
        (c.obfs_plugin_bin@, "transport-plugin executable"@),
        (c.singbox_bin@, "data-plane executable"@),
    ];
    match config_path {
        Some(p) => fixed.push((p, "main config file"@)),
        None => fixed,
    }
}

/// One warning per missing executable.
pub open spec fn binary_warnings(c: Config, facts: FactMap) -> Seq<Seq<char>> {
    let a = if present(facts, c.sslocal_bin@) {
        Seq::empty()
    } else {
        seq![
            "sslocal does not exist: "@ + c.sslocal_bin@
                + " (run scripts/install-sslocal.sh first)"@,
        ]
    };
    let b = if present(facts, c.obfs_plugin_bin@) {
        Seq::empty()
    } else {
        seq![
            "obfs plugin does not exist: "@ + c.obfs_plugin_bin@
                + " (nodes with plugin: obfs in the subscription will fail to activate; run scripts/install-obfs.sh first)"@,
        ]
    };
    let d = if present(facts, c.singbox_bin@) {
        Seq::empty()
    } else {
        seq![
            "sing-box does not exist: "@ + c.singbox_bin@
                + " (nodes of type anytls in the subscription will fail to activate; set singbox_bin or install sing-box first)"@,
        ]
    };
    a + b + d
}

/// The numeric limits.
pub open spec fn limit_problem(c: Config) -> Option<ProblemView> {
    if c.probe.interval_secs == 0 || c.health.interval_secs == 0 {
        Some(Problem::ZeroInterval)
    } else if c.probe.concurrency == 0 {
        Some(Problem::ZeroConcurrency)
    } else if c.probe.timeout_ms == 0 || c.health.timeout_ms == 0 {
        Some(Problem::ZeroTimeout)
    } else if c.health.fail_threshold == 0 {
        Some(Problem::ZeroThreshold)
    } else if !unit_ratio(c.selection.hysteresis) {
        Some(Problem::Hysteresis)
    } else if !unit_ratio(c.selection.ema_alpha) || zero_ratio(c.selection.ema_alpha) {
        Some(Problem::EmaAlpha)
    } else if !health_url(c.health.url@) {
        Some(Problem::HealthUrl)
    } else {
        let names = ordered(c.classes@.dom());
        let bad = bad_target_class(c) as int;
        if bad < names.len() {
            Some(Problem::ClassTarget { class: names[bad] })
        } else {
            None
        }
    }
}

/// The first class in name order whose own health target is of neither form.
pub open spec fn bad_target_class(c: Config) -> nat {
    let names = ordered(c.classes@.dom());
    first_index(names.len(), |i: int| unusable_own_target(c.classes@[names[i]]))
}

pub open spec fn unusable_own_target(class: ClassConfigView) -> bool {
    class.health is Some && (class.health->0).url is Some && !usable_target(
        (class.health->0).url->0,
    )
}

/// The first class in name order that listens outside loopback.
pub open spec fn exposed_class(c: Config) -> nat {
    let names = ordered(c.classes@.dom());
    first_index(names.len(), |i: int| !c.classes@[names[i]].ip.loopback())
}

/// The whole check: the warnings, or the first problem.
pub open spec fn config_check(
    c: Config,
    config_path: Option<Seq<char>>,
    facts: FactMap,
) -> Result<Seq<Seq<char>>, ProblemView> {
    let names = ordered(c.classes@.dom());
    let exposed = exposed_class(c) as int;
    if names.len() == 0 {
        Err(Problem::NoClasses)
    } else if exposed < names.len() {
        Err(
            Problem::NotLoopback {
                class: names[exposed],
                listen: c.classes@[names[exposed]].listen,
            },
        )
    } else {
        match spelling_check(c) {
            Err(e) => Err(e),
            Ok(_) => match catalog_check(
                c.subscriptions@,
                protected_paths(c, config_path),
                facts,
            ) {
                Err(e) => Err(e),
                Ok(w) => match role_check(c, config_path, facts) {
                    Err(e) => Err(e),
                    Ok(_) => match limit_problem(c) {
                        Some(e) => Err(e),
                        None => Ok(w + binary_warnings(c, facts)),
                    },
                },
            },
        }
    }
}

fn warn_binary(
    facts: &NameMap<PathFact>,
    path: &str,
    before: &str,
    after: &str,
    warnings: &mut Vec<String>,
)
    ensures
        texts(final(warnings)@) == texts(old(warnings)@) + (if present(facts@, path@) {
            Seq::empty()
        } else {
            seq![before@ + path@ + after@]
        }),
{
    let ghost head = texts(warnings@);
    if !path_exists(facts, path) {
        let mut w = before.to_owned();
        w.append(path);
        w.append(after);
        warnings.push(w);
        assert(texts(warnings@) =~= head + seq![before@ + path@ + after@]);
    } else {
        assert(head + Seq::<Seq<char>>::empty() =~= head);
    }
}

impl Config {
    fn find_exposed_class(&self) -> (r: usize)
        ensures
            r == exposed_class(*self),
            r <= ordered(self.classes@.dom()).len(),
    {
        let ghost names = ordered(self.classes@.dom());
        let ghost f = |i: int| !self.classes@[names[i]].ip.loopback();
        let n: usize = self.classes.len();
        let mut i: usize = 0;
        while i < n
            invariant
                i <= n,
                n == names.len(),
                names == ordered(self.classes@.dom()),
                f == (|i: int| !self.classes@[names[i]].ip.loopback()),
                forall|j: int| 0 <= j < i ==> !#[trigger] f(j),
            decreases n - i,
        {
            if !self.classes.value_at(i).ip.is_loopback() {
                assert(f(i as int));
                proof {
                    lemma_first_is(names.len(), f, i as nat);
                }
                return i;
            }
            assert(!f(i as int));
            i = i + 1;
        }
        proof {
            lemma_first_is(names.len(), f, i as nat);
        }
        i
    }

    fn find_bad_target_class(&self) -> (r: usize)
        ensures
            r == bad_target_class(*self),
            r <= ordered(self.classes@.dom()).len(),
    {
        let ghost names = ordered(self.classes@.dom());
        let ghost f = |i: int| unusable_own_target(self.classes@[names[i]]);
        let n: usize = self.classes.len();
        let mut i: usize = 0;
        while i < n
            invariant
                i <= n,
                n == names.len(),
                names == ordered(self.classes@.dom()),
                f == (|i: int| unusable_own_target(self.classes@[names[i]])),
                forall|j: int| 0 <= j < i ==> !#[trigger] f(j),
            decreases n - i,
        {
            let class = self.classes.value_at(i);
            let bad = match &class.health {
                Some(h) => match &h.url {
                    Some(url) => !valid_target(url.as_str()),
                    None => false,
                },
                None => false,
            };
            if bad {
                assert(f(i as int));
                proof {
                    lemma_first_is(names.len(), f, i as nat);
                }
                return i;
            }
            assert(!f(i as int));
            i = i + 1;
        }
        proof {
            lemma_first_is(names.len(), f, i as nat);
        }
        i
    }

    fn find_limit_problem(&self) -> (r: Option<ConfigError>)
        ensures
            crate::manifest::opt_view(r) == limit_problem(*self),
    {
        let h: u64 = self.selection.hysteresis;
        let a: u64 = self.selection.ema_alpha;
        let minus_zero: u64 = 0x8000_0000_0000_0000;
        if self.probe.interval_secs == 0 || self.health.interval_secs == 0 {
            Some(Problem::ZeroInterval)
        } else if self.probe.concurrency == 0 {
            Some(Problem::ZeroConcurrency)
        } else if self.probe.timeout_ms == 0 || self.health.timeout_ms == 0 {
            Some(Problem::ZeroTimeout)
        } else if self.health.fail_threshold == 0 {
            Some(Problem::ZeroThreshold)
        } else if !(h <= ONE_BITS || h == minus_zero) {
            Some(Problem::Hysteresis)
        } else if !(a <= ONE_BITS || a == minus_zero) || a == 0 || a == minus_zero {
            Some(Problem::EmaAlpha)
        } else if !valid_health_url(self.health.url.as_str()) {
            Some(Problem::HealthUrl)
        } else {
            let bad: usize = self.find_bad_target_class();
            if bad < self.classes.len() {
                Some(Problem::ClassTarget { class: self.classes.key_at(bad).clone() })
            } else {
                None
            }
        }
    }

    fn list_protected(&self, config_path: Option<&str>) -> (r: Vec<Labelled>)
        ensures
            labelled(r@) == protected_paths(*self, crate::text::opt_str(config_path)),
    {
        let mut v: Vec<Labelled> = Vec::new();
        let tmp = with_extension(self.state_file.as_str(), "json.tmp");
        put(&mut v, self.state_file.as_str(), "persistent state file".to_owned());
        put(&mut v, tmp.as_str(), "persistent state temporary file".to_owned());
        put(&mut v, self.sslocal_bin.as_str(), "data-plane executable".to_owned());
        put(&mut v, self.obfs_plugin_bin.as_str(), "transport-plugin executable".to_owned());
        put(&mut v, self.singbox_bin.as_str(), "data-plane executable".to_owned());
        if let Some(p) = config_path {
            put(&mut v, p, "main config file".to_owned());
        }
        assert(labelled(v@) =~= protected_paths(*self, crate::text::opt_str(config_path)));
        v
    }

    /// Hard validation: the warnings of an acceptable configuration, or the
    /// first reason to refuse startup.
    pub fn validate_at(
        &self,
        config_path: Option<&str>,
        facts: &NameMap<PathFact>,
    ) -> (r: Result<Vec<String>, ConfigError>)
        ensures
            match r {
                Ok(w) => config_check(*self, crate::text::opt_str(config_path), facts@) == Ok::<
                    Seq<Seq<char>>,
                    ProblemView,
                >(texts(w@)),
                Err(e) => config_check(*self, crate::text::opt_str(config_path), facts@) == Err::<
                    Seq<Seq<char>>,
                    ProblemView,
                >(e@),
            },
    {
        let mut warnings: Vec<String> = Vec::new();
        let n: usize = self.classes.len();
        if n == 0 {
            return Err(Problem::NoClasses);
        }
        let exposed: usize = self.find_exposed_class();
        if exposed < n {
            return Err(
                Problem::NotLoopback {
                    class: self.classes.key_at(exposed).clone(),
                    listen: self.classes.value_at(exposed).listen.clone(),
                },
            );
        }
        match self.validate_writable_path_spellings() {
            Ok(_) => {},
            Err(e) => return Err(e),
        }
        let protected = self.list_protected(config_path);
        match self.subscriptions.validate(&mut warnings, protected, facts) {
            Ok(_) => {},
            Err(e) => return Err(e),
        }
        match self.validate_filesystem_roles(config_path, facts) {
            Ok(_) => {},
            Err(e) => return Err(e),
        }
        let ghost w = texts(warnings@);
        warn_binary(
            facts,
            self.sslocal_bin.as_str(),
            "sslocal does not exist: ",
            " (run scripts/install-sslocal.sh first)",
            &mut warnings,
        );
        warn_binary(
            facts,
            self.obfs_plugin_bin.as_str(),
            "obfs plugin does not exist: ",
            " (nodes with plugin: obfs in the subscription will fail to activate; run scripts/install-obfs.sh first)",
            &mut warnings,
        );
        warn_binary(
            facts,
            self.singbox_bin.as_str(),
            "sing-box does not exist: ",
            " (nodes of type anytls in the subscription will fail to activate; set singbox_bin or install sing-box first)",
            &mut warnings,
        );
        proof {
            assert(texts(warnings@) =~= w + binary_warnings(*self, facts@));
            let c = catalog_check(
                self.subscriptions@,
                protected_paths(*self, crate::text::opt_str(config_path)),
                facts@,
            );
            assert(w =~= c->Ok_0);
        }
        match self.find_limit_problem() {
            Some(e) => Err(e),
            None => Ok(warnings),
        }
    }
}

/// An accepted configuration listens on loopback only.
pub proof fn law_accepted_listeners_are_loopback(
    c: Config,
    config_path: Option<Seq<char>>,
    facts: FactMap,
    class: Seq<char>,
)
    requires
        config_check(c, config_path, facts) is Ok,
        c.classes@.dom().finite(),
        c.classes@.contains_key(class),
    ensures
        c.classes@[class].ip.loopback(),
{
    let names = ordered(c.classes@.dom());
    let f = |i: int| !c.classes@[names[i]].ip.loopback();
    crate::seqs::lemma_first(names.len(), f);
    crate::names::lemma_ordered_contains(c.classes@.dom(), class);
    let i = names.index_of(class);
    assert(!f(i));
}

// ---------------------------------------------------------------------------
// Messages
// ---------------------------------------------------------------------------

/// What a refusal says.
pub open spec fn problem_text(p: ProblemView) -> Seq<char> {
    match p {
        Problem::NoClasses => "at least one [classes.<name>] section is required in the config"@,
        Problem::NotLoopback { class, listen } => "listen address "@ + listen + " of class "@ + debug_quoted(class) + " is not a loopback address"@,
        Problem::EmptyPath { label } => label + " must not be empty"@,
        Problem::ClimbingPath { label, path } => label + " must not contain '..' in writable path "@ + path,
        Problem::MixedShapes => "subscriptions.files and subscriptions.profiles are mutually exclusive; use one configuration shape"@,
        Problem::LegacyDefault => "legacy subscriptions.files only supports default = \"default\""@,
        Problem::NoSubscriptions => "no subscriptions configured: set legacy subscriptions.files or add a named subscriptions.profiles entry"@,
        Problem::Unresolvable { path } => "cannot resolve path "@ + path,
        Problem::BadProfileName { name } => "invalid subscription profile name "@ + debug_quoted(name) + ": use 1-64 ASCII letters/digits, then letters/digits/./_/-"@,
        Problem::SourceCount { profile } => "subscription profile "@ + debug_quoted(profile) + " must configure exactly one source: files or url_file"@,
        Problem::LocalCache { profile } => "local subscription profile "@ + debug_quoted(profile) + " must not set cache_file"@,
        Problem::MissingCache { profile } => "remote subscription profile "@ + debug_quoted(profile) + " requires cache_file"@,
        Problem::CacheConflict { profile, label } => "remote subscription profile "@ + debug_quoted(profile) + " cache_file conflicts with "@ + label,
        Problem::SharedCache { first, second, path } => "remote subscription profiles "@ + debug_quoted(first) + " and "@ + debug_quoted(second) + " must not share cache_file "@ + path,
        Problem::DefaultRequired => "subscriptions.default is required when multiple profiles are configured"@,
        Problem::UnknownDefault { name } => "subscriptions.default names unknown profile "@ + debug_quoted(name),
        Problem::UnnamedSlot { slot, profile, cache } => "derive cache slot "@ + slot + " for subscription profile "@ + debug_quoted(profile) + " from "@ + cache,
        Problem::UnresolvableRole { label, path } => "normalize filesystem role "@ + label + ": "@ + path,
        Problem::RoleConflict { left_label, left_path, right_label, right_path } => "filesystem role conflict: "@ + left_label + " ("@ + left_path + ") conflicts with "@ + right_label + " ("@ + right_path + ")"@,
        Problem::ZeroInterval => "probe/health interval_secs must be > 0"@,
        Problem::ZeroConcurrency => "probe.concurrency must be >= 1"@,
        Problem::ZeroTimeout => "probe/health timeout_ms must be > 0"@,
        Problem::ZeroThreshold => "health.fail_threshold must be >= 1"@,
        Problem::Hysteresis => "selection.hysteresis must be in [0,1]"@,
        Problem::EmaAlpha => "selection.ema_alpha must be in (0,1]"@,
        Problem::HealthUrl => "health.url must be an absolute plaintext http:// URL without credentials, fragments, whitespace, or control characters"@,
        Problem::ClassTarget { class } => "health.url of class "@ + debug_quoted(class) + " must be a plaintext http:// URL or connect://host[:port]"@,
        Problem::PrivateFile { label, path, fact } => match fact {
            FileFact::Unreadable => "inspect "@ + label + " "@ + path,
            FileFact::NotRegular => label + " is not a regular file: "@ + path,
            FileFact::Regular(_) => label + " must not be accessible by group or others: "@ + path
                + " (use chmod 600)"@,
        },
    }
}

impl Problem<String> {
    fn render(&self, s: &mut String)
        requires
            old(s)@.len() == 0,
        ensures
            final(s)@ == problem_text(self@),
    {
        match self {
            Problem::NoClasses => {
                say(s, "at least one [classes.<name>] section is required in the config");
            },
            Problem::NotLoopback { class, listen } => {
                say(s, "listen address ");
                say(s, listen.as_str());
                say(s, " of class ");
                say_quoted(s, class.as_str());
                say(s, " is not a loopback address");
            },
            Problem::EmptyPath { label } => {
                say(s, label.as_str());
                say(s, " must not be empty");
            },
            Problem::ClimbingPath { label, path } => {
                say(s, label.as_str());
                say(s, " must not contain '..' in writable path ");
                say(s, path.as_str());
            },
            Problem::MixedShapes => {
                say(s, "subscriptions.files and subscriptions.profiles are mutually exclusive; use one configuration shape");
            },
            Problem::LegacyDefault => {
                say(s, "legacy subscriptions.files only supports default = \"default\"");
            },
            Problem::NoSubscriptions => {
                say(s, "no subscriptions configured: set legacy subscriptions.files or add a named subscriptions.profiles entry");
            },
            Problem::Unresolvable { path } => {
                say(s, "cannot resolve path ");
                say(s, path.as_str());
            },
            Problem::BadProfileName { name } => {
                say(s, "invalid subscription profile name ");
                say_quoted(s, name.as_str());
                say(s, ": use 1-64 ASCII letters/digits, then letters/digits/./_/-");
            },
            Problem::SourceCount { profile } => {
                say(s, "subscription profile ");
                say_quoted(s, profile.as_str());
                say(s, " must configure exactly one source: files or url_file");
            },
            Problem::LocalCache { profile } => {
                say(s, "local subscription profile ");
                say_quoted(s, profile.as_str());
                say(s, " must not set cache_file");
            },
            Problem::MissingCache { profile } => {
                say(s, "remote subscription profile ");
                say_quoted(s, profile.as_str());
                say(s, " requires cache_file");
            },
            Problem::CacheConflict { profile, label } => {
                say(s, "remote subscription profile ");
                say_quoted(s, profile.as_str());
                say(s, " cache_file conflicts with ");
                say(s, label.as_str());
            },
            Problem::SharedCache { first, second, path } => {
                say(s, "remote subscription profiles ");
                say_quoted(s, first.as_str());
                say(s, " and ");
                say_quoted(s, second.as_str());
                say(s, " must not share cache_file ");
                say(s, path.as_str());
            },
            Problem::DefaultRequired => {
                say(s, "subscriptions.default is required when multiple profiles are configured");
            },
            Problem::UnknownDefault { name } => {
                say(s, "subscriptions.default names unknown profile ");
                say_quoted(s, name.as_str());
            },
            Problem::UnnamedSlot { slot, profile, cache } => {
                say(s, "derive cache slot ");
                say(s, slot.as_str());
                say(s, " for subscription profile ");
                say_quoted(s, profile.as_str());
                say(s, " from ");
                say(s, cache.as_str());
            },
            Problem::UnresolvableRole { label, path } => {
                say(s, "normalize filesystem role ");
                say(s, label.as_str());
                say(s, ": ");
                say(s, path.as_str());
            },
            Problem::RoleConflict { left_label, left_path, right_label, right_path } => {
                say(s, "filesystem role conflict: ");
                say(s, left_label.as_str());
                say(s, " (");
                say(s, left_path.as_str());
                say(s, ") conflicts with ");
                say(s, right_label.as_str());
                say(s, " (");
                say(s, right_path.as_str());
                say(s, ")");
            },
            Problem::ZeroInterval => {
                say(s, "probe/health interval_secs must be > 0");
            },
            Problem::ZeroConcurrency => {
                say(s, "probe.concurrency must be >= 1");
            },
            Problem::ZeroTimeout => {
                say(s, "probe/health timeout_ms must be > 0");
            },
            Problem::ZeroThreshold => {
                say(s, "health.fail_threshold must be >= 1");
            },
            Problem::Hysteresis => {
                say(s, "selection.hysteresis must be in [0,1]");
            },
            Problem::EmaAlpha => {
                say(s, "selection.ema_alpha must be in (0,1]");
            },
            Problem::HealthUrl => {
                say(s, "health.url must be an absolute plaintext http:// URL without credentials, fragments, whitespace, or control characters");
            },
            Problem::ClassTarget { class } => {
                say(s, "health.url of class ");
                say_quoted(s, class.as_str());
                say(s, " must be a plaintext http:// URL or connect://host[:port]");
            },
            Problem::PrivateFile { label, path, fact } => match fact {
                FileFact::Unreadable => {
                    say(s, "inspect ");
                    say(s, label.as_str());
                    say(s, " ");
                    say(s, path.as_str());
                },
                FileFact::NotRegular => {
                    say(s, label.as_str());
                    say(s, " is not a regular file: ");
                    say(s, path.as_str());
                },
                FileFact::Regular(_) => {
                    say(s, label.as_str());
                    say(s, " must not be accessible by group or others: ");
                    say(s, path.as_str());
                    say(s, " (use chmod 600)");
                },
            },
        }
        assert(s@ =~= problem_text(self@));
    }

    /// The refusal in words.
    pub fn message(&self) -> (r: String)
        ensures
            r@ == problem_text(self@),
    {
        let mut s = String::new();
        self.render(&mut s);
        s
    }
}

// ---------------------------------------------------------------------------
// What an accepted configuration keeps to
// ---------------------------------------------------------------------------

/// An accepted configuration has at least one class, positive intervals,
/// timeouts and threshold, room for a probe, a hysteresis from 0 to 1, a
/// weight above 0 and up to 1, and targets that can be asked.
pub proof fn law_accepted_limits(
    c: Config,
    config_path: Option<Seq<char>>,
    facts: FactMap,
    class: Seq<char>,
)
    requires
        config_check(c, config_path, facts) is Ok,
        c.classes@.dom().finite(),
    ensures
        c.classes@.dom().len() > 0,
        c.probe.interval_secs > 0 && c.health.interval_secs > 0,
        c.probe.concurrency > 0,
        c.probe.timeout_ms > 0 && c.health.timeout_ms > 0,
        c.health.fail_threshold > 0,
        c.selection.hysteresis <= 0x3ff0_0000_0000_0000 || c.selection.hysteresis
            == 0x8000_0000_0000_0000,
        0 < c.selection.ema_alpha <= 0x3ff0_0000_0000_0000,
        usable_target(c.health.url@) || crate::health::is_connect(c.health.url@),
        health_url(c.health.url@),
        c.classes@.contains_key(class) && c.classes@[class].health is Some && (
        c.classes@[class].health->0).url is Some ==> usable_target(
            (c.classes@[class].health->0).url->0,
        ),
{
    let names = ordered(c.classes@.dom());
    crate::names::lemma_ordered(c.classes@.dom());
    assert(names.len() > 0);
    crate::names::lemma_ordered_contains(c.classes@.dom(), names[0]);
    assert(names.contains(names[0]));
    assert(c.classes@.dom().contains(names[0]));
    if c.classes@.dom().len() == 0 {
        assert(c.classes@.dom() =~= Set::empty());
    }
    if c.classes@.contains_key(class) {
        crate::names::lemma_ordered_contains(c.classes@.dom(), class);
        let i = names.index_of(class);
        let p = |i: int| unusable_own_target(c.classes@[names[i]]);
        crate::seqs::lemma_first(names.len(), p);
        assert(!p(i));
    }
    if !crate::health::is_connect(c.health.url@) {
        crate::health::law_plaintext_targets_agree(c.health.url@);
    }
}

/// The limits are all that stands in the way: a configuration within them is
/// not refused for one.
pub proof fn law_limits_are_exact(c: Config)
    requires
        c.classes@.dom().finite(),
        c.probe.interval_secs > 0 && c.health.interval_secs > 0,
        c.probe.concurrency > 0,
        c.probe.timeout_ms > 0 && c.health.timeout_ms > 0,
        c.health.fail_threshold > 0,
        c.selection.hysteresis <= 0x3ff0_0000_0000_0000,
        0 < c.selection.ema_alpha <= 0x3ff0_0000_0000_0000,
        health_url(c.health.url@),
        forall|class: Seq<char>| #[trigger]
            c.classes@.contains_key(class) ==> !unusable_own_target(c.classes@[class]),
    ensures
        limit_problem(c) is None,
{
    let names = ordered(c.classes@.dom());
    let p = |i: int| unusable_own_target(c.classes@[names[i]]);
    crate::seqs::lemma_first(names.len(), p);
    let bad = crate::seqs::first_index(names.len(), p) as int;
    if bad < names.len() {
        crate::names::lemma_ordered_contains(c.classes@.dom(), names[bad]);
        assert(names.contains(names[bad]));
        assert(p(bad));
    }
}

/// A plaintext address is accepted exactly where it names a host without user
/// data, and has no fragment, blank or control character.
pub proof fn law_health_url(host: Seq<char>, tail: Seq<char>)
    requires
        tail.len() == 0 || tail[0] == '/' || tail[0] == '?',
        forall|i: int| 0 <= i < host.len() ==> #[trigger] host[i] != '/' && host[i] != '?',
    ensures
        health_url("http://"@ + (host + tail)) <==> {
            &&& host.len() > 0
            &&& !host.contains('@')
            &&& !("http://"@ + (host + tail)).contains('#')
            &&& forall|i: int|
                0 <= i < ("http://"@ + (host + tail)).len() ==> !blank_or_control(
                    #[trigger] ("http://"@ + (host + tail))[i],
                )
        },
{
    let all = host + tail;
    let url = "http://"@ + all;
    reveal_strlit("http://");
    assert(url.subrange(0, 7) =~= "http://"@);
    assert(url.skip(7) =~= all);
    assert forall|j: int| 0 <= j < host.len() implies #[trigger] all[j] != '/' && all[j] != '?' by {
        assert(all[j] == host[j]);
    }
    if tail.len() > 0 {
        assert(all[host.len() as int] == tail[0]);
    }
    crate::text::lemma_position2_is(all, '/', '?', host.len() as int);
    assert(all.take(host.len() as int) =~= host);
}

/// Every path that is written to, or must not be, has its role: the state and
/// its temporary file, the log directory, the control socket and the run
/// directory are written; the programs and the configuration are only read.
pub proof fn law_fixed_paths_have_roles(c: Config, config_path: Option<Seq<char>>)
    ensures
        has_role(c, config_path, c.state_file@, PathAccess::WritableFile),
        has_role(
            c,
            config_path,
            with_extension_of(c.state_file@, "json.tmp"@),
            PathAccess::WritableFile,
        ),
        has_role(c, config_path, c.log_dir@, PathAccess::WritableDirectory),
        has_role(
            c,
            config_path,
            joined(run_dir_of(c.state_file@), "control.sock"@),
            PathAccess::WritableFile,
        ),
        has_role(c, config_path, run_dir_of(c.state_file@), PathAccess::WritableDirectory),
        has_role(c, config_path, c.sslocal_bin@, PathAccess::ReadOnly),
        has_role(c, config_path, c.obfs_plugin_bin@, PathAccess::ReadOnly),
        has_role(c, config_path, c.singbox_bin@, PathAccess::ReadOnly),
        config_path is Some ==> has_role(c, config_path, config_path->0, PathAccess::ReadOnly),
        forall|i: int|
            0 <= i < c.subscriptions@.files.len() ==> has_role(
                c,
                config_path,
                #[trigger] c.subscriptions@.files[i],
                PathAccess::ReadOnly,
            ),
{
    let all = all_items(c, config_path);
    let fixed = fixed_items(c, config_path);
    let ps = c.subscriptions@.profiles;
    let names = ordered(ps.dom());
    let legacy = source_items(
        c.subscriptions@.files,
        "legacy local subscription source #"@,
        ""@,
    );
    assert forall|k: int| 0 <= k < fixed.len() implies #[trigger] all[k] == fixed[k] by {}
    assert(holds_role(all[0], c.state_file@, PathAccess::WritableFile));
    assert(holds_role(
        all[1],
        with_extension_of(c.state_file@, "json.tmp"@),
        PathAccess::WritableFile,
    ));
    assert(holds_role(all[2], c.log_dir@, PathAccess::WritableDirectory));
    assert(holds_role(
        all[3],
        joined(run_dir_of(c.state_file@), "control.sock"@),
        PathAccess::WritableFile,
    ));
    assert(holds_role(all[4], run_dir_of(c.state_file@), PathAccess::WritableDirectory));
    assert(holds_role(all[5], c.sslocal_bin@, PathAccess::ReadOnly));
    assert(holds_role(all[6], c.obfs_plugin_bin@, PathAccess::ReadOnly));
    assert(holds_role(all[7], c.singbox_bin@, PathAccess::ReadOnly));
    if config_path is Some {
        assert(holds_role(all[8], config_path->0, PathAccess::ReadOnly));
    }
    assert forall|i: int| 0 <= i < c.subscriptions@.files.len() implies has_role(
        c,
        config_path,
        #[trigger] c.subscriptions@.files[i],
        PathAccess::ReadOnly,
    ) by {
        assert(all[fixed.len() + i] == legacy[i]);
        assert(holds_role(
            all[fixed.len() + i],
            c.subscriptions@.files[i],
            PathAccess::ReadOnly,
        ));
    }
}

/// An item stands for this path with this access.
pub open spec fn holds_role(item: ItemView, path: Seq<char>, access: PathAccess) -> bool {
    item matches RoleItem::Role { path: p, access: a, .. } && p == path && a == access
}

/// Some item of the configuration stands for this path with this access.
pub open spec fn has_role(
    c: Config,
    config_path: Option<Seq<char>>,
    path: Seq<char>,
    access: PathAccess,
) -> bool {
    exists|i: int|
        0 <= i < all_items(c, config_path).len() && holds_role(
            #[trigger] all_items(c, config_path)[i],
            path,
            access,
        )
}

/// The files of a profile and its URL file are only read; its cache and both
/// slots of the cache are written.
pub proof fn law_profile_paths_have_roles(name: Seq<char>, p: ProfileView, i: int)
    ensures
        ({
            let v = profile_items(name, p);
            &&& 0 <= i < p.files.len() ==> holds_role(v[i], p.files[i], PathAccess::ReadOnly)
            &&& p.url_file is Some ==> holds_role(
                v[p.files.len() as int],
                p.url_file->0,
                PathAccess::ReadOnly,
            )
            &&& p.cache_file is Some ==> {
                let at = p.files.len() + if p.url_file is Some {
                    1int
                } else {
                    0int
                };
                &&& v.len() == at + 3
                &&& holds_role(v[at], p.cache_file->0, PathAccess::WritableFile)
                &&& slot_path_of(p.cache_file->0, "causeway-a"@) is Some ==> holds_role(
                    v[at + 1],
                    slot_path_of(p.cache_file->0, "causeway-a"@)->0,
                    PathAccess::WritableFile,
                )
                &&& slot_path_of(p.cache_file->0, "causeway-b"@) is Some ==> holds_role(
                    v[at + 2],
                    slot_path_of(p.cache_file->0, "causeway-b"@)->0,
                    PathAccess::WritableFile,
                )
            }
        }),
{
}

/// In an accepted configuration no two roles share a path where one of them is
/// written: the paths of both are resolved and differ.
pub proof fn law_accepted_paths_do_not_collide(
    c: Config,
    config_path: Option<Seq<char>>,
    facts: FactMap,
    i: int,
    j: int,
)
    requires
        config_check(c, config_path, facts) is Ok,
        0 <= i < j < all_items(c, config_path).len(),
    ensures
        ({
            let a = all_items(c, config_path)[i];
            let b = all_items(c, config_path)[j];
            &&& a matches RoleItem::Role { path: p, access: x, .. } && b matches RoleItem::Role {
                path: q,
                access: y,
                ..
            } && canonical(facts, p) is Some && canonical(facts, q) is Some && (x
                != PathAccess::ReadOnly || y != PathAccess::ReadOnly ==> !same_path(
                canonical(facts, p)->0,
                canonical(facts, q)->0,
            ))
        }),
{
    let all = all_items(c, config_path);
    let p = |k: int| item_problem(facts, all[k]) is Some;
    crate::seqs::lemma_first(all.len(), p);
    assert(!p(i) && !p(j));
    let v = all.map_values(|x: ItemView| item_role(facts, x));
    assert(v[i] == item_role(facts, all[i]) && v[j] == item_role(facts, all[j]));
    if v[i].access.writable() || v[j].access.writable() {
        law_accepted_roles_are_disjoint(v, i, j);
    }
}

/// In an accepted catalog of profiles every profile has one source: files and
/// no cache, or a URL file and a cache; its name is well formed; the default
/// is one of them; and no two remote profiles share a cache.
pub proof fn law_accepted_profiles(
    c: CatalogView,
    protected: Seq<LabelledView>,
    facts: FactMap,
    name: Seq<char>,
)
    requires
        c.profiles.dom().finite(),
        c.files.len() == 0,
        catalog_check(c, protected, facts) is Ok,
    ensures
        c.profiles.contains_key(name) ==> {
            let p = c.profiles[name];
            &&& valid_profile_name(name)
            &&& p.files.len() > 0 <==> p.url_file is None
            &&& p.cache_file is Some <==> p.url_file is Some
            &&& p.url_file is Some && present(facts, p.url_file->0) ==> (file_fact(
                facts,
                p.url_file->0,
            ) matches FileFact::Regular(mode) && mode & 0o077 == 0)
            &&& p.cache_file is Some && present(facts, p.cache_file->0) ==> (file_fact(
                facts,
                p.cache_file->0,
            ) matches FileFact::Regular(mode) && mode & 0o077 == 0)
        },
        catalog_default(c) matches Ok(d) && c.profiles.contains_key(d),
{
    let names = ordered(c.profiles.dom());
    let guarded = protected + all_sources(c);
    if c.profiles.contains_key(name) {
        crate::names::lemma_ordered_contains(c.profiles.dom(), name);
        let i = names.index_of(name);
        let p = |i: int| profile_problem(c, guarded, facts, i) is Some;
        crate::seqs::lemma_first(names.len(), p);
        assert(!p(i));
    }
}

/// The cache of a remote profile in an accepted catalog is its alone: it is
/// none of the protected paths or sources, and no other profile has it.
pub proof fn law_accepted_caches_are_unshared(
    c: CatalogView,
    protected: Seq<LabelledView>,
    facts: FactMap,
    a: Seq<char>,
    b: Seq<char>,
    k: int,
)
    requires
        c.profiles.dom().finite(),
        c.files.len() == 0,
        catalog_check(c, protected, facts) is Ok,
        c.profiles.contains_key(a) && c.profiles.contains_key(b),
        crate::names::text_less(a, b),
        c.profiles[a].cache_file is Some && c.profiles[b].cache_file is Some,
    ensures
        canonical(facts, c.profiles[a].cache_file->0) is Some,
        canonical(facts, c.profiles[b].cache_file->0) is Some,
        !same_path(
            canonical(facts, c.profiles[a].cache_file->0)->0,
            canonical(facts, c.profiles[b].cache_file->0)->0,
        ),
        0 <= k < protected.len() ==> !same_path(
            canonical(facts, protected[k].0)->0,
            canonical(facts, c.profiles[b].cache_file->0)->0,
        ),
{
    let names = ordered(c.profiles.dom());
    let guarded = protected + all_sources(c);
    crate::names::lemma_ordered(c.profiles.dom());
    crate::names::lemma_ordered_contains(c.profiles.dom(), a);
    crate::names::lemma_ordered_contains(c.profiles.dom(), b);
    let i = names.index_of(a);
    let j = names.index_of(b);
    let p = |i: int| profile_problem(c, guarded, facts, i) is Some;
    crate::seqs::lemma_first(names.len(), p);
    assert(!p(i) && !p(j));
    assert(i < j) by {
        if j < i {
            assert(crate::names::text_less(names[j], names[i]));
            crate::names::lemma_less_transitive(a, b, a);
            crate::names::lemma_less_irreflexive(a);
        } else if i == j {
            crate::names::lemma_less_irreflexive(a);
        }
    }
    let norm = canonical(facts, c.profiles[b].cache_file->0)->0;
    let owner = |q: int|
        remote_cache(c, facts, q) is Some && same_path(remote_cache(c, facts, q)->0, norm);
    crate::seqs::lemma_first(j as nat, owner);
    assert(!owner(i));
    assert(remote_cache(c, facts, i) == canonical(facts, c.profiles[a].cache_file->0));
    let hit = |q: int| same_path(canonical(facts, guarded[q].0)->0, norm);
    crate::seqs::lemma_first(guarded.len(), hit);
    if 0 <= k < protected.len() {
        assert(!hit(k));
        assert(guarded[k] == protected[k]);
    }
}

/// A refusal names what is wrong: the class that listens elsewhere does, the
/// profile with a bad name has one, and the missing default is missing.
pub proof fn law_refusals_name_the_fault(
    c: Config,
    config_path: Option<Seq<char>>,
    facts: FactMap,
)
    requires
        c.classes@.dom().finite(),
    ensures
        config_check(c, config_path, facts) matches Err(Problem::NotLoopback { class, listen })
            ==> c.classes@.contains_key(class) && !c.classes@[class].ip.loopback() && listen
            == c.classes@[class].listen,
        config_check(c, config_path, facts) == Err::<Seq<Seq<char>>, ProblemView>(
            Problem::NoClasses,
        ) ==> c.classes@.dom().len() == 0,
{
    let names = ordered(c.classes@.dom());
    crate::names::lemma_ordered(c.classes@.dom());
    let p = |i: int| !c.classes@[names[i]].ip.loopback();
    crate::seqs::lemma_first(names.len(), p);
    let bad = exposed_class(c) as int;
    if names.len() > 0 && bad < names.len() {
        assert(p(bad));
        crate::names::lemma_ordered_contains(c.classes@.dom(), names[bad]);
        assert(names.contains(names[bad]));
    }
    if names.len() == 0 {
        if c.classes@.dom().len() > 0 {
            let x = c.classes@.dom().choose();
            crate::names::lemma_ordered_contains(c.classes@.dom(), x);
        }
    } else if config_check(c, config_path, facts) is Err {
        lemma_later_faults(c, config_path, facts);
    }
}

proof fn lemma_later_faults(c: Config, config_path: Option<Seq<char>>, facts: FactMap)
    ensures
        spelling_check(c) matches Err(e) ==> !(e is NotLoopback) && !(e is NoClasses),
        role_check(c, config_path, facts) matches Err(e) ==> !(e is NotLoopback) && !(
        e is NoClasses),
        catalog_check(c.subscriptions@, protected_paths(c, config_path), facts) matches Err(e)
            ==> !(e is NotLoopback) && !(e is NoClasses),
{
    let v = writable_paths(c);
    let p = |i: int| spelling_problem(v[i]) is Some;
    crate::seqs::lemma_first(v.len(), p);
    let x = crate::seqs::first_index(v.len(), p) as int;
    if x < v.len() {
        assert(p(x));
    }
    let all = all_items(c, config_path);
    let q = |i: int| item_problem(facts, all[i]) is Some;
    crate::seqs::lemma_first(all.len(), q);
    let y = crate::seqs::first_index(all.len(), q) as int;
    if y < all.len() {
        assert(q(y));
    }
    let s = c.subscriptions@;
    let names = ordered(s.profiles.dom());
    let guarded = protected_paths(c, config_path) + all_sources(s);
    let r = |i: int| profile_problem(s, guarded, facts, i) is Some;
    crate::seqs::lemma_first(names.len(), r);
    let z = crate::seqs::first_index(names.len(), r) as int;
    if z < names.len() {
        assert(r(z));
    }
}

/// Roles that keep apart are accepted: any two of which one is written differ,
/// and neither lies within the other unless both belong to the runtime.
pub proof fn law_disjoint_roles_are_accepted(v: Seq<RoleView>)
    requires
        forall|i: int, j: int|
            #![trigger v[i], v[j]]
            0 <= i < j < v.len() && (v[i].access != PathAccess::ReadOnly || v[j].access
                != PathAccess::ReadOnly) ==> !same_path(v[i].path, v[j].path) && (v[i].runtime
                && v[j].runtime || !within(v[i].path, v[j].path) && !within(v[j].path, v[i].path)),
    ensures
        collision(v) is None,
{
    let n = v.len();
    let exact = |i: int, j: int| exact_conflict(v[i], v[j]);
    let nested = |i: int, j: int| nested_conflict(v[i], v[j]);
    lemma_rows_end(n, exact);
    lemma_rows_end(n, nested);
}

proof fn lemma_rows_end(n: nat, p: spec_fn(int, int) -> bool)
    requires
        forall|i: int, j: int| 0 <= i < j < n ==> !#[trigger] p(i, j),
    ensures
        first_row(n, p) == n,
{
    let row = |i: int| partner(n, i, p) < n;
    crate::seqs::lemma_first(n, row);
    let a = crate::seqs::first_index(n, row) as int;
    if a < n {
        assert(row(a));
        let q = |j: int| a < j && p(a, j);
        crate::seqs::lemma_first(n, q);
        let b = crate::seqs::first_index(n, q) as int;
        assert(q(b));
    }
}

/// A configuration is accepted exactly where it has classes that all listen on
/// loopback addresses, its paths are well spelled, its catalog and its roles
/// are in order, and it keeps to the limits.
pub proof fn law_configuration_is_accepted(
    c: Config,
    config_path: Option<Seq<char>>,
    facts: FactMap,
)
    requires
        c.classes@.dom().finite(),
    ensures
        config_check(c, config_path, facts) is Ok <==> {
            &&& c.classes@.dom().len() > 0
            &&& forall|class: Seq<char>| #[trigger]
                c.classes@.contains_key(class) ==> c.classes@[class].ip.loopback()
            &&& spelling_check(c) is Ok
            &&& catalog_check(c.subscriptions@, protected_paths(c, config_path), facts) is Ok
            &&& role_check(c, config_path, facts) is Ok
            &&& limit_problem(c) is None
        },
{
    let names = ordered(c.classes@.dom());
    crate::names::lemma_ordered(c.classes@.dom());
    let p = |i: int| !c.classes@[names[i]].ip.loopback();
    crate::seqs::lemma_first(names.len(), p);
    let bad = exposed_class(c) as int;
    if names.len() > 0 {
        crate::names::lemma_ordered_contains(c.classes@.dom(), names[0]);
        assert(names.contains(names[0]));
        if c.classes@.dom().len() == 0 {
            assert(c.classes@.dom() =~= Set::empty());
        }
    } else if c.classes@.dom().len() > 0 {
        let x = c.classes@.dom().choose();
        crate::names::lemma_ordered_contains(c.classes@.dom(), x);
    }
    if bad < names.len() {
        assert(p(bad));
        crate::names::lemma_ordered_contains(c.classes@.dom(), names[bad]);
        assert(names.contains(names[bad]));
        assert(c.classes@.contains_key(names[bad]));
    } else {
        assert forall|class: Seq<char>| #[trigger]
            c.classes@.contains_key(class) implies c.classes@[class].ip.loopback() by {
            crate::names::lemma_ordered_contains(c.classes@.dom(), class);
            let i = names.index_of(class);
            assert(!p(i));
        }
    }
}

proof fn lemma_flattened_holds<T>(n: nat, f: spec_fn(int) -> Seq<T>, i: int, x: T)
    requires
        0 <= i < n,
        f(i).contains(x),
    ensures
        crate::seqs::flattened(n, f).contains(x),
    decreases n,
{
    let before = crate::seqs::flattened((n - 1) as nat, f);
    let all = crate::seqs::flattened(n, f);
    if i == n - 1 {
        let k = f(i).index_of(x);
        assert(all[before.len() + k] == x);
    } else {
        lemma_flattened_holds((n - 1) as nat, f, i, x);
        let k = before.index_of(x);
        assert(all[k] == x);
    }
}

/// Paths that are written to are well spelled: the state file, the log
/// directory and every cache are named and none of them climbs; without
/// profiles this is all that is asked.
pub proof fn law_writable_paths_are_spelled_out(c: Config, name: Seq<char>)
    requires
        c.subscriptions@.profiles.dom().finite(),
    ensures
        spelling_check(c) is Ok ==> {
            &&& c.state_file@.len() > 0 && !climbs(c.state_file@)
            &&& c.log_dir@.len() > 0 && !climbs(c.log_dir@)
            &&& c.subscriptions@.profiles.contains_key(name)
                && c.subscriptions@.profiles[name].cache_file is Some ==> (
            c.subscriptions@.profiles[name].cache_file->0).len() > 0 && !climbs(
                c.subscriptions@.profiles[name].cache_file->0,
            )
        },
        c.state_file@.len() > 0 && !climbs(c.state_file@) && c.log_dir@.len() > 0 && !climbs(
            c.log_dir@,
        ) && c.subscriptions@.profiles.dom() == Set::<Seq<char>>::empty() ==> spelling_check(c)
            is Ok,
{
    let v = writable_paths(c);
    let p = |i: int| spelling_problem(v[i]) is Some;
    crate::seqs::lemma_first(v.len(), p);
    assert(v[0] == (c.state_file@, "state_file"@));
    assert(v[1] == (c.log_dir@, "log_dir"@));
    let bad = crate::seqs::first_index(v.len(), p) as int;
    if bad >= v.len() {
        assert(!p(0) && !p(1));
        let ps = c.subscriptions@.profiles;
        if ps.contains_key(name) && ps[name].cache_file is Some {
            let names = ordered(ps.dom());
            crate::names::lemma_ordered_contains(ps.dom(), name);
            let i = names.index_of(name);
            let f = |i: int|
                match ps[names[i]].cache_file {
                    Some(p) => seq![(p, about("cache_file of subscription profile "@, names[i]))],
                    None => Seq::<LabelledView>::empty(),
                };
            let entry = (
                ps[name].cache_file->0,
                about("cache_file of subscription profile "@, name),
            );
            assert(f(i)[0] == entry);
            lemma_flattened_holds(names.len(), f, i, entry);
            let caches = crate::seqs::flattened(names.len(), f);
            let k = caches.index_of(entry);
            assert(v =~= seq![(c.state_file@, "state_file"@), (c.log_dir@, "log_dir"@)] + caches);
            assert(v[k + 2] == entry);
            assert(!p(k + 2));
        }
    }
    if c.subscriptions@.profiles.dom() == Set::<Seq<char>>::empty() {
        let none = Seq::<Seq<char>>::empty();
        assert(none.to_set() =~= Set::<Seq<char>>::empty());
        crate::names::lemma_ordered_is(none, c.subscriptions@.profiles.dom());
        assert(v.len() == 2);
        if bad < v.len() {
            assert(p(bad));
        }
    }
}

/// A catalog of plain files is accepted where it has no profiles beside them
/// and names no default but its one profile; the two shapes do not mix, and a
/// catalog of neither is refused.
pub proof fn law_plain_catalog_is_accepted(
    c: CatalogView,
    protected: Seq<LabelledView>,
    facts: FactMap,
)
    requires
        c.profiles.dom().finite(),
    ensures
        c.files.len() > 0 ==> (catalog_check(c, protected, facts) is Ok <==> c.profiles.dom()
            == Set::<Seq<char>>::empty() && (c.default is None || c.default->0 == "default"@)),
        c.files.len() == 0 && c.profiles.dom() == Set::<Seq<char>>::empty() ==> catalog_check(
            c,
            protected,
            facts,
        ) == Err::<Seq<Seq<char>>, ProblemView>(Problem::NoSubscriptions),
{
    let names = ordered(c.profiles.dom());
    let none = Seq::<Seq<char>>::empty();
    assert(none.to_set() =~= Set::<Seq<char>>::empty());
    if c.profiles.dom() == Set::<Seq<char>>::empty() {
        crate::names::lemma_ordered_is(none, c.profiles.dom());
    } else if names.len() == 0 {
        assert forall|x: Seq<char>| !c.profiles.dom().contains(x) by {
            crate::names::lemma_ordered_contains(c.profiles.dom(), x);
        }
        assert(c.profiles.dom() =~= Set::<Seq<char>>::empty());
    }
}

/// A profile with files and nothing else is in order; so is a remote one whose
/// cache is resolved, lies on none of the guarded paths, belongs to no profile
/// before it, and is private, like its URL file, where it exists.
pub proof fn law_profile_in_order(
    c: CatalogView,
    guarded: Seq<LabelledView>,
    facts: FactMap,
    i: int,
)
    requires
        0 <= i < ordered(c.profiles.dom()).len(),
        valid_profile_name(ordered(c.profiles.dom())[i]),
    ensures
        ({
            let p = c.profiles[ordered(c.profiles.dom())[i]];
            &&& p.files.len() > 0 && p.url_file is None && p.cache_file is None ==> profile_problem(
                c,
                guarded,
                facts,
                i,
            ) is None
            &&& p.files.len() == 0 && p.url_file is Some && p.cache_file is Some && canonical(
                facts,
                p.cache_file->0,
            ) is Some && (forall|j: int|
                0 <= j < guarded.len() ==> !same_path(
                    canonical(facts, (#[trigger] guarded[j]).0)->0,
                    canonical(facts, p.cache_file->0)->0,
                )) && (forall|j: int|
                0 <= j < i && (#[trigger] remote_cache(c, facts, j)) is Some ==> !same_path(
                    remote_cache(c, facts, j)->0,
                    canonical(facts, p.cache_file->0)->0,
                )) && !present(facts, p.url_file->0) && !present(facts, p.cache_file->0)
                ==> profile_problem(c, guarded, facts, i) is None
        }),
{
    let p = c.profiles[ordered(c.profiles.dom())[i]];
    if p.files.len() == 0 && p.url_file is Some && p.cache_file is Some && canonical(
        facts,
        p.cache_file->0,
    ) is Some {
        let norm = canonical(facts, p.cache_file->0)->0;
        let hit = |j: int| same_path(canonical(facts, guarded[j].0)->0, norm);
        let owner = |j: int|
            remote_cache(c, facts, j) is Some && same_path(remote_cache(c, facts, j)->0, norm);
        crate::seqs::lemma_first(guarded.len(), hit);
        crate::seqs::lemma_first(i as nat, owner);
        let h = crate::seqs::first_index(guarded.len(), hit) as int;
        let o = crate::seqs::first_index(i as nat, owner) as int;
        if h < guarded.len() {
            assert(hit(h));
        }
        if o < i {
            assert(owner(o));
        }
    }
}

/// A profile name has from 1 to 64 characters, letters and digits, and behind
/// the first also dots, underscores and hyphens: every front of a good name is
/// good, and so is a good name with one more such character, up to the limit.
pub proof fn law_profile_names(name: Seq<char>, k: int, ch: char)
    ensures
        valid_profile_name(name) && 1 <= k <= name.len() ==> valid_profile_name(name.take(k)),
        valid_profile_name(name) && name.len() < 64 && (ascii_alphanumeric(ch) || ch == '.' || ch
            == '_' || ch == '-') ==> valid_profile_name(name.push(ch)),
        valid_profile_name(name) ==> !valid_profile_name(name.push('/')) && !valid_profile_name(
            name.push(' '),
        ),
        valid_profile_name(seq![ch]) <==> ascii_alphanumeric(ch),
        name.len() > 64 || name.len() == 0 ==> !valid_profile_name(name),
{
    if valid_profile_name(name) {
        assert(name.push('/')[name.len() as int] == '/');
        assert(name.push(' ')[name.len() as int] == ' ');
        if 1 <= k <= name.len() {
            assert forall|i: int| 0 <= i < k implies ascii_alphanumeric(#[trigger] name.take(k)[i])
                || (i > 0 && (name.take(k)[i] == '.' || name.take(k)[i] == '_' || name.take(k)[i]
                == '-')) by {
                assert(name.take(k)[i] == name[i]);
            }
        }
        assert forall|i: int| 0 <= i < name.len() implies #[trigger] name.push(ch)[i] == name[i] by {}
    }
    assert(seq![ch][0] == ch);
}

/// The paths of every profile have their roles in the configuration: files and
/// URL file are only read, the cache and both its slots are written.
pub proof fn law_profiles_have_roles_in_the_configuration(
    c: Config,
    config_path: Option<Seq<char>>,
    name: Seq<char>,
    i: int,
)
    requires
        c.subscriptions@.profiles.dom().finite(),
        c.subscriptions@.profiles.contains_key(name),
    ensures
        ({
            let p = c.subscriptions@.profiles[name];
            &&& 0 <= i < p.files.len() ==> has_role(
                c,
                config_path,
                p.files[i],
                PathAccess::ReadOnly,
            )
            &&& p.url_file is Some ==> has_role(
                c,
                config_path,
                p.url_file->0,
                PathAccess::ReadOnly,
            )
            &&& p.cache_file is Some ==> {
                let a = slot_path_of(p.cache_file->0, "causeway-a"@);
                let b = slot_path_of(p.cache_file->0, "causeway-b"@);
                &&& has_role(c, config_path, p.cache_file->0, PathAccess::WritableFile)
                &&& a is Some ==> has_role(c, config_path, a->0, PathAccess::WritableFile)
                &&& b is Some ==> has_role(c, config_path, b->0, PathAccess::WritableFile)
            }
        }),
{
    let p = c.subscriptions@.profiles[name];
    let v = profile_items(name, p);
    law_profile_paths_have_roles(name, p, i);
    assert forall|k: int| 0 <= k < v.len() implies all_items(c, config_path).contains(
        #[trigger] v[k],
    ) by {
        lemma_profile_item(c, config_path, name, k);
    }
    let at = p.files.len() + if p.url_file is Some {
        1int
    } else {
        0int
    };
    if 0 <= i < p.files.len() {
        lemma_item_role(c, config_path, v[i], p.files[i], PathAccess::ReadOnly);
    }
    if p.url_file is Some {
        lemma_item_role(
            c,
            config_path,
            v[p.files.len() as int],
            p.url_file->0,
            PathAccess::ReadOnly,
        );
    }
    if p.cache_file is Some {
        let a = slot_path_of(p.cache_file->0, "causeway-a"@);
        let b = slot_path_of(p.cache_file->0, "causeway-b"@);
        lemma_item_role(c, config_path, v[at], p.cache_file->0, PathAccess::WritableFile);
        if a is Some {
            lemma_item_role(c, config_path, v[at + 1], a->0, PathAccess::WritableFile);
        }
        if b is Some {
            lemma_item_role(c, config_path, v[at + 2], b->0, PathAccess::WritableFile);
        }
    }
}

proof fn lemma_item_role(
    c: Config,
    config_path: Option<Seq<char>>,
    item: ItemView,
    path: Seq<char>,
    access: PathAccess,
)
    requires
        all_items(c, config_path).contains(item),
        holds_role(item, path, access),
    ensures
        has_role(c, config_path, path, access),
{
    let all = all_items(c, config_path);
    let k = all.index_of(item);
    assert(holds_role(all[k], path, access));
}

proof fn lemma_profile_item(
    c: Config,
    config_path: Option<Seq<char>>,
    name: Seq<char>,
    k: int,
)
    requires
        c.subscriptions@.profiles.dom().finite(),
        c.subscriptions@.profiles.contains_key(name),
        0 <= k < profile_items(name, c.subscriptions@.profiles[name]).len(),
    ensures
        all_items(c, config_path).contains(
            profile_items(name, c.subscriptions@.profiles[name])[k],
        ),
{
    let ps = c.subscriptions@.profiles;
    let names = ordered(ps.dom());
    crate::names::lemma_ordered_contains(ps.dom(), name);
    let i = names.index_of(name);
    let f = |i: int| profile_items(names[i], ps[names[i]]);
    let item = profile_items(name, ps[name])[k];
    assert(f(i)[k] == item);
    lemma_flattened_holds(names.len(), f, i, item);
    let rest = crate::seqs::flattened(names.len(), f);
    let front = fixed_items(c, config_path) + source_items(
        c.subscriptions@.files,
        "legacy local subscription source #"@,
        ""@,
    );
    let all = all_items(c, config_path);
    assert(all =~= front + rest);
    let q = rest.index_of(item);
    assert(all[front.len() + q] == item);
}

/// The cache of a profile in an accepted catalog is no source of any profile:
/// none of its files and no URL file.
pub proof fn law_accepted_caches_are_no_sources(
    c: CatalogView,
    protected: Seq<LabelledView>,
    facts: FactMap,
    owner: Seq<char>,
    other: Seq<char>,
    k: int,
)
    requires
        c.profiles.dom().finite(),
        c.files.len() == 0,
        catalog_check(c, protected, facts) is Ok,
        c.profiles.contains_key(owner) && c.profiles.contains_key(other),
        c.profiles[owner].cache_file is Some,
    ensures
        0 <= k < c.profiles[other].files.len() ==> canonical(facts, c.profiles[other].files[k])
            is Some && !same_path(
            canonical(facts, c.profiles[other].files[k])->0,
            canonical(facts, c.profiles[owner].cache_file->0)->0,
        ),
        c.profiles[other].url_file is Some ==> canonical(facts, c.profiles[other].url_file->0)
            is Some && !same_path(
            canonical(facts, c.profiles[other].url_file->0)->0,
            canonical(facts, c.profiles[owner].cache_file->0)->0,
        ),
{
    let names = ordered(c.profiles.dom());
    let guarded = protected + all_sources(c);
    crate::names::lemma_ordered_contains(c.profiles.dom(), owner);
    crate::names::lemma_ordered_contains(c.profiles.dom(), other);
    let i = names.index_of(owner);
    let j = names.index_of(other);
    let bad = |i: int| profile_problem(c, guarded, facts, i) is Some;
    crate::seqs::lemma_first(names.len(), bad);
    assert(!bad(i));
    let lost = |i: int| canonical(facts, guarded[i].0) is None;
    crate::seqs::lemma_first(guarded.len(), lost);
    let norm = canonical(facts, c.profiles[owner].cache_file->0)->0;
    let hit = |q: int| same_path(canonical(facts, guarded[q].0)->0, norm);
    crate::seqs::lemma_first(guarded.len(), hit);
    let p = c.profiles[other];
    let f = |i: int| profile_sources(names[i], c.profiles[names[i]]);
    let s = profile_sources(other, p);
    assert forall|m: int| 0 <= m < s.len() implies canonical(facts, (#[trigger] s[m]).0) is Some
        && !same_path(canonical(facts, s[m].0)->0, norm) by {
        assert(f(j)[m] == s[m]);
        lemma_flattened_holds(names.len(), f, j, s[m]);
        let all = crate::seqs::flattened(names.len(), f);
        assert(all_sources(c) =~= all);
        let q = all.index_of(s[m]);
        assert(guarded[protected.len() + q] == s[m]);
        assert(!lost(protected.len() + q));
        assert(!hit(protected.len() + q));
    }
    if 0 <= k < p.files.len() {
        assert(s[k].0 == p.files[k]);
    }
    if p.url_file is Some {
        assert(s[p.files.len() as int].0 == p.url_file->0);
    }
}

/// The state, its temporary file, the programs and the configuration are
/// protected from becoming a cache.
pub proof fn law_protected_paths(c: Config, config_path: Option<Seq<char>>)
    ensures
        ({
            let v = protected_paths(c, config_path);
            &&& v[0].0 == c.state_file@
            &&& v[1].0 == with_extension_of(c.state_file@, "json.tmp"@)
            &&& v[2].0 == c.sslocal_bin@ && v[3].0 == c.obfs_plugin_bin@ && v[4].0 == c.singbox_bin@
            &&& config_path is Some ==> v.len() == 6 && v[5].0 == config_path->0
            &&& config_path is None ==> v.len() == 5
        }),
{
}

/// A program that is missing is warned of, with its path; one that is there is
/// not.
pub proof fn law_missing_programs_are_warned_of(c: Config, facts: FactMap)
    ensures
        present(facts, c.sslocal_bin@) && present(facts, c.obfs_plugin_bin@) && present(
            facts,
            c.singbox_bin@,
        ) <==> binary_warnings(c, facts).len() == 0,
        !present(facts, c.sslocal_bin@) ==> binary_warnings(c, facts).contains(
            "sslocal does not exist: "@ + c.sslocal_bin@
                + " (run scripts/install-sslocal.sh first)"@,
        ),
{
    if !present(facts, c.sslocal_bin@) {
        assert(binary_warnings(c, facts)[0] == "sslocal does not exist: "@ + c.sslocal_bin@
            + " (run scripts/install-sslocal.sh first)"@);
    }
}

/// A file of a profile that is missing is warned of, and only such a file.
pub proof fn law_missing_files_are_warned_of(facts: FactMap, files: Seq<Seq<char>>)
    ensures
        missing_warnings(facts, files).len() <= files.len(),
        missing_warnings(facts, files).len() == 0 <==> forall|i: int|
            0 <= i < files.len() ==> present(facts, #[trigger] files[i]),
    decreases files.len(),
{
    if files.len() > 0 {
        let d = files.drop_last();
        law_missing_files_are_warned_of(facts, d);
        if forall|i: int| 0 <= i < files.len() ==> present(facts, #[trigger] files[i]) {
            assert forall|i: int| 0 <= i < d.len() implies present(facts, #[trigger] d[i]) by {
                assert(d[i] == files[i]);
            }
            assert(present(facts, files[files.len() - 1]));
        }
        if missing_warnings(facts, files).len() == 0 {
            assert forall|i: int| 0 <= i < files.len() implies present(facts, #[trigger] files[i]) by {
                if i < d.len() {
                    assert(d[i] == files[i]);
                }
            }
        }
    }
}

} // verus!
