//! Subscription profiles: which manifests a profile is read from, how a
//! remote manifest is fetched and checked, and the cache slots that keep the
//! last confirmed one.

use vstd::prelude::*;
use vstd::slice::slice_to_vec;
use vstd::utf8::encode_utf8;

use crate::config::{ProfileView, SubscriptionProfileConfig};
use crate::digest::say;
use crate::manifest::{
    law_entry_names_are_distinct, parse_str, proxies_of, proxy_of, text_nodes, ManifestError,
};
use crate::names::{Model, NameMap};
use crate::node::{
    distinct_names, law_merge_keeps_first, lemma_merge_distinct, merge_nodes, merged, pool, Node,
    NodeView,
};
use crate::paths::{join, joined};
use crate::state::{save_parent, save_parent_of};
use crate::text::{
    begins, blank_or_control, chars_of, copy_opt, copy_texts, decimal, decimal_text,
    has_blank_or_control, opt_str, opt_text, same, starts_with, texts, trim, trimmed,
};
use crate::validate::{derived_cache_slot_path, slot_path_of};
use crate::yaml::{yaml_document, YamlTree};

verus! {

/// A provider response is configuration data, not an unbounded download.
pub const MAX_REMOTE_MANIFEST_BYTES: u64 = 16777216;

pub const MAX_SUBSCRIPTION_URL_BYTES: u64 = 8192;

/// Bound on the supported entries of one remote profile.
pub const MAX_PROFILE_NODES: usize = 256;

pub const CACHE_SLOT_A: &'static str = "a";

pub const CACHE_SLOT_B: &'static str = "b";

/// The cache slot beside the configured cache path.
pub open spec fn cache_slot_of(base: Seq<char>, slot: Seq<char>) -> Option<Seq<char>> {
    if slot == CACHE_SLOT_A@ {
        slot_path_of(base, "causeway-a"@)
    } else if slot == CACHE_SLOT_B@ {
        slot_path_of(base, "causeway-b"@)
    } else {
        None
    }
}

/// Derive a private cache slot beside the configured cache path.
pub fn cache_slot_path(base: &str, slot: &str) -> (r: Option<String>)
    ensures
        opt_text(r) == cache_slot_of(base@, slot@),
{
    if same(slot, CACHE_SLOT_A) {
        derived_cache_slot_path(base, "causeway-a")
    } else if same(slot, CACHE_SLOT_B) {
        derived_cache_slot_path(base, "causeway-b")
    } else {
        None
    }
}

// ---------------------------------------------------------------------------
// Failures
// ---------------------------------------------------------------------------

#[derive(Debug, PartialEq, Eq)]
pub enum SubscriptionFault<T> {
    Io { path: T, detail: T },
    Yaml { path: T, cause: ManifestError },
    InvalidUrlFile { path: T },
    FetchStart(T),
    FetchIo(T),
    FetchFailed { detail: T },
    TooLarge { limit: u64 },
    RemoteYaml,
    Cache { path: T, detail: T },
}

pub type SubscriptionError = SubscriptionFault<String>;

pub type SubscriptionFaultView = SubscriptionFault<Seq<char>>;

impl View for SubscriptionFault<String> {
    type V = SubscriptionFault<Seq<char>>;

    open spec fn view(&self) -> SubscriptionFault<Seq<char>> {
        match self {
            SubscriptionFault::Io { path, detail } => SubscriptionFault::Io {
                path: path@,
                detail: detail@,
            },
            SubscriptionFault::Yaml { path, cause } => SubscriptionFault::Yaml {
                path: path@,
                cause: *cause,
            },
            SubscriptionFault::InvalidUrlFile { path } => SubscriptionFault::InvalidUrlFile {
                path: path@,
            },
            SubscriptionFault::FetchStart(detail) => SubscriptionFault::FetchStart(detail@),
            SubscriptionFault::FetchIo(detail) => SubscriptionFault::FetchIo(detail@),
            SubscriptionFault::FetchFailed { detail } => SubscriptionFault::FetchFailed {
                detail: detail@,
            },
            SubscriptionFault::TooLarge { limit } => SubscriptionFault::TooLarge { limit: *limit },
            SubscriptionFault::RemoteYaml => SubscriptionFault::RemoteYaml,
            SubscriptionFault::Cache { path, detail } => SubscriptionFault::Cache {
                path: path@,
                detail: detail@,
            },
        }
    }
}

pub open spec fn manifest_fault_text(e: ManifestError) -> Seq<char> {
    match e {
        ManifestError::Syntax => "the text is not valid YAML"@,
        ManifestError::Shape => "the document is not a manifest"@,
    }
}

pub open spec fn subscription_fault_text(f: SubscriptionFaultView) -> Seq<char> {
    match f {
        SubscriptionFault::Io { path, detail } => "failed to read subscription file "@ + path
            + ": "@ + detail,
        SubscriptionFault::Yaml { path, cause } => "failed to parse subscription file "@ + path
            + ": "@ + manifest_fault_text(cause),
        SubscriptionFault::InvalidUrlFile { path } => "subscription URL file "@ + path
            + " is empty or invalid (expected one HTTPS URL)"@,
        SubscriptionFault::FetchStart(detail) => "failed to start the subscription fetcher: "@
            + detail,
        SubscriptionFault::FetchIo(detail) => "failed to communicate with the subscription fetcher: "@
            + detail,
        SubscriptionFault::FetchFailed { detail } => "subscription fetch failed: "@ + detail,
        SubscriptionFault::TooLarge { limit } => "remote subscription exceeds the "@ + decimal(
            limit as nat,
        ) + " byte safety limit"@,
        SubscriptionFault::RemoteYaml => "remote subscription response was not valid YAML"@,
        SubscriptionFault::Cache { path, detail } => "failed to update subscription cache "@ + path
            + ": "@ + detail,
    }
}

impl SubscriptionFault<String> {
    /// The failure in words.
    pub fn message(&self) -> (r: String)
        ensures
            r@ == subscription_fault_text(self@),
    {
        let mut s = String::new();
        match self {
            SubscriptionFault::Io { path, detail } => {
                say(&mut s, "failed to read subscription file ");
                say(&mut s, path.as_str());
                say(&mut s, ": ");
                say(&mut s, detail.as_str());
            },
            SubscriptionFault::Yaml { path, cause } => {
                say(&mut s, "failed to parse subscription file ");
                say(&mut s, path.as_str());
                say(&mut s, ": ");
                match cause {
                    ManifestError::Syntax => {
                        say(&mut s, "the text is not valid YAML");
                    },
                    ManifestError::Shape => {
                        say(&mut s, "the document is not a manifest");
                    },
                }
            },
            SubscriptionFault::InvalidUrlFile { path } => {
                say(&mut s, "subscription URL file ");
                say(&mut s, path.as_str());
                say(&mut s, " is empty or invalid (expected one HTTPS URL)");
            },
            SubscriptionFault::FetchStart(detail) => {
                say(&mut s, "failed to start the subscription fetcher: ");
                say(&mut s, detail.as_str());
            },
            SubscriptionFault::FetchIo(detail) => {
                say(&mut s, "failed to communicate with the subscription fetcher: ");
                say(&mut s, detail.as_str());
            },
            SubscriptionFault::FetchFailed { detail } => {
                say(&mut s, "subscription fetch failed: ");
                say(&mut s, detail.as_str());
            },
            SubscriptionFault::TooLarge { limit } => {
                say(&mut s, "remote subscription exceeds the ");
                let n = decimal_text(*limit);
                say(&mut s, n.as_str());
                say(&mut s, " byte safety limit");
            },
            SubscriptionFault::RemoteYaml => {
                say(&mut s, "remote subscription response was not valid YAML");
            },
            SubscriptionFault::Cache { path, detail } => {
                say(&mut s, "failed to update subscription cache ");
                say(&mut s, path.as_str());
                say(&mut s, ": ");
                say(&mut s, detail.as_str());
            },
        }
        assert(s@ =~= subscription_fault_text(self@));
        s
    }
}

// ---------------------------------------------------------------------------
// Manifests on disk
// ---------------------------------------------------------------------------

/// What reading a file gave.
#[derive(Debug, PartialEq, Eq)]
pub enum FileText<T> {
    Text(T),
    Unreadable(T),
}

impl View for FileText<String> {
    type V = FileText<Seq<char>>;

    open spec fn view(&self) -> FileText<Seq<char>> {
        match self {
            FileText::Text(t) => FileText::Text(t@),
            FileText::Unreadable(t) => FileText::Unreadable(t@),
        }
    }
}

impl Model for FileText<String> {
    fn dup(&self) -> (r: Self) {
        match self {
            FileText::Text(t) => FileText::Text(t.clone()),
            FileText::Unreadable(t) => FileText::Unreadable(t.clone()),
        }
    }
}

/// What reading each path gave. A path that was not read counts as
/// unreadable.
pub type ReadMap = Map<Seq<char>, FileText<Seq<char>>>;

pub open spec fn file_nodes(path: Seq<char>, read: ReadMap) -> Result<
    Seq<NodeView>,
    SubscriptionFaultView,
> {
    if !read.contains_key(path) {
        Err(SubscriptionFault::Io { path, detail: "not read"@ })
    } else {
        match read[path] {
            FileText::Unreadable(detail) => Err(SubscriptionFault::Io { path, detail }),
            FileText::Text(t) => match text_nodes(t) {
                Ok(nodes) => Ok(nodes),
                Err(cause) => Err(SubscriptionFault::Yaml { path, cause }),
            },
        }
    }
}

/// The nodes of one manifest file.
pub fn parse_file(path: &str, read: &NameMap<FileText<String>>) -> (r: Result<
    Vec<Node>,
    SubscriptionError,
>)
    ensures
        match r {
            Ok(nodes) => file_nodes(path@, read@) == Ok::<Seq<NodeView>, SubscriptionFaultView>(
                pool(nodes@),
            ),
            Err(e) => file_nodes(path@, read@) == Err::<Seq<NodeView>, SubscriptionFaultView>(e@),
        },
{
    match read.get(path) {
        None => Err(
            SubscriptionFault::Io { path: path.to_string(), detail: "not read".to_string() },
        ),
        Some(content) => match content {
            FileText::Unreadable(detail) => Err(
                SubscriptionFault::Io { path: path.to_string(), detail: detail.clone() },
            ),
            FileText::Text(t) => match parse_str(t.as_str()) {
                Ok(nodes) => Ok(nodes),
                Err(cause) => Err(SubscriptionFault::Yaml { path: path.to_string(), cause }),
            },
        },
    }
}

/// The nodes of several files: a file that fails adds nothing, and of nodes
/// with one name the first stays.
pub open spec fn all_nodes(paths: Seq<Seq<char>>, read: ReadMap) -> Seq<NodeView>
    decreases paths.len(),
{
    if paths.len() == 0 {
        Seq::empty()
    } else {
        let before = all_nodes(paths.drop_last(), read);
        match file_nodes(paths.last(), read) {
            Ok(nodes) => merged(before, nodes),
            Err(_) => before,
        }
    }
}

/// Load several manifest files, merged. A file that fails is skipped.
pub fn load_all(paths: &Vec<String>, read: &NameMap<FileText<String>>) -> (r: Vec<Node>)
    ensures
        pool(r@) == all_nodes(texts(paths@), read@),
{
    let mut all: Vec<Node> = Vec::new();
    let mut i: usize = 0;
    let ghost ps = texts(paths@);
    assert(ps.take(0) =~= Seq::<Seq<char>>::empty());
    assert(pool(all@) =~= Seq::<NodeView>::empty());
    while i < paths.len()
        invariant
            i <= paths@.len(),
            ps == texts(paths@),
            pool(all@) == all_nodes(ps.take(i as int), read@),
        decreases paths@.len() - i,
    {
        proof {
            assert(ps.take(i + 1).drop_last() =~= ps.take(i as int));
            assert(ps.take(i + 1).last() == paths@[i as int]@);
        }
        match parse_file(paths[i].as_str(), read) {
            Ok(nodes) => {
                merge_nodes(&mut all, nodes);
            },
            Err(_) => {},
        }
        i = i + 1;
    }
    assert(ps.take(paths@.len() as int) =~= ps);
    all
}

/// The files that hold a profile's last snapshot.
pub open spec fn snapshot_paths_of(p: ProfileView, slot: Option<Seq<char>>) -> Seq<Seq<char>> {
    if p.files.len() > 0 {
        p.files
    } else {
        match p.cache_file {
            None => Seq::empty(),
            Some(base) => match slot {
                None => seq![base],
                Some(s) => match cache_slot_of(base, s) {
                    Some(path) => seq![path],
                    None => Seq::empty(),
                },
            },
        }
    }
}

/// The files to read for a profile: its manifests, or the cache generation
/// that the state confirms. Without a confirmed slot it is the plain cache
/// file.
pub fn snapshot_paths(
    profile: &SubscriptionProfileConfig,
    confirmed_slot: Option<&str>,
) -> (r: Vec<String>)
    ensures
        texts(r@) == snapshot_paths_of(profile@, opt_str(confirmed_slot)),
{
    if profile.files.len() > 0 {
        return copy_texts(&profile.files);
    }
    let mut v: Vec<String> = Vec::new();
    if let Some(base) = &profile.cache_file {
        match confirmed_slot {
            None => {
                v.push(base.clone());
            },
            Some(slot) => {
                if let Some(path) = cache_slot_path(base.as_str(), slot) {
                    v.push(path);
                }
            },
        }
    }
    assert(texts(v@) =~= snapshot_paths_of(profile@, opt_str(confirmed_slot)));
    v
}

/// Load a profile without network access.
pub fn load_profile_snapshot_from_slot(
    profile: &SubscriptionProfileConfig,
    confirmed_slot: Option<&str>,
    read: &NameMap<FileText<String>>,
) -> (r: Vec<Node>)
    ensures
        pool(r@) == all_nodes(snapshot_paths_of(profile@, opt_str(confirmed_slot)), read@),
{
    let paths = snapshot_paths(profile, confirmed_slot);
    load_all(&paths, read)
}

// ---------------------------------------------------------------------------
// The subscription URL
// ---------------------------------------------------------------------------

/// What the file system says about the URL file.
#[derive(Debug, Clone, Copy, PartialEq, Eq, Structural)]
pub struct SecretMeta {
    pub regular: bool,
    pub mode: u32,
    pub len: u64,
}

/// One HTTPS URL: something after the scheme, without white space and
/// control characters.
pub open spec fn https_url(s: Seq<char>) -> bool {
    begins(s, "https://"@) && s.len() > "https://"@.len() && forall|i: int|
        0 <= i < s.len() ==> !blank_or_control(#[trigger] s[i])
}

/// What is wrong with the URL file, before anything of it is read: it has to
/// be a regular file of a sane size that nobody else may open.
pub open spec fn secret_problem(
    path: Seq<char>,
    meta: Result<SecretMeta, Seq<char>>,
) -> Option<SubscriptionFaultView> {
    match meta {
        Err(detail) => Some(SubscriptionFault::Io { path, detail }),
        Ok(m) => if !m.regular || m.mode & 0o077 != 0 || m.len > MAX_SUBSCRIPTION_URL_BYTES {
            Some(SubscriptionFault::InvalidUrlFile { path })
        } else {
            None
        },
    }
}

/// The URL in a private file, or why there is none.
pub open spec fn secret_url_of(
    path: Seq<char>,
    meta: Result<SecretMeta, Seq<char>>,
    raw: FileText<Seq<char>>,
) -> Result<Seq<char>, SubscriptionFaultView> {
    match secret_problem(path, meta) {
        Some(fault) => Err(fault),
        None => match raw {
            FileText::Unreadable(detail) => Err(SubscriptionFault::Io { path, detail }),
            FileText::Text(t) => if https_url(trimmed(t)) {
                Ok(trimmed(t))
            } else {
                Err(SubscriptionFault::InvalidUrlFile { path })
            },
        },
    }
}

pub open spec fn meta_view(m: Result<SecretMeta, String>) -> Result<SecretMeta, Seq<char>> {
    match m {
        Ok(m) => Ok(m),
        Err(e) => Err(e@),
    }
}

/// May the URL file be read at all?
pub fn validate_secret_file(path: &str, meta: Result<SecretMeta, String>) -> (r: Result<
    (),
    SubscriptionError,
>)
    ensures
        match r {
            Ok(_) => secret_problem(path@, meta_view(meta)) is None,
            Err(e) => secret_problem(path@, meta_view(meta)) == Some(e@),
        },
{
    let m = match meta {
        Err(detail) => return Err(SubscriptionFault::Io { path: path.to_string(), detail }),
        Ok(m) => m,
    };
    if !m.regular || m.mode & 0o077 != 0 || m.len > MAX_SUBSCRIPTION_URL_BYTES {
        return Err(SubscriptionFault::InvalidUrlFile { path: path.to_string() });
    }
    Ok(())
}

/// Take the subscription URL from its private file.
pub fn secret_url(path: &str, meta: Result<SecretMeta, String>, raw: FileText<String>) -> (r:
    Result<String, SubscriptionError>)
    ensures
        match r {
            Ok(url) => secret_url_of(path@, meta_view(meta), raw@) == Ok::<
                Seq<char>,
                SubscriptionFaultView,
            >(url@),
            Err(e) => secret_url_of(path@, meta_view(meta), raw@) == Err::<
                Seq<char>,
                SubscriptionFaultView,
            >(e@),
        },
{
    match validate_secret_file(path, meta) {
        Err(e) => return Err(e),
        Ok(_) => {},
    }
    match raw {
        FileText::Unreadable(detail) => Err(
            SubscriptionFault::Io { path: path.to_string(), detail },
        ),
        FileText::Text(t) => {
            let url = trim(t.as_str());
            let chars = chars_of(url.as_str());
            proof {
                reveal_strlit("https://");
            }
            if starts_with(url.as_str(), "https://") && chars.len() > 8 && !has_blank_or_control(
                &chars,
            ) {
                Ok(url)
            } else {
                Err(SubscriptionFault::InvalidUrlFile { path: path.to_string() })
            }
        },
    }
}

// ---------------------------------------------------------------------------
// The fetcher
// ---------------------------------------------------------------------------

/// A value inside the double quotes of a curl config: backslashes and quotes
/// get a backslash before them.
pub open spec fn escaped(s: Seq<char>) -> Seq<char>
    decreases s.len(),
{
    if s.len() == 0 {
        Seq::empty()
    } else {
        let c = s.last();
        escaped(s.drop_last()) + if c == '\\' || c == '"' {
            seq!['\\', c]
        } else {
            seq![c]
        }
    }
}

pub fn escape_curl_config(value: &str) -> (r: String)
    ensures
        r@ == escaped(value@),
{
    let chars = chars_of(value);
    let mut r = String::new();
    let mut i: usize = 0;
    assert(value@.take(0) =~= Seq::<char>::empty());
    while i < chars.len()
        invariant
            i <= chars@.len(),
            chars@ == value@,
            r@ == escaped(value@.take(i as int)),
        decreases chars@.len() - i,
    {
        let c: char = chars[i];
        proof {
            let t = value@.take(i + 1);
            assert(t.drop_last() =~= value@.take(i as int));
            assert(t.last() == c);
        }
        let ghost before = r@;
        if c == '\\' || c == '"' {
            r.push('\\');
        }
        r.push(c);
        assert(r@ =~= before + if c == '\\' || c == '"' {
            seq!['\\', c]
        } else {
            seq![c]
        });
        i = i + 1;
    }
    assert(value@.take(chars@.len() as int) =~= value@);
    r
}

/// What the escaped text means once its backslashes are taken off again.
pub open spec fn unescaped(s: Seq<char>) -> Seq<char>
    decreases s.len(),
{
    if s.len() == 0 {
        Seq::empty()
    } else if s[0] == '\\' && s.len() > 1 {
        seq![s[1]] + unescaped(s.skip(2))
    } else {
        seq![s[0]] + unescaped(s.skip(1))
    }
}

proof fn lemma_escaped_front(c: char, s: Seq<char>)
    ensures
        escaped(seq![c] + s) == escaped(seq![c]) + escaped(s),
    decreases s.len(),
{
    let whole = seq![c] + s;
    if s.len() == 0 {
        assert(whole =~= seq![c]);
        assert(escaped(seq![c]) + Seq::<char>::empty() =~= escaped(seq![c]));
    } else {
        lemma_escaped_front(c, s.drop_last());
        assert(whole.drop_last() =~= seq![c] + s.drop_last());
        assert(whole.last() == s.last());
        let tail = if s.last() == '\\' || s.last() == '"' {
            seq!['\\', s.last()]
        } else {
            seq![s.last()]
        };
        assert(escaped(seq![c]) + escaped(s.drop_last()) + tail =~= escaped(seq![c]) + (escaped(
            s.drop_last(),
        ) + tail));
    }
}

/// The fetcher reads back exactly the URL that was escaped.
pub proof fn law_escape_round_trip(s: Seq<char>)
    ensures
        unescaped(escaped(s)) == s,
    decreases s.len(),
{
    if s.len() > 0 {
        let c = s[0];
        let rest = s.skip(1);
        assert(s =~= seq![c] + rest);
        lemma_escaped_front(c, rest);
        law_escape_round_trip(rest);
        let one = seq![c];
        assert(one.drop_last() =~= Seq::<char>::empty());
        let e = escaped(rest);
        let head = if c == '\\' || c == '"' {
            seq!['\\', c]
        } else {
            seq![c]
        };
        assert(escaped(one) =~= head) by {
            reveal_with_fuel(escaped, 2);
        }
        let full = head + e;
        if c == '\\' || c == '"' {
            assert(full.skip(2) =~= e);
        } else {
            assert(full.skip(1) =~= e);
        }
        assert(unescaped(full) =~= seq![c] + rest);
    }
}

/// What is written to the standard input of the fetcher.
pub open spec fn fetcher_config_of(url: Seq<char>) -> Seq<char> {
    "url = \""@ + escaped(url) + "\"\n"@
}

/// The URL goes through standard input, so that it stays out of the process
/// list.
pub fn fetcher_config(url: &str) -> (r: String)
    ensures
        r@ == fetcher_config_of(url@),
{
    let mut s = "url = \"".to_string();
    let e = escape_curl_config(url);
    s.append(e.as_str());
    s.append("\"\n");
    s
}

/// The fetcher's arguments. Proxies are refused: to fetch a replacement
/// through the subscription that it replaces would be circular.
pub open spec fn fetcher_argument_list() -> Seq<Seq<char>> {
    seq![
        "--disable"@,
        "--config"@,
        "-"@,
        "--silent"@,
        "--show-error"@,
        "--fail"@,
        "--location"@,
        "--globoff"@,
        "--proto"@,
        "=https"@,
        "--proto-redir"@,
        "=https"@,
        "--connect-timeout"@,
        "15"@,
        "--max-time"@,
        "60"@,
        "--noproxy"@,
        "*"@,
        "--proxy"@,
        ""@,
    ]
}

pub fn fetcher_arguments() -> (r: Vec<String>)
    ensures
        texts(r@) == fetcher_argument_list(),
{
    let v = vec![
        "--disable".to_string(),
        "--config".to_string(),
        "-".to_string(),
        "--silent".to_string(),
        "--show-error".to_string(),
        "--fail".to_string(),
        "--location".to_string(),
        "--globoff".to_string(),
        "--proto".to_string(),
        "=https".to_string(),
        "--proto-redir".to_string(),
        "=https".to_string(),
        "--connect-timeout".to_string(),
        "15".to_string(),
        "--max-time".to_string(),
        "60".to_string(),
        "--noproxy".to_string(),
        "*".to_string(),
        "--proxy".to_string(),
        "".to_string(),
    ];
    assert(texts(v@) =~= fetcher_argument_list());
    v
}

/// How the fetcher ended.
#[derive(Debug, PartialEq, Eq)]
pub enum FetchEnd<T> {
    Success,
    /// A failed exit, in the words of its status.
    Failure(T),
    /// Waiting for it failed.
    WaitFailed(T),
}

/// The manifest that came back, or why there is none. More than `limit`
/// bytes is too large whatever follows.
pub open spec fn fetch_result(
    received: nat,
    limit: u64,
    end: FetchEnd<Seq<char>>,
    body: Option<Seq<char>>,
) -> Result<Seq<char>, SubscriptionFaultView> {
    if received > limit {
        Err(SubscriptionFault::TooLarge { limit })
    } else {
        match end {
            FetchEnd::WaitFailed(detail) => Err(SubscriptionFault::FetchIo(detail)),
            FetchEnd::Failure(detail) => Err(SubscriptionFault::FetchFailed { detail }),
            FetchEnd::Success => match body {
                Some(t) => Ok(t),
                None => Err(
                    SubscriptionFault::FetchFailed { detail: "response was not UTF-8"@ },
                ),
            },
        }
    }
}

pub open spec fn fetch_end_view(e: FetchEnd<String>) -> FetchEnd<Seq<char>> {
    match e {
        FetchEnd::Success => FetchEnd::Success,
        FetchEnd::Failure(d) => FetchEnd::Failure(d@),
        FetchEnd::WaitFailed(d) => FetchEnd::WaitFailed(d@),
    }
}

/// Judge a fetch. `body` is the response as text, or `None` where its bytes
/// are not UTF-8.
pub fn judge_fetch(
    received: u64,
    limit: u64,
    end: FetchEnd<String>,
    body: Option<String>,
) -> (r: Result<String, SubscriptionError>)
    ensures
        match r {
            Ok(t) => fetch_result(received as nat, limit, fetch_end_view(end), opt_text(body))
                == Ok::<Seq<char>, SubscriptionFaultView>(t@),
            Err(e) => fetch_result(received as nat, limit, fetch_end_view(end), opt_text(body))
                == Err::<Seq<char>, SubscriptionFaultView>(e@),
        },
{
    if received > limit {
        return Err(SubscriptionFault::TooLarge { limit });
    }
    match end {
        FetchEnd::WaitFailed(detail) => Err(SubscriptionFault::FetchIo(detail)),
        FetchEnd::Failure(detail) => Err(SubscriptionFault::FetchFailed { detail }),
        FetchEnd::Success => match body {
            Some(t) => Ok(t),
            None => Err(
                SubscriptionFault::FetchFailed { detail: "response was not UTF-8".to_string() },
            ),
        },
    }
}

// ---------------------------------------------------------------------------
// Prepared profiles
// ---------------------------------------------------------------------------

/// A parsed candidate profile. A remote manifest stays pending until its
/// cache is committed with the rest of the transaction.
pub struct PreparedProfile {
    nodes: Vec<Node>,
    pending_cache: Option<(String, Vec<u8>)>,
    committed_slot: Option<String>,
}

#[verifier::ext_equal]
pub struct PreparedView {
    pub nodes: Seq<NodeView>,
    /// The configured cache path and the bytes to write.
    pub pending: Option<(Seq<char>, Seq<u8>)>,
    pub slot: Option<Seq<char>>,
}

impl View for PreparedProfile {
    type V = PreparedView;

    closed spec fn view(&self) -> PreparedView {
        PreparedView {
            nodes: pool(self.nodes@),
            pending: match self.pending_cache {
                Some(p) => Some((p.0@, p.1@)),
                None => None,
            },
            slot: opt_text(self.committed_slot),
        }
    }
}

/// The slot that the state does not refer to.
pub open spec fn next_slot(confirmed: Option<Seq<char>>) -> Seq<char> {
    if confirmed == Some(CACHE_SLOT_A@) {
        CACHE_SLOT_B@
    } else {
        CACHE_SLOT_A@
    }
}

/// Where a pending cache is written.
pub open spec fn cache_target(p: PreparedView, confirmed: Option<Seq<char>>) -> Option<Seq<char>> {
    match p.pending {
        Some((base, _)) => cache_slot_of(base, next_slot(confirmed)),
        None => None,
    }
}

/// A prepared profile after an attempt to commit its cache.
pub open spec fn after_commit(
    p: PreparedView,
    confirmed: Option<Seq<char>>,
    written: Result<(), SubscriptionFaultView>,
) -> (PreparedView, Result<Option<Seq<char>>, SubscriptionFaultView>) {
    match p.pending {
        None => (p, Ok(None)),
        Some((base, _)) => if cache_target(p, confirmed) is None {
            (
                PreparedView { pending: None, ..p },
                Err(
                    SubscriptionFault::Cache {
                        path: base,
                        detail: "cache path has no file name"@,
                    },
                ),
            )
        } else {
            match written {
                Err(e) => (p, Err(e)),
                Ok(_) => (
                    PreparedView { pending: None, slot: Some(next_slot(confirmed)), ..p },
                    Ok(Some(next_slot(confirmed))),
                ),
            }
        },
    }
}

pub open spec fn written_view(w: Result<(), SubscriptionError>) -> Result<
    (),
    SubscriptionFaultView,
> {
    match w {
        Ok(_) => Ok(()),
        Err(e) => Err(e@),
    }
}

fn other_slot(confirmed: Option<&str>) -> (r: &'static str)
    ensures
        r@ == next_slot(opt_str(confirmed)),
{
    match confirmed {
        Some(slot) => if same(slot, CACHE_SLOT_A) {
            CACHE_SLOT_B
        } else {
            CACHE_SLOT_A
        },
        None => CACHE_SLOT_A,
    }
}

impl PreparedProfile {
    pub fn nodes(&self) -> (r: &Vec<Node>)
        ensures
            pool(r@) == self@.nodes,
    {
        &self.nodes
    }

    pub fn committed_slot(&self) -> (r: Option<&str>)
        ensures
            opt_str(r) == self@.slot,
    {
        crate::text::borrow_opt(&self.committed_slot)
    }

    pub fn into_nodes(self) -> (r: Vec<Node>)
        ensures
            pool(r@) == self@.nodes,
    {
        self.nodes
    }

    /// The path and the bytes that a commit has to write first.
    pub fn pending_write(&self, confirmed_slot: Option<&str>) -> (r: Option<(String, &Vec<u8>)>)
        ensures
            match r {
                Some((path, bytes)) => cache_target(self@, opt_str(confirmed_slot)) == Some(path@)
                    && self@.pending is Some && (self@.pending->0).1 == bytes@,
                None => cache_target(self@, opt_str(confirmed_slot)) is None,
            },
    {
        match &self.pending_cache {
            None => None,
            Some((base, bytes)) => {
                match cache_slot_path(base.as_str(), other_slot(confirmed_slot)) {
                    Some(path) => Some((path, bytes)),
                    None => None,
                }
            },
        }
    }

    /// Commit into the slot that the state does not refer to, given how
    /// writing the pending bytes went. The slot has to reach the state before
    /// the profile goes live.
    pub fn commit_cache_slot(
        &mut self,
        confirmed_slot: Option<&str>,
        written: Result<(), SubscriptionError>,
    ) -> (r: Result<Option<String>, SubscriptionError>)
        ensures
            final(self)@ == after_commit(
                old(self)@,
                opt_str(confirmed_slot),
                written_view(written),
            ).0,
            match r {
                Ok(slot) => after_commit(
                    old(self)@,
                    opt_str(confirmed_slot),
                    written_view(written),
                ).1 == Ok::<Option<Seq<char>>, SubscriptionFaultView>(opt_text(slot)),
                Err(e) => after_commit(
                    old(self)@,
                    opt_str(confirmed_slot),
                    written_view(written),
                ).1 == Err::<Option<Seq<char>>, SubscriptionFaultView>(e@),
            },
    {
        let pending = match &self.pending_cache {
            None => return Ok(None),
            Some((base, _)) => base.clone(),
        };
        let next = other_slot(confirmed_slot);
        if cache_slot_path(pending.as_str(), next).is_none() {
            self.pending_cache = None;
            return Err(
                SubscriptionFault::Cache {
                    path: pending,
                    detail: "cache path has no file name".to_string(),
                },
            );
        }
        if let Err(error) = written {
            return Err(error);
        }
        self.pending_cache = None;
        self.committed_slot = Some(next.to_string());
        Ok(Some(next.to_string()))
    }
}

/// Why a profile could not be prepared.
#[derive(Debug, PartialEq, Eq)]
pub enum PrepareFault<T> {
    NoLocalNodes,
    NoUrlFile,
    NoCacheFile,
    Source(SubscriptionFault<T>),
    NoRemoteNodes,
    TooManyNodes,
}

pub type PrepareError = PrepareFault<String>;

pub type PrepareFaultView = PrepareFault<Seq<char>>;

impl View for PrepareFault<String> {
    type V = PrepareFault<Seq<char>>;

    open spec fn view(&self) -> PrepareFault<Seq<char>> {
        match self {
            PrepareFault::NoLocalNodes => PrepareFault::NoLocalNodes,
            PrepareFault::NoUrlFile => PrepareFault::NoUrlFile,
            PrepareFault::NoCacheFile => PrepareFault::NoCacheFile,
            PrepareFault::Source(e) => PrepareFault::Source(e@),
            PrepareFault::NoRemoteNodes => PrepareFault::NoRemoteNodes,
            PrepareFault::TooManyNodes => PrepareFault::TooManyNodes,
        }
    }
}

pub open spec fn prepare_fault_text(f: PrepareFaultView) -> Seq<char> {
    match f {
        PrepareFault::NoLocalNodes => "no nodes parsed from local subscription profile"@,
        PrepareFault::NoUrlFile => "remote subscription profile has no url_file"@,
        PrepareFault::NoCacheFile => "remote subscription profile has no cache_file"@,
        PrepareFault::Source(e) => subscription_fault_text(e),
        PrepareFault::NoRemoteNodes => "remote subscription contained no supported nodes"@,
        PrepareFault::TooManyNodes => "remote subscription exceeded the supported node-count limit"@,
    }
}

impl PrepareFault<String> {
    /// The failure in words.
    pub fn message(&self) -> (r: String)
        ensures
            r@ == prepare_fault_text(self@),
    {
        match self {
            PrepareFault::NoLocalNodes => "no nodes parsed from local subscription profile".to_string(),
            PrepareFault::NoUrlFile => "remote subscription profile has no url_file".to_string(),
            PrepareFault::NoCacheFile => "remote subscription profile has no cache_file".to_string(),
            PrepareFault::Source(e) => e.message(),
            PrepareFault::NoRemoteNodes => "remote subscription contained no supported nodes".to_string(),
            PrepareFault::TooManyNodes => "remote subscription exceeded the supported node-count limit".to_string(),
        }
    }
}

/// The URL file from which a profile has to be fetched, where it is a
/// complete remote profile.
pub open spec fn fetch_target_of(p: ProfileView) -> Option<Seq<char>> {
    if p.files.len() == 0 && p.cache_file is Some {
        p.url_file
    } else {
        None
    }
}

pub fn fetch_target(profile: &SubscriptionProfileConfig) -> (r: Option<String>)
    ensures
        opt_text(r) == fetch_target_of(profile@),
{
    if profile.files.len() == 0 && profile.cache_file.is_some() {
        copy_opt(&profile.url_file)
    } else {
        None
    }
}

/// The candidate profile for a fetched body.
pub open spec fn remote_prepared(cache: Seq<char>, body: Seq<char>) -> Result<
    PreparedView,
    PrepareFaultView,
> {
    match text_nodes(body) {
        Err(_) => Err(PrepareFault::Source(SubscriptionFault::RemoteYaml)),
        Ok(nodes) => if nodes.len() == 0 {
            Err(PrepareFault::NoRemoteNodes)
        } else if nodes.len() > MAX_PROFILE_NODES {
            Err(PrepareFault::TooManyNodes)
        } else {
            Ok(PreparedView { nodes, pending: Some((cache, encode_utf8(body))), slot: None })
        },
    }
}

/// The candidate profile, from its local manifests or from what was fetched.
pub open spec fn prepared(
    p: ProfileView,
    read: ReadMap,
    fetched: Result<Seq<char>, SubscriptionFaultView>,
) -> Result<PreparedView, PrepareFaultView> {
    if p.files.len() > 0 {
        let nodes = all_nodes(p.files, read);
        if nodes.len() == 0 {
            Err(PrepareFault::NoLocalNodes)
        } else {
            Ok(PreparedView { nodes, pending: None, slot: None })
        }
    } else if p.url_file is None {
        Err(PrepareFault::NoUrlFile)
    } else if p.cache_file is None {
        Err(PrepareFault::NoCacheFile)
    } else {
        match fetched {
            Err(e) => Err(PrepareFault::Source(e)),
            Ok(body) => remote_prepared(p.cache_file->0, body),
        }
    }
}

pub open spec fn fetched_view(f: Result<String, SubscriptionError>) -> Result<
    Seq<char>,
    SubscriptionFaultView,
> {
    match f {
        Ok(t) => Ok(t@),
        Err(e) => Err(e@),
    }
}

pub open spec fn prepared_view(r: Result<PreparedProfile, PrepareError>) -> Result<
    PreparedView,
    PrepareFaultView,
> {
    match r {
        Ok(p) => Ok(p@),
        Err(e) => Err(e@),
    }
}

/// Prepare a profile without changing its cache. `fetched` is the manifest
/// behind the profile's URL; a local profile does not look at it.
pub fn prepare_profile(
    profile: &SubscriptionProfileConfig,
    read: &NameMap<FileText<String>>,
    fetched: Result<String, SubscriptionError>,
) -> (r: Result<PreparedProfile, PrepareError>)
    ensures
        prepared_view(r) == prepared(profile@, read@, fetched_view(fetched)),
{
    if profile.files.len() > 0 {
        let nodes = load_all(&profile.files, read);
        assert(pool(nodes@).len() == nodes@.len());
        if nodes.len() == 0 {
            return Err(PrepareFault::NoLocalNodes);
        }
        return Ok(PreparedProfile { nodes, pending_cache: None, committed_slot: None });
    }
    if profile.url_file.is_none() {
        return Err(PrepareFault::NoUrlFile);
    }
    match &profile.cache_file {
        None => Err(PrepareFault::NoCacheFile),
        Some(cache) => match fetched {
            Err(e) => Err(PrepareFault::Source(e)),
            Ok(body) => prepare_remote(cache.as_str(), body.as_str()),
        },
    }
}

/// Check a fetched manifest and keep its bytes for the cache.
pub fn prepare_remote(cache: &str, body: &str) -> (r: Result<PreparedProfile, PrepareError>)
    ensures
        prepared_view(r) == remote_prepared(cache@, body@),
{
    let nodes = match parse_str(body) {
        Ok(nodes) => nodes,
        Err(_) => return Err(PrepareFault::Source(SubscriptionFault::RemoteYaml)),
    };
    assert(pool(nodes@).len() == nodes@.len());
    if nodes.len() == 0 {
        return Err(PrepareFault::NoRemoteNodes);
    }
    if nodes.len() > MAX_PROFILE_NODES {
        return Err(PrepareFault::TooManyNodes);
    }
    let bytes = slice_to_vec(body.as_bytes());
    Ok(
        PreparedProfile {
            nodes,
            pending_cache: Some((cache.to_string(), bytes)),
            committed_slot: None,
        },
    )
}

// ---------------------------------------------------------------------------
// Writing a cache slot
// ---------------------------------------------------------------------------

/// The steps of a cache write, in this order.
#[derive(Debug, Clone, Copy, PartialEq, Eq, Structural)]
pub enum CacheStep {
    CreateParent,
    /// Create the temporary file anew with mode 0600.
    OpenTemporary,
    WriteTemporary,
    SyncTemporary,
    Rename,
    SyncParent,
}

#[derive(Debug, PartialEq, Eq)]
pub enum CacheProgress<E> {
    Go(CacheStep),
    Finished,
    /// The write failed. The temporary file is removed where it may exist.
    Failed { error: E, remove_temporary: bool },
}

/// The temporary file beside a cache slot; process and sequence number keep
/// it unique.
pub open spec fn cache_temporary_of(path: Seq<char>, pid: u32, seq: u64) -> Seq<char> {
    joined(
        save_parent_of(path),
        ".causeway-subscription-"@ + decimal(pid as nat) + "-"@ + decimal(seq as nat) + ".tmp"@,
    )
}

pub fn cache_temporary(path: &str, pid: u32, seq: u64) -> (r: String)
    ensures
        r@ == cache_temporary_of(path@, pid, seq),
{
    let dir = save_parent(path);
    let mut name = ".causeway-subscription-".to_string();
    let p = decimal_text(pid as u64);
    name.append(p.as_str());
    name.append("-");
    let q = decimal_text(seq);
    name.append(q.as_str());
    name.append(".tmp");
    join(dir.as_str(), name.as_str())
}

pub open spec fn cache_progress(
    path: Seq<char>,
    temporary: Seq<char>,
    step: CacheStep,
    failure: Option<Seq<char>>,
) -> CacheProgress<SubscriptionFaultView> {
    match failure {
        None => match step {
            CacheStep::CreateParent => CacheProgress::Go(CacheStep::OpenTemporary),
            CacheStep::OpenTemporary => CacheProgress::Go(CacheStep::WriteTemporary),
            CacheStep::WriteTemporary => CacheProgress::Go(CacheStep::SyncTemporary),
            CacheStep::SyncTemporary => CacheProgress::Go(CacheStep::Rename),
            CacheStep::Rename => CacheProgress::Go(CacheStep::SyncParent),
            CacheStep::SyncParent => CacheProgress::Finished,
        },
        Some(detail) => CacheProgress::Failed {
            error: SubscriptionFault::Cache {
                path: match step {
                    CacheStep::CreateParent | CacheStep::SyncParent => save_parent_of(path),
                    CacheStep::Rename => path,
                    _ => temporary,
                },
                detail,
            },
            remove_temporary: step != CacheStep::CreateParent,
        },
    }
}

pub open spec fn cache_progress_view(p: CacheProgress<SubscriptionError>) -> CacheProgress<
    SubscriptionFaultView,
> {
    match p {
        CacheProgress::Go(s) => CacheProgress::Go(s),
        CacheProgress::Finished => CacheProgress::Finished,
        CacheProgress::Failed { error, remove_temporary } => CacheProgress::Failed {
            error: error@,
            remove_temporary,
        },
    }
}

/// Decide what follows a step of a cache write, given how it went.
pub fn cache_next(path: &str, temporary: &str, step: CacheStep, failure: Option<String>) -> (r:
    CacheProgress<SubscriptionError>)
    ensures
        cache_progress_view(r) == cache_progress(path@, temporary@, step, opt_text(failure)),
{
    match failure {
        None => match step {
            CacheStep::CreateParent => CacheProgress::Go(CacheStep::OpenTemporary),
            CacheStep::OpenTemporary => CacheProgress::Go(CacheStep::WriteTemporary),
            CacheStep::WriteTemporary => CacheProgress::Go(CacheStep::SyncTemporary),
            CacheStep::SyncTemporary => CacheProgress::Go(CacheStep::Rename),
            CacheStep::Rename => CacheProgress::Go(CacheStep::SyncParent),
            CacheStep::SyncParent => CacheProgress::Finished,
        },
        Some(detail) => {
            let at = match step {
                CacheStep::CreateParent | CacheStep::SyncParent => save_parent(path),
                CacheStep::Rename => path.to_string(),
                _ => temporary.to_string(),
            };
            CacheProgress::Failed {
                error: SubscriptionFault::Cache { path: at, detail },
                remove_temporary: step != CacheStep::CreateParent,
            }
        },
    }
}

// ---------------------------------------------------------------------------
// Laws of the cache slots
// ---------------------------------------------------------------------------

proof fn lemma_joined_end(base: Seq<char>, name: Seq<char>)
    requires
        name.len() > 0,
    ensures
        joined(base, name).len() > 0,
        joined(base, name).last() == name.last(),
{
}

/// A commit never writes over the generation that the state confirms, so the
/// confirmed snapshot survives every interrupted transaction.
pub proof fn law_commit_spares_confirmed_slot(p: PreparedView, confirmed: Seq<char>)
    requires
        p.pending is Some,
    ensures
        next_slot(Some(confirmed)) != confirmed,
        cache_target(p, Some(confirmed)) is Some ==> cache_target(p, Some(confirmed))
            != cache_slot_of((p.pending->0).0, confirmed),
{
    reveal_strlit("a");
    reveal_strlit("b");
    reveal_strlit(".");
    reveal_strlit("causeway-a");
    reveal_strlit("causeway-b");
    assert(CACHE_SLOT_A@[0] == 'a');
    assert(CACHE_SLOT_B@[0] == 'b');
    let base = (p.pending->0).0;
    if crate::paths::file_name_of(base) is Some {
        let n = crate::paths::file_name_of(base)->0;
        let parent = crate::paths::parent_of(base);
        let a = n + "."@ + "causeway-a"@;
        let b = n + "."@ + "causeway-b"@;
        assert(a.last() == 'a');
        assert(b.last() == 'b');
        match parent {
            Some(d) => {
                lemma_joined_end(d, a);
                lemma_joined_end(d, b);
            },
            None => {},
        }
    }
}

/// Two commits in a row use different slots, and the slots alternate.
pub proof fn law_slots_alternate(confirmed: Option<Seq<char>>)
    ensures
        next_slot(Some(next_slot(confirmed))) != next_slot(confirmed),
        next_slot(Some(next_slot(Some(next_slot(confirmed))))) == next_slot(confirmed),
{
    reveal_strlit("a");
    reveal_strlit("b");
    assert(CACHE_SLOT_A@[0] == 'a');
    assert(CACHE_SLOT_B@[0] == 'b');
}

/// A slot that the state names but that is no slot loads nothing: there is no
/// fall back to an unconfirmed cache.
pub proof fn law_invalid_slot_loads_nothing(p: ProfileView, slot: Seq<char>, read: ReadMap)
    requires
        p.files.len() == 0,
        slot != CACHE_SLOT_A@,
        slot != CACHE_SLOT_B@,
    ensures
        all_nodes(snapshot_paths_of(p, Some(slot)), read) == Seq::<NodeView>::empty(),
{
}

/// What a commit of a prepared profile writes is what a snapshot load of the
/// new slot reads: the same nodes come back.
pub proof fn law_committed_snapshot_reads_back(
    p: ProfileView,
    confirmed: Option<Seq<char>>,
    body: Seq<char>,
    read: ReadMap,
)
    requires
        p.files.len() == 0,
        p.cache_file is Some,
        remote_prepared(p.cache_file->0, body) is Ok,
        cache_slot_of(p.cache_file->0, next_slot(confirmed)) is Some,
        ({
            let target = cache_slot_of(p.cache_file->0, next_slot(confirmed))->0;
            read.contains_key(target) && read[target] == FileText::Text(body)
        }),
    ensures
        all_nodes(snapshot_paths_of(p, Some(next_slot(confirmed))), read) == remote_prepared(
            p.cache_file->0,
            body,
        )->Ok_0.nodes,
{
    let target = cache_slot_of(p.cache_file->0, next_slot(confirmed))->0;
    let paths = snapshot_paths_of(p, Some(next_slot(confirmed)));
    assert(paths =~= seq![target]);
    assert(paths.drop_last() =~= Seq::<Seq<char>>::empty());
    reveal_with_fuel(all_nodes, 2);
    law_manifest_names_are_distinct(body);
    lemma_merge_distinct(remote_prepared(p.cache_file->0, body)->Ok_0.nodes);
}

/// The nodes of one manifest text have distinct names.
pub proof fn law_manifest_names_are_distinct(text: Seq<char>)
    ensures
        text_nodes(text) matches Ok(nodes) ==> distinct_names(nodes),
{
    if let Some(t) = yaml_document(text) {
        if let Some(s) = proxies_of(t) {
            law_entry_names_are_distinct(s.map_values(|x: YamlTree| proxy_of(x)));
        }
    }
}

/// However many files are merged, names stay distinct, and what an earlier
/// file gave stays in front.
pub proof fn law_loaded_names_are_distinct(paths: Seq<Seq<char>>, read: ReadMap)
    ensures
        distinct_names(all_nodes(paths, read)),
        paths.len() > 0 ==> ({
            let before = all_nodes(paths.drop_last(), read);
            before.len() <= all_nodes(paths, read).len() && all_nodes(paths, read).take(
                before.len() as int,
            ) == before
        }),
    decreases paths.len(),
{
    if paths.len() > 0 {
        let before = all_nodes(paths.drop_last(), read);
        law_loaded_names_are_distinct(paths.drop_last(), read);
        match file_nodes(paths.last(), read) {
            Ok(nodes) => {
                law_merge_keeps_first(before, nodes);
            },
            Err(_) => {
                assert(before.take(before.len() as int) =~= before);
            },
        }
    }
}

// ---------------------------------------------------------------------------
// What loading and preparing promise
// ---------------------------------------------------------------------------

/// A file was read, is a manifest, and has a node of this name.
pub open spec fn lists(path: Seq<char>, read: ReadMap, name: Seq<char>) -> bool {
    &&& read.contains_key(path)
    &&& read[path] matches FileText::Text(t) && text_nodes(t) matches Ok(nodes)
        && crate::node::named(nodes, name)
}

/// Loading finds exactly the names of the files that can be read, each node
/// in the first file that has its name; a file that cannot be read or parsed
/// is as good as not there.
pub proof fn law_loaded_nodes_are_those_of_the_files(
    paths: Seq<Seq<char>>,
    read: ReadMap,
    name: Seq<char>,
)
    ensures
        crate::node::named(all_nodes(paths, read), name) <==> exists|i: int|
            0 <= i < paths.len() && lists(#[trigger] paths[i], read, name),
        forall|n: NodeView| #[trigger] all_nodes(paths, read).contains(n) ==> exists|i: int|
            0 <= i < paths.len() && lists(#[trigger] paths[i], read, n.name()) && text_nodes(
                read[paths[i]]->Text_0,
            )->Ok_0.contains(n) && forall|j: int|
                0 <= j < i ==> !lists(#[trigger] paths[j], read, n.name()),
    decreases paths.len(),
{
    if paths.len() > 0 {
        let d = paths.drop_last();
        let last = paths.last();
        let before = all_nodes(d, read);
        law_loaded_nodes_are_those_of_the_files(d, read, name);
        law_loaded_names_are_distinct(d, read);
        match file_nodes(last, read) {
            Ok(nodes) => {
                law_merge_keeps_first(before, nodes);
                assert(crate::node::named(merged(before, nodes), name) == (crate::node::named(
                    before,
                    name,
                ) || crate::node::named(nodes, name)));
                assert(lists(last, read, name) == crate::node::named(nodes, name));
            },
            Err(_) => {},
        }
        assert(paths[paths.len() - 1] == last);
        if exists|i: int| 0 <= i < d.len() && lists(#[trigger] d[i], read, name) {
            let i = choose|i: int| 0 <= i < d.len() && lists(#[trigger] d[i], read, name);
            assert(paths[i] == d[i]);
        }
        if exists|i: int| 0 <= i < paths.len() && lists(#[trigger] paths[i], read, name) {
            let i = choose|i: int| 0 <= i < paths.len() && lists(#[trigger] paths[i], read, name);
            if i < d.len() {
                assert(d[i] == paths[i]);
            }
        }
        assert forall|n: NodeView| #[trigger] all_nodes(paths, read).contains(n) implies exists|
            i: int,
        |
            0 <= i < paths.len() && lists(#[trigger] paths[i], read, n.name()) && text_nodes(
                read[paths[i]]->Text_0,
            )->Ok_0.contains(n) && forall|j: int|
                0 <= j < i ==> !lists(#[trigger] paths[j], read, n.name()) by {
            law_loaded_nodes_are_those_of_the_files(d, read, n.name());
            if before.contains(n) {
                let i = choose|i: int|
                    0 <= i < d.len() && lists(#[trigger] d[i], read, n.name()) && text_nodes(
                        read[d[i]]->Text_0,
                    )->Ok_0.contains(n) && forall|j: int|
                        0 <= j < i ==> !lists(#[trigger] d[j], read, n.name());
                assert(paths[i] == d[i]);
                assert forall|j: int| 0 <= j < i implies !lists(
                    #[trigger] paths[j],
                    read,
                    n.name(),
                ) by {
                    assert(paths[j] == d[j]);
                }
            } else {
                let nodes = file_nodes(last, read)->Ok_0;
                let k = all_nodes(paths, read).index_of(n);
                law_merge_keeps_first(before, nodes);
                if k < before.len() {
                    assert(merged(before, nodes).take(before.len() as int)[k] == before[k]);
                    assert(before.contains(n));
                }
                let at = crate::node::name_index(nodes, n.name()) as int;
                crate::node::lemma_name_index(nodes, n.name());
                assert(merged(before, nodes)[k] == n);
                assert(nodes[at] == n);
                assert(nodes.contains(n));
                let i = paths.len() - 1;
                assert(lists(paths[i], read, n.name()));
                if crate::node::named(before, n.name()) {
                    let q = choose|q: int|
                        0 <= q < before.len() && (#[trigger] before[q]).name() == n.name();
                    assert(merged(before, nodes).take(before.len() as int)[q] == before[q]);
                    assert(merged(before, nodes)[q].name() == merged(before, nodes)[k].name());
                    assert(false);
                }
                assert forall|j: int| 0 <= j < i implies !lists(
                    #[trigger] paths[j],
                    read,
                    n.name(),
                ) by {
                    assert(paths[j] == d[j]);
                }
            }
        }
    }
}

/// A profile with local files is prepared from them, whatever was fetched:
/// its nodes are those that loading finds, there is at least one, and nothing
/// goes to the cache.
pub proof fn law_local_profile_is_prepared_from_its_files(
    p: ProfileView,
    read: ReadMap,
    fetched: Result<Seq<char>, SubscriptionFaultView>,
    other: Result<Seq<char>, SubscriptionFaultView>,
)
    requires
        p.files.len() > 0,
    ensures
        prepared(p, read, fetched) == prepared(p, read, other),
        prepared(p, read, fetched) is Ok <==> all_nodes(p.files, read).len() > 0,
        prepared(p, read, fetched) matches Ok(v) ==> v.nodes == all_nodes(p.files, read)
            && v.pending is None && v.slot is None,
        fetch_target_of(p) is None,
{
}

/// A remote profile is prepared from what was fetched, whatever the files hold:
/// the nodes are those of the response, from 1 to 256 of them, and the very
/// bytes of the response wait for the cache of the profile.
pub proof fn law_remote_profile_is_prepared_from_the_response(
    p: ProfileView,
    read: ReadMap,
    other: ReadMap,
    fetched: Result<Seq<char>, SubscriptionFaultView>,
)
    requires
        p.files.len() == 0,
    ensures
        prepared(p, read, fetched) == prepared(p, other, fetched),
        prepared(p, read, fetched) is Ok <==> {
            &&& p.url_file is Some
            &&& p.cache_file is Some
            &&& fetched matches Ok(body) && text_nodes(body) matches Ok(nodes) && 1 <= nodes.len()
                <= 256
        },
        prepared(p, read, fetched) matches Ok(v) ==> {
            &&& fetched matches Ok(body) && text_nodes(body) == Ok::<Seq<NodeView>, ManifestError>(
                v.nodes,
            ) && v.pending == Some((p.cache_file->0, encode_utf8(body)))
            &&& v.slot is None
        },
        p.url_file is Some && p.cache_file is Some ==> fetch_target_of(p) == p.url_file,
{
}

/// A URL file is used only where it is a regular file of at most 8192 bytes
/// that nobody but its owner can touch, and holds one HTTPS address without
/// blanks; what is used is that text without the blanks around it.
pub proof fn law_secret_url(
    path: Seq<char>,
    meta: Result<SecretMeta, Seq<char>>,
    raw: FileText<Seq<char>>,
)
    ensures
        secret_url_of(path, meta, raw) is Ok <==> {
            &&& meta matches Ok(m) && m.regular && m.mode & 0o077 == 0 && m.len <= 8192
            &&& raw matches FileText::Text(t) && {
                let u = trimmed(t);
                &&& u.len() > 8
                &&& u[0] == 'h' && u[1] == 't' && u[2] == 't' && u[3] == 'p' && u[4] == 's'
                &&& u[5] == ':' && u[6] == '/' && u[7] == '/'
                &&& forall|i: int| 0 <= i < u.len() ==> !blank_or_control(#[trigger] u[i])
            }
        },
        secret_url_of(path, meta, raw) matches Ok(u) ==> raw matches FileText::Text(t) && u
            == trimmed(t),
{
    reveal_strlit("https://");
    assert("https://"@.len() == 8);
    assert("https://"@[0] == 'h' && "https://"@[1] == 't' && "https://"@[2] == 't' && "https://"@[3]
        == 'p' && "https://"@[4] == 's' && "https://"@[5] == ':' && "https://"@[6] == '/'
        && "https://"@[7] == '/');
    if raw is Text {
        let u = trimmed(raw->Text_0);
        if u.len() > 8 && u[0] == 'h' && u[1] == 't' && u[2] == 't' && u[3] == 'p' && u[4] == 's'
            && u[5] == ':' && u[6] == '/' && u[7] == '/' {
            assert(u.subrange(0, 8) =~= "https://"@);
        }
    }
}

/// A response counts only where the fetcher succeeded within the limit and the
/// body is text; it is then handed on as it is. More bytes than the limit are
/// refused whatever else happened.
pub proof fn law_fetched_body(
    received: nat,
    limit: u64,
    end: FetchEnd<Seq<char>>,
    body: Option<Seq<char>>,
)
    ensures
        fetch_result(received, limit, end, body) is Ok <==> received <= limit && end is Success
            && body is Some,
        fetch_result(received, limit, end, body) matches Ok(t) ==> body == Some(t),
        received > limit ==> fetch_result(received, limit, end, body) == Err::<
            Seq<char>,
            SubscriptionFaultView,
        >(SubscriptionFault::TooLarge { limit }),
        received <= limit ==> (fetch_result(received, limit, end, body) matches Err(e) ==> !(
        e is TooLarge)),
{
}

/// The fetcher reads one address: what stands between the quotes of its
/// configuration is the address again once escapes are taken back, and every
/// quote between them is escaped.
pub proof fn law_fetcher_reads_one_address(url: Seq<char>)
    ensures
        exists|inner: Seq<char>|
            fetcher_config_of(url) == "url = \""@ + inner + "\"\n"@ && unescaped(inner) == url
                && #[trigger] quotes_escaped(inner),
{
    law_escape_round_trip(url);
    lemma_quotes_escaped(url);
    assert(quotes_escaped(escaped(url)));
}

/// No double quote stands without a backslash right before it.
pub open spec fn quotes_escaped(s: Seq<char>) -> bool {
    forall|i: int| 0 <= i < s.len() && #[trigger] s[i] == '"' ==> i > 0 && s[i - 1] == '\\'
}

proof fn lemma_quotes_escaped(s: Seq<char>)
    ensures
        quotes_escaped(escaped(s)),
    decreases s.len(),
{
    if s.len() > 0 {
        let c = s.last();
        let front = escaped(s.drop_last());
        lemma_quotes_escaped(s.drop_last());
        let all = escaped(s);
        assert forall|i: int| 0 <= i < all.len() && #[trigger] all[i] == '"' implies i > 0 && all[i
            - 1] == '\\' by {
            if i < front.len() {
                assert(front[i] == '"');
                assert(front[i - 1] == all[i - 1]);
            }
        }
    }
}

/// The snapshot of a profile: its files where it has any, else its cache in
/// the confirmed slot, or the plain cache while no slot is confirmed.
pub proof fn law_snapshot_is_the_confirmed_one(p: ProfileView, slot: Seq<char>)
    ensures
        p.files.len() > 0 ==> snapshot_paths_of(p, Some(slot)) == p.files && snapshot_paths_of(
            p,
            None,
        ) == p.files,
        p.files.len() == 0 && p.cache_file is Some ==> snapshot_paths_of(p, None)
            == seq![p.cache_file->0],
        p.files.len() == 0 && p.cache_file is Some && cache_slot_of(p.cache_file->0, slot) is Some
            ==> snapshot_paths_of(p, Some(slot)) == seq![cache_slot_of(p.cache_file->0, slot)->0],
        p.files.len() == 0 && p.cache_file is None ==> snapshot_paths_of(p, Some(slot)).len() == 0
            && snapshot_paths_of(p, None).len() == 0,
{
}

/// A commit of the cache names the slot that is not confirmed, and the target
/// of the write is the file of that slot; the nodes stay what they were. A
/// write that failed leaves the bytes waiting and names no slot.
pub proof fn law_cache_commit(
    p: PreparedView,
    confirmed: Option<Seq<char>>,
    written: Result<(), SubscriptionFaultView>,
)
    ensures
        ({
            let (q, r) = after_commit(p, confirmed, written);
            &&& q.nodes == p.nodes
            &&& r matches Ok(Some(slot)) ==> {
                &&& written is Ok && p.pending is Some && q.pending is None
                &&& q.slot == Some(slot) && (slot == "a"@ || slot == "b"@)
                &&& confirmed != Some(slot)
                &&& cache_target(p, confirmed) is Some
                &&& cache_target(p, confirmed) == cache_slot_of((p.pending->0).0, slot)
            }
            &&& (r is Ok && r->Ok_0 is None) <==> p.pending is None
            &&& p.pending is None ==> q == p
            &&& r is Err ==> q.slot == p.slot
            &&& written is Err && cache_target(p, confirmed) is Some ==> r is Err && q == p
        }),
{
    reveal_strlit("a");
    reveal_strlit("b");
    assert("a"@[0] != "b"@[0]);
}

/// Where a cache write stands after steps that all succeeded.
pub open spec fn cache_step(n: nat) -> CacheStep {
    if n == 0 {
        CacheStep::CreateParent
    } else if n == 1 {
        CacheStep::OpenTemporary
    } else if n == 2 {
        CacheStep::WriteTemporary
    } else if n == 3 {
        CacheStep::SyncTemporary
    } else if n == 4 {
        CacheStep::Rename
    } else {
        CacheStep::SyncParent
    }
}

/// A cache is written in six steps, the old file replaced only once the new
/// one is complete and on disk. A step that fails ends the write; the
/// temporary file is then removed, unless it was never made.
pub proof fn law_cache_write_replaces_last(
    path: Seq<char>,
    temporary: Seq<char>,
    n: nat,
    detail: Seq<char>,
)
    requires
        n < 6,
    ensures
        n < 5 ==> cache_progress(path, temporary, cache_step(n), None) == CacheProgress::<
            SubscriptionFaultView,
        >::Go(cache_step(n + 1)),
        n == 5 ==> cache_progress(path, temporary, cache_step(n), None) is Finished,
        cache_progress(path, temporary, cache_step(n), Some(detail)) matches CacheProgress::Failed {
            error,
            remove_temporary,
        } && (remove_temporary <==> n > 0) && (error matches SubscriptionFault::Cache {
            path: at,
            detail: why,
        } && why == detail && (1 <= n <= 3 ==> at == temporary) && (n == 4 ==> at == path)),
{
}

/// The two slots of a cache lie beside it, under its name and a suffix for
/// each slot.
pub proof fn law_slots_lie_beside_the_cache(d: Seq<char>, n: Seq<char>)
    requires
        crate::paths::clean_dir(d),
        crate::paths::plain_name(n),
    ensures
        cache_slot_of(joined(d, n), "a"@) == Some(joined(d, n + "."@ + "causeway-a"@)),
        cache_slot_of(joined(d, n), "b"@) == Some(joined(d, n + "."@ + "causeway-b"@)),
        cache_slot_of(joined(d, n), "a"@) != cache_slot_of(joined(d, n), "b"@),
{
    reveal_strlit("a");
    reveal_strlit("b");
    reveal_strlit(".");
    reveal_strlit("causeway-a");
    reveal_strlit("causeway-b");
    assert("a"@[0] != "b"@[0]);
    let x = n + "."@ + "causeway-a"@;
    let y = n + "."@ + "causeway-b"@;
    assert(x.len() > 2 && y.len() > 2);
    assert forall|i: int| 0 <= i < x.len() implies #[trigger] x[i] != '/' && y[i] != '/' by {
        if i < n.len() {
            assert(x[i] == n[i] && y[i] == n[i]);
        } else if i > n.len() {
            assert(x[i] == "causeway-a"@[i - n.len() - 1]);
            assert(y[i] == "causeway-b"@[i - n.len() - 1]);
        }
    }
    assert forall|i: int| 0 <= i < y.len() implies #[trigger] y[i] != '/' by {
        assert(x[i] != '/' && y[i] != '/');
    }
    crate::paths::law_join_and_take_apart(d, n, x);
    crate::paths::law_join_and_take_apart(d, n, y);
    crate::paths::law_join_and_take_apart(d, x, y);
    assert(x.last() == 'a' && y.last() == 'b');
}

} // verus!
