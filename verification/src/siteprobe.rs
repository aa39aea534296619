//! Anti-bot freeze awareness: verdicts on whether a site serves a node's exit
//! address.

use vstd::prelude::*;

use crate::digest::say;
use crate::health::StatusProblem;
use crate::names::Model;
use crate::text::{
    after_prefix, ascii_alphanumeric, chars_of, contains_char, copy_opt, decimal, decimal_text,
    find2, is_ascii_alphanumeric, last_position, opt_text, parse_number, parsed, rfind,
    split_whitespace, string_of, strip_prefix, texts, words,
};
use crate::validate::authority;

verus! {

/// Verdict for one (site, node) pair.
#[derive(Debug, Clone, Copy, PartialEq, Eq, Structural)]
pub enum SiteStatus {
    /// The site served the node's exit address normally.
    Served,
    /// The site explicitly refused the node's exit address.
    Blocked,
    /// Timeout, connection failure, or an ambiguous status.
    Unknown,
}

impl SiteStatus {
    pub open spec fn text(self) -> Seq<char> {
        match self {
            SiteStatus::Served => "ok"@,
            SiteStatus::Blocked => "blocked"@,
            SiteStatus::Unknown => "unknown"@,
        }
    }

    pub fn as_str(self) -> (r: &'static str)
        ensures
            r@ == self.text(),
    {
        match self {
            SiteStatus::Served => "ok",
            SiteStatus::Blocked => "blocked",
            SiteStatus::Unknown => "unknown",
        }
    }
}

/// Recorded per (site, node) in the state file.
#[derive(Debug, PartialEq, Eq)]
pub struct SiteVerdict {
    pub status: SiteStatus,
    /// HTTP status code observed on the TLS leg, when one was reached.
    pub http_status: Option<u16>,
    pub checked_unix: i64,
    /// Transport-level detail for unknown verdicts.
    pub detail: Option<String>,
}

#[verifier::ext_equal]
pub struct SiteVerdictView {
    pub status: SiteStatus,
    pub http_status: Option<u16>,
    pub checked_unix: i64,
    pub detail: Option<Seq<char>>,
}

impl View for SiteVerdict {
    type V = SiteVerdictView;

    open spec fn view(&self) -> SiteVerdictView {
        SiteVerdictView {
            status: self.status,
            http_status: self.http_status,
            checked_unix: self.checked_unix,
            detail: opt_text(self.detail),
        }
    }
}

impl Model for SiteVerdict {
    fn dup(&self) -> (r: Self) {
        SiteVerdict {
            status: self.status,
            http_status: self.http_status,
            checked_unix: self.checked_unix,
            detail: copy_opt(&self.detail),
        }
    }
}

/// Success and redirects are served; 401, 403, 429 and 451 are refusals; all
/// else is ambiguous.
pub open spec fn status_class(code: u16) -> SiteStatus {
    if 200 <= code <= 399 {
        SiteStatus::Served
    } else if code == 401 || code == 403 || code == 429 || code == 451 {
        SiteStatus::Blocked
    } else {
        SiteStatus::Unknown
    }
}

/// Classify an HTTPS status from the site.
pub fn classify_status(code: u16) -> (s: SiteStatus)
    ensures
        s == status_class(code),
{
    if 200 <= code && code <= 399 {
        SiteStatus::Served
    } else if code == 401 || code == 403 || code == 429 || code == 451 {
        SiteStatus::Blocked
    } else {
        SiteStatus::Unknown
    }
}

// ---------------------------------------------------------------------------
// Site URLs
// ---------------------------------------------------------------------------

/// Why a site URL is refused.
#[derive(Debug, Clone, Copy, PartialEq, Eq, Structural)]
pub enum SiteUrlProblem {
    NotHttps,
    BadAuthority,
    BadPort,
    BadHost,
    BadServerName,
}

pub open spec fn site_url_problem_text(p: SiteUrlProblem) -> Seq<char> {
    match p {
        SiteUrlProblem::NotHttps => "site probe URL must be https://"@,
        SiteUrlProblem::BadAuthority => "invalid site probe authority"@,
        SiteUrlProblem::BadPort => "invalid site probe port"@,
        SiteUrlProblem::BadHost => "invalid site probe host"@,
        SiteUrlProblem::BadServerName => "invalid server name"@,
    }
}

impl SiteUrlProblem {
    pub fn message(&self) -> (r: &'static str)
        ensures
            r@ == site_url_problem_text(*self),
    {
        match self {
            SiteUrlProblem::NotHttps => "site probe URL must be https://",
            SiteUrlProblem::BadAuthority => "invalid site probe authority",
            SiteUrlProblem::BadPort => "invalid site probe port",
            SiteUrlProblem::BadHost => "invalid site probe host",
            SiteUrlProblem::BadServerName => "invalid server name",
        }
    }
}

/// Where a site probe goes.
#[derive(Debug, PartialEq, Eq)]
pub struct SiteTarget<T = String> {
    pub host: T,
    pub port: u16,
    /// The request target: path and query.
    pub target: T,
}

pub open spec fn site_view(t: SiteTarget) -> SiteTarget<Seq<char>> {
    SiteTarget { host: t.host@, port: t.port, target: t.target@ }
}

pub open spec fn site_result(r: Result<SiteTarget, SiteUrlProblem>) -> Result<
    SiteTarget<Seq<char>>,
    SiteUrlProblem,
> {
    match r {
        Ok(t) => Ok(site_view(t)),
        Err(e) => Err(e),
    }
}

pub open spec fn plain_host(host: Seq<char>) -> bool {
    host.len() > 0 && forall|i: int|
        0 <= i < host.len() ==> ascii_alphanumeric(#[trigger] host[i]) || host[i] == '-' || host[i]
            == '.'
}

/// The host and the port of an authority; the port defaults to 443.
pub open spec fn host_and_port(auth: Seq<char>) -> Result<(Seq<char>, u16), SiteUrlProblem> {
    let at = last_position(auth, ':');
    if at < 0 {
        Ok((auth, 443))
    } else {
        match parsed(auth.skip(at + 1), 10, 65535) {
            Some(port) => Ok((auth.take(at), port as u16)),
            None => Err(SiteUrlProblem::BadPort),
        }
    }
}

/// The parts of an `https://` URL, up to the check of the server name.
pub open spec fn https_parts_of(url: Seq<char>) -> Result<SiteTarget<Seq<char>>, SiteUrlProblem> {
    match after_prefix(url, "https://"@) {
        None => Err(SiteUrlProblem::NotHttps),
        Some(rest) => {
            let auth = authority(rest);
            if auth.len() == 0 || auth.contains('@') {
                Err(SiteUrlProblem::BadAuthority)
            } else {
                match host_and_port(auth) {
                    Err(e) => Err(e),
                    Ok((host, port)) => if !plain_host(host) {
                        Err(SiteUrlProblem::BadHost)
                    } else {
                        Ok(
                            SiteTarget {
                                host,
                                port,
                                target: if auth.len() == rest.len() {
                                    "/"@
                                } else {
                                    rest.skip(auth.len() as int)
                                },
                            },
                        )
                    },
                }
            }
        },
    }
}

fn is_plain_host(host: &str) -> (r: bool)
    ensures
        r == plain_host(host@),
{
    let v = chars_of(host);
    if v.len() == 0 {
        return false;
    }
    let mut i: usize = 0;
    while i < v.len()
        invariant
            i <= v@.len(),
            v@ == host@,
            forall|j: int|
                0 <= j < i ==> ascii_alphanumeric(#[trigger] host@[j]) || host@[j] == '-'
                    || host@[j] == '.',
        decreases v@.len() - i,
    {
        if !is_ascii_alphanumeric(v[i]) && v[i] != '-' && v[i] != '.' {
            assert(!ascii_alphanumeric(host@[i as int]));
            return false;
        }
        i = i + 1;
    }
    true
}

fn split_host_and_port(auth: &str) -> (r: Result<(String, u16), SiteUrlProblem>)
    ensures
        match r {
            Ok((host, port)) => host_and_port(auth@) == Ok::<(Seq<char>, u16), SiteUrlProblem>(
                (host@, port),
            ),
            Err(e) => host_and_port(auth@) == Err::<(Seq<char>, u16), SiteUrlProblem>(e),
        },
{
    let v = chars_of(auth);
    match rfind(&v, ':') {
        None => Ok((auth.to_string(), 443)),
        Some(at) => {
            let host = string_of(&v, 0, at);
            let port = string_of(&v, at + 1, v.len());
            assert(host@ =~= auth@.take(at as int));
            assert(port@ =~= auth@.skip(at + 1));
            match parse_number(port.as_str(), 10, 65535) {
                Some(n) => Ok((host, n as u16)),
                None => Err(SiteUrlProblem::BadPort),
            }
        },
    }
}

/// Split an `https://` URL; the server name is not checked yet.
pub fn https_parts(url: &str) -> (r: Result<SiteTarget, SiteUrlProblem>)
    ensures
        site_result(r) == https_parts_of(url@),
{
    let rest = match strip_prefix(url, "https://") {
        Some(rest) => rest,
        None => return Err(SiteUrlProblem::NotHttps),
    };
    let w = chars_of(rest.as_str());
    let n: usize = find2(&w, '/', '?');
    let auth = string_of(&w, 0, n);
    assert(auth@ =~= authority(rest@));
    let a = chars_of(auth.as_str());
    if a.len() == 0 || contains_char(&a, '@') {
        return Err(SiteUrlProblem::BadAuthority);
    }
    let (host, port) = match split_host_and_port(auth.as_str()) {
        Ok(p) => p,
        Err(e) => return Err(e),
    };
    if !is_plain_host(host.as_str()) {
        return Err(SiteUrlProblem::BadHost);
    }
    let target = if n == w.len() {
        "/".to_string()
    } else {
        let t = string_of(&w, n, w.len());
        assert(t@ =~= rest@.skip(auth@.len() as int));
        t
    };
    Ok(SiteTarget { host, port, target })
}

/// Does `rustls::pki_types::ServerName::try_from` take this text?
pub uninterp spec fn server_name_accepts(host: Seq<char>) -> bool;

/// `rustls::pki_types::ServerName::try_from`: whether the text is a DNS name
/// or an IP address that a TLS client may present. Which texts those are is
/// left to its name.
#[verifier::external_body]
pub(crate) fn is_server_name(host: &str) -> (r: bool)
    ensures
        r == server_name_accepts(host@),
{
    rustls::pki_types::ServerName::try_from(host.to_string()).is_ok()
}

/// The target of a site URL once the verdict on its server name is known.
pub fn named_target(parts: SiteTarget, accepted: bool) -> (r: Result<SiteTarget, SiteUrlProblem>)
    ensures
        match r {
            Ok(t) => accepted && t == parts,
            Err(e) => !accepted && e == SiteUrlProblem::BadServerName,
        },
{
    if accepted {
        Ok(parts)
    } else {
        Err(SiteUrlProblem::BadServerName)
    }
}

/// The target of a site URL.
pub open spec fn site_target_of(url: Seq<char>) -> Result<SiteTarget<Seq<char>>, SiteUrlProblem> {
    match https_parts_of(url) {
        Err(e) => Err(e),
        Ok(t) => if server_name_accepts(t.host) {
            Ok(t)
        } else {
            Err(SiteUrlProblem::BadServerName)
        },
    }
}

pub fn split_https_url(url: &str) -> (r: Result<SiteTarget, SiteUrlProblem>)
    ensures
        site_result(r) == site_target_of(url@),
{
    let parts = match https_parts(url) {
        Ok(t) => t,
        Err(e) => return Err(e),
    };
    let accepted = is_server_name(parts.host.as_str());
    named_target(parts, accepted)
}

// ---------------------------------------------------------------------------
// The conversation
// ---------------------------------------------------------------------------

pub open spec fn connect_text(host: Seq<char>, port: u16) -> Seq<char> {
    let at = host + ":"@ + decimal(port as nat);
    "CONNECT "@ + at + " HTTP/1.1\r\nHost: "@ + at + "\r\n\r\n"@
}

/// The request that opens the tunnel.
pub fn connect_request(target: &SiteTarget) -> (r: String)
    ensures
        r@ == connect_text(target.host@, target.port),
{
    let mut at = target.host.clone();
    say(&mut at, ":");
    let p = decimal_text(target.port as u64);
    say(&mut at, p.as_str());
    let mut s = "CONNECT ".to_string();
    say(&mut s, at.as_str());
    say(&mut s, " HTTP/1.1\r\nHost: ");
    say(&mut s, at.as_str());
    say(&mut s, "\r\n\r\n");
    s
}

pub open spec fn get_text(host: Seq<char>, target: Seq<char>, user_agent: Seq<char>) -> Seq<char> {
    "GET "@ + target + " HTTP/1.1\r\nHost: "@ + host + "\r\nUser-Agent: "@ + user_agent
        + "\r\nAccept: */*\r\nConnection: close\r\n\r\n"@
}

/// The request inside the tunnel.
pub fn get_request(target: &SiteTarget, user_agent: &str) -> (r: String)
    ensures
        r@ == get_text(target.host@, target.target@, user_agent@),
{
    let mut s = "GET ".to_string();
    say(&mut s, target.target.as_str());
    say(&mut s, " HTTP/1.1\r\nHost: ");
    say(&mut s, target.host.as_str());
    say(&mut s, "\r\nUser-Agent: ");
    say(&mut s, user_agent);
    say(&mut s, "\r\nAccept: */*\r\nConnection: close\r\n\r\n");
    s
}

/// The second word of a status line is its code.
pub open spec fn line_code(line: Seq<char>) -> Result<u16, StatusProblem> {
    let parts = words(line);
    if parts.len() < 2 {
        Err(StatusProblem::NoCode)
    } else {
        match parsed(parts[1], 10, 65535) {
            Some(n) => Ok(n as u16),
            None => Err(StatusProblem::CodeNotNumeric),
        }
    }
}

pub fn read_line_code(line: &str) -> (r: Result<u16, StatusProblem>)
    ensures
        r == line_code(line@),
{
    let parts = split_whitespace(line);
    let ghost ps = texts(parts@);
    assert(ps == words(line@));
    if parts.len() < 2 {
        return Err(StatusProblem::NoCode);
    }
    assert(ps[1] == parts@[1]@);
    match parse_number(parts[1].as_str(), 10, 65535) {
        Some(n) => Ok(n as u16),
        None => Err(StatusProblem::CodeNotNumeric),
    }
}

/// Why the proxy's answer to CONNECT ends the probe; `None` where the tunnel
/// is open.
pub open spec fn tunnel_problem(code: u16) -> Option<Seq<char>> {
    if code == 200 {
        None
    } else {
        Some("proxy CONNECT returned HTTP "@ + decimal(code as nat))
    }
}

pub fn tunnel_refusal(code: u16) -> (r: Option<String>)
    ensures
        opt_text(r) == tunnel_problem(code),
{
    if code == 200 {
        return None;
    }
    let mut s = "proxy CONNECT returned HTTP ".to_string();
    let n = decimal_text(code as u64);
    say(&mut s, n.as_str());
    Some(s)
}

/// How the question to a site through one node ended.
pub enum SiteAttempt<T = String> {
    /// No local ports were to be had.
    NoPorts(T),
    /// The adapter did not start.
    NotStarted(T),
    /// The site answered with a status.
    Answered(u16),
    Failed(T),
}

pub open spec fn attempt_view(a: SiteAttempt) -> SiteAttempt<Seq<char>> {
    match a {
        SiteAttempt::NoPorts(e) => SiteAttempt::NoPorts(e@),
        SiteAttempt::NotStarted(e) => SiteAttempt::NotStarted(e@),
        SiteAttempt::Answered(code) => SiteAttempt::Answered(code),
        SiteAttempt::Failed(e) => SiteAttempt::Failed(e@),
    }
}

pub open spec fn unknown_verdict(now: i64, detail: Seq<char>) -> SiteVerdictView {
    SiteVerdictView {
        status: SiteStatus::Unknown,
        http_status: None,
        checked_unix: now,
        detail: Some(detail),
    }
}

/// The verdict of one probe: a status is classified, a failure is unknown.
pub open spec fn verdict_of(now: i64, attempt: SiteAttempt<Seq<char>>) -> SiteVerdictView {
    match attempt {
        SiteAttempt::NoPorts(e) => unknown_verdict(now, "reserve adapter ports: "@ + e),
        SiteAttempt::NotStarted(e) => unknown_verdict(now, "start data plane: "@ + e),
        SiteAttempt::Answered(code) => SiteVerdictView {
            status: status_class(code),
            http_status: Some(code),
            checked_unix: now,
            detail: None,
        },
        SiteAttempt::Failed(e) => unknown_verdict(now, e),
    }
}

pub fn site_verdict(now: i64, attempt: SiteAttempt) -> (r: SiteVerdict)
    ensures
        r@ == verdict_of(now, attempt_view(attempt)),
{
    let detail = match attempt {
        SiteAttempt::Answered(code) => return SiteVerdict {
            status: classify_status(code),
            http_status: Some(code),
            checked_unix: now,
            detail: None,
        },
        SiteAttempt::NoPorts(e) => {
            let mut s = "reserve adapter ports: ".to_string();
            say(&mut s, e.as_str());
            s
        },
        SiteAttempt::NotStarted(e) => {
            let mut s = "start data plane: ".to_string();
            say(&mut s, e.as_str());
            s
        },
        SiteAttempt::Failed(e) => e,
    };
    SiteVerdict {
        status: SiteStatus::Unknown,
        http_status: None,
        checked_unix: now,
        detail: Some(detail),
    }
}

/// A failure to reach a site never counts as a refusal.
pub proof fn law_only_the_site_can_refuse(now: i64, attempt: SiteAttempt<Seq<char>>)
    ensures
        verdict_of(now, attempt).status == SiteStatus::Blocked ==> (attempt matches
            SiteAttempt::Answered(code) && (code == 401 || code == 403 || code == 429 || code
            == 451)),
        verdict_of(now, attempt).status == SiteStatus::Served ==> (attempt matches
            SiteAttempt::Answered(code) && 200 <= code <= 399),
{
}

/// An address says where to connect: the host before the port, the port that
/// is written or 443, and everything behind them as the target, or the root.
pub proof fn law_site_address_round_trip(host: Seq<char>, port: u16, tail: Seq<char>)
    requires
        plain_host(host),
        tail.len() == 0 || tail[0] == '/' || tail[0] == '?',
    ensures
        ({
            let target = if tail.len() == 0 {
                "/"@
            } else {
                tail
            };
            &&& https_parts_of("https://"@ + (host + ":"@ + decimal(port as nat) + tail)) == Ok::<
                SiteTarget<Seq<char>>,
                SiteUrlProblem,
            >(SiteTarget { host, port, target })
            &&& https_parts_of("https://"@ + (host + tail)) == Ok::<
                SiteTarget<Seq<char>>,
                SiteUrlProblem,
            >(SiteTarget { host, port: 443, target })
        }),
{
    reveal_strlit(":");
    let digits = decimal(port as nat);
    let full = host + ":"@ + digits;
    crate::text::lemma_decimal(port as nat);
    crate::text::lemma_decimal_parses(port as nat, 65535);
    assert forall|i: int| 0 <= i < host.len() implies #[trigger] host[i] != '/' && host[i] != '?'
        && host[i] != '@' && host[i] != ':' by {
        assert(ascii_alphanumeric(host[i]) || host[i] == '-' || host[i] == '.');
    }
    assert forall|i: int| 0 <= i < full.len() implies #[trigger] full[i] != '/' && full[i] != '?'
        && full[i] != '@' by {
        if i < host.len() {
            assert(full[i] == host[i]);
        } else if i > host.len() {
            assert(full[i] == digits[i - host.len() - 1]);
            assert(crate::text::ascii_digit(digits[i - host.len() - 1]));
        }
    }
    lemma_parts(full, tail);
    lemma_parts(host, tail);
    crate::text::lemma_last_position(full, ':');
    crate::text::lemma_last_position(host, ':');
    let at = last_position(full, ':');
    assert(full[host.len() as int] == ':');
    assert(at == host.len()) by {
        if at > host.len() {
            assert(full[at] == digits[at - host.len() - 1]);
            assert(crate::text::ascii_digit(digits[at - host.len() - 1]));
        }
    }
    assert(full.skip(at + 1) =~= digits);
    assert(full.take(at) =~= host);
    assert(!full.contains('@'));
    assert(!host.contains('@'));
    assert(last_position(host, ':') < 0) by {
        let q = last_position(host, ':');
        if q >= 0 {
            assert(host[q] == ':');
        }
    }
    assert(host_and_port(full) == Ok::<(Seq<char>, u16), SiteUrlProblem>((host, port)));
    assert(host_and_port(host) == Ok::<(Seq<char>, u16), SiteUrlProblem>((host, 443)));
    assert(host + ":"@ + decimal(port as nat) + tail == full + tail);
}

proof fn lemma_parts(auth: Seq<char>, tail: Seq<char>)
    requires
        tail.len() == 0 || tail[0] == '/' || tail[0] == '?',
        forall|i: int| 0 <= i < auth.len() ==> #[trigger] auth[i] != '/' && auth[i] != '?',
    ensures
        after_prefix("https://"@ + (auth + tail), "https://"@) == Some(auth + tail),
        authority(auth + tail) == auth,
        (auth + tail).skip(auth.len() as int) == tail,
{
    crate::text::lemma_after_prefix("https://"@, auth + tail);
    let rest = auth + tail;
    assert forall|j: int| 0 <= j < auth.len() implies #[trigger] rest[j] != '/' && rest[j] != '?' by {
        assert(rest[j] == auth[j]);
    }
    if tail.len() > 0 {
        assert(rest[auth.len() as int] == tail[0]);
    }
    crate::text::lemma_position2_is(rest, '/', '?', auth.len() as int);
    assert(rest.take(auth.len() as int) =~= auth);
    assert(rest.skip(auth.len() as int) =~= tail);
}

/// A verdict is of the time it was made: an answer keeps its code, from 200 to
/// 399 the site serves, 401, 403, 429 and 451 are refusals, and any other code
/// says nothing; without an answer nothing is known, and the reason is kept.
pub proof fn law_verdicts_keep_the_answer(now: i64, attempt: SiteAttempt<Seq<char>>)
    ensures
        verdict_of(now, attempt).checked_unix == now,
        attempt matches SiteAttempt::Answered(code) ==> {
            let v = verdict_of(now, attempt);
            &&& v.http_status == Some(code) && v.detail is None
            &&& v.status is Served <==> 200 <= code <= 399
            &&& v.status is Blocked <==> code == 401 || code == 403 || code == 429 || code == 451
        },
        !(attempt is Answered) ==> verdict_of(now, attempt).status is Unknown && verdict_of(
            now,
            attempt,
        ).http_status is None && verdict_of(now, attempt).detail is Some,
        attempt matches SiteAttempt::Failed(e) ==> verdict_of(now, attempt).detail == Some(e),
{
}

/// A tunnel stands exactly with a 200.
pub proof fn law_tunnel_needs_a_200(code: u16)
    ensures
        tunnel_problem(code) is None <==> code == 200,
{
}

/// The second word of a status line is the code; a line with fewer words, or
/// with something else there, has none.
pub proof fn law_line_code(line: Seq<char>, code: u16)
    ensures
        words(line).len() >= 2 && words(line)[1] == decimal(code as nat) ==> line_code(line) == Ok::<
            u16,
            StatusProblem,
        >(code),
        words(line).len() < 2 ==> line_code(line) is Err,
{
    crate::text::lemma_decimal_parses(code as nat, 65535);
}

} // verus!
