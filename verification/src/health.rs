//! Health checks: a plaintext GET through the whole path, or a CONNECT tunnel
//! that has to answer a probe.

use vstd::prelude::*;

use crate::digest::say;
use crate::text::{
    after_prefix, blank_or_control, chars_of, contains_char, find2, has_blank_or_control,
    last_position, lemma_last_position, parse_number, parsed, rfind, split_whitespace, starts_with,
    string_of, strip_prefix, words,
};
use crate::validate::{authority, health_url};

verus! {

/// Why a health target is refused.
#[derive(Debug, Clone, Copy, PartialEq, Eq, Structural)]
pub enum TargetProblem {
    NotPlaintext,
    InvalidUrl,
    NotConnect,
    InvalidConnect,
    PortNotNumeric,
    PortZero,
    NoHost,
    ExtraColons,
}

pub open spec fn target_problem_text(p: TargetProblem) -> Seq<char> {
    match p {
        TargetProblem::NotPlaintext => "health check URL must be plaintext http://"@,
        TargetProblem::InvalidUrl => "invalid health check URL"@,
        TargetProblem::NotConnect => "connect target must start with connect://"@,
        TargetProblem::InvalidConnect => "invalid connect target"@,
        TargetProblem::PortNotNumeric => "connect target port must be numeric"@,
        TargetProblem::PortZero => "connect target port must be nonzero"@,
        TargetProblem::NoHost => "connect target must name a host, not just a port"@,
        TargetProblem::ExtraColons => "connect target must be host:port (or a bare host); extra colons are rejected"@,
    }
}

impl TargetProblem {
    pub fn message(&self) -> (r: &'static str)
        ensures
            r@ == target_problem_text(*self),
    {
        match self {
            TargetProblem::NotPlaintext => "health check URL must be plaintext http://",
            TargetProblem::InvalidUrl => "invalid health check URL",
            TargetProblem::NotConnect => "connect target must start with connect://",
            TargetProblem::InvalidConnect => "invalid connect target",
            TargetProblem::PortNotNumeric => "connect target port must be numeric",
            TargetProblem::PortZero => "connect target port must be nonzero",
            TargetProblem::NoHost => "connect target must name a host, not just a port",
            TargetProblem::ExtraColons => "connect target must be host:port (or a bare host); extra colons are rejected",
        }
    }
}

/// The Host value and the request path of `http://host[:port]/path`.
pub open spec fn url_parts(url: Seq<char>) -> Result<(Seq<char>, Seq<char>), TargetProblem> {
    match after_prefix(url, "http://"@) {
        None => Err(TargetProblem::NotPlaintext),
        Some(rest) => {
            let host = authority(rest);
            if host.len() == 0 || host.contains('@') || url.contains('#') || (exists|i: int|
                0 <= i < url.len() && blank_or_control(#[trigger] url[i])) {
                Err(TargetProblem::InvalidUrl)
            } else if host.len() == rest.len() {
                Ok((host, "/"@))
            } else {
                Ok((host, rest.skip(host.len() as int)))
            }
        },
    }
}

pub open spec fn pair_view(r: Result<(String, String), TargetProblem>) -> Result<
    (Seq<char>, Seq<char>),
    TargetProblem,
> {
    match r {
        Ok((a, b)) => Ok((a@, b@)),
        Err(e) => Err(e),
    }
}

pub fn split_url(url: &str) -> (r: Result<(String, String), TargetProblem>)
    ensures
        pair_view(r) == url_parts(url@),
{
    let rest = match strip_prefix(url, "http://") {
        Some(rest) => rest,
        None => return Err(TargetProblem::NotPlaintext),
    };
    let all = chars_of(url);
    let w = chars_of(rest.as_str());
    let n: usize = find2(&w, '/', '?');
    let host = string_of(&w, 0, n);
    assert(host@ =~= authority(rest@));
    let h = chars_of(host.as_str());
    if h.len() == 0 || contains_char(&h, '@') || contains_char(&all, '#') || has_blank_or_control(
        &all,
    ) {
        return Err(TargetProblem::InvalidUrl);
    }
    if n == w.len() {
        Ok((host, "/".to_string()))
    } else {
        let path = string_of(&w, n, w.len());
        assert(path@ =~= rest@.skip(host@.len() as int));
        Ok((host, path))
    }
}

/// The CONNECT authority of `connect://host[:port]`; the port defaults to
/// 443.
pub open spec fn connect_authority(url: Seq<char>) -> Result<Seq<char>, TargetProblem> {
    match after_prefix(url, "connect://"@) {
        None => Err(TargetProblem::NotConnect),
        Some(rest) => if rest.len() == 0 || rest.contains('/') || rest.contains('?')
            || rest.contains('#') || rest.contains('@') || (exists|i: int|
            0 <= i < rest.len() && blank_or_control(#[trigger] rest[i])) {
            Err(TargetProblem::InvalidConnect)
        } else if !rest.contains(':') {
            Ok(rest + ":443"@)
        } else {
            let at = last_position(rest, ':');
            let host = rest.take(at);
            match parsed(rest.skip(at + 1), 10, 65535) {
                None => Err(TargetProblem::PortNotNumeric),
                Some(port) => if port == 0 {
                    Err(TargetProblem::PortZero)
                } else if host.len() == 0 {
                    Err(TargetProblem::NoHost)
                } else if host.contains(':') {
                    Err(TargetProblem::ExtraColons)
                } else {
                    Ok(rest)
                },
            }
        },
    }
}

pub open spec fn text_view(r: Result<String, TargetProblem>) -> Result<Seq<char>, TargetProblem> {
    match r {
        Ok(t) => Ok(t@),
        Err(e) => Err(e),
    }
}

pub fn split_connect_target(url: &str) -> (r: Result<String, TargetProblem>)
    ensures
        text_view(r) == connect_authority(url@),
{
    let rest = match strip_prefix(url, "connect://") {
        Some(rest) => rest,
        None => return Err(TargetProblem::NotConnect),
    };
    let v = chars_of(rest.as_str());
    if v.len() == 0 || contains_char(&v, '/') || contains_char(&v, '?') || contains_char(&v, '#')
        || contains_char(&v, '@') || has_blank_or_control(&v) {
        return Err(TargetProblem::InvalidConnect);
    }
    proof {
        lemma_last_position(rest@, ':');
    }
    match rfind(&v, ':') {
        None => {
            assert(!rest@.contains(':')) by {
                if rest@.contains(':') {
                    let i = rest@.index_of(':');
                    assert(rest@[i] == ':');
                }
            }
            let mut r = rest;
            r.append(":443");
            Ok(r)
        },
        Some(at) => {
            assert(rest@[at as int] == ':');
            let host = string_of(&v, 0, at);
            let port = string_of(&v, at + 1, v.len());
            assert(host@ =~= rest@.take(at as int));
            assert(port@ =~= rest@.skip(at + 1));
            let n: u64 = match parse_number(port.as_str(), 10, 65535) {
                Some(n) => n,
                None => return Err(TargetProblem::PortNotNumeric),
            };
            let h = chars_of(host.as_str());
            if n == 0 {
                Err(TargetProblem::PortZero)
            } else if h.len() == 0 {
                Err(TargetProblem::NoHost)
            } else if contains_char(&h, ':') {
                Err(TargetProblem::ExtraColons)
            } else {
                Ok(rest)
            }
        },
    }
}

/// A CONNECT target, or else a plaintext URL.
pub open spec fn is_connect(url: Seq<char>) -> bool {
    crate::text::begins(url, "connect://"@)
}

pub open spec fn usable_target(url: Seq<char>) -> bool {
    if is_connect(url) {
        connect_authority(url) is Ok
    } else {
        url_parts(url) is Ok
    }
}

/// Is the text a health target of either form?
pub fn valid_target(url: &str) -> (r: bool)
    ensures
        r == usable_target(url@),
{
    if starts_with(url, "connect://") {
        split_connect_target(url).is_ok()
    } else {
        split_url(url).is_ok()
    }
}

/// A plaintext target is usable exactly where the configuration accepts it
/// as the global health URL.
pub proof fn law_plaintext_targets_agree(url: Seq<char>)
    requires
        !is_connect(url),
    ensures
        usable_target(url) == health_url(url),
{
    reveal_strlit("http://");
    if crate::text::begins(url, "http://"@) {
        assert(url.skip("http://"@.len() as int) =~= url.skip(7));
    }
}

// ---------------------------------------------------------------------------
// Requests
// ---------------------------------------------------------------------------

/// What is sent for one check.
#[derive(Debug, PartialEq, Eq)]
pub struct CheckPlan<T = String> {
    pub request: T,
    /// The request opens a tunnel, which has to answer a probe.
    pub tunnel: bool,
}

pub open spec fn check_plan_of(url: Seq<char>) -> Result<CheckPlan<Seq<char>>, TargetProblem> {
    if is_connect(url) {
        match connect_authority(url) {
            Err(e) => Err(e),
            Ok(a) => Ok(
                CheckPlan {
                    request: "CONNECT "@ + a + " HTTP/1.1\r\nHost: "@ + a
                        + "\r\nUser-Agent: causeway-health/0.1\r\n\r\n"@,
                    tunnel: true,
                },
            ),
        }
    } else {
        match url_parts(url) {
            Err(e) => Err(e),
            Ok((host, _)) => Ok(
                CheckPlan {
                    request: "GET "@ + url + " HTTP/1.1\r\nHost: "@ + host
                        + "\r\nUser-Agent: causeway-health/0.1\r\nConnection: close\r\n\r\n"@,
                    tunnel: false,
                },
            ),
        }
    }
}

pub open spec fn plan_view(r: Result<CheckPlan, TargetProblem>) -> Result<
    CheckPlan<Seq<char>>,
    TargetProblem,
> {
    match r {
        Ok(p) => Ok(CheckPlan { request: p.request@, tunnel: p.tunnel }),
        Err(e) => Err(e),
    }
}

/// The request for a target: an absolute-form GET, or a CONNECT.
pub fn check_plan(url: &str) -> (r: Result<CheckPlan, TargetProblem>)
    ensures
        plan_view(r) == check_plan_of(url@),
{
    if starts_with(url, "connect://") {
        let a = match split_connect_target(url) {
            Ok(a) => a,
            Err(e) => return Err(e),
        };
        let mut s = "CONNECT ".to_string();
        say(&mut s, a.as_str());
        say(&mut s, " HTTP/1.1\r\nHost: ");
        say(&mut s, a.as_str());
        say(&mut s, "\r\nUser-Agent: causeway-health/0.1\r\n\r\n");
        Ok(CheckPlan { request: s, tunnel: true })
    } else {
        let host = match split_url(url) {
            Ok((host, _)) => host,
            Err(e) => return Err(e),
        };
        let mut s = "GET ".to_string();
        say(&mut s, url);
        say(&mut s, " HTTP/1.1\r\nHost: ");
        say(&mut s, host.as_str());
        say(&mut s, "\r\nUser-Agent: causeway-health/0.1\r\nConnection: close\r\n\r\n");
        Ok(CheckPlan { request: s, tunnel: false })
    }
}

/// What is written into an open tunnel. Any byte that comes back proves the
/// round trip.
pub const CONNECT_PROBE_PAYLOAD: &'static str = "GET / HTTP/1.0\r\n\r\n";

// ---------------------------------------------------------------------------
// The status line
// ---------------------------------------------------------------------------

pub const MAX_STATUS_LINE: usize = 8192;

/// How far the status line has come in.
#[derive(Debug, Clone, Copy, PartialEq, Eq, Structural)]
pub enum StatusScan {
    /// The line ends before this index.
    Line(usize),
    More,
    TooLong,
}

pub open spec fn line_break_at(bytes: Seq<u8>, i: int) -> bool {
    0 <= i && i + 1 < bytes.len() && bytes[i] == 13 && bytes[i + 1] == 10
}

pub open spec fn status_scan(bytes: Seq<u8>, scan: StatusScan) -> bool {
    match scan {
        StatusScan::Line(n) => line_break_at(bytes, n as int) && forall|j: int|
            0 <= j < n ==> !#[trigger] line_break_at(bytes, j),
        StatusScan::More => bytes.len() <= MAX_STATUS_LINE && forall|j: int|
            !#[trigger] line_break_at(bytes, j),
        StatusScan::TooLong => bytes.len() > MAX_STATUS_LINE && forall|j: int|
            !#[trigger] line_break_at(bytes, j),
    }
}

/// Look for the end of the status line in what has come in so far.
pub fn scan_status_line(bytes: &Vec<u8>) -> (r: StatusScan)
    ensures
        status_scan(bytes@, r),
{
    let mut i: usize = 0;
    while i < bytes.len() && i + 1 < bytes.len()
        invariant
            i <= bytes@.len(),
            forall|j: int| 0 <= j < i ==> !#[trigger] line_break_at(bytes@, j),
        decreases bytes@.len() - i,
    {
        if bytes[i] == 13 && bytes[i + 1] == 10 {
            assert(line_break_at(bytes@, i as int));
            return StatusScan::Line(i);
        }
        i = i + 1;
    }
    if bytes.len() > MAX_STATUS_LINE {
        StatusScan::TooLong
    } else {
        StatusScan::More
    }
}

#[derive(Debug, Clone, Copy, PartialEq, Eq, Structural)]
pub enum StatusProblem {
    NoVersion,
    NoCode,
    CodeNotNumeric,
}

pub open spec fn status_problem_text(p: StatusProblem) -> Seq<char> {
    match p {
        StatusProblem::NoVersion => "status line missing protocol version"@,
        StatusProblem::NoCode => "status line missing status code"@,
        StatusProblem::CodeNotNumeric => "status code is not a number"@,
    }
}

impl StatusProblem {
    pub fn message(&self) -> (r: &'static str)
        ensures
            r@ == status_problem_text(*self),
    {
        match self {
            StatusProblem::NoVersion => "status line missing protocol version",
            StatusProblem::NoCode => "status line missing status code",
            StatusProblem::CodeNotNumeric => "status code is not a number",
        }
    }
}

/// The second word of a status line is its code.
pub open spec fn status_code_of(line: Seq<char>) -> Result<u16, StatusProblem> {
    let parts = words(line);
    if parts.len() == 0 {
        Err(StatusProblem::NoVersion)
    } else if parts.len() == 1 {
        Err(StatusProblem::NoCode)
    } else {
        match parsed(parts[1], 10, 65535) {
            Some(n) => Ok(n as u16),
            None => Err(StatusProblem::CodeNotNumeric),
        }
    }
}

pub fn status_code(line: &str) -> (r: Result<u16, StatusProblem>)
    ensures
        r == status_code_of(line@),
{
    let parts = split_whitespace(line);
    let ghost ps = crate::text::texts(parts@);
    assert(ps == words(line@));
    if parts.len() == 0 {
        return Err(StatusProblem::NoVersion);
    }
    if parts.len() == 1 {
        return Err(StatusProblem::NoCode);
    }
    assert(ps[1] == parts@[1]@);
    match parse_number(parts[1].as_str(), 10, 65535) {
        Some(n) => Ok(n as u16),
        None => Err(StatusProblem::CodeNotNumeric),
    }
}

/// 2xx counts as healthy.
pub open spec fn success(code: u16) -> bool {
    200 <= code < 300
}

pub fn is_success(code: u16) -> (r: bool)
    ensures
        r == success(code),
{
    200 <= code && code < 300
}

/// Is the probe written into the tunnel? Only a tunnel that was granted gets
/// one.
pub fn wants_tunnel_probe(tunnel: bool, code: u16) -> (r: bool)
    ensures
        r == (tunnel && success(code)),
{
    tunnel && is_success(code)
}

/// The status of a check once the tunnel answered or closed: a granted
/// tunnel that gives no byte back is no success.
pub open spec fn checked(tunnel: bool, code: u16, answered: nat) -> Option<u16> {
    if tunnel && success(code) && answered == 0 {
        None
    } else {
        Some(code)
    }
}

pub fn check_result(tunnel: bool, code: u16, answered: usize) -> (r: Option<u16>)
    ensures
        r == checked(tunnel, code, answered as nat),
{
    if tunnel && is_success(code) && answered == 0 {
        None
    } else {
        Some(code)
    }
}

// ---------------------------------------------------------------------------
// Several samples
// ---------------------------------------------------------------------------

/// Milliseconds between the samples of one tick.
pub const SAMPLE_SPACING_MS: u64 = 1000;

/// Outcome of a health tick. A tick that was cancelled measured nothing.
#[derive(Debug, Clone, Copy, PartialEq, Eq, Structural)]
pub enum SampledVerdict {
    Healthy,
    Unhealthy,
    Cancelled,
}

/// A tick under way: how many samples it takes, and how many have passed.
#[derive(Debug, Clone, Copy, PartialEq, Eq, Structural)]
pub struct SampleTick {
    pub samples: u32,
    pub passed: u32,
}

impl SampleTick {
    pub open spec fn under_way(self) -> bool {
        self.passed < self.samples
    }

    /// At least one sample is taken.
    pub fn begin(samples: u32) -> (r: Self)
        ensures
            r.passed == 0,
            r.samples == if samples == 0 {
                1
            } else {
                samples
            },
            r.under_way(),
    {
        SampleTick {
            samples: if samples == 0 {
                1
            } else {
                samples
            },
            passed: 0,
        }
    }

    /// A pause comes before every sample but the first.
    pub fn wants_pause(&self) -> (b: bool)
        ensures
            b == (self.passed > 0),
    {
        self.passed > 0
    }
}

/// A tick after a look at the shutdown flag and, where it goes on, one
/// sample: the verdict, or the tick to go on with.
pub open spec fn sampled(t: SampleTick, cancelled: bool, healthy: bool) -> Result<
    SampledVerdict,
    SampleTick,
> {
    if cancelled {
        Ok(SampledVerdict::Cancelled)
    } else if !healthy {
        Ok(SampledVerdict::Unhealthy)
    } else if t.passed + 1 == t.samples {
        Ok(SampledVerdict::Healthy)
    } else {
        Err(SampleTick { samples: t.samples, passed: (t.passed + 1) as u32 })
    }
}

/// `sample` is `None` where the tick was cancelled before it was taken.
pub fn take_sample(tick: SampleTick, sample: Option<bool>) -> (r: Result<
    SampledVerdict,
    SampleTick,
>)
    requires
        tick.under_way(),
    ensures
        r == sampled(tick, sample is None, sample == Some(true)),
        r matches Err(t) ==> t.under_way(),
{
    match sample {
        None => Ok(SampledVerdict::Cancelled),
        Some(healthy) => if !healthy {
            Ok(SampledVerdict::Unhealthy)
        } else if tick.passed + 1 == tick.samples {
            Ok(SampledVerdict::Healthy)
        } else {
            Err(SampleTick { samples: tick.samples, passed: tick.passed + 1 })
        },
    }
}

/// The verdict of the rest of a tick, for every way that the flag and the
/// samples may turn out.
pub open spec fn tick_verdict(
    t: SampleTick,
    cancelled: spec_fn(int) -> bool,
    healthy: spec_fn(int) -> bool,
) -> SampledVerdict
    decreases t.samples - t.passed,
{
    match sampled(t, cancelled(t.passed as int), healthy(t.passed as int)) {
        Ok(v) => v,
        Err(next) => if t.passed < next.passed <= t.samples {
            tick_verdict(next, cancelled, healthy)
        } else {
            SampledVerdict::Unhealthy
        },
    }
}

/// One failed sample sinks the tick: it is healthy exactly where every sample
/// was taken and passed.
pub proof fn law_any_failure_sinks_the_tick(
    t: SampleTick,
    cancelled: spec_fn(int) -> bool,
    healthy: spec_fn(int) -> bool,
)
    requires
        t.under_way(),
    ensures
        (tick_verdict(t, cancelled, healthy) == SampledVerdict::Healthy) == (forall|i: int|
            t.passed <= i < t.samples ==> !#[trigger] cancelled(i) && healthy(i)),
    decreases t.samples - t.passed,
{
    let p = t.passed as int;
    if !cancelled(p) && healthy(p) {
        if p + 1 < t.samples {
            let next = SampleTick { samples: t.samples, passed: (t.passed + 1) as u32 };
            law_any_failure_sinks_the_tick(next, cancelled, healthy);
            assert((forall|i: int| next.passed <= i < t.samples ==> !#[trigger] cancelled(i)
                && healthy(i)) == (forall|i: int|
                p <= i < t.samples ==> !#[trigger] cancelled(i) && healthy(i))) by {
                if forall|i: int| next.passed <= i < t.samples ==> !#[trigger] cancelled(i)
                    && healthy(i) {
                    assert forall|i: int| p <= i < t.samples implies !#[trigger] cancelled(i)
                        && healthy(i) by {
                        if i > p {
                            assert(next.passed <= i);
                        }
                    }
                }
            }
        }
    } else {
        assert(!(!cancelled(p) && healthy(p)));
    }
}

/// What stands behind `connect://` is a host with a port from 1 to 65535, or a
/// bare host, which is reached on 443; a path, a query, a fragment, user data,
/// blanks and further colons are refused.
pub proof fn law_connect_target(rest: Seq<char>)
    ensures
        ({
            let r = connect_authority("connect://"@ + rest);
            let clean = rest.len() > 0 && forall|i: int|
                0 <= i < rest.len() ==> #[trigger] rest[i] != '/' && rest[i] != '?' && rest[i] != '#'
                    && rest[i] != '@' && !blank_or_control(rest[i]);
            let at = last_position(rest, ':');
            &&& !clean ==> r is Err
            &&& clean && at < 0 ==> r == Ok::<Seq<char>, TargetProblem>(rest + ":443"@)
            &&& clean && at >= 0 ==> (r is Ok <==> {
                &&& at > 0
                &&& forall|i: int| 0 <= i < at ==> #[trigger] rest[i] != ':'
                &&& parsed(rest.skip(at + 1), 10, 65535) matches Some(port) && port > 0
            })
            &&& clean && at >= 0 && r is Ok ==> r->Ok_0 == rest
        }),
{
    crate::text::lemma_after_prefix("connect://"@, rest);
    lemma_last_position(rest, ':');
    let clean = rest.len() > 0 && forall|i: int|
        0 <= i < rest.len() ==> #[trigger] rest[i] != '/' && rest[i] != '?' && rest[i] != '#'
            && rest[i] != '@' && !blank_or_control(rest[i]);
    let at = last_position(rest, ':');
    if !clean && rest.len() > 0 {
        let i = choose|i: int|
            0 <= i < rest.len() && !(#[trigger] rest[i] != '/' && rest[i] != '?' && rest[i] != '#'
                && rest[i] != '@' && !blank_or_control(rest[i]));
        assert(rest.contains(rest[i]));
    }
    if clean {
        assert(!rest.contains('/') && !rest.contains('?') && !rest.contains('#')
            && !rest.contains('@'));
        if at >= 0 {
            assert(rest.contains(':'));
            let host = rest.take(at);
            if host.contains(':') {
                let q = host.index_of(':');
                assert(rest[q] == ':');
            }
            if exists|i: int| 0 <= i < at && #[trigger] rest[i] == ':' {
                let q = choose|i: int| 0 <= i < at && #[trigger] rest[i] == ':';
                assert(host[q] == ':');
                assert(host.contains(':'));
            }
        } else {
            if rest.contains(':') {
                let q = rest.index_of(':');
                assert(rest[q] == ':');
            }
        }
    }
}

/// A check goes where its address says: a tunnel is asked for exactly with
/// `connect://`, to the very authority; a plain check asks for the very
/// address, and names the host that stands in it.
pub proof fn law_check_asks_for_its_target(rest: Seq<char>, host: Seq<char>, tail: Seq<char>)
    requires
        tail.len() == 0 || tail[0] == '/' || tail[0] == '?',
        forall|i: int| 0 <= i < host.len() ==> #[trigger] host[i] != '/' && host[i] != '?',
    ensures
        check_plan_of("connect://"@ + rest) matches Ok(p) ==> p.tunnel && connect_authority(
            "connect://"@ + rest,
        ) is Ok && ({
            let a = connect_authority("connect://"@ + rest)->Ok_0;
            p.request == "CONNECT "@ + a + " HTTP/1.1\r\nHost: "@ + a
                + "\r\nUser-Agent: causeway-health/0.1\r\n\r\n"@
        }),
        check_plan_of("http://"@ + (host + tail)) matches Ok(p) ==> !p.tunnel && p.request
            == "GET "@ + ("http://"@ + (host + tail)) + " HTTP/1.1\r\nHost: "@ + host
            + "\r\nUser-Agent: causeway-health/0.1\r\nConnection: close\r\n\r\n"@,
        url_parts("http://"@ + (host + tail)) matches Ok((h, t)) ==> h == host && t == if tail.len()
            == 0 {
            "/"@
        } else {
            tail
        },
{
    crate::text::lemma_after_prefix("connect://"@, rest);
    crate::text::lemma_after_prefix("http://"@, host + tail);
    reveal_strlit("connect://");
    reveal_strlit("http://");
    let url = "http://"@ + (host + tail);
    assert(url[0] == 'h');
    assert("connect://"@[0] == 'c');
    assert(!is_connect(url)) by {
        if is_connect(url) {
            assert(url.subrange(0, 10)[0] == "connect://"@[0]);
        }
    }
    let all = host + tail;
    assert forall|j: int| 0 <= j < host.len() implies #[trigger] all[j] != '/' && all[j] != '?' by {
        assert(all[j] == host[j]);
    }
    if tail.len() > 0 {
        assert(all[host.len() as int] == tail[0]);
    }
    crate::text::lemma_position2_is(all, '/', '?', host.len() as int);
    assert(all.take(host.len() as int) =~= host);
    assert(all.skip(host.len() as int) =~= tail);
}

/// The second word of a status line is the code.
pub proof fn law_status_code(line: Seq<char>, code: u16)
    requires
        words(line).len() >= 2,
        words(line)[1] == crate::text::decimal(code as nat),
    ensures
        status_code_of(line) == Ok::<u16, StatusProblem>(code),
{
    crate::text::lemma_decimal_parses(code as nat, 65535);
}

/// A check passes on its code, except that a tunnel that was granted with a
/// code from 200 to 299 must also have answered something.
pub proof fn law_granted_tunnel_must_answer(tunnel: bool, code: u16, answered: nat)
    ensures
        checked(tunnel, code, answered) is None <==> tunnel && 200 <= code <= 299 && answered == 0,
        checked(tunnel, code, answered) matches Some(c) ==> c == code,
{
}

/// The first sample that is not healthy decides a tick: it is cancelled where
/// that sample was, and unhealthy otherwise.
pub proof fn law_first_bad_sample_decides(
    t: SampleTick,
    cancelled: spec_fn(int) -> bool,
    healthy: spec_fn(int) -> bool,
    k: int,
)
    requires
        t.under_way(),
        t.passed <= k < t.samples,
        cancelled(k) || !healthy(k),
        forall|i: int| t.passed <= i < k ==> !#[trigger] cancelled(i) && healthy(i),
    ensures
        tick_verdict(t, cancelled, healthy) == if cancelled(k) {
            SampledVerdict::Cancelled
        } else {
            SampledVerdict::Unhealthy
        },
    decreases k - t.passed,
{
    if t.passed < k {
        assert(!cancelled(t.passed as int) && healthy(t.passed as int));
        let next = SampleTick { samples: t.samples, passed: (t.passed + 1) as u32 };
        law_first_bad_sample_decides(next, cancelled, healthy, k);
    }
}

/// A scan finds the first line break: what stands before it holds none. While
/// there is none, more is read up to 8192 bytes.
pub proof fn law_status_scan(bytes: Seq<u8>, scan: StatusScan, k: int)
    requires
        status_scan(bytes, scan),
    ensures
        0 <= k < bytes.len() - 1 && bytes[k] == 13 && bytes[k + 1] == 10 ==> (scan matches
            StatusScan::Line(n) && n <= k),
        scan matches StatusScan::Line(n) ==> n + 1 < bytes.len() && bytes[n as int] == 13 && bytes[n
            + 1] == 10,
        scan is More ==> bytes.len() <= 8192,
        scan is TooLong ==> bytes.len() > 8192,
{
    if 0 <= k < bytes.len() - 1 && bytes[k] == 13 && bytes[k + 1] == 10 {
        assert(line_break_at(bytes, k));
    }
}

/// A status code that is no number up to 65535 is refused.
pub proof fn law_status_code_is_a_small_number(line: Seq<char>, n: nat)
    requires
        words(line).len() >= 2,
        words(line)[1] == crate::text::decimal(n),
    ensures
        status_code_of(line) is Ok <==> n <= 65535,
{
    crate::text::lemma_decimal_parses(n, 65535);
}

} // verus!
