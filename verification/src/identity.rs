//! Which process an adapter workspace belongs to: its identity, the marker
//! that records it, and the names made from it.

use vstd::prelude::*;

use crate::digest::say;
use crate::text::{
    after_prefix, ascii_digit, ascii_lowercase, before_suffix, chars_of, decimal, decimal_text,
    halves, hex_digits, hex_text, is_lower_hex, last_position, lemma_after_prefix, lemma_decimal,
    lemma_decimal_parses, lemma_halves, lemma_hex_digits, lower_hex, opt_text, parse_number, parsed,
    rfind, same, split_once, split_whitespace, string_of, strip_prefix, strip_suffix,
    to_ascii_lowercase, trim, trimmed, words,
};

verus! {

/// A process, told apart from every other one that ever had its number.
#[derive(Debug, PartialEq, Eq)]
pub struct ProcessIdentity {
    pub boot_id: String,
    pub pid: u32,
    pub start_time: u64,
}

pub struct IdentityView {
    pub boot_id: Seq<char>,
    pub pid: u32,
    pub start_time: u64,
}

impl View for ProcessIdentity {
    type V = IdentityView;

    open spec fn view(&self) -> IdentityView {
        IdentityView { boot_id: self.boot_id@, pid: self.pid, start_time: self.start_time }
    }
}

pub open spec fn opt_identity(o: Option<ProcessIdentity>) -> Option<IdentityView> {
    match o {
        Some(i) => Some(i@),
        None => None,
    }
}

// ---------------------------------------------------------------------------
// Boot identities
// ---------------------------------------------------------------------------

/// A lower-case UUID.
pub open spec fn boot_id(s: Seq<char>) -> bool {
    &&& s.len() == 36
    &&& forall|i: int|
        0 <= i < 36 ==> if i == 8 || i == 13 || i == 18 || i == 23 {
            #[trigger] s[i] == '-'
        } else {
            lower_hex(s[i])
        }
}

pub fn valid_boot_id(value: &str) -> (b: bool)
    ensures
        b == boot_id(value@),
{
    let v = chars_of(value);
    if v.len() != 36 {
        return false;
    }
    let mut i: usize = 0;
    while i < 36
        invariant
            i <= 36,
            v@ == value@,
            v@.len() == 36,
            forall|j: int|
                0 <= j < i ==> if j == 8 || j == 13 || j == 18 || j == 23 {
                    #[trigger] v@[j] == '-'
                } else {
                    lower_hex(v@[j])
                },
        decreases 36 - i,
    {
        let fine = if i == 8 || i == 13 || i == 18 || i == 23 {
            v[i] == '-'
        } else {
            is_lower_hex(v[i])
        };
        if !fine {
            let ghost k = i as int;
            assert(value@[k] == v@[k]);
            return false;
        }
        i = i + 1;
    }
    true
}

/// The boot identity that the kernel's text names.
pub open spec fn boot_of(raw: Seq<char>) -> Option<Seq<char>> {
    let id = ascii_lowercase(trimmed(raw));
    if boot_id(id) {
        Some(id)
    } else {
        None
    }
}

/// Read the boot identity out of the text that the kernel gives.
pub fn read_boot_id(raw: &str) -> (r: Option<String>)
    ensures
        opt_text(r) == boot_of(raw@),
{
    let t = trim(raw);
    let id = to_ascii_lowercase(t.as_str());
    if valid_boot_id(id.as_str()) {
        Some(id)
    } else {
        None
    }
}

/// The start time in the text of `/proc/PID/stat`. The command name, in
/// brackets, may itself hold brackets and blanks: the fields are counted
/// after the last closing one.
pub open spec fn start_time_of(stat: Seq<char>) -> Option<nat> {
    let p = last_position(stat, ')');
    if p < 0 {
        None
    } else {
        let fields = words(stat.skip(p + 1));
        if fields.len() > 19 {
            parsed(fields[19], 10, u64::MAX as nat)
        } else {
            None
        }
    }
}

pub fn parse_process_start_time(stat: &str) -> (r: Option<u64>)
    ensures
        match r {
            Some(t) => start_time_of(stat@) == Some(t as nat),
            None => start_time_of(stat@) is None,
        },
{
    let v = chars_of(stat);
    match rfind(&v, ')') {
        None => None,
        Some(p) => {
            let n: usize = v.len();
            let tail = string_of(&v, p + 1, n);
            assert(tail@ =~= stat@.skip(p + 1));
            let fields = split_whitespace(tail.as_str());
            assert(crate::text::texts(fields@).len() == fields@.len());
            if fields.len() > 19 {
                assert(crate::text::texts(fields@)[19] == fields@[19]@);
                parse_number(fields[19].as_str(), 10, u64::MAX)
            } else {
                None
            }
        },
    }
}

// ---------------------------------------------------------------------------
// The marker
// ---------------------------------------------------------------------------

/// The text of the marker file.
pub open spec fn encoded(i: IdentityView) -> Seq<char> {
    "schema=1\nboot_id="@ + (i.boot_id + ("\npid="@ + (decimal(i.pid as nat) + seq!['\n'] + (
    "start_time="@ + (decimal(i.start_time as nat) + seq!['\n'] + Seq::empty())))))
}

/// The identity that a marker records: the one that encodes to its text.
pub open spec fn marks(marker: Seq<char>, i: IdentityView) -> bool {
    boot_id(i.boot_id) && marker == encoded(i)
}

pub open spec fn marked(marker: Seq<char>) -> Option<IdentityView> {
    if exists|i: IdentityView| marks(marker, i) {
        Some(choose|i: IdentityView| marks(marker, i))
    } else {
        None
    }
}

spec fn scan_tail(b: Seq<char>, boot: Seq<char>) -> Option<IdentityView> {
    match halves(b, '\n') {
        None => None,
        Some(h) => match parsed(h.0, 10, u32::MAX as nat) {
            None => None,
            Some(pid) => match after_prefix(h.1, "start_time="@) {
                None => None,
                Some(c) => match halves(c, '\n') {
                    None => None,
                    Some(t) => match parsed(t.0, 10, u64::MAX as nat) {
                        None => None,
                        Some(start) => Some(
                            IdentityView {
                                boot_id: boot,
                                pid: pid as u32,
                                start_time: start as u64,
                            },
                        ),
                    },
                },
            },
        },
    }
}

spec fn scan_marker(marker: Seq<char>) -> Option<IdentityView> {
    match after_prefix(marker, "schema=1\nboot_id="@) {
        None => None,
        Some(a) => if a.len() < 36 {
            None
        } else {
            match after_prefix(a.skip(36), "\npid="@) {
                None => None,
                Some(b) => scan_tail(b, a.take(36)),
            }
        },
    }
}

proof fn lemma_scan_marker(i: IdentityView)
    requires
        boot_id(i.boot_id),
    ensures
        scan_marker(encoded(i)) == Some(i),
{
    let d = decimal(i.start_time as nat);
    let e = decimal(i.pid as nat);
    let c = d + seq!['\n'] + Seq::empty();
    let h = "start_time="@ + c;
    let b = e + seq!['\n'] + h;
    let a = i.boot_id + ("\npid="@ + b);
    lemma_after_prefix("schema=1\nboot_id="@, a);
    assert(a.take(36) =~= i.boot_id);
    assert(a.skip(36) =~= "\npid="@ + b);
    lemma_after_prefix("\npid="@, b);
    lemma_decimal(i.pid as nat);
    lemma_decimal(i.start_time as nat);
    lemma_decimal_parses(i.pid as nat, u32::MAX as nat);
    lemma_decimal_parses(i.start_time as nat, u64::MAX as nat);
    assert forall|j: int| 0 <= j < e.len() implies #[trigger] e[j] != '\n' by {
        assert(ascii_digit(e[j]));
    }
    assert forall|j: int| 0 <= j < d.len() implies #[trigger] d[j] != '\n' by {
        assert(ascii_digit(d[j]));
    }
    lemma_halves(e, '\n', h);
    lemma_after_prefix("start_time="@, c);
    lemma_halves(d, '\n', Seq::empty());
}

proof fn lemma_marked_is(marker: Seq<char>, i: IdentityView)
    requires
        marks(marker, i),
    ensures
        marked(marker) == Some(i),
{
    lemma_scan_marker(i);
    let j = choose|j: IdentityView| marks(marker, j);
    assert(marks(marker, j));
    lemma_scan_marker(j);
}

impl ProcessIdentity {
    /// The text of the marker file.
    pub fn encode(&self) -> (r: String)
        ensures
            r@ == encoded(self@),
    {
        let mut s = "schema=1\nboot_id=".to_string();
        say(&mut s, self.boot_id.as_str());
        say(&mut s, "\npid=");
        let pid = decimal_text(self.pid as u64);
        say(&mut s, pid.as_str());
        s.push('\n');
        say(&mut s, "start_time=");
        let start = decimal_text(self.start_time);
        say(&mut s, start.as_str());
        s.push('\n');
        assert(s@ =~= encoded(self@));
        s
    }

    fn scan_tail(rest: &str, boot: String) -> (r: Option<Self>)
        ensures
            opt_identity(r) == scan_tail(rest@, boot@),
    {
        let (pid_text, after) = match split_once(rest, '\n') {
            Some(h) => h,
            None => return None,
        };
        let pid: u64 = match parse_number(pid_text.as_str(), 10, u32::MAX as u64) {
            Some(n) => n,
            None => return None,
        };
        let start_line = match strip_prefix(after.as_str(), "start_time=") {
            Some(c) => c,
            None => return None,
        };
        let start_text = match split_once(start_line.as_str(), '\n') {
            Some(h) => h.0,
            None => return None,
        };
        match parse_number(start_text.as_str(), 10, u64::MAX) {
            Some(start_time) => Some(ProcessIdentity { boot_id: boot, pid: pid as u32, start_time }),
            None => None,
        }
    }

    fn scan(value: &str) -> (r: Option<Self>)
        ensures
            opt_identity(r) == scan_marker(value@),
    {
        let a = match strip_prefix(value, "schema=1\nboot_id=") {
            Some(a) => a,
            None => return None,
        };
        let v = chars_of(a.as_str());
        if v.len() < 36 {
            return None;
        }
        let boot = string_of(&v, 0, 36);
        let tail = string_of(&v, 36, v.len());
        assert(boot@ =~= a@.take(36));
        assert(tail@ =~= a@.skip(36));
        match strip_prefix(tail.as_str(), "\npid=") {
            Some(b) => Self::scan_tail(b.as_str(), boot),
            None => None,
        }
    }

    /// Read a marker. A text that is not exactly what `encode` writes for some
    /// process identity is refused.
    pub fn parse(value: &str) -> (r: Option<Self>)
        ensures
            opt_identity(r) == marked(value@),
    {
        let found = Self::scan(value);
        proof {
            if exists|i: IdentityView| marks(value@, i) {
                let i = choose|i: IdentityView| marks(value@, i);
                lemma_scan_marker(i);
            }
        }
        match found {
            None => None,
            Some(id) => {
                if !valid_boot_id(id.boot_id.as_str()) {
                    return None;
                }
                let text = id.encode();
                if same(text.as_str(), value) {
                    proof {
                        lemma_marked_is(value@, id@);
                    }
                    Some(id)
                } else {
                    None
                }
            },
        }
    }

    pub fn matches(&self, other: &Self) -> (b: bool)
        ensures
            b == (self@ == other@),
    {
        same(self.boot_id.as_str(), other.boot_id.as_str()) && self.pid == other.pid
            && self.start_time == other.start_time
    }
}

/// A marker gives back the identity it was written for.
pub proof fn law_marker_round_trip(i: IdentityView)
    requires
        boot_id(i.boot_id),
    ensures
        marked(encoded(i)) == Some(i),
{
    assert(marks(encoded(i), i));
    lemma_marked_is(encoded(i), i);
}

// ---------------------------------------------------------------------------
// Instance directories
// ---------------------------------------------------------------------------

pub const INSTANCE_PREFIX: &'static str = "causeway-instance-v1-";

/// Exactly `n` lower-case hexadecimal digits.
pub open spec fn hex_word(s: Seq<char>, n: nat) -> bool {
    s.len() == n && forall|i: int| 0 <= i < n ==> lower_hex(#[trigger] s[i])
}

fn is_hex_word(s: &str, n: usize) -> (b: bool)
    ensures
        b == hex_word(s@, n as nat),
{
    let v = chars_of(s);
    if v.len() != n {
        return false;
    }
    let mut i: usize = 0;
    while i < n
        invariant
            i <= n,
            v@ == s@,
            v@.len() == n,
            forall|j: int| 0 <= j < i ==> lower_hex(#[trigger] s@[j]),
        decreases n - i,
    {
        if !is_lower_hex(v[i]) {
            assert(!lower_hex(s@[i as int]));
            return false;
        }
        i = i + 1;
    }
    true
}

/// The directory name of one instance of a process.
pub open spec fn instance_name(i: IdentityView, nonce: Seq<char>) -> Seq<char> {
    INSTANCE_PREFIX@ + (i.boot_id + (seq!['-'] + (decimal(i.pid as nat) + seq!['-'] + (decimal(
        i.start_time as nat,
    ) + seq!['-'] + nonce))))
}

/// `name` is a directory name of the process `i`, with a nonce of 32
/// hexadecimal digits.
pub open spec fn names_instance(name: Seq<char>, i: IdentityView, nonce: Seq<char>) -> bool {
    boot_id(i.boot_id) && hex_word(nonce, 32) && name == instance_name(i, nonce)
}

/// The process that a directory name belongs to.
pub open spec fn instance_owner(name: Seq<char>) -> Option<IdentityView> {
    if exists|i: IdentityView, nonce: Seq<char>| names_instance(name, i, nonce) {
        let (i, _) = choose|i: IdentityView, nonce: Seq<char>| names_instance(name, i, nonce);
        Some(i)
    } else {
        None
    }
}

pub fn strict_instance_name(identity: &ProcessIdentity, nonce_hex: &str) -> (r: String)
    ensures
        r@ == instance_name(identity@, nonce_hex@),
{
    let mut s = INSTANCE_PREFIX.to_string();
    say(&mut s, identity.boot_id.as_str());
    s.push('-');
    let pid = decimal_text(identity.pid as u64);
    say(&mut s, pid.as_str());
    s.push('-');
    let start = decimal_text(identity.start_time);
    say(&mut s, start.as_str());
    s.push('-');
    say(&mut s, nonce_hex);
    assert(s@ =~= instance_name(identity@, nonce_hex@));
    s
}

spec fn scan_name(name: Seq<char>) -> Option<(IdentityView, Seq<char>)> {
    match after_prefix(name, INSTANCE_PREFIX@) {
        None => None,
        Some(a) => if a.len() < 37 {
            None
        } else {
            match halves(a.skip(37), '-') {
                None => None,
                Some(h) => match halves(h.1, '-') {
                    None => None,
                    Some(t) => match (
                        parsed(h.0, 10, u32::MAX as nat),
                        parsed(t.0, 10, u64::MAX as nat),
                    ) {
                        (Some(pid), Some(start)) => Some(
                            (
                                IdentityView {
                                    boot_id: a.take(36),
                                    pid: pid as u32,
                                    start_time: start as u64,
                                },
                                t.1,
                            ),
                        ),
                        _ => None,
                    },
                },
            }
        },
    }
}

proof fn lemma_scan_name(i: IdentityView, nonce: Seq<char>)
    requires
        boot_id(i.boot_id),
    ensures
        scan_name(instance_name(i, nonce)) == Some((i, nonce)),
{
    let d = decimal(i.start_time as nat);
    let e = decimal(i.pid as nat);
    let c = d + seq!['-'] + nonce;
    let b = e + seq!['-'] + c;
    let a = i.boot_id + (seq!['-'] + b);
    lemma_after_prefix(INSTANCE_PREFIX@, a);
    assert(a.take(36) =~= i.boot_id);
    assert(a.skip(37) =~= b);
    lemma_decimal(i.pid as nat);
    lemma_decimal(i.start_time as nat);
    lemma_decimal_parses(i.pid as nat, u32::MAX as nat);
    lemma_decimal_parses(i.start_time as nat, u64::MAX as nat);
    assert forall|j: int| 0 <= j < e.len() implies #[trigger] e[j] != '-' by {
        assert(ascii_digit(e[j]));
    }
    assert forall|j: int| 0 <= j < d.len() implies #[trigger] d[j] != '-' by {
        assert(ascii_digit(d[j]));
    }
    lemma_halves(e, '-', c);
    lemma_halves(d, '-', nonce);
}

proof fn lemma_owner_is(name: Seq<char>, i: IdentityView, nonce: Seq<char>)
    requires
        names_instance(name, i, nonce),
    ensures
        instance_owner(name) == Some(i),
{
    lemma_scan_name(i, nonce);
    let (j, other) = choose|j: IdentityView, other: Seq<char>| names_instance(name, j, other);
    assert(names_instance(name, j, other));
    lemma_scan_name(j, other);
}

fn scan_instance(name: &str) -> (r: Option<(ProcessIdentity, String)>)
    ensures
        match r {
            Some(p) => scan_name(name@) == Some((p.0@, p.1@)),
            None => scan_name(name@) is None,
        },
{
    let a = match strip_prefix(name, INSTANCE_PREFIX) {
        Some(a) => a,
        None => return None,
    };
    let v = chars_of(a.as_str());
    if v.len() < 37 {
        return None;
    }
    let boot = string_of(&v, 0, 36);
    let rest = string_of(&v, 37, v.len());
    assert(boot@ =~= a@.take(36));
    assert(rest@ =~= a@.skip(37));
    let (pid_text, after) = match split_once(rest.as_str(), '-') {
        Some(h) => h,
        None => return None,
    };
    let (start_text, nonce) = match split_once(after.as_str(), '-') {
        Some(h) => h,
        None => return None,
    };
    let pid: u64 = match parse_number(pid_text.as_str(), 10, u32::MAX as u64) {
        Some(n) => n,
        None => return None,
    };
    let start_time: u64 = match parse_number(start_text.as_str(), 10, u64::MAX) {
        Some(n) => n,
        None => return None,
    };
    Some((ProcessIdentity { boot_id: boot, pid: pid as u32, start_time }, nonce))
}

/// The process that a directory name belongs to. Every other name, however
/// close to one, belongs to none.
pub fn identity_from_instance_name(name: &str) -> (r: Option<ProcessIdentity>)
    ensures
        opt_identity(r) == instance_owner(name@),
{
    let found = scan_instance(name);
    proof {
        if exists|i: IdentityView, nonce: Seq<char>| names_instance(name@, i, nonce) {
            let (i, nonce) = choose|i: IdentityView, nonce: Seq<char>|
                names_instance(name@, i, nonce);
            assert(names_instance(name@, i, nonce));
            lemma_scan_name(i, nonce);
        }
    }
    match found {
        None => None,
        Some((id, nonce)) => {
            if !valid_boot_id(id.boot_id.as_str()) || !is_hex_word(nonce.as_str(), 32) {
                return None;
            }
            let expected = strict_instance_name(&id, nonce.as_str());
            if same(expected.as_str(), name) {
                proof {
                    assert(names_instance(name@, id@, nonce@));
                    lemma_owner_is(name@, id@, nonce@);
                }
                Some(id)
            } else {
                None
            }
        },
    }
}

/// The name of an instance directory tells which process made it.
pub proof fn law_instance_name_round_trip(i: IdentityView, nonce: Seq<char>)
    requires
        boot_id(i.boot_id),
        hex_word(nonce, 32),
    ensures
        instance_owner(instance_name(i, nonce)) == Some(i),
{
    assert(names_instance(instance_name(i, nonce), i, nonce));
    lemma_owner_is(instance_name(i, nonce), i, nonce);
}

// ---------------------------------------------------------------------------
// Credential files
// ---------------------------------------------------------------------------

pub open spec fn credential_name(adapter: Seq<char>, pid: u32, sequence: Seq<char>) -> Seq<char> {
    adapter + (seq!['-'] + (decimal(pid as nat) + seq!['-'] + sequence)) + ".json"@
}

/// A file name that an adapter's private configuration can have.
pub open spec fn credential(name: Seq<char>) -> bool {
    ||| exists|pid: u32, sequence: Seq<char>| credential_of("sslocal"@, pid, sequence, name)
    ||| exists|pid: u32, sequence: Seq<char>| credential_of("singbox"@, pid, sequence, name)
}

pub open spec fn credential_of(
    adapter: Seq<char>,
    pid: u32,
    sequence: Seq<char>,
    name: Seq<char>,
) -> bool {
    hex_word(sequence, 16) && name == credential_name(adapter, pid, sequence)
}

/// The file name of the `sequence`-th private configuration of this process.
pub fn private_config_name(adapter: &str, pid: u32, sequence: u64) -> (r: String)
    ensures
        r@ == credential_name(adapter@, pid, hex_digits(sequence as nat, 16, false)),
{
    let mut s = adapter.to_string();
    s.push('-');
    let p = decimal_text(pid as u64);
    say(&mut s, p.as_str());
    s.push('-');
    let q = hex_text(sequence, 16, false);
    say(&mut s, q.as_str());
    say(&mut s, ".json");
    assert(s@ =~= credential_name(adapter@, pid, hex_digits(sequence as nat, 16, false)));
    s
}

spec fn scan_credential(name: Seq<char>, adapter: Seq<char>) -> Option<(u32, Seq<char>)> {
    match before_suffix(name, ".json"@) {
        None => None,
        Some(stem) => match after_prefix(stem, adapter) {
            None => None,
            Some(a) => match after_prefix(a, seq!['-']) {
                None => None,
                Some(b) => match halves(b, '-') {
                    None => None,
                    Some(h) => match parsed(h.0, 10, u32::MAX as nat) {
                        None => None,
                        Some(pid) => Some((pid as u32, h.1)),
                    },
                },
            },
        },
    }
}

proof fn lemma_scan_credential(adapter: Seq<char>, pid: u32, sequence: Seq<char>)
    ensures
        scan_credential(credential_name(adapter, pid, sequence), adapter) == Some((pid, sequence)),
{
    let e = decimal(pid as nat);
    let b = e + seq!['-'] + sequence;
    let a = seq!['-'] + b;
    let stem = adapter + a;
    let name = stem + ".json"@;
    let n = stem.len() as int;
    assert(name.subrange(n, n + ".json"@.len()) =~= ".json"@);
    assert(name.take(n) =~= stem);
    lemma_after_prefix(adapter, a);
    lemma_after_prefix(seq!['-'], b);
    lemma_decimal(pid as nat);
    lemma_decimal_parses(pid as nat, u32::MAX as nat);
    assert forall|j: int| 0 <= j < e.len() implies #[trigger] e[j] != '-' by {
        assert(ascii_digit(e[j]));
    }
    lemma_halves(e, '-', sequence);
}

fn credential_for(name: &str, adapter: &str) -> (b: bool)
    ensures
        b == exists|pid: u32, sequence: Seq<char>|
            credential_of(adapter@, pid, sequence, name@),
{
    proof {
        if exists|pid: u32, sequence: Seq<char>| credential_of(adapter@, pid, sequence, name@) {
            let (pid, sequence) = choose|pid: u32, sequence: Seq<char>|
                credential_of(adapter@, pid, sequence, name@);
            assert(credential_of(adapter@, pid, sequence, name@));
            lemma_scan_credential(adapter@, pid, sequence);
        }
    }
    let stem = match strip_suffix(name, ".json") {
        Some(s) => s,
        None => return false,
    };
    let a = match strip_prefix(stem.as_str(), adapter) {
        Some(s) => s,
        None => return false,
    };
    proof {
        reveal_strlit("-");
        assert("-"@ =~= seq!['-']);
    }
    let b = match strip_prefix(a.as_str(), "-") {
        Some(s) => s,
        None => return false,
    };
    let (pid_text, sequence) = match split_once(b.as_str(), '-') {
        Some(h) => h,
        None => return false,
    };
    let pid: u64 = match parse_number(pid_text.as_str(), 10, u32::MAX as u64) {
        Some(n) => n,
        None => return false,
    };
    if !is_hex_word(sequence.as_str(), 16) {
        return false;
    }
    let mut expected = adapter.to_string();
    expected.push('-');
    let p = decimal_text(pid);
    say(&mut expected, p.as_str());
    expected.push('-');
    say(&mut expected, sequence.as_str());
    say(&mut expected, ".json");
    assert(expected@ =~= credential_name(adapter@, pid as u32, sequence@));
    let fits = same(expected.as_str(), name);
    assert(fits ==> credential_of(adapter@, pid as u32, sequence@, name@));
    fits
}

pub fn strict_credential_name(name: &str) -> (b: bool)
    ensures
        b == credential(name@),
{
    let ss = credential_for(name, "sslocal");
    let sing = credential_for(name, "singbox");
    ss || sing
}

/// Every private configuration that an adapter is started with has a name
/// that a cleanup recognises.
pub proof fn law_private_configs_are_recognised(adapter: Seq<char>, pid: u32, sequence: u64)
    requires
        adapter == "sslocal"@ || adapter == "singbox"@,
    ensures
        credential(credential_name(adapter, pid, hex_digits(sequence as nat, 16, false))),
{
    let q = hex_digits(sequence as nat, 16, false);
    lemma_hex_digits(sequence as nat, 16);
    let name = credential_name(adapter, pid, q);
    assert(credential_of(adapter, pid, q, name));
}

/// A marker says, line by line, the form, the boot, the process number and the
/// time of its start; a name says the same between hyphens, with a nonce.
pub proof fn law_identity_is_written_out(
    i: IdentityView,
    nonce: Seq<char>,
    adapter: Seq<char>,
    sequence: Seq<char>,
)
    ensures
        encoded(i) == "schema=1\nboot_id="@ + i.boot_id + "\npid="@ + decimal(i.pid as nat)
            + seq!['\n'] + "start_time="@ + decimal(i.start_time as nat) + seq!['\n'],
        instance_name(i, nonce) == "causeway-instance-v1-"@ + i.boot_id + seq!['-'] + decimal(
            i.pid as nat,
        ) + seq!['-'] + decimal(i.start_time as nat) + seq!['-'] + nonce,
        credential_name(adapter, i.pid, sequence) == adapter + seq!['-'] + decimal(i.pid as nat)
            + seq!['-'] + sequence + ".json"@,
{
    assert(encoded(i) =~= "schema=1\nboot_id="@ + i.boot_id + "\npid="@ + decimal(i.pid as nat)
        + seq!['\n'] + "start_time="@ + decimal(i.start_time as nat) + seq!['\n']);
    assert(instance_name(i, nonce) =~= "causeway-instance-v1-"@ + i.boot_id + seq!['-'] + decimal(
        i.pid as nat,
    ) + seq!['-'] + decimal(i.start_time as nat) + seq!['-'] + nonce);
    assert(credential_name(adapter, i.pid, sequence) =~= adapter + seq!['-'] + decimal(
        i.pid as nat,
    ) + seq!['-'] + sequence + ".json"@);
}

/// The start of a process is the twentieth word behind the last closing
/// bracket, whatever stands in the name between the brackets.
pub proof fn law_start_time_stands_behind_the_name(name: Seq<char>, rest: Seq<char>, t: u64)
    requires
        forall|i: int| 0 <= i < rest.len() ==> #[trigger] rest[i] != ')',
        words(rest).len() > 19,
        words(rest)[19] == decimal(t as nat),
    ensures
        start_time_of(name + seq![')'] + rest) == Some(t as nat),
{
    let stat = name + seq![')'] + rest;
    crate::text::lemma_last_position(stat, ')');
    let p = last_position(stat, ')');
    assert(stat[name.len() as int] == ')');
    assert(p == name.len()) by {
        if p > name.len() {
            assert(stat[p] == rest[p - name.len() - 1]);
        }
    }
    assert(stat.skip(p + 1) =~= rest);
    lemma_decimal_parses(t as nat, u64::MAX as nat);
}

/// A boot is read without regard to case or to the blanks around it, and has
/// the form of five groups of hexadecimal digits.
pub proof fn law_boot_is_read(raw: Seq<char>)
    ensures
        boot_of(raw) matches Some(b) ==> b == ascii_lowercase(trimmed(raw)) && b.len() == 36 && b[8]
            == '-' && b[13] == '-' && b[18] == '-' && b[23] == '-' && forall|i: int|
            0 <= i < 36 && i != 8 && i != 13 && i != 18 && i != 23 ==> lower_hex(#[trigger] b[i]),
        boot_id(ascii_lowercase(trimmed(raw))) ==> boot_of(raw) is Some,
{
}

} // verus!
