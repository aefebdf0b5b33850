//! The loopback CONNECT proxy's policy: which targets it tunnels, how it reads
//! a request head, what it answers, and what it records.
//!
//! The proxy only tunnels connections whose target host is in the allow-list;
//! an entry also admits its subdomains (`anthropic.com` admits
//! `api.anthropic.com`). It does not terminate TLS.
use crate::json::{key_before, keys_ascending, lemma_decimal_printable, lemma_json_object_printable, lemma_json_quote_printable, printable, decimal, decimal_string, field_views, json_bool, json_bool_string, json_object, json_quote, json_string, render_object};
use crate::text::{
    char_vec_views, chars_of, ends_with, ends_with_exec, eq_ignore_ascii_case,
    eq_ignore_ascii_case_exec, lemma_rfind_char, lines, lines_exec, rfind_char, rfind_char_exec,
    split_whitespace_exec, string_from_chars, words, split_char, split_char_exec, trim, trim_exec,
    str_eq, is_whitespace, trim_start, trim_end,
};
use vstd::utf8::{decode_utf8, valid_utf8};
use vstd::prelude::*;
use vstd::string::*;

verus! {

// ---------------------------------------------------------------------------
// Target host and allow-list.
// ---------------------------------------------------------------------------

/// The host part of a `host:port` target: everything before the last `:`, or
/// the whole target when it holds no `:` (`str::rsplit_once(':')`).
pub open spec fn host_part(target: Seq<char>) -> Seq<char> {
    let i = rfind_char(target, ':');
    if i < 0 {
        target
    } else {
        target.take(i)
    }
}

/// Extract the host from a `host:port` target string.
pub fn host_of(target: &str) -> (host: &str)
    ensures
        host@ == host_part(target@),
{
    let cs = chars_of(target);
    match rfind_char_exec(&cs, ':') {
        Some(i) => {
            proof {
                lemma_rfind_char(target@, ':');
            }
            target.substring_char(0, i)
        },
        None => target,
    }
}

/// Whether `host` matches the allow-list entry `domain`: the same name, or a
/// name that ends with `.` followed by the entry.
pub open spec fn domain_matches(host: Seq<char>, domain: Seq<char>) -> bool {
    host == domain || ends_with(host, seq!['.'] + domain)
}

/// Whether `host` is allowed by the entries of `allowlist`.
pub open spec fn host_allowed(host: Seq<char>, allowlist: Seq<Seq<char>>) -> bool {
    exists|i: int| 0 <= i < allowlist.len() && #[trigger] domain_matches(host, allowlist[i])
}

/// The views of a slice of strings.
pub open spec fn entry_views(list: Seq<String>) -> Seq<Seq<char>> {
    list.map_values(|s: String| s@)
}

fn domain_matches_exec(host: &Vec<char>, domain: &str) -> (b: bool)
    ensures
        b == domain_matches(host@, domain@),
{
    let d = chars_of(domain);
    if host.len() == d.len() && ends_with_exec(host, &d) {
        assert(host@.skip(0) =~= host@);
        return true;
    }
    let mut dotted: Vec<char> = Vec::new();
    dotted.push('.');
    let mut i: usize = 0;
    while i < d.len()
        invariant
            i <= d.len(),
            dotted@ == seq!['.'] + d@.take(i as int),
        decreases d.len() - i,
    {
        dotted.push(d[i]);
        assert(seq!['.'] + d@.take(i + 1) =~= (seq!['.'] + d@.take(i as int)).push(d@[i as int]));
        i += 1;
    }
    assert(d@.take(d.len() as int) =~= d@);
    let r = ends_with_exec(host, &dotted);
    proof {
        if host@ == d@ {
            assert(host@.skip(0) =~= host@);
        }
    }
    r
}

/// Whether `host` is allowed: exact match or a subdomain of an allow-list entry.
pub fn allowed(host: &str, allowlist: &[String]) -> (b: bool)
    ensures
        b == host_allowed(host@, entry_views(allowlist@)),
{
    let h = chars_of(host);
    let ghost list = entry_views(allowlist@);
    let mut i: usize = 0;
    while i < allowlist.len()
        invariant
            i <= allowlist.len(),
            h@ == host@,
            list == entry_views(allowlist@),
            forall|j: int| 0 <= j < i ==> !#[trigger] domain_matches(host@, list[j]),
        decreases allowlist.len() - i,
    {
        if domain_matches_exec(&h, allowlist[i].as_str()) {
            assert(domain_matches(host@, list[i as int]));
            return true;
        }
        i += 1;
    }
    false
}


/// A target `host:port` yields `host` whenever the port holds no `:`, and a
/// target without any `:` is its own host.
pub proof fn lemma_host_part(host: Seq<char>, port: Seq<char>)
    requires
        forall|j: int| 0 <= j < port.len() ==> port[j] != ':',
    ensures
        host_part(host + seq![':'] + port) == host,
        (forall|j: int| 0 <= j < host.len() ==> host[j] != ':') ==> host_part(host) == host,
{
    let t = host + seq![':'] + port;
    lemma_rfind_char(t, ':');
    let r = rfind_char(t, ':');
    assert(t[host.len() as int] == ':');
    assert forall|j: int| host.len() < j < t.len() implies t[j] != ':' by {
        assert(t[j] == port[j - host.len() - 1]);
    }
    assert(r == host.len());
    assert(t.take(r) =~= host);
    lemma_rfind_char(host, ':');
}

/// Every entry admits its own name.
pub proof fn lemma_entry_admits_itself(allowlist: Seq<Seq<char>>, i: int)
    requires
        0 <= i < allowlist.len(),
    ensures
        host_allowed(allowlist[i], allowlist),
{
    assert(domain_matches(allowlist[i], allowlist[i]));
}

/// Every entry admits each of its subdomains.
pub proof fn lemma_entry_admits_subdomains(allowlist: Seq<Seq<char>>, i: int, label: Seq<char>)
    requires
        0 <= i < allowlist.len(),
    ensures
        host_allowed(label + seq!['.'] + allowlist[i], allowlist),
{
    let d = allowlist[i];
    let h = label + seq!['.'] + d;
    assert(h.skip(h.len() - (seq!['.'] + d).len()) =~= seq!['.'] + d);
    assert(domain_matches(h, d));
}

/// An empty allow-list admits no host.
pub proof fn lemma_empty_allowlist_admits_nothing(host: Seq<char>)
    ensures
        !host_allowed(host, Seq::<Seq<char>>::empty()),
{
}

/// Adding entries to an allow-list never revokes a host it admitted, wherever
/// the new entries go.
pub proof fn lemma_allowlist_monotone(host: Seq<char>, a: Seq<Seq<char>>, b: Seq<Seq<char>>)
    requires
        host_allowed(host, a),
    ensures
        host_allowed(host, a + b),
        host_allowed(host, b + a),
{
    let i = choose|i: int| 0 <= i < a.len() && #[trigger] domain_matches(host, a[i]);
    assert((a + b)[i] == a[i]);
    assert((b + a)[b.len() + i] == a[i]);
    assert(domain_matches(host, (a + b)[i]));
    assert(domain_matches(host, (b + a)[b.len() + i]));
}

/// An entry admits a name other than its own only at a label boundary: the
/// name ends with the entry, with a `.` just before it. So `anthropic.com`
/// never admits `notanthropic.com`.
pub proof fn lemma_match_at_label_boundary(host: Seq<char>, domain: Seq<char>)
    requires
        domain_matches(host, domain),
        host != domain,
    ensures
        host.len() > domain.len(),
        host[host.len() - domain.len() - 1] == '.',
        host.skip(host.len() - domain.len()) == domain,
{
    let s = seq!['.'] + domain;
    let tail = host.skip(host.len() - s.len());
    assert(tail[0] == s[0]);
    assert(host.skip(host.len() - domain.len()) =~= tail.skip(1));
    assert(tail.skip(1) =~= domain);
}


/// What the allow-list admits, exactly: a host is admitted if and only if
/// some entry is the host itself, or the host ends with that entry preceded
/// by a `.` (a subdomain). Nothing else, such as a parent domain of an entry
/// or a name that merely ends with an entry's text, is admitted.
pub proof fn lemma_admission_exact(host: Seq<char>, allowlist: Seq<Seq<char>>)
    ensures
        host_allowed(host, allowlist) <==> exists|i: int|
            0 <= i < allowlist.len() && (#[trigger] allowlist[i] == host || (host.len()
                > allowlist[i].len() && host[host.len() - allowlist[i].len() - 1] == '.'
                && host.skip(host.len() - allowlist[i].len()) == allowlist[i])),
{
    if host_allowed(host, allowlist) {
        let i = choose|i: int| 0 <= i < allowlist.len() && #[trigger] domain_matches(host, allowlist[i]);
        if host != allowlist[i] {
            lemma_match_at_label_boundary(host, allowlist[i]);
        }
        assert(allowlist[i] == host || (host.len() > allowlist[i].len() && host[host.len()
            - allowlist[i].len() - 1] == '.' && host.skip(host.len() - allowlist[i].len())
            == allowlist[i]));
    }
    if exists|i: int|
        0 <= i < allowlist.len() && (#[trigger] allowlist[i] == host || (host.len()
            > allowlist[i].len() && host[host.len() - allowlist[i].len() - 1] == '.'
            && host.skip(host.len() - allowlist[i].len()) == allowlist[i])) {
        let i = choose|i: int|
            0 <= i < allowlist.len() && (#[trigger] allowlist[i] == host || (host.len()
                > allowlist[i].len() && host[host.len() - allowlist[i].len() - 1] == '.'
                && host.skip(host.len() - allowlist[i].len()) == allowlist[i]));
        let d = allowlist[i];
        if d != host {
            let k = host.len() - d.len() - 1;
            let s = seq!['.'] + d;
            assert forall|j: int| 0 <= j < s.len() implies #[trigger] host.skip(k)[j] == s[j] by {
                if j > 0 {
                    assert(host.skip(k + 1)[j - 1] == d[j - 1]);
                }
            }
            assert(host.skip(host.len() - s.len()) =~= s);
        }
        assert(domain_matches(host, d));
    }
}

// ---------------------------------------------------------------------------
// The proxy.
// ---------------------------------------------------------------------------

/// A loopback CONNECT proxy that only tunnels allow-listed domains.
#[derive(Debug, Clone)]
pub struct Proxy {
    allowlist: Vec<String>,
    /// Whether to emit audit events (JSON lines) to stdout.
    audit: bool,
}

impl Proxy {
    /// The allow-list entries.
    pub closed spec fn spec_allowlist(&self) -> Seq<Seq<char>> {
        entry_views(self.allowlist@)
    }

    /// Whether audit lines are emitted.
    pub closed spec fn spec_audit(&self) -> bool {
        self.audit
    }

    /// Create a proxy that only allows connections to the given domains.
    ///
    /// A domain entry also matches its subdomains (e.g. `anthropic.com`
    /// allows `api.anthropic.com`).
    pub fn new(allowlist: Vec<String>) -> (p: Proxy)
        ensures
            p.spec_allowlist() == entry_views(allowlist@),
            !p.spec_audit(),
    {
        Proxy::with_audit(allowlist, false)
    }

    /// Create a proxy that additionally writes audit events to stdout.
    pub fn with_audit(allowlist: Vec<String>, audit: bool) -> (p: Proxy)
        ensures
            p.spec_allowlist() == entry_views(allowlist@),
            p.spec_audit() == audit,
    {
        Proxy { allowlist, audit }
    }

    /// The allow-list entries.
    pub fn allowlist(&self) -> (l: &Vec<String>)
        ensures
            entry_views(l@) == self.spec_allowlist(),
    {
        &self.allowlist
    }

    /// Whether audit lines are emitted.
    pub fn audit_enabled(&self) -> (b: bool)
        ensures
            b == self.spec_audit(),
    {
        self.audit
    }

    /// The decision on a CONNECT target: refuse it (with the audit line to
    /// print, when auditing) or dial it.
    pub fn screen(&self, target: &str, ts: u64) -> (a: Admission)
        ensures
            a.spec_host() == host_part(target@),
            match a {
                Admission::Refuse { host, audit } => {
                    &&& !host_allowed(host_part(target@), self.spec_allowlist())
                    &&& (audit is Some <==> self.spec_audit())
                    &&& audit is Some ==> audit->0@ == net_line(host_part(target@), false, ts)
                },
                Admission::Dial { .. } => host_allowed(host_part(target@), self.spec_allowlist()),
            },
    {
        let host = host_of(target);
        let ok = allowed(host, self.allowlist.as_slice());
        let host_s = host.to_string();
        if !ok {
            let audit = if self.audit {
                Some(net_audit_line(host, false, ts))
            } else {
                None
            };
            Admission::Refuse { host: host_s, audit }
        } else {
            Admission::Dial { host: host_s }
        }
    }

    /// What follows a dial of an admitted host: the `net` line recording the
    /// allow decision (when auditing), then without a connection a `502`;
    /// with one a `200` and the tunnel.
    pub fn dialed(&self, host: &str, connected: bool, ts: u64) -> (d: DialOutcome)
        ensures
            d is BadGateway <==> !connected,
            (d.spec_audit() is Some <==> self.spec_audit()),
            d.spec_audit() is Some ==> d.spec_audit()->0@ == net_line(host@, true, ts),
    {
        let audit = if self.audit {
            Some(net_audit_line(host, true, ts))
        } else {
            None
        };
        if !connected {
            DialOutcome::BadGateway { audit }
        } else {
            DialOutcome::Tunnel { audit }
        }
    }
}

/// The proxy's decision on a CONNECT target.
pub enum Admission {
    /// Not allow-listed: print `audit` (if any), answer `403`, close.
    Refuse { host: String, audit: Option<String> },
    /// Allow-listed: dial the target.
    Dial { host: String },
}

impl Admission {
    pub open spec fn spec_host(&self) -> Seq<char> {
        match self {
            Admission::Refuse { host, .. } => host@,
            Admission::Dial { host } => host@,
        }
    }
}

/// What happens after dialing an admitted target.
pub enum DialOutcome {
    /// The target could not be reached: print `audit` (if any), answer
    /// `502`, close.
    BadGateway { audit: Option<String> },
    /// Print `audit` (if any), answer `200`, and tunnel bytes both ways.
    Tunnel { audit: Option<String> },
}

impl DialOutcome {
    /// The audit line to print for the allow decision, if any.
    pub open spec fn spec_audit(&self) -> Option<String> {
        match self {
            DialOutcome::BadGateway { audit } => *audit,
            DialOutcome::Tunnel { audit } => *audit,
        }
    }
}

/// The proxy's replies to a CONNECT request.
#[derive(Clone, Copy, Debug, PartialEq, Eq, Structural)]
pub enum ProxyReply {
    Forbidden,
    BadGateway,
    Established,
}

impl ProxyReply {
    /// The reply's status line and the empty line that ends the head.
    pub fn text(self) -> (s: &'static str)
        ensures
            s@ == match self {
                ProxyReply::Forbidden => "HTTP/1.1 403 Forbidden\r\n\r\n"@,
                ProxyReply::BadGateway => "HTTP/1.1 502 Bad Gateway\r\n\r\n"@,
                ProxyReply::Established => "HTTP/1.1 200 Connection Established\r\n\r\n"@,
            },
    {
        match self {
            ProxyReply::Forbidden => "HTTP/1.1 403 Forbidden\r\n\r\n",
            ProxyReply::BadGateway => "HTTP/1.1 502 Bad Gateway\r\n\r\n",
            ProxyReply::Established => "HTTP/1.1 200 Connection Established\r\n\r\n",
        }
    }
}

// ---------------------------------------------------------------------------
// Audit lines.
// ---------------------------------------------------------------------------

/// The members of a `net` audit line, in ascending key order.
pub open spec fn net_fields(host: Seq<char>, allowed: bool, ts: u64) -> Seq<(Seq<char>, Seq<char>)> {
    seq![
        ("allowed"@, json_bool(allowed)),
        ("event"@, json_quote("net"@)),
        ("host"@, json_quote(host)),
        ("ts"@, decimal(ts as nat)),
    ]
}

/// The `net` audit line for a decision on `host`.
pub open spec fn net_line(host: Seq<char>, allowed: bool, ts: u64) -> Seq<char> {
    json_object(net_fields(host, allowed, ts))
}

/// The JSON line recording a `net` allow/deny decision on `host` at Unix time
/// `ts`.
pub fn net_audit_line(host: &str, allowed: bool, ts: u64) -> (line: String)
    ensures
        line@ == net_line(host@, allowed, ts),
{
    let mut fields: Vec<(String, String)> = Vec::new();
    fields.push(("allowed".to_string(), json_bool_string(allowed)));
    fields.push(("event".to_string(), json_string("net")));
    fields.push(("host".to_string(), json_string(host)));
    fields.push(("ts".to_string(), decimal_string(ts)));
    assert(field_views(fields@) =~= net_fields(host@, allowed, ts));
    render_object(&fields)
}

// ---------------------------------------------------------------------------
// Reading the request head.
// ---------------------------------------------------------------------------

/// The most bytes a request head may take before the request is refused.
pub const MAX_REQUEST_HEAD: usize = 65536;

/// Whether `b` holds the blank line (`\r\n\r\n`) that ends a request head.
pub open spec fn has_header_end(b: Seq<u8>) -> bool {
    exists|i: int|
        0 <= i && i + 4 <= b.len() && #[trigger] b[i] == 13 && b[i + 1] == 10 && b[i + 2] == 13
            && b[i + 3] == 10
}

fn has_header_end_exec(b: &Vec<u8>) -> (r: bool)
    ensures
        r == has_header_end(b@),
{
    if b.len() < 4 {
        return false;
    }
    let mut i: usize = 0;
    while i <= b.len() - 4
        invariant
            b.len() >= 4,
            forall|j: int|
                0 <= j < i && j + 4 <= b@.len() ==> !(#[trigger] b@[j] == 13 && b@[j + 1] == 10
                    && b@[j + 2] == 13 && b@[j + 3] == 10),
        decreases b.len() - i,
    {
        if b[i] == 13 && b[i + 1] == 10 && b[i + 2] == 13 && b[i + 3] == 10 {
            return true;
        }
        i += 1;
    }
    false
}

/// What to do after a read from the client.
#[derive(Clone, Copy, Debug, PartialEq, Eq, Structural)]
pub enum ReadStep {
    /// Read more.
    NeedMore,
    /// The head is complete (or the client stopped sending): parse it.
    Complete,
    /// The head grew past `MAX_REQUEST_HEAD` without ending: refuse it.
    TooLarge,
}

/// The bytes of a request head, as they arrive.
pub struct RequestHead {
    buf: Vec<u8>,
}

/// The text of `bytes` with each invalid UTF-8 sequence replaced by U+FFFD
/// (`String::from_utf8_lossy`).
pub uninterp spec fn utf8_lossy(bytes: Seq<u8>) -> Seq<char>;

/// `String::from_utf8_lossy`: valid UTF-8 decodes to its characters; each
/// invalid sequence becomes U+FFFD (what that gives is named, not stated).
#[verifier::external_body]
fn decode_lossy(bytes: &[u8]) -> (s: String)
    ensures
        s@ == utf8_lossy(bytes@),
        valid_utf8(bytes@) ==> s@ == decode_utf8(bytes@),
{
    String::from_utf8_lossy(bytes).into_owned()
}

/// The first line of `text` (empty when there is none).
pub open spec fn request_line(text: Seq<char>) -> Seq<char> {
    let ls = lines(text);
    if ls.len() > 0 {
        ls[0]
    } else {
        seq![]
    }
}

/// The target of a `CONNECT` request line: its second word, when it has at
/// least two and the first is `CONNECT` in any ASCII case.
pub open spec fn connect_target(text: Seq<char>) -> Option<Seq<char>> {
    let parts = words(request_line(text));
    if parts.len() >= 2 && eq_ignore_ascii_case(parts[0], "CONNECT"@) {
        Some(parts[1])
    } else {
        None
    }
}

impl RequestHead {
    /// The bytes received so far.
    pub closed spec fn bytes(&self) -> Seq<u8> {
        self.buf@
    }

    /// An empty head.
    pub fn new() -> (h: RequestHead)
        ensures
            h.bytes() == Seq::<u8>::empty(),
    {
        RequestHead { buf: Vec::new() }
    }

    /// Takes the bytes of one read (`chunk` empty when the client stopped
    /// sending) and says whether to read on.
    pub fn absorb(&mut self, chunk: &[u8]) -> (step: ReadStep)
        ensures
            chunk@.len() == 0 ==> step == ReadStep::Complete && final(self).bytes() == old(
                self,
            ).bytes(),
            chunk@.len() > 0 ==> {
                &&& final(self).bytes() == old(self).bytes() + chunk@
                &&& step == if has_header_end(final(self).bytes()) {
                    ReadStep::Complete
                } else if final(self).bytes().len() > MAX_REQUEST_HEAD {
                    ReadStep::TooLarge
                } else {
                    ReadStep::NeedMore
                }
            },
    {
        if chunk.len() == 0 {
            return ReadStep::Complete;
        }
        self.buf.extend_from_slice(chunk);
        if has_header_end_exec(&self.buf) {
            ReadStep::Complete
        } else if self.buf.len() > MAX_REQUEST_HEAD {
            ReadStep::TooLarge
        } else {
            ReadStep::NeedMore
        }
    }

    /// The `host:port` target of the request, when its first line is a
    /// `CONNECT` request. The bytes are read as UTF-8, each invalid sequence
    /// taken as U+FFFD.
    pub fn target(&self) -> (t: Option<String>)
        ensures
            match t {
                Some(s) => connect_target(utf8_lossy(self.bytes())) == Some(s@),
                None => connect_target(utf8_lossy(self.bytes())) is None,
            },
            valid_utf8(self.bytes()) ==> match t {
                Some(s) => connect_target(decode_utf8(self.bytes())) == Some(s@),
                None => connect_target(decode_utf8(self.bytes())) is None,
            },
    {
        let text = decode_lossy(self.buf.as_slice());
        parse_connect_target(text.as_str())
    }
}

/// The `host:port` target of a request head's text, when its first line is
/// a `CONNECT` request.
pub fn parse_connect_target(text: &str) -> (t: Option<String>)
    ensures
        match t {
            Some(s) => connect_target(text@) == Some(s@),
            None => connect_target(text@) is None,
        },
{
    let cs = chars_of(text);
    let ls = lines_exec(&cs);
    let mut first: Vec<char> = Vec::new();
    if ls.len() > 0 {
        let mut k: usize = 0;
        while k < ls[0].len()
            invariant
                ls@.len() > 0,
                k <= ls@[0]@.len(),
                first@ =~= ls@[0]@.take(k as int),
            decreases ls@[0]@.len() - k,
        {
            first.push(ls[0][k]);
            k += 1;
        }
        assert(char_vec_views(ls@)[0] == ls@[0]@);
    }
    assert(first@ =~= request_line(text@));
    let parts = split_whitespace_exec(&first);
    assert(char_vec_views(parts@).len() == parts@.len());
    if parts.len() >= 2 {
        let connect = chars_of("CONNECT");
        assert(char_vec_views(parts@)[0] == parts@[0]@);
        assert(char_vec_views(parts@)[1] == parts@[1]@);
        if eq_ignore_ascii_case_exec(&parts[0], &connect) {
            return Some(string_from_chars(&parts[1]));
        }
    }
    None
}


// ---------------------------------------------------------------------------
// Command line of the proxy binary.
// ---------------------------------------------------------------------------

/// What the proxy binary runs with.
pub struct ProxyArgs {
    /// Address to listen on.
    pub listen: String,
    /// Allow-listed domains.
    pub allowlist: Vec<String>,
    /// Whether to print audit lines.
    pub audit: bool,
}

/// The listen address used when `--listen` is not given.
pub open spec fn default_listen() -> Seq<char> {
    "127.0.0.1:8080"@
}

/// The trimmed pieces that are not empty, in order.
pub open spec fn nonempty_trimmed(pieces: Seq<Seq<char>>) -> Seq<Seq<char>>
    decreases pieces.len(),
{
    if pieces.len() == 0 {
        seq![]
    } else {
        let rest = nonempty_trimmed(pieces.drop_last());
        let t = trim(pieces.last());
        if t.len() > 0 {
            rest.push(t)
        } else {
            rest
        }
    }
}

/// The domains of one `--allow` value: its comma-separated pieces, trimmed,
/// empty ones dropped.
pub open spec fn allow_entries(value: Seq<char>) -> Seq<Seq<char>> {
    nonempty_trimmed(split_char(value, ','))
}

/// The outcome of parsing `args` from a state that has `listen`, `allow` and
/// `audit` so far: `Ok((listen, allow-list, audit))` or `Err(message)`.
pub open spec fn parse_args_from(
    args: Seq<Seq<char>>,
    listen: Seq<char>,
    allow: Seq<Seq<char>>,
    audit: bool,
) -> Result<(Seq<char>, Seq<Seq<char>>, bool), Seq<char>>
    decreases args.len(),
{
    if args.len() == 0 {
        if allow.len() == 0 {
            Err("no domains allowed (use --allow domain1,domain2)"@)
        } else {
            Ok((listen, allow, audit))
        }
    } else if args[0] == "--listen"@ {
        if args.len() < 2 {
            Err("--listen needs a value"@)
        } else {
            parse_args_from(args.skip(2), args[1], allow, audit)
        }
    } else if args[0] == "--allow"@ {
        if args.len() < 2 {
            Err("--allow needs a value"@)
        } else {
            parse_args_from(args.skip(2), listen, allow + allow_entries(args[1]), audit)
        }
    } else if args[0] == "--audit"@ {
        parse_args_from(args.drop_first(), listen, allow, true)
    } else {
        Err("unknown argument: "@ + args[0])
    }
}

/// The outcome of parsing the proxy's arguments
/// (`[--listen ADDR] [--allow a.com,b.com]... [--audit]`).
pub open spec fn parse_args(args: Seq<Seq<char>>) -> Result<(Seq<char>, Seq<Seq<char>>, bool), Seq<char>> {
    parse_args_from(args, default_listen(), seq![], false)
}

fn allow_entries_exec(value: &str, allow: &mut Vec<String>)
    ensures
        entry_views(final(allow)@) == entry_views(old(allow)@) + allow_entries(value@),
{
    let cs = chars_of(value);
    let pieces = split_char_exec(&cs, ',');
    let ghost pv = char_vec_views(pieces@);
    let ghost start = entry_views(allow@);
    let mut i: usize = 0;
    assert(pv.take(0) =~= Seq::<Seq<char>>::empty());
    assert(start + nonempty_trimmed(pv.take(0)) =~= start);
    while i < pieces.len()
        invariant
            i <= pieces.len(),
            pv == char_vec_views(pieces@),
            pv == split_char(value@, ','),
            entry_views(allow@) == start + nonempty_trimmed(pv.take(i as int)),
        decreases pieces.len() - i,
    {
        let t = trim_exec(&pieces[i]);
        assert(pv.take(i + 1).drop_last() =~= pv.take(i as int));
        assert(pv.take(i + 1).last() == pieces@[i as int]@);
        if t.len() > 0 {
            let s = string_from_chars(&t);
            let ghost before = allow@;
            allow.push(s);
            assert(entry_views(allow@) =~= entry_views(before).push(t@));
        }
        i += 1;
    }
    assert(pv.take(pieces.len() as int) =~= pv);
}

/// Parses the proxy's arguments; `Err` holds the message to print.
pub fn parse_proxy_args(args: &Vec<String>) -> (r: Result<ProxyArgs, String>)
    ensures
        match r {
            Ok(a) => parse_args(entry_views(args@)) == Ok::<(Seq<char>, Seq<Seq<char>>, bool), Seq<char>>((a.listen@, entry_views(a.allowlist@), a.audit)),
            Err(m) => parse_args(entry_views(args@)) == Err::<(Seq<char>, Seq<Seq<char>>, bool), Seq<char>>(m@),
        },
{
    let ghost av = entry_views(args@);
    let mut listen = "127.0.0.1:8080".to_string();
    let mut allowlist: Vec<String> = Vec::new();
    let mut audit = false;
    let mut i: usize = 0;
    assert(av.skip(0) =~= av);
    assert(entry_views(allowlist@) =~= Seq::<Seq<char>>::empty());
    while i < args.len()
        invariant
            i <= args.len(),
            av == entry_views(args@),
            parse_args(av) == parse_args_from(av.skip(i as int), listen@, entry_views(allowlist@), audit),
        decreases args.len() - i,
    {
        let arg = args[i].as_str();
        let ghost rest = av.skip(i as int);
        assert(rest[0] == arg@);
        if str_eq(arg, "--listen") {
            if i + 1 >= args.len() {
                return Err("--listen needs a value".to_string());
            }
            assert(rest[1] == args@[i + 1]@);
            assert(rest.skip(2) =~= av.skip(i + 2));
            listen = args[i + 1].clone();
            i += 2;
        } else if str_eq(arg, "--allow") {
            if i + 1 >= args.len() {
                return Err("--allow needs a value".to_string());
            }
            assert(rest[1] == args@[i + 1]@);
            assert(rest.skip(2) =~= av.skip(i + 2));
            allow_entries_exec(args[i + 1].as_str(), &mut allowlist);
            i += 2;
        } else if str_eq(arg, "--audit") {
            assert(rest.drop_first() =~= av.skip(i + 1));
            audit = true;
            i += 1;
        } else {
            let msg = "unknown argument: ".to_string();
            return Err(msg.concat(arg));
        }
    }
    if allowlist.len() == 0 {
        return Err("no domains allowed (use --allow domain1,domain2)".to_string());
    }
    Ok(ProxyArgs { listen, allowlist, audit })
}


/// A `net` line is a single line even when the host, which comes from the
/// client, holds quotes, backslashes or line breaks.
pub proof fn lemma_net_line_is_one_line(host: Seq<char>, allowed: bool, ts: u64)
    ensures
        printable(net_line(host, allowed, ts)),
{
    let fs = net_fields(host, allowed, ts);
    lemma_json_quote_printable("net"@);
    lemma_json_quote_printable(host);
    lemma_decimal_printable(ts as nat);
    assert(printable(json_bool(allowed)));
    assert forall|i: int| 0 <= i < fs.len() implies printable(#[trigger] fs[i].1) by {}
    lemma_json_object_printable(fs);
}

/// Parsing that succeeds always yields at least one allowed domain: the proxy
/// never runs without an allow-list.
pub proof fn lemma_parsed_allowlist_nonempty(
    args: Seq<Seq<char>>,
    listen: Seq<char>,
    allow: Seq<Seq<char>>,
    audit: bool,
)
    ensures
        parse_args_from(args, listen, allow, audit) matches Ok(r) ==> r.1.len() > 0,
    decreases args.len(),
{
    if args.len() > 0 {
        if args[0] == "--listen"@ {
            if args.len() >= 2 {
                lemma_parsed_allowlist_nonempty(args.skip(2), args[1], allow, audit);
            }
        } else if args[0] == "--allow"@ {
            if args.len() >= 2 {
                lemma_parsed_allowlist_nonempty(
                    args.skip(2),
                    listen,
                    allow + allow_entries(args[1]),
                    audit,
                );
            }
        } else if args[0] == "--audit"@ {
            lemma_parsed_allowlist_nonempty(args.drop_first(), listen, allow, true);
        }
    }
}

/// Pieces that are already trimmed and not empty are kept as they are.
pub proof fn lemma_nonempty_trimmed_keeps(pieces: Seq<Seq<char>>)
    requires
        forall|i: int|
            0 <= i < pieces.len() ==> (#[trigger] pieces[i]).len() > 0 && !is_whitespace(
                pieces[i][0],
            ) && !is_whitespace(pieces[i].last()),
    ensures
        nonempty_trimmed(pieces) == pieces,
    decreases pieces.len(),
{
    if pieces.len() > 0 {
        let init = pieces.drop_last();
        assert forall|i: int| 0 <= i < init.len() implies (#[trigger] init[i]).len() > 0 && !is_whitespace(
            init[i][0],
        ) && !is_whitespace(init[i].last()) by {
            assert(init[i] == pieces[i]);
        }
        lemma_nonempty_trimmed_keeps(init);
        let p = pieces.last();
        assert(pieces[pieces.len() - 1] == p);
        assert(trim_start(p) == p);
        assert(trim_end(p) == p);
        assert(init.push(p) =~= pieces);
    }
}

/// Each domain an `--allow` value contributes is non-empty.
pub proof fn lemma_allow_entries_nonempty(pieces: Seq<Seq<char>>)
    ensures
        forall|i: int|
            0 <= i < nonempty_trimmed(pieces).len() ==> (#[trigger] nonempty_trimmed(pieces)[i]).len()
                > 0,
    decreases pieces.len(),
{
    if pieces.len() > 0 {
        lemma_allow_entries_nonempty(pieces.drop_last());
        let rest = nonempty_trimmed(pieces.drop_last());
        let t = trim(pieces.last());
        if t.len() > 0 {
            assert forall|i: int| 0 <= i < rest.push(t).len() implies (#[trigger] rest.push(t)[i]).len() > 0 by {
                if i < rest.len() {
                    assert(rest.push(t)[i] == rest[i]);
                }
            }
        }
    }
}


/// A `net` line holds exactly four members, each carrying what its name
/// says: the decided host, whether it was allowed, the event kind `net`, and
/// the time.
pub proof fn lemma_net_members(host: Seq<char>, allowed: bool, ts: u64)
    ensures
        net_line(host, allowed, ts) == json_object(net_fields(host, allowed, ts)),
        net_fields(host, allowed, ts).len() == 4,
        net_fields(host, allowed, ts).contains(("host"@, json_quote(host))),
        net_fields(host, allowed, ts).contains(("allowed"@, json_bool(allowed))),
        net_fields(host, allowed, ts).contains(("event"@, json_quote("net"@))),
        net_fields(host, allowed, ts).contains(("ts"@, decimal(ts as nat))),
        json_bool(allowed) == if allowed {
            "true"@
        } else {
            "false"@
        },
{
    reveal_strlit("true");
    reveal_strlit("false");
    let fs = net_fields(host, allowed, ts);
    assert(fs[0] == ("allowed"@, json_bool(allowed)));
    assert(fs[1] == ("event"@, json_quote("net"@)));
    assert(fs[2] == ("host"@, json_quote(host)));
    assert(fs[3] == ("ts"@, decimal(ts as nat)));
    assert(json_bool(allowed) =~= if allowed {
        "true"@
    } else {
        "false"@
    });
}

/// The members of a `net` line come in ascending key order, as `serde_json`
/// writes a map.
pub proof fn lemma_net_keys_ascending(host: Seq<char>, allowed: bool, ts: u64)
    ensures
        keys_ascending(net_fields(host, allowed, ts)),
{
    reveal_strlit("allowed");
    reveal_strlit("event");
    reveal_strlit("host");
    reveal_strlit("ts");
    assert("allowed"@.take(0) =~= "event"@.take(0));
    assert("allowed"@[0] == 'a');
    assert(key_before("allowed"@, "event"@));
    assert("event"@.take(0) =~= "host"@.take(0));
    assert("event"@[0] == 'e');
    assert(key_before("event"@, "host"@));
    assert("host"@.take(0) =~= "ts"@.take(0));
    assert("host"@[0] == 'h');
    assert(key_before("host"@, "ts"@));
}

} // verus!
