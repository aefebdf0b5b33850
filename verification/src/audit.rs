//! Audit trail: one JSON object per line, each with an `event` discriminator
//! (snake_case) and a `ts` field (Unix seconds). Members are written in
//! ascending key order, the order `serde_json` gives a map of members.
use crate::json::{key_before, keys_ascending, decimal, decimal_string, json_object, json_quote, json_string, render_object, field_views, printable, lemma_json_object_printable, lemma_json_quote_printable, lemma_decimal_printable};
use crate::text::{append_chars, lemma_char_vec_views_push, char_vec_views, chars_of, lines, lines_exec, strings_from_char_vecs, string_views};
use vstd::prelude::*;

verus! {

/// A single audited event.
#[derive(Debug, Clone)]
pub enum AuditEvent {
    /// A process was launched inside the sandbox.
    Launch { profile: String, command: String, pid: u32 },
    /// A sandboxed process exited with `code`.
    Exit { pid: u32, code: u32 },
    /// A file-system grant was applied to the sandbox identity.
    Grant { path: String, access: String },
    /// The loopback domain proxy started listening.
    ProxyStart { addr: String },
    /// The loopback domain proxy was stopped.
    ProxyStop,
}

/// The members of the audit line for `e` at time `ts`, in ascending key order.
pub open spec fn audit_fields(e: AuditEvent, ts: u64) -> Seq<(Seq<char>, Seq<char>)> {
    match e {
        AuditEvent::Launch { profile, command, pid } => seq![
            ("command"@, json_quote(command@)),
            ("event"@, json_quote("launch"@)),
            ("pid"@, decimal(pid as nat)),
            ("profile"@, json_quote(profile@)),
            ("ts"@, decimal(ts as nat)),
        ],
        AuditEvent::Exit { pid, code } => seq![
            ("code"@, decimal(code as nat)),
            ("event"@, json_quote("exit"@)),
            ("pid"@, decimal(pid as nat)),
            ("ts"@, decimal(ts as nat)),
        ],
        AuditEvent::Grant { path, access } => seq![
            ("access"@, json_quote(access@)),
            ("event"@, json_quote("grant"@)),
            ("path"@, json_quote(path@)),
            ("ts"@, decimal(ts as nat)),
        ],
        AuditEvent::ProxyStart { addr } => seq![
            ("addr"@, json_quote(addr@)),
            ("event"@, json_quote("proxy_start"@)),
            ("ts"@, decimal(ts as nat)),
        ],
        AuditEvent::ProxyStop => seq![
            ("event"@, json_quote("proxy_stop"@)),
            ("ts"@, decimal(ts as nat)),
        ],
    }
}

/// The audit line for `e` at time `ts`.
pub open spec fn audit_line(e: AuditEvent, ts: u64) -> Seq<char> {
    json_object(audit_fields(e, ts))
}

fn field(key: &str, value: String) -> (f: (String, String))
    ensures
        f.0@ == key@,
        f.1@ == value@,
{
    (key.to_string(), value)
}

impl AuditEvent {
    /// The JSON line recorded for this event at Unix time `ts` (no trailing
    /// newline).
    pub fn to_json_line(&self, ts: u64) -> (line: String)
        ensures
            line@ == audit_line(*self, ts),
    {
        let mut fields: Vec<(String, String)> = Vec::new();
        match self {
            AuditEvent::Launch { profile, command, pid } => {
                fields.push(field("command", json_string(command.as_str())));
                fields.push(field("event", json_string("launch")));
                fields.push(field("pid", decimal_string(*pid as u64)));
                fields.push(field("profile", json_string(profile.as_str())));
            },
            AuditEvent::Exit { pid, code } => {
                fields.push(field("code", decimal_string(*code as u64)));
                fields.push(field("event", json_string("exit")));
                fields.push(field("pid", decimal_string(*pid as u64)));
            },
            AuditEvent::Grant { path, access } => {
                fields.push(field("access", json_string(access.as_str())));
                fields.push(field("event", json_string("grant")));
                fields.push(field("path", json_string(path.as_str())));
            },
            AuditEvent::ProxyStart { addr } => {
                fields.push(field("addr", json_string(addr.as_str())));
                fields.push(field("event", json_string("proxy_start")));
            },
            AuditEvent::ProxyStop => {
                fields.push(field("event", json_string("proxy_stop")));
            },
        }
        fields.push(field("ts", decimal_string(ts)));
        assert(field_views(fields@) =~= audit_fields(*self, ts));
        render_object(&fields)
    }
}

/// An append-only JSON-lines log file, named by its path.
#[derive(Debug)]
pub struct AuditLog {
    path: String,
}

impl Clone for AuditLog {
    /// A handle on the same log: the path is kept.
    fn clone(&self) -> (c: AuditLog)
        ensures
            c.spec_path() == self.spec_path(),
    {
        AuditLog { path: self.path.clone() }
    }
}

impl AuditLog {
    /// The log's path.
    pub closed spec fn spec_path(&self) -> Seq<char> {
        self.path@
    }

    /// An audit log at an explicit path.
    pub fn at(path: String) -> (log: AuditLog)
        ensures
            log.spec_path() == path@,
    {
        AuditLog { path }
    }

    /// The log file path.
    pub fn path(&self) -> (p: &str)
        ensures
            p@ == self.spec_path(),
    {
        self.path.as_str()
    }
}

/// The last `n` of `ls` (all of them when there are fewer).
pub open spec fn last_n(ls: Seq<Seq<char>>, n: nat) -> Seq<Seq<char>> {
    if ls.len() <= n {
        ls
    } else {
        ls.skip(ls.len() - n)
    }
}

/// The last `n` lines of `text` (`str::lines`), as `AuditLog::read_tail`
/// returns them once the file is read.
pub fn tail_lines(text: &str, n: usize) -> (r: Vec<String>)
    ensures
        string_views(r@) == last_n(lines(text@), n as nat),
{
    let cs = chars_of(text);
    let all = lines_exec(&cs);
    let start: usize = if all.len() > n { all.len() - n } else { 0 };
    let mut tail: Vec<Vec<char>> = Vec::new();
    let mut i: usize = start;
    while i < all.len()
        invariant
            start <= i <= all.len(),
            char_vec_views(tail@) =~= char_vec_views(all@).subrange(start as int, i as int),
        decreases all.len() - i,
    {
        let mut line: Vec<char> = Vec::new();
        append_chars(&mut line, &all[i]);
        assert(line@ =~= all@[i as int]@);
        proof {
            lemma_char_vec_views_push(tail@, line);
        }
        tail.push(line);
        i += 1;
    }
    let r = strings_from_char_vecs(&tail);
    assert(string_views(r@) =~= char_vec_views(tail@));
    assert(string_views(r@) =~= last_n(lines(text@), n as nat));
    r
}


/// Each member of an audit line carries the event's field of the same name:
/// the line holds exactly the event's own fields, each under its name, plus
/// `event` (the event's kind) and `ts`, and nothing else.
pub proof fn lemma_audit_members(e: AuditEvent, ts: u64)
    ensures
        audit_line(e, ts) == json_object(audit_fields(e, ts)),
        audit_fields(e, ts).contains(("ts"@, decimal(ts as nat))),
        match e {
            AuditEvent::Launch { profile, command, pid } => {
                &&& audit_fields(e, ts).len() == 5
                &&& audit_fields(e, ts).contains(("event"@, json_quote("launch"@)))
                &&& audit_fields(e, ts).contains(("command"@, json_quote(command@)))
                &&& audit_fields(e, ts).contains(("profile"@, json_quote(profile@)))
                &&& audit_fields(e, ts).contains(("pid"@, decimal(pid as nat)))
            },
            AuditEvent::Exit { pid, code } => {
                &&& audit_fields(e, ts).len() == 4
                &&& audit_fields(e, ts).contains(("event"@, json_quote("exit"@)))
                &&& audit_fields(e, ts).contains(("pid"@, decimal(pid as nat)))
                &&& audit_fields(e, ts).contains(("code"@, decimal(code as nat)))
            },
            AuditEvent::Grant { path, access } => {
                &&& audit_fields(e, ts).len() == 4
                &&& audit_fields(e, ts).contains(("event"@, json_quote("grant"@)))
                &&& audit_fields(e, ts).contains(("path"@, json_quote(path@)))
                &&& audit_fields(e, ts).contains(("access"@, json_quote(access@)))
            },
            AuditEvent::ProxyStart { addr } => {
                &&& audit_fields(e, ts).len() == 3
                &&& audit_fields(e, ts).contains(("event"@, json_quote("proxy_start"@)))
                &&& audit_fields(e, ts).contains(("addr"@, json_quote(addr@)))
            },
            AuditEvent::ProxyStop => {
                &&& audit_fields(e, ts).len() == 2
                &&& audit_fields(e, ts).contains(("event"@, json_quote("proxy_stop"@)))
            },
        },
{
    let fs = audit_fields(e, ts);
    match e {
        AuditEvent::Launch { profile, command, pid } => {
            assert(fs[0] == ("command"@, json_quote(command@)));
            assert(fs[1] == ("event"@, json_quote("launch"@)));
            assert(fs[2] == ("pid"@, decimal(pid as nat)));
            assert(fs[3] == ("profile"@, json_quote(profile@)));
            assert(fs[4] == ("ts"@, decimal(ts as nat)));
        },
        AuditEvent::Exit { pid, code } => {
            assert(fs[0] == ("code"@, decimal(code as nat)));
            assert(fs[1] == ("event"@, json_quote("exit"@)));
            assert(fs[2] == ("pid"@, decimal(pid as nat)));
            assert(fs[3] == ("ts"@, decimal(ts as nat)));
        },
        AuditEvent::Grant { path, access } => {
            assert(fs[0] == ("access"@, json_quote(access@)));
            assert(fs[1] == ("event"@, json_quote("grant"@)));
            assert(fs[2] == ("path"@, json_quote(path@)));
            assert(fs[3] == ("ts"@, decimal(ts as nat)));
        },
        AuditEvent::ProxyStart { addr } => {
            assert(fs[0] == ("addr"@, json_quote(addr@)));
            assert(fs[1] == ("event"@, json_quote("proxy_start"@)));
            assert(fs[2] == ("ts"@, decimal(ts as nat)));
        },
        AuditEvent::ProxyStop => {
            assert(fs[0] == ("event"@, json_quote("proxy_stop"@)));
            assert(fs[1] == ("ts"@, decimal(ts as nat)));
        },
    }
}

/// Every audit line is a single line: whatever the event's strings hold, the
/// line has no line break or other control character.
pub proof fn lemma_audit_line_is_one_line(e: AuditEvent, ts: u64)
    ensures
        printable(audit_line(e, ts)),
{
    let fs = audit_fields(e, ts);
    assert forall|i: int| 0 <= i < fs.len() implies printable(#[trigger] fs[i].1) by {
        match e {
            AuditEvent::Launch { profile, command, pid } => {
                lemma_json_quote_printable(command@);
                lemma_json_quote_printable("launch"@);
                lemma_decimal_printable(pid as nat);
                lemma_json_quote_printable(profile@);
                lemma_decimal_printable(ts as nat);
            },
            AuditEvent::Exit { pid, code } => {
                lemma_decimal_printable(code as nat);
                lemma_json_quote_printable("exit"@);
                lemma_decimal_printable(pid as nat);
                lemma_decimal_printable(ts as nat);
            },
            AuditEvent::Grant { path, access } => {
                lemma_json_quote_printable(access@);
                lemma_json_quote_printable("grant"@);
                lemma_json_quote_printable(path@);
                lemma_decimal_printable(ts as nat);
            },
            AuditEvent::ProxyStart { addr } => {
                lemma_json_quote_printable(addr@);
                lemma_json_quote_printable("proxy_start"@);
                lemma_decimal_printable(ts as nat);
            },
            AuditEvent::ProxyStop => {
                lemma_json_quote_printable("proxy_stop"@);
                lemma_decimal_printable(ts as nat);
            },
        }
    }
    lemma_json_object_printable(fs);
}

/// The tail holds `min(n, count)` lines, and they are the last lines, in
/// order.
pub proof fn lemma_last_n(ls: Seq<Seq<char>>, n: nat)
    ensures
        last_n(ls, n).len() == if ls.len() <= n {
            ls.len()
        } else {
            n
        },
        forall|i: int|
            0 <= i < last_n(ls, n).len() ==> #[trigger] last_n(ls, n)[i] == ls[ls.len() - last_n(
                ls,
                n,
            ).len() + i],
{
}


proof fn lemma_key_before(a: Seq<char>, b: Seq<char>, i: int)
    requires
        0 <= i < a.len(),
        i < b.len(),
        forall|j: int| 0 <= j < i ==> a[j] == b[j],
        (a[i] as u32) < (b[i] as u32),
    ensures
        key_before(a, b),
{
    assert(a.take(i) =~= b.take(i));
}

/// The members of every audit line come in ascending key order, so a line is
/// the text `serde_json` gives the same members.
pub proof fn lemma_audit_keys_ascending(e: AuditEvent, ts: u64)
    ensures
        keys_ascending(audit_fields(e, ts)),
{
    reveal_strlit("access");
    reveal_strlit("addr");
    reveal_strlit("code");
    reveal_strlit("command");
    reveal_strlit("event");
    reveal_strlit("path");
    reveal_strlit("pid");
    reveal_strlit("profile");
    reveal_strlit("ts");
    lemma_key_before("access"@, "event"@, 0);
    lemma_key_before("addr"@, "event"@, 0);
    lemma_key_before("code"@, "event"@, 0);
    lemma_key_before("command"@, "event"@, 0);
    lemma_key_before("event"@, "path"@, 0);
    lemma_key_before("event"@, "pid"@, 0);
    lemma_key_before("event"@, "ts"@, 0);
    lemma_key_before("path"@, "ts"@, 0);
    lemma_key_before("pid"@, "ts"@, 0);
    lemma_key_before("pid"@, "profile"@, 1);
    lemma_key_before("profile"@, "ts"@, 0);
}

} // verus!
