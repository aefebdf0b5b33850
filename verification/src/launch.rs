//! What a sandboxed launch hands to `CreateProcessW`: the command line, the
//! creation flags, and the proxy environment the child inherits.
use crate::text::{append_chars, chars_of, has_char, has_char_exec, is_whitespace, is_whitespace_exec, string_from_chars};
use vstd::prelude::*;

verus! {

/// Whether `s` holds a whitespace character.
pub open spec fn has_whitespace(s: Seq<char>) -> bool {
    exists|i: int| 0 <= i < s.len() && is_whitespace(#[trigger] s[i])
}

/// `s` with each `"` written as a backslash and a quote (`str::replace`).
pub open spec fn escape_quotes(s: Seq<char>) -> Seq<char>
    decreases s.len(),
{
    if s.len() == 0 {
        seq![]
    } else {
        (if s[0] == '"' {
            seq!['\\', '"']
        } else {
            seq![s[0]]
        }) + escape_quotes(s.drop_first())
    }
}

/// An argument as it is written on the command line: wrapped in double quotes
/// (inner quotes escaped) when it holds whitespace or a quote, as it is
/// otherwise.
pub open spec fn quote_arg(a: Seq<char>) -> Seq<char> {
    if has_whitespace(a) || has_char(a, '"') {
        seq!['"'] + escape_quotes(a) + seq!['"']
    } else {
        a
    }
}

/// The command line: the quoted program path, then each argument after a
/// space.
pub open spec fn cmdline(exe: Seq<char>, args: Seq<Seq<char>>) -> Seq<char>
    decreases args.len(),
{
    if args.len() == 0 {
        seq!['"'] + exe + seq!['"']
    } else {
        cmdline(exe, args.drop_last()) + seq![' '] + quote_arg(args.last())
    }
}

/// The views of a slice of string slices.
pub open spec fn str_views(args: Seq<&str>) -> Seq<Seq<char>> {
    args.map_values(|a: &str| a@)
}

fn has_whitespace_exec(s: &Vec<char>) -> (b: bool)
    ensures
        b == has_whitespace(s@),
{
    let mut i: usize = 0;
    while i < s.len()
        invariant
            i <= s.len(),
            forall|j: int| 0 <= j < i ==> !is_whitespace(#[trigger] s@[j]),
        decreases s.len() - i,
    {
        if is_whitespace_exec(s[i]) {
            return true;
        }
        i += 1;
    }
    false
}

fn push_escaped(out: &mut Vec<char>, a: &Vec<char>)
    ensures
        final(out)@ == old(out)@ + escape_quotes(a@),
{
    let mut i: usize = 0;
    assert(a@.skip(0) =~= a@);
    while i < a.len()
        invariant
            i <= a.len(),
            old(out)@ + escape_quotes(a@) == out@ + escape_quotes(a@.skip(i as int)),
        decreases a.len() - i,
    {
        let ghost rest = a@.skip(i as int);
        assert(rest.drop_first() =~= a@.skip(i + 1));
        if a[i] == '"' {
            out.push('\\');
            out.push('"');
        } else {
            out.push(a[i]);
        }
        assert(out@ + escape_quotes(a@.skip(i + 1)) =~= old(out)@ + escape_quotes(a@));
        i += 1;
    }
    assert(a@.skip(a.len() as int) =~= Seq::<char>::empty());
    assert(out@ =~= old(out)@ + escape_quotes(a@));
}

/// Escaping works character by character: the escape of a concatenation is
/// the concatenation of the escapes.
pub proof fn lemma_escape_quotes_concat(s: Seq<char>, t: Seq<char>)
    ensures
        escape_quotes(s + t) == escape_quotes(s) + escape_quotes(t),
    decreases s.len(),
{
    if s.len() == 0 {
        assert(s + t =~= t);
    } else {
        assert((s + t).drop_first() =~= s.drop_first() + t);
        lemma_escape_quotes_concat(s.drop_first(), t);
    }
}

/// Escaping changes double quotes only: a `"` becomes a backslash and the
/// quote, every other character (a backslash too) stays as it is, so an
/// argument without a `"` is left unchanged; and an argument that holds
/// whitespace but no `"` is written between two quotes exactly as it is.
pub proof fn lemma_escape_quotes(s: Seq<char>, c: char)
    ensures
        c != '"' ==> escape_quotes(seq![c]) == seq![c],
        escape_quotes(seq!['"']) == seq!['\\', '"'],
        (forall|i: int| 0 <= i < s.len() ==> s[i] != '"') ==> escape_quotes(s) == s,
        (forall|i: int| 0 <= i < s.len() ==> s[i] != '"') && (exists|i: int|
            0 <= i < s.len() && is_whitespace(#[trigger] s[i])) ==> quote_arg(s) == seq!['"'] + s
            + seq!['"'],
    decreases s.len(),
{
    assert(seq![c].drop_first() =~= Seq::<char>::empty());
    assert(seq!['"'].drop_first() =~= Seq::<char>::empty());
    if s.len() > 0 {
        lemma_escape_quotes(s.drop_first(), c);
        if forall|i: int| 0 <= i < s.len() ==> s[i] != '"' {
            assert(forall|i: int|
                0 <= i < s.drop_first().len() ==> s.drop_first()[i] == s[i + 1]);
            assert(escape_quotes(s) =~= seq![s[0]] + s.drop_first());
            assert(escape_quotes(s) =~= s);
        }
    } else {
        assert(escape_quotes(s) =~= s);
    }
}

/// Build the command line: quoted program path + args.
///
/// Args containing whitespace or quotes are wrapped in double quotes (basic
/// Windows command-line quoting, sufficient for common cases).
pub fn build_cmdline(exe: &str, args: &[&str]) -> (cmd: String)
    ensures
        cmd@ == cmdline(exe@, str_views(args@)),
{
    let ghost av = str_views(args@);
    let mut out: Vec<char> = Vec::new();
    out.push('"');
    let e = chars_of(exe);
    append_chars(&mut out, &e);
    out.push('"');
    assert(out@ =~= cmdline(exe@, av.take(0)));
    let mut i: usize = 0;
    while i < args.len()
        invariant
            i <= args.len(),
            av == str_views(args@),
            out@ == cmdline(exe@, av.take(i as int)),
        decreases args.len() - i,
    {
        let a = chars_of(args[i]);
        assert(a@ == av[i as int]);
        out.push(' ');
        if has_whitespace_exec(&a) || has_char_exec(&a, '"') {
            out.push('"');
            push_escaped(&mut out, &a);
            out.push('"');
        } else {
            append_chars(&mut out, &a);
        }
        assert(av.take(i + 1).drop_last() =~= av.take(i as int));
        assert(out@ =~= cmdline(exe@, av.take(i + 1)));
        i += 1;
    }
    assert(av.take(args.len() as int) =~= av);
    string_from_chars(&out)
}

/// Whether a sandboxed process gets the `internetClient` capability: only
/// when its traffic is not routed through the domain proxy (`proxy_addr` is
/// `None`); a process that could connect out directly would get past the
/// allow-list. The proxy itself is launched with no proxy address, and so
/// with the capability.
pub fn internet_capability(proxy_addr: Option<&str>) -> (b: bool)
    ensures
        b <==> proxy_addr is None,
{
    proxy_addr.is_none()
}

/// `EXTENDED_STARTUPINFO_PRESENT`.
pub const EXTENDED_STARTUPINFO_PRESENT: u32 = 0x0008_0000;

/// `CREATE_NEW_CONSOLE`.
pub const CREATE_NEW_CONSOLE: u32 = 0x0000_0010;

/// The `CreateProcessW` creation flags: an extended startup info always (it
/// carries the AppContainer attributes), plus a new console when asked.
pub fn creation_flags(new_console: bool) -> (f: u32)
    ensures
        f == if new_console {
            0x0008_0010u32
        } else {
            0x0008_0000u32
        },
{
    if new_console {
        0x0008_0010
    } else {
        0x0008_0000
    }
}

/// The environment a child routed through the loopback proxy at `addr`
/// inherits: `HTTP(S)_PROXY` (both cases) set to `http://addr`, and
/// `NO_PROXY` (both cases) keeping loopback itself direct.
pub open spec fn proxy_env(addr: Seq<char>) -> Seq<(Seq<char>, Seq<char>)> {
    let url = "http://"@ + addr;
    seq![
        ("HTTP_PROXY"@, url),
        ("http_proxy"@, url),
        ("HTTPS_PROXY"@, url),
        ("https_proxy"@, url),
        ("NO_PROXY"@, "127.0.0.1,localhost"@),
        ("no_proxy"@, "127.0.0.1,localhost"@),
    ]
}

/// The views of `(name, value)` pairs.
pub open spec fn env_views(v: Seq<(String, String)>) -> Seq<(Seq<char>, Seq<char>)> {
    v.map_values(|p: (String, String)| (p.0@, p.1@))
}

/// The variables to set, in order, so that a child routes its HTTP(S) traffic
/// through the loopback proxy at `addr`.
pub fn proxy_environment(addr: &str) -> (env: Vec<(String, String)>)
    ensures
        env_views(env@) == proxy_env(addr@),
{
    let url = "http://".to_string().concat(addr);
    let no_proxy = "127.0.0.1,localhost";
    let mut env: Vec<(String, String)> = Vec::new();
    env.push(("HTTP_PROXY".to_string(), url.clone()));
    env.push(("http_proxy".to_string(), url.clone()));
    env.push(("HTTPS_PROXY".to_string(), url.clone()));
    env.push(("https_proxy".to_string(), url));
    env.push(("NO_PROXY".to_string(), no_proxy.to_string()));
    env.push(("no_proxy".to_string(), no_proxy.to_string()));
    assert(env_views(env@) =~= proxy_env(addr@));
    env
}


/// The arguments are written in their order: the command line for `a`
/// followed by `b` is that for `a`, then each argument of `b`, quoted as
/// needed, after a space, just as it follows the program path alone.
pub proof fn lemma_cmdline_append(exe: Seq<char>, a: Seq<Seq<char>>, b: Seq<Seq<char>>)
    ensures
        cmdline(exe, a + b) == cmdline(exe, a) + cmdline(exe, b).skip(exe.len() as int + 2),
        cmdline(exe, seq![]) == seq!['"'] + exe + seq!['"'],
    decreases b.len(),
{
    let head = seq!['"'] + exe + seq!['"'];
    if b.len() == 0 {
        assert(a + b =~= a);
        assert(head.skip(exe.len() as int + 2) =~= Seq::<char>::empty());
        assert(cmdline(exe, a) + Seq::<char>::empty() =~= cmdline(exe, a));
    } else {
        lemma_cmdline_append(exe, a, b.drop_last());
        assert((a + b).drop_last() =~= a + b.drop_last());
        assert((a + b).last() == b.last());
        lemma_cmdline_shape(exe, b.drop_last(), b.last());
        let pb = cmdline(exe, b.drop_last());
        let tail = seq![' '] + quote_arg(b.last());
        assert((pb + tail).skip(exe.len() as int + 2) =~= pb.skip(exe.len() as int + 2) + tail);
        assert(cmdline(exe, b) == pb + seq![' '] + quote_arg(b.last()));
        assert(pb + seq![' '] + quote_arg(b.last()) =~= pb + tail);
        assert(cmdline(exe, a + b) == cmdline(exe, a + b.drop_last()) + seq![' '] + quote_arg(b.last()));
        assert(cmdline(exe, a + b) =~= cmdline(exe, a) + cmdline(exe, b).skip(exe.len() as int + 2));
    }
}


/// The command line starts with the program path in double quotes, and an
/// argument with no whitespace and no quote is written as it is.
pub proof fn lemma_cmdline_shape(exe: Seq<char>, args: Seq<Seq<char>>, a: Seq<char>)
    ensures
        cmdline(exe, args).len() >= exe.len() + 2,
        cmdline(exe, args).take(exe.len() as int + 2) == seq!['"'] + exe + seq!['"'],
        !has_whitespace(a) && !has_char(a, '"') ==> quote_arg(a) == a,
    decreases args.len(),
{
    if args.len() > 0 {
        lemma_cmdline_shape(exe, args.drop_last(), a);
        let prev = cmdline(exe, args.drop_last());
        assert((prev + seq![' '] + quote_arg(args.last())).take(exe.len() as int + 2) =~= prev.take(exe.len() as int + 2));
    } else {
        assert((seq!['"'] + exe + seq!['"']).take(exe.len() as int + 2) =~= seq!['"'] + exe + seq!['"']);
    }
}

} // verus!
