//! The sandbox configuration (`aegis.toml`) and what a run derives from
//! it: the grants to apply, the sandbox identity, and the proxy to start.
use crate::access::{access_bits, lemma_access_levels, FileAccess, GENERIC_READ, GENERIC_WRITE};
use crate::json::{decimal, decimal_string};
use crate::sandbox::{Capability, SandboxConfig};
use crate::proxy::{allow_entries, lemma_nonempty_trimmed_keeps, parse_args, parse_args_from};
use crate::text::{is_whitespace, lemma_split_join, ascii_lower_code, ascii_lower_code_exec, chars_of, has_char, has_char_exec, join, join_exec, string_views};
use vstd::prelude::*;

verus! {

/// A parsed `aegis.toml`.
#[derive(Debug, Clone)]
pub struct Config {
    /// AppContainer profile name (identity). Default `"aegis"`.
    pub profile: String,
    /// Program to sandbox: a bare name (resolved from PATH) or a full path.
    /// Empty by default: the configuration names it.
    pub command: String,
    /// File-system grants.
    pub files: Files,
    /// Network domain allow-list.
    pub network: Network,
    /// Process allow-list.
    pub process: Process,
}

/// File-system grants.
#[derive(Debug, Clone)]
pub struct Files {
    /// Directories the sandbox may read (and traverse).
    pub read: Vec<String>,
    /// Directories the sandbox may write (implies read).
    pub write: Vec<String>,
}

/// Network domain allow-list.
#[derive(Debug, Clone)]
pub struct Network {
    /// Domains the sandbox may reach, enforced by the loopback proxy.
    /// Empty means no domain filter (network governed by capabilities only).
    pub domains: Vec<String>,
}

/// Process allow-list.
#[derive(Debug, Clone)]
pub struct Process {
    /// Executable paths the sandbox may launch. Empty means "allow all".
    pub allow: Vec<String>,
}

impl Default for Files {
    fn default() -> (f: Files)
        ensures
            f.read@.len() == 0,
            f.write@.len() == 0,
    {
        Files { read: Vec::new(), write: Vec::new() }
    }
}

impl Default for Network {
    fn default() -> (n: Network)
        ensures
            n.domains@.len() == 0,
    {
        Network { domains: Vec::new() }
    }
}

impl Default for Process {
    fn default() -> (p: Process)
        ensures
            p.allow@.len() == 0,
    {
        Process { allow: Vec::new() }
    }
}

impl Default for Config {
    fn default() -> (c: Config)
        ensures
            c.profile@ == "aegis"@,
            c.command@.len() == 0,
            c.files.read@.len() == 0,
            c.files.write@.len() == 0,
            c.network.domains@.len() == 0,
            c.process.allow@.len() == 0,
    {
        Config {
            profile: "aegis".to_string(),
            command: String::new(),
            files: Files::default(),
            network: Network::default(),
            process: Process::default(),
        }
    }
}

/// The starter configuration written by `aegis init`.
pub open spec fn template_text() -> Seq<char> {
    "# aegis sandbox configuration
# `aegis run` launches `command` inside an AppContainer sandbox.

# AppContainer profile name (identity). Default: aegis.
profile = \"aegis\"

# Program to sandbox: a bare name (resolved from PATH) or a full path.
command = \"\"

[files]
# Directories the sandbox may READ (and traverse). Everything else is hidden.
read = []
# Directories the sandbox may WRITE (implies read).
write = []

[network]
# Domains the sandbox may reach, via a loopback proxy. Empty = no domain filter.
domains = [\"anthropic.com\"]

[process]
# Executable paths the sandbox may launch. Empty = allow all.
allow = []
"@
}

impl Config {
    /// The default file name the CLI looks for.
    pub const FILE_NAME: &'static str = "aegis.toml";

    /// A starter template, written by `aegis init`.
    pub fn template() -> (t: &'static str)
        ensures
            t@ == template_text(),
    {
        "# aegis sandbox configuration
# `aegis run` launches `command` inside an AppContainer sandbox.

# AppContainer profile name (identity). Default: aegis.
profile = \"aegis\"

# Program to sandbox: a bare name (resolved from PATH) or a full path.
command = \"\"

[files]
# Directories the sandbox may READ (and traverse). Everything else is hidden.
read = []
# Directories the sandbox may WRITE (implies read).
write = []

[network]
# Domains the sandbox may reach, via a loopback proxy. Empty = no domain filter.
domains = [\"anthropic.com\"]

[process]
# Executable paths the sandbox may launch. Empty = allow all.
allow = []
"
    }
}


// ---------------------------------------------------------------------------
// What a run derives from a configuration.
// ---------------------------------------------------------------------------

/// The directory grants of a run, in order: each read directory with
/// read+execute, each write directory with read+write, then the project
/// directory (when one is given) with read+write.
pub open spec fn grant_plan(
    read: Seq<Seq<char>>,
    write: Seq<Seq<char>>,
    dir: Option<Seq<char>>,
) -> Seq<(Seq<char>, FileAccess)> {
    with_access(read, FileAccess::ReadExecute) + with_access(write, FileAccess::ReadWrite) + match dir {
        Some(d) => seq![(d, FileAccess::ReadWrite)],
        None => seq![],
    }
}

/// Each directory paired with `access`.
pub open spec fn with_access(dirs: Seq<Seq<char>>, access: FileAccess) -> Seq<(Seq<char>, FileAccess)> {
    dirs.map_values(|d: Seq<char>| (d, access))
}

/// The views of `(path, access)` pairs.
pub open spec fn grant_views(g: Seq<(String, FileAccess)>) -> Seq<(Seq<char>, FileAccess)> {
    g.map_values(|p: (String, FileAccess)| (p.0@, p.1))
}

/// The arguments the domain proxy is started with, when the configuration
/// has domains: listen on `addr`, allow the domains (comma-joined), and print
/// audit lines when `audit` is set. No domains means no proxy.
pub open spec fn proxy_plan(domains: Seq<Seq<char>>, addr: Seq<char>, audit: bool) -> Option<
    Seq<Seq<char>>,
> {
    if domains.len() == 0 {
        None
    } else {
        let base = seq!["--listen"@, addr, "--allow"@, join(domains, ","@)];
        Some(
            if audit {
                base.push("--audit"@)
            } else {
                base
            },
        )
    }
}

fn push_grants(out: &mut Vec<(String, FileAccess)>, dirs: &Vec<String>, access: FileAccess)
    ensures
        grant_views(final(out)@) == grant_views(old(out)@) + with_access(string_views(dirs@), access),
{
    let ghost start = grant_views(out@);
    let ghost dv = string_views(dirs@);
    let mut i: usize = 0;
    while i < dirs.len()
        invariant
            i <= dirs.len(),
            dv == string_views(dirs@),
            grant_views(out@) == start + with_access(dv.take(i as int), access),
        decreases dirs.len() - i,
    {
        let ghost before = out@;
        out.push((dirs[i].clone(), access));
        assert(grant_views(out@) =~= grant_views(before).push((dv[i as int], access)));
        assert(with_access(dv.take(i + 1), access) =~= with_access(dv.take(i as int), access).push(
            (dv[i as int], access),
        ));
        i += 1;
    }
    assert(dv.take(dirs.len() as int) =~= dv);
}

impl Config {
    /// The sandbox a run creates: this configuration's profile and process
    /// allow-list, with the given capabilities and audit log.
    pub fn sandbox_config(&self, capabilities: Vec<Capability>, audit_log: Option<String>) -> (c:
        SandboxConfig)
        ensures
            c.profile_name@ == self.profile@,
            c.capabilities@ == capabilities@,
            string_views(c.allowed_binaries@) == string_views(self.process.allow@),
            c.audit_log == audit_log,
    {
        let allowed = self.process.allow.clone();
        assert(string_views(allowed@) =~= string_views(self.process.allow@));
        SandboxConfig {
            profile_name: self.profile.clone(),
            capabilities,
            allowed_binaries: allowed,
            audit_log,
        }
    }

    /// The directory grants of a run (see [`grant_plan`]); `dir` is the
    /// project directory given on the command line.
    pub fn directory_grants(&self, dir: Option<&str>) -> (g: Vec<(String, FileAccess)>)
        ensures
            grant_views(g@) == grant_plan(
                string_views(self.files.read@),
                string_views(self.files.write@),
                match dir {
                    Some(d) => Some(d@),
                    None => None::<Seq<char>>,
                },
            ),
    {
        let mut g: Vec<(String, FileAccess)> = Vec::new();
        assert(grant_views(g@) =~= Seq::<(Seq<char>, FileAccess)>::empty());
        push_grants(&mut g, &self.files.read, FileAccess::ReadExecute);
        push_grants(&mut g, &self.files.write, FileAccess::ReadWrite);
        let ghost before = g@;
        match dir {
            Some(d) => {
                g.push((d.to_string(), FileAccess::ReadWrite));
                assert(grant_views(g@) =~= grant_views(before).push((d@, FileAccess::ReadWrite)));
            },
            None => {},
        }
        assert(grant_views(g@) =~= grant_plan(
            string_views(self.files.read@),
            string_views(self.files.write@),
            match dir {
                Some(d) => Some(d@),
                None => None::<Seq<char>>,
            },
        ));
        g
    }

    /// The arguments to start the domain proxy with (see [`proxy_plan`]):
    /// `None` when the configuration has no domains.
    pub fn proxy_args(&self, addr: &str, audit: bool) -> (a: Option<Vec<String>>)
        ensures
            match a {
                Some(v) => proxy_plan(string_views(self.network.domains@), addr@, audit) == Some(
                    string_views(v@),
                ),
                None => proxy_plan(string_views(self.network.domains@), addr@, audit) is None,
            },
    {
        if self.network.domains.len() == 0 {
            return None;
        }
        let mut v: Vec<String> = Vec::new();
        v.push("--listen".to_string());
        v.push(addr.to_string());
        v.push("--allow".to_string());
        v.push(join_exec(&self.network.domains, ","));
        if audit {
            v.push("--audit".to_string());
        }
        assert(string_views(v@) =~= proxy_plan(string_views(self.network.domains@), addr@, audit)->0);
        Some(v)
    }
}

/// The loopback address `127.0.0.1:PORT` the proxy listens on.
pub fn loopback_addr(port: u16) -> (a: String)
    ensures
        a@ == "127.0.0.1:"@ + decimal(port as nat),
{
    "127.0.0.1:".to_string().concat(decimal_string(port as u64).as_str())
}

/// Whether a command names a path (it holds a `/` or a `\`) rather than a
/// program to look up on `PATH`. Every absolute path holds a separator, so
/// this also covers `Path::is_absolute`.
pub open spec fn names_a_path(cmd: Seq<char>) -> bool {
    has_char(cmd, '/') || has_char(cmd, '\\')
}

pub fn names_a_path_exec(cmd: &str) -> (b: bool)
    ensures
        b == names_a_path(cmd@),
{
    let cs = chars_of(cmd);
    has_char_exec(&cs, '/') || has_char_exec(&cs, '\\')
}

/// Whether `cmd` ends in `.exe`, in any case. (Lower-casing only turns `E`
/// and `X` into `e` and `x`, so this is `to_lowercase().ends_with(".exe")`.)
pub open spec fn has_exe_suffix(cmd: Seq<char>) -> bool {
    let n = cmd.len();
    n >= 4 && cmd[n - 4] == '.' && ascii_lower_code(cmd[n - 3]) == 0x65 && ascii_lower_code(
        cmd[n - 2],
    ) == 0x78 && ascii_lower_code(cmd[n - 1]) == 0x65
}

/// The file name a bare command is looked up under on `PATH`: the command
/// itself when it already ends in `.exe`, else the command with `.exe`.
pub fn exe_file_name(cmd: &str) -> (name: String)
    ensures
        name@ == if has_exe_suffix(cmd@) {
            cmd@
        } else {
            cmd@ + ".exe"@
        },
{
    let cs = chars_of(cmd);
    let n = cs.len();
    if n >= 4 && cs[n - 4] == '.' && ascii_lower_code_exec(cs[n - 3]) == 0x65
        && ascii_lower_code_exec(cs[n - 2]) == 0x78 && ascii_lower_code_exec(cs[n - 1]) == 0x65 {
        cmd.to_string()
    } else {
        cmd.to_string().concat(".exe")
    }
}

/// The status the CLI exits with after the sandboxed program exits with
/// `code`: none for `0`, else the code as a process status.
pub fn exit_status(code: u32) -> (s: Option<i32>)
    ensures
        code == 0 ==> s is None,
        code != 0 ==> s == Some(code as i32),
{
    if code != 0 {
        Some(code as i32)
    } else {
        None
    }
}


/// A run starts the domain proxy exactly when the configuration lists
/// domains ("empty = no domain filter").
pub proof fn lemma_proxy_iff_domains(domains: Seq<Seq<char>>, addr: Seq<char>, audit: bool)
    ensures
        proxy_plan(domains, addr, audit) is Some <==> domains.len() > 0,
{
}

/// The proxy's command line, with at least one domain: `--listen` and the
/// address, then `--allow` and the domains joined by commas, whether or not
/// auditing is on; auditing only adds `--audit` at the end.
pub proof fn lemma_proxy_plan_shape(domains: Seq<Seq<char>>, addr: Seq<char>, audit: bool)
    requires
        domains.len() > 0,
    ensures
        proxy_plan(domains, addr, audit) matches Some(v) && v.len() == (if audit {
            5int
        } else {
            4int
        }) && v[0] == "--listen"@ && v[1] == addr && v[2] == "--allow"@ && v[3] == join(
            domains,
            ","@,
        ) && (audit ==> v[4] == "--audit"@),
        proxy_plan(domains, addr, true) == Some(
            proxy_plan(domains, addr, false)->0.push("--audit"@),
        ),
{
}

/// The proxy reads back what the plan tells it: parsing the planned command
/// line gives the planned listen address, exactly the configured domains (in
/// order), and auditing as planned, provided each domain is non-empty, holds
/// no comma, and has no surrounding whitespace.
pub proof fn lemma_proxy_plan_round_trip(domains: Seq<Seq<char>>, addr: Seq<char>, audit: bool)
    requires
        domains.len() > 0,
        forall|i: int|
            0 <= i < domains.len() ==> (#[trigger] domains[i]).len() > 0 && !is_whitespace(
                domains[i][0],
            ) && !is_whitespace(domains[i].last()),
        forall|i: int, j: int|
            0 <= i < domains.len() && 0 <= j < domains[i].len() ==> #[trigger] domains[i][j] != ',',
    ensures
        proxy_plan(domains, addr, audit) matches Some(v) && parse_args(v) == Ok::<
            (Seq<char>, Seq<Seq<char>>, bool),
            Seq<char>,
        >((addr, domains, audit)),
{
    reveal_strlit(",");
    reveal_strlit("--listen");
    reveal_strlit("--allow");
    reveal_strlit("--audit");
    assert(","@ =~= seq![',']);
    lemma_split_join(domains, ',');
    lemma_nonempty_trimmed_keeps(domains);
    let j = join(domains, ","@);
    assert(allow_entries(j) == domains);
    assert("--allow"@ != "--listen"@) by {
        assert("--allow"@.len() != "--listen"@.len());
    }
    assert("--audit"@ != "--listen"@) by {
        assert("--audit"@.len() != "--listen"@.len());
    }
    assert("--audit"@ != "--allow"@) by {
        assert("--audit"@[3] != "--allow"@[3]);
    }
    let v = proxy_plan(domains, addr, audit)->0;
    assert(v.skip(2)[0] == "--allow"@);
    assert(v.skip(2)[1] == j);
    assert(Seq::<Seq<char>>::empty() + domains =~= domains);
    let e = Seq::<Seq<char>>::empty();
    assert(v[0] == "--listen"@ && v.len() >= 2);
    assert(parse_args(v) == parse_args_from(v.skip(2), addr, e, false));
    let w = v.skip(2);
    assert(w[0] == "--allow"@ && w[0] != "--listen"@ && w.len() >= 2);
    assert(parse_args_from(w, addr, e, false) == parse_args_from(w.skip(2), addr, e + allow_entries(j), false));
    if audit {
        assert(w.skip(2) =~= seq!["--audit"@]);
        assert(w.skip(2)[0] == "--audit"@);
        assert(w.skip(2).drop_first() =~= e);
        assert(parse_args_from(w.skip(2), addr, domains, false) == parse_args_from(e, addr, domains, true));
    } else {
        assert(w.skip(2) =~= e);
    }
}

/// Every read directory is granted read+execute and every write directory is
/// granted read+write, so write implies read; the project directory, when
/// given, is granted read+write too.
pub proof fn lemma_grant_plan(read: Seq<Seq<char>>, write: Seq<Seq<char>>, dir: Option<Seq<char>>)
    ensures
        forall|i: int|
            0 <= i < read.len() ==> #[trigger] grant_plan(read, write, dir)[i] == (
                read[i],
                FileAccess::ReadExecute,
            ),
        forall|i: int|
            0 <= i < write.len() ==> #[trigger] grant_plan(read, write, dir)[read.len() + i] == (
                write[i],
                FileAccess::ReadWrite,
            ),
        dir matches Some(d) ==> grant_plan(read, write, dir).last() == (d, FileAccess::ReadWrite),
        access_bits(FileAccess::ReadWrite) & GENERIC_READ == GENERIC_READ,
        access_bits(FileAccess::ReadWrite) & GENERIC_WRITE == GENERIC_WRITE,
{
    lemma_access_levels();
}

} // verus!
