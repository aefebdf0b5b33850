//! The AppContainer sandbox: its identity (profile and SID), its file grants,
//! its process allow-list, and its audit trail.
//!
//! Profiles and ACL grants go through `rappct`; whether they succeed depends
//! on the operating system, so the functions that make those calls say what
//! follows from each outcome.
use crate::access::{access_bits, access_name, AccessMask, FileAccess};
use crate::audit::{audit_line, AuditEvent, AuditLog};
use crate::container::{
    delete_profile, ensure_profile, grant_to_package, is_request, GrantReceipt, GrantRequest,
    GrantTarget, Profile, ProfileDeleted,
};
use crate::text::{ascii_lower_code, chars_of, eq_ignore_ascii_case, eq_ignore_ascii_case_exec, string_views};
use vstd::prelude::*;
use vstd::string::*;

verus! {

// ---------------------------------------------------------------------------
// Outside types.
// ---------------------------------------------------------------------------

/// `rappct::AppContainerProfile`, carried through opaquely.
#[verifier::external_type_specification]
#[verifier::external_body]
pub struct ExAppContainerProfile(rappct::AppContainerProfile);

/// `rappct::AcError`, carried through opaquely.
#[verifier::external_type_specification]
#[verifier::external_body]
pub struct ExAcError(rappct::AcError);

/// `std::io::Error`, carried through opaquely.
#[verifier::external_type_specification]
#[verifier::external_body]
pub struct ExIoError(std::io::Error);

// ---------------------------------------------------------------------------
// Errors.
// ---------------------------------------------------------------------------

/// Errors surfaced by the sandbox engine.
#[derive(Debug)]
pub enum SandboxError {
    /// An error from the underlying rappct / Windows API layer.
    Rappct(rappct::AcError),
    /// An I/O error.
    Io(std::io::Error),
    /// A Windows API error (from the custom launch path).
    Windows(String),
    /// A policy rejection (e.g. binary not in the process allow-list).
    NotAllowed(String),
}

/// The text of a `rappct` error (`ToString` through its `Display`); nothing is
/// stated of the text.
#[verifier::external_body]
fn ac_error_text(e: &rappct::AcError) -> String {
    e.to_string()
}

/// The text of an I/O error (`ToString` through its `Display`); nothing is
/// stated of the text.
#[verifier::external_body]
fn io_error_text(e: &std::io::Error) -> String {
    e.to_string()
}

impl SandboxError {
    /// The error's message, as `Display` writes it.
    pub fn message(&self) -> (m: String)
        ensures
            match self {
                SandboxError::Windows(e) => m@ == e@,
                SandboxError::NotAllowed(msg) => m@ == "not allowed: "@ + msg@,
                _ => true,
            },
    {
        match self {
            SandboxError::Rappct(e) => ac_error_text(e),
            SandboxError::Io(e) => io_error_text(e),
            SandboxError::Windows(e) => e.clone(),
            SandboxError::NotAllowed(msg) => "not allowed: ".to_string().concat(msg.as_str()),
        }
    }
}

impl From<rappct::AcError> for SandboxError {
    fn from(e: rappct::AcError) -> (r: Self)
        ensures
            r == SandboxError::Rappct(e),
    {
        SandboxError::Rappct(e)
    }
}

impl vstd::std_specs::convert::FromSpecImpl<rappct::AcError> for SandboxError {
    open spec fn obeys_from_spec() -> bool {
        true
    }

    open spec fn from_spec(e: rappct::AcError) -> Self {
        SandboxError::Rappct(e)
    }
}

impl From<std::io::Error> for SandboxError {
    fn from(e: std::io::Error) -> (r: Self)
        ensures
            r == SandboxError::Io(e),
    {
        SandboxError::Io(e)
    }
}

impl vstd::std_specs::convert::FromSpecImpl<std::io::Error> for SandboxError {
    open spec fn obeys_from_spec() -> bool {
        true
    }

    open spec fn from_spec(e: std::io::Error) -> Self {
        SandboxError::Io(e)
    }
}

// ---------------------------------------------------------------------------
// Grant chains.
// ---------------------------------------------------------------------------

/// What came of a traverse-only grant on one ancestor directory.
#[derive(Debug)]
pub enum TraverseOutcome {
    /// The SID already held the traverse right; no ACL write was made.
    AlreadyGranted,
    /// The entry was added.
    Granted(GrantReceipt),
    /// The ACL could not be changed (a protected system directory, say).
    Failed(SandboxError),
}

/// A traverse-only grant attempt on the directory `dir`.
#[derive(Debug)]
pub struct TraverseAttempt {
    pub dir: String,
    pub outcome: TraverseOutcome,
}

/// The directories of a list of attempts, in order.
pub open spec fn attempt_dirs(v: Seq<TraverseAttempt>) -> Seq<Seq<char>> {
    v.map_values(|a: TraverseAttempt| a.dir@)
}

/// Whether `f`, asked about the directory `dir`, gave `answer`.
pub open spec fn answered<F: Fn(&str) -> bool>(f: F, dir: Seq<char>, answer: bool) -> bool {
    exists|p: &str| p@ == dir && #[trigger] f.ensures((p,), answer)
}

/// `v` holds one traverse attempt for each directory of
/// `ancestor_chain(path)`, nearest first: skipped exactly where
/// `already_granted` answered true, and where an entry was added, a
/// non-inheriting traverse-only entry for the SID `sid` on that directory.
pub open spec fn ancestor_attempts<F: Fn(&str) -> bool>(
    v: Seq<TraverseAttempt>,
    path: Seq<char>,
    sid: Seq<char>,
    already_granted: F,
) -> bool {
    &&& attempt_dirs(v) == ancestor_chain(path)
    &&& forall|i: int|
        0 <= i < v.len() ==> answered(
            already_granted,
            v[i].dir@,
            #[trigger] v[i].outcome is AlreadyGranted,
        )
    &&& forall|i: int|
        0 <= i < v.len() ==> (#[trigger] v[i].outcome matches TraverseOutcome::Granted(g)
            ==> is_request(
            g.spec_request(),
            GrantTarget::File,
            v[i].dir@,
            sid,
            access_bits(FileAccess::Traverse),
        ))
}

/// The outcome of a chain grant: the leaf's `grant` event to record with the
/// receipt of its grant, and the traverse attempts on its ancestors, nearest
/// first.
#[derive(Debug)]
pub struct ChainGrant {
    pub leaf: (AuditEvent, GrantReceipt),
    pub ancestors: Vec<TraverseAttempt>,
}

/// What `std::path::Path::parent` gives for a path, in the path syntax of the
/// target the library is built for: the path without its final component, or
/// `None` where it ends in a root or prefix or is empty.
pub uninterp spec fn path_parent_of(path: Seq<char>) -> Option<Seq<char>>;

/// `std::path::Path::parent` (the parent, which is a slice of a `&str` and so
/// valid UTF-8, is taken back as a `String` unchanged): its result is
/// `path_parent_of` of the path, and a parent is shorter than the path, since
/// it leaves out at least the final component.
#[verifier::external_body]
fn path_parent(path: &str) -> (parent: Option<String>)
    ensures
        parent is None <==> path_parent_of(path@) is None,
        parent matches Some(p) ==> path_parent_of(path@) == Some(p@) && p@.len() < path@.len(),
{
    match std::path::Path::new(path).parent() {
        Some(p) => Some(p.to_string_lossy().into_owned()),
        None => None,
    }
}

/// The chain of ancestors of `path`, nearest first: each parent in turn, as
/// `path_parent_of` gives it, until there is none or it is empty. (A parent
/// is always shorter than its path; the length test only makes the
/// recursion's end evident.)
pub open spec fn ancestor_chain(path: Seq<char>) -> Seq<Seq<char>>
    decreases path.len(),
{
    match path_parent_of(path) {
        Some(p) => if 0 < p.len() < path.len() {
            seq![p] + ancestor_chain(p)
        } else {
            seq![]
        },
        None => seq![],
    }
}

/// The ancestors of `path`, nearest first: its parent, the parent's parent,
/// and so on, up to the root (an empty parent ends the chain). Each is
/// shorter than the one before.
pub fn ancestors(path: &str) -> (r: Vec<String>)
    ensures
        string_views(r@) == ancestor_chain(path@),
        forall|i: int| 0 <= i < r@.len() ==> (#[trigger] r@[i])@.len() > 0,
        forall|i: int| 0 <= i < r@.len() ==> (#[trigger] r@[i])@.len() < (if i == 0 {
            path@
        } else {
            r@[i - 1]@
        }).len(),
{
    let mut r: Vec<String> = Vec::new();
    let mut cur: String = path.to_string();
    loop
        invariant
            string_views(r@) + ancestor_chain(cur@) == ancestor_chain(path@),
            forall|i: int| 0 <= i < r@.len() ==> (#[trigger] r@[i])@.len() > 0,
            forall|i: int| 0 <= i < r@.len() ==> (#[trigger] r@[i])@.len() < (if i == 0 {
                path@
            } else {
                r@[i - 1]@
            }).len(),
            cur@ == if r@.len() == 0 {
                path@
            } else {
                r@[r@.len() - 1]@
            },
        ensures
            string_views(r@) == ancestor_chain(path@),
        decreases cur@.len(),
    {
        match path_parent(cur.as_str()) {
            Some(p) => {
                if p.as_str().is_empty() {
                    assert(ancestor_chain(cur@) =~= seq![]);
                    assert(string_views(r@) + ancestor_chain(cur@) =~= string_views(r@));
                        break;
                }
                let ghost before = r@;
                r.push(p.clone());
                assert(string_views(r@) =~= string_views(before).push(p@));
                assert(ancestor_chain(cur@) == seq![p@] + ancestor_chain(p@));
                assert(string_views(r@) + ancestor_chain(p@) =~= string_views(before)
                    + ancestor_chain(cur@));
                cur = p;
            },
            None => {
                assert(ancestor_chain(cur@) =~= seq![]);
                assert(string_views(r@) + ancestor_chain(cur@) =~= string_views(r@));
                break;
            },
        }
    }
    r
}

// ---------------------------------------------------------------------------
// Configuration.
// ---------------------------------------------------------------------------

/// Network capabilities a sandbox may be given.
#[derive(Clone, Copy, Debug, PartialEq, Eq, Structural)]
pub enum Capability {
    InternetClient,
    InternetClientServer,
    PrivateNetworkClientServer,
}

/// Configuration for creating a sandbox.
#[derive(Clone, Debug)]
pub struct SandboxConfig {
    /// AppContainer profile name (also the package identity).
    pub profile_name: String,
    /// Network capabilities to grant the sandbox.
    pub capabilities: Vec<Capability>,
    /// Process allow-list: executables the sandbox may launch.
    /// Empty means "allow all".
    pub allowed_binaries: Vec<String>,
    /// Optional audit log path. When set, the sandbox appends launch / exit /
    /// grant events to this JSON-lines file.
    pub audit_log: Option<String>,
}

impl Default for SandboxConfig {
    fn default() -> (c: SandboxConfig)
        ensures
            c.profile_name@.len() == 0,
            c.capabilities@.len() == 0,
            c.allowed_binaries@.len() == 0,
            c.audit_log is None,
    {
        SandboxConfig {
            profile_name: String::new(),
            capabilities: Vec::new(),
            allowed_binaries: Vec::new(),
            audit_log: None,
        }
    }
}

// ---------------------------------------------------------------------------
// Process allow-list.
// ---------------------------------------------------------------------------

/// Whether the allow-list lets `exe` be launched: an empty list allows every
/// program; otherwise `exe` must equal an entry, ignoring ASCII case.
pub open spec fn binary_allowed(allow: Seq<Seq<char>>, exe: Seq<char>) -> bool {
    allow.len() == 0 || exists|i: int|
        0 <= i < allow.len() && #[trigger] eq_ignore_ascii_case(allow[i], exe)
}

/// Whether the allow-list lets `exe` be launched.
pub fn binary_allowed_exec(allow: &Vec<String>, exe: &str) -> (b: bool)
    ensures
        b == binary_allowed(string_views(allow@), exe@),
{
    if allow.len() == 0 {
        return true;
    }
    let e = chars_of(exe);
    let ghost av = string_views(allow@);
    let mut i: usize = 0;
    while i < allow.len()
        invariant
            i <= allow.len(),
            e@ == exe@,
            av == string_views(allow@),
            forall|j: int| 0 <= j < i ==> !#[trigger] eq_ignore_ascii_case(av[j], exe@),
        decreases allow.len() - i,
    {
        let a = chars_of(allow[i].as_str());
        if eq_ignore_ascii_case_exec(&a, &e) {
            assert(eq_ignore_ascii_case(av[i as int], exe@));
            return true;
        }
        i += 1;
    }
    false
}

// ---------------------------------------------------------------------------
// The sandbox.
// ---------------------------------------------------------------------------

/// A live AppContainer sandbox: a profile and its SID (in SDDL form), the process
/// allow-list, and the audit log (when one is configured).
///
/// The domain proxy (when configured) is launched *inside* this container, so
/// it shares the same SID and can be reached over loopback without any admin
/// exemption.
pub struct Sandbox {
    profile: Profile,
    allowed_binaries: Vec<String>,
    audit: Option<AuditLog>,
}

impl Sandbox {
    /// The profile name (identity).
    pub closed spec fn spec_profile_name(&self) -> Seq<char> {
        self.profile.spec_name()
    }

    /// The SID of the sandbox identity in SDDL form, as the system assigned
    /// it to the profile.
    pub closed spec fn spec_sid(&self) -> Seq<char> {
        self.profile.spec_sid()
    }

    /// The process allow-list.
    pub closed spec fn spec_allowed_binaries(&self) -> Seq<Seq<char>> {
        string_views(self.allowed_binaries@)
    }

    /// The audit log path, when auditing is configured.
    pub closed spec fn spec_audit_path(&self) -> Option<Seq<char>> {
        match self.audit {
            Some(log) => Some(log.spec_path()),
            None => None,
        }
    }

    /// Create (or open) the AppContainer profile named `config.profile_name`
    /// and resolve its SID. The profile's name is the sandbox's identity.
    pub fn create(config: &SandboxConfig) -> (r: Result<Sandbox, SandboxError>)
        ensures
            match r {
                Ok(s) => {
                    &&& s.spec_profile_name() == config.profile_name@
                    &&& s.spec_allowed_binaries() == string_views(config.allowed_binaries@)
                    &&& s.spec_audit_path() == match config.audit_log {
                        Some(p) => Some(p@),
                        None => None::<Seq<char>>,
                    }
                },
                Err(e) => e is Rappct,
            },
    {
        let profile = match ensure_profile(config.profile_name.as_str()) {
            Ok(p) => p,
            Err(e) => return Err(SandboxError::Rappct(e)),
        };
        let audit = match &config.audit_log {
            Some(p) => Some(AuditLog::at(p.clone())),
            None => None,
        };
        Ok(Sandbox { profile, allowed_binaries: config.allowed_binaries.clone(), audit })
    }

    /// Where and what to append to the audit log for `event` at Unix time
    /// `ts`, if one is configured: `(path, line)`.
    pub fn audit_entry(&self, event: &AuditEvent, ts: u64) -> (r: Option<(String, String)>)
        ensures
            match r {
                Some(entry) => self.spec_audit_path() == Some(entry.0@) && entry.1@ == audit_line(
                    *event,
                    ts,
                ),
                None => self.spec_audit_path() is None,
            },
    {
        match &self.audit {
            Some(log) => Some((log.path().to_string(), event.to_json_line(ts))),
            None => None,
        }
    }

    /// The audit log path, when auditing is configured.
    pub fn audit_path(&self) -> (p: Option<&str>)
        ensures
            match p {
                Some(s) => self.spec_audit_path() == Some(s@),
                None => self.spec_audit_path() is None,
            },
    {
        match &self.audit {
            Some(log) => Some(log.path()),
            None => None,
        }
    }

    /// The profile name (identity) this sandbox runs under.
    pub fn profile_name(&self) -> (n: &str)
        ensures
            n@ == self.spec_profile_name(),
    {
        self.profile.name()
    }

    /// The sandbox SID in SDDL form (`S-1-15-2-...`), as the launch path needs
    /// it.
    pub fn sid_string(&self) -> (s: String)
        ensures
            s@ == self.spec_sid(),
    {
        self.profile.sid().to_string()
    }

    /// The access entry that grants `access` on `path` to this sandbox's SID,
    /// for a `target` of the given kind.
    pub fn grant_request(&self, target: GrantTarget, path: &str, access: FileAccess) -> (q:
        GrantRequest)
        ensures
            is_request(q, target, path@, self.spec_sid(), access_bits(access)),
    {
        GrantRequest {
            target,
            path: path.to_string(),
            sid: self.profile.sid().to_string(),
            mask: access.mask(),
        }
    }

    fn grant(&self, target: GrantTarget, path: &str, access: FileAccess) -> (r: Result<
        (AuditEvent, GrantReceipt),
        SandboxError,
    >)
        ensures
            match r {
                Ok(t) => {
                    &&& t.0 matches AuditEvent::Grant { path: p, access: a } && p@ == path@ && a@
                        == access_name(access)
                    &&& is_request(
                        t.1.spec_request(),
                        target,
                        path@,
                        self.spec_sid(),
                        access_bits(access),
                    )
                },
                Err(e) => e is Rappct,
            },
    {
        let req = self.grant_request(target, path, access);
        match grant_to_package(req) {
            Ok(g) => Ok(
                (
                    AuditEvent::Grant {
                        path: path.to_string(),
                        access: access.as_str().to_string(),
                    },
                    g,
                ),
            ),
            Err(e) => Err(SandboxError::Rappct(e)),
        }
    }

    /// Grant access on a directory to the sandbox identity (no ancestor
    /// grants), inherited by its descendants. On success, the `grant` event
    /// to record and the receipt of the entry that was added.
    pub fn grant_dir(&self, path: &str, access: FileAccess) -> (r: Result<
        (AuditEvent, GrantReceipt),
        SandboxError,
    >)
        ensures
            match r {
                Ok(t) => {
                    &&& t.0 matches AuditEvent::Grant { path: p, access: a } && p@ == path@ && a@
                        == access_name(access)
                    &&& is_request(
                        t.1.spec_request(),
                        GrantTarget::Directory,
                        path@,
                        self.spec_sid(),
                        access_bits(access),
                    )
                },
                Err(e) => e is Rappct,
            },
    {
        self.grant(GrantTarget::Directory, path, access)
    }

    /// Grant access on a file to the sandbox identity (no ancestor grants).
    /// On success, the `grant` event to record and the receipt of the entry
    /// that was added.
    pub fn grant_file(&self, path: &str, access: FileAccess) -> (r: Result<
        (AuditEvent, GrantReceipt),
        SandboxError,
    >)
        ensures
            match r {
                Ok(t) => {
                    &&& t.0 matches AuditEvent::Grant { path: p, access: a } && p@ == path@ && a@
                        == access_name(access)
                    &&& is_request(
                        t.1.spec_request(),
                        GrantTarget::File,
                        path@,
                        self.spec_sid(),
                        access_bits(access),
                    )
                },
                Err(e) => e is Rappct,
            },
    {
        self.grant(GrantTarget::File, path, access)
    }

    /// Grant traverse-only access on a directory, **without inheritance**,
    /// unless `already_granted` is true (the SID already holds the traverse
    /// right there, so no ACL write is made: `Ok(None)`). Otherwise, on
    /// success, the receipt of the entry that was added.
    ///
    /// An inherited grant on an ancestor like the user profile would rewrite
    /// the ACL of a huge tree; traversal only needs the directory itself.
    pub fn grant_traverse(&self, path: &str, already_granted: bool) -> (r: Result<
        Option<GrantReceipt>,
        SandboxError,
    >)
        ensures
            already_granted ==> r matches Ok(None),
            !already_granted ==> match r {
                Ok(Some(g)) => is_request(
                    g.spec_request(),
                    GrantTarget::File,
                    path@,
                    self.spec_sid(),
                    access_bits(FileAccess::Traverse),
                ),
                Ok(None) => false,
                Err(e) => e is Rappct,
            },
    {
        if already_granted {
            return Ok(None);
        }
        let req = self.grant_request(GrantTarget::File, path, FileAccess::Traverse);
        match grant_to_package(req) {
            Ok(g) => Ok(Some(g)),
            Err(e) => Err(SandboxError::Rappct(e)),
        }
    }

    /// Grant `access` on a directory plus traverse-only access on every
    /// ancestor (best-effort: an ancestor whose ACL cannot be changed, such as
    /// a protected system directory, is passed over). `already_granted` says
    /// whether the SID already holds the traverse right on a directory.
    ///
    /// An AppContainer identity must be able to traverse each parent
    /// directory to reach the target; without this, a grant on a deep path is
    /// useless. The leaf's outcome decides the result (see
    /// [`Sandbox::extend_to_ancestors`]).
    pub fn grant_dir_chain<F: Fn(&str) -> bool>(
        &self,
        path: &str,
        access: FileAccess,
        already_granted: F,
    ) -> (r: Result<ChainGrant, SandboxError>)
        requires
            forall|p: &str| already_granted.requires((p,)),
        ensures
            match r {
                Ok(c) => {
                    &&& c.leaf.0 matches AuditEvent::Grant { path: p, access: a } && p@ == path@
                        && a@ == access_name(access)
                    &&& is_request(
                        c.leaf.1.spec_request(),
                        GrantTarget::Directory,
                        path@,
                        self.spec_sid(),
                        access_bits(access),
                    )
                    &&& ancestor_attempts(c.ancestors@, path@, self.spec_sid(), already_granted)
                },
                Err(e) => e is Rappct,
            },
    {
        let leaf = self.grant_dir(path, access);
        self.extend_to_ancestors(path, leaf, already_granted)
    }

    /// Grant `access` on a file plus traverse-only access on every ancestor,
    /// as [`Sandbox::grant_dir_chain`] does for a directory.
    pub fn grant_file_chain<F: Fn(&str) -> bool>(
        &self,
        path: &str,
        access: FileAccess,
        already_granted: F,
    ) -> (r: Result<ChainGrant, SandboxError>)
        requires
            forall|p: &str| already_granted.requires((p,)),
        ensures
            match r {
                Ok(c) => {
                    &&& c.leaf.0 matches AuditEvent::Grant { path: p, access: a } && p@ == path@
                        && a@ == access_name(access)
                    &&& is_request(
                        c.leaf.1.spec_request(),
                        GrantTarget::File,
                        path@,
                        self.spec_sid(),
                        access_bits(access),
                    )
                    &&& ancestor_attempts(c.ancestors@, path@, self.spec_sid(), already_granted)
                },
                Err(e) => e is Rappct,
            },
    {
        let leaf = self.grant_file(path, access);
        self.extend_to_ancestors(path, leaf, already_granted)
    }

    /// The rest of a chain grant once the leaf's grant on `path` has given
    /// `leaf`. When it failed, that error is the result and no ancestor is
    /// tried. Otherwise the result is `Ok`, whatever the ancestors give: the
    /// leaf, and one traverse-only attempt on each directory of
    /// `ancestor_chain(path)`, nearest first (best-effort).
    pub fn extend_to_ancestors<F: Fn(&str) -> bool>(
        &self,
        path: &str,
        leaf: Result<(AuditEvent, GrantReceipt), SandboxError>,
        already_granted: F,
    ) -> (r: Result<ChainGrant, SandboxError>)
        requires
            forall|p: &str| already_granted.requires((p,)),
        ensures
            match leaf {
                Ok(t) => r matches Ok(c) && c.leaf == t && ancestor_attempts(
                    c.ancestors@,
                    path@,
                    self.spec_sid(),
                    already_granted,
                ),
                Err(e) => r == Err::<ChainGrant, SandboxError>(e),
            },
    {
        match leaf {
            Ok(t) => {
                let ancestors = self.traverse_ancestors(path, already_granted);
                Ok(ChainGrant { leaf: t, ancestors })
            },
            Err(e) => Err(e),
        }
    }

    /// A traverse-only grant attempt on each ancestor of `path`, nearest
    /// first, skipped where `already_granted` answers true; failures are kept
    /// in the outcomes and go no further.
    fn traverse_ancestors<F: Fn(&str) -> bool>(&self, path: &str, already_granted: F) -> (v: Vec<
        TraverseAttempt,
    >)
        requires
            forall|p: &str| already_granted.requires((p,)),
        ensures
            ancestor_attempts(v@, path@, self.spec_sid(), already_granted),
    {
        let chain = ancestors(path);
        let mut v: Vec<TraverseAttempt> = Vec::new();
        let mut i: usize = 0;
        while i < chain.len()
            invariant
                i <= chain.len(),
                string_views(chain@) == ancestor_chain(path@),
                forall|p: &str| already_granted.requires((p,)),
                attempt_dirs(v@) == string_views(chain@).take(i as int),
                forall|j: int|
                    0 <= j < v@.len() ==> answered(
                        already_granted,
                        v@[j].dir@,
                        #[trigger] v@[j].outcome is AlreadyGranted,
                    ),
                forall|j: int|
                    0 <= j < v@.len() ==> (#[trigger] v@[j].outcome matches TraverseOutcome::Granted(
                        g,
                    ) ==> is_request(
                        g.spec_request(),
                        GrantTarget::File,
                        v@[j].dir@,
                        self.spec_sid(),
                        access_bits(FileAccess::Traverse),
                    )),
            decreases chain.len() - i,
        {
            let dir = chain[i].as_str();
            let done = already_granted(dir);
            assert(answered(already_granted, dir@, done));
            let outcome = match self.grant_traverse(dir, done) {
                Ok(Some(g)) => TraverseOutcome::Granted(g),
                Ok(None) => TraverseOutcome::AlreadyGranted,
                Err(e) => TraverseOutcome::Failed(e),
            };
            let ghost before = v@;
            v.push(TraverseAttempt { dir: dir.to_string(), outcome });
            assert(attempt_dirs(v@) =~= attempt_dirs(before).push(dir@));
            assert(string_views(chain@).take(i + 1) =~= string_views(chain@).take(i as int).push(
                chain@[i as int]@,
            ));
            i += 1;
        }
        assert(string_views(chain@).take(chain@.len() as int) =~= string_views(chain@));
        v
    }

    /// Whether `exe` may be launched in this sandbox; `NotAllowed` when a
    /// process allow-list is configured and `exe` is not on it (ASCII
    /// case-insensitive).
    pub fn check_launch(&self, exe: &str) -> (r: Result<(), SandboxError>)
        ensures
            r is Ok <==> binary_allowed(self.spec_allowed_binaries(), exe@),
            r matches Err(e) ==> e matches SandboxError::NotAllowed(m) && m@
                == "binary not in allow-list: "@ + exe@,
    {
        if binary_allowed_exec(&self.allowed_binaries, exe) {
            Ok(())
        } else {
            Err(SandboxError::NotAllowed("binary not in allow-list: ".to_string().concat(exe)))
        }
    }

    /// The `launch` event recorded once `exe` runs in this sandbox as `pid`.
    pub fn launch_event(&self, exe: &str, pid: u32) -> (ev: AuditEvent)
        ensures
            ev matches AuditEvent::Launch { profile, command, pid: p } && profile@
                == self.spec_profile_name() && command@ == exe@ && p == pid,
    {
        AuditEvent::Launch {
            profile: self.profile.name().to_string(),
            command: exe.to_string(),
            pid,
        }
    }

    /// Delete the AppContainer profile, cleaning up the sandbox identity. On
    /// success, the receipt naming the deleted profile: this sandbox's.
    pub fn delete(self) -> (r: Result<ProfileDeleted, SandboxError>)
        ensures
            match r {
                Ok(d) => d.spec_name() == self.spec_profile_name(),
                Err(e) => e is Rappct,
            },
    {
        match delete_profile(self.profile) {
            Ok(d) => Ok(d),
            Err(e) => Err(SandboxError::Rappct(e)),
        }
    }
}


/// Two characters that differ at most in the ASCII case of a letter have the
/// same lower-case code, and only those.
proof fn lemma_same_letter(a: char, b: char)
    ensures
        ascii_lower_code(a) == ascii_lower_code(b) <==> (a as u32 == b as u32 || (0x41 <= a as u32
            <= 0x5A && a as u32 + 0x20 == b as u32) || (0x41 <= b as u32 <= 0x5A && b as u32 + 0x20
            == a as u32)),
{
}

/// Which programs a non-empty process allow-list lets run, exactly: `exe`
/// runs if and only if some entry is the same whole path, as long as `exe`
/// and equal to it character by character, up to the ASCII case of letters.
/// A path that matches no entry this way (the same file name in another
/// directory, say) is refused.
pub proof fn lemma_binary_allowlist_exact(allow: Seq<Seq<char>>, exe: Seq<char>)
    requires
        allow.len() > 0,
    ensures
        binary_allowed(allow, exe) <==> exists|i: int|
            0 <= i < allow.len() && (#[trigger] allow[i]).len() == exe.len() && forall|j: int|
                0 <= j < exe.len() ==> (allow[i][j] as u32 == #[trigger] exe[j] as u32 || (0x41
                    <= allow[i][j] as u32 <= 0x5A && allow[i][j] as u32 + 0x20 == exe[j] as u32)
                    || (0x41 <= exe[j] as u32 <= 0x5A && exe[j] as u32 + 0x20 == allow[i][j] as u32)),
{
    if binary_allowed(allow, exe) {
        let i = choose|i: int| 0 <= i < allow.len() && #[trigger] eq_ignore_ascii_case(allow[i], exe);
        assert forall|j: int| 0 <= j < exe.len() implies (allow[i][j] as u32 == #[trigger] exe[j] as u32
            || (0x41 <= allow[i][j] as u32 <= 0x5A && allow[i][j] as u32 + 0x20 == exe[j] as u32)
            || (0x41 <= exe[j] as u32 <= 0x5A && exe[j] as u32 + 0x20 == allow[i][j] as u32)) by {
            assert(ascii_lower_code(allow[i][j]) == ascii_lower_code(exe[j]));
            lemma_same_letter(allow[i][j], exe[j]);
        }
    }
    if exists|i: int|
        0 <= i < allow.len() && (#[trigger] allow[i]).len() == exe.len() && forall|j: int|
            0 <= j < exe.len() ==> (allow[i][j] as u32 == #[trigger] exe[j] as u32 || (0x41
                <= allow[i][j] as u32 <= 0x5A && allow[i][j] as u32 + 0x20 == exe[j] as u32)
                || (0x41 <= exe[j] as u32 <= 0x5A && exe[j] as u32 + 0x20 == allow[i][j] as u32)) {
        let i = choose|i: int|
            0 <= i < allow.len() && (#[trigger] allow[i]).len() == exe.len() && forall|j: int|
                0 <= j < exe.len() ==> (allow[i][j] as u32 == #[trigger] exe[j] as u32 || (0x41
                    <= allow[i][j] as u32 <= 0x5A && allow[i][j] as u32 + 0x20 == exe[j] as u32)
                    || (0x41 <= exe[j] as u32 <= 0x5A && exe[j] as u32 + 0x20 == allow[i][j] as u32));
        assert forall|j: int| 0 <= j < allow[i].len() implies #[trigger] ascii_lower_code(allow[i][j])
            == ascii_lower_code(exe[j]) by {
            lemma_same_letter(allow[i][j], exe[j]);
            assert(allow[i][j] as u32 == exe[j] as u32 || (0x41 <= allow[i][j] as u32 <= 0x5A
                && allow[i][j] as u32 + 0x20 == exe[j] as u32) || (0x41 <= exe[j] as u32 <= 0x5A
                && exe[j] as u32 + 0x20 == allow[i][j] as u32));
        }
        assert(eq_ignore_ascii_case(allow[i], exe));
    }
}

/// The process allow-list: an empty list allows every program, an entry
/// allows its own name, and the decision ignores ASCII case.
pub proof fn lemma_binary_allowlist(allow: Seq<Seq<char>>, exe: Seq<char>, other: Seq<char>)
    ensures
        allow.len() == 0 ==> binary_allowed(allow, exe),
        allow.contains(exe) ==> binary_allowed(allow, exe),
        eq_ignore_ascii_case(exe, other) ==> (binary_allowed(allow, exe) <==> binary_allowed(
            allow,
            other,
        )),
{
    if allow.contains(exe) {
        let i = choose|i: int| 0 <= i < allow.len() && allow[i] == exe;
        assert(eq_ignore_ascii_case(allow[i], exe));
    }
    if eq_ignore_ascii_case(exe, other) && allow.len() > 0 {
        if binary_allowed(allow, exe) {
            let i = choose|i: int| 0 <= i < allow.len() && #[trigger] eq_ignore_ascii_case(allow[i], exe);
            assert(eq_ignore_ascii_case(allow[i], other));
        }
        if binary_allowed(allow, other) {
            let i = choose|i: int| 0 <= i < allow.len() && #[trigger] eq_ignore_ascii_case(allow[i], other);
            assert(eq_ignore_ascii_case(allow[i], exe));
        }
    }
}

} // verus!
