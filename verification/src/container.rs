//! The calls into `rappct` that change the system: creating and deleting an
//! AppContainer profile, and adding an access entry to a file-system ACL.
//!
//! Whether each call succeeds depends on the operating system. What a
//! success hands back is evidence that only the call itself builds: a
//! `Profile` carries the name it was created under, a `GrantReceipt` the
//! request that was granted, a `ProfileDeleted` the name of the profile that
//! was removed. Their fields are private to this module, so code elsewhere
//! holds one only through a call that succeeded.
use crate::access::AccessMask;
use vstd::prelude::*;

verus! {

/// Which kind of file-system object a grant applies to.
#[derive(Clone, Copy, Debug, PartialEq, Eq, Structural)]
pub enum GrantTarget {
    /// A directory: the entry is inherited by its descendants.
    Directory,
    /// A file, or a directory that only needs its own entry (no inheritance).
    File,
}

/// An access entry to add to a file-system object's ACL: `mask` for the SID
/// whose SDDL text is `sid`, on `path`, inherited by descendants when the
/// target is a directory.
#[derive(Debug)]
pub struct GrantRequest {
    pub target: GrantTarget,
    pub path: String,
    pub sid: String,
    pub mask: AccessMask,
}

/// Whether `q` asks for `mask` on `path` for the SID `sid`, with `target`.
pub open spec fn is_request(
    q: GrantRequest,
    target: GrantTarget,
    path: Seq<char>,
    sid: Seq<char>,
    mask: u32,
) -> bool {
    &&& q.target == target
    &&& q.path@ == path
    &&& q.sid@ == sid
    &&& q.mask.0 == mask
}

/// Evidence that an access entry was added: the request that was granted.
#[derive(Debug)]
pub struct GrantReceipt {
    request: GrantRequest,
}

impl GrantReceipt {
    /// The request that was granted.
    pub closed spec fn spec_request(&self) -> GrantRequest {
        self.request
    }

    /// The request that was granted.
    pub fn request(&self) -> (q: &GrantRequest)
        ensures
            *q == self.spec_request(),
    {
        &self.request
    }
}

/// An AppContainer profile, with its name and the SDDL text of its SID.
pub struct Profile {
    inner: rappct::AppContainerProfile,
    name: String,
    sid: String,
}

impl Profile {
    /// The profile's name (its identity).
    pub closed spec fn spec_name(&self) -> Seq<char> {
        self.name@
    }

    /// The SDDL text of the profile's SID, as the system assigned it.
    pub closed spec fn spec_sid(&self) -> Seq<char> {
        self.sid@
    }

    /// The profile's name.
    pub fn name(&self) -> (n: &str)
        ensures
            n@ == self.spec_name(),
    {
        self.name.as_str()
    }

    /// The SDDL text of the profile's SID.
    pub fn sid(&self) -> (s: &str)
        ensures
            s@ == self.spec_sid(),
    {
        self.sid.as_str()
    }
}

/// Evidence that a profile was deleted: its name.
#[derive(Debug)]
pub struct ProfileDeleted {
    name: String,
}

impl ProfileDeleted {
    /// The name of the deleted profile.
    pub closed spec fn spec_name(&self) -> Seq<char> {
        self.name@
    }

    /// The name of the deleted profile.
    pub fn name(&self) -> (n: &str)
        ensures
            n@ == self.spec_name(),
    {
        self.name.as_str()
    }
}

/// `rappct::AppContainerProfile::ensure(name, name, Some(name))`: creates or
/// opens the profile `name` (as its name, display name and description).
/// A profile it gives back carries the name it was asked for (the source
/// builds it with `name: _name.to_string()`) and the SDDL text of its SID
/// (`rappct::AppContainerSid::as_string`). Whether it succeeds, and which SID
/// the system assigns, depend on the system and are not stated.
#[verifier::external_body]
pub(crate) fn ensure_profile(name: &str) -> (r: Result<Profile, rappct::AcError>)
    ensures
        r matches Ok(p) ==> p.spec_name() == name@,
{
    match rappct::AppContainerProfile::ensure(name, name, Some(name)) {
        Ok(p) => {
            let name = p.name.clone();
            let sid = p.sid.as_string().to_string();
            Ok(Profile { inner: p, name, sid })
        },
        Err(e) => Err(e),
    }
}

/// `rappct::acl::grant_to_package`, handed exactly the request: the target
/// kind with the path (`ResourcePath::Directory` or `ResourcePath::File`),
/// the SID (`rappct::AppContainerSid::from_sddl`, which keeps the text as it
/// is) and the mask. Whether it succeeds depends on the file system; on
/// success the receipt holds the request it was handed.
#[verifier::external_body]
pub(crate) fn grant_to_package(req: GrantRequest) -> (r: Result<GrantReceipt, rappct::AcError>)
    ensures
        r matches Ok(g) ==> g.spec_request() == req,
{
    let path = std::path::PathBuf::from(req.path.as_str());
    let resource = match req.target {
        GrantTarget::Directory => rappct::acl::ResourcePath::Directory(path),
        GrantTarget::File => rappct::acl::ResourcePath::File(path),
    };
    let sid = rappct::AppContainerSid::from_sddl(req.sid.as_str());
    match rappct::acl::grant_to_package(resource, &sid, rappct::acl::AccessMask(req.mask.0)) {
        Ok(()) => Ok(GrantReceipt { request: req }),
        Err(e) => Err(e),
    }
}

/// `rappct::AppContainerProfile::delete`: deletes the profile (by its
/// name). Whether it succeeds depends on the system; on success the receipt
/// holds the deleted profile's name.
#[verifier::external_body]
pub(crate) fn delete_profile(profile: Profile) -> (r: Result<ProfileDeleted, rappct::AcError>)
    ensures
        r matches Ok(d) ==> d.spec_name() == profile.spec_name(),
{
    let name = profile.name;
    match profile.inner.delete() {
        Ok(()) => Ok(ProfileDeleted { name }),
        Err(e) => Err(e),
    }
}

} // verus!
