//! File-system access levels granted to the sandbox identity.
use vstd::prelude::*;

verus! {

/// A Windows access mask (`GENERIC_*` bits).
#[derive(Clone, Copy, Debug, PartialEq, Eq, Structural)]
pub struct AccessMask(pub u32);

/// `GENERIC_READ`.
pub const GENERIC_READ: u32 = 0x8000_0000;

/// `GENERIC_WRITE`.
pub const GENERIC_WRITE: u32 = 0x4000_0000;

/// `GENERIC_EXECUTE`.
pub const GENERIC_EXECUTE: u32 = 0x2000_0000;

/// Access level for a file or directory grant.
#[derive(Clone, Copy, Debug, PartialEq, Eq, Structural)]
pub enum FileAccess {
    Read,
    ReadExecute,
    Write,
    ReadWrite,
    /// Read + write + execute (convenience for directories hosting binaries).
    Full,
    /// Traverse-only on a directory: descend into children without listing.
    /// Used for the ancestor chain of a granted path.
    Traverse,
}

/// The audit-log name of an access level.
pub open spec fn access_name(a: FileAccess) -> Seq<char> {
    match a {
        FileAccess::Read => "read"@,
        FileAccess::ReadExecute => "read_execute"@,
        FileAccess::Write => "write"@,
        FileAccess::ReadWrite => "read_write"@,
        FileAccess::Full => "full"@,
        FileAccess::Traverse => "traverse"@,
    }
}

/// The generic access bits of an access level.
pub open spec fn access_bits(a: FileAccess) -> u32 {
    match a {
        FileAccess::Read => 0x8000_0000,
        FileAccess::ReadExecute => 0xA000_0000,
        FileAccess::Write => 0x4000_0000,
        FileAccess::ReadWrite => 0xC000_0000,
        FileAccess::Full => 0xE000_0000,
        FileAccess::Traverse => 0x2000_0000,
    }
}

impl FileAccess {
    /// A short, human-readable name for the audit log.
    pub fn as_str(self) -> (s: &'static str)
        ensures
            s@ == access_name(self),
    {
        match self {
            FileAccess::Read => "read",
            FileAccess::ReadExecute => "read_execute",
            FileAccess::Write => "write",
            FileAccess::ReadWrite => "read_write",
            FileAccess::Full => "full",
            FileAccess::Traverse => "traverse",
        }
    }

    /// The Windows generic access mask (GENERIC_READ / WRITE / EXECUTE).
    pub fn mask(self) -> (m: AccessMask)
        ensures
            m.0 == access_bits(self),
    {
        match self {
            FileAccess::Read => AccessMask(0x8000_0000),
            FileAccess::ReadExecute => AccessMask(0xA000_0000),
            FileAccess::Write => AccessMask(0x4000_0000),
            FileAccess::ReadWrite => AccessMask(0xC000_0000),
            FileAccess::Full => AccessMask(0xE000_0000),
            FileAccess::Traverse => AccessMask(0x2000_0000),
        }
    }
}

/// Each level's mask is the union of the generic rights it names; a level that
/// grants write also grants read ("write implies read"), and
/// every level but `Write` and `Traverse` grants read; `Full` grants all
/// that any other level grants.
pub proof fn lemma_access_levels()
    ensures
        access_bits(FileAccess::Read) == GENERIC_READ,
        access_bits(FileAccess::ReadExecute) == GENERIC_READ | GENERIC_EXECUTE,
        access_bits(FileAccess::Write) == GENERIC_WRITE,
        access_bits(FileAccess::ReadWrite) == GENERIC_READ | GENERIC_WRITE,
        access_bits(FileAccess::Full) == GENERIC_READ | GENERIC_WRITE | GENERIC_EXECUTE,
        access_bits(FileAccess::Traverse) == GENERIC_EXECUTE,
        access_bits(FileAccess::ReadWrite) & GENERIC_READ == GENERIC_READ,
        access_bits(FileAccess::ReadWrite) & GENERIC_WRITE == GENERIC_WRITE,
        forall|a: FileAccess| access_bits(FileAccess::Full) & access_bits(a) == access_bits(a),
        access_bits(FileAccess::Traverse) & (GENERIC_READ | GENERIC_WRITE) == 0,
        forall|a: FileAccess|
            access_bits(a) & GENERIC_READ == GENERIC_READ <==> !(a is Write || a is Traverse),
{
    assert(0xC000_0000u32 & 0x8000_0000u32 == 0x8000_0000u32) by (bit_vector);
    assert(0xC000_0000u32 & 0x4000_0000u32 == 0x4000_0000u32) by (bit_vector);
    assert(0xE000_0000u32 & 0x8000_0000u32 == 0x8000_0000u32) by (bit_vector);
    assert(0xE000_0000u32 & 0xA000_0000u32 == 0xA000_0000u32) by (bit_vector);
    assert(0xE000_0000u32 & 0x4000_0000u32 == 0x4000_0000u32) by (bit_vector);
    assert(0xE000_0000u32 & 0xC000_0000u32 == 0xC000_0000u32) by (bit_vector);
    assert(0xE000_0000u32 & 0xE000_0000u32 == 0xE000_0000u32) by (bit_vector);
    assert(0xE000_0000u32 & 0x2000_0000u32 == 0x2000_0000u32) by (bit_vector);
    assert(0x2000_0000u32 & 0xC000_0000u32 == 0u32) by (bit_vector);
    assert(0xA000_0000u32 & 0x8000_0000u32 == 0x8000_0000u32) by (bit_vector);
    assert(0x4000_0000u32 & 0x8000_0000u32 == 0u32) by (bit_vector);
    assert(0x2000_0000u32 & 0x8000_0000u32 == 0u32) by (bit_vector);
    assert(0x8000_0000u32 & 0x8000_0000u32 == 0x8000_0000u32) by (bit_vector);
    assert((0x8000_0000u32 | 0x2000_0000u32) == 0xA000_0000u32) by (bit_vector);
    assert((0x8000_0000u32 | 0x4000_0000u32) == 0xC000_0000u32) by (bit_vector);
    assert((0x8000_0000u32 | 0x4000_0000u32 | 0x2000_0000u32) == 0xE000_0000u32) by (bit_vector);
}

} // verus!
