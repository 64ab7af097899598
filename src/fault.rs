//! Classification of kernel page faults.

use vstd::prelude::*;

use crate::addr::{PAddr, VAddr};
use crate::paging::{page_permissions, permissions_of, PagePermissions};
use crate::vm::VmMemory;

verus! {

/// What the faulting instruction tried to do.
#[derive(Clone, Copy, Debug, PartialEq, Eq, Structural)]
pub enum AccessAttempt {
    Read,
    Write,
    Execute,
}

/// Why an access faulted.
#[derive(Clone, Copy, Debug, PartialEq, Eq, Structural)]
pub enum FaultReason {
    NotMapped,
    ReadOnly,
    NonExecutable,
    Unknown,
}

/// The reason for a fault of kind `access` on a page with permissions `perms`.
pub open spec fn reason_for(access: AccessAttempt, perms: PagePermissions) -> FaultReason {
    if !perms.accessible {
        FaultReason::NotMapped
    } else if access == AccessAttempt::Write && !perms.writable {
        FaultReason::ReadOnly
    } else if access == AccessAttempt::Execute && !perms.executable {
        FaultReason::NonExecutable
    } else {
        FaultReason::Unknown
    }
}

/// The page-fault error-code bit set for an instruction fetch.
pub const FAULT_INSTRUCTION_FETCH: u64 = 0x10;
/// The page-fault error-code bit set for a write.
pub const FAULT_WRITE: u64 = 0x2;

/// The kind of access that the page-fault error code `errc` reports.
pub fn access_from_error_code(errc: u64) -> (r: AccessAttempt)
    ensures
        r == (if errc & 0x10 != 0 {
            AccessAttempt::Execute
        } else if errc & 0x2 != 0 {
            AccessAttempt::Write
        } else {
            AccessAttempt::Read
        }),
{
    if errc & FAULT_INSTRUCTION_FETCH != 0 {
        AccessAttempt::Execute
    } else if errc & FAULT_WRITE != 0 {
        AccessAttempt::Write
    } else {
        AccessAttempt::Read
    }
}

impl AccessAttempt {
    /// The words that open the fault report.
    pub fn description(&self) -> (r: &'static str)
        ensures
            *self == AccessAttempt::Read ==> r@ == "Invalid read"@,
            *self == AccessAttempt::Write ==> r@ == "Invalid write"@,
            *self == AccessAttempt::Execute ==> r@ == "Invalid execution"@,
    {
        proof {
            reveal_strlit("Invalid read");
            reveal_strlit("Invalid write");
            reveal_strlit("Invalid execution");
        }
        match self {
            AccessAttempt::Read => "Invalid read",
            AccessAttempt::Write => "Invalid write",
            AccessAttempt::Execute => "Invalid execution",
        }
    }
}

impl FaultReason {
    /// The reason as the fault report states it.
    pub fn text(&self) -> (r: &'static str)
        ensures
            *self == FaultReason::NotMapped ==> r@ == "page is not mapped"@,
            *self == FaultReason::ReadOnly ==> r@ == "page is read-only"@,
            *self == FaultReason::NonExecutable ==> r@ == "page is non-executable"@,
            *self == FaultReason::Unknown ==> r@ == "unknown error"@,
    {
        proof {
            reveal_strlit("page is not mapped");
            reveal_strlit("page is read-only");
            reveal_strlit("page is non-executable");
            reveal_strlit("unknown error");
        }
        match self {
            FaultReason::NotMapped => "page is not mapped",
            FaultReason::ReadOnly => "page is read-only",
            FaultReason::NonExecutable => "page is non-executable",
            FaultReason::Unknown => "unknown error",
        }
    }
}

/// The reason for a fault of kind `access` on a page with permissions `perms`.
pub fn fault_reason(access: AccessAttempt, perms: &PagePermissions) -> (r: FaultReason)
    ensures
        r == reason_for(access, *perms),
{
    if !perms.accessible {
        FaultReason::NotMapped
    } else if access == AccessAttempt::Write && !perms.writable {
        FaultReason::ReadOnly
    } else if access == AccessAttempt::Execute && !perms.executable {
        FaultReason::NonExecutable
    } else {
        FaultReason::Unknown
    }
}

/// A classified kernel page fault, which the caller escalates to a panic at
/// the captured machine state.
#[derive(Clone, Copy, Debug, PartialEq, Eq, Structural)]
pub struct PageFault {
    pub addr: VAddr,
    pub access: AccessAttempt,
    pub reason: FaultReason,
}

/// Classify a fault of kind `access` at `fault_addr`, looking up the page's
/// permissions through the tables at `root`.
pub fn handle_pagefault(fault_addr: VAddr, access: AccessAttempt, mem: &VmMemory, root: PAddr) -> (r: PageFault)
    ensures
        r.addr == fault_addr,
        r.access == access,
        r.reason == reason_for(access, permissions_of(mem.0@, root.0, fault_addr.0)),
{
    let perms = page_permissions(mem, root, fault_addr);
    PageFault { addr: fault_addr, access, reason: fault_reason(access, &perms) }
}

} // verus!
