//! Native syscall dispatch (ids 256 and up, kernel-internal).
use vstd::prelude::*;

use crate::governance::NATIVE_SYSCALL_ID_BASE;
use crate::kernel_object::{
    ambient_allows, cap_transfer_move, close_cap_for_process, has_free_slot, mint_cap_for_process,
    minted_cap, rights_contain, spec_get_cap, stored_at, CapError, KernelObjects, ObjectId, Rights,
};
use crate::process::{ProcessId, ProcessTable};

verus! {

/// Errors a syscall reports to its caller.
#[derive(Debug, Clone, Copy, PartialEq, Eq, Structural)]
pub enum SyscallError {
    InvalidSyscall,
    InvalidArgument,
}

#[derive(Debug, Clone, Copy, PartialEq, Eq, Structural)]
pub enum NativeSyscallId {
    CapCreate,
    CapClose,
    CapTransfer,
}

pub open spec fn native_id_code(id: NativeSyscallId) -> u64 {
    match id {
        NativeSyscallId::CapCreate => 256,
        NativeSyscallId::CapClose => 257,
        NativeSyscallId::CapTransfer => 258,
    }
}

impl NativeSyscallId {
    /// The syscall number of this id.
    pub fn as_u64(self) -> (r: u64)
        ensures
            r == native_id_code(self),
    {
        match self {
            NativeSyscallId::CapCreate => 256,
            NativeSyscallId::CapClose => 257,
            NativeSyscallId::CapTransfer => 258,
        }
    }

    pub fn from_raw(id: u64) -> (r: Option<Self>)
        ensures
            id == 256 ==> r == Some(NativeSyscallId::CapCreate),
            id == 257 ==> r == Some(NativeSyscallId::CapClose),
            id == 258 ==> r == Some(NativeSyscallId::CapTransfer),
            !(256 <= id <= 258) ==> r is None,
    {
        match id {
            256 => Some(NativeSyscallId::CapCreate),
            257 => Some(NativeSyscallId::CapClose),
            258 => Some(NativeSyscallId::CapTransfer),
            _ => None,
        }
    }
}

/// Every capability error surfaces to callers as an invalid argument.
pub fn cap_error_to_syscall(err: CapError) -> (r: SyscallError)
    ensures
        r == SyscallError::InvalidArgument,
{
    match err {
        CapError::AmplificationDenied | CapError::AmbientDenied => SyscallError::InvalidArgument,
        _ => SyscallError::InvalidArgument,
    }
}

/// Kernel-only native syscall entry (not in the hardware allowlist).
pub fn invoke_native(
    objs: &mut KernelObjects,
    procs: &mut ProcessTable,
    id: u64,
    pid: ProcessId,
    arg0: u64,
    arg1: u64,
    _arg2: u64,
) -> (r: Result<u64, SyscallError>)
    requires
        old(procs).wf(),
    ensures
        final(procs).wf(),
        final(objs).same_objects(old(objs)),
        !(256 <= id <= 258) ==> r == Err::<u64, SyscallError>(SyscallError::InvalidSyscall)
            && final(procs).procs@ == old(procs).procs@,
        r is Err ==> r == Err::<u64, SyscallError>(SyscallError::InvalidSyscall) || r == Err::<
            u64,
            SyscallError,
        >(SyscallError::InvalidArgument),
        id == 256 ==> {
            let oid = ObjectId(arg0);
            let rights = Rights(arg1 as u32);
            &&& r is Ok <==> (ambient_allows(old(procs), pid) && old(objs).has_object(oid)
                && rights_contain(old(objs).record(oid).max_rights, rights) && old(procs).has(pid)
                && has_free_slot(old(procs), pid))
            &&& r is Ok ==> r->Ok_0 < 16 && stored_at(
                old(procs),
                final(procs),
                pid,
                r->Ok_0 as int,
                minted_cap(old(objs), oid, rights),
            )
        },
        id == 257 ==> {
            &&& r is Ok <==> (old(procs).has(pid) && (arg0 as u32) < 16 && old(procs).caps_of(
                pid,
            )[(arg0 as u32) as int] is Some)
            &&& r is Ok ==> r == Ok::<u64, SyscallError>(0) && final(procs).caps_of(pid) == old(procs).caps_of(pid).update((arg0 as u32) as int, None)
        },
        id == 258 && pid != ProcessId(arg1) ==> (spec_get_cap(old(procs), pid, arg0 as u32) matches Some(c)
            ==> (r is Ok <==> (crate::kernel_object::validate_spec(old(objs), c) is Ok && old(procs).has(ProcessId(arg1))
            && has_free_slot(old(procs), ProcessId(arg1))))),
        id == 258 && pid != ProcessId(arg1) && r is Ok ==> spec_get_cap(final(procs), pid, arg0 as u32) is None,
        id == 258 ==> (r is Ok ==> r->Ok_0 < 16 && spec_get_cap(old(procs), pid, arg0 as u32) is Some
            && spec_get_cap(final(procs), ProcessId(arg1), r->Ok_0 as u32) == spec_get_cap(
            old(procs),
            pid,
            arg0 as u32,
        )),
{
    if id < NATIVE_SYSCALL_ID_BASE {
        return Err(SyscallError::InvalidSyscall);
    }
    let native = match NativeSyscallId::from_raw(id) {
        Some(n) => n,
        None => return Err(SyscallError::InvalidSyscall),
    };
    match native {
        NativeSyscallId::CapCreate => {
            let object_id = ObjectId::from_raw(arg0);
            let rights = Rights(arg1 as u32);
            match mint_cap_for_process(objs, procs, pid, object_id, rights) {
                Ok(slot) => Ok(slot as u64),
                Err(e) => Err(cap_error_to_syscall(e)),
            }
        },
        NativeSyscallId::CapClose => {
            match close_cap_for_process(objs, procs, pid, arg0 as u32) {
                Ok(()) => Ok(0),
                Err(e) => Err(cap_error_to_syscall(e)),
            }
        },
        NativeSyscallId::CapTransfer => {
            let to_pid = ProcessId::from_raw(arg1);
            match cap_transfer_move(objs, procs, pid, arg0 as u32, to_pid) {
                Ok(slot) => Ok(slot as u64),
                Err(e) => Err(cap_error_to_syscall(e)),
            }
        },
    }
}

} // verus!
