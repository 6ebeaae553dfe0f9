//! The per-process records that the capability and descriptor tables live
//! in: identity, mode, owner, working directory, cap slots and fd slots.
use vstd::prelude::*;

use crate::bytes::copy_bytes;
use vstd::string::StringSliceAdditionalSpecFns;
use crate::fd_table::{FdSlotStorage, MAX_FDS};
use crate::kernel_object::{CapSlotStorage, MAX_CAPS};
use crate::security::Credentials;

verus! {

/// Capacity of the process table.
pub const MAX_PROCESSES: usize = 64;

#[derive(Debug, Clone, Copy, PartialEq, Eq, Structural)]
pub struct ProcessId(pub u64);

impl ProcessId {
    pub fn from_raw(raw: u64) -> (r: Self)
        ensures
            r.0 == raw,
    {
        ProcessId(raw)
    }

    pub fn as_u64(self) -> (r: u64)
        ensures
            r == self.0,
    {
        self.0
    }
}

/// Whether a process runs under the native capability model or the compat
/// (ambient authority) model.
#[derive(Debug, Clone, Copy, PartialEq, Eq, Structural)]
pub enum ProcessMode {
    Compat,
    Native,
}

pub struct Process {
    pub id: ProcessId,
    pub mode: ProcessMode,
    pub owner: Credentials,
    /// Working directory, as path bytes.
    pub cwd: Vec<u8>,
    pub caps: Vec<Option<CapSlotStorage>>,
    pub fds: Vec<Option<FdSlotStorage>>,
}

/// Process `k` (1-based id) lives at index `k - 1`.
pub struct ProcessTable {
    pub procs: Vec<Process>,
    pub smoke_pid: Option<ProcessId>,
    pub current_pid: Option<ProcessId>,
}

impl ProcessTable {
    pub open spec fn wf(&self) -> bool {
        &&& self.procs@.len() <= MAX_PROCESSES
        &&& forall|i: int|
            0 <= i < self.procs@.len() ==> {
                &&& (#[trigger] self.procs@[i]).id.0 == i + 1
                &&& self.procs@[i].caps@.len() == MAX_CAPS
                &&& self.procs@[i].fds@.len() == MAX_FDS
            }
    }

    pub open spec fn has(&self, pid: ProcessId) -> bool {
        1 <= pid.0 <= self.procs@.len()
    }

    pub open spec fn proc_at(&self, pid: ProcessId) -> Process {
        self.procs@[pid.0 - 1]
    }

    pub open spec fn mode_of(&self, pid: ProcessId) -> ProcessMode {
        if self.has(pid) {
            self.proc_at(pid).mode
        } else {
            ProcessMode::Compat
        }
    }

    pub open spec fn caps_of(&self, pid: ProcessId) -> Seq<Option<CapSlotStorage>> {
        self.proc_at(pid).caps@
    }

    pub open spec fn fds_of(&self, pid: ProcessId) -> Seq<Option<FdSlotStorage>> {
        self.proc_at(pid).fds@
    }

    /// Every process other than `pid` is untouched, and the table shape is kept.
    pub open spec fn others_unchanged(&self, other: &ProcessTable, pid: ProcessId) -> bool {
        &&& self.procs@.len() == other.procs@.len()
        &&& self.smoke_pid == other.smoke_pid
        &&& self.current_pid == other.current_pid
        &&& forall|i: int|
            0 <= i < self.procs@.len() && i != pid.0 - 1 ==> #[trigger] self.procs@[i]
                == other.procs@[i]
    }

    /// An empty table.
    pub fn new() -> (r: Self)
        ensures
            r.wf(),
            r.procs@.len() == 0,
            r.smoke_pid is None,
            r.current_pid is None,
    {
        ProcessTable { procs: Vec::new(), smoke_pid: None, current_pid: None }
    }

    /// Create a process in compat mode with empty cap and fd tables; `None`
    /// when the table is full.
    pub fn create_process(&mut self, owner: Credentials) -> (r: Option<ProcessId>)
        requires
            old(self).wf(),
        ensures
            final(self).wf(),
            old(self).procs@.len() >= MAX_PROCESSES ==> r is None && final(self).procs@
                == old(self).procs@,
            old(self).procs@.len() < MAX_PROCESSES ==> {
                &&& r == Some(ProcessId((old(self).procs@.len() + 1) as u64))
                &&& final(self).procs@.len() == old(self).procs@.len() + 1
                &&& forall|i: int|
                    0 <= i < old(self).procs@.len() ==> #[trigger] final(self).procs@[i]
                        == old(self).procs@[i]
                &&& final(self).proc_at(r->Some_0).mode == ProcessMode::Compat
                &&& final(self).proc_at(r->Some_0).owner == owner
                &&& final(self).proc_at(r->Some_0).cwd@ == seq![47u8]
                &&& forall|k: int|
                    0 <= k < MAX_CAPS ==> (#[trigger] final(self).caps_of(r->Some_0)[k]) is None
                &&& forall|k: int|
                    0 <= k < MAX_FDS ==> (#[trigger] final(self).fds_of(r->Some_0)[k]) is None
            },
            final(self).smoke_pid == old(self).smoke_pid,
            final(self).current_pid == old(self).current_pid,
    {
        if self.procs.len() >= MAX_PROCESSES {
            return None;
        }
        let id = ProcessId((self.procs.len() + 1) as u64);
        let mut caps: Vec<Option<CapSlotStorage>> = Vec::new();
        let mut i: usize = 0;
        while i < MAX_CAPS
            invariant
                i <= MAX_CAPS,
                caps@.len() == i,
                forall|k: int| 0 <= k < i ==> (#[trigger] caps@[k]) is None,
            decreases MAX_CAPS - i,
        {
            caps.push(None);
            i += 1;
        }
        let mut fds: Vec<Option<FdSlotStorage>> = Vec::new();
        let mut j: usize = 0;
        while j < MAX_FDS
            invariant
                j <= MAX_FDS,
                fds@.len() == j,
                forall|k: int| 0 <= k < j ==> (#[trigger] fds@[k]) is None,
            decreases MAX_FDS - j,
        {
            fds.push(None);
            j += 1;
        }
        let ghost before = self.procs@;
        let mut cwd: Vec<u8> = Vec::new();
        cwd.push(47u8);
        self.procs.push(Process { id, mode: ProcessMode::Compat, owner, cwd, caps, fds });
        assert forall|i: int| 0 <= i < before.len() implies #[trigger] self.procs@[i]
            == before[i] by {}
        Some(id)
    }

    pub fn process_mode(&self, pid: ProcessId) -> (r: ProcessMode)
        requires
            self.wf(),
        ensures
            r == self.mode_of(pid),
    {
        if pid.0 >= 1 && pid.0 <= self.procs.len() as u64 {
            self.procs[(pid.0 - 1) as usize].mode
        } else {
            ProcessMode::Compat
        }
    }

    /// Set the mode of an existing process; unknown ids are ignored.
    pub fn set_process_mode(&mut self, pid: ProcessId, mode: ProcessMode)
        requires
            old(self).wf(),
        ensures
            final(self).wf(),
            final(self).others_unchanged(old(self), pid),
            old(self).has(pid) ==> final(self).proc_at(pid).mode == mode && final(self).caps_of(pid)
                == old(self).caps_of(pid) && final(self).fds_of(pid) == old(self).fds_of(pid)
                && final(self).proc_at(pid).owner == old(self).proc_at(pid).owner
                && final(self).proc_at(pid).cwd@ == old(self).proc_at(pid).cwd@,
            !old(self).has(pid) ==> final(self).procs@ == old(self).procs@,
    {
        if pid.0 >= 1 && pid.0 <= self.procs.len() as u64 {
            let idx = (pid.0 - 1) as usize;
            self.procs[idx].mode = mode;
        }
    }

    pub fn process_owner(&self, pid: ProcessId) -> (r: Option<Credentials>)
        requires
            self.wf(),
        ensures
            self.has(pid) ==> r == Some(self.proc_at(pid).owner),
            !self.has(pid) ==> r is None,
    {
        if pid.0 >= 1 && pid.0 <= self.procs.len() as u64 {
            Some(self.procs[(pid.0 - 1) as usize].owner)
        } else {
            None
        }
    }

    pub fn smoke_process_id(&self) -> (r: Option<ProcessId>)
        ensures
            r == self.smoke_pid,
    {
        self.smoke_pid
    }

    pub fn set_smoke_process_id(&mut self, pid: Option<ProcessId>)
        ensures
            final(self).smoke_pid == pid,
            final(self).procs == old(self).procs,
            final(self).current_pid == old(self).current_pid,
    {
        self.smoke_pid = pid;
    }

    pub fn current_process_id(&self) -> (r: Option<ProcessId>)
        ensures
            r == self.current_pid,
    {
        self.current_pid
    }

    /// The working directory of `pid`, `None` for an unknown process.
    pub fn process_cwd(&self, pid: ProcessId) -> (r: Option<Vec<u8>>)
        requires
            self.wf(),
        ensures
            self.has(pid) ==> r is Some && r->Some_0@ == self.proc_at(pid).cwd@,
            !self.has(pid) ==> r is None,
    {
        if pid.0 >= 1 && pid.0 <= self.procs.len() as u64 {
            Some(copy_bytes(self.procs[(pid.0 - 1) as usize].cwd.as_slice()))
        } else {
            None
        }
    }

    /// Set the working directory of an existing process.
    pub fn set_process_cwd(&mut self, pid: ProcessId, path: &str) -> (r: bool)
        requires
            old(self).wf(),
        ensures
            final(self).wf(),
            r == old(self).has(pid),
            final(self).others_unchanged(old(self), pid),
            old(self).has(pid) ==> final(self).proc_at(pid).cwd@ == path.spec_bytes()
                && final(self).proc_at(pid).mode == old(self).proc_at(pid).mode
                && final(self).proc_at(pid).owner == old(self).proc_at(pid).owner
                && final(self).caps_of(pid) == old(self).caps_of(pid)
                && final(self).fds_of(pid) == old(self).fds_of(pid),
            !old(self).has(pid) ==> final(self).procs@ == old(self).procs@,
    {
        if pid.0 >= 1 && pid.0 <= self.procs.len() as u64 {
            let idx = (pid.0 - 1) as usize;
            self.procs[idx].cwd = copy_bytes(path.as_bytes());
            true
        } else {
            false
        }
    }

    pub fn set_current_process_id(&mut self, pid: Option<ProcessId>)
        ensures
            final(self).current_pid == pid,
            final(self).procs == old(self).procs,
            final(self).smoke_pid == old(self).smoke_pid,
    {
        self.current_pid = pid;
    }
}

} // verus!
