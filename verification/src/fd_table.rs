//! Per-process file descriptor tables: open, close, dup and fcntl on the
//! slots of a process, and the byte path through pipes and stored files.
use vstd::prelude::*;

use crate::bytes::{bytes_ends_with, bytes_starts_with, copy_bytes, is_valid_utf8};
use crate::counter::{bump, bumped};
use crate::process::{ProcessId, ProcessTable};
use crate::pipe::{is_pipe_read, is_pipe_write, pipe_id_from_path, pipe_id_spec, read_pipe, write_pipe, ends_with, PipeTable, PIPE_CAPACITY, MAX_PIPES};
use crate::security::{current_credentials, role_of_code, Credentials, SecurityState, UserId};
use crate::storage::{read_file_checked, write_file_checked, FileStore};
use vstd::string::StringSliceAdditionalSpecFns;

verus! {

pub const MAX_FDS: usize = 8;

pub const F_GETFD: u64 = 1;
pub const F_DUPFD: u64 = 2;
pub const F_SETFD: u64 = 3;
pub const FD_CLOEXEC: u64 = 1;

/// An open descriptor: the resolved path (bytes) and its descriptor flags.
pub struct FdSlotStorage {
    pub path: Vec<u8>,
    pub flags: u32,
}

/// The descriptor counters.
pub struct FdState {
    pub opens: u64,
    pub closes: u64,
    pub reads: u64,
    pub writes: u64,
    pub rejected: u64,
    pub dups: u64,
    pub relative: u64,
    pub proc_fd_isolated: u64,
    pub fcntl_getfd: u64,
    pub fcntl_setfd: u64,
    pub fcntl_dupfd: u64,
    pub fcntl_rejected: u64,
    pub fork_inherited: u64,
    pub fork_isolated: u64,
}

impl FdState {
    pub fn new() -> (r: Self)
        ensures
            r.opens == 0 && r.closes == 0 && r.reads == 0 && r.writes == 0 && r.rejected == 0,
            r.dups == 0 && r.relative == 0 && r.proc_fd_isolated == 0,
            r.fcntl_getfd == 0 && r.fcntl_setfd == 0 && r.fcntl_dupfd == 0 && r.fcntl_rejected == 0,
            r.fork_inherited == 0 && r.fork_isolated == 0,
    {
        FdState {
            opens: 0,
            closes: 0,
            reads: 0,
            writes: 0,
            rejected: 0,
            dups: 0,
            relative: 0,
            proc_fd_isolated: 0,
            fcntl_getfd: 0,
            fcntl_setfd: 0,
            fcntl_dupfd: 0,
            fcntl_rejected: 0,
            fork_inherited: 0,
            fork_isolated: 0,
        }
    }
}

/// The fcntl, fork and isolation counters are untouched.
pub open spec fn side_counters_same(a: &FdState, b: &FdState) -> bool {
    &&& a.fcntl_getfd == b.fcntl_getfd
    &&& a.fcntl_setfd == b.fcntl_setfd
    &&& a.fcntl_dupfd == b.fcntl_dupfd
    &&& a.fcntl_rejected == b.fcntl_rejected
    &&& a.fork_inherited == b.fork_inherited
    &&& a.fork_isolated == b.fork_isolated
    &&& a.proc_fd_isolated == b.proc_fd_isolated
    &&& a.reads == b.reads
    &&& a.writes == b.writes
    &&& a.relative == b.relative
}

/// The fcntl counters are untouched.
pub open spec fn fcntl_counters_same(a: &FdState, b: &FdState) -> bool {
    &&& a.fcntl_getfd == b.fcntl_getfd
    &&& a.fcntl_setfd == b.fcntl_setfd
    &&& a.fcntl_dupfd == b.fcntl_dupfd
    &&& a.fcntl_rejected == b.fcntl_rejected
}

/// The descriptor `fd` of `pid`, if open.
pub open spec fn fd_entry(procs: &ProcessTable, pid: ProcessId, fd: u32) -> Option<FdSlotStorage> {
    if procs.has(pid) && fd < MAX_FDS {
        procs.fds_of(pid)[fd as int]
    } else {
        None
    }
}

pub open spec fn has_free_fd(procs: &ProcessTable, pid: ProcessId) -> bool {
    exists|j: int| 0 <= j < MAX_FDS && (#[trigger] procs.fds_of(pid)[j]) is None
}

/// `after` is `before` with a descriptor for `path` (flags 0) stored in the
/// first free slot `i` of `pid`.
pub open spec fn fd_stored_at(
    before: &ProcessTable,
    after: &ProcessTable,
    pid: ProcessId,
    i: int,
    path: Seq<u8>,
) -> bool {
    &&& 0 <= i < MAX_FDS
    &&& before.fds_of(pid)[i] is None
    &&& forall|j: int| 0 <= j < i ==> (#[trigger] before.fds_of(pid)[j]) is Some
    &&& after.fds_of(pid).len() == before.fds_of(pid).len()
    &&& forall|j: int| 0 <= j < MAX_FDS && j != i ==> (#[trigger] after.fds_of(pid)[j]) == before.fds_of(pid)[j]
    &&& after.fds_of(pid)[i] is Some
    &&& after.fds_of(pid)[i]->Some_0.path@ == path
    &&& after.fds_of(pid)[i]->Some_0.flags == 0
    &&& after.caps_of(pid) == before.caps_of(pid)
    &&& after.proc_at(pid).mode == before.proc_at(pid).mode
    &&& after.proc_at(pid).owner == before.proc_at(pid).owner
    &&& after.proc_at(pid).cwd@ == before.proc_at(pid).cwd@
    &&& after.others_unchanged(before, pid)
}

/// The process an ambient descriptor call acts for: the current process,
/// else the smoke process.
pub open spec fn acting_pid(procs: &ProcessTable) -> Option<ProcessId> {
    if procs.current_pid is Some {
        procs.current_pid
    } else {
        procs.smoke_pid
    }
}

fn acting_process(procs: &ProcessTable) -> (r: Option<ProcessId>)
    ensures
        r == acting_pid(procs),
{
    match procs.current_process_id() {
        Some(p) => Some(p),
        None => procs.smoke_process_id(),
    }
}

/// (opens, closes, reads, writes, rejected).
pub fn status(st: &FdState) -> (r: (u64, u64, u64, u64, u64))
    ensures
        r == (st.opens, st.closes, st.reads, st.writes, st.rejected),
{
    (st.opens, st.closes, st.reads, st.writes, st.rejected)
}

/// (dups, relative-path resolutions).
pub fn dup_status(st: &FdState) -> (r: (u64, u64))
    ensures
        r == (st.dups, st.relative),
{
    (st.dups, st.relative)
}

pub fn proc_fd_isolated(st: &FdState) -> (r: bool)
    ensures
        r == (st.proc_fd_isolated != 0),
{
    st.proc_fd_isolated != 0
}

/// (F_GETFD calls, F_DUPFD calls, rejected fcntl calls).
pub fn fcntl_status(st: &FdState) -> (r: (u64, u64, u64))
    ensures
        r == (st.fcntl_getfd, st.fcntl_dupfd, st.fcntl_rejected),
{
    (st.fcntl_getfd, st.fcntl_dupfd, st.fcntl_rejected)
}

/// (F_SETFD calls, F_GETFD calls, rejected fcntl calls).
pub fn fcntl_setfd_status(st: &FdState) -> (r: (u64, u64, u64))
    ensures
        r == (st.fcntl_setfd, st.fcntl_getfd, st.fcntl_rejected),
{
    (st.fcntl_setfd, st.fcntl_getfd, st.fcntl_rejected)
}

/// (descriptors inherited by a fork, forks seen isolated).
pub fn fork_lite_status(st: &FdState) -> (r: (u64, u64))
    ensures
        r == (st.fork_inherited, st.fork_isolated),
{
    (st.fork_inherited, st.fork_isolated)
}

/// Store a descriptor in the first free slot of `pid`: `None` when there is
/// no such process, `Some(None)` when its table is full.
fn alloc_fd_slot(procs: &mut ProcessTable, pid: ProcessId, slot: FdSlotStorage) -> (r: Option<
    Option<u32>,
>)
    requires
        old(procs).wf(),
        slot.flags == 0,
    ensures
        final(procs).wf(),
        !old(procs).has(pid) ==> r is None && final(procs).procs@ == old(procs).procs@,
        old(procs).has(pid) && !has_free_fd(old(procs), pid) ==> r == Some(None::<u32>)
            && final(procs).procs@ == old(procs).procs@,
        old(procs).has(pid) && has_free_fd(old(procs), pid) ==> (r matches Some(Some(i))
            && fd_stored_at(old(procs), final(procs), pid, i as int, slot.path@)),
        final(procs).smoke_pid == old(procs).smoke_pid,
        final(procs).current_pid == old(procs).current_pid,
{
    if !(pid.0 >= 1 && pid.0 <= procs.procs.len() as u64) {
        return None;
    }
    let idx = (pid.0 - 1) as usize;
    let mut i: usize = 0;
    while i < MAX_FDS
        invariant
            procs.wf(),
            *procs == *old(procs),
            idx == pid.0 - 1,
            procs.has(pid),
            slot.flags == 0,
            i <= MAX_FDS,
            forall|j: int| 0 <= j < i ==> (#[trigger] procs.fds_of(pid)[j]) is Some,
        decreases MAX_FDS - i,
    {
        if procs.procs[idx].fds[i].is_none() {
            let ghost before = *procs;
            let mut p = procs.procs.remove(idx);
            p.fds.set(i, Some(slot));
            procs.procs.insert(idx, p);
            assert(procs.procs@ =~= before.procs@.update(idx as int, procs.procs@[idx as int]));
            return Some(Some(i as u32));
        }
        i += 1;
    }
    Some(None)
}

/// The byte path of a descriptor table entry.
fn fd_path(procs: &ProcessTable, pid: ProcessId, fd: u32) -> (r: Option<Vec<u8>>)
    requires
        procs.wf(),
    ensures
        fd_entry(procs, pid, fd) is None ==> r is None,
        fd_entry(procs, pid, fd) matches Some(e) ==> r is Some && r->Some_0@ == e.path@,
{
    if pid.0 >= 1 && pid.0 <= procs.procs.len() as u64 && (fd as usize) < MAX_FDS {
        match &procs.procs[(pid.0 - 1) as usize].fds[fd as usize] {
            Some(e) => Some(copy_bytes(e.path.as_slice())),
            None => None,
        }
    } else {
        None
    }
}

pub open spec fn pipe_path_prefix() -> Seq<u8> {
    seq![47u8, 64u8, 112u8, 105u8, 112u8, 101u8, 47u8]
}

pub open spec fn starts_with(s: Seq<u8>, prefix: Seq<u8>) -> bool {
    prefix.len() <= s.len() && s.subrange(0, prefix.len() as int) == prefix
}

/// Open a pipe end named `/@pipe/<id>/<r|w>`; other paths are rejected.
pub fn open_pipe_for_process(st: &mut FdState, procs: &mut ProcessTable, pid: ProcessId, path: &[u8]) -> (r: Result<
    u32,
    (),
>)
    requires
        old(procs).wf(),
    ensures
        final(procs).wf(),
        final(procs).smoke_pid == old(procs).smoke_pid,
        final(procs).current_pid == old(procs).current_pid,
        !starts_with(path@, pipe_path_prefix()) ==> r is Err && final(procs).procs@ == old(procs).procs@
            && final(st).rejected == bumped(old(st).rejected) && final(st).opens == old(st).opens,
        starts_with(path@, pipe_path_prefix()) && !old(procs).has(pid) ==> r is Err
            && final(procs).procs@ == old(procs).procs@ && final(st).rejected == old(st).rejected
            && final(st).opens == old(st).opens,
        starts_with(path@, pipe_path_prefix()) && old(procs).has(pid) && !has_free_fd(old(procs), pid)
            ==> r is Err && final(procs).procs@ == old(procs).procs@ && final(st).rejected == bumped(
            old(st).rejected,
        ) && final(st).opens == old(st).opens,
        starts_with(path@, pipe_path_prefix()) && old(procs).has(pid) && has_free_fd(old(procs), pid)
            ==> r is Ok && fd_stored_at(old(procs), final(procs), pid, r->Ok_0 as int, path@)
            && final(st).opens == bumped(old(st).opens) && final(st).rejected == old(st).rejected,
        final(st).closes == old(st).closes && final(st).dups == old(st).dups,
        side_counters_same(final(st), old(st)),
{
    let prefix: [u8; 7] = [47u8, 64u8, 112u8, 105u8, 112u8, 101u8, 47u8];
    assert(prefix@ == pipe_path_prefix());
    if !bytes_starts_with(path, &prefix) {
        st.rejected = bump(st.rejected);
        return Err(());
    }
    match alloc_fd_slot(procs, pid, FdSlotStorage { path: copy_bytes(path), flags: 0 }) {
        Some(Some(fd)) => {
            st.opens = bump(st.opens);
            Ok(fd)
        },
        Some(None) => {
            st.rejected = bump(st.rejected);
            Err(())
        },
        None => Err(()),
    }
}

/// Close descriptor `fd` of `pid`.
pub fn close_file_for_process(st: &mut FdState, procs: &mut ProcessTable, pid: ProcessId, fd: u32) -> (r:
    Result<(), ()>)
    requires
        old(procs).wf(),
    ensures
        final(procs).wf(),
        final(procs).smoke_pid == old(procs).smoke_pid,
        final(procs).current_pid == old(procs).current_pid,
        !old(procs).has(pid) ==> r is Err && final(procs).procs@ == old(procs).procs@
            && final(st).rejected == old(st).rejected && final(st).closes == old(st).closes,
        old(procs).has(pid) && fd_entry(old(procs), pid, fd) is None ==> r is Err
            && final(procs).procs@ == old(procs).procs@ && final(st).rejected == bumped(
            old(st).rejected,
        ) && final(st).closes == old(st).closes,
        fd_entry(old(procs), pid, fd) is Some ==> r is Ok && final(procs).fds_of(pid) == old(
            procs,
        ).fds_of(pid).update(fd as int, None) && final(procs).caps_of(pid) == old(procs).caps_of(pid)
            && final(procs).proc_at(pid).mode == old(procs).proc_at(pid).mode
            && final(procs).proc_at(pid).owner == old(procs).proc_at(pid).owner
            && final(procs).others_unchanged(old(procs), pid) && final(st).closes == bumped(
            old(st).closes,
        ) && final(st).rejected == old(st).rejected,
        final(st).opens == old(st).opens && final(st).dups == old(st).dups,
        side_counters_same(final(st), old(st)),
{
    if !(pid.0 >= 1 && pid.0 <= procs.procs.len() as u64) {
        return Err(());
    }
    let idx = (pid.0 - 1) as usize;
    let i = fd as usize;
    if i >= MAX_FDS || procs.procs[idx].fds[i].is_none() {
        st.rejected = bump(st.rejected);
        return Err(());
    }
    let ghost before = *procs;
    let mut p = procs.procs.remove(idx);
    p.fds.set(i, None);
    procs.procs.insert(idx, p);
    assert(procs.procs@ =~= before.procs@.update(idx as int, procs.procs@[idx as int]));
    st.closes = bump(st.closes);
    Ok(())
}

/// Duplicate descriptor `fd` of `pid` into its first free slot (the copy
/// starts with flags 0).
pub fn dup_fd_for_process(st: &mut FdState, procs: &mut ProcessTable, pid: ProcessId, fd: u32) -> (r:
    Result<u32, ()>)
    requires
        old(procs).wf(),
    ensures
        final(procs).wf(),
        final(procs).smoke_pid == old(procs).smoke_pid,
        final(procs).current_pid == old(procs).current_pid,
        !old(procs).has(pid) ==> r is Err && final(procs).procs@ == old(procs).procs@
            && final(st).rejected == old(st).rejected && final(st).dups == old(st).dups,
        old(procs).has(pid) && fd >= MAX_FDS ==> r is Err && final(procs).procs@ == old(procs).procs@
            && final(st).rejected == bumped(old(st).rejected) && final(st).dups == old(st).dups,
        old(procs).has(pid) && fd < MAX_FDS && fd_entry(old(procs), pid, fd) is None ==> r is Err
            && final(procs).procs@ == old(procs).procs@ && final(st).rejected == old(st).rejected
            && final(st).dups == old(st).dups,
        fd_entry(old(procs), pid, fd) is Some && !has_free_fd(old(procs), pid) ==> r is Err
            && final(procs).procs@ == old(procs).procs@ && final(st).rejected == bumped(
            old(st).rejected,
        ) && final(st).dups == old(st).dups,
        fd_entry(old(procs), pid, fd) is Some && has_free_fd(old(procs), pid) ==> r is Ok
            && fd_stored_at(old(procs), final(procs), pid, r->Ok_0 as int, fd_entry(old(procs), pid, fd)->Some_0.path@)
            && final(st).dups == bumped(old(st).dups) && final(st).rejected == old(st).rejected,
        final(st).opens == old(st).opens && final(st).closes == old(st).closes,
        side_counters_same(final(st), old(st)),
{
    if !(pid.0 >= 1 && pid.0 <= procs.procs.len() as u64) {
        return Err(());
    }
    if fd as usize >= MAX_FDS {
        st.rejected = bump(st.rejected);
        return Err(());
    }
    let path = match fd_path(procs, pid, fd) {
        Some(p) => p,
        None => return Err(()),
    };
    match alloc_fd_slot(procs, pid, FdSlotStorage { path, flags: 0 }) {
        Some(Some(new_fd)) => {
            st.dups = bump(st.dups);
            Ok(new_fd)
        },
        _ => {
            st.rejected = bump(st.rejected);
            Err(())
        },
    }
}

/// Close `fd` of the acting process.
pub fn close_file(st: &mut FdState, procs: &mut ProcessTable, fd: u32) -> (r: Result<(), ()>)
    requires
        old(procs).wf(),
    ensures
        final(procs).wf(),
        acting_pid(old(procs)) is None ==> r is Err && *final(st) == *old(st) && final(procs).procs@ == old(procs).procs@,
        acting_pid(old(procs)) matches Some(pid) ==> (r is Ok <==> fd_entry(old(procs), pid, fd) is Some),
        r is Ok ==> final(procs).fds_of(acting_pid(old(procs))->Some_0) == old(procs).fds_of(acting_pid(old(procs))->Some_0).update(fd as int, None),
{
    let pid = match acting_process(procs) {
        Some(p) => p,
        None => return Err(()),
    };
    close_file_for_process(st, procs, pid, fd)
}

/// Duplicate `fd` of the acting process.
pub fn dup_fd(st: &mut FdState, procs: &mut ProcessTable, fd: u32) -> (r: Result<u32, ()>)
    requires
        old(procs).wf(),
    ensures
        final(procs).wf(),
        final(procs).smoke_pid == old(procs).smoke_pid,
        final(procs).current_pid == old(procs).current_pid,
        acting_pid(old(procs)) is None ==> r is Err && *final(st) == *old(st) && final(procs).procs@ == old(procs).procs@,
        acting_pid(old(procs)) matches Some(pid) ==> (r is Ok <==> (fd_entry(old(procs), pid, fd) is Some && has_free_fd(old(procs), pid))),
        r is Ok ==> fd_stored_at(old(procs), final(procs), acting_pid(old(procs))->Some_0, r->Ok_0 as int, fd_entry(old(procs), acting_pid(old(procs))->Some_0, fd)->Some_0.path@),
        r is Ok ==> final(st).dups == bumped(old(st).dups),
        r is Err ==> final(procs).procs@ == old(procs).procs@ && final(st).dups == old(st).dups,
        final(st).fcntl_getfd == old(st).fcntl_getfd && final(st).fcntl_setfd == old(st).fcntl_setfd
            && final(st).fcntl_dupfd == old(st).fcntl_dupfd && final(st).fcntl_rejected == old(st).fcntl_rejected,
{
    let pid = match acting_process(procs) {
        Some(p) => p,
        None => return Err(()),
    };
    dup_fd_for_process(st, procs, pid, fd)
}

/// fcntl on a descriptor of the acting process: `F_GETFD` reads the flags,
/// `F_SETFD` sets them to the low 32 bits of `arg`, `F_DUPFD` duplicates
/// the descriptor; any other command is rejected.
pub fn fcntl(st: &mut FdState, procs: &mut ProcessTable, fd: u32, cmd: u64, arg: u64) -> (r: Result<u64, ()>)
    requires
        old(procs).wf(),
    ensures
        final(procs).wf(),
        cmd == F_GETFD ==> final(st).fcntl_getfd == bumped(old(st).fcntl_getfd)
            && final(procs).procs@ == old(procs).procs@
            && (r is Ok <==> (acting_pid(old(procs)) is Some && fd_entry(old(procs), acting_pid(old(procs))->Some_0, fd) is Some))
            && (r is Ok ==> r->Ok_0 == fd_entry(old(procs), acting_pid(old(procs))->Some_0, fd)->Some_0.flags),
        cmd == F_SETFD ==> (r is Ok <==> (acting_pid(old(procs)) is Some && fd_entry(old(procs), acting_pid(old(procs))->Some_0, fd) is Some))
            && (r is Ok ==> r->Ok_0 == 0 && final(st).fcntl_setfd == bumped(old(st).fcntl_setfd)
                && fd_entry(final(procs), acting_pid(old(procs))->Some_0, fd) is Some
                && fd_entry(final(procs), acting_pid(old(procs))->Some_0, fd)->Some_0.flags == (arg & 0xffff_ffff) as u32
                && fd_entry(final(procs), acting_pid(old(procs))->Some_0, fd)->Some_0.path@ == fd_entry(old(procs), acting_pid(old(procs))->Some_0, fd)->Some_0.path@
                && final(procs).fds_of(acting_pid(old(procs))->Some_0) == old(procs).fds_of(acting_pid(old(procs))->Some_0).update(
                    fd as int,
                    final(procs).fds_of(acting_pid(old(procs))->Some_0)[fd as int],
                )
                && final(procs).caps_of(acting_pid(old(procs))->Some_0) == old(procs).caps_of(acting_pid(old(procs))->Some_0)
                && final(procs).proc_at(acting_pid(old(procs))->Some_0).mode == old(procs).proc_at(acting_pid(old(procs))->Some_0).mode
                && final(procs).proc_at(acting_pid(old(procs))->Some_0).owner == old(procs).proc_at(acting_pid(old(procs))->Some_0).owner
                && final(procs).proc_at(acting_pid(old(procs))->Some_0).cwd@ == old(procs).proc_at(acting_pid(old(procs))->Some_0).cwd@
                && final(procs).others_unchanged(old(procs), acting_pid(old(procs))->Some_0))
            && (r is Err ==> final(procs).procs@ == old(procs).procs@
                && (acting_pid(old(procs)) is Some ==> final(st).fcntl_rejected == bumped(old(st).fcntl_rejected))),
        cmd == F_DUPFD ==> (r is Ok <==> (acting_pid(old(procs)) is Some && fd_entry(old(procs), acting_pid(old(procs))->Some_0, fd) is Some && has_free_fd(old(procs), acting_pid(old(procs))->Some_0)))
            && (r is Ok ==> final(st).fcntl_dupfd == bumped(old(st).fcntl_dupfd) && fd_stored_at(old(procs), final(procs), acting_pid(old(procs))->Some_0, r->Ok_0 as int, fd_entry(old(procs), acting_pid(old(procs))->Some_0, fd)->Some_0.path@))
            && (r is Err ==> final(st).fcntl_rejected == bumped(old(st).fcntl_rejected)),
        cmd != F_GETFD && cmd != F_SETFD && cmd != F_DUPFD ==> r is Err && final(st).fcntl_rejected
            == bumped(old(st).fcntl_rejected) && final(procs).procs@ == old(procs).procs@,
        cmd != F_GETFD ==> final(st).fcntl_getfd == old(st).fcntl_getfd,
        cmd != F_SETFD || r is Err ==> final(st).fcntl_setfd == old(st).fcntl_setfd,
        cmd != F_DUPFD || r is Err ==> final(st).fcntl_dupfd == old(st).fcntl_dupfd,
        cmd == F_GETFD || r is Ok || (cmd == F_SETFD && acting_pid(old(procs)) is None)
            ==> final(st).fcntl_rejected == old(st).fcntl_rejected,
        final(procs).smoke_pid == old(procs).smoke_pid && final(procs).current_pid == old(procs).current_pid,
{
    if cmd == F_GETFD {
        st.fcntl_getfd = bump(st.fcntl_getfd);
        let pid = match acting_process(procs) {
            Some(p) => p,
            None => return Err(()),
        };
        if pid.0 >= 1 && pid.0 <= procs.procs.len() as u64 && (fd as usize) < MAX_FDS {
            match &procs.procs[(pid.0 - 1) as usize].fds[fd as usize] {
                Some(e) => Ok(e.flags as u64),
                None => Err(()),
            }
        } else {
            Err(())
        }
    } else if cmd == F_SETFD {
        let pid = match acting_process(procs) {
            Some(p) => p,
            None => return Err(()),
        };
        let ok = pid.0 >= 1 && pid.0 <= procs.procs.len() as u64 && (fd as usize) < MAX_FDS
            && procs.procs[(pid.0 - 1) as usize].fds[fd as usize].is_some();
        if !ok {
            st.fcntl_rejected = bump(st.fcntl_rejected);
            return Err(());
        }
        let idx = (pid.0 - 1) as usize;
        let ghost before = *procs;
        let mut p = procs.procs.remove(idx);
        let mut entry = match p.fds[fd as usize].take() {
            Some(e) => e,
            None => FdSlotStorage { path: Vec::new(), flags: 0 },
        };
        entry.flags = (arg & 0xffff_ffff) as u32;
        let ghost fds0 = p.fds@;
        p.fds.set(fd as usize, Some(entry));
        assert(p.fds@ =~= fds0.update(fd as int, p.fds@[fd as int]));
        procs.procs.insert(idx, p);
        assert(procs.procs@ =~= before.procs@.update(idx as int, procs.procs@[idx as int]));
        st.fcntl_setfd = bump(st.fcntl_setfd);
        Ok(0)
    } else if cmd == F_DUPFD {
        match dup_fd(st, procs, fd) {
            Ok(out) => {
                st.fcntl_dupfd = bump(st.fcntl_dupfd);
                Ok(out as u64)
            },
            Err(_) => {
                st.fcntl_rejected = bump(st.fcntl_rejected);
                Err(())
            },
        }
    } else {
        st.fcntl_rejected = bump(st.fcntl_rejected);
        Err(())
    }
}

/// `path` made absolute against the working directory `cwd`.
pub open spec fn joined_path(cwd: Seq<u8>, path: Seq<u8>) -> Seq<u8> {
    if cwd.len() > 0 && cwd.last() == 47u8 {
        cwd + path
    } else {
        cwd + seq![47u8] + path
    }
}

/// Where a descriptor path names: absolute paths as given, relative ones
/// under the working directory of `pid` (`None` for an unknown process).
pub open spec fn resolved_path(procs: &ProcessTable, pid: ProcessId, path: Seq<u8>) -> Option<Seq<u8>> {
    if path.len() > 0 && path[0] == 47u8 {
        Some(path)
    } else if procs.has(pid) {
        Some(joined_path(procs.proc_at(pid).cwd@, path))
    } else {
        None
    }
}

/// How a descriptor path is resolved: an absolute path (leading `/`) names
/// itself; a relative one, for a known process, names the process's working
/// directory, then a single `/` unless the directory already ends in one,
/// then the path; for an unknown process a relative path names nothing.
pub proof fn lemma_resolved_path_joins(procs: &ProcessTable, pid: ProcessId, path: Seq<u8>)
    ensures
        path.len() > 0 && path[0] == 47u8 ==> resolved_path(procs, pid, path) == Some(path),
        !(path.len() > 0 && path[0] == 47u8) && !procs.has(pid) ==> resolved_path(procs, pid, path) is None,
        !(path.len() > 0 && path[0] == 47u8) && procs.has(pid) ==> ({
            let c = procs.proc_at(pid).cwd@;
            let sep: int = if c.len() > 0 && c[c.len() - 1] == 47u8 { 0 } else { 1 };
            resolved_path(procs, pid, path) matches Some(p) && {
                &&& p.len() == c.len() + sep + path.len()
                &&& p.subrange(0, c.len() as int) == c
                &&& sep == 1 ==> p[c.len() as int] == 47u8
                &&& p.subrange(c.len() + sep, p.len() as int) == path
            }
        }),
{
    if !(path.len() > 0 && path[0] == 47u8) && procs.has(pid) {
        let c = procs.proc_at(pid).cwd@;
        let p = joined_path(c, path);
        if c.len() > 0 && c.last() == 47u8 {
            assert(p.subrange(0, c.len() as int) =~= c);
            assert(p.subrange(c.len() as int, p.len() as int) =~= path);
        } else {
            assert(p.subrange(0, c.len() as int) =~= c);
            assert(p.subrange(c.len() as int + 1, p.len() as int) =~= path);
        }
    }
}

fn resolve_path_for_process(st: &mut FdState, procs: &ProcessTable, pid: ProcessId, path: &[u8]) -> (r: Result<Vec<u8>, ()>)
    requires
        procs.wf(),
    ensures
        resolved_path(procs, pid, path@) is None ==> r is Err,
        resolved_path(procs, pid, path@) matches Some(p) ==> r is Ok && r->Ok_0@ == p,
        !(path@.len() > 0 && path@[0] == 47u8) && procs.has(pid) ==> final(st).relative == bumped(old(st).relative),
        !(!(path@.len() > 0 && path@[0] == 47u8) && procs.has(pid)) ==> final(st).relative == old(st).relative,
        final(st).opens == old(st).opens && final(st).closes == old(st).closes && final(st).reads == old(st).reads
            && final(st).writes == old(st).writes && final(st).rejected == old(st).rejected && final(st).dups == old(st).dups,
        final(st).proc_fd_isolated == old(st).proc_fd_isolated,
        fcntl_counters_same(final(st), old(st)),
{
    if path.len() > 0 && path[0] == 47u8 {
        return Ok(copy_bytes(path));
    }
    let mut out = match procs.process_cwd(pid) {
        Some(c) => c,
        None => return Err(()),
    };
    st.relative = bump(st.relative);
    let ghost cwd = out@;
    if !(out.len() > 0 && out[out.len() - 1] == 47u8) {
        out.push(47u8);
    }
    let ghost base = out@;
    let mut i: usize = 0;
    while i < path.len()
        invariant
            i <= path@.len(),
            out@ == base + path@.take(i as int),
        decreases path@.len() - i,
    {
        out.push(path[i]);
        i += 1;
    }
    assert(path@.take(path@.len() as int) =~= path@);
    assert(out@ =~= joined_path(cwd, path@));
    Ok(out)
}

/// The credentials a descriptor operation of `pid` runs with: the process
/// owner, else the current credentials.
pub open spec fn fd_credentials(procs: &ProcessTable, sec: &SecurityState, pid: ProcessId) -> Credentials {
    if procs.has(pid) {
        procs.proc_at(pid).owner
    } else {
        Credentials { user: UserId(sec.current_user), role: role_of_code(sec.current_role) }
    }
}

fn credentials_for(procs: &ProcessTable, sec: &SecurityState, pid: ProcessId) -> (r: Credentials)
    requires
        procs.wf(),
    ensures
        r == fd_credentials(procs, sec, pid),
{
    match procs.process_owner(pid) {
        Some(c) => c,
        None => current_credentials(sec),
    }
}

/// Whether an open of `path` by `pid` succeeds: the path resolves, the
/// store does not refuse a read of it, and the process has a free slot.
pub open spec fn open_allowed(procs: &ProcessTable, store: &FileStore, sec: &SecurityState, pid: ProcessId, path: Seq<u8>) -> bool {
    &&& resolved_path(procs, pid, path) is Some
    &&& store.lookup(resolved_path(procs, pid, path)->Some_0) matches Some(f) ==> crate::security::access_allowed(
        fd_credentials(procs, sec, pid), f.owner, f.mode.spec_bits(), crate::security::AccessKind::Read)
    &&& procs.has(pid)
    &&& has_free_fd(procs, pid)
}

/// Open the stored file at `path` (relative paths resolve under the working
/// directory) for `pid`; the open is refused when the path does not resolve
/// or the store refuses a read of it (a file that does not exist yet is not
/// refused).
pub(crate) fn open_bytes_for_process(
    st: &mut FdState,
    procs: &mut ProcessTable,
    store: &FileStore,
    sec: &SecurityState,
    pid: ProcessId,
    path: &[u8],
) -> (r: Result<u32, ()>)
    requires
        old(procs).wf(),
    ensures
        final(procs).wf(),
        final(procs).smoke_pid == old(procs).smoke_pid,
        final(procs).current_pid == old(procs).current_pid,
        resolved_path(old(procs), pid, path@) is None ==> r is Err
            && final(procs).procs@ == old(procs).procs@ && final(st).rejected == bumped(old(st).rejected),
        resolved_path(old(procs), pid, path@) matches Some(p) ==> {
            let readable = store.lookup(p) matches Some(f) ==> crate::security::access_allowed(
                fd_credentials(old(procs), sec, pid), f.owner, f.mode.spec_bits(), crate::security::AccessKind::Read);
            &&& (r is Ok <==> (readable && old(procs).has(pid) && has_free_fd(old(procs), pid)))
            &&& r is Ok ==> fd_stored_at(old(procs), final(procs), pid, r->Ok_0 as int, p)
                && final(st).opens == bumped(old(st).opens)
            &&& r is Err ==> final(procs).procs@ == old(procs).procs@ && final(st).opens == old(st).opens
        },
        r is Ok <==> open_allowed(old(procs), store, sec, pid, path@),
        final(st).closes == old(st).closes && final(st).dups == old(st).dups,
        final(st).reads == old(st).reads && final(st).writes == old(st).writes,
        final(st).proc_fd_isolated == old(st).proc_fd_isolated,
        fcntl_counters_same(final(st), old(st)),
{
    let resolved = match resolve_path_for_process(st, procs, pid, path) {
        Ok(p) => p,
        Err(_) => {
            st.rejected = bump(st.rejected);
            return Err(());
        },
    };
    let creds = credentials_for(procs, sec, pid);
    if read_file_checked(store, creds, resolved.as_slice()).is_err() {
        st.rejected = bump(st.rejected);
        return Err(());
    }
    match alloc_fd_slot(procs, pid, FdSlotStorage { path: resolved, flags: 0 }) {
        Some(Some(fd)) => {
            st.opens = bump(st.opens);
            Ok(fd)
        },
        Some(None) => {
            st.rejected = bump(st.rejected);
            Err(())
        },
        None => Err(()),
    }
}

/// Open the stored file at `path` (relative paths resolve under the working
/// directory) for `pid`; the open is refused when the path does not resolve
/// or the store refuses a read of it (a file that does not exist yet is not
/// refused).
pub fn open_file_for_process(
    st: &mut FdState,
    procs: &mut ProcessTable,
    store: &FileStore,
    sec: &SecurityState,
    pid: ProcessId,
    path: &str,
) -> (r: Result<u32, ()>)
    requires
        old(procs).wf(),
    ensures
        final(procs).wf(),
        final(procs).smoke_pid == old(procs).smoke_pid,
        final(procs).current_pid == old(procs).current_pid,
        resolved_path(old(procs), pid, path.spec_bytes()) is None ==> r is Err
            && final(procs).procs@ == old(procs).procs@ && final(st).rejected == bumped(old(st).rejected),
        resolved_path(old(procs), pid, path.spec_bytes()) matches Some(p) ==> {
            let readable = store.lookup(p) matches Some(f) ==> crate::security::access_allowed(
                fd_credentials(old(procs), sec, pid), f.owner, f.mode.spec_bits(), crate::security::AccessKind::Read);
            &&& (r is Ok <==> (readable && old(procs).has(pid) && has_free_fd(old(procs), pid)))
            &&& r is Ok ==> fd_stored_at(old(procs), final(procs), pid, r->Ok_0 as int, p)
                && final(st).opens == bumped(old(st).opens)
            &&& r is Err ==> final(procs).procs@ == old(procs).procs@ && final(st).opens == old(st).opens
        },
        final(st).closes == old(st).closes && final(st).dups == old(st).dups,
        final(st).reads == old(st).reads && final(st).writes == old(st).writes,
        final(st).proc_fd_isolated == old(st).proc_fd_isolated,
        fcntl_counters_same(final(st), old(st)),
        r is Ok <==> open_allowed(old(procs), store, sec, pid, path.spec_bytes()),
{
    open_bytes_for_process(st, procs, store, sec, pid, path.as_bytes())
}

/// Open `path` for the acting process.
pub fn open_file(
    st: &mut FdState,
    procs: &mut ProcessTable,
    store: &FileStore,
    sec: &SecurityState,
    path: &str,
) -> (r: Result<u32, ()>)
    requires
        old(procs).wf(),
    ensures
        final(procs).wf(),
        acting_pid(old(procs)) is None ==> r is Err && *final(st) == *old(st) && final(procs).procs@ == old(procs).procs@,
        acting_pid(old(procs)) matches Some(pid) ==> (r is Ok ==> old(procs).has(pid) && resolved_path(old(procs), pid, path.spec_bytes()) is Some
            && fd_stored_at(old(procs), final(procs), pid, r->Ok_0 as int, resolved_path(old(procs), pid, path.spec_bytes())->Some_0)),
        acting_pid(old(procs)) matches Some(pid) ==> (r is Ok <==> open_allowed(old(procs), store, sec, pid, path.spec_bytes())),
        r is Err ==> final(procs).procs@ == old(procs).procs@,
{
    let pid = match acting_process(procs) {
        Some(p) => p,
        None => return Err(()),
    };
    open_file_for_process(st, procs, store, sec, pid, path)
}

/// Open a path copied in from user memory (`copied` is `Err` when that
/// copy failed).
pub fn open_file_user_path(
    st: &mut FdState,
    procs: &mut ProcessTable,
    store: &FileStore,
    sec: &SecurityState,
    copied: Result<&str, ()>,
) -> (r: Result<u32, ()>)
    requires
        old(procs).wf(),
    ensures
        final(procs).wf(),
        copied is Err ==> r is Err && *final(st) == *old(st) && final(procs).procs@ == old(procs).procs@,
        copied matches Ok(path) ==> (r is Ok ==> acting_pid(old(procs)) is Some && fd_stored_at(old(procs), final(procs), acting_pid(old(procs))->Some_0, r->Ok_0 as int, resolved_path(old(procs), acting_pid(old(procs))->Some_0, path.spec_bytes())->Some_0)),
        copied matches Ok(path) ==> (r is Ok <==> (acting_pid(old(procs)) is Some && open_allowed(old(procs), store, sec,
            acting_pid(old(procs))->Some_0, path.spec_bytes()))),
        r is Err ==> final(procs).procs@ == old(procs).procs@,
{
    let path = match copied {
        Ok(p) => p,
        Err(_) => return Err(()),
    };
    open_file(st, procs, store, sec, path)
}

pub open spec fn min_len(max_len: u64, cap: u64) -> int {
    if max_len < cap {
        max_len as int
    } else {
        cap as int
    }
}

/// Read through descriptor `fd` of the acting process: a pipe read end
/// drains its pipe, a stored file yields up to `min(max_len, 64)` of its
/// first bytes. The result is what the reader's buffer at `user_buf`
/// receives, and the pipe bytes are consumed here: the destination must be
/// one that cannot refuse them. A reader whose copy can fail takes the pipe
/// bytes with `peek_pipe` and consumes them with `commit_pipe_read` once
/// the copy succeeded.
pub fn read_fd(
    st: &mut FdState,
    pipes: &mut PipeTable,
    procs: &ProcessTable,
    store: &FileStore,
    sec: &SecurityState,
    fd: u32,
    user_buf: u64,
    max_len: u64,
) -> (r: Result<Vec<u8>, ()>)
    requires
        procs.wf(),
        old(pipes).wf(),
    ensures
        final(pipes).wf(),
        max_len == 0 || user_buf == 0 ==> r is Err && final(st).rejected == bumped(old(st).rejected)
            && *final(pipes) == *old(pipes),
        max_len != 0 && user_buf != 0 && (acting_pid(procs) is None || fd_entry(procs, acting_pid(procs)->Some_0, fd) is None) ==> r is Err
            && *final(st) == *old(st) && *final(pipes) == *old(pipes),
        max_len != 0 && user_buf != 0 && acting_pid(procs) is Some && fd_entry(procs, acting_pid(procs)->Some_0, fd) is Some ==> {
            let pid = acting_pid(procs)->Some_0;
            let path = fd_entry(procs, pid, fd)->Some_0.path@;
            &&& pipe_id_spec(path) is Some && !ends_with(path, seq![47u8, 114u8]) ==> r is Err
                && final(st).rejected == bumped(old(st).rejected) && *final(pipes) == *old(pipes)
            &&& pipe_id_spec(path) is Some && ends_with(path, seq![47u8, 114u8]) ==> (r is Ok <==> pipe_id_spec(path)->Some_0 < MAX_PIPES)
                && (r is Ok ==> {
                    let id = pipe_id_spec(path)->Some_0 as int;
                    let q = old(pipes).queued(id);
                    let take = if min_len(max_len, 64) < q.len() { min_len(max_len, 64) } else { q.len() as int };
                    &&& r->Ok_0@ == q.take(take)
                    &&& final(pipes).queued(id) == q.skip(take)
                    &&& final(pipes).others_same(old(pipes), id)
                    &&& final(pipes).bytes == crate::counter::advanced(old(pipes).bytes, take as u64)
                })
                && (r is Err ==> *final(pipes) == *old(pipes))
            &&& pipe_id_spec(path) is None ==> *final(pipes) == *old(pipes) && (
                match store.lookup(path) {
                    None => r is Err && final(st).rejected == bumped(old(st).rejected),
                    Some(f) => if crate::security::access_allowed(fd_credentials(procs, sec, pid), f.owner, f.mode.spec_bits(), crate::security::AccessKind::Read) {
                        r is Ok && r->Ok_0@ == f.contents@.take(if f.contents@.len() < min_len(max_len, 64) { f.contents@.len() as int } else { min_len(max_len, 64) })
                            && final(st).reads == bumped(old(st).reads)
                    } else {
                        r is Err && final(st).rejected == bumped(old(st).rejected)
                    },
                })
        },
        final(pipes).created == old(pipes).created && final(pipes).poll_calls == old(pipes).poll_calls
            && final(pipes).poll_ready == old(pipes).poll_ready && final(pipes).hw_probes == old(pipes).hw_probes,
{
    let len: usize = if max_len < 64 {
        max_len as usize
    } else {
        64
    };
    if len == 0 || user_buf == 0 {
        st.rejected = bump(st.rejected);
        return Err(());
    }
    let pid = match acting_process(procs) {
        Some(p) => p,
        None => return Err(()),
    };
    let path = match fd_path(procs, pid, fd) {
        Some(p) => p,
        None => return Err(()),
    };
    if let Some(pipe_id) = pipe_id_from_path(path.as_slice()) {
        if !is_pipe_read(path.as_slice()) {
            st.rejected = bump(st.rejected);
            return Err(());
        }
        return read_pipe(pipes, pipe_id, user_buf, max_len);
    }
    let creds = credentials_for(procs, sec, pid);
    let contents = match read_file_checked(store, creds, path.as_slice()) {
        Ok(Some(c)) => c,
        _ => {
            st.rejected = bump(st.rejected);
            return Err(());
        },
    };
    let n = if contents.len() < len {
        contents.len()
    } else {
        len
    };
    let mut sample: Vec<u8> = Vec::new();
    let mut k: usize = 0;
    while k < n
        invariant
            n <= contents@.len(),
            k <= n,
            sample@ == contents@.take(k as int),
        decreases n - k,
    {
        sample.push(contents[k]);
        k += 1;
    }
    st.reads = bump(st.reads);
    Ok(sample)
}

/// What a descriptor write stores: the bytes when they are UTF-8, else the
/// placeholder text `smoke`.
pub open spec fn write_payload(bytes: Seq<u8>) -> Seq<u8> {
    if vstd::utf8::valid_utf8(bytes) {
        bytes
    } else {
        seq![115u8, 109u8, 111u8, 107u8, 101u8]
    }
}

pub open spec fn tmp_prefix() -> Seq<u8> {
    seq![47u8, 116u8, 109u8, 112u8, 47u8]
}

/// Write through descriptor `fd` of the acting process: a pipe write end
/// takes up to `min(max_len, 64)` bytes, a stored file under `/tmp/` is
/// replaced by up to `min(max_len, 32)` bytes. `user_bytes` is what is
/// readable at `user_buf`; a shorter buffer fails like a faulting copy.
pub fn write_fd(
    st: &mut FdState,
    pipes: &mut PipeTable,
    procs: &ProcessTable,
    store: &mut FileStore,
    sec: &SecurityState,
    fd: u32,
    user_buf: u64,
    max_len: u64,
    user_bytes: &[u8],
) -> (r: Result<u64, ()>)
    requires
        procs.wf(),
        old(pipes).wf(),
    ensures
        final(pipes).wf(),
        max_len == 0 || user_buf == 0 ==> r is Err && final(st).rejected == bumped(old(st).rejected)
            && *final(pipes) == *old(pipes) && final(store).files@ == old(store).files@,
        max_len != 0 && user_buf != 0 && (acting_pid(procs) is None || fd_entry(procs, acting_pid(procs)->Some_0, fd) is None) ==> r is Err
            && *final(st) == *old(st) && *final(pipes) == *old(pipes) && final(store).files@ == old(store).files@,
        max_len != 0 && user_buf != 0 && acting_pid(procs) is Some && fd_entry(procs, acting_pid(procs)->Some_0, fd) is Some ==> {
            let pid = acting_pid(procs)->Some_0;
            let path = fd_entry(procs, pid, fd)->Some_0.path@;
            let len = min_len(max_len, 32);
            &&& pipe_id_spec(path) is Some ==> final(store).files@ == old(store).files@
            &&& pipe_id_spec(path) is Some && !ends_with(path, seq![47u8, 119u8]) ==> r is Err
                && final(st).rejected == bumped(old(st).rejected) && *final(pipes) == *old(pipes)
            &&& pipe_id_spec(path) is Some && ends_with(path, seq![47u8, 119u8]) ==> {
                let id = pipe_id_spec(path)->Some_0;
                let plen = min_len(max_len, 64);
                &&& *final(st) == *old(st)
                &&& r is Ok <==> (id < MAX_PIPES && user_bytes@.len() >= plen && old(pipes).pipes@[id as int].len + plen
                    <= PIPE_CAPACITY)
                &&& r is Ok ==> r->Ok_0 == plen && final(pipes).queued(id as int) == old(pipes).queued(id as int)
                    + user_bytes@.take(plen) && final(pipes).others_same(old(pipes), id as int) && final(pipes).bytes
                    == crate::counter::advanced(old(pipes).bytes, plen as u64)
                &&& r is Err ==> *final(pipes) == *old(pipes)
            }
            &&& pipe_id_spec(path) is None ==> *final(pipes) == *old(pipes)
            &&& pipe_id_spec(path) is None && !starts_with(path, tmp_prefix()) ==> r is Err
                && final(st).rejected == bumped(old(st).rejected) && final(store).files@ == old(store).files@
            &&& pipe_id_spec(path) is None && starts_with(path, tmp_prefix()) && user_bytes@.len() < len ==> r is Err
                && final(st).rejected == bumped(old(st).rejected) && final(store).files@ == old(store).files@
            &&& pipe_id_spec(path) is None && starts_with(path, tmp_prefix()) && user_bytes@.len() >= len ==> {
                let payload = write_payload(user_bytes@.take(len));
                let allowed = old(store).lookup(path) matches Some(f) ==> crate::security::access_allowed(
                    fd_credentials(procs, sec, pid), f.owner, f.mode.spec_bits(), crate::security::AccessKind::Write);
                &&& r is Ok <==> allowed
                &&& r is Ok ==> r->Ok_0 == len && final(st).writes == bumped(old(st).writes)
                    && final(store).lookup(path) is Some && final(store).lookup(path)->Some_0.contents@ == payload
                &&& r is Err ==> final(st).rejected == bumped(old(st).rejected) && final(store).files@ == old(store).files@
            }
        },
{
    let len: usize = if max_len < 32 {
        max_len as usize
    } else {
        32
    };
    if len == 0 || user_buf == 0 {
        st.rejected = bump(st.rejected);
        return Err(());
    }
    let pid = match acting_process(procs) {
        Some(p) => p,
        None => return Err(()),
    };
    let path = match fd_path(procs, pid, fd) {
        Some(p) => p,
        None => return Err(()),
    };
    if let Some(pipe_id) = pipe_id_from_path(path.as_slice()) {
        if !is_pipe_write(path.as_slice()) {
            st.rejected = bump(st.rejected);
            return Err(());
        }
        return write_pipe(pipes, pipe_id, user_buf, max_len, user_bytes);
    }
    let tmp: [u8; 5] = [47u8, 116u8, 109u8, 112u8, 47u8];
    assert(tmp@ == tmp_prefix());
    if !bytes_starts_with(path.as_slice(), &tmp) {
        st.rejected = bump(st.rejected);
        return Err(());
    }
    if user_bytes.len() < len {
        st.rejected = bump(st.rejected);
        return Err(());
    }
    let mut buf: Vec<u8> = Vec::new();
    let mut k: usize = 0;
    while k < len
        invariant
            len <= user_bytes@.len(),
            k <= len,
            buf@ == user_bytes@.take(k as int),
        decreases len - k,
    {
        buf.push(user_bytes[k]);
        k += 1;
    }
    let payload: Vec<u8> = if is_valid_utf8(buf.as_slice()) {
        buf
    } else {
        let placeholder: [u8; 5] = [115u8, 109u8, 111u8, 107u8, 101u8];
        assert(placeholder@ == seq![115u8, 109u8, 111u8, 107u8, 101u8]);
        copy_bytes(&placeholder)
    };
    let creds = credentials_for(procs, sec, pid);
    if write_file_checked(store, creds, path.as_slice(), payload.as_slice()).is_err() {
        st.rejected = bump(st.rejected);
        return Err(());
    }
    st.writes = bump(st.writes);
    Ok(len as u64)
}

/// Read up to `min(max_len, 64)` leading bytes of the stored file behind
/// descriptor `fd` of `pid` (no pipe handling, no reject counting).
pub fn read_fd_for_process(
    st: &mut FdState,
    procs: &ProcessTable,
    store: &FileStore,
    sec: &SecurityState,
    pid: ProcessId,
    fd: u32,
    user_buf: u64,
    max_len: u64,
) -> (r: Result<Vec<u8>, ()>)
    requires
        procs.wf(),
    ensures
        max_len == 0 || user_buf == 0 || fd_entry(procs, pid, fd) is None ==> r is Err && *final(st) == *old(st),
        max_len != 0 && user_buf != 0 && fd_entry(procs, pid, fd) is Some ==> {
            let path = fd_entry(procs, pid, fd)->Some_0.path@;
            match store.lookup(path) {
                None => r is Err && *final(st) == *old(st),
                Some(f) => if crate::security::access_allowed(fd_credentials(procs, sec, pid), f.owner, f.mode.spec_bits(), crate::security::AccessKind::Read) {
                    r is Ok && r->Ok_0@ == f.contents@.take(if f.contents@.len() < min_len(max_len, 64) { f.contents@.len() as int } else { min_len(max_len, 64) })
                        && final(st).reads == bumped(old(st).reads)
                } else {
                    r is Err && *final(st) == *old(st)
                },
            }
        },
{
    let len: usize = if max_len < 64 {
        max_len as usize
    } else {
        64
    };
    if len == 0 || user_buf == 0 {
        return Err(());
    }
    let path = match fd_path(procs, pid, fd) {
        Some(p) => p,
        None => return Err(()),
    };
    let creds = credentials_for(procs, sec, pid);
    let contents = match read_file_checked(store, creds, path.as_slice()) {
        Ok(Some(c)) => c,
        _ => return Err(()),
    };
    let n = if contents.len() < len {
        contents.len()
    } else {
        len
    };
    let mut sample: Vec<u8> = Vec::new();
    let mut k: usize = 0;
    while k < n
        invariant
            n <= contents@.len(),
            k <= n,
            sample@ == contents@.take(k as int),
        decreases n - k,
    {
        sample.push(contents[k]);
        k += 1;
    }
    st.reads = bump(st.reads);
    Ok(sample)
}

/// The user buffer address the descriptor smokes read into.
pub const SMOKE_READ_BUF: u64 = 0x0000_7fff_ffff_ef80;

/// The credentials the descriptor smokes' processes run with.
pub open spec fn shell_creds() -> Credentials {
    Credentials { user: UserId(100), role: crate::security::Role::User }
}

/// Whether the store lets a shell user open `path` for reading (a path with
/// no stored file is not refused).
pub open spec fn shell_readable(store: &FileStore, path: Seq<u8>) -> bool {
    store.lookup(path) matches Some(f) ==> crate::security::access_allowed(
        shell_creds(), f.owner, f.mode.spec_bits(), crate::security::AccessKind::Read)
}

/// `/bin/hello` is an absolute path.
pub proof fn lemma_hello_absolute()
    ensures
        "/bin/hello".spec_bytes().len() > 0,
        "/bin/hello".spec_bytes()[0] == 47u8,
        pipe_id_spec("/bin/hello".spec_bytes()) is None,
{
    reveal_strlit("/bin/hello");
    vstd::string::is_ascii_spec_bytes("/bin/hello");
    let h = "/bin/hello".spec_bytes();
    assert(h =~= seq![47u8, 98u8, 105u8, 110u8, 47u8, 104u8, 101u8, 108u8, 108u8, 111u8]);
    lemma_not_pipe_path(h);
}

/// A path whose second byte is not `@` names no pipe.
proof fn lemma_not_pipe_path(h: Seq<u8>)
    requires
        h.len() > 1,
        h[1] != 64u8,
    ensures
        pipe_id_spec(h) is None,
{
    if starts_with(h, pipe_path_prefix()) {
        assert(h.subrange(0, 7)[1] == pipe_path_prefix()[1]);
    }
}

/// The relative path of the dup smoke resolves under `/tmp`.
proof fn lemma_phase52_path()
    ensures
        !("phase52-smoke.txt".spec_bytes().len() > 0 && "phase52-smoke.txt".spec_bytes()[0] == 47u8),
        joined_path("/tmp".spec_bytes(), "phase52-smoke.txt".spec_bytes()) == "/tmp/phase52-smoke.txt".spec_bytes(),
{
    reveal_strlit("phase52-smoke.txt");
    reveal_strlit("/tmp");
    reveal_strlit("/tmp/phase52-smoke.txt");
    vstd::string::is_ascii_spec_bytes("phase52-smoke.txt");
    vstd::string::is_ascii_spec_bytes("/tmp");
    vstd::string::is_ascii_spec_bytes("/tmp/phase52-smoke.txt");
    assert(joined_path("/tmp".spec_bytes(), "phase52-smoke.txt".spec_bytes()) =~= "/tmp/phase52-smoke.txt".spec_bytes());
}

/// The store holds `path` and lets a shell user read it.
pub open spec fn shell_reads_stored(store: &FileStore, path: Seq<u8>) -> bool {
    store.lookup(path) matches Some(f) && crate::security::access_allowed(
        shell_creds(), f.owner, f.mode.spec_bits(), crate::security::AccessKind::Read)
}

/// A smoke process can be created: the table has room for `n` more.
pub open spec fn room_for(procs: &ProcessTable, n: int) -> bool {
    procs.procs@.len() + n <= crate::process::MAX_PROCESSES
}

/// Open/close smoke: a shell-user process opens `/bin/hello` and closes it.
pub fn phase45_smoke(
    st: &mut FdState,
    procs: &mut ProcessTable,
    store: &FileStore,
    sec: &SecurityState,
) -> (r: bool)
    requires
        old(procs).wf(),
    ensures
        final(procs).wf(),
        r ==> final(st).opens > 0 && final(st).closes > 0 && final(procs).smoke_pid is None,
        r == (room_for(old(procs), 1) && shell_readable(store, "/bin/hello".spec_bytes())
            && old(st).opens != u64::MAX && old(st).closes != u64::MAX),
{
    let pid = match procs.create_process(crate::security::Credentials::shell_user()) {
        Some(p) => p,
        None => return false,
    };
    procs.set_smoke_process_id(Some(pid));
    proof {
        lemma_hello_absolute();
        assert(procs.fds_of(pid)[0] is None);
    }
    let fd = match open_file_for_process(st, procs, store, sec, pid, "/bin/hello") {
        Ok(fd) => fd,
        Err(_) => return false,
    };
    let closed = close_file_for_process(st, procs, pid, fd).is_ok();
    assert(closed);
    procs.set_smoke_process_id(None);
    let (opens, closes, _, _, _) = status(st);
    closed && opens > 0 && closes > 0
}

/// Read smoke: the process reads the head of `/bin/hello` through a
/// descriptor.
pub fn phase46_smoke(
    st: &mut FdState,
    pipes: &mut PipeTable,
    procs: &mut ProcessTable,
    store: &FileStore,
    sec: &SecurityState,
) -> (r: bool)
    requires
        old(procs).wf(),
        old(pipes).wf(),
    ensures
        final(procs).wf(),
        final(pipes).wf(),
        r ==> final(st).reads != old(st).reads && final(procs).smoke_pid is None
            && final(procs).current_pid is None,
        r == (room_for(old(procs), 1) && shell_reads_stored(store, "/bin/hello".spec_bytes())
            && old(st).reads != u64::MAX),
{
    let pid = match procs.create_process(crate::security::Credentials::shell_user()) {
        Some(p) => p,
        None => return false,
    };
    procs.set_smoke_process_id(Some(pid));
    proof {
        lemma_hello_absolute();
        assert(procs.fds_of(pid)[0] is None);
    }
    let fd = match open_file_for_process(st, procs, store, sec, pid, "/bin/hello") {
        Ok(fd) => fd,
        Err(_) => return false,
    };
    let before = st.reads;
    procs.set_current_process_id(Some(pid));
    let ok = read_fd(st, pipes, procs, store, sec, fd, SMOKE_READ_BUF, 16).is_ok();
    procs.set_current_process_id(None);
    let _ = close_file_for_process(st, procs, pid, fd);
    procs.set_smoke_process_id(None);
    ok && st.reads > before
}

/// Isolation smoke: closing a descriptor in one process leaves the other
/// process's descriptor open.
pub fn phase51_smoke(
    st: &mut FdState,
    procs: &mut ProcessTable,
    store: &FileStore,
    sec: &SecurityState,
) -> (r: bool)
    requires
        old(procs).wf(),
    ensures
        final(procs).wf(),
        r ==> final(st).proc_fd_isolated == 1,
        !r ==> final(st).proc_fd_isolated == old(st).proc_fd_isolated,
        r == (room_for(old(procs), 2) && shell_readable(store, "/bin/hello".spec_bytes())),
{
    let pid_a = match procs.create_process(crate::security::Credentials::shell_user()) {
        Some(p) => p,
        None => return false,
    };
    let pid_b = match procs.create_process(crate::security::Credentials::shell_user()) {
        Some(p) => p,
        None => return false,
    };
    proof {
        lemma_hello_absolute();
        assert(procs.fds_of(pid_a)[0] is None);
        assert(procs.fds_of(pid_b)[0] is None);
    }
    let fd_a = open_file_for_process(st, procs, store, sec, pid_a, "/bin/hello");
    let fd_b = open_file_for_process(st, procs, store, sec, pid_b, "/bin/hello");
    let fa = match fd_a {
        Ok(f) => f,
        Err(_) => return false,
    };
    if fd_b.is_err() {
        return false;
    }
    let close_a = close_file_for_process(st, procs, pid_a, fa).is_ok();
    let still_open = pid_b.0 >= 1 && pid_b.0 <= procs.procs.len() as u64
        && procs.procs[(pid_b.0 - 1) as usize].fds[0].is_some();
    if close_a && still_open {
        st.proc_fd_isolated = 1;
    }
    close_a && still_open
}

/// Dup smoke: an absolute open, its duplicate and a relative open under
/// `/tmp` all succeed, and both the original and the copy stay open.
pub fn phase52_smoke(
    st: &mut FdState,
    procs: &mut ProcessTable,
    store: &FileStore,
    sec: &SecurityState,
) -> (r: bool)
    requires
        old(procs).wf(),
    ensures
        final(procs).wf(),
        r ==> final(st).dups > 0,
        r == (room_for(old(procs), 1) && shell_readable(store, "/bin/hello".spec_bytes())
            && shell_readable(store, "/tmp/phase52-smoke.txt".spec_bytes()) && old(st).dups != u64::MAX),
{
    let pid = match procs.create_process(crate::security::Credentials::shell_user()) {
        Some(p) => p,
        None => return false,
    };
    proof {
        lemma_hello_absolute();
        lemma_phase52_path();
        assert(procs.fds_of(pid)[0] is None);
        assert(procs.fds_of(pid)[1] is None);
        assert(procs.fds_of(pid)[2] is None);
    }
    let _ = procs.set_process_cwd(pid, "/tmp");
    proof {
        assert(procs.fds_of(pid)[0] is None);
        assert(procs.fds_of(pid)[1] is None);
        assert(procs.fds_of(pid)[2] is None);
        assert(procs.proc_at(pid).owner == shell_creds());
    }
    let fd0 = open_file_for_process(st, procs, store, sec, pid, "/bin/hello");
    let dup = match fd0 {
        Ok(fd) => {
            proof {
                assert(fd == 0);
                assert(procs.fds_of(pid)[1] is None);
            }
            dup_fd_for_process(st, procs, pid, fd)
        },
        Err(_) => Err(()),
    };
    proof {
        if fd0 is Ok && dup is Ok {
            assert(dup->Ok_0 == 1);
            assert(procs.fds_of(pid)[0] is Some);
            assert(procs.fds_of(pid)[2] is None);
            assert(procs.proc_at(pid).cwd@ == "/tmp".spec_bytes());
            assert(procs.proc_at(pid).owner == shell_creds());
        }
    }
    let relative = open_file_for_process(st, procs, store, sec, pid, "phase52-smoke.txt");
    let (f0, f1) = match (fd0, dup) {
        (Ok(a), Ok(b)) => (a, b),
        _ => return false,
    };
    if relative.is_err() {
        return false;
    }
    proof {
        assert(relative->Ok_0 == 2);
        assert(procs.fds_of(pid)[0] is Some);
        assert(procs.fds_of(pid)[1] is Some);
    }
    let dup_reads = pid.0 >= 1 && pid.0 <= procs.procs.len() as u64 && (f0 as usize) < MAX_FDS
        && (f1 as usize) < MAX_FDS && procs.procs[(pid.0 - 1) as usize].fds[f0 as usize].is_some()
        && procs.procs[(pid.0 - 1) as usize].fds[f1 as usize].is_some();
    dup_reads && st.dups > 0
}

/// fcntl smoke: `F_GETFD` and `F_DUPFD` succeed, an unknown command is
/// rejected.
pub fn phase66_smoke(
    st: &mut FdState,
    procs: &mut ProcessTable,
    store: &FileStore,
    sec: &SecurityState,
) -> (r: bool)
    requires
        old(procs).wf(),
    ensures
        final(procs).wf(),
        r ==> final(st).fcntl_getfd > 0 && final(st).fcntl_dupfd > 0 && final(st).fcntl_rejected > 0,
        old(procs).current_pid is None ==> r == (room_for(old(procs), 1)
            && shell_readable(store, "/bin/hello".spec_bytes()) && old(st).fcntl_getfd != u64::MAX
            && old(st).fcntl_dupfd != u64::MAX && old(st).fcntl_rejected != u64::MAX),
{
    let pid = match procs.create_process(crate::security::Credentials::shell_user()) {
        Some(p) => p,
        None => return false,
    };
    procs.set_smoke_process_id(Some(pid));
    proof {
        lemma_hello_absolute();
        assert(procs.fds_of(pid)[0] is None);
        assert(procs.fds_of(pid)[1] is None);
    }
    let fd = match open_file_for_process(st, procs, store, sec, pid, "/bin/hello") {
        Ok(fd) => fd,
        Err(_) => return false,
    };
    proof {
        assert(procs.fds_of(pid)[1] is None);
    }
    let getfd = fcntl(st, procs, fd, F_GETFD, 0).is_ok();
    let dup = fcntl(st, procs, fd, F_DUPFD, 0).is_ok();
    let reject = fcntl(st, procs, fd, 99, 0).is_err();
    procs.set_smoke_process_id(None);
    let (getfd_n, dup_n, rejected) = fcntl_status(st);
    getfd && dup && reject && getfd_n > 0 && dup_n > 0 && rejected > 0
}

/// fcntl flags smoke: `F_SETFD` to close-on-exec is read back by `F_GETFD`.
pub fn phase76_smoke(
    st: &mut FdState,
    procs: &mut ProcessTable,
    store: &FileStore,
    sec: &SecurityState,
) -> (r: bool)
    requires
        old(procs).wf(),
    ensures
        final(procs).wf(),
        r ==> final(st).fcntl_setfd > 0 && final(st).fcntl_getfd > 0 && final(st).fcntl_rejected > 0,
        old(procs).current_pid is None ==> r == (room_for(old(procs), 1)
            && shell_readable(store, "/bin/hello".spec_bytes()) && old(st).fcntl_setfd != u64::MAX
            && old(st).fcntl_getfd != u64::MAX && old(st).fcntl_rejected != u64::MAX),
{
    let pid = match procs.create_process(crate::security::Credentials::shell_user()) {
        Some(p) => p,
        None => return false,
    };
    procs.set_smoke_process_id(Some(pid));
    proof {
        lemma_hello_absolute();
        assert(procs.fds_of(pid)[0] is None);
        assert((FD_CLOEXEC & 0xffff_ffff) as u32 == 1u32) by (bit_vector);
    }
    let fd = match open_file_for_process(st, procs, store, sec, pid, "/bin/hello") {
        Ok(fd) => fd,
        Err(_) => return false,
    };
    let setfd = fcntl(st, procs, fd, F_SETFD, FD_CLOEXEC).is_ok();
    let getfd = match fcntl(st, procs, fd, F_GETFD, 0) {
        Ok(v) => v == FD_CLOEXEC,
        Err(_) => false,
    };
    let reject = fcntl(st, procs, fd, 99, 0).is_err();
    procs.set_smoke_process_id(None);
    let (setfd_n, getfd_n, rejected) = fcntl_setfd_status(st);
    setfd && getfd && reject && setfd_n > 0 && getfd_n > 0 && rejected > 0
}

} // verus!
