//! Compat-only path broker: resolves paths to descriptors through the
//! existing descriptor table.
use vstd::prelude::*;

use crate::counter::{bump, bumped};
use crate::fd_table::{open_file_for_process, FdState};
use crate::kernel_object::ensure_smoke_process;
use crate::process::{ProcessId, ProcessTable};
use crate::security::SecurityState;
use crate::storage::FileStore;
use vstd::string::StringSliceAdditionalSpecFns;

verus! {

pub struct PathBrokerState {
    pub opens: u64,
}

impl PathBrokerState {
    pub fn new() -> (r: Self)
        ensures
            r.opens == 0,
    {
        PathBrokerState { opens: 0 }
    }
}

pub fn broker_open_count(st: &PathBrokerState) -> (r: u64)
    ensures
        r == st.opens,
{
    st.opens
}

/// Count the request and open `path` for `pid` in its descriptor table.
pub fn resolve_open_compat(
    st: &mut PathBrokerState,
    fds: &mut FdState,
    procs: &mut ProcessTable,
    store: &FileStore,
    sec: &SecurityState,
    pid: ProcessId,
    path: &str,
) -> (r: Result<u32, ()>)
    requires
        old(procs).wf(),
    ensures
        final(procs).wf(),
        final(st).opens == bumped(old(st).opens),
        final(procs).smoke_pid == old(procs).smoke_pid,
        final(procs).current_pid == old(procs).current_pid,
        r is Ok ==> crate::fd_table::resolved_path(old(procs), pid, path.spec_bytes()) is Some && crate::fd_table::fd_stored_at(old(procs), final(procs), pid, r->Ok_0 as int,
            crate::fd_table::resolved_path(old(procs), pid, path.spec_bytes())->Some_0),
        r is Ok <==> (crate::fd_table::resolved_path(old(procs), pid, path.spec_bytes()) matches Some(p)
            && (store.lookup(p) matches Some(f) ==> crate::security::access_allowed(
                crate::fd_table::fd_credentials(old(procs), sec, pid), f.owner, f.mode.spec_bits(),
                crate::security::AccessKind::Read)) && old(procs).has(pid) && crate::fd_table::has_free_fd(old(procs), pid)),
{
    st.opens = bump(st.opens);
    open_file_for_process(fds, procs, store, sec, pid, path)
}

/// Path broker smoke: the smoke process opens `/bin/hello` through the
/// broker.
pub fn smoke_path_broker_smoke(
    st: &mut PathBrokerState,
    fds: &mut FdState,
    procs: &mut ProcessTable,
    store: &FileStore,
    sec: &SecurityState,
) -> (r: bool)
    requires
        old(procs).wf(),
    ensures
        final(procs).wf(),
        r ==> final(st).opens == bumped(old(st).opens) && old(st).opens != u64::MAX,
        final(procs).smoke_pid is None || final(procs).smoke_pid == old(procs).smoke_pid,
        crate::kernel_object::fresh_smoke_table(old(procs)) && old(st).opens != u64::MAX ==> r,
{
    let pid = match ensure_smoke_process(procs) {
        Some(p) => p,
        None => return false,
    };
    proof {
        if crate::kernel_object::fresh_smoke_table(old(procs)) {
            crate::fd_table::lemma_hello_absolute();
            assert(procs.fds_of(pid)[0] is None);
        }
    }
    procs.set_smoke_process_id(Some(pid));
    let before = broker_open_count(st);
    let fd = resolve_open_compat(st, fds, procs, store, sec, pid, "/bin/hello");
    let after = broker_open_count(st);
    procs.set_smoke_process_id(None);
    fd.is_ok() && after > before
}

} // verus!
