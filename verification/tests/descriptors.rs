use kernel::ipc_endpoints::IpcEndpoints;
use kernel::kernel_object::KernelObjects;
use kernel::posix_server::{invoke_compat, server_endpoint, smoke_posix_server, PosixServerState, OP_GETPID, OP_RESP_OK};
use kernel::kernel_object::{cap_count_for_process, get_cap, CapError, ObjectKind};
use kernel::process::ProcessMode;
use kernel::security::Credentials;
use kernel::service_loader::bootstrap_root_caps;
use kernel::governance::{smoke_clipboard_broker, smoke_device_broker, smoke_network_broker, smoke_permission_broker, smoke_service_isolation};
use kernel::framebuffer::set_mode_active;
use kernel::governance::smoke_compositor;
use kernel::federation::epoch12_federation_graduated;
use kernel::governance::{smoke_oom_policy, smoke_wait_set};
use kernel::ipc_interim_bridge::phase_interim_ipc_smoke;
use kernel::path_broker::smoke_path_broker_smoke;
use kernel::fd_table::{phase45_smoke, phase46_smoke, phase51_smoke, phase52_smoke, phase66_smoke, phase76_smoke, FdState};
use kernel::governance::smoke_ipc_integration;
use kernel::pipe::PipeTable;
use kernel::process::ProcessTable;
use kernel::security::{FileMode, SecurityState, UserId};
use kernel::storage::{install_file, FileStore};
use kernel::system::System;

fn store_with_hello(mode: FileMode) -> FileStore {
    let mut store = FileStore::new();
    install_file(&mut store, b"/bin/hello", b"\x7fELF hello image", UserId(0), mode);
    store
}

#[test]
fn open_close_smoke_passes_on_missing_or_readable_file() {
    let mut st = FdState::new();
    let mut procs = ProcessTable::new();
    assert!(phase45_smoke(&mut st, &mut procs, &FileStore::new(), &SecurityState::new()));
    assert_eq!((st.opens, st.closes), (1, 1));
    assert!(procs.smoke_process_id().is_none());
    let mut st = FdState::new();
    let mut procs = ProcessTable::new();
    assert!(phase45_smoke(&mut st, &mut procs, &store_with_hello(FileMode::executable()), &SecurityState::new()));
}

#[test]
fn open_close_smoke_fails_on_unreadable_file() {
    let mut st = FdState::new();
    let mut procs = ProcessTable::new();
    let store = store_with_hello(FileMode::from_bits(0b100));
    assert!(!phase45_smoke(&mut st, &mut procs, &store, &SecurityState::new()));
    assert_eq!(st.opens, 0);
}

#[test]
fn read_smoke_needs_a_stored_readable_file() {
    let mut st = FdState::new();
    let mut pipes = PipeTable::new();
    let mut procs = ProcessTable::new();
    assert!(!phase46_smoke(&mut st, &mut pipes, &mut procs, &FileStore::new(), &SecurityState::new()));
    let mut st = FdState::new();
    let mut procs = ProcessTable::new();
    let store = store_with_hello(FileMode::executable());
    assert!(phase46_smoke(&mut st, &mut pipes, &mut procs, &store, &SecurityState::new()));
    assert_eq!(st.reads, 1);
    assert!(procs.current_process_id().is_none());
}

#[test]
fn isolation_dup_and_fcntl_smokes_pass_on_a_fresh_table() {
    let store = store_with_hello(FileMode::executable());
    let sec = SecurityState::new();
    let mut st = FdState::new();
    let mut procs = ProcessTable::new();
    assert!(phase51_smoke(&mut st, &mut procs, &store, &sec));
    assert_eq!(st.proc_fd_isolated, 1);
    assert!(phase52_smoke(&mut st, &mut procs, &store, &sec));
    assert_eq!(st.dups, 1);
    assert!(phase66_smoke(&mut st, &mut procs, &store, &sec));
    assert!(phase76_smoke(&mut st, &mut procs, &store, &sec));
    assert_eq!((st.fcntl_getfd, st.fcntl_dupfd, st.fcntl_setfd, st.fcntl_rejected), (2, 1, 1, 2));
}

#[test]
fn dup_smoke_fails_when_the_relative_file_is_unreadable() {
    let mut store = store_with_hello(FileMode::executable());
    install_file(&mut store, b"/tmp/phase52-smoke.txt", b"x", UserId(0), FileMode::from_bits(0));
    let mut st = FdState::new();
    let mut procs = ProcessTable::new();
    assert!(!phase52_smoke(&mut st, &mut procs, &store, &SecurityState::new()));
}

#[test]
fn ipc_integration_passes_on_a_booted_system() {
    let mut sys = System::new();
    assert!(smoke_ipc_integration(&mut sys, true));
    let mut sys = System::new();
    assert!(!smoke_ipc_integration(&mut sys, false));
}

#[test]
fn broker_smokes_on_a_booted_system() {
    let mut sys = System::new();
    assert!(smoke_permission_broker(&mut sys));
    let mut sys = System::new();
    assert!(smoke_device_broker(&mut sys));
    assert_eq!(sys.device_broker.device_mints, 1);
    let mut sys = System::new();
    assert!(smoke_service_isolation(&mut sys));
    let mut sys = System::new();
    sys.loader.e00_max_inflight = 0;
    assert!(!smoke_device_broker(&mut sys));
    assert_eq!(sys.device_broker.device_mints, 0);
    let mut sys = System::new();
    sys.loader.e00_max_inflight = 0;
    assert!(!smoke_service_isolation(&mut sys));
    let mut sys = System::new();
    assert!(smoke_network_broker(&mut sys));
    assert_eq!(sys.network_broker.stub_calls, 1);
    assert!(smoke_clipboard_broker(&mut sys));
    assert_eq!(sys.clipboard_broker.stub_calls, 1);
}

#[test]
fn compositor_smoke_needs_an_active_display_mode() {
    let mut sys = System::new();
    assert!(!smoke_compositor(&mut sys, true));
    assert_eq!((sys.compositor.frame_submits, sys.compositor.pixel_frames), (2, 2));
    let mut sys = System::new();
    set_mode_active(&mut sys.fb);
    assert!(smoke_compositor(&mut sys, true));
    let mut sys = System::new();
    set_mode_active(&mut sys.fb);
    assert!(!smoke_compositor(&mut sys, false));
    assert_eq!(sys.compositor.pixel_frames, 0);
}

#[test]
fn fresh_system_smokes_pass() {
    let mut sys = System::new();
    assert!(phase_interim_ipc_smoke(&mut sys.bridge, &mut sys.procs));
    assert_eq!(sys.bridge.compat_internal, 7);
    let mut sys = System::new();
    assert!(smoke_path_broker_smoke(&mut sys.path_broker, &mut sys.fds, &mut sys.procs, &sys.store, &sys.sec));
    assert_eq!(sys.path_broker.opens, 1);
    let mut sys = System::new();
    assert!(smoke_oom_policy(&mut sys));
    assert_eq!((sys.oom.suspends, sys.oom.terminates, sys.oom.budget_enforced, sys.oom.shed_acks), (1, 1, 1, 1));
    let mut sys = System::new();
    assert!(epoch12_federation_graduated(&mut sys.federation, &mut sys.eps, &mut sys.procs));
    let mut sys = System::new();
    assert!(smoke_wait_set(&mut sys));
    assert_eq!(sys.eps.sends, 1);
}

#[test]
fn posix_server_smoke_passes_on_fresh_state() {
    let mut ps = PosixServerState::new();
    let mut objs = KernelObjects::new();
    let mut procs = ProcessTable::new();
    let mut eps = IpcEndpoints::new();
    let mut fds = FdState::new();
    let store = FileStore::new();
    let sec = SecurityState::new();
    assert!(smoke_posix_server(&mut ps, &mut objs, &mut procs, &mut eps, &mut fds, &store, &sec));
    assert_eq!(ps.requests, 2);
    assert!(ps.server.is_some());
}

#[test]
fn bootstrap_ceremony_mints_root_caps_for_a_capless_native_process() {
    let mut sys = System::new();
    let pid = sys.procs.create_process(Credentials::kernel()).unwrap();
    assert_eq!(cap_count_for_process(&sys.procs, pid), 0);
    let slot = bootstrap_root_caps(&mut sys.loader, &mut sys.objs, &mut sys.procs, pid).unwrap();
    assert_eq!(cap_count_for_process(&sys.procs, pid), 2);
    let cap = get_cap(&sys.procs, pid, slot).unwrap();
    assert_eq!(cap.kind, ObjectKind::Service);
    assert_eq!(cap.rights.0, 3);
    assert_eq!(sys.procs.process_mode(pid), ProcessMode::Native);
    assert_eq!(sys.loader.bootstrap_mints, 1);
    assert_eq!(sys.loader.mem_used, 4096);
    assert!(!sys.loader.bootstrap_active);
    assert_eq!(sys.loader.e00_inflight, 0);
}

#[test]
fn bootstrap_ceremony_refused_when_admission_is_saturated() {
    let mut sys = System::new();
    let pid = sys.procs.create_process(Credentials::kernel()).unwrap();
    sys.loader.e00_max_inflight = 0;
    assert_eq!(
        bootstrap_root_caps(&mut sys.loader, &mut sys.objs, &mut sys.procs, pid),
        Err(CapError::InvalidArgument)
    );
    assert_eq!(cap_count_for_process(&sys.procs, pid), 0);
    assert!(sys.loader.bootstrap_active);
}

#[test]
fn service_loader_smoke_passes_on_a_booted_system() {
    let mut sys = System::new();
    assert!(kernel::governance::smoke_service_loader_init(&mut sys));
    assert_eq!(sys.loader.bootstrap_mints, 1);
    assert_eq!(sys.loader.mem_used, 0);
}

#[test]
fn first_compat_call_starts_the_server_and_answers() {
    let mut ps = PosixServerState::new();
    let mut objs = KernelObjects::new();
    let mut procs = ProcessTable::new();
    let mut eps = IpcEndpoints::new();
    let mut fds = FdState::new();
    let store = FileStore::new();
    let sec = SecurityState::new();
    let client = procs.create_process(Credentials::kernel()).unwrap();
    procs.set_process_mode(client, ProcessMode::Native);
    let refused = invoke_compat(&mut ps, &mut objs, &mut procs, &mut eps, &mut fds, &store, &sec, client, &[OP_GETPID]);
    assert!(refused.is_err());
    assert!(ps.server.is_none());
    procs.set_process_mode(client, ProcessMode::Compat);
    let next = eps.next_endpoint;
    let resp = invoke_compat(&mut ps, &mut objs, &mut procs, &mut eps, &mut fds, &store, &sec, client, &[OP_GETPID]).unwrap();
    let mut expected = vec![OP_RESP_OK];
    expected.extend_from_slice(&client.0.to_le_bytes());
    assert_eq!(resp, expected);
    assert_eq!(server_endpoint(&ps).map(|e| e.0), Some(next));
    assert_eq!(ps.requests, 1);
}
