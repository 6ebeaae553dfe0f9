//! The whole kernel state: every subsystem's state in one value, as the
//! integration smokes see it.
use vstd::prelude::*;

use crate::audit_wire::AuditWireState;
use crate::bga::BgaState;
use crate::block::BlockManager;
use crate::block_cache::SectorCache;
use crate::checkpoint::CheckpointState;
use crate::clipboard_broker::ClipboardBrokerState;
use crate::compat_socket::CompatSocketState;
use crate::compositor::CompositorState;
use crate::desktop_shell::ShellState;
use crate::device::DeviceRegistry;
use crate::device_broker::DeviceBrokerState;
use crate::driver_host::DriverHostState;
use crate::fd_table::FdState;
use crate::federation::FederationState;
use crate::framebuffer::FramebufferState;
use crate::ipc_endpoints::IpcEndpoints;
use crate::ipc_interim_bridge::InterimBridge;
use crate::kernel_object::KernelObjects;
use crate::mouse::MouseState;
use crate::native_manifest::ManifestState;
use crate::network_broker::NetworkBrokerState;
use crate::oom_policy::OomState;
use crate::path_broker::PathBrokerState;
use crate::permission_broker::PermissionBrokerState;
use crate::pipe::PipeTable;
use crate::process::ProcessTable;
use crate::security::SecurityState;
use crate::semantic_observability::TraceState;
use crate::service_isolation::IsolationState;
use crate::service_loader::LoaderState;
use crate::storage::FileStore;

verus! {

pub struct System {
    pub procs: ProcessTable,
    pub objs: KernelObjects,
    pub loader: LoaderState,
    pub bridge: InterimBridge,
    pub eps: IpcEndpoints,
    pub fds: FdState,
    pub pipes: PipeTable,
    pub store: FileStore,
    pub sec: SecurityState,
    pub devices: DeviceRegistry,
    pub blocks: BlockManager,
    pub cache: SectorCache,
    pub device_broker: DeviceBrokerState,
    pub network_broker: NetworkBrokerState,
    pub clipboard_broker: ClipboardBrokerState,
    pub permission_broker: PermissionBrokerState,
    pub path_broker: PathBrokerState,
    pub isolation: IsolationState,
    pub oom: OomState,
    pub federation: FederationState,
    pub audit: AuditWireState,
    pub manifests: ManifestState,
    pub fb: FramebufferState,
    pub shell: ShellState,
    pub mouse: MouseState,
    pub bga: BgaState,
    pub compositor: CompositorState,
    pub checkpoint: CheckpointState,
    pub sockets: CompatSocketState,
    pub drivers: DriverHostState,
    pub traces: TraceState,
}

impl System {
    pub open spec fn wf(&self) -> bool {
        &&& self.procs.wf()
        &&& self.pipes.wf()
        &&& self.blocks.wf()
        &&& self.cache.wf()
        &&& self.fb.wf()
        &&& self.mouse.wf()
    }

    /// Every subsystem in its boot state.
    pub fn new() -> (r: Self)
        ensures
            r.wf(),
            r.procs.procs@.len() == 0,
            r.procs.smoke_pid is None,
            r.procs.current_pid is None,
    {
        System {
            procs: ProcessTable::new(),
            objs: KernelObjects::new(),
            loader: LoaderState::new(),
            bridge: InterimBridge::new(),
            eps: IpcEndpoints::new(),
            fds: FdState::new(),
            pipes: PipeTable::new(),
            store: FileStore::new(),
            sec: SecurityState::new(),
            devices: DeviceRegistry::new(),
            blocks: BlockManager::new(),
            cache: SectorCache::new(),
            device_broker: DeviceBrokerState::new(),
            network_broker: NetworkBrokerState::new(),
            clipboard_broker: ClipboardBrokerState::new(),
            permission_broker: PermissionBrokerState::new(),
            path_broker: PathBrokerState::new(),
            isolation: IsolationState::new(),
            oom: OomState::new(),
            federation: FederationState::new(),
            audit: AuditWireState::new(),
            manifests: ManifestState::new(),
            fb: FramebufferState::new(),
            shell: ShellState::new(),
            mouse: MouseState::new(),
            bga: BgaState::new(),
            compositor: CompositorState::new(),
            checkpoint: CheckpointState::new(),
            sockets: CompatSocketState::new(),
            drivers: DriverHostState::new(),
            traces: TraceState::new(),
        }
    }
}

} // verus!
