//! Unified boot-time validation: the order in which the subsystem checks
//! are listed, the word each verdict is printed as, and the overall verdict.
use vstd::prelude::*;

verus! {

/// Version of the boot validation listing format.
pub fn boot_gate_version() -> (r: &'static str)
    ensures
        r@ == "1.0.0"@,
{
    "1.0.0"
}

/// The word a check line prints for a verdict.
pub fn ok_str(v: bool) -> (r: &'static str)
    ensures
        r@ == (if v { "true"@ } else { "false"@ }),
{
    if v {
        "true"
    } else {
        "false"
    }
}

/// One subsystem check of the boot validation.
#[derive(Clone, Copy, Debug, PartialEq, Eq, Structural)]
pub enum BootGate {
    ShellStorage,
    LoaderSecurity,
    MemoryLayout,
    UserspaceBootstrap,
    HwPaging,
    SchedUserspace,
    DynamicRuntime,
    FdMmap,
    VmFork,
    SyscallRing3,
    PathExec,
    SmpDepth,
    Constitutional,
    Capabilities,
    ServiceLoader,
    PlatformBrokers,
    VirtioBlk,
    BuildEndpoints,
    NetworkCompat,
    SchedulerEpoch,
    Boundary,
}

impl BootGate {
    /// The name printed on the check's line.
    pub fn name(&self) -> (r: &'static str)
        ensures
            r@ == gate_name(*self),
    {
        match self {
            BootGate::ShellStorage => "shell_storage",
            BootGate::LoaderSecurity => "loader_security",
            BootGate::MemoryLayout => "memory_layout",
            BootGate::UserspaceBootstrap => "userspace_bootstrap",
            BootGate::HwPaging => "hw_paging",
            BootGate::SchedUserspace => "sched_userspace",
            BootGate::DynamicRuntime => "dynamic_runtime",
            BootGate::FdMmap => "fd_mmap",
            BootGate::VmFork => "vm_fork",
            BootGate::SyscallRing3 => "syscall_ring3",
            BootGate::PathExec => "path_exec",
            BootGate::SmpDepth => "smp_depth",
            BootGate::Constitutional => "constitutional",
            BootGate::Capabilities => "capabilities",
            BootGate::ServiceLoader => "service_loader",
            BootGate::PlatformBrokers => "platform_brokers",
            BootGate::VirtioBlk => "virtio_blk",
            BootGate::BuildEndpoints => "build_endpoints",
            BootGate::NetworkCompat => "network_compat",
            BootGate::SchedulerEpoch => "scheduler_epoch",
            BootGate::Boundary => "boundary",
        }
    }
}

/// The printed name of each check.
pub open spec fn gate_name(g: BootGate) -> Seq<char> {
    match g {
        BootGate::ShellStorage => "shell_storage"@,
        BootGate::LoaderSecurity => "loader_security"@,
        BootGate::MemoryLayout => "memory_layout"@,
        BootGate::UserspaceBootstrap => "userspace_bootstrap"@,
        BootGate::HwPaging => "hw_paging"@,
        BootGate::SchedUserspace => "sched_userspace"@,
        BootGate::DynamicRuntime => "dynamic_runtime"@,
        BootGate::FdMmap => "fd_mmap"@,
        BootGate::VmFork => "vm_fork"@,
        BootGate::SyscallRing3 => "syscall_ring3"@,
        BootGate::PathExec => "path_exec"@,
        BootGate::SmpDepth => "smp_depth"@,
        BootGate::Constitutional => "constitutional"@,
        BootGate::Capabilities => "capabilities"@,
        BootGate::ServiceLoader => "service_loader"@,
        BootGate::PlatformBrokers => "platform_brokers"@,
        BootGate::VirtioBlk => "virtio_blk"@,
        BootGate::BuildEndpoints => "build_endpoints"@,
        BootGate::NetworkCompat => "network_compat"@,
        BootGate::SchedulerEpoch => "scheduler_epoch"@,
        BootGate::Boundary => "boundary"@,
    }
}

/// The order in which boot validation runs and lists its subsystem checks.
pub open spec fn gate_order() -> Seq<BootGate> {
    seq![
        BootGate::ShellStorage,
        BootGate::LoaderSecurity,
        BootGate::MemoryLayout,
        BootGate::UserspaceBootstrap,
        BootGate::HwPaging,
        BootGate::SchedUserspace,
        BootGate::DynamicRuntime,
        BootGate::FdMmap,
        BootGate::VmFork,
        BootGate::SyscallRing3,
        BootGate::PathExec,
        BootGate::SmpDepth,
        BootGate::Constitutional,
        BootGate::Capabilities,
        BootGate::ServiceLoader,
        BootGate::PlatformBrokers,
        BootGate::VirtioBlk,
        BootGate::BuildEndpoints,
        BootGate::NetworkCompat,
        BootGate::SchedulerEpoch,
        BootGate::Boundary,
    ]
}

/// Number of checks before the hardware userspace group starts.
pub const EARLY_GATES: usize = 4;

/// The outcome of each subsystem's smokes.
#[derive(Clone, Copy, Debug)]
pub struct BootGateResults {
    pub shell_storage: bool,
    pub loader_security: bool,
    pub memory_layout: bool,
    pub userspace_bootstrap: bool,
    pub hw_paging: bool,
    pub sched_userspace: bool,
    pub dynamic_runtime: bool,
    pub fd_mmap: bool,
    pub vm_fork: bool,
    pub syscall_ring3: bool,
    pub path_exec: bool,
    pub smp_depth: bool,
    pub constitutional: bool,
    pub capabilities: bool,
    pub service_loader: bool,
    pub platform_brokers: bool,
    pub virtio_blk: bool,
    pub build_endpoints: bool,
    pub network_compat: bool,
    pub scheduler_epoch: bool,
    pub boundary: bool,
}

impl BootGateResults {
    /// The outcome recorded for check `g`.
    pub open spec fn outcome(self, g: BootGate) -> bool {
        match g {
            BootGate::ShellStorage => self.shell_storage,
            BootGate::LoaderSecurity => self.loader_security,
            BootGate::MemoryLayout => self.memory_layout,
            BootGate::UserspaceBootstrap => self.userspace_bootstrap,
            BootGate::HwPaging => self.hw_paging,
            BootGate::SchedUserspace => self.sched_userspace,
            BootGate::DynamicRuntime => self.dynamic_runtime,
            BootGate::FdMmap => self.fd_mmap,
            BootGate::VmFork => self.vm_fork,
            BootGate::SyscallRing3 => self.syscall_ring3,
            BootGate::PathExec => self.path_exec,
            BootGate::SmpDepth => self.smp_depth,
            BootGate::Constitutional => self.constitutional,
            BootGate::Capabilities => self.capabilities,
            BootGate::ServiceLoader => self.service_loader,
            BootGate::PlatformBrokers => self.platform_brokers,
            BootGate::VirtioBlk => self.virtio_blk,
            BootGate::BuildEndpoints => self.build_endpoints,
            BootGate::NetworkCompat => self.network_compat,
            BootGate::SchedulerEpoch => self.scheduler_epoch,
            BootGate::Boundary => self.boundary,
        }
    }

    /// Every check passed.
    pub open spec fn all_passed(self) -> bool {
        forall|g: BootGate| #[trigger] self.outcome(g)
    }

    /// The outcome recorded for check `g`.
    pub fn get(&self, g: BootGate) -> (r: bool)
        ensures
            r == self.outcome(g),
    {
        match g {
            BootGate::ShellStorage => self.shell_storage,
            BootGate::LoaderSecurity => self.loader_security,
            BootGate::MemoryLayout => self.memory_layout,
            BootGate::UserspaceBootstrap => self.userspace_bootstrap,
            BootGate::HwPaging => self.hw_paging,
            BootGate::SchedUserspace => self.sched_userspace,
            BootGate::DynamicRuntime => self.dynamic_runtime,
            BootGate::FdMmap => self.fd_mmap,
            BootGate::VmFork => self.vm_fork,
            BootGate::SyscallRing3 => self.syscall_ring3,
            BootGate::PathExec => self.path_exec,
            BootGate::SmpDepth => self.smp_depth,
            BootGate::Constitutional => self.constitutional,
            BootGate::Capabilities => self.capabilities,
            BootGate::ServiceLoader => self.service_loader,
            BootGate::PlatformBrokers => self.platform_brokers,
            BootGate::VirtioBlk => self.virtio_blk,
            BootGate::BuildEndpoints => self.build_endpoints,
            BootGate::NetworkCompat => self.network_compat,
            BootGate::SchedulerEpoch => self.scheduler_epoch,
            BootGate::Boundary => self.boundary,
        }
    }
}

proof fn lemma_gate_order_covers(g: BootGate)
    ensures
        exists|i: int| 0 <= i < gate_order().len() && #[trigger] gate_order()[i] == g,
{
    let o = gate_order();
    match g {
        BootGate::ShellStorage => assert(o[0] == g),
        BootGate::LoaderSecurity => assert(o[1] == g),
        BootGate::MemoryLayout => assert(o[2] == g),
        BootGate::UserspaceBootstrap => assert(o[3] == g),
        BootGate::HwPaging => assert(o[4] == g),
        BootGate::SchedUserspace => assert(o[5] == g),
        BootGate::DynamicRuntime => assert(o[6] == g),
        BootGate::FdMmap => assert(o[7] == g),
        BootGate::VmFork => assert(o[8] == g),
        BootGate::SyscallRing3 => assert(o[9] == g),
        BootGate::PathExec => assert(o[10] == g),
        BootGate::SmpDepth => assert(o[11] == g),
        BootGate::Constitutional => assert(o[12] == g),
        BootGate::Capabilities => assert(o[13] == g),
        BootGate::ServiceLoader => assert(o[14] == g),
        BootGate::PlatformBrokers => assert(o[15] == g),
        BootGate::VirtioBlk => assert(o[16] == g),
        BootGate::BuildEndpoints => assert(o[17] == g),
        BootGate::NetworkCompat => assert(o[18] == g),
        BootGate::SchedulerEpoch => assert(o[19] == g),
        BootGate::Boundary => assert(o[20] == g),
    }
}

/// The checks in listing order, as a vector.
fn gate_order_vec() -> (r: Vec<BootGate>)
    ensures
        r@ == gate_order(),
{
    let r = vec![
        BootGate::ShellStorage,
        BootGate::LoaderSecurity,
        BootGate::MemoryLayout,
        BootGate::UserspaceBootstrap,
        BootGate::HwPaging,
        BootGate::SchedUserspace,
        BootGate::DynamicRuntime,
        BootGate::FdMmap,
        BootGate::VmFork,
        BootGate::SyscallRing3,
        BootGate::PathExec,
        BootGate::SmpDepth,
        BootGate::Constitutional,
        BootGate::Capabilities,
        BootGate::ServiceLoader,
        BootGate::PlatformBrokers,
        BootGate::VirtioBlk,
        BootGate::BuildEndpoints,
        BootGate::NetworkCompat,
        BootGate::SchedulerEpoch,
        BootGate::Boundary,
    ];
    assert(r@ =~= gate_order());
    r
}

/// Runs boot validation over the subsystems' outcomes: one entry per check
/// in listing order with its outcome, and the overall verdict, which holds
/// exactly when every check passed. The caller prints each entry as a line,
/// with the hardware-userspace marker after the first `EARLY_GATES` entries,
/// then the verdict line.
pub fn run_boot_gate(results: &BootGateResults) -> (r: (Vec<(BootGate, bool)>, bool))
    ensures
        r.0@.len() == gate_order().len(),
        forall|i: int|
            0 <= i < r.0@.len() ==> #[trigger] r.0@[i] == (gate_order()[i], results.outcome(gate_order()[i])),
        r.1 == results.all_passed(),
{
    let order = gate_order_vec();
    let mut report: Vec<(BootGate, bool)> = Vec::new();
    let mut ok = true;
    let mut i: usize = 0;
    while i < order.len()
        invariant
            order@ == gate_order(),
            i <= order@.len(),
            report@.len() == i,
            forall|k: int| 0 <= k < i ==> #[trigger] report@[k] == (gate_order()[k], results.outcome(gate_order()[k])),
            ok == (forall|k: int| 0 <= k < i ==> #[trigger] results.outcome(gate_order()[k])),
        decreases order@.len() - i,
    {
        let g = order[i];
        let v = results.get(g);
        report.push((g, v));
        ok = ok && v;
        i += 1;
    }
    proof {
        if ok {
            assert forall|g: BootGate| #[trigger] results.outcome(g) by {
                lemma_gate_order_covers(g);
                let k = choose|k: int| 0 <= k < gate_order().len() && #[trigger] gate_order()[k] == g;
                assert(results.outcome(gate_order()[k]));
            }
        } else {
            let k = choose|k: int| 0 <= k < gate_order().len() && !#[trigger] results.outcome(gate_order()[k]);
            assert(!results.outcome(gate_order()[k]));
        }
    }
    (report, ok)
}

/// Whether every subsystem passed its check.
pub fn boot_gate(results: &BootGateResults) -> (r: bool)
    ensures
        r == results.all_passed(),
{
    run_boot_gate(results).1
}

} // verus!
