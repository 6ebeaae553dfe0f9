//! Clan OS kernel library: the policy, bookkeeping and parsing logic of the
//! kernel, with each subsystem's global state held in an explicit state value.
pub mod address_space;
pub mod audit_wire;
pub mod bga;
pub mod block;
pub mod boot_gate;
pub mod block_cache;
pub mod buddy;
pub mod bytes;
pub mod checkpoint;
pub mod clipboard_broker;
pub mod compat_socket;
pub mod compositor;
pub mod corpus_runner;
pub mod counter;
pub mod cow_fork;
pub mod demand_paging;
pub mod desktop_shell;
pub mod device;
pub mod device_broker;
pub mod driver_host;
pub mod elf_reloc;
pub mod embedded_programs;
pub mod exec_image;
pub mod ext2;
pub mod fd_table;
pub mod federation;
pub mod frame_backing;
pub mod framebuffer;
pub mod governance;
pub mod ipc_endpoints;
pub mod ipc_interim_bridge;
pub mod kernel_object;
pub mod load_plan;
pub mod loader_signed_exec;
pub mod manifest_reparse;
pub mod milestone150;
pub mod mmap;
pub mod mouse;
pub mod native_manifest;
pub mod native_syscall;
pub mod network_broker;
pub mod network_stack;
pub mod oom_policy;
pub mod path_broker;
pub mod phase_catalog;
pub mod permission_broker;
pub mod pipe;
pub mod posix_server;
pub mod post150;
pub mod process;
pub mod ring3_trampoline;
pub mod security;
pub mod semantic_observability;
pub mod service_isolation;
pub mod service_loader;
pub mod storage;
pub mod system;
