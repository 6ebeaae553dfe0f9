use kernel::bga::{smoke_buddy_back_buffer_frames, desktop_mapping_needed, init_display, map_back_buffer_for_desktop, BgaState, DisplayChoice, MAP_TEST_PIXEL};
use kernel::buddy::BuddyFrameAllocator;
use kernel::boot_gate::{boot_gate, boot_gate_version, ok_str, run_boot_gate, BootGate, BootGateResults, EARLY_GATES};
use kernel::corpus_runner::corpus_process_name;
use kernel::ipc_endpoints::{create_endpoint, send, IpcEndpoints};
use kernel::phase_catalog::{completed_milestones, phase_smoke_check, PhaseCheck};
use kernel::post150::{loom_pass_count, mark_release_scorecard, phase151_loom_smoke, release_scorecard_ok, Post150State};
use kernel::process::ProcessId;

fn all_passed() -> BootGateResults {
    BootGateResults {
        shell_storage: true,
        loader_security: true,
        memory_layout: true,
        userspace_bootstrap: true,
        hw_paging: true,
        sched_userspace: true,
        dynamic_runtime: true,
        fd_mmap: true,
        vm_fork: true,
        syscall_ring3: true,
        path_exec: true,
        smp_depth: true,
        constitutional: true,
        capabilities: true,
        service_loader: true,
        platform_brokers: true,
        virtio_blk: true,
        build_endpoints: true,
        network_compat: true,
        scheduler_epoch: true,
        boundary: true,
    }
}

#[test]
fn boot_gate_reports_every_gate_in_order() {
    let (report, ok) = run_boot_gate(&all_passed());
    assert!(ok);
    assert_eq!(report.len(), 21);
    assert_eq!(report[0], (BootGate::ShellStorage, true));
    assert_eq!(report[EARLY_GATES], (BootGate::HwPaging, true));
    assert_eq!(report[20], (BootGate::Boundary, true));
    assert_eq!(report[3].0.name(), "userspace_bootstrap");
    assert_eq!(report[16].0.name(), "virtio_blk");
}

#[test]
fn boot_gate_fails_when_one_gate_fails() {
    let mut r = all_passed();
    r.virtio_blk = false;
    let (report, ok) = run_boot_gate(&r);
    assert!(!ok);
    assert_eq!(report[16], (BootGate::VirtioBlk, false));
    assert!(!boot_gate(&r));
    assert!(boot_gate(&all_passed()));
}

#[test]
fn boot_gate_words() {
    assert_eq!(ok_str(true), "true");
    assert_eq!(ok_str(false), "false");
    assert_eq!(boot_gate_version(), "1.0.0");
}

#[test]
fn phase_catalog_maps_phases_to_checks() {
    assert_eq!(phase_smoke_check(150), PhaseCheck::Rejected);
    assert_eq!(phase_smoke_check(401), PhaseCheck::Rejected);
    assert_eq!(phase_smoke_check(151), PhaseCheck::EndpointSends);
    assert_eq!(phase_smoke_check(175), PhaseCheck::Milestone(175));
    assert_eq!(phase_smoke_check(176), PhaseCheck::UnifiedAdmission);
    assert_eq!(phase_smoke_check(225), PhaseCheck::VirtioProbed);
    assert_eq!(phase_smoke_check(251), PhaseCheck::Compositor);
    assert_eq!(phase_smoke_check(320), PhaseCheck::BootVerified);
    assert_eq!(phase_smoke_check(351), PhaseCheck::Milestone(351));
    assert_eq!(phase_smoke_check(374), PhaseCheck::DesktopUp);
    assert_eq!(phase_smoke_check(375), PhaseCheck::Milestone(375));
    assert_eq!(phase_smoke_check(399), PhaseCheck::UserlandNetwork);
    assert_eq!(phase_smoke_check(400), PhaseCheck::Milestone(400));
    assert_eq!(completed_milestones(), vec![175, 200, 250, 300, 350, 351, 375, 400]);
}

#[test]
fn loom_smoke_needs_an_endpoint_send() {
    let mut st = Post150State::new();
    let mut eps = IpcEndpoints::new();
    assert!(!phase151_loom_smoke(&mut st, &eps));
    assert_eq!(loom_pass_count(&st), 1);
    let ep = create_endpoint(&mut eps);
    assert!(send(&mut eps, ep, ProcessId(1), b"hi").is_ok());
    assert!(phase151_loom_smoke(&mut st, &eps));
    assert_eq!(loom_pass_count(&st), 2);
    assert!(!release_scorecard_ok(&st));
    mark_release_scorecard(&mut st);
    assert!(release_scorecard_ok(&st));
}

#[test]
fn desktop_mapping_confirmation() {
    let mut st = BgaState::new();
    assert!(!map_back_buffer_for_desktop(&mut st, true, MAP_TEST_PIXEL, MAP_TEST_PIXEL));
    st.active = true;
    assert!(desktop_mapping_needed(&st));
    assert!(!map_back_buffer_for_desktop(&mut st, false, MAP_TEST_PIXEL, MAP_TEST_PIXEL));
    assert!(!map_back_buffer_for_desktop(&mut st, true, 0, MAP_TEST_PIXEL));
    assert!(st.back_buffer_mapped);
    assert!(!map_back_buffer_for_desktop(&mut st, true, MAP_TEST_PIXEL, 0));
    assert!(map_back_buffer_for_desktop(&mut st, true, MAP_TEST_PIXEL, MAP_TEST_PIXEL));
    assert!(st.back_buffer_map_ok);
    assert!(!desktop_mapping_needed(&st));
    assert!(map_back_buffer_for_desktop(&mut st, false, 0, 0));
}

#[test]
fn display_falls_back_to_mode_13h() {
    let mut st = BgaState::new();
    st.active = true;
    assert_eq!(init_display(&mut st, true, false), DisplayChoice::Bga);
    assert_eq!(init_display(&mut st, false, true), DisplayChoice::Mode13h);
    assert!(st.active);
    assert_eq!(init_display(&mut st, false, false), DisplayChoice::NoDisplay);
    assert!(!st.active);
}

#[test]
fn corpus_programs_run_under_their_names() {
    assert_eq!(corpus_process_name("mendo"), "mendo");
    assert_eq!(corpus_process_name("ring3-io-demo-ext2"), "ring3-io-ext2");
    assert_eq!(corpus_process_name("sig-demo"), "sig-demo");
    assert_eq!(corpus_process_name("other"), "corpus-run");
}

#[test]
fn buddy_back_buffer_frames_cycle() {
    let mut st = BgaState::new();
    let mut buddy = BuddyFrameAllocator::new();
    assert!(smoke_buddy_back_buffer_frames(&mut st, &mut buddy, 0));
    assert_eq!(st.back_frames, 0);
    assert!(!smoke_buddy_back_buffer_frames(&mut st, &mut buddy, 3));
    buddy.deallocate_frame(0x10000);
    assert!(smoke_buddy_back_buffer_frames(&mut st, &mut buddy, 768));
    assert_eq!(st.back_frames, 768);
}

#[test]
fn buddy_merge_keeps_both_frames() {
    let mut buddy = BuddyFrameAllocator::new();
    buddy.deallocate_frame(0x11000);
    buddy.deallocate_frame(0x10000);
    assert_eq!(buddy.free_count(), 2);
    assert_eq!(buddy.merges, 1);
    assert_eq!(buddy.allocate_frame(), Some(0x11000));
    assert_eq!(buddy.allocate_frame(), Some(0x10000));
    assert_eq!(buddy.allocate_frame(), None);
}
