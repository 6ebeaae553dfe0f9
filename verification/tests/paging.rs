use kernel::elf_reloc::{apply_dynamic_imports, apply_dynamic_imports_lazy, apply_static_relocs, bind_lazy_plt, lazy_plt_status, plt_status, relocs_for_image, RelocState, RelocWrite, StaticReloc, R_X86_64_64, R_X86_64_NONE, R_X86_64_RELATIVE};
use kernel::frame_backing::{back_mapped_image, FrameBackingError, FramePool, MappedImage, MappedPage, MappedRegion, MappingActionKind, MappingActionResult};
use kernel::load_plan::LoadPermissions;
use kernel::address_space::MappingState;
use kernel::cow_fork::{is_page_cow_shared, pf_break_status, share_after_fork, try_break_on_write, CowState};
use kernel::demand_paging::{
    file_status, handle_page_fault, plan_file_page, record_file_page, record_zero_fill, register_file_backed_region,
    status, DemandState, FaultAction, FILE_DEMAND_BASE, USER_GROW_BASE,
};

#[test]
fn stack_growth_faults_get_zero_pages() {
    let mut st = DemandState::new();
    assert_eq!(handle_page_fault(&mut st, USER_GROW_BASE + 0x123, true, false, 0x9000), FaultAction::ZeroFill(USER_GROW_BASE));
    record_zero_fill(&mut st, true);
    assert_eq!(status(&st), (1, 1, 0));
}

#[test]
fn faults_outside_demand_paging_are_rejected() {
    let mut st = DemandState::new();
    assert_eq!(handle_page_fault(&mut st, USER_GROW_BASE, false, false, 1), FaultAction::Reject);
    assert_eq!(handle_page_fault(&mut st, USER_GROW_BASE, true, true, 1), FaultAction::Reject);
    assert_eq!(handle_page_fault(&mut st, 0x1000, true, false, 1), FaultAction::Reject);
    assert_eq!(handle_page_fault(&mut st, USER_GROW_BASE, true, false, 0), FaultAction::Reject);
    assert_eq!(status(&st), (1, 0, 4));
    assert_eq!(handle_page_fault(&mut st, FILE_DEMAND_BASE + 8, true, false, 0), FaultAction::FilePage);
}

#[test]
fn file_pages_come_from_the_registered_file() {
    let mut st = DemandState::new();
    let content: Vec<u8> = (0..5000u32).map(|i| (i % 256) as u8).collect();
    assert!(plan_file_page(&mut st, 1, FILE_DEMAND_BASE, Some(&content)).is_none());
    register_file_backed_region(&mut st, b"/bin/hello");
    let (base, bytes) = plan_file_page(&mut st, 1, FILE_DEMAND_BASE + 0x1004, Some(&content)).unwrap();
    assert_eq!(base, FILE_DEMAND_BASE + 0x1000);
    assert_eq!(bytes, content[4096..].to_vec());
    assert!(plan_file_page(&mut st, 1, FILE_DEMAND_BASE + 0x2000, Some(&content)).is_none());
    assert!(plan_file_page(&mut st, 0, FILE_DEMAND_BASE, Some(&content)).is_none());
    assert!(plan_file_page(&mut st, 1, FILE_DEMAND_BASE, None).is_none());
    record_file_page(&mut st, true);
    assert_eq!(file_status(&st), (5, 1, 4));
}

#[test]
fn fork_shares_writable_frames_and_breaks_on_write() {
    let mut st = CowState::new();
    let pages = [(0x1000u64, true, Some(0x5_0123u64)), (0x2000, false, Some(0x6_0000)), (0x3000, true, None)];
    assert_eq!(share_after_fork(&mut st, &pages), vec![0x1000]);
    assert!(is_page_cow_shared(&st, Some(0x5_0fff)));
    assert!(!is_page_cow_shared(&st, Some(0x6_0000)));
    assert!(!is_page_cow_shared(&st, None));
    assert!(!try_break_on_write(&mut st, Some(0x5_0000), || false));
    assert!(try_break_on_write(&mut st, Some(0x5_0000), || true));
    assert!(is_page_cow_shared(&st, Some(0x5_0000)));
    assert!(try_break_on_write(&mut st, Some(0x5_0000), || true));
    assert!(!is_page_cow_shared(&st, Some(0x5_0000)));
    assert!(!try_break_on_write(&mut st, Some(0x5_0000), || true));
    assert_eq!(pf_break_status(&st), 2);
}

fn two_page_mapping() -> kernel::frame_backing::MappedImage {
    let perms = LoadPermissions::from_bits(LoadPermissions::READ);
    MappedImage {
        id: 7,
        image_name: "demo".to_string(),
        source_path: "/bin/demo".to_string(),
        address_space_id: kernel::address_space::AddressSpaceId(3),
        regions: vec![MappedRegion {
            start: 0x40_0000,
            size: 0x2000,
            permissions: perms,
            pages: vec![
                MappedPage { virtual_address: 0x40_0000, permissions: perms },
                MappedPage { virtual_address: 0x40_1000, permissions: perms },
            ],
            actions: vec![MappingActionResult { target_address: 0x40_0000, len: 0x1800, kind: MappingActionKind::Copy }],
        }],
        total_pages: 2,
        executable_pages: 0,
        writable_pages: 0,
        read_only_pages: 2,
        copied_bytes: 0x1800,
        zero_filled_bytes: 0,
        owner: kernel::security::Credentials::kernel(),
    }
}

#[test]
fn backing_takes_frames_from_the_end_of_the_pool() {
    let mut pool = FramePool { free: vec![0x1000, 0x2000, 0x3000] };
    let img = back_mapped_image(&mut pool, &two_page_mapping()).unwrap();
    assert_eq!(img.state, MappingState::FrameBacked);
    assert_eq!(img.regions[0].pages[0].frame.start_address, 0x3000);
    assert_eq!(img.regions[0].pages[1].frame.start_address, 0x2000);
    assert_eq!(img.regions[0].pages[0].copied_bytes, 0x1000);
    assert_eq!(img.regions[0].pages[1].copied_bytes, 0x800);
    assert_eq!(pool.free, vec![0x1000]);
}

#[test]
fn backing_gives_frames_back_when_the_pool_runs_out() {
    let mut pool = FramePool { free: vec![0x1000] };
    assert_eq!(back_mapped_image(&mut pool, &two_page_mapping()).err(), Some(FrameBackingError::FrameUnavailable));
    assert_eq!(pool.free, vec![0x1000]);
}

fn tagged_image() -> Vec<u8> {
    let mut bytes = vec![0u8; 160];
    bytes[120..124].copy_from_slice(b"ARES");
    bytes
}

fn backed_demo() -> kernel::frame_backing::FrameBackedImage {
    let mut pool = FramePool { free: vec![0x1000, 0x2000, 0x3000] };
    back_mapped_image(&mut pool, &two_page_mapping()).unwrap()
}

#[test]
fn static_relocations_write_their_values_into_the_page_frames() {
    let backed = backed_demo();
    let mut st = RelocState::new();
    let mut relocs = relocs_for_image(&tagged_image(), 0x40_0000);
    relocs.push(StaticReloc { offset: 0x40_1010, kind: R_X86_64_64, addend: 0x55 });
    relocs.push(StaticReloc { offset: 0x40_1020, kind: R_X86_64_NONE, addend: 0x66 });
    let (n, writes) = apply_static_relocs(&mut st, &backed, &tagged_image(), &relocs).unwrap();
    assert_eq!(n, 2);
    assert_eq!(writes, vec![
        RelocWrite { frame: 0x3000, offset: 120, value: 0x80_0000 },
        RelocWrite { frame: 0x2000, offset: 0x10, value: 0x55 },
    ]);
    let bad = vec![StaticReloc { offset: 0x50_0000, kind: R_X86_64_RELATIVE, addend: 0 }];
    assert!(apply_static_relocs(&mut st, &backed, &tagged_image(), &bad).is_err());
}

#[test]
fn imports_bind_got_and_plt_slots() {
    let backed = backed_demo();
    let mut st = RelocState::new();
    let (n, writes) = apply_dynamic_imports(&mut st, &backed, &tagged_image(), 0x70_0000).unwrap();
    assert_eq!(n, 2);
    assert_eq!(writes, vec![
        RelocWrite { frame: 0x3000, offset: 128, value: 0x70_1000 },
        RelocWrite { frame: 0x3000, offset: 136, value: 0x70_1000 },
    ]);
    assert_eq!(plt_status(&st), (1, 1));
    let mut st = RelocState::new();
    let (n, writes) = apply_dynamic_imports_lazy(&mut st, &backed, &tagged_image(), 0x70_0000).unwrap();
    assert_eq!(n, 2);
    assert_eq!(writes, vec![RelocWrite { frame: 0x3000, offset: 128, value: 0x70_1000 }]);
    assert_eq!(lazy_plt_status(&st), (1, 0));
    let (n, writes) = bind_lazy_plt(&mut st, &backed, &tagged_image(), 0x70_0000).unwrap();
    assert_eq!(n, 1);
    assert_eq!(writes, vec![RelocWrite { frame: 0x3000, offset: 136, value: 0x70_1000 }]);
    assert_eq!(lazy_plt_status(&st), (1, 1));
}
