use kernel::address_space::{
    descriptor_for_image, validate_regions as validate_virtual_regions, AddressSpaceError, AddressSpaceId,
    RegionKind, VirtualRegion,
};
use kernel::block::{
    init as block_init, list_block_devices, read_active_sector, set_active, write_active_sector, BlockDeviceId,
    BlockError, BlockManager,
};
use kernel::device::{get_device, list_devices, register_device, scan_pci, summary, DeviceError, DeviceId, DeviceKind, DeviceRegistry, DeviceState, PciProbe, PCI_SCAN_FUNCTIONS};
use kernel::exec_image::{
    parse_elf64_image, validate_segments, ExecutableFormat, ExecutableImage, ImageLoadError, ImageSegment,
    ProgramTrust, SegmentFlags,
};
use kernel::frame_backing::{bytes_for_page, MappingActionKind, MappingActionResult};
use kernel::load_plan::{
    build_load_plan, validate_regions as validate_load_regions, LoadAction, LoadPermissions, LoadPlanError,
    LoadRegion, PAGE_SIZE, STACK_RESERVATION_PAGES,
};
use kernel::ring3_trampoline::USER_TRAP_VECTOR;
use kernel::security::{can_access, AccessKind, Credentials, FileMode, SecurityError, UserId};
use kernel::storage::SECTOR_SIZE;

/// A minimal ELF64 executable: one read+execute PT_LOAD segment at 0x400000
/// whose four bytes of code sit at file offset 120 and which spans one page.
fn sample_elf() -> Vec<u8> {
    let mut b = vec![0u8; 124];
    b[0..4].copy_from_slice(&[0x7f, b'E', b'L', b'F']);
    b[4] = 2;
    b[5] = 1;
    b[6] = 1;
    b[16..18].copy_from_slice(&2u16.to_le_bytes());
    b[18..20].copy_from_slice(&0x3eu16.to_le_bytes());
    b[20..24].copy_from_slice(&1u32.to_le_bytes());
    b[24..32].copy_from_slice(&0x400000u64.to_le_bytes());
    b[32..40].copy_from_slice(&64u64.to_le_bytes());
    b[52..54].copy_from_slice(&64u16.to_le_bytes());
    b[54..56].copy_from_slice(&56u16.to_le_bytes());
    b[56..58].copy_from_slice(&1u16.to_le_bytes());
    let ph = 64;
    b[ph..ph + 4].copy_from_slice(&1u32.to_le_bytes());
    b[ph + 4..ph + 8].copy_from_slice(&5u32.to_le_bytes());
    b[ph + 8..ph + 16].copy_from_slice(&120u64.to_le_bytes());
    b[ph + 16..ph + 24].copy_from_slice(&0x400000u64.to_le_bytes());
    b[ph + 24..ph + 32].copy_from_slice(&0x400000u64.to_le_bytes());
    b[ph + 32..ph + 40].copy_from_slice(&4u64.to_le_bytes());
    b[ph + 40..ph + 48].copy_from_slice(&0x1000u64.to_le_bytes());
    b[ph + 48..ph + 56].copy_from_slice(&0x1000u64.to_le_bytes());
    b[120..124].copy_from_slice(&[0x90, 0x90, 0xeb, 0xfe]);
    b
}

fn booted_blocks() -> BlockManager {
    let mut mgr = BlockManager::new();
    let mut devs = DeviceRegistry::new();
    block_init(&mut mgr, &mut devs);
    mgr
}

#[test]
fn manager_registers_and_lists_block_devices() {
    let mgr = booted_blocks();
    let devices = list_block_devices(&mgr);
    assert!(!devices.is_empty());
    assert_eq!(devices[0].sector_size, SECTOR_SIZE);
}

#[test]
fn manager_rejects_unknown_active_device() {
    let mut mgr = booted_blocks();
    assert_eq!(set_active(&mut mgr, BlockDeviceId::from_raw(999)), Err(BlockError::NotFound));
}

#[test]
fn active_device_reads_and_writes_sectors() {
    let mut mgr = booted_blocks();
    let mut write = [0u8; SECTOR_SIZE];
    write[0] = 99;
    write_active_sector(&mut mgr, 1, &write).expect("write should succeed");
    let mut read = [0u8; SECTOR_SIZE];
    read_active_sector(&mgr, 1, &mut read).expect("read should succeed");
    assert_eq!(read[0], 99);
}

#[test]
fn permission_predicates_allow_owner_and_admin() {
    let user = Credentials::shell_user();
    let admin = Credentials::admin();
    assert!(can_access(user, user.user, FileMode::user_file(), AccessKind::Write).is_ok());
    assert!(can_access(admin, user.user, FileMode::read_only(), AccessKind::Manage).is_ok());
}

#[test]
fn permission_predicates_reject_unowned_writes() {
    let user = Credentials::shell_user();
    assert_eq!(
        can_access(user, UserId::from_raw(1), FileMode::system_executable(), AccessKind::Write),
        Err(SecurityError::PermissionDenied)
    );
}

#[test]
fn overlapping_virtual_regions_are_rejected() {
    let flags = SegmentFlags::from_bits(SegmentFlags::READ);
    let regions = [
        VirtualRegion { start: 0x400000, size: 0x1000, kind: RegionKind::Code, flags },
        VirtualRegion { start: 0x400800, size: 0x1000, kind: RegionKind::Data, flags },
    ];
    assert_eq!(validate_virtual_regions(&regions), Err(AddressSpaceError::Overlap));
}

#[test]
fn writable_executable_regions_are_rejected() {
    let regions = [VirtualRegion {
        start: 0x400000,
        size: 0x1000,
        kind: RegionKind::Code,
        flags: SegmentFlags::from_bits(SegmentFlags::WRITE | SegmentFlags::EXECUTE),
    }];
    assert_eq!(validate_virtual_regions(&regions), Err(AddressSpaceError::WritableExecutable));
}

#[test]
fn image_descriptor_uses_segment_regions() {
    let image = ExecutableImage {
        name: "test".into(),
        source_path: "/bin/test.elf".into(),
        format: ExecutableFormat::Elf64,
        entry_point: 0x400000,
        image_size: 128,
        trust: ProgramTrust::User,
        owner: UserId::from_raw(100),
        segments: vec![ImageSegment {
            virtual_address: 0x400000,
            file_offset: 120,
            file_size: 4,
            memory_size: 0x1000,
            flags: SegmentFlags::from_bits(SegmentFlags::READ | SegmentFlags::EXECUTE),
        }],
    };
    let descriptor = descriptor_for_image(AddressSpaceId::from_raw(1), &image).expect("descriptor should be valid");
    assert_eq!(descriptor.regions.len(), 1);
    assert_eq!(descriptor.regions[0].kind, RegionKind::Code);
}

fn sample_image() -> ExecutableImage {
    parse_elf64_image("hello", "/bin/hello.elf", &sample_elf(), ProgramTrust::User, Credentials::shell_user().user)
        .expect("sample image should parse")
}

#[test]
fn sample_image_builds_page_aligned_plan() {
    let plan = build_load_plan(&sample_image()).expect("plan should build");
    assert_eq!(plan.total_pages, 1);
    assert_eq!(plan.stack_pages, STACK_RESERVATION_PAGES);
    assert_eq!(plan.regions[0].start, 0x400000);
    assert_eq!(plan.regions[0].size, PAGE_SIZE);
    assert!(matches!(plan.regions[0].actions[0], LoadAction::Copy { len: 4, .. }));
    assert!(matches!(plan.regions[0].actions[1], LoadAction::ZeroFill { len: 4092, .. }));
}

#[test]
fn writable_executable_region_is_rejected() {
    let region = LoadRegion {
        start: 0x400000,
        size: PAGE_SIZE,
        page_count: 1,
        permissions: LoadPermissions::from_bits(LoadPermissions::WRITE | LoadPermissions::EXECUTE),
        actions: Vec::new(),
    };
    assert_eq!(validate_load_regions(&[region]), Err(LoadPlanError::WritableExecutable));
}

#[test]
fn overlapping_load_regions_are_rejected() {
    let permissions = LoadPermissions::from_bits(LoadPermissions::READ | LoadPermissions::EXECUTE);
    let regions = [
        LoadRegion { start: 0x400000, size: PAGE_SIZE, page_count: 1, permissions, actions: Vec::new() },
        LoadRegion { start: 0x400000, size: PAGE_SIZE, page_count: 1, permissions, actions: Vec::new() },
    ];
    assert_eq!(validate_load_regions(&regions), Err(LoadPlanError::Overlap));
}

#[test]
fn page_action_accounting_splits_by_page() {
    let actions = [
        MappingActionResult { target_address: 0x1000, len: 4, kind: MappingActionKind::Copy },
        MappingActionResult { target_address: 0x1004, len: 4092, kind: MappingActionKind::ZeroFill },
    ];
    assert_eq!(bytes_for_page(0x1000, &actions), (4, 4092));
    assert_eq!(bytes_for_page(0x2000, &actions), (0, 0));
}

#[test]
fn valid_minimal_elf64_image_parses() {
    let image = parse_elf64_image("hello", "/bin/hello.elf", &sample_elf(), ProgramTrust::User, UserId::from_raw(100))
        .expect("sample image should parse");
    assert_eq!(image.format, ExecutableFormat::Elf64);
    assert_eq!(image.entry_point, 0x400000);
    assert_eq!(image.segments.len(), 1);
    assert!(image.segments[0].flags.executable());
}

#[test]
fn invalid_magic_is_rejected() {
    assert_eq!(
        parse_elf64_image("bad", "/bin/bad", b"not-elf", ProgramTrust::User, UserId::from_raw(100)),
        Err(ImageLoadError::InvalidMagic)
    );
}

#[test]
fn overlapping_segments_are_rejected() {
    let first = ImageSegment {
        virtual_address: 0x400000,
        file_offset: 120,
        file_size: 1,
        memory_size: 0x1000,
        flags: SegmentFlags::from_bits(SegmentFlags::READ),
    };
    let second = ImageSegment {
        virtual_address: 0x400800,
        file_offset: 121,
        file_size: 1,
        memory_size: 0x1000,
        flags: SegmentFlags::from_bits(SegmentFlags::READ),
    };
    assert_eq!(validate_segments(&[first, second]), Err(ImageLoadError::InvalidSegmentLayout));
}

#[test]
fn trap_vector_is_user_vector() {
    assert_eq!(USER_TRAP_VECTOR, 0x80);
}

#[test]
fn registry_registers_and_queries_devices() {
    let mut reg = DeviceRegistry::new();
    let id = register_device(&mut reg, "test-device", DeviceKind::Storage, DeviceState::Ready, None, None, None, None, None);
    let device = get_device(&reg, id).expect("device should be registered");
    assert_eq!(device.name, "test-device");
    assert_eq!(summary(&reg).storage, 1);
}

#[test]
fn missing_device_returns_not_found() {
    let reg = DeviceRegistry::new();
    assert!(matches!(get_device(&reg, DeviceId::from_raw(999)), Err(DeviceError::NotFound)));
}

#[test]
fn pci_scan_registers_each_answering_function_with_its_ids() {
    let mut probes = vec![PciProbe { id_dword: 0xffff_ffff, class_dword: 0 }; PCI_SCAN_FUNCTIONS];
    probes[9] = PciProbe { id_dword: 0x1111_8086, class_dword: 0x0300_0000 };
    probes[16] = PciProbe { id_dword: 0x2222_1234, class_dword: 0x0106_0100 };
    let mut reg = DeviceRegistry::new();
    scan_pci(&mut reg, &probes);
    let devs = list_devices(&reg);
    assert_eq!(devs.len(), 2);
    assert_eq!((devs[0].vendor_id, devs[0].device_id), (Some(0x8086), Some(0x1111)));
    assert_eq!((devs[0].class_code, devs[0].subclass), (Some(3), Some(0)));
    assert_eq!((devs[0].bus, devs[0].slot, devs[0].function), (Some(0), Some(1), Some(1)));
    assert_eq!((devs[1].vendor_id, devs[1].device_id), (Some(0x1234), Some(0x2222)));
    assert_eq!((devs[1].class_code, devs[1].subclass), (Some(1), Some(6)));
    assert_eq!((devs[1].slot, devs[1].function), (Some(2), Some(0)));
}
