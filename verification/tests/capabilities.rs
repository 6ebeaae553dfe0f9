use kernel::kernel_object::{
    bump_object_generation, cap_delegate, cap_transfer_move, close_cap_for_process, create_storage_grant,
    ensure_smoke_process, get_cap, mint_cap_for_process, mint_cap_from_grant, object_generation,
    phase111_kernel_object_smoke, phase112_cap_lifecycle_smoke, phase113_rights_smoke,
    phase114_storage_grant_smoke, register_object, storage_grant_by_id, CapError, KernelObjects, ObjectKind,
    Rights, MAX_CAPS,
};
use kernel::process::{ProcessMode, ProcessTable};
use kernel::security::Credentials;

#[test]
fn mint_delegate_and_close_a_cap() {
    let mut objs = KernelObjects::new();
    let mut procs = ProcessTable::new();
    let pid = procs.create_process(Credentials::shell_user()).unwrap();
    let oid = register_object(&mut objs, ObjectKind::MemoryRegion, Rights(Rights::READ | Rights::WRITE | Rights::DELEGATE));
    assert_eq!(oid.0, 1);
    let parent = mint_cap_for_process(&mut objs, &mut procs, pid, oid, Rights(Rights::READ | Rights::DELEGATE)).unwrap();
    assert_eq!(parent, 0);
    let cap = get_cap(&procs, pid, parent).unwrap();
    assert_eq!(cap.generation.0, 1);
    assert_eq!(cap.rights.0, Rights::READ | Rights::DELEGATE);
    let child = cap_delegate(&mut objs, &mut procs, pid, parent, Rights(Rights::READ)).unwrap();
    assert_eq!(child, 1);
    assert_eq!(get_cap(&procs, pid, child).unwrap().rights.0, Rights::READ);
    assert_eq!(cap_delegate(&mut objs, &mut procs, pid, parent, Rights::read_write()), Err(CapError::AmplificationDenied));
    assert_eq!(objs.amplification_denied, 1);
    assert_eq!(cap_delegate(&mut objs, &mut procs, pid, child, Rights(Rights::READ)), Err(CapError::AmplificationDenied));
    assert_eq!(close_cap_for_process(&mut objs, &mut procs, pid, child), Ok(()));
    assert!(get_cap(&procs, pid, child).is_none());
    assert_eq!(close_cap_for_process(&mut objs, &mut procs, pid, child), Err(CapError::NotFound));
    assert_eq!(objs.cap_closes, 1);
}

#[test]
fn mint_refuses_amplification_unknown_objects_and_full_tables() {
    let mut objs = KernelObjects::new();
    let mut procs = ProcessTable::new();
    let pid = procs.create_process(Credentials::shell_user()).unwrap();
    let oid = register_object(&mut objs, ObjectKind::Service, Rights(Rights::READ));
    assert_eq!(mint_cap_for_process(&mut objs, &mut procs, pid, oid, Rights::read_write()), Err(CapError::AmplificationDenied));
    let missing = kernel::kernel_object::ObjectId(99);
    assert_eq!(mint_cap_for_process(&mut objs, &mut procs, pid, missing, Rights(Rights::READ)), Err(CapError::NotFound));
    for i in 0..MAX_CAPS {
        assert_eq!(mint_cap_for_process(&mut objs, &mut procs, pid, oid, Rights(Rights::READ)), Ok(i as u32));
    }
    assert_eq!(mint_cap_for_process(&mut objs, &mut procs, pid, oid, Rights(Rights::READ)), Err(CapError::NoSlot));
}

#[test]
fn native_process_without_caps_is_denied_ambient_authority() {
    let mut objs = KernelObjects::new();
    let mut procs = ProcessTable::new();
    let pid = procs.create_process(Credentials::shell_user()).unwrap();
    procs.set_process_mode(pid, ProcessMode::Native);
    let oid = register_object(&mut objs, ObjectKind::FsNode, Rights::read_write());
    assert_eq!(mint_cap_for_process(&mut objs, &mut procs, pid, oid, Rights(Rights::READ)), Err(CapError::AmbientDenied));
}

#[test]
fn transfer_moves_a_cap_and_generation_bump_is_visible() {
    let mut objs = KernelObjects::new();
    let mut procs = ProcessTable::new();
    let a = procs.create_process(Credentials::shell_user()).unwrap();
    let b = procs.create_process(Credentials::shell_user()).unwrap();
    let oid = register_object(&mut objs, ObjectKind::Endpoint, Rights::read_write());
    let slot = mint_cap_for_process(&mut objs, &mut procs, a, oid, Rights::read_write()).unwrap();
    let moved = cap_transfer_move(&mut objs, &mut procs, a, slot, b).unwrap();
    assert!(get_cap(&procs, a, slot).is_none());
    assert_eq!(get_cap(&procs, b, moved).unwrap().object_id.0, oid.0);
    assert_eq!(objs.cap_transfers, 1);
    assert_eq!(object_generation(&objs, oid).unwrap().0, 1);
    assert!(bump_object_generation(&mut objs, oid));
    assert_eq!(object_generation(&objs, oid).unwrap().0, 2);
    assert!(!bump_object_generation(&mut objs, kernel::kernel_object::ObjectId(42)));
    // The cap minted before the bump no longer validates: moving it back fails.
    assert_eq!(cap_transfer_move(&mut objs, &mut procs, b, moved, a), Err(CapError::InvalidGeneration));
}

#[test]
fn storage_grants_mint_fsnode_caps() {
    let mut objs = KernelObjects::new();
    let mut procs = ProcessTable::new();
    let pid = procs.create_process(Credentials::shell_user()).unwrap();
    let gid = create_storage_grant(&mut objs, 7, Rights(Rights::READ)).unwrap();
    assert_eq!(gid, 1);
    let grant = storage_grant_by_id(&objs, gid).unwrap();
    assert_eq!(grant.rights.0, Rights::READ);
    let slot = mint_cap_from_grant(&mut objs, &mut procs, pid, gid).unwrap();
    let cap = get_cap(&procs, pid, slot).unwrap();
    assert_eq!(cap.kind, ObjectKind::FsNode);
    assert_eq!(cap.object_id.0, grant.object_id.0);
    assert_eq!(mint_cap_from_grant(&mut objs, &mut procs, pid, 99), Err(CapError::NotFound));
    assert!(storage_grant_by_id(&objs, 99).is_none());
}

#[test]
fn kernel_object_smokes_pass_on_a_fresh_table() {
    let mut objs = KernelObjects::new();
    let mut procs = ProcessTable::new();
    assert!(phase111_kernel_object_smoke(&mut objs, &mut procs));
    let mut objs = KernelObjects::new();
    let mut procs = ProcessTable::new();
    assert!(phase112_cap_lifecycle_smoke(&mut objs, &mut procs));
    let mut objs = KernelObjects::new();
    let mut procs = ProcessTable::new();
    assert!(phase113_rights_smoke(&mut objs, &mut procs));
    assert_eq!(objs.amplification_denied, 1);
    let mut objs = KernelObjects::new();
    let mut procs = ProcessTable::new();
    assert!(phase114_storage_grant_smoke(&mut objs, &mut procs));
    let mut procs = ProcessTable::new();
    let first = ensure_smoke_process(&mut procs).unwrap();
    assert_eq!(first.0, 1);
}
