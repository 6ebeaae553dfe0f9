use kernel::demand_paging::{DemandState, FILE_DEMAND_BASE};
use kernel::mmap::{
    finish_anonymous, finish_file, last_mmap_cr3, munmap_address, munmap_status, plan_anonymous, plan_file_readonly,
    remember_cr3, status, MmapState, MMAP_ANON_BASE, MMAP_FILE_PAGE,
};

#[test]
fn writable_executable_anonymous_mapping_is_refused() {
    let mut st = MmapState::new();
    assert_eq!(plan_anonymous(&mut st, 6, 0, None), None);
    assert_eq!(status(&st), (0, 0, 1));
}

#[test]
fn anonymous_mapping_takes_hint_then_region_hint_then_window_base() {
    let mut st = MmapState::new();
    assert_eq!(plan_anonymous(&mut st, 2, 0x700000, Some(0x605000)), Some(0x700000));
    assert_eq!(plan_anonymous(&mut st, 2, 0, Some(0x605000)), Some(0x605000));
    assert_eq!(plan_anonymous(&mut st, 2, 0, None), Some(MMAP_ANON_BASE));
    assert_eq!(status(&st), (0, 0, 0));
    assert_eq!(finish_anonymous(&mut st, MMAP_ANON_BASE, false, true), Ok(MMAP_ANON_BASE));
    assert_eq!(finish_anonymous(&mut st, MMAP_ANON_BASE, true, true), Err(()));
    assert_eq!(finish_anonymous(&mut st, MMAP_ANON_BASE, false, false), Err(()));
    assert_eq!(status(&st), (1, 0, 2));
}

#[test]
fn only_the_backing_file_maps_read_only() {
    let mut st = MmapState::new();
    let mut demand = DemandState::new();
    assert_eq!(plan_file_readonly(&mut st, &mut demand, "/bin/hello", 2), None);
    assert_eq!(plan_file_readonly(&mut st, &mut demand, "/bin/other", 1), None);
    assert!(demand.file_path.is_none());
    assert_eq!(plan_file_readonly(&mut st, &mut demand, "/bin/hello", 1), Some(FILE_DEMAND_BASE + 0x1000));
    assert_eq!(demand.file_path.as_deref(), Some("/bin/hello".as_bytes()));
    assert_eq!(finish_file(&mut st, false), Ok(MMAP_FILE_PAGE));
    assert_eq!(finish_file(&mut st, true), Err(()));
    assert_eq!(status(&st), (0, 1, 3));
}

#[test]
fn munmap_counts_and_names_the_page() {
    let mut st = MmapState::new();
    assert_eq!(munmap_address(&mut st, 0x600abc, true), Ok(0x600000));
    assert_eq!(munmap_address(&mut st, 0x400000, false), Err(()));
    assert_eq!(munmap_status(&st), (1, 1));
    assert_eq!(last_mmap_cr3(&st), None);
    remember_cr3(&mut st, 0x1234000);
    assert_eq!(last_mmap_cr3(&st), Some(0x1234000));
}
