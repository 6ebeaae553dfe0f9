use kernel::block::BlockManager;
use kernel::device::DeviceRegistry;
use kernel::ext2::{
    create_count, create_file, init, is_mounted, read_file, smoke_ext2_create_unlink, smoke_ext2_read,
    smoke_ext2_write, unlink_count, unlink_file, write_count, write_file, Ext2State,
};

fn demo_elf() -> Vec<u8> {
    let mut v = vec![0x7f, b'E', b'L', b'F'];
    for i in 0..296u32 {
        v.push((i % 251) as u8);
    }
    v
}

fn mounted() -> (Ext2State, BlockManager, DeviceRegistry) {
    let mut st = Ext2State::new();
    let mut mgr = BlockManager::new();
    let mut devs = DeviceRegistry::new();
    assert!(init(&mut st, &mut mgr, &mut devs, &demo_elf()));
    (st, mgr, devs)
}

#[test]
fn ext2_formats_and_reads_seed_files() {
    let (st, mut mgr, _) = mounted();
    assert!(is_mounted(&st));
    assert_eq!(read_file(&st, &mut mgr, "smoke.txt").unwrap(), b"ext2 ok\n".to_vec());
    assert_eq!(read_file(&st, &mut mgr, "/ring3-io-demo.elf").unwrap(), demo_elf());
    assert!(read_file(&st, &mut mgr, "missing.txt").is_err());
    assert!(read_file(&st, &mut mgr, "/").is_err());
}

#[test]
fn ext2_read_before_mount_is_refused() {
    let st = Ext2State::new();
    let mut mgr = BlockManager::new();
    assert!(read_file(&st, &mut mgr, "smoke.txt").is_err());
}

#[test]
fn ext2_init_is_idempotent() {
    let (mut st, mut mgr, mut devs) = mounted();
    let device = st.device;
    assert!(init(&mut st, &mut mgr, &mut devs, b"other"));
    assert_eq!(st.device, device);
    assert_eq!(read_file(&st, &mut mgr, "/ring3-io-demo.elf").unwrap(), demo_elf());
}

#[test]
fn ext2_write_reads_back_and_grows() {
    let (mut st, mut mgr, _) = mounted();
    assert!(write_file(&mut st, &mut mgr, "smoke.txt", b"ext2 wr\n").is_ok());
    assert_eq!(read_file(&st, &mut mgr, "smoke.txt").unwrap(), b"ext2 wr\n".to_vec());
    let big: Vec<u8> = (0..1536u32).map(|i| (i % 7) as u8).collect();
    assert!(write_file(&mut st, &mut mgr, "/smoke.txt", &big).is_ok());
    assert_eq!(read_file(&st, &mut mgr, "smoke.txt").unwrap(), big);
    assert!(write_file(&mut st, &mut mgr, "smoke.txt", b"").is_ok());
    assert_eq!(read_file(&st, &mut mgr, "smoke.txt").unwrap(), Vec::<u8>::new());
    assert_eq!(write_count(&st), 3);
    assert_eq!(read_file(&st, &mut mgr, "ring3-io-demo.elf").unwrap(), demo_elf());
}

#[test]
fn ext2_write_refusals() {
    let (mut st, mut mgr, _) = mounted();
    assert!(write_file(&mut st, &mut mgr, "ring3-io-demo.elf", b"bad").is_err());
    assert!(write_file(&mut st, &mut mgr, "smoke.txt", &vec![1u8; 4097]).is_err());
    assert!(write_file(&mut st, &mut mgr, "scratch.txt", b"x").is_err());
    assert_eq!(write_count(&st), 0);
    assert_eq!(read_file(&st, &mut mgr, "smoke.txt").unwrap(), b"ext2 ok\n".to_vec());
}

#[test]
fn ext2_unlink_protects_seed_files() {
    let (mut st, mut mgr, _) = mounted();
    assert!(unlink_file(&mut st, &mut mgr, "smoke.txt").is_err());
    assert!(unlink_file(&mut st, &mut mgr, "ring3-io-demo.elf").is_err());
    assert!(unlink_file(&mut st, &mut mgr, "scratch.txt").is_err());
    assert_eq!(unlink_count(&st), 0);
}

#[test]
fn ext2_create_then_read_then_unlink() {
    let (mut st, mut mgr, _) = mounted();
    assert!(create_file(&mut st, &mut mgr, "smoke.txt", b"x").is_err());
    assert!(create_file(&mut st, &mut mgr, "scratch.txt", b"new file\n").is_ok());
    assert_eq!(create_count(&st), 1);
    assert_eq!(read_file(&st, &mut mgr, "scratch.txt").unwrap(), b"new file\n".to_vec());
    assert!(create_file(&mut st, &mut mgr, "scratch.txt", b"again").is_err());
    let big = vec![0x58u8; 1536];
    assert!(write_file(&mut st, &mut mgr, "scratch.txt", &big).is_ok());
    assert_eq!(read_file(&st, &mut mgr, "scratch.txt").unwrap(), big);
    assert!(unlink_file(&mut st, &mut mgr, "scratch.txt").is_ok());
    assert!(read_file(&st, &mut mgr, "scratch.txt").is_err());
    assert_eq!(read_file(&st, &mut mgr, "smoke.txt").unwrap(), b"ext2 ok\n".to_vec());
}

#[test]
fn ext2_read_and_write_smokes_pass() {
    let mut st = Ext2State::new();
    let mut mgr = BlockManager::new();
    let mut devs = DeviceRegistry::new();
    assert!(smoke_ext2_read(&mut st, &mut mgr, &mut devs, &demo_elf()));
    assert!(smoke_ext2_write(&mut st, &mut mgr, &mut devs, &demo_elf()));
}

#[test]
fn ext2_create_unlink_smoke_passes() {
    let mut st = Ext2State::new();
    let mut mgr = BlockManager::new();
    let mut devs = DeviceRegistry::new();
    assert!(smoke_ext2_create_unlink(&mut st, &mut mgr, &mut devs, &demo_elf()));
}

#[test]
fn ext2_writes_after_create_and_unlink_keep_reading_back() {
    let (mut st, mut mgr, _) = mounted();
    let first: Vec<u8> = (0..1800usize).map(|i| (i % 13) as u8).collect();
    assert!(create_file(&mut st, &mut mgr, "scratch.txt", &first).is_ok());
    for round in 0..3u8 {
        let text: Vec<u8> = (0..(1000 + 700 * round as usize)).map(|i| (i % 11) as u8 + round).collect();
        assert!(write_file(&mut st, &mut mgr, "smoke.txt", &text).is_ok());
        assert!(write_file(&mut st, &mut mgr, "scratch.txt", &text[..500]).is_ok());
        assert_eq!(read_file(&st, &mut mgr, "smoke.txt").unwrap(), text);
        assert_eq!(read_file(&st, &mut mgr, "scratch.txt").unwrap(), text[..500].to_vec());
    }
    assert!(unlink_file(&mut st, &mut mgr, "scratch.txt").is_ok());
    assert!(read_file(&st, &mut mgr, "scratch.txt").is_err());
    let last: Vec<u8> = (0..3000usize).map(|i| (i % 7) as u8).collect();
    assert!(write_file(&mut st, &mut mgr, "smoke.txt", &last).is_ok());
    assert_eq!(read_file(&st, &mut mgr, "smoke.txt").unwrap(), last);
    assert_eq!(read_file(&st, &mut mgr, "ring3-io-demo.elf").unwrap(), demo_elf());
    // The cleared entry still names the file, so it cannot be created again.
    assert!(create_file(&mut st, &mut mgr, "scratch.txt", b"again").is_err());
    assert_eq!(create_count(&st), 1);
    assert_eq!(unlink_count(&st), 1);
    assert_eq!(write_count(&st), 7);
}
