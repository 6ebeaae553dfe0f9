use kernel::pipe::{commit_pipe_read, peek_pipe};
use kernel::fd_table::FdState;
use kernel::pipe::{
    pipe_create_for_process, pipe_readable, pipe_syscall, poll_status, poll_syscall, read_pipe, smoke_pipe_lite,
    smoke_pipe_probe, smoke_poll_lite, status, write_pipe, write_pipe_kernel, PipeTable, PIPE_CAPACITY,
    SMOKE_USER_BUF,
};
use kernel::process::ProcessTable;
use kernel::security::{Credentials, SecurityState};
use kernel::storage::FileStore;

#[test]
fn pipe_bytes_come_out_in_order_across_reads() {
    let mut t = PipeTable::new();
    assert_eq!(write_pipe_kernel(&mut t, 1, b"abcdef"), Ok(6));
    assert!(pipe_readable(&t, 1));
    assert!(!pipe_readable(&t, 0));
    assert_eq!(read_pipe(&mut t, 1, SMOKE_USER_BUF, 4).unwrap(), b"abcd".to_vec());
    assert_eq!(write_pipe_kernel(&mut t, 1, b"gh"), Ok(2));
    assert_eq!(read_pipe(&mut t, 1, SMOKE_USER_BUF, 64).unwrap(), b"efgh".to_vec());
    assert!(read_pipe(&mut t, 1, SMOKE_USER_BUF, 64).unwrap().is_empty());
    assert_eq!(status(&t), (0, 16));
}

#[test]
fn pipe_writes_respect_capacity_and_ids() {
    let mut t = PipeTable::new();
    let full = vec![7u8; PIPE_CAPACITY];
    assert_eq!(write_pipe_kernel(&mut t, 0, &full), Ok(PIPE_CAPACITY));
    assert_eq!(write_pipe_kernel(&mut t, 0, b"x"), Err(()));
    assert_eq!(write_pipe_kernel(&mut t, 9, b"x"), Err(()));
    assert!(read_pipe(&mut t, 9, SMOKE_USER_BUF, 4).is_err());
    assert!(read_pipe(&mut t, 0, 0, 4).is_err());
    assert!(read_pipe(&mut t, 0, SMOKE_USER_BUF, 0).is_err());
    assert_eq!(write_pipe(&mut t, 2, SMOKE_USER_BUF, 3, b"hello"), Ok(3));
    assert_eq!(read_pipe(&mut t, 2, SMOKE_USER_BUF, 8).unwrap(), b"hel".to_vec());
    assert!(write_pipe(&mut t, 2, SMOKE_USER_BUF, 8, b"hi").is_err());
    assert!(write_pipe(&mut t, 2, 0, 2, b"hi").is_err());
}

#[test]
fn pipe_creation_opens_both_ends_and_poll_sees_data() {
    let mut t = PipeTable::new();
    let mut fds = FdState::new();
    let mut procs = ProcessTable::new();
    let pid = procs.create_process(Credentials::shell_user()).unwrap();
    let (rfd, wfd, id) = pipe_create_for_process(&mut t, &mut fds, &mut procs, pid).unwrap();
    assert_eq!((rfd, wfd, id), (0, 1, 0));
    procs.set_current_process_id(Some(pid));
    assert_eq!(poll_syscall(&mut t, &procs, rfd as u64, 1), Ok(0));
    assert_eq!(write_pipe_kernel(&mut t, id, b"z"), Ok(1));
    assert_eq!(poll_syscall(&mut t, &procs, rfd as u64, 1), Ok(1));
    assert_eq!(poll_syscall(&mut t, &procs, rfd as u64, 0), Ok(0));
    assert!(poll_syscall(&mut t, &procs, wfd as u64, 1).is_err());
    assert!(poll_syscall(&mut t, &procs, 7, 1).is_err());
    assert_eq!(poll_status(&t), (5, 1));
    assert!(pipe_syscall(&mut t, &mut fds, &mut procs, 0, 8).is_err());
    let (r2, w2) = pipe_syscall(&mut t, &mut fds, &mut procs, 8, 16).unwrap();
    assert_eq!((r2, w2), (2, 3));
    assert_eq!(status(&t).0, 2);
}

#[test]
fn pipe_smokes_pass_on_a_fresh_table() {
    let sec = SecurityState::new();
    let mut store = FileStore::new();
    let mut t = PipeTable::new();
    let mut fds = FdState::new();
    let mut procs = ProcessTable::new();
    assert!(smoke_pipe_lite(&mut t, &mut fds, &mut procs, &mut store, &sec));
    assert!(smoke_poll_lite(&mut t, &mut fds, &mut procs));
    assert!(smoke_pipe_probe(&mut t, &mut fds, &mut procs, &store, &sec));
    assert!(procs.smoke_process_id().is_none());
}

#[test]
fn peeked_bytes_stay_queued_until_committed() {
    let mut t = PipeTable::new();
    assert_eq!(write_pipe_kernel(&mut t, 3, b"peekme"), Ok(6));
    assert_eq!(peek_pipe(&t, 3, SMOKE_USER_BUF, 4).unwrap(), b"peek".to_vec());
    assert_eq!(peek_pipe(&t, 3, SMOKE_USER_BUF, 4).unwrap(), b"peek".to_vec());
    assert_eq!(status(&t).1, 6);
    assert_eq!(commit_pipe_read(&mut t, 3, 4), Ok(()));
    assert_eq!(peek_pipe(&t, 3, SMOKE_USER_BUF, 64).unwrap(), b"me".to_vec());
    assert!(peek_pipe(&t, 3, 0, 4).is_err());
    assert!(commit_pipe_read(&mut t, 9, 1).is_err());
}
