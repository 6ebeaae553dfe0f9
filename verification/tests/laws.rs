use kernel::ipc_endpoints::{endpoint_recv_count, EndpointError};
use kernel::block_cache::{read_sector, status as cache_status, write_sector, SectorCache};
use kernel::audit_wire::{serialize_event, WireAuditEvent};
use kernel::bytes::{decimal_bytes, parse_u32};
use kernel::ipc_endpoints::{create_endpoint, recv, send, IpcEndpoints};
use kernel::mouse::{inject_event, poll_event, MouseState, MOUSE_QUEUE_SIZE};
use kernel::pipe::{is_pipe_read, is_pipe_write, pipe_id_from_path};
use kernel::process::ProcessId;

#[test]
fn pipe_paths_name_their_pipe() {
    assert_eq!(pipe_id_from_path(b"/@pipe/7/r"), Some(7));
    assert_eq!(pipe_id_from_path(b"/@pipe/4294967295/w"), Some(4294967295));
    assert_eq!(pipe_id_from_path(b"/tmp/x"), None);
    assert!(is_pipe_read(b"/@pipe/7/r"));
    assert!(!is_pipe_read(b"/@pipe/7/w"));
    assert!(is_pipe_write(b"/@pipe/7/w"));
}

#[test]
fn decimal_round_trip() {
    assert_eq!(decimal_bytes(0), b"0".to_vec());
    assert_eq!(decimal_bytes(123), b"123".to_vec());
    assert_eq!(parse_u32(&decimal_bytes(4294967295)), Some(4294967295));
    assert_eq!(parse_u32(b"+42"), Some(42));
    assert_eq!(parse_u32(b""), None);
    assert_eq!(parse_u32(b"4294967296"), None);
    assert_eq!(parse_u32(b"12a"), None);
}

#[test]
fn endpoint_messages_come_out_in_order() {
    let mut eps = IpcEndpoints::new();
    let ep = create_endpoint(&mut eps);
    assert!(send(&mut eps, ep, ProcessId(3), b"first").is_ok());
    assert!(send(&mut eps, ep, ProcessId(4), b"second").is_ok());
    let a = recv(&mut eps, ep).unwrap();
    let b = recv(&mut eps, ep).unwrap();
    assert_eq!(a.payload, b"first".to_vec());
    assert_eq!(b.payload, b"second".to_vec());
    assert!(recv(&mut eps, ep).is_err());
}

#[test]
fn audit_events_serialize_little_endian() {
    let ev = WireAuditEvent { correlation_id: 0x0102030405060708, error_code: 0x0a0b0c0d, error_class: 9, schema: "audit" };
    assert_eq!(
        serialize_event(&ev),
        vec![8, 7, 6, 5, 4, 3, 2, 1, 0x0d, 0x0c, 0x0b, 0x0a, 9]
    );
}

#[test]
fn mouse_events_queue_in_order_and_cap() {
    let mut st = MouseState::new();
    inject_event(&mut st, 10, 20, 1);
    inject_event(&mut st, -5, 900, 0);
    let first = poll_event(&mut st).unwrap();
    assert_eq!((first.x, first.y, first.buttons), (10, 20, 1));
    let second = poll_event(&mut st).unwrap();
    assert_eq!((second.x, second.y), (-5, 900));
    assert!(poll_event(&mut st).is_none());
    for i in 0..(MOUSE_QUEUE_SIZE as i16 + 5) {
        inject_event(&mut st, i, i, 0);
    }
    let mut n = 0;
    while poll_event(&mut st).is_some() {
        n += 1;
    }
    assert_eq!(n, MOUSE_QUEUE_SIZE);
}

#[test]
fn endpoint_hands_out_messages_in_send_order() {
    let mut s = IpcEndpoints::new();
    let ep = create_endpoint(&mut s);
    for m in [b"one".as_slice(), b"two".as_slice(), b"three".as_slice()] {
        assert_eq!(send(&mut s, ep, ProcessId(4), m), Ok(()));
    }
    for m in [b"one".as_slice(), b"two".as_slice(), b"three".as_slice()] {
        let got = recv(&mut s, ep).ok().unwrap();
        assert_eq!(got.sender, ProcessId(4));
        assert_eq!(got.payload, m.to_vec());
    }
    assert!(matches!(recv(&mut s, ep), Err(EndpointError::Empty)));
    assert_eq!(endpoint_recv_count(&s), 3);
}

#[test]
fn cached_sector_read_misses_after_a_write() {
    let mut c = SectorCache::new();
    let mut buf = [0u8; 512];
    let mut disk = [7u8; 512];
    assert!(read_sector(&mut c, 5, &mut buf, |_s| Ok(disk)).is_ok());
    assert_eq!(cache_status(&c), (0, 1));
    assert!(read_sector(&mut c, 5, &mut buf, |_s| Ok([0u8; 512])).is_ok());
    assert_eq!(cache_status(&c), (1, 1));
    assert_eq!(buf, [7u8; 512]);
    disk = [9u8; 512];
    assert!(write_sector(&mut c, 5, &disk, |_s, _b| Ok(())).is_ok());
    assert!(read_sector(&mut c, 5, &mut buf, |_s| Ok(disk)).is_ok());
    assert_eq!(cache_status(&c), (1, 2));
    assert_eq!(buf, [9u8; 512]);
}
