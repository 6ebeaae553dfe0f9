//! Compat TCP/UDP and multi-fd select stubs.
use vstd::prelude::*;

use crate::counter::{bump, bumped};

verus! {

pub const COMPAT_SOCKET_SCHEMA: &'static str = "compat.socket.v1";

/// Call counters of the compat socket stubs.
pub struct CompatSocketState {
    pub tcp_connects: u64,
    pub udp_sends: u64,
    pub select_calls: u64,
}

impl CompatSocketState {
    pub fn new() -> (r: Self)
        ensures
            r.tcp_connects == 0 && r.udp_sends == 0 && r.select_calls == 0,
    {
        CompatSocketState { tcp_connects: 0, udp_sends: 0, select_calls: 0 }
    }
}

/// Always connects, on descriptor 1.
pub fn tcp_connect_stub(s: &mut CompatSocketState, _host: &str, _port: u16) -> (r: Result<u32, ()>)
    ensures
        r == Ok::<u32, ()>(1),
        final(s).tcp_connects == bumped(old(s).tcp_connects),
        final(s).udp_sends == old(s).udp_sends,
        final(s).select_calls == old(s).select_calls,
{
    s.tcp_connects = bump(s.tcp_connects);
    Ok(1)
}

pub fn udp_send_stub(s: &mut CompatSocketState, _port: u16, _payload: &[u8]) -> (r: Result<(), ()>)
    ensures
        r == Ok::<(), ()>(()),
        final(s).udp_sends == bumped(old(s).udp_sends),
        final(s).tcp_connects == old(s).tcp_connects,
        final(s).select_calls == old(s).select_calls,
{
    s.udp_sends = bump(s.udp_sends);
    Ok(())
}

/// Reports the first descriptor as ready (0 when none is given).
pub fn select_multi_fd_stub(s: &mut CompatSocketState, fds: &[u32]) -> (r: usize)
    ensures
        fds@.len() == 0 ==> r == 0,
        fds@.len() > 0 ==> r == fds@[0] as usize,
        final(s).select_calls == bumped(old(s).select_calls),
        final(s).tcp_connects == old(s).tcp_connects,
        final(s).udp_sends == old(s).udp_sends,
{
    s.select_calls = bump(s.select_calls);
    if fds.len() == 0 {
        0
    } else {
        fds[0] as usize
    }
}

pub fn compat_socket_calls(s: &CompatSocketState) -> (r: (u64, u64, u64))
    ensures
        r == (s.tcp_connects, s.udp_sends, s.select_calls),
{
    (s.tcp_connects, s.udp_sends, s.select_calls)
}

pub fn phase402_compat_socket_smoke(s: &mut CompatSocketState) -> (r: bool)
    ensures
        final(s).tcp_connects == bumped(old(s).tcp_connects),
        final(s).udp_sends == bumped(old(s).udp_sends),
        final(s).select_calls == bumped(old(s).select_calls),
        r == (old(s).tcp_connects != u64::MAX && old(s).udp_sends != u64::MAX && old(s).select_calls != u64::MAX),
{
    let tcp = tcp_connect_stub(s, "127.0.0.1", 80).is_ok();
    let udp = udp_send_stub(s, 53, &[0x70u8, 0x69, 0x6e, 0x67]).is_ok();
    let fds: [u32; 2] = [1, 2];
    let sel = select_multi_fd_stub(s, &fds) > 0;
    let (t, u, c) = compat_socket_calls(s);
    tcp && udp && sel && t > 0 && u > 0 && c > 0
}

} // verus!
