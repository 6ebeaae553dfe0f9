//! Loopback network stack: ping accounting and installed packages.
use vstd::prelude::*;

use crate::bytes::bytes_eq;
use crate::counter::{bump, bumped};

verus! {

pub struct NetworkStackState {
    pub pings: u64,
    pub packages: u64,
    pub external_routes: u64,
}

impl NetworkStackState {
    pub fn new() -> (r: Self)
        ensures
            r.pings == 0 && r.packages == 0 && r.external_routes == 0,
    {
        NetworkStackState { pings: 0, packages: 0, external_routes: 0 }
    }
}

/// A loopback ping succeeds when the `ping` was sent and the reply read
/// back is `pong`; successes are counted.
pub fn loopback_ping(st: &mut NetworkStackState, sent: bool, reply: Option<&[u8]>) -> (r: bool)
    ensures
        r == (sent && reply is Some && reply->Some_0@ == seq![112u8, 111u8, 110u8, 103u8]),
        r ==> final(st).pings == bumped(old(st).pings),
        !r ==> final(st).pings == old(st).pings,
        final(st).packages == old(st).packages && final(st).external_routes == old(st).external_routes,
{
    let pong: [u8; 4] = [112u8, 111u8, 110u8, 103u8];
    let ok = sent && match reply {
        Some(bytes) => bytes_eq(bytes, &pong),
        None => false,
    };
    if ok {
        st.pings = bump(st.pings);
    }
    ok
}

pub fn ping_count(st: &NetworkStackState) -> (r: u64)
    ensures
        r == st.pings,
{
    st.pings
}

pub fn mark_package_installed(st: &mut NetworkStackState)
    ensures
        final(st).packages == bumped(old(st).packages),
        final(st).pings == old(st).pings && final(st).external_routes == old(st).external_routes,
{
    st.packages = bump(st.packages);
}

pub fn packages_installed(st: &NetworkStackState) -> (r: u64)
    ensures
        r == st.packages,
{
    st.packages
}

} // verus!
