//! Userspace driver host stub.
use vstd::prelude::*;

use crate::counter::{bump, bumped};

verus! {

/// Number of userspace drivers mounted.
pub struct DriverHostState {
    pub driver_mounts: u64,
}

impl DriverHostState {
    pub fn new() -> (r: Self)
        ensures
            r.driver_mounts == 0,
    {
        DriverHostState { driver_mounts: 0 }
    }
}

pub fn driver_mount_count(s: &DriverHostState) -> (r: u64)
    ensures
        r == s.driver_mounts,
{
    s.driver_mounts
}

/// Driver id 0 is reserved and refused.
pub fn mount_userspace_driver(s: &mut DriverHostState, driver_id: u32) -> (r: bool)
    ensures
        r == (driver_id != 0),
        r ==> final(s).driver_mounts == bumped(old(s).driver_mounts),
        !r ==> final(s).driver_mounts == old(s).driver_mounts,
{
    if driver_id == 0 {
        return false;
    }
    s.driver_mounts = bump(s.driver_mounts);
    true
}

pub fn epoch11_driver_graduated(s: &mut DriverHostState) -> (r: bool)
    ensures
        final(s).driver_mounts == bumped(old(s).driver_mounts),
        r == (old(s).driver_mounts != u64::MAX),
{
    mount_userspace_driver(s, 1) && driver_mount_count(s) > 0
}

} // verus!
