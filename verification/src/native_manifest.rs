//! `clan-native-v1` manifests: a named service and the scoped grants it
//! asks for, loaded only within the rights the broker grants.
use vstd::prelude::*;

use crate::counter::{bump, bumped};
use crate::kernel_object::{rights_contain, Rights};

verus! {

#[derive(Debug, Clone, Copy)]
pub struct ScopedGrant {
    pub kind_tag: &'static str,
    pub rights_mask: u32,
}

pub struct NativeManifestV1 {
    pub name: &'static str,
    pub grants: Vec<ScopedGrant>,
}

impl NativeManifestV1 {
    /// A manifest names its service and asks for at least one grant.
    pub open spec fn spec_valid(&self) -> bool {
        self.name@.len() > 0 && self.grants@.len() > 0
    }

    /// Every grant's rights lie within `allowed`.
    pub open spec fn spec_within(&self, allowed: Rights) -> bool {
        forall|i: int| 0 <= i < self.grants@.len() ==> rights_contain(allowed, Rights(#[trigger] self.grants@[i].rights_mask))
    }

    pub fn validate(&self) -> (r: bool)
        ensures
            r == self.spec_valid(),
    {
        !self.name.is_empty() && self.grants.len() > 0
    }

    pub fn grants_within(&self, allowed: Rights) -> (r: bool)
        ensures
            r == self.spec_within(allowed),
    {
        let mut i: usize = 0;
        while i < self.grants.len()
            invariant
                i <= self.grants@.len(),
                forall|k: int| 0 <= k < i ==> rights_contain(allowed, Rights(#[trigger] self.grants@[k].rights_mask)),
            decreases self.grants@.len() - i,
        {
            if !allowed.contains(Rights(self.grants[i].rights_mask)) {
                return false;
            }
            i += 1;
        }
        true
    }
}

pub struct ManifestState {
    pub loads: u64,
    pub rejections: u64,
}

impl ManifestState {
    pub fn new() -> (r: Self)
        ensures
            r.loads == 0 && r.rejections == 0,
    {
        ManifestState { loads: 0, rejections: 0 }
    }
}

pub fn manifest_load_count(st: &ManifestState) -> (r: u64)
    ensures
        r == st.loads,
{
    st.loads
}

pub fn manifest_rejection_count(st: &ManifestState) -> (r: u64)
    ensures
        r == st.rejections,
{
    st.rejections
}

/// Load a manifest: it must be valid and ask for no right beyond what the
/// broker grants; otherwise it is rejected (and counted).
pub fn load_native_manifest(st: &mut ManifestState, manifest: &NativeManifestV1, broker_rights: Rights) -> (r: bool)
    ensures
        r == (manifest.spec_valid() && manifest.spec_within(broker_rights)),
        r ==> final(st).loads == bumped(old(st).loads) && final(st).rejections == old(st).rejections,
        !r ==> final(st).rejections == bumped(old(st).rejections) && final(st).loads == old(st).loads,
{
    if !manifest.validate() || !manifest.grants_within(broker_rights) {
        st.rejections = bump(st.rejections);
        return false;
    }
    st.loads = bump(st.loads);
    true
}

/// The demo service's manifest: one read-write service grant.
pub fn demo_manifest() -> (r: NativeManifestV1)
    ensures
        r.name@ == "demo-service"@,
        r.grants@.len() == 1,
        r.grants@[0].rights_mask == 3,
{
    let mut grants: Vec<ScopedGrant> = Vec::new();
    grants.push(ScopedGrant { kind_tag: "kernel.service", rights_mask: Rights::READ | Rights::WRITE });
    assert((1u32 | 2u32) == 3u32) by (bit_vector);
    NativeManifestV1 { name: "demo-service", grants }
}

/// Manifest smoke: the demo manifest loads under read-write, and a manifest
/// asking for revoke is rejected under read-only.
pub fn smoke_g4_smoke(st: &mut ManifestState) -> (r: bool)
    ensures
        old(st).loads < u64::MAX && old(st).rejections < u64::MAX ==> r,
        r == (old(st).loads < u64::MAX && old(st).rejections < u64::MAX),
        final(st).loads == bumped(old(st).loads),
        final(st).rejections == bumped(old(st).rejections),
{
    proof {
        reveal_strlit("demo-service");
        reveal_strlit("bad");
    }
    let demo = demo_manifest();
    assert((3u32 & 3u32) == 3u32) by (bit_vector);
    assert(demo.name@.len() > 0);
    assert(rights_contain(Rights(3), Rights(demo.grants@[0].rights_mask)));
    assert(demo.spec_within(Rights(3)));
    let ok = load_native_manifest(st, &demo, Rights::read_write());
    let mut grants: Vec<ScopedGrant> = Vec::new();
    grants.push(ScopedGrant { kind_tag: "kernel.service", rights_mask: Rights::READ | Rights::WRITE | Rights::REVOKE });
    assert((1u32 | 2u32 | 16u32) == 19u32) by (bit_vector);
    assert((1u32 & 19u32) != 19u32) by (bit_vector);
    let bad_manifest = NativeManifestV1 { name: "bad", grants };
    assert(bad_manifest.grants@[0].rights_mask == 19);
    assert(!rights_contain(Rights(1), Rights(bad_manifest.grants@[0].rights_mask)));
    let bad = !load_native_manifest(st, &bad_manifest, Rights(Rights::READ));
    ok && bad && manifest_load_count(st) > 0 && manifest_rejection_count(st) > 0
}

/// Scoped-grant smoke: an endpoint read grant and a block-device read+map
/// grant load under all rights.
pub fn smoke_scoped_grants(st: &mut ManifestState) -> (r: bool)
    ensures
        r,
        final(st).loads == bumped(old(st).loads),
{
    proof {
        reveal_strlit("scoped");
    }
    let mut grants: Vec<ScopedGrant> = Vec::new();
    grants.push(ScopedGrant { kind_tag: "kernel.endpoint", rights_mask: Rights::READ });
    grants.push(ScopedGrant { kind_tag: "device.block", rights_mask: Rights::READ | Rights::MAP });
    assert((1u32 | 4u32) == 5u32) by (bit_vector);
    assert((31u32 & 1u32) == 1u32) by (bit_vector);
    assert((31u32 & 5u32) == 5u32) by (bit_vector);
    let manifest = NativeManifestV1 { name: "scoped", grants };
    load_native_manifest(st, &manifest, Rights::all_for_smoke())
}

} // verus!
