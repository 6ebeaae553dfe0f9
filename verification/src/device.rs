//! Device registry and PCI discovery: devices are numbered in registration
//! order, and a PCI scan registers every function that answers.
use vstd::prelude::*;

use crate::counter::{bump, bumped};

verus! {

#[derive(Debug, Clone, Copy, PartialEq, Eq, Structural)]
pub struct DeviceId(pub u64);

impl DeviceId {
    pub fn from_raw(raw: u64) -> (r: Self)
        ensures
            r.0 == raw,
    {
        Self(raw)
    }

    pub fn as_u64(self) -> (r: u64)
        ensures
            r == self.0,
    {
        self.0
    }
}

#[derive(Debug, Clone, Copy, PartialEq, Eq, Structural)]
pub enum DeviceKind {
    Pci,
    Block,
    Storage,
    Unknown,
}

#[derive(Debug, Clone, Copy, PartialEq, Eq, Structural)]
pub enum DeviceState {
    Discovered,
    Ready,
    Error,
}

pub struct DeviceInfo {
    pub id: DeviceId,
    pub name: String,
    pub kind: DeviceKind,
    pub state: DeviceState,
    pub vendor_id: Option<u16>,
    pub device_id: Option<u16>,
    pub class_code: Option<u8>,
    pub subclass: Option<u8>,
    pub bus: Option<u8>,
    pub slot: Option<u8>,
    pub function: Option<u8>,
}

#[derive(Debug, Clone, Copy, PartialEq, Eq, Structural)]
pub enum DeviceError {
    NotFound,
}

#[derive(Debug, Clone, Copy, PartialEq, Eq, Structural)]
pub struct DeviceSummary {
    pub total: usize,
    pub pci: usize,
    pub block: usize,
    pub storage: usize,
}

/// The registry: the next id to hand out and the devices in registration
/// order.
pub struct DeviceRegistry {
    pub next_id: u64,
    pub devices: Vec<DeviceInfo>,
}

/// Two device records agree on every field (names by their text).
pub open spec fn same_info(a: DeviceInfo, b: DeviceInfo) -> bool {
    &&& a.id == b.id
    &&& a.name@ == b.name@
    &&& a.kind == b.kind
    &&& a.state == b.state
    &&& a.vendor_id == b.vendor_id
    &&& a.device_id == b.device_id
    &&& a.class_code == b.class_code
    &&& a.subclass == b.subclass
    &&& a.bus == b.bus
    &&& a.slot == b.slot
    &&& a.function == b.function
}

fn copy_info(info: &DeviceInfo) -> (r: DeviceInfo)
    ensures
        same_info(r, *info),
{
    DeviceInfo {
        id: info.id,
        name: info.name.clone(),
        kind: info.kind,
        state: info.state,
        vendor_id: info.vendor_id,
        device_id: info.device_id,
        class_code: info.class_code,
        subclass: info.subclass,
        bus: info.bus,
        slot: info.slot,
        function: info.function,
    }
}

impl DeviceRegistry {
    pub fn new() -> (r: Self)
        ensures
            r.next_id == 1,
            r.devices@.len() == 0,
    {
        DeviceRegistry { next_id: 1, devices: Vec::new() }
    }

    /// Forget every device and restart numbering.
    pub fn clear(&mut self)
        ensures
            final(self).next_id == 1,
            final(self).devices@.len() == 0,
    {
        self.next_id = 1;
        self.devices = Vec::new();
    }
}

/// Register a device and return its id; a location gives its PCI bus, slot
/// and function.
pub fn register_device(
    reg: &mut DeviceRegistry,
    name: &str,
    kind: DeviceKind,
    state: DeviceState,
    vendor_id: Option<u16>,
    device_id: Option<u16>,
    class_code: Option<u8>,
    subclass: Option<u8>,
    location: Option<(u8, u8, u8)>,
) -> (r: DeviceId)
    ensures
        r.0 == old(reg).next_id,
        final(reg).next_id == bumped(old(reg).next_id),
        final(reg).devices@.len() == old(reg).devices@.len() + 1,
        forall|i: int| 0 <= i < old(reg).devices@.len() ==> #[trigger] final(reg).devices@[i] == old(reg).devices@[i],
        ({
            let d = final(reg).devices@.last();
            &&& d.id == r
            &&& d.name@ == name@
            &&& d.kind == kind
            &&& d.state == state
            &&& d.vendor_id == vendor_id
            &&& d.device_id == device_id
            &&& d.class_code == class_code
            &&& d.subclass == subclass
            &&& d.bus == (match location { Some(l) => Some(l.0), None => None::<u8> })
            &&& d.slot == (match location { Some(l) => Some(l.1), None => None::<u8> })
            &&& d.function == (match location { Some(l) => Some(l.2), None => None::<u8> })
        }),
{
    let (bus, slot, function) = match location {
        Some((b, s, f)) => (Some(b), Some(s), Some(f)),
        None => (None, None, None),
    };
    let id = DeviceId(reg.next_id);
    reg.next_id = bump(reg.next_id);
    reg.devices.push(
        DeviceInfo {
            id,
            name: name.to_owned(),
            kind,
            state,
            vendor_id,
            device_id,
            class_code,
            subclass,
            bus,
            slot,
            function,
        },
    );
    id
}

/// A copy of every registered device, in registration order.
pub fn list_devices(reg: &DeviceRegistry) -> (r: Vec<DeviceInfo>)
    ensures
        r@.len() == reg.devices@.len(),
        forall|i: int| 0 <= i < r@.len() ==> same_info(#[trigger] r@[i], reg.devices@[i]),
{
    let mut out: Vec<DeviceInfo> = Vec::new();
    let mut i: usize = 0;
    while i < reg.devices.len()
        invariant
            i <= reg.devices@.len(),
            out@.len() == i,
            forall|k: int| 0 <= k < i ==> same_info(#[trigger] out@[k], reg.devices@[k]),
        decreases reg.devices@.len() - i,
    {
        out.push(copy_info(&reg.devices[i]));
        i += 1;
    }
    out
}

/// The first device registered under `id`.
pub fn get_device(reg: &DeviceRegistry, id: DeviceId) -> (r: Result<DeviceInfo, DeviceError>)
    ensures
        r is Err <==> forall|i: int| 0 <= i < reg.devices@.len() ==> (#[trigger] reg.devices@[i]).id != id,
        r is Err ==> r == Err::<DeviceInfo, DeviceError>(DeviceError::NotFound),
        r is Ok ==> exists|i: int| 0 <= i < reg.devices@.len() && (#[trigger] reg.devices@[i]).id == id
            && same_info(r->Ok_0, reg.devices@[i])
            && forall|j: int| 0 <= j < i ==> (#[trigger] reg.devices@[j]).id != id,
{
    let mut i: usize = 0;
    while i < reg.devices.len()
        invariant
            i <= reg.devices@.len(),
            forall|j: int| 0 <= j < i ==> (#[trigger] reg.devices@[j]).id != id,
        decreases reg.devices@.len() - i,
    {
        if reg.devices[i].id == id {
            let r = copy_info(&reg.devices[i]);
            assert(reg.devices@[i as int].id == id);
            return Ok(r);
        }
        i += 1;
    }
    Err(DeviceError::NotFound)
}

/// Number of devices of `kind`.
pub open spec fn count_kind(devs: Seq<DeviceInfo>, kind: DeviceKind) -> nat
    decreases devs.len(),
{
    if devs.len() == 0 {
        0
    } else {
        count_kind(devs.drop_last(), kind) + if devs.last().kind == kind {
            1nat
        } else {
            0nat
        }
    }
}

proof fn lemma_count_kind_bound(devs: Seq<DeviceInfo>, kind: DeviceKind)
    ensures
        count_kind(devs, kind) <= devs.len(),
    decreases devs.len(),
{
    if devs.len() > 0 {
        lemma_count_kind_bound(devs.drop_last(), kind);
    }
}

fn count_of_kind(devs: &Vec<DeviceInfo>, kind: DeviceKind) -> (r: usize)
    ensures
        r == count_kind(devs@, kind),
{
    let mut n: usize = 0;
    let mut i: usize = 0;
    while i < devs.len()
        invariant
            i <= devs@.len(),
            n == count_kind(devs@.subrange(0, i as int), kind),
            n <= i,
        decreases devs@.len() - i,
    {
        assert(devs@.subrange(0, i + 1).drop_last() =~= devs@.subrange(0, i as int));
        if devs[i].kind == kind {
            n += 1;
        }
        i += 1;
    }
    assert(devs@.subrange(0, devs@.len() as int) =~= devs@);
    n
}

/// Device counts: all, PCI, block and storage.
pub fn summary(reg: &DeviceRegistry) -> (r: DeviceSummary)
    ensures
        r.total == reg.devices@.len(),
        r.pci == count_kind(reg.devices@, DeviceKind::Pci),
        r.block == count_kind(reg.devices@, DeviceKind::Block),
        r.storage == count_kind(reg.devices@, DeviceKind::Storage),
{
    DeviceSummary {
        total: reg.devices.len(),
        pci: count_of_kind(&reg.devices, DeviceKind::Pci),
        block: count_of_kind(&reg.devices, DeviceKind::Block),
        storage: count_of_kind(&reg.devices, DeviceKind::Storage),
    }
}

/// The name a PCI function is registered under, by class and subclass.
pub fn classify_pci_device(class_code: u8, subclass: u8) -> (r: &'static str)
    ensures
        class_code == 1 && subclass == 1 ==> r@ == "pci-ide-controller"@,
        class_code == 1 && subclass == 6 ==> r@ == "pci-sata-controller"@,
        class_code == 1 && subclass == 8 ==> r@ == "pci-nvme-controller"@,
        class_code == 2 ==> r@ == "pci-network-controller"@,
        class_code == 3 ==> r@ == "pci-display-controller"@,
        class_code == 6 && subclass == 0 ==> r@ == "pci-host-bridge"@,
        class_code == 6 && subclass == 1 ==> r@ == "pci-isa-bridge"@,
        !(class_code == 1 && (subclass == 1 || subclass == 6 || subclass == 8)) && class_code != 2
            && class_code != 3 && !(class_code == 6 && (subclass == 0 || subclass == 1)) ==> r@
            == "pci-device"@,
{
    if class_code == 1 && subclass == 1 {
        "pci-ide-controller"
    } else if class_code == 1 && subclass == 6 {
        "pci-sata-controller"
    } else if class_code == 1 && subclass == 8 {
        "pci-nvme-controller"
    } else if class_code == 2 {
        "pci-network-controller"
    } else if class_code == 3 {
        "pci-display-controller"
    } else if class_code == 6 && subclass == 0 {
        "pci-host-bridge"
    } else if class_code == 6 && subclass == 1 {
        "pci-isa-bridge"
    } else {
        "pci-device"
    }
}

/// The configuration-space address of a register of a PCI function.
pub fn pci_config_address(bus: u8, slot: u8, function: u8, offset: u8) -> (r: u32)
    ensures
        r == 0x8000_0000u32 | ((bus as u32) << 16u32) | ((slot as u32) << 11u32) | ((function as u32) << 8u32) | ((offset as u32) & 0xfcu32),
{
    0x8000_0000u32 | ((bus as u32) << 16u32) | ((slot as u32) << 11u32) | ((function as u32) << 8u32) | ((offset as u32) & 0xfcu32)
}

/// The byte at `offset` of a configuration dword.
pub fn config_byte(dword: u32, offset: u8) -> (r: u8)
    ensures
        r == ((dword >> (((offset & 3u8) as u32) * 8)) & 0xffu32) as u8,
{
    assert(offset & 3u8 <= 3u8) by (bit_vector);
    let shift: u32 = ((offset & 3u8) as u32) * 8;
    ((dword >> shift) & 0xffu32) as u8
}

/// The 16-bit word at `offset` of a configuration dword.
pub fn config_word(dword: u32, offset: u8) -> (r: u16)
    ensures
        r == ((dword >> (((offset & 2u8) as u32) * 8)) & 0xffffu32) as u16,
{
    assert(offset & 2u8 <= 2u8) by (bit_vector);
    let shift: u32 = ((offset & 2u8) as u32) * 8;
    ((dword >> shift) & 0xffffu32) as u16
}

/// The two configuration dwords a scan reads from one PCI function: the
/// identity dword (offset 0) and the class dword (offset 8).
#[derive(Debug, Clone, Copy)]
pub struct PciProbe {
    pub id_dword: u32,
    pub class_dword: u32,
}

/// Number of functions a scan of bus 0 visits: 32 slots of 8 functions.
pub const PCI_SCAN_FUNCTIONS: usize = 256;

/// The functions of a scan that answered (vendor id other than `0xffff`).
pub open spec fn answered(probes: Seq<PciProbe>) -> nat
    decreases probes.len(),
{
    if probes.len() == 0 {
        0
    } else {
        answered(probes.drop_last()) + if (probes.last().id_dword & 0xffffu32) != 0xffffu32 {
            1nat
        } else {
            0nat
        }
    }
}

/// Whether a PCI function answered the identity read.
pub open spec fn probe_answers(p: PciProbe) -> bool {
    (p.id_dword & 0xffffu32) != 0xffffu32
}

/// The indices (`slot * 8 + function`) of the probes that answered, in
/// probe order.
pub open spec fn answered_at(probes: Seq<PciProbe>) -> Seq<int>
    decreases probes.len(),
{
    if probes.len() == 0 {
        Seq::empty()
    } else {
        let rest = answered_at(probes.drop_last());
        if probe_answers(probes.last()) {
            rest.push(probes.len() - 1)
        } else {
            rest
        }
    }
}

/// Device `d` is the function probed at index `idx` of bus 0: its vendor
/// and device ids, class and subclass as the probe read them, and its
/// location.
pub open spec fn probed_device(d: DeviceInfo, p: PciProbe, idx: int) -> bool {
    &&& d.vendor_id == Some((p.id_dword & 0xffffu32) as u16)
    &&& d.device_id == Some(((p.id_dword >> 16u32) & 0xffffu32) as u16)
    &&& d.class_code == Some(((p.class_dword >> 24u32) & 0xffu32) as u8)
    &&& d.subclass == Some(((p.class_dword >> 16u32) & 0xffu32) as u8)
    &&& d.bus == Some(0u8)
    &&& d.slot == Some((idx / 8) as u8)
    &&& d.function == Some((idx % 8) as u8)
}

/// Register every answering function of bus 0 (probe `slot * 8 + function`)
/// as a discovered PCI device; register a single placeholder when none
/// answered.
pub fn scan_pci(reg: &mut DeviceRegistry, probes: &[PciProbe])
    requires
        probes@.len() == PCI_SCAN_FUNCTIONS,
    ensures
        answered(probes@) > 0 ==> final(reg).devices@.len() == old(reg).devices@.len() + answered(probes@),
        answered(probes@) == 0 ==> final(reg).devices@.len() == old(reg).devices@.len() + 1
            && final(reg).devices@.last().kind == DeviceKind::Unknown,
        forall|i: int| 0 <= i < old(reg).devices@.len() ==> #[trigger] final(reg).devices@[i] == old(reg).devices@[i],
        forall|i: int| old(reg).devices@.len() <= i < final(reg).devices@.len() && answered(probes@) > 0
            ==> (#[trigger] final(reg).devices@[i]).kind == DeviceKind::Pci && final(reg).devices@[i].state == DeviceState::Discovered,
        answered_at(probes@).len() == answered(probes@),
        answered(probes@) > 0 ==> forall|k: int| 0 <= k < answered(probes@) ==> probed_device(
            #[trigger] final(reg).devices@[old(reg).devices@.len() + k],
            probes@[answered_at(probes@)[k]],
            answered_at(probes@)[k],
        ),
{
    let mut discovered: usize = 0;
    let mut idx: usize = 0;
    let ghost start = reg.devices@;
    while idx < PCI_SCAN_FUNCTIONS
        invariant
            probes@.len() == PCI_SCAN_FUNCTIONS,
            idx <= PCI_SCAN_FUNCTIONS,
            discovered == answered(probes@.subrange(0, idx as int)),
            discovered <= idx,
            reg.devices@.len() == start.len() + discovered,
            forall|i: int| 0 <= i < start.len() ==> #[trigger] reg.devices@[i] == start[i],
            forall|i: int| start.len() <= i < reg.devices@.len() ==> (#[trigger] reg.devices@[i]).kind == DeviceKind::Pci && reg.devices@[i].state == DeviceState::Discovered,
            answered_at(probes@.subrange(0, idx as int)).len() == discovered,
            forall|k: int| 0 <= k < discovered ==> 0 <= #[trigger] answered_at(probes@.subrange(0, idx as int))[k] < idx,
            forall|k: int| 0 <= k < discovered ==> probed_device(
                #[trigger] reg.devices@[start.len() + k],
                probes@[answered_at(probes@.subrange(0, idx as int))[k]],
                answered_at(probes@.subrange(0, idx as int))[k],
            ),
        decreases PCI_SCAN_FUNCTIONS - idx,
    {
        assert(probes@.subrange(0, idx + 1).drop_last() =~= probes@.subrange(0, idx as int));
        assert(probes@.subrange(0, idx + 1).last() == probes@[idx as int]);
        let ghost before = answered_at(probes@.subrange(0, idx as int));
        let ghost devs0 = reg.devices@;
        let probe = probes[idx];
        let d = probe.id_dword;
        let vendor_id = config_word(d, 0);
        assert((0u8 & 2u8) == 0u8 && (2u8 & 2u8) == 2u8 && (11u8 & 3u8) == 3u8 && (10u8 & 3u8) == 2u8) by (bit_vector);
        assert((d >> 0u32) & 0xffffu32 == d & 0xffffu32) by (bit_vector);
        assert(d & 0xffffu32 <= 0xffffu32) by (bit_vector);
        if vendor_id != 0xffff {
            let device_id = config_word(probe.id_dword, 2);
            let class_code = config_byte(probe.class_dword, 0x0b);
            let subclass = config_byte(probe.class_dword, 0x0a);
            let name = classify_pci_device(class_code, subclass);
            let slot = (idx / 8) as u8;
            let function = (idx % 8) as u8;
            register_device(
                reg,
                name,
                DeviceKind::Pci,
                DeviceState::Discovered,
                Some(vendor_id),
                Some(device_id),
                Some(class_code),
                Some(subclass),
                Some((0, slot, function)),
            );
            proof {
                assert forall|k: int| 0 <= k < discovered + 1 implies probed_device(
                    #[trigger] reg.devices@[start.len() + k],
                    probes@[answered_at(probes@.subrange(0, idx + 1))[k]],
                    answered_at(probes@.subrange(0, idx + 1))[k],
                ) by {
                    if k < discovered {
                        assert(reg.devices@[start.len() + k] == devs0[start.len() + k]);
                    }
                }
            }
            discovered += 1;
        }
        idx += 1;
    }
    assert(probes@.subrange(0, PCI_SCAN_FUNCTIONS as int) =~= probes@);
    if discovered == 0 {
        register_device(
            reg,
            "pci-scan-empty",
            DeviceKind::Unknown,
            DeviceState::Discovered,
            None,
            None,
            None,
            None,
            None,
        );
    }
}

/// Reset the registry and scan PCI with the given probe results.
pub fn init(reg: &mut DeviceRegistry, probes: &[PciProbe])
    requires
        probes@.len() == PCI_SCAN_FUNCTIONS,
    ensures
        answered(probes@) > 0 ==> final(reg).devices@.len() == answered(probes@),
        answered(probes@) == 0 ==> final(reg).devices@.len() == 1,
{
    reg.clear();
    scan_pci(reg, probes);
}

} // verus!
