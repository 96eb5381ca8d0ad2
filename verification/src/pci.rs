//! PCI configuration-space logic: address formation, field extraction, the
//! bus walk, base-address-register decoding, and the registry from which
//! drivers claim devices by class.
use vstd::prelude::*;

verus! {

/// Offset of the vendor word in a device's configuration space.
pub const VENDOR_OFFSET: u8 = 0x00;

/// Offset of the device-id word.
pub const DEVICE_ID_OFFSET: u8 = 0x02;

/// Offset of the command word.
pub const COMMAND_OFFSET: u8 = 0x04;

/// Offset of the status word.
pub const STATUS_OFFSET: u8 = 0x06;

/// Offset of the word holding programming interface and revision.
pub const PROG_IF_REV_OFFSET: u8 = 0x08;

/// Offset of the word holding class and subclass.
pub const CLASS_SUBCLASS_OFFSET: u8 = 0x0a;

/// Offset of the word holding built-in-self-test and header type.
pub const BIST_HEADER_TYPE_OFFSET: u8 = 0x0e;

/// The config-space address written to the index port for one register.
pub open spec fn spec_config_address(bus: u8, slot: u8, func: u8, offset: u8) -> u32 {
    ((bus as u32) << 16) | ((slot as u32) << 11) | ((func as u32) << 8) | (offset as u32 & 0xfc)
        | 0x80000000
}

/// Marker for the configuration-space helpers.
pub struct Pci;

impl Pci {
    /// Forms the address of one configuration register, as written to the
    /// index port: enable bit, bus, slot, function and the aligned offset.
    pub fn config_address(bus: u8, slot: u8, func: u8, offset: u8) -> (r: u32)
        ensures
            r == spec_config_address(bus, slot, func, offset),
    {
        ((bus as u32) << 16) | ((slot as u32) << 11) | ((func as u32) << 8) | (offset as u32
            & 0xfc) | 0x80000000
    }

    /// Picks the 16-bit field addressed by `offset` out of the 32-bit value
    /// read from the data port.
    pub fn extract_config_word(dword: u32, offset: u8) -> (r: u16)
        ensures
            r == ((dword >> (((offset as u32) & 2) * 8)) & 0xffff) as u16,
    {
        proof {
            assert(((offset as u32) & 2) * 8 <= 16) by (bit_vector);
        }
        ((dword >> (((offset as u32) & 2) * 8)) & 0xffff) as u16
    }

    /// Starts claiming, one device at a time, the scanned devices of a
    /// class pair.
    pub fn own_by_class(class: u8, subclass: u8) -> (r: OwningPciDeviceIterator)
        ensures
            r == (OwningPciDeviceIterator { index: 0usize, class, subclass }),
    {
        OwningPciDeviceIterator::own_by_class(class, subclass)
    }

    /// Merges a 16-bit value into the 32-bit register image at the field
    /// addressed by `offset`, as the write path composes it.
    pub fn merge_config_word(previous: u32, value: u16, offset: u8) -> (r: u32)
        ensures
            r == (previous & !(0xffu32 << (((offset as u32) & 2) * 8))) | ((value as u32) << (((
            offset as u32) & 2) * 8)),
    {
        proof {
            assert(((offset as u32) & 2) * 8 <= 16) by (bit_vector);
        }
        let shift = ((offset as u32) & 2) * 8;
        (previous & !(0xffu32 << shift)) | ((value as u32) << shift)
    }
}

/// The programming interface out of the word at its offset.
pub fn prog_if_of(word: u16) -> (r: u8)
    ensures
        r == (word >> 8) as u8,
{
    (word >> 8) as u8
}

/// The revision out of the word holding it.
pub fn revision_of(word: u16) -> (r: u8)
    ensures
        r == (word & 0xff) as u8,
{
    (word & 0xff) as u8
}

/// Class and subclass out of the word holding them.
pub fn class_of(word: u16) -> (r: (u8, u8))
    ensures
        r.0 == (word >> 8) as u8,
        r.1 == (word & 0xff) as u8,
{
    ((word >> 8) as u8, (word & 0xff) as u8)
}

/// The built-in-self-test byte out of the word holding it.
pub fn bist_of(word: u16) -> (r: u8)
    ensures
        r == (word >> 8) as u8,
{
    (word >> 8) as u8
}

/// One device address on the bus.
#[derive(Clone, Copy, Debug, PartialEq, Eq, Hash, Structural)]
pub struct PciDevice {
    /// The bus number.
    pub bus: u8,
    /// The slot on the bus.
    pub slot: u8,
    /// The function of the slot.
    pub func: u8,
}

/// The cursor of the bus walk: the next coordinates to probe, with the bus
/// widened so the walk can run past the last bus and stop.
pub open spec fn spec_scan_step(bus: u16, slot: u8, func: u8, present: bool, multi: bool) -> (
    u16,
    u8,
    u8,
) {
    if func == 7 || (func == 0 && !(present && multi)) {
        if slot == 31 {
            ((bus + 1) as u16, 0u8, 0u8)
        } else {
            (bus, (slot + 1) as u8, 0u8)
        }
    } else {
        (bus, slot, (func + 1) as u8)
    }
}

/// Advances the bus walk by one probe: functions past the first are visited
/// only on multi-function devices, slots wrap into the next bus.
pub fn pci_scan_step(bus: u16, slot: u8, func: u8, present: bool, multi: bool) -> (r: (
    u16,
    u8,
    u8,
))
    requires
        bus < 256,
        slot < 32,
        func < 8,
    ensures
        r == spec_scan_step(bus, slot, func, present, multi),
{
    if func == 7 || (func == 0 && !(present && multi)) {
        if slot == 31 {
            (bus + 1, 0, 0)
        } else {
            (bus, slot + 1, 0)
        }
    } else {
        (bus, slot, func + 1)
    }
}

/// Whether a probed function is reported by the walk: it answered with a
/// real vendor and it is not a host bridge class.
pub fn pci_scan_emit(present: bool, class: u8) -> (r: bool)
    ensures
        r == (present && class != 6),
{
    present && class != 6
}

/// A decoded base address register.
#[derive(Clone, Copy, Debug, PartialEq, Eq, Hash, Structural)]
pub enum Bar {
    /// A memory-space region.
    Memory {
        /// The physical base address.
        data: u64,
        /// The length of the region in bytes.
        len: u64,
    },
    /// An I/O-port region.
    Port {
        /// The first port number.
        base: u16,
        /// The number of ports.
        len: u64,
    },
}

impl Bar {
    /// The port that `offset` names within an I/O region: nothing for a
    /// memory region, and a bounds error when the offset reaches past the
    /// region's ports.
    pub fn port(&self, offset: u16) -> (r: Option<Result<u16, ()>>)
        requires
            match *self {
                Bar::Memory { .. } => true,
                Bar::Port { base, len } => (offset as u64) < len ==> base + offset <= u16::MAX,
            },
        ensures
            match *self {
                Bar::Memory { .. } => r is None,
                Bar::Port { base, len } => if offset as u64 >= len {
                    r == Some(Err::<u16, ()>(()))
                } else {
                    r == Some(Ok::<u16, ()>((base + offset) as u16))
                },
            },
    {
        match *self {
            Bar::Memory { .. } => None,
            Bar::Port { base, len } => {
                if offset as u64 >= len {
                    Some(Err(()))
                } else {
                    Some(Ok(base + offset))
                }
            },
        }
    }
}

/// The decoded register for one 32-bit I/O probe: present when sizing
/// answered and the base fits a port number.
pub open spec fn spec_decode_io_bar(bar: u32, size: u32) -> Option<Bar> {
    if size & !3u32 != 0 {
        if bar & !3u32 <= 0xffff {
            Some(
                Bar::Port {
                    base: (bar & !3u32) as u16,
                    len: (!(size & !3u32) + 1) as u64,
                },
            )
        } else {
            None
        }
    } else {
        None
    }
}

/// The decoded register for one 32-bit memory probe.
pub open spec fn spec_decode_mem32_bar(bar: u32, size: u32) -> Option<Bar> {
    if size & !0xfu32 != 0 {
        Some(
            Bar::Memory {
                data: (bar & !0xfu32) as u64,
                len: ((!(size & !0xfu32)) as u64 + 1) as u64,
            },
        )
    } else {
        None
    }
}

/// The decoded register for a 64-bit memory probe spanning two slots.
pub open spec fn spec_decode_mem64_bar(bar: u32, size: u32, bar_hi: u32, size_hi: u32) -> Bar {
    Bar::Memory {
        data: (((bar_hi as u64) << 32) | (bar as u64)) & !0xfu64,
        len: (!((((size_hi as u64) << 32) | (size as u64)) & !0xfu64) + 1) as u64,
    }
}

/// Decodes an I/O base address register from its probe pair.
pub fn decode_io_bar(bar: u32, size: u32) -> (r: Option<Bar>)
    ensures
        r == spec_decode_io_bar(bar, size),
{
    if size & !3u32 != 0 {
        if bar & !3u32 <= 0xffff {
            proof {
                assert(!(size & !3u32) < 0xffffffffu32) by (bit_vector)
                    requires
                        size & !3u32 != 0,
                ;
            }
            Some(Bar::Port { base: (bar & !3u32) as u16, len: (!(size & !3u32) + 1) as u64 })
        } else {
            None
        }
    } else {
        None
    }
}

/// Decodes a 32-bit memory base address register from its probe pair.
pub fn decode_mem32_bar(bar: u32, size: u32) -> (r: Option<Bar>)
    ensures
        r == spec_decode_mem32_bar(bar, size),
{
    if size & !0xfu32 != 0 {
        Some(Bar::Memory { data: (bar & !0xfu32) as u64, len: (!(size & !0xfu32)) as u64 + 1 })
    } else {
        None
    }
}

/// Decodes a 64-bit memory base address register from the probe pairs of
/// its two slots.
pub fn decode_mem64_bar(bar: u32, size: u32, bar_hi: u32, size_hi: u32) -> (r: Bar)
    requires
        size & !0xfu32 != 0,
    ensures
        r == spec_decode_mem64_bar(bar, size, bar_hi, size_hi),
{
    let data = (((bar_hi as u64) << 32) | (bar as u64)) & !0xfu64;
    let size64 = ((size_hi as u64) << 32) | (size as u64);
    proof {
        assert(!(size64 & !0xfu64) < 0xffffffffffffffffu64) by (bit_vector)
            requires
                size64 == ((size_hi as u64) << 32) | (size as u64),
                size & !0xfu32 != 0,
        ;
    }
    Bar::Memory { data, len: !(size64 & !0xfu64) + 1 }
}

/// What one register slot decodes to, and how many slots the decode used.
pub open spec fn spec_decode_bars(probes: Seq<(u32, u32)>, i: int) -> Seq<Option<Bar>>
    decreases probes.len() - i,
{
    if i < 0 || i >= probes.len() {
        Seq::empty()
    } else {
        let (bar, size) = probes[i];
        if bar & 1 == 1 {
            seq![spec_decode_io_bar(bar, size)] + spec_decode_bars(probes, i + 1)
        } else if size & !0xfu32 != 0 && bar & 6u32 == 4u32 {
            if i + 1 >= probes.len() {
                seq![None]
            } else {
                let (bar_hi, size_hi) = probes[i + 1];
                seq![
                    None,
                    Some(spec_decode_mem64_bar(bar, size, bar_hi, size_hi)),
                ] + spec_decode_bars(probes, i + 2)
            }
        } else {
            seq![spec_decode_mem32_bar(bar, size)] + spec_decode_bars(probes, i + 1)
        }
    }
}

/// Decodes the six base address registers of a device from the six probe
/// pairs (the live value and the sizing answer of each slot): I/O registers
/// decode alone, 64-bit memory registers span two slots and land in the
/// second, and a sizing answer of zero leaves a slot empty.
#[verifier::loop_isolation(false)]
pub fn decode_bars(probes: &Vec<(u32, u32)>) -> (r: Vec<Option<Bar>>)
    requires
        probes@.len() == 6,
    ensures
        r@ == spec_decode_bars(probes@, 0),
        r@.len() == 6,
    decreases 6int,
{
    let mut out: Vec<Option<Bar>> = Vec::new();
    let mut i: usize = 0;
    while i < 6
        invariant
            i <= 6,
            out@.len() == i,
            out@ + spec_decode_bars(probes@, i as int) == spec_decode_bars(probes@, 0),
        decreases 6 - i,
    {
        let (bar, size) = probes[i];
        if bar & 1 == 1 {
            out.push(decode_io_bar(bar, size));
            i = i + 1;
        } else if size & !0xfu32 != 0 && bar & 6u32 == 4u32 {
            if i + 1 >= 6 {
                out.push(None);
                i = i + 1;
                proof {
                    assert(out@ + spec_decode_bars(probes@, i as int) =~= spec_decode_bars(
                        probes@,
                        0,
                    ));
                }
            } else {
                let (bar_hi, size_hi) = probes[i + 1];
                out.push(None);
                out.push(Some(decode_mem64_bar(bar, size, bar_hi, size_hi)));
                i = i + 2;
                proof {
                    assert(out@ + spec_decode_bars(probes@, i as int) =~= spec_decode_bars(
                        probes@,
                        0,
                    ));
                }
            }
        } else {
            out.push(decode_mem32_bar(bar, size));
            i = i + 1;
        }
        proof {
            assert(out@ + spec_decode_bars(probes@, i as int) =~= spec_decode_bars(probes@, 0));
        }
    }
    proof {
        assert(out@ =~= spec_decode_bars(probes@, 0));
    }
    out
}

/// Most devices the registry will ever hold.
pub const PCI_REGISTRY_CAPACITY: usize = 1000;

/// One scanned device with its class pair, and whether a driver has claimed
/// it.
#[derive(Clone, Copy, Debug, PartialEq, Eq, Hash, Structural)]
pub struct PciRegistryEntry {
    /// The device's address.
    pub device: PciDevice,
    /// Class read at scan time.
    pub class: u8,
    /// Subclass read at scan time.
    pub subclass: u8,
    /// Whether a driver owns the device.
    pub claimed: bool,
}

/// The devices found by the bus walk, from which drivers claim what they
/// drive.
#[derive(Debug)]
pub struct PciRegistry {
    entries: Vec<PciRegistryEntry>,
}

impl PciRegistry {
    /// The scanned devices in walk order.
    pub closed spec fn spec_entries(&self) -> Seq<PciRegistryEntry> {
        self.entries@
    }

    /// Collects scanned devices, unclaimed, keeping at most the registry's
    /// capacity and dropping the rest.
    pub fn from_devices(devices: &Vec<(PciDevice, u8, u8)>) -> (r: Self)
        ensures
            r.spec_entries().len() == if devices@.len() <= PCI_REGISTRY_CAPACITY {
                devices@.len() as int
            } else {
                PCI_REGISTRY_CAPACITY as int
            },
            forall|i: int|
                0 <= i < r.spec_entries().len() ==> #[trigger] r.spec_entries()[i] == (
                PciRegistryEntry {
                    device: devices@[i].0,
                    class: devices@[i].1,
                    subclass: devices@[i].2,
                    claimed: false,
                }),
    {
        let mut entries: Vec<PciRegistryEntry> = Vec::new();
        let n = devices.len();
        let mut i: usize = 0;
        while i < n && i < PCI_REGISTRY_CAPACITY
            invariant
                n == devices@.len(),
                i <= n,
                i <= PCI_REGISTRY_CAPACITY,
                entries@.len() == i,
                forall|k: int|
                    0 <= k < i ==> #[trigger] entries@[k] == (PciRegistryEntry {
                        device: devices@[k].0,
                        class: devices@[k].1,
                        subclass: devices@[k].2,
                        claimed: false,
                    }),
            decreases n - i,
        {
            let (device, class, subclass) = devices[i];
            entries.push(PciRegistryEntry { device, class, subclass, claimed: false });
            i = i + 1;
        }
        PciRegistry { entries }
    }

    /// How many devices were scanned in.
    pub fn len(&self) -> (r: usize)
        ensures
            r == self.spec_entries().len(),
    {
        self.entries.len()
    }
}

/// The first unclaimed entry at or after `i` with the wanted class pair.
pub open spec fn spec_claim_find(
    entries: Seq<PciRegistryEntry>,
    class: u8,
    subclass: u8,
    i: int,
) -> Option<int>
    decreases entries.len() - i,
{
    if i < 0 || i >= entries.len() {
        None
    } else if !entries[i].claimed && entries[i].class == class && entries[i].subclass
        == subclass {
        Some(i)
    } else {
        spec_claim_find(entries, class, subclass, i + 1)
    }
}

/// A cursor with which one driver claims, one at a time, the devices of a
/// class.
#[derive(Clone, Copy, Debug, PartialEq, Eq, Hash, Structural)]
pub struct OwningPciDeviceIterator {
    /// The next registry index to inspect.
    pub index: usize,
    /// The class looked for.
    pub class: u8,
    /// The subclass looked for.
    pub subclass: u8,
}

impl OwningPciDeviceIterator {
    /// Starts claiming devices of one class pair.
    pub fn own_by_class(class: u8, subclass: u8) -> (r: Self)
        ensures
            r == (OwningPciDeviceIterator { index: 0usize, class, subclass }),
    {
        OwningPciDeviceIterator { index: 0, class, subclass }
    }

    /// Claims and yields the next unclaimed device of the class, marking it
    /// owned in the registry; nothing once the registry holds no more.
    #[verifier::loop_isolation(false)]
    pub fn next(&mut self, registry: &mut PciRegistry) -> (r: Option<PciDevice>)
        ensures
            final(self).class == old(self).class,
            final(self).subclass == old(self).subclass,
            final(registry).spec_entries().len() == old(registry).spec_entries().len(),
            ({
                let found = spec_claim_find(
                    old(registry).spec_entries(),
                    old(self).class,
                    old(self).subclass,
                    old(self).index as int,
                );
                match found {
                    Some(i) => {
                        &&& r == Some(old(registry).spec_entries()[i].device)
                        &&& final(self).index == i
                        &&& final(registry).spec_entries() == old(registry).spec_entries().update(
                            i,
                            PciRegistryEntry {
                                claimed: true,
                                ..old(registry).spec_entries()[i]
                            },
                        )
                    },
                    None => {
                        &&& r is None
                        &&& final(self).index == if old(self).index
                            <= old(registry).spec_entries().len() {
                            old(registry).spec_entries().len() as usize
                        } else {
                            old(self).index
                        }
                        &&& final(registry).spec_entries() == old(registry).spec_entries()
                    },
                }
            }),
    {
        let n = registry.entries.len();
        while self.index < n
            invariant
                n == registry.spec_entries().len(),
                self.class == old(self).class,
                self.subclass == old(self).subclass,
                old(self).index <= self.index,
                old(self).index <= n ==> self.index <= n,
                old(self).index > n ==> self.index == old(self).index,
                registry.spec_entries() == old(registry).spec_entries(),
                spec_claim_find(
                    registry.spec_entries(),
                    self.class,
                    self.subclass,
                    old(self).index as int,
                ) == spec_claim_find(
                    registry.spec_entries(),
                    self.class,
                    self.subclass,
                    self.index as int,
                ),
            decreases n - self.index,
        {
            let entry = registry.entries[self.index];
            if !entry.claimed && entry.class == self.class && entry.subclass == self.subclass {
                let ghost pre = registry.spec_entries();
                let i = self.index;
                let slot = &mut registry.entries[i];
                slot.claimed = true;
                proof {
                    assert(registry.spec_entries() =~= pre.update(
                        i as int,
                        PciRegistryEntry { claimed: true, ..pre[i as int] },
                    ));
                }
                return Some(entry.device);
            }
            self.index = self.index + 1;
        }
        None
    }
}

} // verus!
