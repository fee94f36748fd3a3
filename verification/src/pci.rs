//! PCI configuration space: addressing, field extraction, BAR decoding,
//! the bus scan and the capability list.
//!
//! Configuration reads are port I/O; the functions here take the reader as
//! an argument (`config`, from a configuration address to the dword there)
//! and state what they do with each value it returns.
use vstd::prelude::*;

verus! {

/// The vendor id of an empty slot.
pub const INVALID_VENDOR: u16 = 0xffff;

/// A function found on the bus.
#[derive(Clone, Copy)]
pub struct Device {
    pub bus: u8,
    pub slot: u8,
    pub function: u8,
    pub vendor_id: u16,
    pub device_id: u16,
    pub class: u8,
    pub subclass: u8,
}

/// A decoded base address register.
#[derive(Clone, Copy)]
pub struct Bar {
    pub raw: u32,
    pub base: u64,
    pub is_io: bool,
}

/// An entry of a device's capability list.
#[derive(Clone, Copy)]
pub struct Capability {
    pub id: u8,
    pub offset: u8,
}

/// Something that wants to hear of every device the scan finds.
pub trait Visitor {
    fn visit(&mut self, device: Device);
}

/// The configuration address of register `offset` of a function.
pub open spec fn config_address(bus: u8, slot: u8, function: u8, offset: u8) -> u32 {
    0x8000_0000u32 | ((bus as u32) << 16u32) | ((slot as u32) << 11u32) | ((function as u32) << 8u32)
        | ((offset as u32) & 0xfc)
}

/// The byte at `offset` within the dword holding it.
pub open spec fn field_u8(dword: u32, offset: u8) -> u8 {
    (dword >> (((offset & 3) as u32) * 8)) as u8
}

/// The 16-bit field at `offset` within the dword holding it.
pub open spec fn field_u16(dword: u32, offset: u8) -> u16 {
    (dword >> (((offset & 2) as u32) * 8)) as u16
}

/// The dword with the 16-bit field at `offset` replaced by `value`.
pub open spec fn merge_u16(dword: u32, offset: u8, value: u16) -> u32 {
    (dword & !(0xffffu32 << (((offset & 2) as u32) * 8))) | ((value as u32) << (((offset & 2) as u32) * 8))
}

/// What a base address register holds.
pub open spec fn decode_bar(raw: u32) -> Bar {
    let is_io = raw & 1 != 0;
    Bar { raw, base: if is_io { (raw & !3u32) as u64 } else { (raw & !0xfu32) as u64 }, is_io }
}

/// The configuration address of register `offset` of a function.
pub fn address(bus: u8, slot: u8, function: u8, offset: u8) -> (r: u32)
    ensures r == config_address(bus, slot, function, offset),
{
    0x8000_0000u32 | ((bus as u32) << 16) | ((slot as u32) << 11) | ((function as u32) << 8) | ((offset as u32) & 0xfc)
}

/// Reads the dword holding register `offset` of a function.
pub fn read_u32<F: Fn(u32) -> u32>(config: &F, bus: u8, slot: u8, function: u8, offset: u8) -> (r: u32)
    requires forall|a: u32| call_requires(*config, (a,)),
    ensures call_ensures(*config, (config_address(bus, slot, function, offset),), r),
{
    let a = address(bus, slot, function, offset);
    config(a)
}

/// Reads the byte register `offset` of a function.
fn read_u8<F: Fn(u32) -> u32>(config: &F, bus: u8, slot: u8, function: u8, offset: u8) -> (r: u8)
    requires forall|a: u32| call_requires(*config, (a,)),
    ensures exists|d: u32| #[trigger] call_ensures(*config, (config_address(bus, slot, function, offset & !3u8),), d)
        && r == field_u8(d, offset),
{
    let d = read_u32(config, bus, slot, function, offset & !3u8);
    assert(offset & 3u8 <= 3) by (bit_vector);
    (d >> (((offset & 3) as u32) * 8)) as u8
}

/// Reads the 16-bit register `offset` of a function.
fn read_u16<F: Fn(u32) -> u32>(config: &F, bus: u8, slot: u8, function: u8, offset: u8) -> (r: u16)
    requires forall|a: u32| call_requires(*config, (a,)),
    ensures exists|d: u32| #[trigger] call_ensures(*config, (config_address(bus, slot, function, offset & !3u8),), d)
        && r == field_u16(d, offset),
{
    let d = read_u32(config, bus, slot, function, offset & !3u8);
    assert(offset & 2u8 <= 2) by (bit_vector);
    (d >> (((offset & 2) as u32) * 8)) as u16
}

/// Reads and decodes base address register `index` of `device`.
pub fn read_bar<F: Fn(u32) -> u32>(config: &F, device: Device, index: u8) -> (r: Bar)
    requires
        forall|a: u32| call_requires(*config, (a,)),
        index < 60,
    ensures
        exists|d: u32| #[trigger] call_ensures(*config,
            (config_address(device.bus, device.slot, device.function, (0x10 + index * 4) as u8),), d)
            && r == decode_bar(d),
{
    let raw = read_u32(config, device.bus, device.slot, device.function, 0x10 + index * 4);
    let is_io = raw & 1 != 0;
    let base = if is_io { (raw & !3u32) as u64 } else { (raw & !0xfu32) as u64 };
    Bar { raw, base, is_io }
}

/// Reads byte `field` of the capability at `offset`.
pub fn read_cap_u8<F: Fn(u32) -> u32>(config: &F, device: Device, offset: u8, field: u8) -> (r: u8)
    requires forall|a: u32| call_requires(*config, (a,)),
    ensures
        exists|d: u32| #[trigger] call_ensures(*config,
            (config_address(device.bus, device.slot, device.function, cap_at(offset, field) & !3u8),), d)
            && r == field_u8(d, cap_at(offset, field)),
{
    let at = offset.wrapping_add(field);
    assert(at == cap_at(offset, field));
    read_u8(config, device.bus, device.slot, device.function, at)
}

/// The register of field `field` of the capability at `offset`.
pub open spec fn cap_at(offset: u8, field: u8) -> u8 {
    (if offset + field > 255 { offset + field - 256 } else { offset + field }) as u8
}

/// Reads the dword holding field `field` of the capability at `offset`.
pub fn read_cap_u32<F: Fn(u32) -> u32>(config: &F, device: Device, offset: u8, field: u8) -> (r: u32)
    requires forall|a: u32| call_requires(*config, (a,)),
    ensures
        call_ensures(*config, (config_address(device.bus, device.slot, device.function, (offset.wrapping_add(field)) & !3u8),), r),
{
    read_u32(config, device.bus, device.slot, device.function, offset.wrapping_add(field) & !3u8)
}

/// The configuration write that stores `value` in the 16-bit register
/// `offset`, keeping the other half of its dword as read: the address and
/// the dword to write there.
pub fn write_u16<F: Fn(u32) -> u32>(config: &F, bus: u8, slot: u8, function: u8, offset: u8, value: u16) -> (r: (u32, u32))
    requires forall|a: u32| call_requires(*config, (a,)),
    ensures
        r.0 == config_address(bus, slot, function, offset & !3u8),
        exists|d: u32| #[trigger] call_ensures(*config, (config_address(bus, slot, function, offset & !3u8),), d)
            && r.1 == merge_u16(d, offset, value),
{
    let aligned = offset & !3u8;
    assert(offset & 2u8 <= 2) by (bit_vector);
    let shift = ((offset & 2) as u32) * 8;
    let current = read_u32(config, bus, slot, function, aligned);
    let merged = (current & !(0xffffu32 << shift)) | ((value as u32) << shift);
    assert(merged == merge_u16(current, offset, value)) by (bit_vector)
        requires shift == ((offset & 2) as u32) * 8, merged == (current & !(0xffffu32 << shift)) | ((value as u32) << shift);
    let a = address(bus, slot, function, aligned);
    assert(call_ensures(*config, (a,), current) && merged == merge_u16(current, offset, value));
    (a, merged)
}

/// A 16-bit field written into a dword reads back as written, and the other
/// half of the dword is kept.
pub proof fn lemma_merge_u16(dword: u32, offset: u8, value: u16)
    ensures
        field_u16(merge_u16(dword, offset, value), offset) == value,
        field_u16(merge_u16(dword, offset, value), offset ^ 2u8) == field_u16(dword, offset ^ 2u8),
{
    assert(field_u16(merge_u16(dword, offset, value), offset) == value) by (bit_vector);
    assert(field_u16(merge_u16(dword, offset, value), offset ^ 2u8) == field_u16(dword, offset ^ 2u8)) by (bit_vector);
}

/// Whether location `a` of the bus comes before `b`.
pub open spec fn before(a: Device, b: Device) -> bool {
    a.bus < b.bus || (a.bus == b.bus && (a.slot < b.slot || (a.slot == b.slot && a.function < b.function)))
}

/// What reads of `d`'s function gave: a valid vendor id, and the device id,
/// class and subclass fields of its registers.
pub open spec fn device_read<F: Fn(u32) -> u32>(config: F, d: Device) -> bool {
    &&& d.vendor_id != INVALID_VENDOR
    &&& d.slot < 32 && d.function < 8
    &&& exists|v: u32| #[trigger] call_ensures(config, (config_address(d.bus, d.slot, d.function, 0),), v)
            && d.vendor_id == field_u16(v, 0)
    &&& exists|v: u32| #[trigger] call_ensures(config, (config_address(d.bus, d.slot, d.function, 0),), v)
            && d.device_id == field_u16(v, 2)
    &&& exists|v: u32| #[trigger] call_ensures(config, (config_address(d.bus, d.slot, d.function, 8),), v)
            && d.class == field_u8(v, 0x0b)
    &&& exists|v: u32| #[trigger] call_ensures(config, (config_address(d.bus, d.slot, d.function, 8),), v)
            && d.subclass == field_u8(v, 0x0a)
}

/// What the scan found: devices in bus order, each as its reads gave it.
pub open spec fn scan_result<F: Fn(u32) -> u32>(config: F, found: Seq<Device>) -> bool {
    &&& forall|i: int, j: int| 0 <= i < j < found.len() ==> before(found[i], found[j])
    &&& forall|i: int| 0 <= i < found.len() ==> device_read(config, #[trigger] found[i])
}

/// Function `function` of `slot` on `bus` is among `found`, or a read of
/// its vendor id said nothing is there.
pub open spec fn present_or_empty<F: Fn(u32) -> u32>(config: F, found: Seq<Device>, bus: u8, slot: u8, function: u8) -> bool {
    ||| exists|i: int| 0 <= i < found.len() && #[trigger] found[i].bus == bus && found[i].slot == slot && found[i].function == function
    ||| exists|v: u32| #[trigger] call_ensures(config, (config_address(bus, slot, function, 0),), v) && field_u16(v, 0) == INVALID_VENDOR
}

/// A read of the header type of function 0 of `slot` on `bus` said it is
/// not a multi-function device.
pub open spec fn single_function<F: Fn(u32) -> u32>(config: F, bus: u8, slot: u8) -> bool {
    exists|h: u32| #[trigger] call_ensures(config, (config_address(bus, slot, 0, 0x0c),), h) && field_u8(h, 0x0e) & 0x80 == 0
}

/// Every function of `slot` on `bus` that the scan looks at was found or
/// answered that it is empty: function 0, and functions 1 to 7 unless the
/// slot is not a multi-function device.
pub open spec fn slot_scanned<F: Fn(u32) -> u32>(config: F, found: Seq<Device>, bus: u8, slot: u8) -> bool {
    &&& present_or_empty(config, found, bus, slot, 0)
    &&& (single_function(config, bus, slot) || forall|f: u8| 1 <= f < 8 ==> #[trigger] present_or_empty(config, found, bus, slot, f))
}

/// A device found stays found as more are found.
proof fn lemma_present_push<F: Fn(u32) -> u32>(config: F, found: Seq<Device>, d: Device, bus: u8, slot: u8, function: u8)
    requires present_or_empty(config, found, bus, slot, function),
    ensures present_or_empty(config, found.push(d), bus, slot, function),
{
    if exists|i: int| 0 <= i < found.len() && #[trigger] found[i].bus == bus && found[i].slot == slot && found[i].function == function {
        let i = choose|i: int| 0 <= i < found.len() && #[trigger] found[i].bus == bus && found[i].slot == slot && found[i].function == function;
        assert(found.push(d)[i] == found[i]);
    }
}

/// A scanned slot stays scanned as more devices are found.
proof fn lemma_scanned_push<F: Fn(u32) -> u32>(config: F, found: Seq<Device>, d: Device, bus: u8, slot: u8)
    requires slot_scanned(config, found, bus, slot),
    ensures slot_scanned(config, found.push(d), bus, slot),
{
    lemma_present_push(config, found, d, bus, slot, 0);
    if !single_function(config, bus, slot) {
        assert forall|f: u8| 1 <= f < 8 implies #[trigger] present_or_empty(config, found.push(d), bus, slot, f) by {
            lemma_present_push(config, found, d, bus, slot, f);
        }
    }
}

/// Reports function `function` of `slot` on `bus` when something answers.
fn scan_function<V: Visitor, F: Fn(u32) -> u32>(config: &F, visitor: &mut V, bus: u8, slot: u8, function: u8) -> (r: Option<Device>)
    requires forall|a: u32| call_requires(*config, (a,)),
    ensures
        r matches Some(d) ==> d.bus == bus && d.slot == slot && d.function == function && d.vendor_id != INVALID_VENDOR
            && exists|v: u32| #[trigger] call_ensures(*config, (config_address(bus, slot, function, 0),), v)
                && d.vendor_id == field_u16(v, 0),
        r matches Some(d) ==> {
            &&& exists|v: u32| #[trigger] call_ensures(*config, (config_address(bus, slot, function, 0),), v)
                && d.device_id == field_u16(v, 2)
            &&& exists|v: u32| #[trigger] call_ensures(*config, (config_address(bus, slot, function, 8),), v)
                && d.class == field_u8(v, 0x0b)
            &&& exists|v: u32| #[trigger] call_ensures(*config, (config_address(bus, slot, function, 8),), v)
                && d.subclass == field_u8(v, 0x0a)
        },
        r is None ==> exists|v: u32| #[trigger] call_ensures(*config, (config_address(bus, slot, function, 0),), v)
            && field_u16(v, 0) == INVALID_VENDOR,
{
    assert(2u8 & !3u8 == 0 && 0x0bu8 & !3u8 == 8 && 0x0au8 & !3u8 == 8) by (bit_vector);
    assert(0u8 & !3u8 == 0) by (bit_vector);
    let vendor_id = read_u16(config, bus, slot, function, 0);
    if vendor_id == INVALID_VENDOR {
        return None;
    }
    let device = Device {
        bus,
        slot,
        function,
        vendor_id,
        device_id: read_u16(config, bus, slot, function, 2),
        class: read_u8(config, bus, slot, function, 0x0b),
        subclass: read_u8(config, bus, slot, function, 0x0a),
    };
    visitor.visit(device);
    Some(device)
}

/// Walks every bus and slot, and the other functions of multi-function
/// devices, telling `visitor` of each device found; returns them in order.
pub fn scan<V: Visitor, F: Fn(u32) -> u32>(config: &F, visitor: &mut V) -> (r: Vec<Device>)
    requires forall|a: u32| call_requires(*config, (a,)),
    ensures
        scan_result(*config, r@),
        forall|b: u8, s: u8| s < 32 ==> #[trigger] slot_scanned(*config, r@, b, s),
{
    let mut found: Vec<Device> = Vec::new();
    let mut bus: u16 = 0;
    while bus < 256
        invariant
            forall|a: u32| call_requires(*config, (a,)),
            bus <= 256,
            scan_result(*config, found@),
            forall|i: int| 0 <= i < found@.len() ==> (#[trigger] found@[i]).bus < bus,
            forall|b: u8, s: u8| b < bus && s < 32 ==> #[trigger] slot_scanned(*config, found@, b, s),
        decreases 256 - bus,
    {
        let mut slot: u8 = 0;
        while slot < 32
            invariant
                forall|a: u32| call_requires(*config, (a,)),
                bus < 256, slot <= 32,
                scan_result(*config, found@),
                forall|i: int| 0 <= i < found@.len() ==> (#[trigger] found@[i]).bus < bus
                    || (found@[i].bus == bus && found@[i].slot < slot),
                forall|b: u8, s: u8| b < bus && s < 32 ==> #[trigger] slot_scanned(*config, found@, b, s),
                forall|s: u8| s < slot ==> #[trigger] slot_scanned(*config, found@, bus as u8, s),
            decreases 32 - slot,
        {
            let mut function: u8 = 0;
            let mut last: u8 = 1;
            while function < last
                invariant
                    forall|a: u32| call_requires(*config, (a,)),
                    bus < 256, slot < 32, function <= last, last == 1 || last == 8,
                    function == 0 ==> last == 1,
                    scan_result(*config, found@),
                    forall|i: int| 0 <= i < found@.len() ==> (#[trigger] found@[i]).bus < bus
                        || (found@[i].bus == bus && found@[i].slot < slot)
                        || (found@[i].bus == bus && found@[i].slot == slot && found@[i].function < function),
                    forall|b: u8, s: u8| b < bus && s < 32 ==> #[trigger] slot_scanned(*config, found@, b, s),
                    forall|s: u8| s < slot ==> #[trigger] slot_scanned(*config, found@, bus as u8, s),
                    forall|f: u8| f < function ==> #[trigger] present_or_empty(*config, found@, bus as u8, slot, f),
                    function >= 1 && last == 1 ==> single_function(*config, bus as u8, slot),
                decreases 8 - function, last - function,
            {
                match scan_function(config, visitor, bus as u8, slot, function) {
                    Some(d) => {
                        let ghost before_push = found@;
                        found.push(d);
                        proof {
                            assert forall|i: int, j: int| 0 <= i < j < found@.len() implies before(found@[i], found@[j]) by {
                                if j == found@.len() - 1 { assert(found@[i] == before_push[i]); }
                            }
                            assert forall|i: int| 0 <= i < found@.len() implies device_read(*config, #[trigger] found@[i]) by {
                                if i < found@.len() - 1 { assert(found@[i] == before_push[i]); }
                            }
                            assert forall|b: u8, s: u8| b < bus && s < 32 implies #[trigger] slot_scanned(*config, found@, b, s) by {
                                lemma_scanned_push(*config, before_push, d, b, s);
                            }
                            assert forall|s: u8| s < slot implies #[trigger] slot_scanned(*config, found@, bus as u8, s) by {
                                lemma_scanned_push(*config, before_push, d, bus as u8, s);
                            }
                            assert forall|f: u8| f < function implies #[trigger] present_or_empty(*config, found@, bus as u8, slot, f) by {
                                lemma_present_push(*config, before_push, d, bus as u8, slot, f);
                            }
                            let k = found@.len() - 1;
                            assert(found@[k].bus == bus as u8 && found@[k].slot == slot && found@[k].function == function);
                            assert(present_or_empty(*config, found@, bus as u8, slot, function));
                        }
                    },
                    None => {
                        assert(present_or_empty(*config, found@, bus as u8, slot, function));
                    },
                }
                if function == 0 {
                    let header_type = read_u8(config, bus as u8, slot, 0, 0x0e);
                    assert(0x0eu8 & !3u8 == 0x0c) by (bit_vector);
                    if header_type & 0x80 != 0 {
                        last = 8;
                    }
                }
                function += 1;
            }
            proof {
                if last == 8 {
                    assert forall|f: u8| 1 <= f < 8 implies #[trigger] present_or_empty(*config, found@, bus as u8, slot, f) by {}
                }
                assert(slot_scanned(*config, found@, bus as u8, slot));
            }
            slot += 1;
        }
        proof {
            assert forall|b: u8, s: u8| b < bus + 1 && s < 32 implies #[trigger] slot_scanned(*config, found@, b, s) by {
                if b as u16 == bus {
                    assert(b == bus as u8);
                }
            }
        }
        bus += 1;
    }
    found
}

/// A read of `device`'s status register said whether it has a capability
/// list (bit 4).
pub open spec fn caps_listed<F: Fn(u32) -> u32>(config: F, device: Device, listed: bool) -> bool {
    exists|v: u32| #[trigger] call_ensures(config, (config_address(device.bus, device.slot, device.function, 4),), v)
        && ((field_u16(v, 6) & 0x10 != 0) == listed)
}

/// A read of register 0x34 of `device` gave `first` (dword aligned) as the
/// offset of its first capability.
pub open spec fn first_cap<F: Fn(u32) -> u32>(config: F, device: Device, first: u8) -> bool {
    exists|v: u32| #[trigger] call_ensures(config, (config_address(device.bus, device.slot, device.function, 0x34),), v)
        && first == field_u8(v, 0x34) & !3u8
}

/// A read of the byte after the capability at `offset` gave `next` (dword
/// aligned) as the offset of the next one.
pub open spec fn next_cap<F: Fn(u32) -> u32>(config: F, device: Device, offset: u8, next: u8) -> bool {
    exists|v: u32| #[trigger] call_ensures(config,
        (config_address(device.bus, device.slot, device.function, ((offset + 1) as u8) & !3u8),), v)
        && next == field_u8(v, (offset + 1) as u8) & !3u8
}

/// The capability list of `device`, when its status register says it has
/// one: from the offset in register 0x34, each entry's id at its offset and
/// the next offset in the byte after it, until an offset below 0x40 or 48
/// entries.
pub fn visit_capabilities<F: Fn(u32) -> u32>(config: &F, device: Device) -> (r: Vec<Capability>)
    requires forall|a: u32| call_requires(*config, (a,)),
    ensures
        r@.len() <= 48,
        forall|i: int| 0 <= i < r@.len() ==> {
            let c = #[trigger] r@[i];
            &&& c.offset >= 0x40 && c.offset & 3 == 0
            &&& exists|d: u32| #[trigger] call_ensures(*config,
                    (config_address(device.bus, device.slot, device.function, c.offset & !3u8),), d)
                    && c.id == field_u8(d, c.offset)
        },
        r@.len() > 0 ==> caps_listed(*config, device, true) && first_cap(*config, device, r@[0].offset),
        forall|k: int| 0 <= k < r@.len() - 1 ==> next_cap(*config, device, #[trigger] r@[k].offset, r@[k + 1].offset),
        r@.len() == 0 ==> caps_listed(*config, device, false)
            || (caps_listed(*config, device, true) && exists|f: u8| f < 0x40 && #[trigger] first_cap(*config, device, f)),
        0 < r@.len() < 48 ==> exists|n: u8| n < 0x40 && #[trigger] next_cap(*config, device, r@[r@.len() - 1].offset, n),
{
    let mut caps: Vec<Capability> = Vec::new();
    let status = read_u16(config, device.bus, device.slot, device.function, 0x06);
    assert(0x06u8 & !3u8 == 4 && (1u16 << 4u16) == 0x10) by (bit_vector);
    if status & (1u16 << 4u16) == 0 {
        return caps;
    }
    let first = read_u8(config, device.bus, device.slot, device.function, 0x34);
    assert(0x34u8 & !3u8 == 0x34) by (bit_vector);
    let mut offset = first & !3u8;
    assert(offset & 3 == 0) by (bit_vector) requires offset == first & !3u8;
    assert(first_cap(*config, device, offset));
    let mut guard: usize = 0;
    while offset >= 0x40 && guard < 48
        invariant
            forall|a: u32| call_requires(*config, (a,)),
            guard <= 48,
            caps@.len() == guard,
            offset & 3 == 0,
            caps_listed(*config, device, true),
            forall|i: int| 0 <= i < caps@.len() ==> {
                let c = #[trigger] caps@[i];
                &&& c.offset >= 0x40 && c.offset & 3 == 0
                &&& exists|d: u32| #[trigger] call_ensures(*config,
                        (config_address(device.bus, device.slot, device.function, c.offset & !3u8),), d)
                        && c.id == field_u8(d, c.offset)
            },
            caps@.len() == 0 ==> first_cap(*config, device, offset),
            caps@.len() > 0 ==> first_cap(*config, device, caps@[0].offset),
            caps@.len() > 0 ==> next_cap(*config, device, caps@[caps@.len() - 1].offset, offset),
            forall|k: int| 0 <= k < caps@.len() - 1 ==> next_cap(*config, device, #[trigger] caps@[k].offset, caps@[k + 1].offset),
        decreases 48 - guard,
    {
        let id = read_u8(config, device.bus, device.slot, device.function, offset);
        let ghost before_push = caps@;
        caps.push(Capability { id, offset });
        proof {
            assert forall|i: int| 0 <= i < caps@.len() implies {
                let c = #[trigger] caps@[i];
                &&& c.offset >= 0x40 && c.offset & 3 == 0
                &&& exists|d: u32| #[trigger] call_ensures(*config,
                        (config_address(device.bus, device.slot, device.function, c.offset & !3u8),), d)
                        && c.id == field_u8(d, c.offset)
            } by {
                if i < caps@.len() - 1 { assert(caps@[i] == before_push[i]); }
            }
            assert forall|k: int| 0 <= k < caps@.len() - 1 implies next_cap(*config, device, #[trigger] caps@[k].offset, caps@[k + 1].offset) by {
                if k < caps@.len() - 2 {
                    assert(caps@[k] == before_push[k] && caps@[k + 1] == before_push[k + 1]);
                } else {
                    assert(caps@[k] == before_push[before_push.len() - 1]);
                }
            }
            if before_push.len() > 0 { assert(caps@[0] == before_push[0]); }
        }
        assert(offset <= 0xfc) by (bit_vector) requires offset & 3 == 0;
        let next = read_u8(config, device.bus, device.slot, device.function, offset + 1);
        let ghost cur = offset;
        offset = next & !3u8;
        assert(offset & 3 == 0) by (bit_vector) requires offset == next & !3u8;
        assert(next_cap(*config, device, cur, offset));
        guard += 1;
    }
    proof {
        if caps@.len() == 0 {
            assert(first_cap(*config, device, offset));
        }
        if 0 < caps@.len() < 48 {
            assert(next_cap(*config, device, caps@[caps@.len() - 1].offset, offset));
        }
    }
    caps
}

} // verus!
