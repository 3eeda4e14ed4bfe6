//! x86 segment descriptors and the kernel's Global Descriptor Table.
use vstd::prelude::*;

verus! {

// Segment selectors. The index is selector >> 3; the low two bits are RPL.
pub const KERNEL_CODE_SELECTOR: u16 = 0x08;
pub const KERNEL_DATA_SELECTOR: u16 = 0x10;
pub const VIDEO_SELECTOR: u16 = 0x18;
pub const USER_CODE_SELECTOR: u16 = 0x23;
pub const USER_DATA_SELECTOR: u16 = 0x2b;
pub const TSS_SELECTOR: u16 = 0x30;

/// Number of eight-byte entries in the GDT; the TSS descriptor takes two.
pub const GDT_ENTRY_COUNT: usize = 8;

// Descriptor flags in the 32-bit descriptor encoding.
pub const PRESENT: u32 = 0x8000;
pub const DPL_RING3: u32 = 0x6000;
/// S bit: application (code or data) descriptor.
pub const CODE: u32 = 0x1000;
pub const DATA_RW: u32 = 0x200;
/// Execute/read code segment: TYPE=0b1010.
pub const CODE_RX: u32 = 0xa00;
pub const GRANULARITY_4K: u32 = 0x80_0000;
pub const OPERAND_32BIT: u32 = 0x40_0000;

/// Size in bytes of the 32-bit task-state segment.
pub const TSS_SIZE: u32 = 104;
/// Base address of the text-mode video memory.
pub const VIDEO_MEMORY_BASE: u32 = 0xb_8000;

/// Whether `d` is the descriptor with the given base, limit and attribute
/// flags, laid out as x86 does: limit bits 0-15 in bits 0-15, base bits
/// 0-23 in bits 16-39, the access byte (flag bits 8-15) in bits 40-47, limit
/// bits 16-19 in bits 48-51, flag bits 20-23 (granularity, size) in bits
/// 52-55 and base bits 24-31 in bits 56-63.
pub open spec fn is_descriptor(d: u64, base: u32, limit: u32, flags: u32) -> bool {
    &&& d & 0xffff == (limit & 0xffff) as u64
    &&& (d >> 16u64) & 0xff_ffff == (base & 0xff_ffff) as u64
    &&& (d >> 40u64) & 0xff == ((flags >> 8u32) & 0xff) as u64
    &&& (d >> 48u64) & 0xf == ((limit >> 16u32) & 0xf) as u64
    &&& (d >> 52u64) & 0xf == ((flags >> 20u32) & 0xf) as u64
    &&& d >> 56u64 == (base >> 24u32) as u64
}

/// Encodes a segment descriptor from its base, limit and attribute fields.
/// Only limit bits 0-19 and flag bits 8-15 and 20-23 are kept.
pub fn descriptor(base: u32, limit: u32, flags: u32) -> (r: u64)
    ensures
        is_descriptor(r, base, limit, flags),
{
    let low = (limit & 0xffff) | ((base & 0xffff) << 16);
    let high = ((base >> 16) & 0xff) | (flags & 0x00f0ff00) | (((limit >> 16) & 0x0f) << 16) | (base & 0xff000000);
    let r = ((high as u64) << 32) | low as u64;
    assert(r & 0xffff == (limit & 0xffff) as u64) by (bit_vector)
        requires
            low == (limit & 0xffffu32) | ((base & 0xffffu32) << 16u32),
            r == ((high as u64) << 32u64) | (low as u64),
    ;
    assert((r >> 16u64) & 0xff_ffff == (base & 0xff_ffff) as u64) by (bit_vector)
        requires
            low == (limit & 0xffffu32) | ((base & 0xffffu32) << 16u32),
            high == ((base >> 16u32) & 0xffu32) | (flags & 0x00f0ff00u32) | (((limit >> 16u32) & 0x0fu32) << 16u32) | (base & 0xff000000u32),
            r == ((high as u64) << 32u64) | (low as u64),
    ;
    assert((r >> 40u64) & 0xff == ((flags >> 8u32) & 0xff) as u64) by (bit_vector)
        requires
            high == ((base >> 16u32) & 0xffu32) | (flags & 0x00f0ff00u32) | (((limit >> 16u32) & 0x0fu32) << 16u32) | (base & 0xff000000u32),
            r == ((high as u64) << 32u64) | (low as u64),
    ;
    assert((r >> 48u64) & 0xf == ((limit >> 16u32) & 0xf) as u64) by (bit_vector)
        requires
            high == ((base >> 16u32) & 0xffu32) | (flags & 0x00f0ff00u32) | (((limit >> 16u32) & 0x0fu32) << 16u32) | (base & 0xff000000u32),
            r == ((high as u64) << 32u64) | (low as u64),
    ;
    assert((r >> 52u64) & 0xf == ((flags >> 20u32) & 0xf) as u64) by (bit_vector)
        requires
            high == ((base >> 16u32) & 0xffu32) | (flags & 0x00f0ff00u32) | (((limit >> 16u32) & 0x0fu32) << 16u32) | (base & 0xff000000u32),
            r == ((high as u64) << 32u64) | (low as u64),
    ;
    assert(r >> 56u64 == (base >> 24u32) as u64) by (bit_vector)
        requires
            high == ((base >> 16u32) & 0xffu32) | (flags & 0x00f0ff00u32) | (((limit >> 16u32) & 0x0fu32) << 16u32) | (base & 0xff000000u32),
            r == ((high as u64) << 32u64) | (low as u64),
    ;
    r
}

/// A flat 4-GiB 32-bit execute/read code segment at privilege `dpl`.
pub fn flat_code_descriptor(dpl: u32) -> (r: u64)
    requires
        dpl == 0 || dpl == DPL_RING3,
    ensures
        is_descriptor(r, 0, 0xfffff, PRESENT | dpl | CODE | CODE_RX | GRANULARITY_4K | OPERAND_32BIT),
{
    descriptor(0, 0xfffff, PRESENT | dpl | CODE | CODE_RX | GRANULARITY_4K | OPERAND_32BIT)
}

/// A flat 4-GiB 32-bit read/write data segment at privilege `dpl`.
pub fn flat_data_descriptor(dpl: u32) -> (r: u64)
    requires
        dpl == 0 || dpl == DPL_RING3,
    ensures
        is_descriptor(r, 0, 0xfffff, PRESENT | dpl | CODE | DATA_RW | GRANULARITY_4K | OPERAND_32BIT),
{
    descriptor(0, 0xfffff, PRESENT | dpl | CODE | DATA_RW | GRANULARITY_4K | OPERAND_32BIT)
}

/// A 32-bit available TSS descriptor (system descriptor, TYPE=0b1001, DPL 0).
pub fn tss_descriptor(base: u32, limit: u32) -> (r: u64)
    ensures
        is_descriptor(r, base, limit, PRESENT | 0x900),
{
    descriptor(base, limit, PRESENT | 0x900)
}

/// The decoded base address of descriptor `d`.
pub open spec fn descriptor_base(d: u64) -> u64 {
    ((d >> 16u64) & 0xff_ffff) | ((d >> 56u64) << 24u64)
}

/// The decoded 20-bit limit of descriptor `d`.
pub open spec fn descriptor_limit(d: u64) -> u64 {
    (d & 0xffff) | (((d >> 48u64) & 0xf) << 16u64)
}

/// The decoded attribute flags of descriptor `d`, in the positions the
/// encoder takes them from.
pub open spec fn descriptor_flags(d: u64) -> u64 {
    (((d >> 40u64) & 0xff) << 8u64) | (((d >> 52u64) & 0xf) << 20u64)
}

/// Decoding a descriptor gives back its base, the 20 bits of its limit, and
/// the attribute bits of its flags.
pub proof fn lemma_descriptor_roundtrip(base: u32, limit: u32, flags: u32, d: u64)
    requires
        is_descriptor(d, base, limit, flags),
    ensures
        descriptor_base(d) == base as u64,
        descriptor_limit(d) == (limit & 0xfffff) as u64,
        descriptor_flags(d) == (flags & 0x00f0ff00) as u64,
{
    assert(descriptor_base(d) == base as u64) by (bit_vector)
        requires
            is_descriptor(d, base, limit, flags),
    ;
    assert(descriptor_limit(d) == (limit & 0xfffff) as u64) by (bit_vector)
        requires
            is_descriptor(d, base, limit, flags),
    ;
    assert(descriptor_flags(d) == (flags & 0x00f0ff00) as u64) by (bit_vector)
        requires
            is_descriptor(d, base, limit, flags),
    ;
}

/// The kernel GDT, and what the processor is to load once it is built: the
/// GDTR (`limit` and `base`, for `lgdt`), the selectors for CS (by a far
/// jump), DS, ES, SS and GS, and the task register selector (for `ltr`).
pub struct Gdt {
    pub entries: Vec<u64>,
    pub limit: u16,
    pub base: u32,
    pub cs: u16,
    pub ds: u16,
    pub es: u16,
    pub ss: u16,
    pub gs: u16,
    pub tr: u16,
}

/// Builds the kernel GDT: null, kernel code, kernel data, video memory
/// (32 KiB from `VIDEO_MEMORY_BASE`), user code, user data, and the TSS at
/// `tss_base` in entries 6 and 7 (entry 7 left null). The selectors
/// `KERNEL_CODE_SELECTOR` through `TSS_SELECTOR` index these entries.
/// The table is to live at `gdt_base`; the result says what to load: the
/// GDTR, CS = the kernel code selector, DS = ES = SS = the kernel data
/// selector, GS = the video selector, and TR = the TSS selector. (The
/// caller executes `lgdt`, the segment reloads and `ltr` with these values.)
pub fn gdt_init(gdt_base: u32, tss_base: u32) -> (r: Gdt)
    ensures
        r.entries.len() == GDT_ENTRY_COUNT,
        r.limit == 63,
        r.base == gdt_base,
        r.cs == KERNEL_CODE_SELECTOR,
        r.ds == KERNEL_DATA_SELECTOR,
        r.es == KERNEL_DATA_SELECTOR,
        r.ss == KERNEL_DATA_SELECTOR,
        r.gs == VIDEO_SELECTOR,
        r.tr == TSS_SELECTOR,
        r.entries@[0] == 0,
        is_descriptor(r.entries@[1], 0, 0xfffff, PRESENT | CODE | CODE_RX | GRANULARITY_4K | OPERAND_32BIT),
        is_descriptor(r.entries@[2], 0, 0xfffff, PRESENT | CODE | DATA_RW | GRANULARITY_4K | OPERAND_32BIT),
        is_descriptor(r.entries@[3], VIDEO_MEMORY_BASE, 7, PRESENT | CODE | DATA_RW | GRANULARITY_4K | OPERAND_32BIT),
        is_descriptor(
            r.entries@[4],
            0,
            0xfffff,
            PRESENT | DPL_RING3 | CODE | CODE_RX | GRANULARITY_4K | OPERAND_32BIT,
        ),
        is_descriptor(r.entries@[5], 0, 0xfffff, PRESENT | DPL_RING3 | CODE | DATA_RW | GRANULARITY_4K | OPERAND_32BIT),
        is_descriptor(r.entries@[6], tss_base, 103, PRESENT | 0x900),
        r.entries@[7] == 0,
{
    assert(PRESENT | 0u32 | CODE | CODE_RX | GRANULARITY_4K | OPERAND_32BIT
        == PRESENT | CODE | CODE_RX | GRANULARITY_4K | OPERAND_32BIT) by (bit_vector);
    assert(PRESENT | 0u32 | CODE | DATA_RW | GRANULARITY_4K | OPERAND_32BIT
        == PRESENT | CODE | DATA_RW | GRANULARITY_4K | OPERAND_32BIT) by (bit_vector);
    let mut entries: Vec<u64> = Vec::new();
    entries.push(0);
    entries.push(flat_code_descriptor(0));
    entries.push(flat_data_descriptor(0));
    entries.push(descriptor(VIDEO_MEMORY_BASE, 7, PRESENT | CODE | DATA_RW | GRANULARITY_4K | OPERAND_32BIT));
    entries.push(flat_code_descriptor(DPL_RING3));
    entries.push(flat_data_descriptor(DPL_RING3));
    entries.push(tss_descriptor(tss_base, TSS_SIZE - 1));
    entries.push(0);
    Gdt {
        entries,
        limit: (GDT_ENTRY_COUNT * 8 - 1) as u16,
        base: gdt_base,
        cs: KERNEL_CODE_SELECTOR,
        ds: KERNEL_DATA_SELECTOR,
        es: KERNEL_DATA_SELECTOR,
        ss: KERNEL_DATA_SELECTOR,
        gs: VIDEO_SELECTOR,
        tr: TSS_SELECTOR,
    }
}

} // verus!
