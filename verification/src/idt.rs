//! The interrupt descriptor table: 256 gate descriptors, each naming the
//! handler entry point of one interrupt vector.
use vstd::prelude::*;

verus! {

pub const IDT_INTGATE: u8 = 0x6;
pub const IDT_TRAPGATE: u8 = 0x7;
/// Number of vectors that the kernel installs handlers for.
pub const IDT_DESC_CNT: u32 = 0x30;
pub const IDT_PRESENT: u8 = 0x80;
pub const IDT_GATE32: u8 = 0x8;
pub const IDT_SIZE: usize = 256;
pub const CODE_SELECTOR: u16 = 0x08;
/// Size in bytes of one gate descriptor.
pub const GATE_DESC_SIZE: usize = 8;

/// One gate descriptor, field by field as the processor reads it.
#[derive(Clone, Copy, PartialEq, Eq, Debug, Structural)]
pub struct GateDesc {
    pub baselo: u16,
    pub selector: u16,
    pub reserved: u8,
    pub flags: u8,
    pub basehi: u16,
}

/// The table of gate descriptors.
pub struct Idt {
    pub gates: Vec<GateDesc>,
}

/// The table has one gate per vector.
pub open spec fn idt_ok(idt: &Idt) -> bool {
    idt.gates.len() == IDT_SIZE
}

/// A present 32-bit gate of type `gatetype` into the kernel code segment at
/// address `base`.
pub open spec fn gate_for(gatetype: u8, base: u32) -> GateDesc {
    GateDesc {
        baselo: (base % 0x10000) as u16,
        selector: CODE_SELECTOR,
        reserved: 0,
        flags: (gatetype | IDT_PRESENT | IDT_GATE32) as u8,
        basehi: (base / 0x10000) as u16,
    }
}

/// The handler address that a gate names.
pub open spec fn gate_base(g: GateDesc) -> int {
    g.basehi * 0x10000 + g.baselo
}

impl Idt {
    /// A table of zeroed gates.
    pub fn new() -> (r: Idt)
        ensures
            idt_ok(&r),
            forall|i: int| 0 <= i < IDT_SIZE ==> r.gates@[i] == (GateDesc {
                baselo: 0,
                selector: 0,
                reserved: 0,
                flags: 0,
                basehi: 0,
            }),
    {
        let mut gates: Vec<GateDesc> = Vec::new();
        let mut i: usize = 0;
        while i < IDT_SIZE
            invariant
                i <= IDT_SIZE,
                gates.len() == i,
                forall|j: int| 0 <= j < i ==> gates@[j] == (GateDesc {
                    baselo: 0,
                    selector: 0,
                    reserved: 0,
                    flags: 0,
                    basehi: 0,
                }),
            decreases IDT_SIZE - i,
        {
            gates.push(GateDesc { baselo: 0, selector: 0, reserved: 0, flags: 0, basehi: 0 });
            i += 1;
        }
        Idt { gates }
    }
}

proof fn lemma_split_base(base: u32)
    by (bit_vector)
    ensures
        base & 0xffff == base % 0x10000,
        base >> 16 == base / 0x10000,
{
}

/// Installs a present gate of type `gatetype` for vector `vecnum` that enters
/// the handler at address `base`.
pub fn idt_register(idt: &mut Idt, vecnum: u8, gatetype: u8, base: u32)
    requires
        idt_ok(old(idt)),
    ensures
        idt_ok(final(idt)),
        final(idt).gates@ == old(idt).gates@.update(vecnum as int, gate_for(gatetype, base)),
{
    proof {
        lemma_split_base(base);
    }
    let desc = GateDesc {
        baselo: (base & 0xffff) as u16,
        selector: CODE_SELECTOR,
        reserved: 0,
        flags: gatetype | IDT_PRESENT | IDT_GATE32,
        basehi: (base >> 16) as u16,
    };
    idt.gates.set(vecnum as usize, desc);
}

/// Clears the present bit of the descriptor for interrupt `vecnum`.
pub fn idt_unregister(idt: &mut Idt, vecnum: u8)
    requires
        idt_ok(old(idt)),
    ensures
        idt_ok(final(idt)),
        final(idt).gates@ == old(idt).gates@.update(
            vecnum as int,
            GateDesc { flags: 0, ..old(idt).gates@[vecnum as int] },
        ),
{
    let g = idt.gates[vecnum as usize];
    idt.gates.set(vecnum as usize, GateDesc { flags: 0, ..g });
}

/// Sets the handler address in the descriptor for interrupt `vecnum` to
/// `base`, keeping its type and presence.
pub fn change_func_addr(idt: &mut Idt, vecnum: u32, base: u32)
    requires
        idt_ok(old(idt)),
        vecnum < IDT_SIZE,
    ensures
        idt_ok(final(idt)),
        final(idt).gates@ == old(idt).gates@.update(
            vecnum as int,
            GateDesc {
                baselo: (base % 0x10000) as u16,
                basehi: (base / 0x10000) as u16,
                ..old(idt).gates@[vecnum as int]
            },
        ),
{
    proof {
        lemma_split_base(base);
    }
    let g = idt.gates[vecnum as usize];
    idt.gates.set(
        vecnum as usize,
        GateDesc { baselo: (base & 0xffff) as u16, basehi: (base >> 16) as u16, ..g },
    );
}

/// Marks every gate not present and returns the limit to load into the
/// IDTR: the table's size in bytes less one.
pub fn idt_init(idt: &mut Idt) -> (limit: u16)
    requires
        idt_ok(old(idt)),
    ensures
        idt_ok(final(idt)),
        limit == IDT_SIZE * GATE_DESC_SIZE - 1,
        forall|i: int| 0 <= i < IDT_SIZE ==> final(idt).gates@[i] == (GateDesc {
            flags: 0,
            ..old(idt).gates@[i]
        }),
{
    let ghost g0 = idt.gates@;
    let mut i: usize = 0;
    while i < IDT_SIZE
        invariant
            i <= IDT_SIZE,
            idt_ok(idt),
            g0 == old(idt).gates@,
            forall|j: int| 0 <= j < i ==> idt.gates@[j] == (GateDesc { flags: 0, ..g0[j] }),
            forall|j: int| i <= j < IDT_SIZE ==> idt.gates@[j] == g0[j],
        decreases IDT_SIZE - i,
    {
        idt_unregister(idt, i as u8);
        i += 1;
    }
    (IDT_SIZE * GATE_DESC_SIZE - 1) as u16
}

/// A registered gate names the handler address it was given.
pub proof fn lemma_gate_base(gatetype: u8, base: u32)
    ensures
        gate_base(gate_for(gatetype, base)) == base,
        gate_for(gatetype, base).flags & IDT_PRESENT != 0,
{
    let f = gatetype | IDT_PRESENT | IDT_GATE32;
    assert(f & IDT_PRESENT != 0) by (bit_vector)
        requires
            f == gatetype | 0x80u8 | 0x8u8,
    ;
}

} // verus!
