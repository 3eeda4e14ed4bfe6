//! The 32-bit task-state segment, used only for the ring-0 stack pointer
//! the CPU loads on a privilege change.
use vstd::prelude::*;
use crate::gdt::TSS_SIZE;

verus! {

/// Data segment selector loaded into `ss0`.
pub const KERNEL_DATA_SELECTOR: u32 = 0x10;

/// The 104-byte 32-bit x86 task-state segment.
pub struct TaskStateSegment {
    pub previous_task: u32,
    pub esp0: u32,
    pub ss0: u32,
    pub esp1: u32,
    pub ss1: u32,
    pub esp2: u32,
    pub ss2: u32,
    pub cr3: u32,
    pub eip: u32,
    pub eflags: u32,
    pub eax: u32,
    pub ecx: u32,
    pub edx: u32,
    pub ebx: u32,
    pub esp: u32,
    pub ebp: u32,
    pub esi: u32,
    pub edi: u32,
    pub es: u32,
    pub cs: u32,
    pub ss: u32,
    pub ds: u32,
    pub fs: u32,
    pub gs: u32,
    pub ldt: u32,
    /// Low 16 bits: trap flag; high 16 bits: I/O bitmap offset.
    pub trap_iomap: u32,
}

impl TaskStateSegment {
    /// Whether every field but `esp0`, `ss0` and `trap_iomap` is zero.
    pub open spec fn others_zero(&self) -> bool {
        &&& self.previous_task == 0
        &&& self.esp1 == 0
        &&& self.ss1 == 0
        &&& self.esp2 == 0
        &&& self.ss2 == 0
        &&& self.cr3 == 0
        &&& self.eip == 0
        &&& self.eflags == 0
        &&& self.eax == 0
        &&& self.ecx == 0
        &&& self.edx == 0
        &&& self.ebx == 0
        &&& self.esp == 0
        &&& self.ebp == 0
        &&& self.esi == 0
        &&& self.edi == 0
        &&& self.es == 0
        &&& self.cs == 0
        &&& self.ss == 0
        &&& self.ds == 0
        &&& self.fs == 0
        &&& self.gs == 0
        &&& self.ldt == 0
    }

    /// The kernel's TSS before any task runs: ring-0 stack segment set to the
    /// kernel data selector, no I/O bitmap (its offset points just past the
    /// TSS), everything else zero.
    pub fn new() -> (r: TaskStateSegment)
        ensures
            r.esp0 == 0,
            r.ss0 == KERNEL_DATA_SELECTOR,
            r.trap_iomap == TSS_SIZE * 0x1_0000,
            r.others_zero(),
    {
        assert(104u32 << 16u32 == 104u32 * 0x1_0000u32) by (bit_vector);
        TaskStateSegment {
            previous_task: 0,
            esp0: 0,
            ss0: KERNEL_DATA_SELECTOR,
            esp1: 0,
            ss1: 0,
            esp2: 0,
            ss2: 0,
            cr3: 0,
            eip: 0,
            eflags: 0,
            eax: 0,
            ecx: 0,
            edx: 0,
            ebx: 0,
            esp: 0,
            ebp: 0,
            esi: 0,
            edi: 0,
            es: 0,
            cs: 0,
            ss: 0,
            ds: 0,
            fs: 0,
            gs: 0,
            ldt: 0,
            trap_iomap: TSS_SIZE << 16,
        }
    }
}

/// The kernel's single TSS.
pub struct GlobalTss {
    pub inner: TaskStateSegment,
}

impl GlobalTss {
    /// The global TSS, as `TaskStateSegment::new` builds it.
    pub fn new() -> (r: GlobalTss)
        ensures
            r.inner.esp0 == 0,
            r.inner.ss0 == KERNEL_DATA_SELECTOR,
            r.inner.trap_iomap == TSS_SIZE * 0x1_0000,
            r.inner.others_zero(),
    {
        GlobalTss { inner: TaskStateSegment::new() }
    }

    /// The task-state segment itself.
    pub fn as_ptr(&self) -> (r: &TaskStateSegment)
        ensures
            *r == self.inner,
    {
        &self.inner
    }
}

/// Sets the ring-0 stack pointer the CPU loads on an interrupt from ring 3.
pub fn set_esp0(tss: &mut GlobalTss, esp0: u32)
    ensures
        final(tss).inner == (TaskStateSegment { esp0, ..old(tss).inner }),
{
    tss.inner.esp0 = esp0;
}

} // verus!
