//! Interrupt service: the table of handler entry points called by the common
//! interrupt entry, the report shown for an unexpected interrupt, and the
//! interrupt-enable flag of EFLAGS.
use crate::vga::{
    blank_cells, c_string, chars_step, clear, hex_digits, lemma_chars_step_concat,
    lemma_chars_step_single, put_bytes,
    put_char, put_int_hex, put_str, screen_ok, Screen, ScreenView,
};
use vstd::prelude::*;

verus! {

/// Number of interrupt vectors that have an entry in the handler table.
pub const IDT_DESC_CNT: usize = 0x30;
/// The interrupt-enable flag (IF) of EFLAGS.
pub const EFLAGS_IF: u32 = 0x200;
/// The vector of the timer interrupt, which the default handler ignores.
pub const TIMER_VECTOR: u32 = 0x20;
/// Where the default handler starts its report: the start of row 4.
pub const REPORT_CURSOR: u16 = 320;

/// The handler called for each interrupt vector, by entry address.
pub struct HandlerTable {
    pub handlers: Vec<usize>,
}

/// "the thread name is  "
pub open spec fn thread_name_label() -> Seq<u8> {
    seq![
        0x74u8, 0x68, 0x65, 0x20, 0x74, 0x68, 0x72, 0x65, 0x61, 0x64, 0x20, 0x6e, 0x61, 0x6d,
        0x65, 0x20, 0x69, 0x73, 0x20, 0x20,
    ]
}

/// "the vecnum  = "
pub open spec fn vecnum_label() -> Seq<u8> {
    seq![0x74u8, 0x68, 0x65, 0x20, 0x76, 0x65, 0x63, 0x6e, 0x75, 0x6d, 0x20, 0x20, 0x3d, 0x20]
}

/// The report of an unexpected interrupt `vecnum` taken while the thread
/// named by the NUL-terminated `name` was running.
pub open spec fn fault_report(name: Seq<u8>, vecnum: u32) -> Seq<u8> {
    thread_name_label() + c_string(name) + seq![0x0au8] + vecnum_label() + hex_digits(
        vecnum as nat,
    ) + seq![0x0au8]
}

fn label_bytes(first: bool) -> (v: Vec<u8>)
    ensures
        v@ == (if first { thread_name_label() } else { vecnum_label() }),
{
    let v = if first {
        vec![
            0x74u8, 0x68, 0x65, 0x20, 0x74, 0x68, 0x72, 0x65, 0x61, 0x64, 0x20, 0x6e, 0x61, 0x6d,
            0x65, 0x20, 0x69, 0x73, 0x20, 0x20,
        ]
    } else {
        vec![0x74u8, 0x68, 0x65, 0x20, 0x76, 0x65, 0x63, 0x6e, 0x75, 0x6d, 0x20, 0x20, 0x3d, 0x20]
    };
    proof {
        if first {
            assert(v@ =~= thread_name_label());
        } else {
            assert(v@ =~= vecnum_label());
        }
    }
    v
}

/// The default handler of every vector: the timer vector is ignored; any
/// other clears the screen and reports the running thread's name and the
/// vector from row 4, after which the processor is to be halted for good.
///
/// Returns whether the processor is to be halted.
pub fn general_program(screen: &mut Screen, vecnum: u32, name: &[u8]) -> (halt: bool)
    requires
        screen_ok(old(screen)@),
    ensures
        screen_ok(final(screen)@),
        vecnum == TIMER_VECTOR ==> !halt && final(screen)@ == old(screen)@,
        vecnum != TIMER_VECTOR ==> halt && final(screen)@ == chars_step(
            ScreenView { cells: blank_cells(), cursor: REPORT_CURSOR as int },
            fault_report(name@, vecnum),
        ),
{
    if vecnum == TIMER_VECTOR {
        return false;
    }
    clear(screen);
    screen.cursor = REPORT_CURSOR;
    let ghost s0 = screen@;
    let l1 = label_bytes(true);
    put_bytes(screen, l1.as_slice());
    put_str(screen, name);
    put_char(screen, 0x0a);
    let l2 = label_bytes(false);
    put_bytes(screen, l2.as_slice());
    put_int_hex(screen, vecnum);
    put_char(screen, 0x0a);
    proof {
        let a = thread_name_label();
        let b = c_string(name@);
        let c = seq![0x0au8];
        let d = vecnum_label();
        let e = hex_digits(vecnum as nat);
        lemma_chars_step_concat(s0, a, b);
        lemma_chars_step_concat(s0, a + b, c);
        lemma_chars_step_concat(s0, a + b + c, d);
        lemma_chars_step_concat(s0, a + b + c + d, e);
        lemma_chars_step_concat(s0, a + b + c + d + e, c);
        lemma_chars_step_single(chars_step(s0, a + b), 0x0a);
        lemma_chars_step_single(chars_step(s0, a + b + c + d + e), 0x0a);
    }
    true
}

/// A handler table with every vector entering the handler at `default_handler`.
pub fn init_idt_table(default_handler: usize) -> (t: HandlerTable)
    ensures
        t.handlers.len() == IDT_DESC_CNT,
        forall|i: int| 0 <= i < IDT_DESC_CNT ==> t.handlers@[i] == default_handler,
{
    let mut handlers: Vec<usize> = Vec::new();
    let mut i: usize = 0;
    while i < IDT_DESC_CNT
        invariant
            i <= IDT_DESC_CNT,
            handlers.len() == i,
            forall|j: int| 0 <= j < i ==> handlers@[j] == default_handler,
        decreases IDT_DESC_CNT - i,
    {
        handlers.push(default_handler);
        i += 1;
    }
    HandlerTable { handlers }
}

/// Makes the handler at `func` the one called for vector `vecnum`.
pub fn register_intr_handler(table: &mut HandlerTable, vecnum: u32, func: usize)
    requires
        old(table).handlers.len() == IDT_DESC_CNT,
        vecnum < IDT_DESC_CNT,
    ensures
        final(table).handlers@ == old(table).handlers@.update(vecnum as int, func),
{
    table.handlers.set(vecnum as usize, func);
}

/// Clears the interrupt-enable flag and returns its former value, as the
/// flag bit (`EFLAGS_IF` or 0).
pub fn intr_disable_c(eflags: &mut u32) -> (r: u32)
    ensures
        r == old(eflags) & EFLAGS_IF,
        *final(eflags) == *old(eflags) & !EFLAGS_IF,
{
    let r = *eflags & EFLAGS_IF;
    *eflags = *eflags & !EFLAGS_IF;
    r
}

/// Sets the interrupt-enable flag and returns its former value, as the flag
/// bit (`EFLAGS_IF` or 0).
pub fn intr_enable_c(eflags: &mut u32) -> (r: u32)
    ensures
        r == old(eflags) & EFLAGS_IF,
        *final(eflags) == *old(eflags) | EFLAGS_IF,
{
    let r = *eflags & EFLAGS_IF;
    *eflags = *eflags | EFLAGS_IF;
    r
}

/// Restores the interrupt-enable flag from a value returned by
/// `intr_disable_c` or `intr_enable_c`.
pub fn set_intr_status(eflags: &mut u32, status: u32)
    requires
        status == EFLAGS_IF || status == 0,
    ensures
        status == EFLAGS_IF ==> *final(eflags) == *old(eflags) | EFLAGS_IF,
        status == 0 ==> *final(eflags) == *old(eflags) & !EFLAGS_IF,
{
    if status == EFLAGS_IF {
        intr_enable_c(eflags);
    } else {
        intr_disable_c(eflags);
    }
}

/// With the interrupt-enable flag cleared it reads as clear, and clearing it
/// again changes nothing.
pub proof fn lemma_if_cleared(eflags: u32)
    by (bit_vector)
    ensures
        (eflags & !0x200u32) & 0x200u32 == 0,
        (eflags & !0x200u32) & !0x200u32 == eflags & !0x200u32,
{
}

/// Disabling interrupts and then restoring the status it returned gives back
/// the interrupt-enable flag as it was, and leaves every other flag alone.
pub proof fn lemma_disable_restore(eflags: u32)
    ensures
        ({
            let status = eflags & EFLAGS_IF;
            let off = eflags & !EFLAGS_IF;
            let back = if status == EFLAGS_IF { off | EFLAGS_IF } else { off & !EFLAGS_IF };
            &&& status == EFLAGS_IF || status == 0
            &&& back == eflags
        }),
{
    assert({
        let status = eflags & 0x200u32;
        let off = eflags & !0x200u32;
        let back = if status == 0x200u32 { off | 0x200u32 } else { off & !0x200u32 };
        &&& status == 0x200u32 || status == 0
        &&& back == eflags
    }) by (bit_vector);
}

} // verus!
