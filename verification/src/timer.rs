//! The 8253 programmable interval timer, programmed to raise IRQ 0 a hundred
//! times a second.
use crate::messages::{timer_done_msg, timer_done_text, timer_start_msg, timer_start_text};
use crate::port::{port_write, PortWrite};
use crate::vga::{chars_step, lemma_chars_step_concat, put_bytes, screen_ok, Screen};
use vstd::prelude::*;

verus! {

pub const IRQ0_FREQUENCY: u32 = 100;
pub const INPUT_FREQUENCY: u32 = 1193180;
/// The counter's initial value, `INPUT_FREQUENCY / IRQ0_FREQUENCY`.
pub const COUNTER0_VALUE: u16 = 11931;
pub const CONTRER0_PORT: u16 = 0x40;
pub const COUNTER0_NO: u8 = 0;
pub const COUNTER_MODE: u8 = 2;
pub const READ_WRITE_LATCH: u8 = 3;
pub const PIT_CONTROL_PORT: u16 = 0x43;

/// The control word that selects counter `counter_no`, access mode `rwl` and
/// operating mode `counter_mode`, in binary counting.
pub open spec fn control_word(counter_no: u8, rwl: u8, counter_mode: u8) -> u8 {
    ((counter_no << 6u8) | (rwl << 4u8) | (counter_mode << 1u8)) as u8
}

/// The port writes that program one counter: the control word, then the
/// initial value low byte first.
pub fn frequency_set(
    counter_port: u16,
    counter_no: u8,
    rwl: u8,
    counter_mode: u8,
    counter_value: u16,
) -> (w: Vec<PortWrite>)
    ensures
        w@ == seq![
            port_write(PIT_CONTROL_PORT, control_word(counter_no, rwl, counter_mode)),
            port_write(counter_port, (counter_value % 256) as u8),
            port_write(counter_port, (counter_value / 256) as u8),
        ],
{
    let mut w: Vec<PortWrite> = Vec::new();
    w.push(PortWrite { port: PIT_CONTROL_PORT, value: counter_no << 6u8 | rwl << 4u8 | counter_mode << 1u8 });
    let low = (counter_value & 0xff) as u8;
    let high = (counter_value >> 8) as u8;
    assert(counter_value & 0xff == counter_value % 256) by (bit_vector);
    assert(counter_value >> 8 == counter_value / 256) by (bit_vector);
    w.push(PortWrite { port: counter_port, value: low });
    w.push(PortWrite { port: counter_port, value: high });
    assert(w@ =~= seq![
        port_write(PIT_CONTROL_PORT, control_word(counter_no, rwl, counter_mode)),
        port_write(counter_port, (counter_value % 256) as u8),
        port_write(counter_port, (counter_value / 256) as u8),
    ]);
    w
}

/// The port writes of `timer_init`: control word 0x34 (counter 0, low then
/// high byte, rate generator), then 11931 low byte first.
pub open spec fn timer_init_writes() -> Seq<PortWrite> {
    seq![
        port_write(PIT_CONTROL_PORT, 0x34),
        port_write(CONTRER0_PORT, 0x9b),
        port_write(CONTRER0_PORT, 0x2e),
    ]
}

/// The port writes that set counter 0 to rate-generator mode at 100 Hz,
/// with a line printed before and after.
pub fn timer_init(screen: &mut Screen) -> (w: Vec<PortWrite>)
    requires
        screen_ok(old(screen)@),
    ensures
        w@ == timer_init_writes(),
        screen_ok(final(screen)@),
        final(screen)@ == chars_step(old(screen)@, timer_start_msg() + timer_done_msg()),
{
    let start = timer_start_text();
    put_bytes(screen, start.as_slice());
    let w = frequency_set(CONTRER0_PORT, COUNTER0_NO, READ_WRITE_LATCH, COUNTER_MODE, COUNTER0_VALUE);
    assert(((0u8 << 6u8) | (3u8 << 4u8) | (2u8 << 1u8)) as u8 == 0x34) by (bit_vector);
    let done = timer_done_text();
    put_bytes(screen, done.as_slice());
    proof {
        lemma_chars_step_concat(old(screen)@, timer_start_msg(), timer_done_msg());
    }
    w
}

} // verus!
