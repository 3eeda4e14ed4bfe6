//! Translation of PS/2 set-1 scan codes into ASCII.
//!
//! A key's make code (its press) is below 0x80 and its break code (its
//! release) is the make code with bit 7 set. Keys that produce a character
//! are listed in the mapping table; the others change the state of the
//! modifier keys.
use crate::console::{console_available, console_blocked, console_callable, console_put_char};
use crate::ioqueue::{ioq_getchar, ioq_init, ioq_is_empty, ioq_is_full, put_and_wake, IoQueue, IoqStep};
use crate::isr::{intr_disable_c, lemma_disable_restore, register_intr_handler, set_intr_status, HandlerTable, EFLAGS_IF, IDT_DESC_CNT};
use crate::semaphore::Lock;
use crate::thread::{unchanged, Scheduler, SwitchAction};
use crate::messages::{keyboard_done_msg, keyboard_done_text};
use crate::vga::{char_step, chars_step, is_lower, put_bytes, screen_ok, to_upper, Screen};
use vstd::prelude::*;

verus! {

/// One row of the mapping table: a key's make and break codes and the
/// character it produces unshifted (zero for a key that produces none).
#[derive(Clone, Copy, PartialEq, Eq, Debug, Structural)]
pub struct Scanf2ascii {
    pub make_code: u8,
    pub break_code: u8,
    pub ascii: u8,
}

/// The state of the modifier keys; each field is 1 while the key is held (or,
/// for the lock keys, while the lock is on) and 0 otherwise.
#[derive(Clone, Copy, PartialEq, Eq, Debug, Structural)]
pub struct ModifierFlags {
    pub caps_lock: u8,
    pub num_lock: u8,
    pub left_shift: u8,
    pub right_shift: u8,
    pub left_ctrl: u8,
    pub right_ctrl: u8,
    pub left_alt: u8,
    pub right_alt: u8,
}

impl ModifierFlags {
    /// No modifier held and no lock on.
    pub fn new() -> (r: ModifierFlags)
        ensures
            r == all_released(),
    {
        ModifierFlags {
            caps_lock: 0,
            num_lock: 0,
            left_shift: 0,
            right_shift: 0,
            left_ctrl: 0,
            right_ctrl: 0,
            left_alt: 0,
            right_alt: 0,
        }
    }
}

/// The modifier state with every field 0.
pub open spec fn all_released() -> ModifierFlags {
    ModifierFlags {
        caps_lock: 0,
        num_lock: 0,
        left_shift: 0,
        right_shift: 0,
        left_ctrl: 0,
        right_ctrl: 0,
        left_alt: 0,
        right_alt: 0,
    }
}

/// Break codes are the make codes with bit 7 set.
pub const CAPS_LOCK_BREAK: u8 = 0xBA;
pub const NUM_LOCK_BREAK: u8 = 0xC5;
pub const LEFT_SHIFT_MAKE: u8 = 0x2A;
pub const LEFT_SHIFT_BREAK: u8 = 0xAA;
pub const RIGHT_SHIFT_MAKE: u8 = 0x36;
pub const RIGHT_SHIFT_BREAK: u8 = 0xB6;
pub const LEFT_CTRL_MAKE: u8 = 0x1D;
pub const LEFT_CTRL_BREAK: u8 = 0x9D;
pub const LEFT_ALT_MAKE: u8 = 0x38;
pub const LEFT_ALT_BREAK: u8 = 0xB8;
/// The data port of the keyboard controller.
pub const KEY_PORT: u16 = 0x60;
/// The interrupt vector of the keyboard, IRQ 1.
pub const KEYBOARD_VECTOR: u32 = 0x21;

/// The keys of the mapping table: for each make code listed, the character
/// its key produces unshifted (zero for a modifier or function key).
pub open spec fn key_table(code: u8) -> Option<u8> {
    match code {
        0x01 => Some(0x1b),
        0x02 => Some(0x31),  // '1'
        0x03 => Some(0x32),  // '2'
        0x04 => Some(0x33),  // '3'
        0x05 => Some(0x34),  // '4'
        0x06 => Some(0x35),  // '5'
        0x07 => Some(0x36),  // '6'
        0x08 => Some(0x37),  // '7'
        0x09 => Some(0x38),  // '8'
        0x0a => Some(0x39),  // '9'
        0x0b => Some(0x30),  // '0'
        0x0c => Some(0x2d),  // '-'
        0x0d => Some(0x3d),  // '='
        0x0e => Some(0x08),
        0x0f => Some(0x09),  // tab
        0x10 => Some(0x71),  // 'q'
        0x11 => Some(0x77),  // 'w'
        0x12 => Some(0x65),  // 'e'
        0x13 => Some(0x72),  // 'r'
        0x14 => Some(0x74),  // 't'
        0x15 => Some(0x79),  // 'y'
        0x16 => Some(0x75),  // 'u'
        0x17 => Some(0x69),  // 'i'
        0x18 => Some(0x6f),  // 'o'
        0x19 => Some(0x70),  // 'p'
        0x1a => Some(0x5b),  // '['
        0x1b => Some(0x5d),  // ']'
        0x1c => Some(0x0a),  // newline
        0x1d => Some(0),
        0x1e => Some(0x61),  // 'a'
        0x1f => Some(0x73),  // 's'
        0x20 => Some(0x64),  // 'd'
        0x21 => Some(0x66),  // 'f'
        0x22 => Some(0x67),  // 'g'
        0x23 => Some(0x68),  // 'h'
        0x24 => Some(0x6a),  // 'j'
        0x25 => Some(0x6b),  // 'k'
        0x26 => Some(0x6c),  // 'l'
        0x27 => Some(0x3b),  // ';'
        0x28 => Some(0x27),  // '''
        0x29 => Some(0x60),  // '`'
        0x2a => Some(0),
        0x2b => Some(0x5c),  // '\'
        0x2c => Some(0x7a),  // 'z'
        0x2d => Some(0x78),  // 'x'
        0x2e => Some(0x63),  // 'c'
        0x2f => Some(0x76),  // 'v'
        0x30 => Some(0x62),  // 'b'
        0x31 => Some(0x6e),  // 'n'
        0x32 => Some(0x6d),  // 'm'
        0x33 => Some(0x2c),  // ','
        0x34 => Some(0x2e),  // '.'
        0x35 => Some(0x2f),  // '/'
        0x36 => Some(0),
        0x37 => Some(0x2a),  // '*'
        0x38 => Some(0),
        0x39 => Some(0x20),  // ' '
        0x3a => Some(0),
        0x3b => Some(0),
        0x3c => Some(0),
        0x3d => Some(0),
        0x3e => Some(0),
        0x3f => Some(0),
        0x40 => Some(0),
        0x41 => Some(0),
        0x42 => Some(0),
        0x43 => Some(0),
        0x44 => Some(0),
        0x45 => Some(0),
        0x47 => Some(0x37),  // '7'
        0x48 => Some(0x38),  // '8'
        0x49 => Some(0x39),  // '9'
        0x4a => Some(0x2d),  // '-'
        0x4b => Some(0x34),  // '4'
        0x4c => Some(0x35),  // '5'
        0x4d => Some(0x36),  // '6'
        0x4e => Some(0x2b),  // '+'
        0x4f => Some(0x31),  // '1'
        0x50 => Some(0x32),  // '2'
        0x51 => Some(0x33),  // '3'
        0x52 => Some(0x30),  // '0'
        0x53 => Some(0x2e),  // '.'
        0x57 => Some(0),
        0x58 => Some(0),
        _ => None,
    }
}

/// The row of the mapping table for `code`: a listed key's make code, break
/// code and character, or a row of zeros.
pub open spec fn key_entry(code: u8) -> Scanf2ascii {
    match key_table(code) {
        Some(a) => Scanf2ascii { make_code: code, break_code: (code + 0x80) as u8, ascii: a },
        None => Scanf2ascii { make_code: 0, break_code: 0, ascii: 0 },
    }
}

/// The character that a shifted key produces in place of `c`, or zero for a
/// character that has no shifted form here.
pub open spec fn shifted(c: u8) -> u8 {
    match c {
        0x31 => 0x21,  // '1' '!'
        0x32 => 0x40,  // '2' '@'
        0x33 => 0x23,  // '3' '#'
        0x34 => 0x24,  // '4' '$'
        0x35 => 0x25,  // '5' '%'
        0x36 => 0x5e,  // '6' '^'
        0x37 => 0x26,  // '7' '&'
        0x38 => 0x2a,  // '8' '*'
        0x39 => 0x28,  // '9' '('
        0x30 => 0x29,  // '0' ')'
        0x2d => 0x5f,  // '-' '_'
        0x3d => 0x2b,  // '=' '+'
        0x60 => 0x7e,  // '`' '~'
        0x2c => 0x3c,  // ',' '<'
        0x2e => 0x3e,  // '.' '>'
        0x2f => 0x3f,  // '/' '?'
        0x5b => 0x7b,  // '[' '{'
        0x5d => 0x7d,  // ']' '}'
        0x5c => 0x7c,  // '\' '|'
        0x3b => 0x3a,  // ';' ':'
        0x27 => 0x22,  // ''' '"'
        _ => 0,
    }
}

/// The modifier state after the scan code `code`: the lock keys toggle on
/// release, shift, control and alt are held between make and break, and any
/// other code changes nothing.
pub open spec fn key_status_after(f: ModifierFlags, code: u8) -> ModifierFlags {
    if code == CAPS_LOCK_BREAK {
        ModifierFlags { caps_lock: f.caps_lock ^ 1, ..f }
    } else if code == NUM_LOCK_BREAK {
        ModifierFlags { num_lock: f.num_lock ^ 1, ..f }
    } else if code == LEFT_SHIFT_MAKE {
        ModifierFlags { left_shift: 1, ..f }
    } else if code == LEFT_SHIFT_BREAK {
        ModifierFlags { left_shift: 0, ..f }
    } else if code == LEFT_ALT_MAKE {
        ModifierFlags { left_alt: 1, ..f }
    } else if code == LEFT_ALT_BREAK {
        ModifierFlags { left_alt: 0, ..f }
    } else if code == LEFT_CTRL_MAKE {
        ModifierFlags { left_ctrl: 1, ..f }
    } else if code == LEFT_CTRL_BREAK {
        ModifierFlags { left_ctrl: 0, ..f }
    } else if code == RIGHT_SHIFT_MAKE {
        ModifierFlags { right_shift: 1, ..f }
    } else if code == RIGHT_SHIFT_BREAK {
        ModifierFlags { right_shift: 0, ..f }
    } else {
        f
    }
}

/// Whether either shift key is held.
pub open spec fn shift_held(f: ModifierFlags) -> bool {
    f.left_shift == 1 || f.right_shift == 1
}

/// The character typed by a key whose unshifted character is `a`: a letter is
/// upper case when exactly one of shift and caps lock applies, and any other
/// character takes its shifted form while shift is held.
pub open spec fn typed_char(f: ModifierFlags, a: u8) -> u8 {
    if is_lower(a) {
        if shift_held(f) != (f.caps_lock == 1) {
            (a - 32) as u8
        } else {
            a
        }
    } else if shift_held(f) {
        shifted(a)
    } else {
        a
    }
}

/// What the scan code `code` amounts to: the character it types, or nothing
/// when its table row has no character, in which case it may change the
/// modifier state.
pub open spec fn scancode_char(f: ModifierFlags, code: u8) -> Option<u8> {
    if key_entry(code).ascii == 0 {
        None
    } else {
        Some(typed_char(f, key_entry(code).ascii))
    }
}

/// The modifier state after the scan code `code`.
pub open spec fn scancode_flags(f: ModifierFlags, code: u8) -> ModifierFlags {
    if key_entry(code).ascii == 0 {
        key_status_after(f, code)
    } else {
        f
    }
}

fn table_ascii(code: u8) -> (r: Option<u8>)
    ensures
        r == key_table(code),
{
    match code {
        0x01 => Some(0x1b),
        0x02 => Some(0x31),  // '1'
        0x03 => Some(0x32),  // '2'
        0x04 => Some(0x33),  // '3'
        0x05 => Some(0x34),  // '4'
        0x06 => Some(0x35),  // '5'
        0x07 => Some(0x36),  // '6'
        0x08 => Some(0x37),  // '7'
        0x09 => Some(0x38),  // '8'
        0x0a => Some(0x39),  // '9'
        0x0b => Some(0x30),  // '0'
        0x0c => Some(0x2d),  // '-'
        0x0d => Some(0x3d),  // '='
        0x0e => Some(0x08),
        0x0f => Some(0x09),  // tab
        0x10 => Some(0x71),  // 'q'
        0x11 => Some(0x77),  // 'w'
        0x12 => Some(0x65),  // 'e'
        0x13 => Some(0x72),  // 'r'
        0x14 => Some(0x74),  // 't'
        0x15 => Some(0x79),  // 'y'
        0x16 => Some(0x75),  // 'u'
        0x17 => Some(0x69),  // 'i'
        0x18 => Some(0x6f),  // 'o'
        0x19 => Some(0x70),  // 'p'
        0x1a => Some(0x5b),  // '['
        0x1b => Some(0x5d),  // ']'
        0x1c => Some(0x0a),  // newline
        0x1d => Some(0),
        0x1e => Some(0x61),  // 'a'
        0x1f => Some(0x73),  // 's'
        0x20 => Some(0x64),  // 'd'
        0x21 => Some(0x66),  // 'f'
        0x22 => Some(0x67),  // 'g'
        0x23 => Some(0x68),  // 'h'
        0x24 => Some(0x6a),  // 'j'
        0x25 => Some(0x6b),  // 'k'
        0x26 => Some(0x6c),  // 'l'
        0x27 => Some(0x3b),  // ';'
        0x28 => Some(0x27),  // '''
        0x29 => Some(0x60),  // '`'
        0x2a => Some(0),
        0x2b => Some(0x5c),  // '\'
        0x2c => Some(0x7a),  // 'z'
        0x2d => Some(0x78),  // 'x'
        0x2e => Some(0x63),  // 'c'
        0x2f => Some(0x76),  // 'v'
        0x30 => Some(0x62),  // 'b'
        0x31 => Some(0x6e),  // 'n'
        0x32 => Some(0x6d),  // 'm'
        0x33 => Some(0x2c),  // ','
        0x34 => Some(0x2e),  // '.'
        0x35 => Some(0x2f),  // '/'
        0x36 => Some(0),
        0x37 => Some(0x2a),  // '*'
        0x38 => Some(0),
        0x39 => Some(0x20),  // ' '
        0x3a => Some(0),
        0x3b => Some(0),
        0x3c => Some(0),
        0x3d => Some(0),
        0x3e => Some(0),
        0x3f => Some(0),
        0x40 => Some(0),
        0x41 => Some(0),
        0x42 => Some(0),
        0x43 => Some(0),
        0x44 => Some(0),
        0x45 => Some(0),
        0x47 => Some(0x37),  // '7'
        0x48 => Some(0x38),  // '8'
        0x49 => Some(0x39),  // '9'
        0x4a => Some(0x2d),  // '-'
        0x4b => Some(0x34),  // '4'
        0x4c => Some(0x35),  // '5'
        0x4d => Some(0x36),  // '6'
        0x4e => Some(0x2b),  // '+'
        0x4f => Some(0x31),  // '1'
        0x50 => Some(0x32),  // '2'
        0x51 => Some(0x33),  // '3'
        0x52 => Some(0x30),  // '0'
        0x53 => Some(0x2e),  // '.'
        0x57 => Some(0),
        0x58 => Some(0),
        _ => None,
    }
}

/// The row of the mapping table for `code`.
pub fn key_mapping(code: u8) -> (r: Scanf2ascii)
    ensures
        r == key_entry(code),
{
    match table_ascii(code) {
        Some(a) => {
            assert(code < 0x80);
            assert(code | 0x80 == (code + 0x80) as u8) by (bit_vector)
                requires
                    code < 0x80,
            ;
            Scanf2ascii { make_code: code, break_code: code | 0x80, ascii: a }
        },
        None => Scanf2ascii { make_code: 0, break_code: 0, ascii: 0 },
    }
}

/// The whole mapping table, indexed by make code.
pub fn key_mapping_table() -> (t: Vec<Scanf2ascii>)
    ensures
        t.len() == 256,
        forall|i: int| 0 <= i < 256 ==> t@[i] == key_entry(i as u8),
{
    let mut t: Vec<Scanf2ascii> = Vec::new();
    let mut i: u32 = 0;
    while i < 256
        invariant
            i <= 256,
            t.len() == i,
            forall|j: int| 0 <= j < i ==> t@[j] == key_entry(j as u8),
        decreases 256 - i,
    {
        t.push(key_mapping(i as u8));
        i += 1;
    }
    t
}

/// The character that a shifted key produces in place of `c`: the symbols on
/// the digit and punctuation keys; zero for any other byte.
pub fn shift_char(c: u8) -> (r: u8)
    ensures
        r == shifted(c),
{
    match c {
        0x31 => 0x21,  // '1' '!'
        0x32 => 0x40,  // '2' '@'
        0x33 => 0x23,  // '3' '#'
        0x34 => 0x24,  // '4' '$'
        0x35 => 0x25,  // '5' '%'
        0x36 => 0x5e,  // '6' '^'
        0x37 => 0x26,  // '7' '&'
        0x38 => 0x2a,  // '8' '*'
        0x39 => 0x28,  // '9' '('
        0x30 => 0x29,  // '0' ')'
        0x2d => 0x5f,  // '-' '_'
        0x3d => 0x2b,  // '=' '+'
        0x60 => 0x7e,  // '`' '~'
        0x2c => 0x3c,  // ',' '<'
        0x2e => 0x3e,  // '.' '>'
        0x2f => 0x3f,  // '/' '?'
        0x5b => 0x7b,  // '[' '{'
        0x5d => 0x7d,  // ']' '}'
        0x5c => 0x7c,  // '\' '|'
        0x3b => 0x3a,  // ';' ':'
        0x27 => 0x22,  // ''' '"'
        _ => 0,
    }
}

/// Updates the modifier state for the scan code `code`.
pub fn change_key_status(flags: &mut ModifierFlags, code: u8)
    ensures
        *final(flags) == key_status_after(*old(flags), code),
{
    if code == CAPS_LOCK_BREAK {
        flags.caps_lock = flags.caps_lock ^ 1;
    } else if code == NUM_LOCK_BREAK {
        flags.num_lock = flags.num_lock ^ 1;
    } else if code == LEFT_SHIFT_MAKE {
        flags.left_shift = 1;
    } else if code == LEFT_SHIFT_BREAK {
        flags.left_shift = 0;
    } else if code == LEFT_ALT_MAKE {
        flags.left_alt = 1;
    } else if code == LEFT_ALT_BREAK {
        flags.left_alt = 0;
    } else if code == LEFT_CTRL_MAKE {
        flags.left_ctrl = 1;
    } else if code == LEFT_CTRL_BREAK {
        flags.left_ctrl = 0;
    } else if code == RIGHT_SHIFT_MAKE {
        flags.right_shift = 1;
    } else if code == RIGHT_SHIFT_BREAK {
        flags.right_shift = 0;
    }
}

/// Interprets one scan code read from the keyboard: a code whose table row
/// has no character updates the modifier state and yields nothing; any other
/// yields the character typed under the current modifiers.
pub fn translate_scancode(flags: &mut ModifierFlags, code: u8) -> (r: Option<u8>)
    ensures
        r == scancode_char(*old(flags), code),
        *final(flags) == scancode_flags(*old(flags), code),
{
    let entry = key_mapping(code);
    if entry.ascii == 0 {
        change_key_status(flags, code);
        return None;
    }
    let mut c = entry.ascii;
    let shift = flags.left_shift == 1 || flags.right_shift == 1;
    if 0x61 <= c && c <= 0x7a {
        if shift != (flags.caps_lock == 1) {
            c = to_upper(c);
        }
    } else if shift {
        c = shift_char(c);
    }
    Some(c)
}

/// The keyboard interrupt, given the scan code read from the keyboard's data
/// port: a character key puts its character at the back of the keyboard
/// buffer, waking a waiting reader, unless the buffer is full, in which case
/// the character is lost; any other key updates the modifier state.
///
/// Returns the character that was queued.
pub fn keyboard_intr_handler(
    sched: &mut Scheduler,
    flags: &mut ModifierFlags,
    keyboard_buf: &mut IoQueue,
    code: u8,
) -> (r: Option<u8>)
    requires
        old(sched).wf(),
        old(sched).tasks.len() > 0,
        old(sched).eflags & EFLAGS_IF == 0,
        old(keyboard_buf).wf(*old(sched)),
    ensures
        final(sched).wf(),
        final(keyboard_buf).wf(*final(sched)),
        final(sched).eflags == old(sched).eflags,
        *final(flags) == scancode_flags(*old(flags), code),
        match scancode_char(*old(flags), code) {
            Some(c) => if old(keyboard_buf).contents().len() < 63 {
                &&& r == Some(c)
                &&& final(keyboard_buf).contents() == old(keyboard_buf).contents().push(c)
            } else {
                &&& r is None
                &&& *final(keyboard_buf) == *old(keyboard_buf)
                &&& *final(sched) == *old(sched)
            },
            None => {
                &&& r is None
                &&& *final(keyboard_buf) == *old(keyboard_buf)
                &&& *final(sched) == *old(sched)
            },
        },
{
    let typed = translate_scancode(flags, code);
    match typed {
        None => None,
        Some(c) => {
            if ioq_is_full(keyboard_buf, sched.eflags) {
                None
            } else {
                put_and_wake(sched, keyboard_buf, c);
                Some(c)
            }
        },
    }
}

/// Installs the keyboard interrupt handler, entered at `handler`, for the
/// keyboard's vector and empties the keyboard buffer.
pub fn init_keyboard(
    table: &mut HandlerTable,
    handler: usize,
    sched: &mut Scheduler,
    keyboard_buf: &mut IoQueue,
    screen: &mut Screen,
)
    requires
        screen_ok(old(screen)@),
        old(table).handlers.len() == IDT_DESC_CNT,
        old(sched).wf(),
        old(keyboard_buf).mutex.semaphore.wf(*old(sched)),
    ensures
        final(table).handlers@ == old(table).handlers@.update(KEYBOARD_VECTOR as int, handler),
        final(sched).wf(),
        crate::semaphore::waiters_dropped(*old(sched), *final(sched), old(keyboard_buf).mutex.semaphore.waiter_head),
        old(keyboard_buf).mutex.semaphore.waiters(*old(sched)).len() == 0 ==> unchanged(*old(sched), *final(sched)),
        crate::thread::heads_kept(*old(sched), *final(sched)),
        crate::thread::bystanders_kept(*old(sched), *final(sched)),
        forall|k: int|
            0 <= k < old(keyboard_buf).mutex.semaphore.waiters(*old(sched)).len() ==> !#[trigger] final(sched).lists.is_member(
                old(keyboard_buf).mutex.semaphore.waiters(*old(sched))[k],
            ),
        final(keyboard_buf).wf(*final(sched)),
        final(keyboard_buf).contents().len() == 0,
        final(keyboard_buf).producer is None,
        final(keyboard_buf).consumer is None,
        final(keyboard_buf).mutex.holder is None,
        final(keyboard_buf).mutex.lock_rpt_nr == 0,
        final(keyboard_buf).mutex.semaphore.waiter_head == old(keyboard_buf).mutex.semaphore.waiter_head,
        final(keyboard_buf).mutex.semaphore.waiters(*final(sched)).len() == 0,
        final(keyboard_buf).head == 0,
        final(keyboard_buf).tail == 0,
        forall|i: int| 0 <= i < 64 ==> final(keyboard_buf).buf@[i] == 0,
        screen_ok(final(screen)@),
        final(screen)@ == chars_step(old(screen)@, keyboard_done_msg()),
{
    register_intr_handler(table, KEYBOARD_VECTOR, handler);
    ioq_init(sched, keyboard_buf);
    let done = keyboard_done_text();
    put_bytes(screen, done.as_slice());
}

/// Pressing and releasing a shift, control or alt key leaves the modifier
/// state as it was while the key was up; releasing caps lock or num lock
/// twice leaves the locks as they were.
pub proof fn lemma_modifier_press_release(f: ModifierFlags)
    ensures
        f.left_shift == 0 ==> key_status_after(key_status_after(f, LEFT_SHIFT_MAKE), LEFT_SHIFT_BREAK) == f,
        f.right_shift == 0 ==> key_status_after(key_status_after(f, RIGHT_SHIFT_MAKE), RIGHT_SHIFT_BREAK) == f,
        f.left_ctrl == 0 ==> key_status_after(key_status_after(f, LEFT_CTRL_MAKE), LEFT_CTRL_BREAK) == f,
        f.left_alt == 0 ==> key_status_after(key_status_after(f, LEFT_ALT_MAKE), LEFT_ALT_BREAK) == f,
        key_status_after(key_status_after(f, CAPS_LOCK_BREAK), CAPS_LOCK_BREAK) == f,
        key_status_after(key_status_after(f, NUM_LOCK_BREAK), NUM_LOCK_BREAK) == f,
        shift_held(key_status_after(f, LEFT_SHIFT_MAKE)),
        shift_held(key_status_after(f, RIGHT_SHIFT_MAKE)),
{
    let c = f.caps_lock;
    let n = f.num_lock;
    assert(c ^ 1u8 ^ 1u8 == c) by (bit_vector);
    assert(n ^ 1u8 ^ 1u8 == n) by (bit_vector);
}

/// A letter typed with exactly one of shift and caps lock is upper case,
/// and with both or neither lower case.
pub proof fn lemma_letter_case(f: ModifierFlags, code: u8)
    requires
        is_lower(key_entry(code).ascii),
    ensures
        scancode_char(f, code) == Some(
            if shift_held(f) != (f.caps_lock == 1) {
                (key_entry(code).ascii - 32) as u8
            } else {
                key_entry(code).ascii
            },
        ),
        scancode_flags(f, code) == f,
{
}

/// What one pass of the keyboard reader did.
#[derive(Clone, Copy, PartialEq, Eq, Debug)]
pub enum ConsumerStep {
    /// The keyboard buffer was empty.
    Idle,
    /// The character was taken from the buffer and printed.
    Printed(u8),
    /// The character was taken from the buffer, but another task holds the
    /// console: the reader blocked on it, and prints the character with
    /// `keyboard_consumer_resume` once it runs again. The switch records the
    /// interrupt status to restore then.
    Blocked(u8, SwitchAction),
}

/// One pass of the keyboard reader's loop: with interrupts disabled, take
/// the oldest character from the keyboard buffer, if there is one, and print
/// it on the console; then restore the interrupt flag.
pub fn keyboard_consumer_step(
    sched: &mut Scheduler,
    keyboard_buf: &mut IoQueue,
    console_lock: &mut Lock,
    screen: &mut Screen,
) -> (r: ConsumerStep)
    requires
        console_callable(*old(sched), *old(console_lock)),
        old(keyboard_buf).wf(*old(sched)),
        screen_ok(old(screen)@),
    ensures
        final(sched).wf(),
        final(keyboard_buf).wf(*final(sched)),
        final(console_lock).wf(*final(sched)),
        screen_ok(final(screen)@),
        old(keyboard_buf).contents().len() == 0 ==> {
            &&& r == ConsumerStep::Idle
            &&& unchanged(*old(sched), *final(sched))
            &&& *final(keyboard_buf) == *old(keyboard_buf)
            &&& final(screen)@ == old(screen)@
        },
        old(keyboard_buf).contents().len() > 0 ==> {
            let c = old(keyboard_buf).contents()[0];
            &&& final(keyboard_buf).contents() == old(keyboard_buf).contents().drop_first()
            &&& console_available(*old(sched), *old(console_lock)) ==> {
                &&& r == ConsumerStep::Printed(c)
                &&& final(screen)@ == char_step(old(screen)@, c)
                &&& final(sched).eflags == old(sched).eflags
            }
            &&& !console_available(*old(sched), *old(console_lock)) ==> {
                &&& r matches ConsumerStep::Blocked(b, sw) && b == c && sw.from == old(sched).current
                    && sw.resume_intr == old(sched).eflags & EFLAGS_IF
                &&& final(screen)@ == old(screen)@
            }
        },
{
    let ghost s0 = *sched;
    let old_status = intr_disable_c(&mut sched.eflags);
    proof {
        crate::thread::lemma_wf_same_queues(s0, *sched);
        lemma_disable_restore(s0.eflags);
        crate::isr::lemma_if_cleared(s0.eflags);
    }
    if ioq_is_empty(keyboard_buf, sched.eflags) {
        set_intr_status(&mut sched.eflags, old_status);
        return ConsumerStep::Idle;
    }
    let ghost s1 = *sched;
    let step = ioq_getchar(sched, keyboard_buf);
    let c = match step {
        IoqStep::Done(c) => c,
        IoqStep::Blocked(_) => {
            proof {
                assert(false);
            }
            0
        },
    };
    let ghost s2 = *sched;
    let ghost q2 = *keyboard_buf;
    proof {
        assert(console_lock.semaphore.wf(s1));
        assert(console_lock.semaphore.wf(*sched));
        assert(console_lock.wf(*sched));
        assert(sched.tasks.len() > 0);
        assert(sched.current == s0.current);
    }
    let printed = console_put_char(sched, console_lock, screen, c);
    proof {
        assert(keyboard_buf.mutex.semaphore.wf(*sched));
        if let Some(w) = q2.consumer {
            assert(sched.tasks@[w as int] == s2.tasks@[w as int]);
        }
        if let Some(w) = q2.producer {
            assert(sched.tasks@[w as int] == s2.tasks@[w as int]);
        }
    }
    match printed {
        None => {
            let ghost s3 = *sched;
            set_intr_status(&mut sched.eflags, old_status);
            proof {
                crate::thread::lemma_wf_same_queues(s3, *sched);
            }
            ConsumerStep::Printed(c)
        },
        Some(sw) => ConsumerStep::Blocked(c, SwitchAction { resume_intr: old_status, ..sw }),
    }
}

/// What the keyboard reader does when it runs again after blocking on the
/// console with the character `c` (`sw` is the switch it blocked with): it
/// prints `c` on the console and restores the interrupt status it had before
/// the pass, or blocks on the console again.
pub fn keyboard_consumer_resume(
    sched: &mut Scheduler,
    console_lock: &mut Lock,
    screen: &mut Screen,
    c: u8,
    sw: SwitchAction,
) -> (r: ConsumerStep)
    requires
        console_callable(*old(sched), *old(console_lock)),
        screen_ok(old(screen)@),
        sw.from == old(sched).current,
        sw.resume_intr == EFLAGS_IF || sw.resume_intr == 0,
    ensures
        final(sched).wf(),
        final(console_lock).wf(*final(sched)),
        screen_ok(final(screen)@),
        console_available(*old(sched), *old(console_lock)) ==> {
            &&& r == ConsumerStep::Printed(c)
            &&& final(screen)@ == char_step(old(screen)@, c)
            &&& final(sched).current == old(sched).current
            &&& sw.resume_intr == EFLAGS_IF ==> final(sched).eflags == old(sched).eflags | EFLAGS_IF
            &&& sw.resume_intr == 0 ==> final(sched).eflags == old(sched).eflags & !EFLAGS_IF
        },
        !console_available(*old(sched), *old(console_lock)) ==> {
            &&& r matches ConsumerStep::Blocked(b, sw2) && b == c && sw2.from == old(sched).current
                && sw2.resume_intr == sw.resume_intr
            &&& final(screen)@ == old(screen)@
            &&& console_blocked(*old(sched), *old(console_lock), *final(sched), *final(console_lock))
        },
{
    let printed = console_put_char(sched, console_lock, screen, c);
    match printed {
        None => {
            let ghost s1 = *sched;
            crate::thread::thread_resume(sched, sw);
            proof {
                assert(console_lock.semaphore.wf(s1));
                assert(console_lock.wf(*sched));
            }
            ConsumerStep::Printed(c)
        },
        Some(sw2) => ConsumerStep::Blocked(c, SwitchAction { resume_intr: sw.resume_intr, ..sw2 }),
    }
}

/// The US keyboard's `1234567890-=`, the keys with make codes 0x02 to 0x0d, left to right.
pub open spec fn us_digit_row() -> Seq<u8> {
    seq![0x31u8, 0x32, 0x33, 0x34, 0x35, 0x36, 0x37, 0x38, 0x39, 0x30, 0x2d, 0x3d]
}

/// The US keyboard's `qwertyuiop[]`, the keys with make codes 0x10 to 0x1b, left to right.
pub open spec fn us_top_row() -> Seq<u8> {
    seq![0x71u8, 0x77, 0x65, 0x72, 0x74, 0x79, 0x75, 0x69, 0x6f, 0x70, 0x5b, 0x5d]
}

/// The US keyboard's `asdfghjkl;'` and the backquote, the keys with make codes 0x1e to 0x29, left to right.
pub open spec fn us_home_row() -> Seq<u8> {
    seq![0x61u8, 0x73, 0x64, 0x66, 0x67, 0x68, 0x6a, 0x6b, 0x6c, 0x3b, 0x27, 0x60]
}

/// The US keyboard's backslash and `zxcvbnm,./`, the keys with make codes 0x2b to 0x35, left to right.
pub open spec fn us_bottom_row() -> Seq<u8> {
    seq![0x5cu8, 0x7a, 0x78, 0x63, 0x76, 0x62, 0x6e, 0x6d, 0x2c, 0x2e, 0x2f]
}

/// The main-block key (make code 0x01 to 0x39) that types `x`, or 0.
spec fn main_key_of(x: u8) -> u8 {
    match x {
        0x1b => 0x01,
        0x31 => 0x02,
        0x32 => 0x03,
        0x33 => 0x04,
        0x34 => 0x05,
        0x35 => 0x06,
        0x36 => 0x07,
        0x37 => 0x08,
        0x38 => 0x09,
        0x39 => 0x0a,
        0x30 => 0x0b,
        0x2d => 0x0c,
        0x3d => 0x0d,
        0x08 => 0x0e,
        0x09 => 0x0f,
        0x71 => 0x10,
        0x77 => 0x11,
        0x65 => 0x12,
        0x72 => 0x13,
        0x74 => 0x14,
        0x79 => 0x15,
        0x75 => 0x16,
        0x69 => 0x17,
        0x6f => 0x18,
        0x70 => 0x19,
        0x5b => 0x1a,
        0x5d => 0x1b,
        0x0a => 0x1c,
        0x61 => 0x1e,
        0x73 => 0x1f,
        0x64 => 0x20,
        0x66 => 0x21,
        0x67 => 0x22,
        0x68 => 0x23,
        0x6a => 0x24,
        0x6b => 0x25,
        0x6c => 0x26,
        0x3b => 0x27,
        0x27 => 0x28,
        0x60 => 0x29,
        0x5c => 0x2b,
        0x7a => 0x2c,
        0x78 => 0x2d,
        0x63 => 0x2e,
        0x76 => 0x2f,
        0x62 => 0x30,
        0x6e => 0x31,
        0x6d => 0x32,
        0x2c => 0x33,
        0x2e => 0x34,
        0x2f => 0x35,
        0x2a => 0x37,
        0x20 => 0x39,
        _ => 0,
    }
}

proof fn lemma_main_key_of(c: u8)
    requires
        1 <= c <= 0x39,
        key_table(c) != Some(0u8),
    ensures
        key_table(c) is Some,
        main_key_of(key_table(c)->0) == c,
{
    if c == 0x01 {
    } else if c == 0x02 {
    } else if c == 0x03 {
    } else if c == 0x04 {
    } else if c == 0x05 {
    } else if c == 0x06 {
    } else if c == 0x07 {
    } else if c == 0x08 {
    } else if c == 0x09 {
    } else if c == 0x0a {
    } else if c == 0x0b {
    } else if c == 0x0c {
    } else if c == 0x0d {
    } else if c == 0x0e {
    } else if c == 0x0f {
    } else if c == 0x10 {
    } else if c == 0x11 {
    } else if c == 0x12 {
    } else if c == 0x13 {
    } else if c == 0x14 {
    } else if c == 0x15 {
    } else if c == 0x16 {
    } else if c == 0x17 {
    } else if c == 0x18 {
    } else if c == 0x19 {
    } else if c == 0x1a {
    } else if c == 0x1b {
    } else if c == 0x1c {
    } else if c == 0x1d {
    } else if c == 0x1e {
    } else if c == 0x1f {
    } else if c == 0x20 {
    } else if c == 0x21 {
    } else if c == 0x22 {
    } else if c == 0x23 {
    } else if c == 0x24 {
    } else if c == 0x25 {
    } else if c == 0x26 {
    } else if c == 0x27 {
    } else if c == 0x28 {
    } else if c == 0x29 {
    } else if c == 0x2a {
    } else if c == 0x2b {
    } else if c == 0x2c {
    } else if c == 0x2d {
    } else if c == 0x2e {
    } else if c == 0x2f {
    } else if c == 0x30 {
    } else if c == 0x31 {
    } else if c == 0x32 {
    } else if c == 0x33 {
    } else if c == 0x34 {
    } else if c == 0x35 {
    } else if c == 0x36 {
    } else if c == 0x37 {
    } else if c == 0x38 {
    } else if c == 0x39 {
    }
}

/// The scan-code table is the US layout: each key of the four character
/// rows types the character printed on it, and the space bar a space; no two
/// keys of the main block (make codes 0x01 to 0x39) type the same character.
pub proof fn lemma_us_layout(c1: u8, c2: u8)
    ensures
        forall|i: int| 0 <= i < 12 ==> key_table((0x02 + i) as u8) == Some(#[trigger] us_digit_row()[i]),
        forall|i: int| 0 <= i < 12 ==> key_table((0x10 + i) as u8) == Some(#[trigger] us_top_row()[i]),
        forall|i: int| 0 <= i < 12 ==> key_table((0x1e + i) as u8) == Some(#[trigger] us_home_row()[i]),
        forall|i: int| 0 <= i < 11 ==> key_table((0x2b + i) as u8) == Some(#[trigger] us_bottom_row()[i]),
        key_table(0x39) == Some(0x20u8),
        1 <= c1 <= 0x39 && 1 <= c2 <= 0x39 && key_table(c1) == key_table(c2) && key_table(c1) != Some(0u8)
            ==> c1 == c2,
{
    assert forall|i: int| 0 <= i < 12 implies key_table((0x02 + i) as u8) == Some(#[trigger] us_digit_row()[i]) by {
        if i == 0 {
            assert(key_table(0x02) == Some(us_digit_row()[0]));
        } else if i == 1 {
            assert(key_table(0x03) == Some(us_digit_row()[1]));
        } else if i == 2 {
            assert(key_table(0x04) == Some(us_digit_row()[2]));
        } else if i == 3 {
            assert(key_table(0x05) == Some(us_digit_row()[3]));
        } else if i == 4 {
            assert(key_table(0x06) == Some(us_digit_row()[4]));
        } else if i == 5 {
            assert(key_table(0x07) == Some(us_digit_row()[5]));
        } else if i == 6 {
            assert(key_table(0x08) == Some(us_digit_row()[6]));
        } else if i == 7 {
            assert(key_table(0x09) == Some(us_digit_row()[7]));
        } else if i == 8 {
            assert(key_table(0x0a) == Some(us_digit_row()[8]));
        } else if i == 9 {
            assert(key_table(0x0b) == Some(us_digit_row()[9]));
        } else if i == 10 {
            assert(key_table(0x0c) == Some(us_digit_row()[10]));
        } else if i == 11 {
            assert(key_table(0x0d) == Some(us_digit_row()[11]));
        }
    }
    assert forall|i: int| 0 <= i < 12 implies key_table((0x10 + i) as u8) == Some(#[trigger] us_top_row()[i]) by {
        if i == 0 {
            assert(key_table(0x10) == Some(us_top_row()[0]));
        } else if i == 1 {
            assert(key_table(0x11) == Some(us_top_row()[1]));
        } else if i == 2 {
            assert(key_table(0x12) == Some(us_top_row()[2]));
        } else if i == 3 {
            assert(key_table(0x13) == Some(us_top_row()[3]));
        } else if i == 4 {
            assert(key_table(0x14) == Some(us_top_row()[4]));
        } else if i == 5 {
            assert(key_table(0x15) == Some(us_top_row()[5]));
        } else if i == 6 {
            assert(key_table(0x16) == Some(us_top_row()[6]));
        } else if i == 7 {
            assert(key_table(0x17) == Some(us_top_row()[7]));
        } else if i == 8 {
            assert(key_table(0x18) == Some(us_top_row()[8]));
        } else if i == 9 {
            assert(key_table(0x19) == Some(us_top_row()[9]));
        } else if i == 10 {
            assert(key_table(0x1a) == Some(us_top_row()[10]));
        } else if i == 11 {
            assert(key_table(0x1b) == Some(us_top_row()[11]));
        }
    }
    assert forall|i: int| 0 <= i < 12 implies key_table((0x1e + i) as u8) == Some(#[trigger] us_home_row()[i]) by {
        if i == 0 {
            assert(key_table(0x1e) == Some(us_home_row()[0]));
        } else if i == 1 {
            assert(key_table(0x1f) == Some(us_home_row()[1]));
        } else if i == 2 {
            assert(key_table(0x20) == Some(us_home_row()[2]));
        } else if i == 3 {
            assert(key_table(0x21) == Some(us_home_row()[3]));
        } else if i == 4 {
            assert(key_table(0x22) == Some(us_home_row()[4]));
        } else if i == 5 {
            assert(key_table(0x23) == Some(us_home_row()[5]));
        } else if i == 6 {
            assert(key_table(0x24) == Some(us_home_row()[6]));
        } else if i == 7 {
            assert(key_table(0x25) == Some(us_home_row()[7]));
        } else if i == 8 {
            assert(key_table(0x26) == Some(us_home_row()[8]));
        } else if i == 9 {
            assert(key_table(0x27) == Some(us_home_row()[9]));
        } else if i == 10 {
            assert(key_table(0x28) == Some(us_home_row()[10]));
        } else if i == 11 {
            assert(key_table(0x29) == Some(us_home_row()[11]));
        }
    }
    assert forall|i: int| 0 <= i < 11 implies key_table((0x2b + i) as u8) == Some(#[trigger] us_bottom_row()[i]) by {
        if i == 0 {
            assert(key_table(0x2b) == Some(us_bottom_row()[0]));
        } else if i == 1 {
            assert(key_table(0x2c) == Some(us_bottom_row()[1]));
        } else if i == 2 {
            assert(key_table(0x2d) == Some(us_bottom_row()[2]));
        } else if i == 3 {
            assert(key_table(0x2e) == Some(us_bottom_row()[3]));
        } else if i == 4 {
            assert(key_table(0x2f) == Some(us_bottom_row()[4]));
        } else if i == 5 {
            assert(key_table(0x30) == Some(us_bottom_row()[5]));
        } else if i == 6 {
            assert(key_table(0x31) == Some(us_bottom_row()[6]));
        } else if i == 7 {
            assert(key_table(0x32) == Some(us_bottom_row()[7]));
        } else if i == 8 {
            assert(key_table(0x33) == Some(us_bottom_row()[8]));
        } else if i == 9 {
            assert(key_table(0x34) == Some(us_bottom_row()[9]));
        } else if i == 10 {
            assert(key_table(0x35) == Some(us_bottom_row()[10]));
        }
    }
    if 1 <= c1 <= 0x39 && 1 <= c2 <= 0x39 && key_table(c1) == key_table(c2) && key_table(c1) != Some(0u8) {
        lemma_main_key_of(c1);
        lemma_main_key_of(c2);
    }
}

/// The unshifted symbols of the US keyboard, in key order: the backquote,
/// the digits, minus, equals, the brackets, backslash, semicolon, quote,
/// comma, period and slash.
pub open spec fn us_unshifted_symbols() -> Seq<u8> {
    seq![0x60u8, 0x31, 0x32, 0x33, 0x34, 0x35, 0x36, 0x37, 0x38, 0x39, 0x30, 0x2d, 0x3d, 0x5b, 0x5d, 0x5c, 0x3b, 0x27, 0x2c, 0x2e, 0x2f]
}

/// The symbols the same keys type with shift held, in the same order.
pub open spec fn us_shifted_symbols() -> Seq<u8> {
    seq![0x7eu8, 0x21, 0x40, 0x23, 0x24, 0x25, 0x5e, 0x26, 0x2a, 0x28, 0x29, 0x5f, 0x2b, 0x7b, 0x7d, 0x7c, 0x3a, 0x22, 0x3c, 0x3e, 0x3f]
}

/// The unshifted symbol whose key types `x` with shift held, or 0.
spec fn unshifted_of(x: u8) -> u8 {
    match x {
        0x7e => 0x60,
        0x21 => 0x31,
        0x40 => 0x32,
        0x23 => 0x33,
        0x24 => 0x34,
        0x25 => 0x35,
        0x5e => 0x36,
        0x26 => 0x37,
        0x2a => 0x38,
        0x28 => 0x39,
        0x29 => 0x30,
        0x5f => 0x2d,
        0x2b => 0x3d,
        0x7b => 0x5b,
        0x7d => 0x5d,
        0x7c => 0x5c,
        0x3a => 0x3b,
        0x22 => 0x27,
        0x3c => 0x2c,
        0x3e => 0x2e,
        0x3f => 0x2f,
        _ => 0,
    }
}

proof fn lemma_unshifted_of(c: u8)
    requires
        shifted(c) != 0,
    ensures
        unshifted_of(shifted(c)) == c,
{
    if c == 0x60 {
    } else if c == 0x31 {
    } else if c == 0x32 {
    } else if c == 0x33 {
    } else if c == 0x34 {
    } else if c == 0x35 {
    } else if c == 0x36 {
    } else if c == 0x37 {
    } else if c == 0x38 {
    } else if c == 0x39 {
    } else if c == 0x30 {
    } else if c == 0x2d {
    } else if c == 0x3d {
    } else if c == 0x5b {
    } else if c == 0x5d {
    } else if c == 0x5c {
    } else if c == 0x3b {
    } else if c == 0x27 {
    } else if c == 0x2c {
    } else if c == 0x2e {
    } else if c == 0x2f {
    }
}

/// Shift gives each symbol key of the US layout the symbol printed above it
/// ('1' becomes '!', ',' becomes '<', '.' becomes '>', ...), any other byte
/// has no shifted form (0), and no two keys give the same shifted symbol.
pub proof fn lemma_us_shift(c1: u8, c2: u8)
    ensures
        forall|i: int| 0 <= i < 21 ==> shifted(#[trigger] us_unshifted_symbols()[i]) == us_shifted_symbols()[i],
        !us_unshifted_symbols().contains(c1) ==> shifted(c1) == 0,
        shifted(c1) == shifted(c2) && shifted(c1) != 0 ==> c1 == c2,
{
    assert forall|i: int| 0 <= i < 21 implies shifted(#[trigger] us_unshifted_symbols()[i]) == us_shifted_symbols()[i] by {
        if i == 0 {
            assert(shifted(us_unshifted_symbols()[0]) == us_shifted_symbols()[0]);
        } else if i == 1 {
            assert(shifted(us_unshifted_symbols()[1]) == us_shifted_symbols()[1]);
        } else if i == 2 {
            assert(shifted(us_unshifted_symbols()[2]) == us_shifted_symbols()[2]);
        } else if i == 3 {
            assert(shifted(us_unshifted_symbols()[3]) == us_shifted_symbols()[3]);
        } else if i == 4 {
            assert(shifted(us_unshifted_symbols()[4]) == us_shifted_symbols()[4]);
        } else if i == 5 {
            assert(shifted(us_unshifted_symbols()[5]) == us_shifted_symbols()[5]);
        } else if i == 6 {
            assert(shifted(us_unshifted_symbols()[6]) == us_shifted_symbols()[6]);
        } else if i == 7 {
            assert(shifted(us_unshifted_symbols()[7]) == us_shifted_symbols()[7]);
        } else if i == 8 {
            assert(shifted(us_unshifted_symbols()[8]) == us_shifted_symbols()[8]);
        } else if i == 9 {
            assert(shifted(us_unshifted_symbols()[9]) == us_shifted_symbols()[9]);
        } else if i == 10 {
            assert(shifted(us_unshifted_symbols()[10]) == us_shifted_symbols()[10]);
        } else if i == 11 {
            assert(shifted(us_unshifted_symbols()[11]) == us_shifted_symbols()[11]);
        } else if i == 12 {
            assert(shifted(us_unshifted_symbols()[12]) == us_shifted_symbols()[12]);
        } else if i == 13 {
            assert(shifted(us_unshifted_symbols()[13]) == us_shifted_symbols()[13]);
        } else if i == 14 {
            assert(shifted(us_unshifted_symbols()[14]) == us_shifted_symbols()[14]);
        } else if i == 15 {
            assert(shifted(us_unshifted_symbols()[15]) == us_shifted_symbols()[15]);
        } else if i == 16 {
            assert(shifted(us_unshifted_symbols()[16]) == us_shifted_symbols()[16]);
        } else if i == 17 {
            assert(shifted(us_unshifted_symbols()[17]) == us_shifted_symbols()[17]);
        } else if i == 18 {
            assert(shifted(us_unshifted_symbols()[18]) == us_shifted_symbols()[18]);
        } else if i == 19 {
            assert(shifted(us_unshifted_symbols()[19]) == us_shifted_symbols()[19]);
        } else if i == 20 {
            assert(shifted(us_unshifted_symbols()[20]) == us_shifted_symbols()[20]);
        }
    }
    if shifted(c1) != 0 {
        lemma_unshifted_of(c1);
        if c1 == 0x60 { assert(us_unshifted_symbols()[0] == c1); } else if c1 == 0x31 { assert(us_unshifted_symbols()[1] == c1); } else if c1 == 0x32 { assert(us_unshifted_symbols()[2] == c1); } else if c1 == 0x33 { assert(us_unshifted_symbols()[3] == c1); } else if c1 == 0x34 { assert(us_unshifted_symbols()[4] == c1); } else if c1 == 0x35 { assert(us_unshifted_symbols()[5] == c1); } else if c1 == 0x36 { assert(us_unshifted_symbols()[6] == c1); } else if c1 == 0x37 { assert(us_unshifted_symbols()[7] == c1); } else if c1 == 0x38 { assert(us_unshifted_symbols()[8] == c1); } else if c1 == 0x39 { assert(us_unshifted_symbols()[9] == c1); } else if c1 == 0x30 { assert(us_unshifted_symbols()[10] == c1); } else if c1 == 0x2d { assert(us_unshifted_symbols()[11] == c1); } else if c1 == 0x3d { assert(us_unshifted_symbols()[12] == c1); } else if c1 == 0x5b { assert(us_unshifted_symbols()[13] == c1); } else if c1 == 0x5d { assert(us_unshifted_symbols()[14] == c1); } else if c1 == 0x5c { assert(us_unshifted_symbols()[15] == c1); } else if c1 == 0x3b { assert(us_unshifted_symbols()[16] == c1); } else if c1 == 0x27 { assert(us_unshifted_symbols()[17] == c1); } else if c1 == 0x2c { assert(us_unshifted_symbols()[18] == c1); } else if c1 == 0x2e { assert(us_unshifted_symbols()[19] == c1); } else if c1 == 0x2f { assert(us_unshifted_symbols()[20] == c1); }
    }
    if shifted(c1) == shifted(c2) && shifted(c1) != 0 {
        lemma_unshifted_of(c2);
    }
}

} // verus!
