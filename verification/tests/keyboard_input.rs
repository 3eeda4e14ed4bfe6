use kernel::ioqueue::{ioq_getchar, IoQueue, IoqStep};
use kernel::isr::init_idt_table;
use kernel::keyboard::{
    change_key_status, init_keyboard, key_mapping, key_mapping_table, keyboard_consumer_resume,
    keyboard_consumer_step,
    keyboard_intr_handler, shift_char, translate_scancode, ConsumerStep, ModifierFlags, Scanf2ascii,
    KEYBOARD_VECTOR,
};
use kernel::memory::{mem_init, PageTables};
use kernel::semaphore::{lock_acquire, lock_release, Lock};
use kernel::thread::{init_list, init_main_thread, schedule, thread_start, Scheduler, TASK_BLOCKED};
use kernel::vga::Screen;

const LEFT_SHIFT: u8 = 0x2a;
const RIGHT_SHIFT: u8 = 0x36;
const CAPS: u8 = 0x3a;

fn booted() -> Scheduler {
    let mut s = init_list(&mut Screen::new());
    init_main_thread(&mut s, &mut Screen::new(), 0x9f000);
    s
}

#[test]
fn shifted_symbols() {
    assert_eq!(shift_char(b'1'), b'!');
    assert_eq!(shift_char(b'2'), b'@');
    assert_eq!(shift_char(b'0'), b')');
    assert_eq!(shift_char(b'-'), b'_');
    assert_eq!(shift_char(b'='), b'+');
    assert_eq!(shift_char(b'`'), b'~');
    assert_eq!(shift_char(b'['), b'{');
    assert_eq!(shift_char(b'\\'), b'|');
    assert_eq!(shift_char(b';'), b':');
    assert_eq!(shift_char(b'\''), b'"');
    assert_eq!(shift_char(b'/'), b'?');
}

#[test]
fn characters_without_shifted_form_give_zero() {
    assert_eq!(shift_char(b'a'), 0);
    assert_eq!(shift_char(b'+'), 0);
    assert_eq!(shift_char(b' '), 0);
    assert_eq!(shift_char(0), 0);
}

#[test]
fn mapping_rows() {
    assert_eq!(key_mapping(0x1e), Scanf2ascii { make_code: 0x1e, break_code: 0x9e, ascii: b'a' });
    assert_eq!(key_mapping(0x1c), Scanf2ascii { make_code: 0x1c, break_code: 0x9c, ascii: b'\n' });
    assert_eq!(key_mapping(0x01), Scanf2ascii { make_code: 0x01, break_code: 0x81, ascii: 0x1b });
    assert_eq!(key_mapping(0x2a), Scanf2ascii { make_code: 0x2a, break_code: 0xaa, ascii: 0 });
    assert_eq!(key_mapping(0x46), Scanf2ascii { make_code: 0, break_code: 0, ascii: 0 });
    assert_eq!(key_mapping(0x9e), Scanf2ascii { make_code: 0, break_code: 0, ascii: 0 });
}

#[test]
fn mapping_table_has_every_row() {
    let t = key_mapping_table();
    assert_eq!(t.len(), 256);
    assert_eq!(t[0x39].ascii, b' ');
    assert_eq!(t[0x33].ascii, b',');
    assert_eq!(t[0x4e].ascii, b'+');
    assert_eq!(t[0x0e].ascii, 0x08);
    assert_eq!(t[0x0f].ascii, b'\t');
    for code in 0..256usize {
        assert_eq!(t[code], key_mapping(code as u8));
    }
}

#[test]
fn plain_letters_and_digits() {
    let mut f = ModifierFlags::new();
    assert_eq!(translate_scancode(&mut f, 0x1e), Some(b'a'));
    assert_eq!(translate_scancode(&mut f, 0x02), Some(b'1'));
    assert_eq!(translate_scancode(&mut f, 0x39), Some(b' '));
    assert_eq!(f, ModifierFlags::new());
}

#[test]
fn shift_makes_upper_case_and_symbols() {
    let mut f = ModifierFlags::new();
    assert_eq!(translate_scancode(&mut f, LEFT_SHIFT), None);
    assert_eq!(f.left_shift, 1);
    assert_eq!(translate_scancode(&mut f, 0x1e), Some(b'A'));
    assert_eq!(translate_scancode(&mut f, 0x02), Some(b'!'));
    assert_eq!(translate_scancode(&mut f, LEFT_SHIFT | 0x80), None);
    assert_eq!(f.left_shift, 0);
    assert_eq!(translate_scancode(&mut f, 0x1e), Some(b'a'));
}

#[test]
fn right_shift_works_like_left() {
    let mut f = ModifierFlags::new();
    translate_scancode(&mut f, RIGHT_SHIFT);
    assert_eq!(f.right_shift, 1);
    assert_eq!(translate_scancode(&mut f, 0x10), Some(b'Q'));
    translate_scancode(&mut f, RIGHT_SHIFT | 0x80);
    assert_eq!(f.right_shift, 0);
}

#[test]
fn caps_lock_toggles_on_release() {
    let mut f = ModifierFlags::new();
    assert_eq!(translate_scancode(&mut f, CAPS), None);
    assert_eq!(f.caps_lock, 0);
    assert_eq!(translate_scancode(&mut f, CAPS | 0x80), None);
    assert_eq!(f.caps_lock, 1);
    assert_eq!(translate_scancode(&mut f, 0x1e), Some(b'A'));
    assert_eq!(translate_scancode(&mut f, 0x02), Some(b'1'));
    translate_scancode(&mut f, LEFT_SHIFT);
    assert_eq!(translate_scancode(&mut f, 0x1e), Some(b'a'));
    translate_scancode(&mut f, LEFT_SHIFT | 0x80);
    translate_scancode(&mut f, CAPS | 0x80);
    assert_eq!(f.caps_lock, 0);
}

#[test]
fn keypad_plus_with_shift_has_no_shifted_form() {
    let mut f = ModifierFlags::new();
    translate_scancode(&mut f, LEFT_SHIFT);
    assert_eq!(translate_scancode(&mut f, 0x4e), Some(0));
}

#[test]
fn control_alt_and_num_lock_states() {
    let mut f = ModifierFlags::new();
    change_key_status(&mut f, 0x1d);
    assert_eq!(f.left_ctrl, 1);
    change_key_status(&mut f, 0x38);
    assert_eq!(f.left_alt, 1);
    change_key_status(&mut f, 0x9d);
    assert_eq!(f.left_ctrl, 0);
    change_key_status(&mut f, 0xb8);
    assert_eq!(f.left_alt, 0);
    change_key_status(&mut f, 0xc5);
    assert_eq!(f.num_lock, 1);
    change_key_status(&mut f, 0xc5);
    assert_eq!(f.num_lock, 0);
    change_key_status(&mut f, 0x1e);
    assert_eq!(f, ModifierFlags::new());
}

#[test]
fn press_and_release_restore_the_state() {
    let mut f = ModifierFlags::new();
    f.caps_lock = 1;
    let before = f;
    for (make, brk) in [(0x2au8, 0xaau8), (0x36, 0xb6), (0x1d, 0x9d), (0x38, 0xb8)] {
        change_key_status(&mut f, make);
        change_key_status(&mut f, brk);
        assert_eq!(f, before);
    }
    change_key_status(&mut f, 0xba);
    change_key_status(&mut f, 0xba);
    assert_eq!(f, before);
}

#[test]
fn handler_queues_typed_characters() {
    let mut s = booted();
    let mut q = IoQueue::new(&mut s);
    let mut f = ModifierFlags::new();
    assert_eq!(keyboard_intr_handler(&mut s, &mut f, &mut q, 0x23), Some(b'h'));
    assert_eq!(keyboard_intr_handler(&mut s, &mut f, &mut q, 0xa3), None);
    assert_eq!(keyboard_intr_handler(&mut s, &mut f, &mut q, LEFT_SHIFT), None);
    assert_eq!(keyboard_intr_handler(&mut s, &mut f, &mut q, 0x17), Some(b'I'));
    assert_eq!(ioq_getchar(&mut s, &mut q), IoqStep::Done(b'h'));
    assert_eq!(ioq_getchar(&mut s, &mut q), IoqStep::Done(b'I'));
}

#[test]
fn handler_drops_characters_when_buffer_is_full() {
    let mut s = booted();
    let mut q = IoQueue::new(&mut s);
    let mut f = ModifierFlags::new();
    for _ in 0..63 {
        assert_eq!(keyboard_intr_handler(&mut s, &mut f, &mut q, 0x1e), Some(b'a'));
    }
    assert_eq!(keyboard_intr_handler(&mut s, &mut f, &mut q, 0x30), None);
    for _ in 0..63 {
        assert_eq!(ioq_getchar(&mut s, &mut q), IoqStep::Done(b'a'));
    }
}

#[test]
fn init_keyboard_installs_handler_and_empties_buffer() {
    let mut s = booted();
    let mut q = IoQueue::new(&mut s);
    let mut f = ModifierFlags::new();
    keyboard_intr_handler(&mut s, &mut f, &mut q, 0x1e);
    let mut table = init_idt_table(0x1000);
    init_keyboard(&mut table, 0x2000, &mut s, &mut q, &mut Screen::new());
    assert_eq!(table.handlers[KEYBOARD_VECTOR as usize], 0x2000);
    assert_eq!(table.handlers[0x20], 0x1000);
    assert_eq!(q.head, q.tail);
    assert!(q.producer.is_none() && q.consumer.is_none());
}

#[test]
fn reader_prints_typed_characters_in_order() {
    let mut s = booted();
    let mut q = IoQueue::new(&mut s);
    let mut lock = Lock::new(&mut s);
    let mut f = ModifierFlags::new();
    let mut screen = Screen::new();
    s.eflags = 0x202;
    for code in [0x23u8, 0x17, 0x39, 0x2a, 0x11] {
        keyboard_intr_handler(&mut s, &mut f, &mut q, code);
    }
    let mut printed = Vec::new();
    loop {
        match keyboard_consumer_step(&mut s, &mut q, &mut lock, &mut screen) {
            ConsumerStep::Printed(c) => printed.push(c),
            ConsumerStep::Idle => break,
            ConsumerStep::Blocked(..) => panic!("the console is free"),
        }
    }
    assert_eq!(printed, b"hi W".to_vec());
    assert_eq!(&screen.cells[0..4], b"hi W");
    assert_eq!(s.eflags, 0x202);
    assert_eq!(keyboard_consumer_step(&mut s, &mut q, &mut lock, &mut screen), ConsumerStep::Idle);
}

#[test]
fn reader_blocks_when_another_task_holds_the_console() {
    let mut s = booted();
    let mut m = mem_init(&mut Screen::new(), 0x0010_0003, 0x0200_0000, PageTables::new());
    thread_start(&mut s, &mut m, &mut Screen::new(), b"reader\0", 7, 0, 0, 0).unwrap();
    let mut q = IoQueue::new(&mut s);
    let mut lock = Lock::new(&mut s);
    let mut f = ModifierFlags::new();
    let mut screen = Screen::new();
    keyboard_intr_handler(&mut s, &mut f, &mut q, 0x1e);
    lock_acquire(&mut s, &mut lock);
    schedule(&mut s);
    assert_eq!(s.current, 1);
    match keyboard_consumer_step(&mut s, &mut q, &mut lock, &mut screen) {
        ConsumerStep::Blocked(c, sw) => {
            assert_eq!(c, b'a');
            assert_eq!(sw.from, 1);
            assert_eq!(sw.to, 0);
        }
        other => panic!("expected the reader to block, got {:?}", other),
    }
    assert_eq!(s.tasks[1].status, TASK_BLOCKED);
    assert_eq!(screen.cells[0], b' ');
    assert_eq!(q.head, q.tail);
}

#[test]
fn reader_prints_the_held_character_when_it_runs_again() {
    let mut s = booted();
    let mut m = mem_init(&mut Screen::new(), 0x0010_0003, 0x0200_0000, PageTables::new());
    thread_start(&mut s, &mut m, &mut Screen::new(), b"reader\0", 7, 0, 0, 0).unwrap();
    let mut q = IoQueue::new(&mut s);
    let mut lock = Lock::new(&mut s);
    let mut f = ModifierFlags::new();
    let mut screen = Screen::new();
    keyboard_intr_handler(&mut s, &mut f, &mut q, 0x1e);
    lock_acquire(&mut s, &mut lock);
    schedule(&mut s);
    s.eflags = 0x202;
    let (c, sw) = match keyboard_consumer_step(&mut s, &mut q, &mut lock, &mut screen) {
        ConsumerStep::Blocked(c, sw) => (c, sw),
        other => panic!("expected the reader to block, got {:?}", other),
    };
    assert_eq!(sw.resume_intr, 0x200);
    assert_eq!(s.eflags, 0x002);
    assert_eq!(s.current, 0);
    lock_release(&mut s, &mut lock);
    schedule(&mut s);
    assert_eq!(s.current, 1);
    assert_eq!(keyboard_consumer_resume(&mut s, &mut lock, &mut screen, c, sw), ConsumerStep::Printed(b'a'));
    assert_eq!(screen.cells[0], b'a');
    assert_eq!(s.eflags, 0x202);
    assert_eq!(lock.holder, None);
}
