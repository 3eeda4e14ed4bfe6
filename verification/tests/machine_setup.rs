use kernel::gdt::{descriptor, flat_code_descriptor, flat_data_descriptor, gdt_init, tss_descriptor, DPL_RING3};
use kernel::idt::{change_func_addr, idt_init, idt_register, idt_unregister, GateDesc, Idt, IDT_INTGATE, IDT_TRAPGATE};
use kernel::init::{init_all, BootInfo};
use kernel::isr::{
    init_idt_table, intr_disable_c, intr_enable_c, register_intr_handler, set_intr_status,
};
use kernel::memory::PageTables;
use kernel::pic::{pic_clearmask, pic_init, pic_sendeoi, pic_setmask, Pic};
use kernel::port::{Port, PortWrite};
use kernel::thread::TASK_RUNNING;
use kernel::timer::{frequency_set, timer_init};
use kernel::tss::{set_esp0, GlobalTss, TaskStateSegment};
use kernel::vga::Screen;
use kernel::{memset, rust_kernel_probe, RUST_PROBE_MAGIC};

fn pw(port: u16, value: u8) -> PortWrite {
    PortWrite { port, value }
}

#[test]
fn flat_segment_descriptors() {
    assert_eq!(flat_code_descriptor(0), 0x00cf_9a00_0000_ffff);
    assert_eq!(flat_data_descriptor(0), 0x00cf_9200_0000_ffff);
    assert_eq!(flat_code_descriptor(DPL_RING3), 0x00cf_fa00_0000_ffff);
    assert_eq!(flat_data_descriptor(DPL_RING3), 0x00cf_f200_0000_ffff);
}

#[test]
fn descriptor_places_every_field() {
    assert_eq!(tss_descriptor(0x1234_5678, 103), 0x1200_8934_5678_0067);
    assert_eq!(descriptor(0xb8000, 7, 0x00c0_8200), 0x00c0_820b_8000_0007);
    assert_eq!(descriptor(0, 0xf_ffff, 0), 0x000f_0000_0000_ffff);
    assert_eq!(descriptor(0xffff_ffff, 0, 0xffff_ffff), 0xfff0_ffff_ffff_0000);
}

#[test]
fn gdt_layout() {
    let g = gdt_init(0xc000_0900, 0xc000_1000);
    assert_eq!(g.limit, 63);
    assert_eq!(g.base, 0xc000_0900);
    assert_eq!((g.cs, g.ds, g.es, g.ss, g.gs, g.tr), (0x08, 0x10, 0x10, 0x10, 0x18, 0x30));
    assert_eq!(g.entries.len(), 8);
    assert_eq!(g.entries[0], 0);
    assert_eq!(g.entries[1], 0x00cf_9a00_0000_ffff);
    assert_eq!(g.entries[2], 0x00cf_9200_0000_ffff);
    assert_eq!(g.entries[3], 0x00c0_920b_8000_0007);
    assert_eq!(g.entries[4], 0x00cf_fa00_0000_ffff);
    assert_eq!(g.entries[5], 0x00cf_f200_0000_ffff);
    assert_eq!(g.entries[6], tss_descriptor(0xc000_1000, 103));
    assert_eq!(g.entries[7], 0);
}

#[test]
fn task_state_segment() {
    let t = TaskStateSegment::new();
    assert_eq!(t.esp0, 0);
    assert_eq!(t.ss0, 0x10);
    assert_eq!(t.trap_iomap, 104 << 16);
    assert_eq!(t.cr3, 0);
    let mut g = GlobalTss::new();
    set_esp0(&mut g, 0xc010_1000);
    assert_eq!(g.as_ptr().esp0, 0xc010_1000);
    assert_eq!(g.as_ptr().ss0, 0x10);
}

#[test]
fn idt_gates() {
    let mut idt = Idt::new();
    idt_register(&mut idt, 0x21, IDT_INTGATE, 0xc000_1234);
    assert_eq!(
        idt.gates[0x21],
        GateDesc { baselo: 0x1234, selector: 0x08, reserved: 0, flags: 0x8e, basehi: 0xc000 }
    );
    idt_register(&mut idt, 3, IDT_TRAPGATE, 0x0010_0000);
    assert_eq!(idt.gates[3].flags, 0x8f);
    change_func_addr(&mut idt, 0x21, 0xdead_beef);
    assert_eq!(idt.gates[0x21].baselo, 0xbeef);
    assert_eq!(idt.gates[0x21].basehi, 0xdead);
    assert_eq!(idt.gates[0x21].flags, 0x8e);
    idt_unregister(&mut idt, 0x21);
    assert_eq!(idt.gates[0x21].flags, 0);
    assert_eq!(idt.gates[0x21].baselo, 0xbeef);
    let limit = idt_init(&mut idt);
    assert_eq!(limit, 2047);
    assert!(idt.gates.iter().all(|g| g.flags == 0));
}

#[test]
fn pic_programming() {
    let mut pic = Pic::new();
    let w = pic_init(&mut pic);
    assert_eq!(
        w,
        vec![
            pw(0x20, 0x11),
            pw(0xa0, 0x11),
            pw(0x21, 0x20),
            pw(0xa1, 0x28),
            pw(0x21, 0x04),
            pw(0xa1, 0x02),
            pw(0x21, 0x01),
            pw(0xa1, 0x01),
            pw(0x21, 0xfb),
            pw(0xa1, 0xff),
        ]
    );
    assert_eq!(pic.master_imr, 0xfb);
    assert_eq!(pic.slave_imr, 0xff);
    assert_eq!(pic_clearmask(&mut pic, 0), vec![pw(0x21, 0xfa)]);
    assert_eq!(pic_clearmask(&mut pic, 1), vec![pw(0x21, 0xf8)]);
    assert_eq!(pic_clearmask(&mut pic, 12), vec![pw(0xa1, 0xef)]);
    assert_eq!(pic_setmask(&mut pic, 0), vec![pw(0x21, 0xf9)]);
    assert_eq!(pic_setmask(&mut pic, 12), vec![pw(0xa1, 0xff)]);
    assert_eq!(pic_clearmask(&mut pic, 16), vec![]);
    assert_eq!(pic_setmask(&mut pic, -1), vec![]);
    assert_eq!(pic.master_imr, 0xf9);
    assert_eq!(pic.slave_imr, 0xff);
}

#[test]
fn end_of_interrupt() {
    assert_eq!(pic_sendeoi(0), vec![pw(0x20, 0x20)]);
    assert_eq!(pic_sendeoi(7), vec![pw(0x20, 0x20)]);
    assert_eq!(pic_sendeoi(8), vec![pw(0xa0, 0x20), pw(0x20, 0x20)]);
    assert_eq!(pic_sendeoi(16), vec![]);
    assert_eq!(pic_sendeoi(-3), vec![]);
}

#[test]
fn timer_programming() {
    assert_eq!(timer_init(&mut Screen::new()), vec![pw(0x43, 0x34), pw(0x40, 0x9b), pw(0x40, 0x2e)]);
    assert_eq!(frequency_set(0x42, 2, 3, 3, 0x1234), vec![pw(0x43, 0xb6), pw(0x42, 0x34), pw(0x42, 0x12)]);
}

#[test]
fn port_numbers() {
    let p: Port<u8> = Port::new(0x60);
    assert_eq!(p.number, 0x60);
    let q: Port<u32> = Port::new(0xcf8);
    assert_eq!(q.number, 0xcf8);
}

#[test]
fn handler_table() {
    let mut t = init_idt_table(0x1111);
    assert_eq!(t.handlers.len(), 0x30);
    assert!(t.handlers.iter().all(|&h| h == 0x1111));
    register_intr_handler(&mut t, 0x20, 0x2222);
    assert_eq!(t.handlers[0x20], 0x2222);
    assert_eq!(t.handlers[0x1f], 0x1111);
}

#[test]
fn interrupt_flag_save_and_restore() {
    let mut eflags = 0x0000_0246u32;
    let old = intr_disable_c(&mut eflags);
    assert_eq!(old, 0x200);
    assert_eq!(eflags, 0x46);
    assert_eq!(intr_disable_c(&mut eflags), 0);
    set_intr_status(&mut eflags, old);
    assert_eq!(eflags, 0x246);
    let was = intr_enable_c(&mut eflags);
    assert_eq!(was, 0x200);
    set_intr_status(&mut eflags, 0);
    assert_eq!(eflags, 0x46);
    assert_eq!(intr_enable_c(&mut eflags), 0);
    assert_eq!(eflags, 0x246);
}

#[test]
fn memset_fills_a_prefix() {
    let mut v = vec![7u8; 6];
    memset(&mut v, 0x1ff, 4);
    assert_eq!(v, vec![0xff, 0xff, 0xff, 0xff, 7, 7]);
    memset(&mut v, 0, 0);
    assert_eq!(v[0], 0xff);
}

#[test]
fn probe_value() {
    assert_eq!(rust_kernel_probe(), RUST_PROBE_MAGIC);
    assert_eq!(RUST_PROBE_MAGIC, 0x5255_5354);
}

#[test]
fn boot_brings_everything_up() {
    let mut screen = Screen::new();
    screen.cells[5] = b'x';
    screen.cursor = 77;
    let entry_table: Vec<u32> = (0..0x30u32).map(|i| 0xc000_2000 + i * 16).collect();
    let boot = BootInfo {
        cr3: 0x0010_0000,
        total_mem: 0x0200_0000,
        tables: PageTables::new(),
        esp: 0x0009_f123,
        entry_table,
        general_handler: 0x100,
        clock_handler: 0x200,
        keyboard_handler: 0x300,
    };
    let (k, act) = init_all(screen, boot);
    let lines = [
        "timer_init start",
        "timer_init done",
        "the total memory is:",
        "2000000",
        "mem_init start",
        "mem_init done",
        "list done",
        "init main done",
        "main done",
        "keyboard has done",
    ];
    for (row, line) in lines.iter().enumerate() {
        let cells = &k.screen.cells[row * 80..row * 80 + 80];
        let text = String::from_utf8(cells.to_vec()).unwrap();
        assert_eq!(text.trim_end(), *line);
    }
    assert!(k.screen.cells[800..].iter().all(|&c| c == b' '));
    assert_eq!(k.screen.cursor, 800);
    assert_eq!(k.mem.total_mem, 0x0200_0000);
    assert_eq!(act.idt_limit, 2047);
    assert_eq!(act.port_writes.len(), 13);
    assert_eq!(act.port_writes[10], pw(0x43, 0x34));
    assert_eq!(k.idt.gates[0x21].baselo, 0x2210);
    assert_eq!(k.idt.gates[0x21].flags, 0x8e);
    assert_eq!(k.idt.gates[0x30].flags, 0);
    assert_eq!(k.handlers.handlers[0x20], 0x200);
    assert_eq!(k.handlers.handlers[0x21], 0x300);
    assert_eq!(k.handlers.handlers[0x0e], 0x100);
    assert_eq!(k.mem.kernel_page_directory_paddr, 0x0010_0000);
    assert_eq!(k.sched.tasks.len(), 1);
    assert_eq!(k.sched.tasks[0].status, TASK_RUNNING);
    assert_eq!(k.sched.tasks[0].page, 0x0009_f000);
    assert_eq!(k.console_lock.holder, None);
    assert_eq!(k.keyboard_buf.head, k.keyboard_buf.tail);
    assert_eq!(k.pic.master_imr, 0xfb);
}

#[test]
fn timer_init_reports_progress() {
    let mut screen = Screen::new();
    timer_init(&mut screen);
    assert_eq!(&screen.cells[0..16], b"timer_init start");
    assert_eq!(&screen.cells[80..95], b"timer_init done");
    assert_eq!(screen.cursor, 160);
}
