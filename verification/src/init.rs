//! Boot-time initialisation of the whole kernel, in the order the kernel
//! brings its parts up: screen, interrupt descriptor table, interrupt
//! controllers, timer, memory, interrupt handlers, tasks, console and
//! keyboard.
use crate::idt::{gate_for, idt_init, idt_ok, idt_register, Idt, IDT_DESC_CNT, IDT_INTGATE, IDT_SIZE};
use crate::ioqueue::IoQueue;
use crate::isr::{init_idt_table, register_intr_handler, HandlerTable, TIMER_VECTOR};
use crate::keyboard::{all_released, init_keyboard, ModifierFlags, KEYBOARD_VECTOR};
use crate::memory::{
    fresh_pools, kernel_bitmap_bytes_for, kernel_range_fits, layout_fits, mem_init, KernelMemory,
    PageTables, KERNEL_DYNAMIC_START, PAGE_ENTRY_ADDRESS_MASK,
};
use crate::pic::{pic_init, pic_init_writes, Pic, MASK_ALL, MASK_IRQ2};
use crate::port::PortWrite;
use crate::semaphore::Lock;
use crate::thread::{init_list, init_main_thread, MAGIC_NUM, MAIN_PRIORITY, main_name, thread_name, Scheduler, PAGE_SIZE, TASK_RUNNING};
use crate::timer::{timer_init, timer_init_writes};
use crate::memory::mem_init_output;
use crate::messages::{keyboard_done_msg, list_done_msg, main_done_msg, timer_done_msg, timer_start_msg};
use crate::thread::init_line;
use crate::vga::{blank_cells, chars_step, clear, lemma_chars_step_concat, screen_ok, Screen, ScreenView};
use vstd::prelude::*;

verus! {

/// What the boot code hands over: the CR3 value and page tables in force,
/// the size of physical memory, the boot stack pointer, the entry stubs of
/// the first 0x30 interrupt vectors, and the handlers for unexpected
/// interrupts, the timer and the keyboard.
pub struct BootInfo {
    pub cr3: u32,
    pub total_mem: u32,
    pub tables: PageTables,
    pub esp: u32,
    pub entry_table: Vec<u32>,
    pub general_handler: usize,
    pub clock_handler: usize,
    pub keyboard_handler: usize,
}

/// The kernel's state once it is up.
pub struct Kernel {
    pub screen: Screen,
    pub idt: Idt,
    pub pic: Pic,
    pub mem: KernelMemory,
    pub handlers: HandlerTable,
    pub sched: Scheduler,
    pub console_lock: Lock,
    pub keyboard_buf: IoQueue,
    pub key_flags: ModifierFlags,
}

/// What boot leaves for the hardware: the port writes, in order, and the
/// limit of the IDT to load.
pub struct BootActions {
    pub port_writes: Vec<PortWrite>,
    pub idt_limit: u16,
}

/// The boot information is usable: the page directory is not at address 0,
/// memory is large enough for the kernel's layout, the kernel heap is
/// unmapped, the boot stack's page has a top, and there is an entry stub for
/// each vector.
pub open spec fn boot_ok(b: BootInfo) -> bool {
    &&& b.cr3 & PAGE_ENTRY_ADDRESS_MASK != 0
    &&& layout_fits(b.total_mem)
    &&& kernel_range_fits(b.total_mem)
    &&& b.tables.wf()
    &&& forall|i: int|
        0 <= i < kernel_bitmap_bytes_for(b.total_mem) * 8 ==> !b.tables.is_mapped(
            #[trigger] (KERNEL_DYNAMIC_START + i * 4096) as u32,
        )
    &&& b.esp - b.esp % 4096 <= u32::MAX - PAGE_SIZE
    &&& b.entry_table.len() == IDT_DESC_CNT
}

/// What the kernel prints while it boots on a machine with `total_mem`
/// bytes of physical memory: the timer, memory, task list, "main" task and
/// keyboard progress lines, in that order.
pub open spec fn boot_output(total_mem: u32) -> Seq<u8> {
    timer_start_msg() + timer_done_msg() + mem_init_output(total_mem) + list_done_msg() + init_line(main_name())
        + main_done_msg() + keyboard_done_msg()
}

/// The screen right after it is cleared: blank, with the cursor at the top left.
pub open spec fn cleared_screen() -> ScreenView {
    ScreenView { cells: blank_cells(), cursor: 0 }
}

/// Brings the kernel up from the boot state (see `BootInfo`).
///
/// The screen is cleared, then shows the boot messages (see
/// `boot_output`); every descriptor gate is first marked not present,
/// then the first 0x30 become interrupt gates into their entry stubs; the
/// interrupt controllers and the timer are programmed; the memory pools are
/// laid out; every vector is handled by the general handler except the timer
/// and the keyboard; the boot context becomes the task "main"; the console
/// lock is free and the keyboard buffer empty.
pub fn init_all(screen: Screen, boot: BootInfo) -> (r: (Kernel, BootActions))
    requires
        screen_ok(screen@),
        boot_ok(boot),
    ensures
        ({
            let (k, act) = r;
            &&& screen_ok(k.screen@)
            &&& k.screen@ == chars_step(cleared_screen(), boot_output(boot.total_mem))
            &&& k.mem.total_mem == boot.total_mem
            &&& idt_ok(&k.idt)
            &&& forall|i: int| 0 <= i < IDT_DESC_CNT ==> k.idt.gates@[i] == gate_for(IDT_INTGATE, boot.entry_table@[i])
            &&& forall|i: int| IDT_DESC_CNT <= i < IDT_SIZE ==> k.idt.gates@[i].flags == 0
            &&& act.idt_limit == 2047
            &&& k.pic.master_imr == !MASK_IRQ2
            &&& k.pic.slave_imr == MASK_ALL
            &&& act.port_writes@ == pic_init_writes() + timer_init_writes()
            &&& k.mem.wf()
            &&& k.mem.kernel_page_directory_paddr == boot.cr3 & PAGE_ENTRY_ADDRESS_MASK
            &&& fresh_pools(k.mem.pools, boot.total_mem)
            &&& k.handlers.handlers.len() == 0x30
            &&& forall|i: int|
                0 <= i < 0x30 ==> k.handlers.handlers@[i] == (if i == TIMER_VECTOR {
                    boot.clock_handler
                } else if i == KEYBOARD_VECTOR {
                    boot.keyboard_handler
                } else {
                    boot.general_handler
                })
            &&& k.sched.wf()
            &&& k.sched.tasks.len() == 1
            &&& k.sched.current == 0
            &&& k.sched.tasks@[0].status == TASK_RUNNING
            &&& k.sched.tasks@[0].name@ == thread_name(main_name())
            &&& k.sched.tasks@[0].page == boot.esp - boot.esp % 4096
            &&& k.sched.ready().len() == 0
            &&& k.console_lock.wf(k.sched)
            &&& k.console_lock.holder is None
            &&& k.keyboard_buf.wf(k.sched)
            &&& k.keyboard_buf.contents().len() == 0
            &&& k.keyboard_buf.head == 0
            &&& k.keyboard_buf.tail == 0
            &&& k.keyboard_buf.producer is None
            &&& k.keyboard_buf.consumer is None
            &&& k.keyboard_buf.mutex.holder is None
            &&& k.sched.tasks@[0].priority == MAIN_PRIORITY
            &&& k.sched.tasks@[0].ticks == MAIN_PRIORITY
            &&& k.sched.tasks@[0].elapsed_ticks == 0
            &&& k.sched.tasks@[0].pgdir is None
            &&& k.sched.tasks@[0].stack_magic == MAGIC_NUM
            &&& k.key_flags == all_released()
        }),
{
    let mut screen = screen;
    clear(&mut screen);
    let ghost s0 = screen@;
    proof {
        assert(s0 == cleared_screen());
    }
    let mut idt = Idt::new();
    let idt_limit = idt_init(&mut idt);
    let mut pic = Pic::new();
    let mut port_writes = pic_init(&mut pic);
    let mut timer_writes = timer_init(&mut screen);
    port_writes.append(&mut timer_writes);
    let BootInfo { cr3, total_mem, tables, esp, entry_table, general_handler, clock_handler, keyboard_handler } = boot;
    let mem = mem_init(&mut screen, cr3, total_mem, tables);
    let mut i: usize = 0;
    while i < IDT_DESC_CNT as usize
        invariant
            i <= IDT_DESC_CNT,
            idt_ok(&idt),
            entry_table.len() == IDT_DESC_CNT,
            forall|j: int| 0 <= j < i ==> idt.gates@[j] == gate_for(IDT_INTGATE, entry_table@[j]),
            forall|j: int| i <= j < IDT_SIZE ==> idt.gates@[j].flags == 0,
        decreases IDT_DESC_CNT - i,
    {
        idt_register(&mut idt, i as u8, IDT_INTGATE, entry_table[i]);
        i += 1;
    }
    let mut handlers = init_idt_table(general_handler);
    register_intr_handler(&mut handlers, TIMER_VECTOR, clock_handler);
    let mut sched = init_list(&mut screen);
    let mut console_lock = Lock::new(&mut sched);
    let ghost s1 = sched;
    let mut keyboard_buf = IoQueue::new(&mut sched);
    proof {
        assert(console_lock.semaphore.wf(sched)) by {
            assert(s1.lists.lists@.dom().contains(console_lock.semaphore.waiter_head));
        }
    }
    let page = crate::thread::running_thread(esp);
    let ghost s2 = sched;
    init_main_thread(&mut sched, &mut screen, page);
    proof {
        assert(sched.lists.lists@.dom().contains(console_lock.semaphore.waiter_head));
        assert(sched.lists.lists@.dom().contains(keyboard_buf.mutex.semaphore.waiter_head));
    }
    crate::console::console_init(&mut sched, &mut console_lock);
    init_keyboard(&mut handlers, keyboard_handler, &mut sched, &mut keyboard_buf, &mut screen);
    let key_flags = ModifierFlags::new();
    proof {
        let t = timer_start_msg() + timer_done_msg();
        let m = mem_init_output(total_mem);
        let l = list_done_msg();
        let n = init_line(main_name()) + main_done_msg();
        let kb = keyboard_done_msg();
        lemma_chars_step_concat(s0, t, m);
        lemma_chars_step_concat(s0, t + m, l);
        lemma_chars_step_concat(s0, t + m + l, n);
        lemma_chars_step_concat(s0, t + m + l + n, kb);
        assert(t + m + l + n + kb =~= boot_output(total_mem));
    }
    proof {
        assert forall|j: int| 0 <= j < 0x30 implies handlers.handlers@[j] == (if j == TIMER_VECTOR {
            clock_handler
        } else if j == KEYBOARD_VECTOR {
            keyboard_handler
        } else {
            general_handler
        }) by {}
    }
    let k = Kernel { screen, idt, pic, mem, handlers, sched, console_lock, keyboard_buf, key_flags };
    (k, BootActions { port_writes, idt_limit })
}

} // verus!
