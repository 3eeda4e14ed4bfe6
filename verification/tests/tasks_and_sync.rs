use kernel::console::{console_init, console_put_char, console_put_int, console_put_str};
use kernel::ioqueue::{
    ioq_getchar, ioq_init, ioq_is_empty, ioq_is_full, ioq_putchar, next_pos, IoQueue, IoqStep,
};
use kernel::list::list_find;
use kernel::memory::{active_virtual_to_physical, mem_init, KernelMemory, PageTables};
use kernel::semaphore::{lock_acquire, lock_init, lock_release, sema_init, sema_post, sema_wait, Lock, Semaphore};
use kernel::thread::{
    clock_interrupt, init_list, init_main_thread, init_thread, is_enable_interrupts,
    running_thread, schedule, thread_block, thread_create, thread_exit, thread_start,
    thread_resume, thread_unblock, Scheduler, SwitchAction, ThreadStack, MAGIC_NUM, TASK_BLOCKED, TASK_DIED,
    TASK_READY, TASK_RUNNING, TASK_WAITING,
};
use kernel::vga::Screen;

const MAIN_PAGE: u32 = 0x9f000;

fn memory() -> KernelMemory {
    mem_init(&mut Screen::new(), 0x0010_0003, 0x0200_0000, PageTables::new())
}

fn booted() -> Scheduler {
    let mut s = init_list(&mut Screen::new());
    init_main_thread(&mut s, &mut Screen::new(), MAIN_PAGE);
    s
}

fn ready_tags(s: &Scheduler) -> Vec<usize> {
    let mut v = Vec::new();
    let mut p = s.lists.nodes[s.ready_list].next;
    while p != s.ready_list {
        v.push(p);
        p = s.lists.nodes[p].next;
    }
    v
}

fn with_worker() -> (Scheduler, KernelMemory) {
    let mut s = booted();
    let mut m = memory();
    let r = thread_start(&mut s, &mut m, &mut Screen::new(), b"worker\0", 10, 0x1000, 0x2000, 0x3000);
    assert!(r.is_some());
    (s, m)
}

#[test]
fn interrupt_flag_of_eflags() {
    assert!(is_enable_interrupts(0x202));
    assert!(!is_enable_interrupts(0x002));
    assert!(!is_enable_interrupts(0));
}

#[test]
fn running_thread_is_the_stack_page() {
    assert_eq!(running_thread(0x9fabc), 0x9f000);
    assert_eq!(running_thread(0x9f000), 0x9f000);
    assert_eq!(running_thread(0xfff), 0);
}

#[test]
fn init_thread_fields() {
    let t = init_thread(&mut Screen::new(), 0x5000, b"idle\0", 8, 7, 9);
    assert_eq!(&t.name[..], b"idle\0\0\0\0\0\0\0\0\0\0\0\0");
    assert_eq!(t.status, TASK_READY);
    assert_eq!(t.self_kstack, 0x6000);
    assert_eq!(t.priority, 8);
    assert_eq!(t.ticks, 8);
    assert_eq!(t.elapsed_ticks, 0);
    assert_eq!(t.pgdir, None);
    assert_eq!(t.stack_magic, MAGIC_NUM);
    assert_eq!(t.general_tag, 7);
    assert_eq!(t.all_list_tag, 9);
}

#[test]
fn init_thread_clamps_priority_and_truncates_name() {
    let t = init_thread(&mut Screen::new(), 0x5000, b"a-very-long-thread-name\0", 0, 0, 1);
    assert_eq!(&t.name[..15], b"a-very-long-thr");
    assert_eq!(t.name[15], 0);
    assert_eq!(t.priority, 1);
    let t = init_thread(&mut Screen::new(), 0x5000, b"x\0", 1000, 0, 1);
    assert_eq!(t.priority, 255);
    assert_eq!(t.ticks, 255);
}

#[test]
fn init_thread_named_main_runs() {
    let t = init_thread(&mut Screen::new(), 0x5000, b"main\0", 31, 0, 1);
    assert_eq!(t.status, TASK_RUNNING);
    let t = init_thread(&mut Screen::new(), 0x5000, b"mainly\0", 31, 0, 1);
    assert_eq!(t.status, TASK_READY);
}

#[test]
fn thread_create_reserves_both_frames() {
    let mut t = init_thread(&mut Screen::new(), 0x5000, b"t\0", 3, 0, 1);
    let f = thread_create(&mut t, 0x111, 0x222, 0x333);
    assert_eq!(t.self_kstack, 0x6000 - 76 - 32);
    assert_eq!(
        f,
        ThreadStack { ebp: 0, ebx: 0, edi: 0, esi: 0, eip: 0x111, unused_retaddr: 0, function: 0x222, func_arg: 0x333 }
    );
}

#[test]
fn boot_task_is_main() {
    let s = booted();
    assert_eq!(s.tasks.len(), 1);
    assert_eq!(s.current, 0);
    let t = &s.tasks[0];
    assert_eq!(t.status, TASK_RUNNING);
    assert_eq!(t.priority, 31);
    assert_eq!(t.ticks, 31);
    assert_eq!(&t.name[..5], b"main\0");
    assert_eq!(t.self_kstack, MAIN_PAGE + 4096);
    assert_eq!(t.kernel_stack_top(), MAIN_PAGE + 4096);
    assert!(ready_tags(&s).is_empty());
    assert!(list_find(&s.lists, s.all_list, t.all_list_tag));
    assert!(!list_find(&s.lists, s.ready_list, t.general_tag));
}

#[test]
fn thread_start_queues_a_ready_task() {
    let mut s = booted();
    let mut m = memory();
    let r = thread_start(&mut s, &mut m, &mut Screen::new(), b"worker\0", 10, 0x1000, 0x2000, 0x3000);
    let (i, frame) = r.unwrap();
    assert_eq!(i, 1);
    assert_eq!(frame.eip, 0x1000);
    assert_eq!(frame.function, 0x2000);
    assert_eq!(frame.func_arg, 0x3000);
    let t = &s.tasks[1];
    assert_eq!(t.status, TASK_READY);
    assert_eq!(t.page, 0xc010_0000);
    assert_eq!(t.self_kstack, 0xc010_1000 - 108);
    assert_eq!(t.priority, 10);
    assert_eq!(ready_tags(&s), vec![t.general_tag]);
    assert!(list_find(&s.lists, s.all_list, t.all_list_tag));
    assert_eq!(active_virtual_to_physical(&m.tables, 0xc010_0000), Some(0x0020_0000));
    assert_eq!(s.current, 0);
}

#[test]
fn schedule_is_round_robin() {
    let (mut s, mut m) = with_worker();
    thread_start(&mut s, &mut m, &mut Screen::new(), b"second\0", 5, 0, 0, 0).unwrap();
    let g1 = s.tasks[1].general_tag;
    let g2 = s.tasks[2].general_tag;
    let g0 = s.tasks[0].general_tag;
    s.tasks[0].ticks = 0;
    let a = schedule(&mut s);
    assert_eq!(a, SwitchAction { from: 0, to: 1, pgdir: None, resume_intr: 0 });
    assert_eq!(s.tasks[0].status, TASK_READY);
    assert_eq!(s.tasks[0].ticks, 31);
    assert_eq!(s.tasks[1].status, TASK_RUNNING);
    assert_eq!(s.tss.inner.esp0, s.tasks[1].page + 4096);
    assert_eq!(ready_tags(&s), vec![g2, g0]);
    let b = schedule(&mut s);
    assert_eq!(b, SwitchAction { from: 1, to: 2, pgdir: None, resume_intr: 0 });
    assert_eq!(ready_tags(&s), vec![g0, g1]);
    let c = schedule(&mut s);
    assert_eq!(c.to, 0);
    assert_eq!(s.tss.inner.esp0, MAIN_PAGE + 4096);
}

#[test]
fn schedule_with_nothing_ready_keeps_current() {
    let mut s = booted();
    let a = schedule(&mut s);
    assert_eq!(a, SwitchAction { from: 0, to: 0, pgdir: None, resume_intr: 0 });
    assert_eq!(s.tasks[0].status, TASK_RUNNING);
    assert!(ready_tags(&s).is_empty());
}

#[test]
fn clock_interrupt_counts_down_the_time_slice() {
    let (mut s, _m) = with_worker();
    s.tasks[0].ticks = 3;
    assert_eq!(clock_interrupt(&mut s), None);
    assert_eq!(s.tasks[0].ticks, 2);
    assert_eq!(s.tasks[0].elapsed_ticks, 1);
    assert_eq!(clock_interrupt(&mut s), None);
    assert_eq!(s.tasks[0].ticks, 1);
    let a = clock_interrupt(&mut s).unwrap();
    assert_eq!(a.from, 0);
    assert_eq!(a.to, 1);
    assert_eq!(s.tasks[0].elapsed_ticks, 3);
    assert_eq!(s.tasks[0].ticks, 31);
    assert_eq!(s.tasks[0].status, TASK_READY);
}

#[test]
fn block_and_unblock() {
    let (mut s, _m) = with_worker();
    s.eflags = 0x202;
    let a = thread_block(&mut s, TASK_BLOCKED);
    assert_eq!(a.to, 1);
    assert_eq!(s.eflags, 0x002);
    assert_eq!(s.tasks[0].status, TASK_BLOCKED);
    assert!(ready_tags(&s).is_empty());
    thread_unblock(&mut s, 0);
    assert_eq!(s.tasks[0].status, TASK_READY);
    assert_eq!(ready_tags(&s), vec![s.tasks[0].general_tag]);
    assert_eq!(s.eflags, 0x002);
    assert_eq!(a.resume_intr, 0x200);
    schedule(&mut s);
    assert_eq!(s.current, 0);
    thread_resume(&mut s, a);
    assert_eq!(s.eflags, 0x202);
}

#[test]
fn unblocked_task_runs_before_earlier_ready_tasks() {
    let (mut s, mut m) = with_worker();
    thread_start(&mut s, &mut m, &mut Screen::new(), b"third\0", 5, 0, 0, 0).unwrap();
    thread_block(&mut s, TASK_WAITING);
    assert_eq!(s.current, 1);
    thread_unblock(&mut s, 0);
    assert_eq!(ready_tags(&s), vec![s.tasks[0].general_tag, s.tasks[2].general_tag]);
}

#[test]
fn dead_thread_is_not_requeued() {
    let (mut s, _m) = with_worker();
    schedule(&mut s);
    assert_eq!(s.current, 1);
    let a = thread_exit(&mut s);
    assert_eq!(a, SwitchAction { from: 1, to: 0, pgdir: None, resume_intr: 0 });
    assert_eq!(s.tasks[1].status, TASK_DIED);
    assert!(ready_tags(&s).is_empty());
    schedule(&mut s);
    assert_eq!(s.current, 0);
    assert_eq!(s.tasks[1].status, TASK_DIED);
}

#[test]
fn semaphore_wait_and_post() {
    let (mut s, _m) = with_worker();
    let mut sem = Semaphore::new(&mut s, 1);
    assert_eq!(sema_wait(&mut s, &mut sem), None);
    assert_eq!(sem.value, 0);
    let a = sema_wait(&mut s, &mut sem).unwrap();
    assert_eq!(a.from, 0);
    assert_eq!(a.to, 1);
    assert_eq!(s.tasks[0].status, TASK_BLOCKED);
    assert!(list_find(&s.lists, sem.waiter_head, s.tasks[0].general_tag));
    sema_post(&mut s, &mut sem);
    assert_eq!(sem.value, 1);
    assert_eq!(s.tasks[0].status, TASK_READY);
    assert!(!list_find(&s.lists, sem.waiter_head, s.tasks[0].general_tag));
    assert_eq!(ready_tags(&s), vec![s.tasks[0].general_tag]);
}

#[test]
fn sema_init_resets_value() {
    let mut s = booted();
    let mut sem = Semaphore::new(&mut s, 0);
    sema_init(&mut s, &mut sem, 1);
    assert_eq!(sem.value, 1);
}

#[test]
fn lock_is_reentrant() {
    let (mut s, _m) = with_worker();
    let mut l = Lock::new(&mut s);
    assert_eq!(lock_acquire(&mut s, &mut l), None);
    assert_eq!(l.holder, Some(0));
    assert_eq!(l.lock_rpt_nr, 1);
    assert_eq!(l.semaphore.value, 0);
    assert_eq!(lock_acquire(&mut s, &mut l), None);
    assert_eq!(l.lock_rpt_nr, 2);
    lock_release(&mut s, &mut l);
    assert_eq!(l.holder, Some(0));
    assert_eq!(l.lock_rpt_nr, 1);
    lock_release(&mut s, &mut l);
    assert_eq!(l.holder, None);
    assert_eq!(l.lock_rpt_nr, 0);
    assert_eq!(l.semaphore.value, 1);
}

#[test]
fn contended_lock_blocks_and_hands_over() {
    let (mut s, _m) = with_worker();
    let mut l = Lock::new(&mut s);
    lock_acquire(&mut s, &mut l);
    schedule(&mut s);
    assert_eq!(s.current, 1);
    let a = lock_acquire(&mut s, &mut l).unwrap();
    assert_eq!(a.to, 0);
    assert_eq!(s.tasks[1].status, TASK_BLOCKED);
    assert_eq!(l.holder, Some(0));
    lock_release(&mut s, &mut l);
    assert_eq!(l.holder, None);
    assert_eq!(s.tasks[1].status, TASK_READY);
    schedule(&mut s);
    assert_eq!(s.current, 1);
    assert_eq!(lock_acquire(&mut s, &mut l), None);
    assert_eq!(l.holder, Some(1));
}

#[test]
fn lock_init_frees_the_lock() {
    let mut s = booted();
    let mut l = Lock::new(&mut s);
    l.holder = Some(0);
    l.lock_rpt_nr = 4;
    l.semaphore.value = 0;
    lock_init(&mut s, &mut l);
    assert_eq!(l.holder, None);
    assert_eq!(l.lock_rpt_nr, 0);
    assert_eq!(l.semaphore.value, 1);
}

#[test]
fn next_pos_wraps() {
    assert_eq!(next_pos(0), 1);
    assert_eq!(next_pos(62), 63);
    assert_eq!(next_pos(63), 0);
    assert_eq!(next_pos(127), 0);
    assert_eq!(next_pos(-2), -1);
}

#[test]
fn queue_is_fifo() {
    let mut s = booted();
    let mut q = IoQueue::new(&mut s);
    assert!(ioq_is_empty(&q, s.eflags));
    for c in b"hello" {
        assert_eq!(ioq_putchar(&mut s, &mut q, *c), IoqStep::Done(*c));
    }
    assert!(!ioq_is_empty(&q, s.eflags));
    for c in b"hel" {
        assert_eq!(ioq_getchar(&mut s, &mut q), IoqStep::Done(*c));
    }
    ioq_putchar(&mut s, &mut q, b'!');
    for c in b"lo!" {
        assert_eq!(ioq_getchar(&mut s, &mut q), IoqStep::Done(*c));
    }
    assert!(ioq_is_empty(&q, s.eflags));
}

#[test]
fn queue_holds_at_most_63_bytes() {
    let mut s = booted();
    let mut q = IoQueue::new(&mut s);
    for i in 0..63u8 {
        ioq_putchar(&mut s, &mut q, i);
        assert_eq!(ioq_is_full(&q, s.eflags), i == 62);
    }
    for i in 0..63u8 {
        assert_eq!(ioq_getchar(&mut s, &mut q), IoqStep::Done(i));
    }
}

#[test]
fn reader_of_empty_queue_waits_and_is_woken_by_a_put() {
    let (mut s, _m) = with_worker();
    let mut q = IoQueue::new(&mut s);
    match ioq_getchar(&mut s, &mut q) {
        IoqStep::Blocked(a) => assert_eq!(a.to, 1),
        IoqStep::Done(_) => panic!("an empty queue has nothing to give"),
    }
    assert_eq!(q.consumer, Some(0));
    assert_eq!(q.mutex.holder, Some(0));
    assert_eq!(s.tasks[0].status, TASK_BLOCKED);
    assert_eq!(ioq_putchar(&mut s, &mut q, b'x'), IoqStep::Done(b'x'));
    assert_eq!(q.consumer, None);
    assert_eq!(s.tasks[0].status, TASK_READY);
    schedule(&mut s);
    assert_eq!(s.current, 0);
    assert_eq!(ioq_getchar(&mut s, &mut q), IoqStep::Done(b'x'));
    assert_eq!(q.mutex.holder, None);
}

#[test]
fn writer_of_full_queue_waits_and_is_woken_by_a_get() {
    let (mut s, _m) = with_worker();
    let mut q = IoQueue::new(&mut s);
    for i in 0..63u8 {
        ioq_putchar(&mut s, &mut q, i);
    }
    assert!(matches!(ioq_putchar(&mut s, &mut q, 99), IoqStep::Blocked(_)));
    assert_eq!(q.producer, Some(0));
    assert_eq!(ioq_getchar(&mut s, &mut q), IoqStep::Done(0));
    assert_eq!(q.producer, None);
    assert_eq!(s.tasks[0].status, TASK_READY);
    schedule(&mut s);
    assert_eq!(ioq_putchar(&mut s, &mut q, 99), IoqStep::Done(99));
    assert_eq!(q.mutex.holder, None);
}

#[test]
fn ioq_init_empties_the_queue() {
    let mut s = booted();
    let mut q = IoQueue::new(&mut s);
    ioq_putchar(&mut s, &mut q, 1);
    ioq_init(&mut s, &mut q);
    assert_eq!(q.head, 0);
    assert_eq!(q.tail, 0);
    assert!(q.buf.iter().all(|&b| b == 0));
}

#[test]
fn console_prints_under_its_lock() {
    let (mut s, _m) = with_worker();
    let mut l = Lock::new(&mut s);
    console_init(&mut s, &mut l);
    let mut screen = Screen::new();
    assert_eq!(console_put_str(&mut s, &mut l, &mut screen, b"ok \0"), None);
    assert_eq!(console_put_int(&mut s, &mut l, &mut screen, 0x2a), None);
    assert_eq!(console_put_char(&mut s, &mut l, &mut screen, b'!'), None);
    assert_eq!(&screen.cells[0..6], b"ok 2A!");
    assert_eq!(l.holder, None);
}

#[test]
fn console_held_by_another_task_blocks_the_printer() {
    let (mut s, _m) = with_worker();
    let mut l = Lock::new(&mut s);
    let mut screen = Screen::new();
    lock_acquire(&mut s, &mut l);
    schedule(&mut s);
    let r = console_put_char(&mut s, &mut l, &mut screen, b'z');
    assert!(r.is_some());
    assert_eq!(screen.cells[0], b' ');
    assert_eq!(s.tasks[1].status, TASK_BLOCKED);
}

#[test]
fn thread_start_reports_the_new_task() {
    let mut s = booted();
    let mut m = memory();
    let mut screen = Screen::new();
    thread_start(&mut s, &mut m, &mut screen, b"print_keybuf\0", 7, 0, 0, 0).unwrap();
    assert_eq!(&screen.cells[0..24], b"init print_keybuf done  ");
    assert_eq!(&screen.cells[80..92], b"start done  ");
    assert_eq!(screen.cursor, 160);
}

#[test]
fn init_main_thread_reports_main() {
    let mut s = init_list(&mut Screen::new());
    let mut screen = Screen::new();
    init_main_thread(&mut s, &mut screen, MAIN_PAGE);
    assert_eq!(&screen.cells[0..14], b"init main done");
    assert_eq!(&screen.cells[80..89], b"main done");
    assert_eq!(screen.cursor, 160);
}

#[test]
fn schedule_after_the_current_task_blocked() {
    let (mut s, _m) = with_worker();
    s.tasks[0].status = TASK_BLOCKED;
    let a = schedule(&mut s);
    assert_eq!(a.from, 0);
    assert_eq!(a.to, 1);
    assert_eq!(s.current, 1);
    assert_eq!(s.tasks[0].status, TASK_BLOCKED);
    assert!(ready_tags(&s).is_empty());
}

#[test]
fn lock_init_drops_the_waiters() {
    let (mut s, _m) = with_worker();
    let mut lock = Lock::new(&mut s);
    assert!(lock_acquire(&mut s, &mut lock).is_none());
    schedule(&mut s);
    assert_eq!(s.current, 1);
    assert!(lock_acquire(&mut s, &mut lock).is_some());
    assert_eq!(s.current, 0);
    assert_eq!(s.tasks[1].status, TASK_BLOCKED);
    let head = lock.semaphore.waiter_head;
    assert_eq!(s.lists.nodes[head].next, s.tasks[1].general_tag);
    lock_init(&mut s, &mut lock);
    assert_eq!(lock.holder, None);
    assert_eq!(lock.lock_rpt_nr, 0);
    assert_eq!(lock.semaphore.value, 1);
    assert_eq!(s.lists.nodes[head].next, head);
    assert_eq!(s.lists.nodes[head].prev, head);
    assert_eq!(s.tasks[1].status, TASK_BLOCKED);
}

#[test]
fn two_puts_then_a_get_keep_order() {
    let mut s = booted();
    let mut q = IoQueue::new(&mut s);
    assert_eq!(ioq_putchar(&mut s, &mut q, b'x'), IoqStep::Done(b'x'));
    assert_eq!(ioq_putchar(&mut s, &mut q, b'y'), IoqStep::Done(b'y'));
    assert_eq!(ioq_getchar(&mut s, &mut q), IoqStep::Done(b'x'));
    assert_eq!((q.head - q.tail).rem_euclid(64), 1);
    assert_eq!(ioq_getchar(&mut s, &mut q), IoqStep::Done(b'y'));
    assert_eq!(q.head, q.tail);
}
