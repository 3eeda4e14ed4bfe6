# kernel

A small 32-bit x86 teaching kernel, written as a Verus library: the kernel's
data structures, allocators, scheduler, synchronisation and drivers are plain
Rust functions whose behaviour is stated in `requires`/`ensures` contracts and
proved by Verus.

Hardware access is kept at the edge. Device drivers compute the port writes a
device needs and return them; the context switch, CR3 loads and port reads are
left to the caller, which hands the library plain values (a scan code, the
EFLAGS value, the stack pointer) and acts on what it returns.

## Layout

- `src/bitmap.rs` — bitmaps with first-fit allocation of runs of bits.
- `src/list.rs` — circular doubly linked lists in an arena of nodes.
- `src/memory.rs` — physical and virtual page pools, two-level page tables,
  kernel page allocation with rollback, user page directories.
- `src/gdt.rs`, `src/tss.rs`, `src/idt.rs` — descriptor tables and the TSS.
- `src/pic.rs`, `src/timer.rs`, `src/port.rs` — interrupt controllers, the
  interval timer and typed I/O ports.
- `src/isr.rs` — interrupt handler table, default handler, interrupt flag.
- `src/thread.rs` — tasks and the round-robin scheduler.
- `src/semaphore.rs` — binary semaphores and reentrant locks.
- `src/ioqueue.rs` — the bounded producer/consumer byte queue.
- `src/keyboard.rs` — scan-code translation and the keyboard interrupt.
- `src/vga.rs`, `src/console.rs` — the text screen and the locked console.
- `src/messages.rs` — the progress lines printed while booting and starting tasks.
- `src/init.rs` — bringing the whole kernel up.
- `tests/` — tests on concrete values.
- `app/` — a host program that boots the kernel, feeds it scan codes from
  standard input and prints the resulting screen.
