//! A model of a small 32-bit x86 teaching kernel: its bitmaps, descriptor
//! tables, memory pools and page tables, intrusive lists, scheduler,
//! synchronisation primitives, keyboard translation and text console,
//! each stated and proved with Verus.
use vstd::prelude::*;

pub mod bitmap;
pub mod console;
pub mod gdt;
pub mod idt;
pub mod init;
pub mod ioqueue;
pub mod isr;
pub mod keyboard;
pub mod list;
pub mod memory;
pub mod messages;
pub mod pic;
pub mod port;
pub mod semaphore;
pub mod thread;
pub mod timer;
pub mod tss;
pub mod vga;

verus! {

/// The value that `rust_kernel_probe` returns: "RUST" in ASCII.
pub const RUST_PROBE_MAGIC: u32 = 0x5255_5354;

/// A fixed value by which the boot code checks that this library is linked
/// in.
pub fn rust_kernel_probe() -> (r: u32)
    ensures
        r == RUST_PROBE_MAGIC,
{
    RUST_PROBE_MAGIC
}

/// Fills the first `n` bytes of `dest` with `c`, truncated to a byte.
pub fn memset(dest: &mut Vec<u8>, c: i32, n: usize)
    requires
        n <= old(dest).len(),
    ensures
        final(dest)@.len() == old(dest)@.len(),
        forall|i: int| 0 <= i < n ==> final(dest)@[i] == c as u8,
        forall|i: int| n <= i < old(dest)@.len() ==> final(dest)@[i] == old(dest)@[i],
{
    let byte = c as u8;
    let mut i: usize = 0;
    while i < n
        invariant
            i <= n,
            n <= dest.len(),
            dest@.len() == old(dest)@.len(),
            byte == c as u8,
            forall|j: int| 0 <= j < i ==> dest@[j] == byte,
            forall|j: int| i <= j < old(dest)@.len() ==> dest@[j] == old(dest)@[j],
        decreases n - i,
    {
        dest.set(i, byte);
        i += 1;
    }
}

} // verus!
