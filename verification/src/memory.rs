//! Physical and virtual memory pools and the two-level x86 page tables of
//! the active address space.
//!
//! The active page directory is reached in the kernel through its recursive
//! last entry; here it is held as `PageTables`: the 1024 directory entries and,
//! for every directory entry, the 1024 entries of its page table.
use crate::messages::{
    mem_done_msg, mem_done_text, mem_start_msg, mem_start_text, memory_heading_msg, memory_heading_text,
};
use crate::vga::{
    chars_step, hex_digits, lemma_chars_step_concat, lemma_chars_step_single, put_bytes, put_char, put_int_hex,
    screen_ok, Screen,
};
use vstd::prelude::*;
use crate::bitmap::{
    free_count, free_run, has_free_run, init_bitmap, lemma_free_count_run, lemma_free_count_set, set_range, Bitmap,
    MAX_BITMAP_BYTES,
};

verus! {

pub const PAGE_SIZE: u32 = 4096;
pub const PG_P_1: u32 = 1;
pub const PG_P_0: u32 = 0;
pub const PG_RW_R: u32 = 0;
pub const PG_RW_W: u32 = 2;
pub const PG_US_S: u32 = 0;
pub const PG_US_U: u32 = 4;

/// End of the physical memory reserved for the kernel image and boot data.
pub const RESERVED_PHYSICAL_END: u32 = 0x0020_0000;
/// Kernel virtual address at which the pool bitmaps are stored.
pub const BITMAP_STORAGE_START: u32 = 0xc009_a000;
/// First kernel virtual address handed out by the kernel virtual pool.
pub const KERNEL_DYNAMIC_START: u32 = 0xc010_0000;
pub const PAGE_ENTRY_ADDRESS_MASK: u32 = 0xffff_f000;
/// Virtual address at which the recursive mapping exposes the page tables.
pub const RECURSIVE_PAGE_TABLE_BASE: u32 = 0xffc0_0000;
/// Virtual address at which the recursive mapping exposes the page directory.
pub const RECURSIVE_PAGE_DIRECTORY_BASE: u32 = 0xffff_f000;
pub const PAGE_DIRECTORY_ENTRY_COUNT: usize = 1024;
pub const KERNEL_PDE_START: usize = 768;
pub const RECURSIVE_PDE_INDEX: usize = 1023;

pub const PF_KERNEL: u32 = 1;
pub const PF_USER: u32 = 2;

pub const PAGE_KERNEL_RW: u32 = 3;
pub const PAGE_USER_RW: u32 = 7;

/// Number of entries in all the page tables of one address space.
pub const PAGE_TABLE_ENTRIES: usize = 0x10_0000;

/// The page-directory index of `vaddr`: its top ten bits.
pub open spec fn pde_index(vaddr: u32) -> int {
    vaddr as int / 0x40_0000
}

/// The page-table index of `vaddr`: its middle ten bits.
pub open spec fn pte_index(vaddr: u32) -> int {
    (vaddr as int / 0x1000) % 1024
}

/// Page-directory index of `vaddr`.
pub fn get_pde(vaddr: u32) -> (r: u32)
    ensures
        r == pde_index(vaddr),
        r < 1024,
{
    assert(((vaddr >> 22u32) & 0x3ffu32) == vaddr / 0x40_0000u32) by (bit_vector);
    (vaddr >> 22) & 0x3ff
}

/// Page-table index of `vaddr`.
pub fn get_pte(vaddr: u32) -> (r: u32)
    ensures
        r == pte_index(vaddr),
        r < 1024,
{
    assert(((vaddr >> 12u32) & 0x3ffu32) == (vaddr / 0x1000u32) % 1024) by (bit_vector);
    (vaddr >> 12) & 0x3ff
}

/// Rounds `x` up to a multiple of the page size.
pub fn page_align_up(x: u32) -> (r: u32)
    requires
        x <= 0xffff_f000,
    ensures
        r % 4096 == 0,
        x <= r < x + 4096,
{
    let y: u32 = x + 4095;
    assert((y & !4095u32) % 4096 == 0 && x <= (y & !4095u32) && (y & !4095u32) < x + 4096)
        by (bit_vector)
        requires
            x <= 0xffff_f000u32,
            y == x + 4095,
    ;
    y & !(PAGE_SIZE - 1)
}

/// Rounds `x` down to a multiple of the page size.
pub fn page_align_down(x: u32) -> (r: u32)
    ensures
        r % 4096 == 0,
        r <= x < r + 4096,
{
    assert((x & !4095u32) % 4096 == 0 && (x & !4095u32) <= x && x < (x & !4095u32) + 4096)
        by (bit_vector);
    x & !(PAGE_SIZE - 1)
}

proof fn lemma_mask_low(x: u32)
    ensures
        x & 0xfffu32 == x % 4096,
        x & 0xffff_f000u32 == x - x % 4096,
{
    assert(x & 0xfffu32 == x % 4096) by (bit_vector);
    assert(x & 0xffff_f000u32 == x - x % 4096) by (bit_vector);
}

proof fn lemma_entry_bits(p: u32, f: u32)
    requires
        p % 4096 == 0,
        f < 4096,
    ensures
        ((p & 0xffff_f000u32) | f) & 1 == f & 1,
        ((p & 0xffff_f000u32) | f) & 0xffff_f000u32 == p,
        ((p & 0xffff_f000u32) | f) & 4 == f & 4,
{
    assert(((p & 0xffff_f000u32) | f) & 1 == f & 1) by (bit_vector)
        requires
            p % 4096 == 0,
            f < 4096,
    ;
    assert(((p & 0xffff_f000u32) | f) & 0xffff_f000u32 == p) by (bit_vector)
        requires
            p % 4096 == 0,
            f < 4096,
    ;
    assert(((p & 0xffff_f000u32) | f) & 4 == f & 4) by (bit_vector)
        requires
            p % 4096 == 0,
            f < 4096,
    ;
}

proof fn lemma_zero_not_present()
    ensures
        0u32 & 1 == 0,
{
    assert(0u32 & 1 == 0) by (bit_vector);
}

/// Whether a page-directory or page-table entry has its present bit set.
pub open spec fn present(e: u32) -> bool {
    e & 1 != 0
}

/// The entry that maps a page-aligned frame `p` with `flags`.
pub open spec fn make_entry(p: u32, flags: u32) -> u32 {
    (p & 0xffff_f000) | flags
}

/// The two-level page tables of one address space.
pub struct PageTables {
    /// The 1024 page-directory entries.
    pub pd: Vec<u32>,
    /// The entries of every page table, table `i` at `i * 1024 .. i * 1024 + 1024`.
    pub pts: Vec<u32>,
}

impl PageTables {
    pub open spec fn wf(&self) -> bool {
        &&& self.pd.len() == 1024
        &&& self.pts.len() == PAGE_TABLE_ENTRIES
    }

    /// The directory entries and the page-table entries.
    pub open spec fn view(&self) -> (Seq<u32>, Seq<u32>) {
        (self.pd@, self.pts@)
    }

    /// Entry `j` of page table `i`.
    pub open spec fn pte_at(&self, i: int, j: int) -> u32 {
        self.pts@[i * 1024 + j]
    }

    /// The page-table entry that maps `vaddr`.
    pub open spec fn pte_of(&self, vaddr: u32) -> u32 {
        self.pte_at(pde_index(vaddr), pte_index(vaddr))
    }

    /// Whether `vaddr` is mapped: both its directory and its table entry are present.
    pub open spec fn is_mapped(&self, vaddr: u32) -> bool {
        present(self.pd@[pde_index(vaddr)]) && present(self.pte_of(vaddr))
    }

    /// The physical address `vaddr` translates to, when it is mapped.
    pub open spec fn translate(&self, vaddr: u32) -> Option<u32> {
        if self.is_mapped(vaddr) {
            Some(((self.pte_of(vaddr) & 0xffff_f000) | (vaddr & 0xfff)) as u32)
        } else {
            None
        }
    }

    /// Page tables with no entry present.
    pub fn new() -> (r: PageTables)
        ensures
            r.wf(),
            forall|i: int| 0 <= i < 1024 ==> r.pd@[i] == 0,
            forall|k: int| 0 <= k < PAGE_TABLE_ENTRIES ==> r.pts@[k] == 0,
    {
        let mut pd: Vec<u32> = Vec::new();
        let mut i: usize = 0;
        while i < 1024
            invariant
                i <= 1024,
                pd.len() == i,
                forall|k: int| 0 <= k < i ==> pd@[k] == 0,
            decreases 1024 - i,
        {
            pd.push(0);
            i = i + 1;
        }
        let mut pts: Vec<u32> = Vec::new();
        let mut k: usize = 0;
        while k < PAGE_TABLE_ENTRIES
            invariant
                k <= PAGE_TABLE_ENTRIES,
                pts.len() == k,
                forall|m: int| 0 <= m < k ==> pts@[m] == 0,
            decreases PAGE_TABLE_ENTRIES - k,
        {
            pts.push(0);
            k = k + 1;
        }
        PageTables { pd, pts }
    }
}

/// Translates `vaddr` through `tables`, keeping its offset within the page.
/// Returns `None` when its directory or table entry is not present.
pub fn active_virtual_to_physical(tables: &PageTables, vaddr: u32) -> (r: Option<u32>)
    requires
        tables.wf(),
    ensures
        r == tables.translate(vaddr),
{
    let pde_index = get_pde(vaddr);
    let pte_index = get_pte(vaddr);
    let pde = tables.pd[pde_index as usize];
    if (pde & PG_P_1) == 0 {
        return None;
    }
    let pte = tables.pts[(pde_index * 1024 + pte_index) as usize];
    if (pte & PG_P_1) == 0 {
        return None;
    }
    let physical_page = pte & PAGE_ENTRY_ADDRESS_MASK;
    let page_offset = vaddr & (PAGE_SIZE - 1);
    Some(physical_page | page_offset)
}

/// Where the physical pools and the pool bitmaps are placed, derived from
/// the total amount of physical memory.
pub struct MemoryLayout {
    pub kernel_physical_start: u32,
    pub kernel_physical_size: u32,
    pub user_physical_start: u32,
    pub user_physical_size: u32,
    pub kernel_physical_bitmap: u32,
    pub user_physical_bitmap: u32,
    pub kernel_virtual_bitmap: u32,
    pub kernel_bitmap_bytes: u32,
    pub user_bitmap_bytes: u32,
}

/// Bytes of bitmap needed for the kernel pools of a machine with `total_mem` bytes.
pub open spec fn kernel_bitmap_bytes_for(total_mem: u32) -> int {
    ((total_mem - RESERVED_PHYSICAL_END) / 2) / 4096 / 8
}

/// Bytes of bitmap needed for the user pool of a machine with `total_mem` bytes.
pub open spec fn user_bitmap_bytes_for(total_mem: u32) -> int {
    ((total_mem - RESERVED_PHYSICAL_END) - (total_mem - RESERVED_PHYSICAL_END) / 2) / 4096 / 8
}

/// Whether a machine with `total_mem` bytes of physical memory can be laid
/// out: there is memory past the reserved region, and the three bitmaps fit
/// below the first dynamically mapped kernel address.
pub open spec fn layout_fits(total_mem: u32) -> bool {
    &&& total_mem > RESERVED_PHYSICAL_END
    &&& BITMAP_STORAGE_START + 2 * kernel_bitmap_bytes_for(total_mem) + user_bitmap_bytes_for(total_mem)
        <= KERNEL_DYNAMIC_START
}

impl MemoryLayout {
    /// Splits the memory past the reserved region into a kernel half (the
    /// smaller when the size is odd) and a user half, and places their
    /// bitmaps, followed by the kernel virtual bitmap, from
    /// `BITMAP_STORAGE_START` on.
    pub fn from_total_memory(total_mem: u32) -> (r: MemoryLayout)
        requires
            layout_fits(total_mem),
        ensures
            ({
                let free_mem = total_mem - RESERVED_PHYSICAL_END;
                &&& r.kernel_physical_start == RESERVED_PHYSICAL_END
                &&& r.kernel_physical_size == free_mem / 2
                &&& r.user_physical_start == RESERVED_PHYSICAL_END + free_mem / 2
                &&& r.user_physical_size == free_mem - free_mem / 2
                &&& r.kernel_bitmap_bytes == kernel_bitmap_bytes_for(total_mem)
                &&& r.user_bitmap_bytes == user_bitmap_bytes_for(total_mem)
                &&& r.kernel_physical_bitmap == BITMAP_STORAGE_START
                &&& r.user_physical_bitmap == BITMAP_STORAGE_START + r.kernel_bitmap_bytes
                &&& r.kernel_virtual_bitmap == r.user_physical_bitmap + r.user_bitmap_bytes
            }),
    {
        let free_mem = total_mem - RESERVED_PHYSICAL_END;
        let kernel_physical_size = free_mem / 2;
        let user_physical_size = free_mem - kernel_physical_size;
        let kernel_bitmap_bytes = kernel_physical_size / PAGE_SIZE / 8;
        let user_bitmap_bytes = user_physical_size / PAGE_SIZE / 8;
        let kernel_physical_bitmap = BITMAP_STORAGE_START;
        let user_physical_bitmap = kernel_physical_bitmap + kernel_bitmap_bytes;
        let kernel_virtual_bitmap = user_physical_bitmap + user_bitmap_bytes;
        MemoryLayout {
            kernel_physical_start: RESERVED_PHYSICAL_END,
            kernel_physical_size,
            user_physical_start: RESERVED_PHYSICAL_END + kernel_physical_size,
            user_physical_size,
            kernel_physical_bitmap,
            user_physical_bitmap,
            kernel_virtual_bitmap,
            kernel_bitmap_bytes,
            user_bitmap_bytes,
        }
    }
}

/// A pool of virtual pages starting at `addr_start`; bit `i` of the bitmap
/// is set while page `addr_start + i * PAGE_SIZE` is in use.
pub struct VirMemoryPool {
    pub addr_start: u32,
    pub vir_bitmap: Bitmap,
    /// Kernel address of the bitmap's storage (0 for an empty pool).
    pub bitmap_addr: u32,
}

/// A pool of physical frames starting at `addr_start` and spanning
/// `pool_size` bytes; bit `i` of the bitmap is set while frame
/// `addr_start + i * PAGE_SIZE` is in use.
pub struct PhyMemoryPool {
    pub addr_start: u32,
    pub phy_bitmap: Bitmap,
    pub pool_size: u32,
    /// Kernel address of the bitmap's storage.
    pub bitmap_addr: u32,
}

impl VirMemoryPool {
    /// The pool's pages are page aligned and lie below the recursive mapping
    /// of the page tables.
    pub open spec fn wf(&self) -> bool {
        &&& self.vir_bitmap.wf()
        &&& self.addr_start % 4096 == 0
        &&& self.addr_start + self.vir_bitmap.total() * 4096 <= RECURSIVE_PAGE_TABLE_BASE
    }

    /// Address of page `i` of the pool.
    pub open spec fn page_addr(&self, i: int) -> int {
        self.addr_start + i * 4096
    }
}

impl PhyMemoryPool {
    /// The pool's frames lie in the 32-bit address space, and are all inside
    /// the `pool_size` bytes the pool spans.
    pub open spec fn wf(&self) -> bool {
        &&& self.phy_bitmap.wf()
        &&& self.phy_bitmap.total() * 4096 <= self.pool_size
        &&& self.addr_start + self.phy_bitmap.total() * 4096 <= 0x1_0000_0000
    }

    /// Address of frame `i` of the pool.
    pub open spec fn frame_addr(&self, i: int) -> int {
        self.addr_start + i * 4096
    }

    /// The index of the frame at `paddr`.
    pub open spec fn frame_index(&self, paddr: u32) -> int {
        (paddr - self.addr_start) / 4096
    }

    /// Whether `paddr` is the address of one of the pool's frames.
    pub open spec fn holds_frame(&self, paddr: u32) -> bool {
        &&& self.addr_start <= paddr
        &&& (paddr - self.addr_start) % 4096 == 0
        &&& self.frame_index(paddr) < self.phy_bitmap.total()
    }
}

/// Whether the kernel's virtual range of the layout for `total_mem` stays
/// below the recursive mapping of the page tables. The kernel virtual pool
/// has a page for each kernel frame, about half of memory past the reserved
/// region, from `KERNEL_DYNAMIC_START` on; so this limits physical memory to
/// a little under 2 GiB, beyond which the pool would leave the 32-bit
/// address space.
pub open spec fn kernel_range_fits(total_mem: u32) -> bool {
    KERNEL_DYNAMIC_START + kernel_bitmap_bytes_for(total_mem) * 8 * 4096 <= RECURSIVE_PAGE_TABLE_BASE
}

/// The memory pools: kernel and user physical frames, kernel virtual pages,
/// and the (not yet used, empty) user virtual pages.
pub struct MemoryPools {
    pub vir_ker_pool: VirMemoryPool,
    pub vir_usr_pool: VirMemoryPool,
    pub phy_ker_pool: PhyMemoryPool,
    pub phy_usr_pool: PhyMemoryPool,
}

impl MemoryPools {
    pub open spec fn wf(&self) -> bool {
        &&& self.vir_ker_pool.wf()
        &&& self.vir_usr_pool.wf()
        &&& self.phy_ker_pool.wf()
        &&& self.phy_usr_pool.wf()
    }
}

proof fn lemma_bitmap_span(x: int)
    requires
        x >= 0,
    ensures
        (x / 4096 / 8) * 8 * 4096 <= x,
{
    assert((x / 4096 / 8) * 8 * 4096 <= x) by (nonlinear_arith)
        requires
            x >= 0,
    ;
}

/// `p` holds the pools for a machine with `total_mem` bytes of physical
/// memory (see `MemoryLayout::from_total_memory`), every page and frame free,
/// and an empty user virtual pool. The bitmaps are stored one after the
/// other from `BITMAP_STORAGE_START`: kernel frames, user frames, kernel
/// pages.
pub open spec fn fresh_pools(p: MemoryPools, total_mem: u32) -> bool {
    let free_mem = total_mem - RESERVED_PHYSICAL_END;
    &&& p.phy_ker_pool.bitmap_addr == BITMAP_STORAGE_START
    &&& p.phy_usr_pool.bitmap_addr == BITMAP_STORAGE_START + kernel_bitmap_bytes_for(total_mem)
    &&& p.vir_ker_pool.bitmap_addr == BITMAP_STORAGE_START + kernel_bitmap_bytes_for(total_mem)
        + user_bitmap_bytes_for(total_mem)
    &&& p.vir_usr_pool.bitmap_addr == 0
    &&& p.phy_ker_pool.addr_start == RESERVED_PHYSICAL_END
    &&& p.phy_ker_pool.pool_size == free_mem / 2
    &&& p.phy_ker_pool.phy_bitmap.byte_size == kernel_bitmap_bytes_for(total_mem)
    &&& p.phy_usr_pool.addr_start == RESERVED_PHYSICAL_END + free_mem / 2
    &&& p.phy_usr_pool.pool_size == free_mem - free_mem / 2
    &&& p.phy_usr_pool.phy_bitmap.byte_size == user_bitmap_bytes_for(total_mem)
    &&& p.vir_ker_pool.addr_start == KERNEL_DYNAMIC_START
    &&& p.vir_ker_pool.vir_bitmap.byte_size == kernel_bitmap_bytes_for(total_mem)
    &&& p.vir_usr_pool.addr_start == 0
    &&& p.vir_usr_pool.vir_bitmap.byte_size == 0
    &&& forall|i: int| 0 <= i < p.phy_ker_pool.phy_bitmap.total() ==> !#[trigger] p.phy_ker_pool.phy_bitmap@[i]
    &&& forall|i: int| 0 <= i < p.phy_usr_pool.phy_bitmap.total() ==> !#[trigger] p.phy_usr_pool.phy_bitmap@[i]
    &&& forall|i: int| 0 <= i < p.vir_ker_pool.vir_bitmap.total() ==> !#[trigger] p.vir_ker_pool.vir_bitmap@[i]
}

/// Builds the memory pools for a machine with `total_mem` bytes of physical
/// memory, with every page and frame free. The user virtual pool is empty.
pub fn mem_pool_init(total_mem: u32) -> (r: MemoryPools)
    requires
        layout_fits(total_mem),
        kernel_range_fits(total_mem),
    ensures
        r.wf(),
        fresh_pools(r, total_mem),
{
    let layout = MemoryLayout::from_total_memory(total_mem);
    proof {
        lemma_bitmap_span(layout.kernel_physical_size as int);
        lemma_bitmap_span(layout.user_physical_size as int);
    }
    let mut phy_ker_bitmap = Bitmap::new(layout.kernel_bitmap_bytes);
    init_bitmap(&mut phy_ker_bitmap);
    let mut phy_usr_bitmap = Bitmap::new(layout.user_bitmap_bytes);
    init_bitmap(&mut phy_usr_bitmap);
    let mut vir_ker_bitmap = Bitmap::new(layout.kernel_bitmap_bytes);
    init_bitmap(&mut vir_ker_bitmap);
    let phy_ker_pool = PhyMemoryPool {
        addr_start: layout.kernel_physical_start,
        phy_bitmap: phy_ker_bitmap,
        pool_size: layout.kernel_physical_size,
        bitmap_addr: layout.kernel_physical_bitmap,
    };
    let phy_usr_pool = PhyMemoryPool {
        addr_start: layout.user_physical_start,
        phy_bitmap: phy_usr_bitmap,
        pool_size: layout.user_physical_size,
        bitmap_addr: layout.user_physical_bitmap,
    };
    let vir_ker_pool = VirMemoryPool {
        addr_start: KERNEL_DYNAMIC_START,
        vir_bitmap: vir_ker_bitmap,
        bitmap_addr: layout.kernel_virtual_bitmap,
    };
    // User virtual memory is not implemented: the user pool stays empty.
    let vir_usr_pool = VirMemoryPool { addr_start: 0, vir_bitmap: Bitmap::new(0), bitmap_addr: 0 };
    assert(phy_ker_pool.wf());
    assert(phy_usr_pool.wf());
    assert(vir_ker_pool.wf());
    assert(vir_usr_pool.wf());
    MemoryPools { vir_ker_pool, vir_usr_pool, phy_ker_pool, phy_usr_pool }
}

/// Reserves `cnt` contiguous pages of the pool selected by `pool_flag` and
/// returns the address of the first. Only the kernel pool can be used;
/// `None` when `cnt` is 0, the pool is not the kernel's, or no run of `cnt`
/// free pages exists.
pub fn vir_allocate(pools: &mut MemoryPools, cnt: u32, pool_flag: u32) -> (r: Option<u32>)
    requires
        old(pools).wf(),
    ensures
        final(pools).wf(),
        final(pools).vir_usr_pool == old(pools).vir_usr_pool,
        final(pools).phy_ker_pool == old(pools).phy_ker_pool,
        final(pools).phy_usr_pool == old(pools).phy_usr_pool,
        final(pools).vir_ker_pool.addr_start == old(pools).vir_ker_pool.addr_start,
        final(pools).vir_ker_pool.bitmap_addr == old(pools).vir_ker_pool.bitmap_addr,
        final(pools).vir_ker_pool.vir_bitmap.byte_size == old(pools).vir_ker_pool.vir_bitmap.byte_size,
        r is None <==> (cnt == 0 || pool_flag != PF_KERNEL || !has_free_run(
            old(pools).vir_ker_pool.vir_bitmap@,
            cnt as int,
        )),
        r is None ==> final(pools).vir_ker_pool.vir_bitmap@ == old(pools).vir_ker_pool.vir_bitmap@,
        r matches Some(v) ==> {
            let old_bits = old(pools).vir_ker_pool.vir_bitmap@;
            let idx = (v - old(pools).vir_ker_pool.addr_start) / 4096;
            &&& v == old(pools).vir_ker_pool.page_addr(idx)
            &&& v >= old(pools).vir_ker_pool.addr_start
            &&& (v - old(pools).vir_ker_pool.addr_start) % 4096 == 0
            &&& free_run(old_bits, idx, cnt as int)
            &&& forall|s: int| 0 <= s < idx ==> !free_run(old_bits, s, cnt as int)
            &&& final(pools).vir_ker_pool.vir_bitmap@ == set_range(old_bits, idx, cnt as int)
        },
{
    if cnt == 0 {
        return None;
    }
    if pool_flag == PF_KERNEL {
        let start_idx = pools.vir_ker_pool.vir_bitmap.set_bits(cnt);
        if start_idx < 0 {
            return None;
        }
        let v = pools.vir_ker_pool.addr_start + start_idx as u32 * PAGE_SIZE;
        assert((v - pools.vir_ker_pool.addr_start) / 4096 == start_idx);
        Some(v)
    } else {
        None
    }
}

/// Takes the lowest free frame of `pool` and returns its address; `None`
/// when every frame is in use.
pub fn phy_allocate(pool: &mut PhyMemoryPool) -> (r: Option<u32>)
    requires
        old(pool).wf(),
    ensures
        final(pool).wf(),
        final(pool).addr_start == old(pool).addr_start,
        final(pool).pool_size == old(pool).pool_size,
        final(pool).bitmap_addr == old(pool).bitmap_addr,
        final(pool).phy_bitmap.byte_size == old(pool).phy_bitmap.byte_size,
        r is None <==> !has_free_run(old(pool).phy_bitmap@, 1),
        r is None ==> final(pool).phy_bitmap@ == old(pool).phy_bitmap@,
        r matches Some(p) ==> {
            let old_bits = old(pool).phy_bitmap@;
            let idx = old(pool).frame_index(p);
            &&& old(pool).holds_frame(p)
            &&& p == old(pool).frame_addr(idx)
            &&& old(pool).addr_start % 4096 == 0 ==> p % 4096 == 0
            &&& !old_bits[idx]
            &&& forall|s: int| 0 <= s < idx ==> #[trigger] old_bits[s]
            &&& final(pool).phy_bitmap@ == old_bits.update(idx, true)
        },
{
    let start_idx = pool.phy_bitmap.set_bits(1);
    if start_idx < 0 {
        return None;
    }
    let ghost old_bits = old(pool).phy_bitmap@;
    let p = pool.addr_start + start_idx as u32 * PAGE_SIZE;
    proof {
        let idx = start_idx as int;
        assert((p - pool.addr_start) / 4096 == idx);
        assert(!old_bits[idx]) by {
            assert(free_run(old_bits, idx, 1));
        }
        assert forall|s: int| 0 <= s < idx implies #[trigger] old_bits[s] by {
            if !old_bits[s] {
                assert(free_run(old_bits, s, 1));
            }
        }
        assert(set_range(old_bits, idx, 1) =~= old_bits.update(idx, true));
    }
    Some(p)
}

/// Returns the frame at `paddr` to `pool`. Addresses outside the pool, not
/// at a frame boundary, or null leave the pool unchanged.
pub fn phy_release(pool: &mut PhyMemoryPool, paddr: u32)
    requires
        old(pool).wf(),
    ensures
        final(pool).wf(),
        final(pool).addr_start == old(pool).addr_start,
        final(pool).pool_size == old(pool).pool_size,
        final(pool).bitmap_addr == old(pool).bitmap_addr,
        final(pool).phy_bitmap.byte_size == old(pool).phy_bitmap.byte_size,
        paddr != 0 && old(pool).holds_frame(paddr) ==> final(pool).phy_bitmap@
            == old(pool).phy_bitmap@.update(old(pool).frame_index(paddr), false),
        !(paddr != 0 && old(pool).holds_frame(paddr)) ==> final(pool).phy_bitmap@ == old(pool).phy_bitmap@,
{
    if paddr == 0 {
        return;
    }
    let start = pool.addr_start;
    let end = if start as u64 + pool.pool_size as u64 > 0xffff_ffff {
        0xffff_ffffu32
    } else {
        start + pool.pool_size
    };
    if paddr < start || paddr >= end {
        return;
    }
    let offset = paddr - start;
    if offset % PAGE_SIZE == 0 {
        let _ = pool.phy_bitmap.clear_one(offset / PAGE_SIZE);
    }
}

/// The index of the lowest clear bit of `v` (meaningful when one exists).
pub open spec fn lowest_free(v: Seq<bool>) -> int {
    choose|i: int| 0 <= i < v.len() && !v[i] && forall|s: int| 0 <= s < i ==> #[trigger] v[s]
}

/// `v` with its `n` lowest clear bits set, taken one at a time from the
/// lowest up.
pub open spec fn take_lowest(v: Seq<bool>, n: nat) -> Seq<bool>
    decreases n,
{
    if n == 0 {
        v
    } else {
        take_lowest(v.update(lowest_free(v), true), (n - 1) as nat)
    }
}

proof fn lemma_take_lowest_add(v: Seq<bool>, a: nat, b: nat)
    ensures
        take_lowest(take_lowest(v, a), b) == take_lowest(v, a + b),
    decreases a,
{
    if a > 0 {
        lemma_take_lowest_add(v.update(lowest_free(v), true), (a - 1) as nat, b);
        assert((a - 1) as nat + b == (a + b - 1) as nat);
    }
}

proof fn lemma_lowest_free(v: Seq<bool>, i: int)
    requires
        0 <= i < v.len(),
        !v[i],
        forall|s: int| 0 <= s < i ==> #[trigger] v[s],
    ensures
        lowest_free(v) == i,
{
    let k = lowest_free(v);
    assert(0 <= k < v.len() && !v[k] && forall|s: int| 0 <= s < k ==> #[trigger] v[s]);
    if k < i {
        assert(v[k]);
    }
    if i < k {
        assert(v[i]);
    }
}

proof fn lemma_exists_lowest(v: Seq<bool>, w: int)
    requires
        0 <= w < v.len(),
        !v[w],
    ensures
        0 <= lowest_free(v) < v.len(),
        !v[lowest_free(v)],
        forall|s: int| 0 <= s < lowest_free(v) ==> #[trigger] v[s],
    decreases w,
{
    if forall|s: int| 0 <= s < w ==> #[trigger] v[s] {
        lemma_lowest_free(v, w);
    } else {
        let s0 = choose|s: int| 0 <= s < w && !v[s];
        lemma_exists_lowest(v, s0);
    }
}

/// `pts` with page table `i` cleared.
pub open spec fn clear_table(pts: Seq<u32>, i: int) -> Seq<u32> {
    Seq::new(pts.len(), |k: int| if i * 1024 <= k < i * 1024 + 1024 { 0u32 } else { pts[k] })
}

/// Clears every entry of page table `i`.
fn clear_page_table(tables: &mut PageTables, i: u32)
    requires
        old(tables).wf(),
        i < 1024,
    ensures
        final(tables).wf(),
        final(tables).pd@ == old(tables).pd@,
        final(tables).pts@ == clear_table(old(tables).pts@, i as int),
{
    let base = (i * 1024) as usize;
    let mut k: usize = 0;
    while k < 1024
        invariant
            tables.wf(),
            tables.pd@ == old(tables).pd@,
            base == i * 1024,
            i < 1024,
            k <= 1024,
            tables.pts@ == Seq::new(
                old(tables).pts@.len(),
                |m: int| if base <= m < base + k { 0u32 } else { old(tables).pts@[m] },
            ),
        decreases 1024 - k,
    {
        tables.pts.set(base + k, 0);
        k = k + 1;
        assert(tables.pts@ =~= Seq::new(
            old(tables).pts@.len(),
            |m: int| if base <= m < base + k { 0u32 } else { old(tables).pts@[m] },
        ));
    }
    assert(tables.pts@ =~= clear_table(old(tables).pts@, i as int));
}

/// Whether `page_register` accepts its arguments at all: both addresses are
/// non-null and page aligned, and the flags mark the mapping present.
pub open spec fn register_args_ok(vaddr: u32, paddr: u32, flags: u32) -> bool {
    &&& vaddr != 0
    &&& paddr != 0
    &&& vaddr % 4096 == 0
    &&& paddr % 4096 == 0
    &&& flags & 1 != 0
}

/// Maps the page at `vaddr` to the frame at `paddr` with `flags`.
///
/// When the page table that would hold the entry is missing, a frame for it
/// is taken from `pool`, the directory entry is set to that frame with
/// `flags`, and the table is cleared. Returns false, changing nothing, when
/// an address is null or unaligned, `flags` lacks the present bit, the page
/// is already mapped, or no frame is left for a missing page table.
pub fn page_register(tables: &mut PageTables, pool: &mut PhyMemoryPool, vaddr: u32, paddr: u32, flags: u32) -> (r: bool)
    requires
        old(tables).wf(),
        old(pool).wf(),
    ensures
        final(tables).wf(),
        final(pool).wf(),
        final(pool).addr_start == old(pool).addr_start,
        final(pool).pool_size == old(pool).pool_size,
        final(pool).bitmap_addr == old(pool).bitmap_addr,
        final(pool).phy_bitmap.byte_size == old(pool).phy_bitmap.byte_size,
        ({
            let i = pde_index(vaddr);
            let j = pte_index(vaddr);
            let pd_present = present(old(tables).pd@[i]);
            let entry = make_entry(paddr, flags);
            let v = old(pool).phy_bitmap@;
            &&& r <==> (register_args_ok(vaddr, paddr, flags) && (pd_present ==> !present(
                old(tables).pte_at(i, j),
            )) && (!pd_present ==> has_free_run(v, 1)))
            &&& !r ==> final(tables)@ == old(tables)@ && final(pool).phy_bitmap@ == v
            &&& r && pd_present ==> {
                &&& final(tables).pd@ == old(tables).pd@
                &&& final(tables).pts@ == old(tables).pts@.update(i * 1024 + j, entry)
                &&& final(pool).phy_bitmap@ == v
            }
            &&& r && !pd_present ==> {
                let f = lowest_free(v);
                &&& final(pool).phy_bitmap@ == v.update(f, true)
                &&& final(tables).pd@ == old(tables).pd@.update(
                    i,
                    make_entry((old(pool).addr_start + f * 4096) as u32, flags),
                )
                &&& final(tables).pts@ == clear_table(old(tables).pts@, i).update(i * 1024 + j, entry)
            }
        }),
{
    proof {
        lemma_mask_low(vaddr);
        lemma_mask_low(paddr);
    }
    if vaddr == 0 || paddr == 0 || (vaddr & (PAGE_SIZE - 1)) != 0 || (paddr & (PAGE_SIZE - 1)) != 0
        || (flags & PG_P_1) == 0 {
        return false;
    }
    let pde_idx = get_pde(vaddr);
    let pte_idx = get_pte(vaddr);
    let base = (pde_idx * 1024) as usize;
    let ghost v = pool.phy_bitmap@;
    if (tables.pd[pde_idx as usize] & PG_P_1) == 0 {
        let pt_phy = phy_allocate(pool);
        match pt_phy {
            None => {
                return false;
            },
            Some(pt) => {
                proof {
                    lemma_lowest_free(v, pool.frame_index(pt));
                }
                tables.pd.set(pde_idx as usize, (pt & PAGE_ENTRY_ADDRESS_MASK) | flags);
                clear_page_table(tables, pde_idx);
            },
        }
    }
    let pte = tables.pts[base + pte_idx as usize];
    if (pte & PG_P_1) != 0 {
        proof {
            if !present(old(tables).pd@[pde_idx as int]) {
                lemma_zero_not_present();
            }
        }
        return false;
    }
    proof {
        if !present(old(tables).pd@[pde_idx as int]) {
            lemma_zero_not_present();
        }
    }
    tables.pts.set(base + pte_idx as usize, (paddr & PAGE_ENTRY_ADDRESS_MASK) | flags);
    true
}

proof fn lemma_slot(a: u32)
    ensures
        pde_index(a) * 1024 + pte_index(a) == a as int / 4096,
        0 <= pde_index(a) < 1024,
        0 <= pte_index(a) < 1024,
{
    assert((a / 0x40_0000u32) * 1024 + (a / 0x1000u32) % 1024 == a / 0x1000u32) by (bit_vector);
    assert(a / 0x40_0000u32 < 1024) by (bit_vector);
}

/// The kernel's memory state: its pools and the page tables of the active
/// address space, plus the physical address of the kernel page directory.
pub struct KernelMemory {
    pub pools: MemoryPools,
    pub tables: PageTables,
    pub kernel_page_directory_paddr: u32,
    /// Bytes of physical memory, as the loader reported them.
    pub total_mem: u32,
}

impl KernelMemory {
    /// The pools and tables are well formed, kernel frames and pages are page
    /// aligned and non-null, and every kernel virtual page that the pool
    /// marks free is unmapped.
    pub open spec fn wf(&self) -> bool {
        &&& self.pools.wf()
        &&& self.tables.wf()
        &&& self.pools.phy_ker_pool.addr_start % 4096 == 0
        &&& self.pools.phy_ker_pool.addr_start > 0
        &&& self.pools.vir_ker_pool.addr_start > 0
        &&& forall|i: int|
            0 <= i < self.pools.vir_ker_pool.vir_bitmap.total() && !self.pools.vir_ker_pool.vir_bitmap@[i]
                ==> !self.tables.is_mapped(#[trigger] self.pools.vir_ker_pool.page_addr(i) as u32)
    }

    /// The frame-use bits of the kernel physical pool.
    pub open spec fn phy_bits(&self) -> Seq<bool> {
        self.pools.phy_ker_pool.phy_bitmap@
    }

    /// The page-use bits of the kernel virtual pool.
    pub open spec fn vir_bits(&self) -> Seq<bool> {
        self.pools.vir_ker_pool.vir_bitmap@
    }

    /// The index in the kernel physical pool of the frame at `p`.
    pub open spec fn frame_index(&self, p: u32) -> int {
        self.pools.phy_ker_pool.frame_index(p)
    }
}

/// The kernel frames that mapping one page takes when its directory entry is
/// `pde`: the data frame, and one more for the page table when it is missing.
pub open spec fn frames_for_page(pde: u32) -> nat {
    if present(pde) {
        1
    } else {
        2
    }
}

/// Takes a data frame from the kernel physical pool and maps the unmapped
/// page `vaddr` to it, read/write and supervisor-only. On failure every
/// frame taken is given back, and nothing changes.
fn map_one_page(mem: &mut KernelMemory, vaddr: u32) -> (r: Option<u32>)
    requires
        old(mem).pools.wf(),
        old(mem).tables.wf(),
        old(mem).pools.phy_ker_pool.addr_start % 4096 == 0,
        old(mem).pools.phy_ker_pool.addr_start > 0,
        vaddr != 0,
        vaddr % 4096 == 0,
        !old(mem).tables.is_mapped(vaddr),
    ensures
        final(mem).pools.wf(),
        final(mem).tables.wf(),
        final(mem).pools.vir_ker_pool == old(mem).pools.vir_ker_pool,
        final(mem).pools.vir_usr_pool == old(mem).pools.vir_usr_pool,
        final(mem).pools.phy_usr_pool == old(mem).pools.phy_usr_pool,
        final(mem).pools.phy_ker_pool.addr_start == old(mem).pools.phy_ker_pool.addr_start,
        final(mem).pools.phy_ker_pool.pool_size == old(mem).pools.phy_ker_pool.pool_size,
        final(mem).pools.phy_ker_pool.bitmap_addr == old(mem).pools.phy_ker_pool.bitmap_addr,
        final(mem).pools.phy_ker_pool.phy_bitmap.byte_size == old(mem).pools.phy_ker_pool.phy_bitmap.byte_size,
        final(mem).kernel_page_directory_paddr == old(mem).kernel_page_directory_paddr,
        final(mem).total_mem == old(mem).total_mem,
        r is None ==> final(mem).tables@ == old(mem).tables@ && final(mem).phy_bits() == old(mem).phy_bits(),
        r matches Some(f) ==> {
            let i = pde_index(vaddr);
            let v0 = old(mem).phy_bits();
            let fi = old(mem).frame_index(f);
            let v1 = v0.update(fi, true);
            let entry = make_entry(f, PAGE_KERNEL_RW);
            &&& old(mem).pools.phy_ker_pool.holds_frame(f)
            &&& f == old(mem).pools.phy_ker_pool.frame_addr(fi)
            &&& f % 4096 == 0
            &&& fi == lowest_free(v0)
            &&& !v0[fi]
            &&& present(old(mem).tables.pd@[i]) ==> {
                &&& final(mem).phy_bits() == v1
                &&& final(mem).tables.pd@ == old(mem).tables.pd@
                &&& final(mem).tables.pts@ == old(mem).tables.pts@.update(vaddr as int / 4096, entry)
            }
            &&& !present(old(mem).tables.pd@[i]) ==> {
                let t = lowest_free(v1);
                &&& 0 <= t < v1.len()
                &&& !v1[t]
                &&& final(mem).phy_bits() == v1.update(t, true)
                &&& final(mem).tables.pd@ == old(mem).tables.pd@.update(
                    i,
                    make_entry((old(mem).pools.phy_ker_pool.addr_start + t * 4096) as u32, PAGE_KERNEL_RW),
                )
                &&& final(mem).tables.pts@ == clear_table(old(mem).tables.pts@, i).update(vaddr as int / 4096, entry)
            }
        },
        r is None <==> free_count(old(mem).phy_bits()) < frames_for_page(old(mem).tables.pd@[pde_index(vaddr)]),
        r is Some ==> free_count(final(mem).phy_bits()) + frames_for_page(old(mem).tables.pd@[pde_index(vaddr)])
            == free_count(old(mem).phy_bits()),
{
    proof {
        lemma_slot(vaddr);
    }
    let paddr = phy_allocate(&mut mem.pools.phy_ker_pool);
    match paddr {
        None => {
            proof {
                if free_count(old(mem).phy_bits()) > 0 {
                    lemma_free_count_run(old(mem).phy_bits());
                }
            }
            None
        },
        Some(p) => {
            proof {
                lemma_lowest_free(old(mem).phy_bits(), old(mem).frame_index(p));
                assert(p != 0);
                lemma_free_count_set(old(mem).phy_bits(), old(mem).frame_index(p));
            }
            let ghost v1 = mem.pools.phy_ker_pool.phy_bitmap@;
            if !page_register(&mut mem.tables, &mut mem.pools.phy_ker_pool, vaddr, p, PAGE_KERNEL_RW) {
                phy_release(&mut mem.pools.phy_ker_pool, p);
                proof {
                    assert(mem.phy_bits() =~= old(mem).phy_bits());
                    assert(PAGE_KERNEL_RW & 1 != 0) by (bit_vector);
                    assert(register_args_ok(vaddr, p, PAGE_KERNEL_RW));
                    if free_count(v1) > 0 {
                        lemma_free_count_run(v1);
                    }
                }
                return None;
            }
            proof {
                if !present(old(mem).tables.pd@[pde_index(vaddr)]) {
                    let t = lowest_free(v1);
                    assert(0 <= t < v1.len() && !v1[t]) by {
                        let w = choose|s: int| free_run(v1, s, 1);
                        assert(!v1[w]);
                        lemma_exists_lowest(v1, w);
                    }
                    lemma_free_count_set(v1, t);
                }
            }
            Some(p)
        },
    }
}

/// Whether rolling back page `k` of the run at `vaddr` in `mem` returns
/// frame `x` of the kernel physical pool: the page's entry holds a non-null
/// frame of the pool, and that frame is `x`.
pub open spec fn released_frame(mem: KernelMemory, vaddr: u32, k: int, x: int) -> bool {
    let e = (mem.tables.pts@[vaddr as int / 4096 + k] & 0xffff_f000) as u32;
    &&& e != 0
    &&& mem.pools.phy_ker_pool.holds_frame(e)
    &&& mem.frame_index(e) == x
}

/// The address of page `k` of a run starting at `vaddr`.
pub open spec fn page_of_run(vaddr: u32, k: int) -> u32 {
    (vaddr + k * 4096) as u32
}

/// Unmaps the first `mapped_count` pages of the run of `reserved_count`
/// kernel pages starting at `vaddr`, returning each page's frame to the
/// kernel physical pool, then marks all `reserved_count` pages free in the
/// kernel virtual pool. (The kernel also invalidates each unmapped page's TLB
/// entry; there is no TLB here.)
fn rollback_kernel_pages(mem: &mut KernelMemory, vaddr: u32, mapped_count: u32, reserved_count: u32)
    requires
        old(mem).pools.wf(),
        old(mem).tables.wf(),
        vaddr % 4096 == 0,
        old(mem).pools.vir_ker_pool.addr_start <= vaddr,
        (vaddr - old(mem).pools.vir_ker_pool.addr_start) / 4096 + reserved_count
            <= old(mem).pools.vir_ker_pool.vir_bitmap.total(),
        vaddr + reserved_count * 4096 <= RECURSIVE_PAGE_TABLE_BASE,
        mapped_count <= reserved_count,
        old(mem).pools.vir_ker_pool.addr_start % 4096 == 0,
    ensures
        final(mem).pools.wf(),
        final(mem).tables.wf(),
        final(mem).pools.vir_usr_pool == old(mem).pools.vir_usr_pool,
        final(mem).pools.phy_usr_pool == old(mem).pools.phy_usr_pool,
        final(mem).pools.vir_ker_pool.addr_start == old(mem).pools.vir_ker_pool.addr_start,
        final(mem).pools.vir_ker_pool.vir_bitmap.byte_size == old(mem).pools.vir_ker_pool.vir_bitmap.byte_size,
        final(mem).pools.phy_ker_pool.addr_start == old(mem).pools.phy_ker_pool.addr_start,
        final(mem).pools.phy_ker_pool.pool_size == old(mem).pools.phy_ker_pool.pool_size,
        final(mem).pools.phy_ker_pool.bitmap_addr == old(mem).pools.phy_ker_pool.bitmap_addr,
        final(mem).pools.vir_ker_pool.bitmap_addr == old(mem).pools.vir_ker_pool.bitmap_addr,
        final(mem).pools.phy_ker_pool.phy_bitmap.byte_size == old(mem).pools.phy_ker_pool.phy_bitmap.byte_size,
        final(mem).kernel_page_directory_paddr == old(mem).kernel_page_directory_paddr,
        final(mem).total_mem == old(mem).total_mem,
        final(mem).tables.pd@ == old(mem).tables.pd@,
        ({
            let b = vaddr as int / 4096;
            final(mem).tables.pts@ == Seq::new(
                old(mem).tables.pts@.len(),
                |q: int| if b <= q < b + mapped_count { 0u32 } else { old(mem).tables.pts@[q] },
            )
        }),
        ({
            let first = (vaddr - old(mem).pools.vir_ker_pool.addr_start) / 4096;
            final(mem).vir_bits() == Seq::new(
                old(mem).vir_bits().len(),
                |x: int| if first <= x < first + reserved_count { false } else { old(mem).vir_bits()[x] },
            )
        }),
        forall|x: int|
            0 <= x < old(mem).phy_bits().len() ==> #[trigger] final(mem).phy_bits()[x] == (old(mem).phy_bits()[x]
                && !(exists|k: int|
                0 <= k < mapped_count && released_frame(*old(mem), vaddr, k, x))),
{
    let ghost m0 = *mem;
    let b = (vaddr / PAGE_SIZE) as usize;
    let mut page: u32 = 0;
    while page < mapped_count
        invariant
            mem.pools.wf(),
            mem.tables.wf(),
            mem.pools.vir_usr_pool == m0.pools.vir_usr_pool,
            mem.pools.phy_usr_pool == m0.pools.phy_usr_pool,
            mem.pools.vir_ker_pool == m0.pools.vir_ker_pool,
            mem.pools.phy_ker_pool.addr_start == m0.pools.phy_ker_pool.addr_start,
            mem.pools.phy_ker_pool.pool_size == m0.pools.phy_ker_pool.pool_size,
            mem.pools.phy_ker_pool.phy_bitmap.byte_size == m0.pools.phy_ker_pool.phy_bitmap.byte_size,
            mem.pools.phy_ker_pool.bitmap_addr == m0.pools.phy_ker_pool.bitmap_addr,
            mem.kernel_page_directory_paddr == m0.kernel_page_directory_paddr,
            mem.total_mem == m0.total_mem,
            mem.tables.pd@ == m0.tables.pd@,
            b == vaddr / 4096,
            vaddr % 4096 == 0,
            vaddr + reserved_count * 4096 <= RECURSIVE_PAGE_TABLE_BASE,
            mapped_count <= reserved_count,
            page <= mapped_count,
            mem.tables.pts@ == Seq::new(
                m0.tables.pts@.len(),
                |q: int| if b <= q < b + page { 0u32 } else { m0.tables.pts@[q] },
            ),
            forall|x: int|
                0 <= x < m0.phy_bits().len() ==> #[trigger] mem.phy_bits()[x] == (m0.phy_bits()[x] && !(exists|k: int|
                    0 <= k < page && released_frame(m0, vaddr, k, x))),
        decreases mapped_count - page,
    {
        let ghost before = mem.phy_bits();
        assert(forall|x: int|
            0 <= x < m0.phy_bits().len() ==> #[trigger] before[x] == (m0.phy_bits()[x] && !(exists|k: int|
                0 <= k < page && released_frame(m0, vaddr, k, x))));
        let current = vaddr + page * PAGE_SIZE;
        proof {
            lemma_slot(current);
            assert(current as int / 4096 == b + page);
        }
        let q = b + page as usize;
        let paddr = mem.tables.pts[q] & PAGE_ENTRY_ADDRESS_MASK;
        mem.tables.pts.set(q, 0);
        let ghost pool_before = mem.pools.phy_ker_pool;
        assert(paddr == (m0.tables.pts@[vaddr as int / 4096 + page] & 0xffff_f000) as u32);
        phy_release(&mut mem.pools.phy_ker_pool, paddr);
        proof {
            assert(forall|e: u32| pool_before.holds_frame(e) == m0.pools.phy_ker_pool.holds_frame(e));
            assert(mem.tables.pts@ =~= Seq::new(
                m0.tables.pts@.len(),
                |q: int| if b <= q < b + page + 1 { 0u32 } else { m0.tables.pts@[q] },
            ));
            assert forall|x: int| 0 <= x < m0.phy_bits().len() implies #[trigger] mem.phy_bits()[x] == (
            m0.phy_bits()[x] && !(exists|k: int|
                0 <= k < page + 1 && released_frame(m0, vaddr, k, x))) by {
                if released_frame(m0, vaddr, page as int, x) {
                    assert(pool_before.frame_index(paddr) == x);
                    assert(!mem.phy_bits()[x]);
                    assert(exists|k: int| 0 <= k < page + 1 && released_frame(m0, vaddr, k, x));
                } else {
                    if paddr != 0 && pool_before.holds_frame(paddr) {
                        assert(pool_before.frame_index(paddr) != x);
                    }
                    assert(mem.phy_bits()[x] == before[x]);
                    assert(before[x] == (m0.phy_bits()[x] && !(exists|k: int|
                        0 <= k < page && released_frame(m0, vaddr, k, x))));
                    if exists|k: int| 0 <= k < page + 1 && released_frame(m0, vaddr, k, x) {
                        let k = choose|k: int| 0 <= k < page + 1 && released_frame(m0, vaddr, k, x);
                        assert(k < page);
                    }
                }
            }
        }
        page = page + 1;
    }
    let ghost m1 = *mem;
    let first = (vaddr - mem.pools.vir_ker_pool.addr_start) / PAGE_SIZE;
    let mut bit = first;
    while bit < first + reserved_count
        invariant
            mem.pools.wf(),
            mem.pools.vir_ker_pool.addr_start == m0.pools.vir_ker_pool.addr_start,
            mem.pools.vir_ker_pool.vir_bitmap.byte_size == m0.pools.vir_ker_pool.vir_bitmap.byte_size,
            mem.pools.vir_ker_pool.bitmap_addr == m0.pools.vir_ker_pool.bitmap_addr,
            first + reserved_count <= m0.pools.vir_ker_pool.vir_bitmap.total(),
            first <= bit <= first + reserved_count,
            mem.vir_bits() == Seq::new(
                m0.vir_bits().len(),
                |x: int| if first <= x < bit { false } else { m0.vir_bits()[x] },
            ),
            mem.pools.vir_usr_pool == m0.pools.vir_usr_pool,
            mem.pools.phy_usr_pool == m0.pools.phy_usr_pool,
            mem.pools.phy_ker_pool == m1.pools.phy_ker_pool,
            mem.tables == m1.tables,
            mem.kernel_page_directory_paddr == m0.kernel_page_directory_paddr,
            mem.total_mem == m0.total_mem,
        decreases first + reserved_count - bit,
    {
        let _ = mem.pools.vir_ker_pool.vir_bitmap.clear_one(bit);
        assert(mem.vir_bits() =~= Seq::new(
            m0.vir_bits().len(),
            |x: int| if first <= x < bit + 1 { false } else { m0.vir_bits()[x] },
        ));
        bit = bit + 1;
    }
    assert(mem.phy_bits() == m1.phy_bits());
}

/// The frame that page `k` of the run at `v` is mapped to in `b`.
pub open spec fn run_frame(b: KernelMemory, v: u32, k: int) -> u32 {
    (b.tables.pts@[v as int / 4096 + k] & 0xffff_f000) as u32
}

/// Page table `i` is new in `b`: its directory entry was not present in `a`,
/// is present in `b`, and points to a kernel frame that was free in `a` and
/// is in use in `b`.
pub open spec fn new_table(a: KernelMemory, b: KernelMemory, i: int) -> bool {
    let f = (b.tables.pd@[i] & 0xffff_f000) as u32;
    &&& !present(a.tables.pd@[i])
    &&& present(b.tables.pd@[i])
    &&& b.tables.pd@[i] == make_entry(f, PAGE_KERNEL_RW)
    &&& a.pools.phy_ker_pool.holds_frame(f)
    &&& f % 4096 == 0
    &&& !a.phy_bits()[a.frame_index(f)]
    &&& b.phy_bits()[a.frame_index(f)]
}

/// Going from `a` to `b` only adds page tables: directory entries present in
/// `a` are kept, any other entry is either kept or becomes a new table.
#[verifier::opaque]
pub open spec fn directory_grows(a: KernelMemory, b: KernelMemory) -> bool {
    forall|i: int|
        0 <= i < 1024 ==> if present(a.tables.pd@[i]) {
            #[trigger] b.tables.pd@[i] == a.tables.pd@[i]
        } else {
            b.tables.pd@[i] == a.tables.pd@[i] || new_table(a, b, i)
        }
}

/// Outside the slots `lo .. hi`, going from `a` to `b` keeps every entry of
/// the tables present in `a`, and every entry of a new table is clear.
#[verifier::opaque]
pub open spec fn entries_kept_outside(a: KernelMemory, b: KernelMemory, lo: int, hi: int) -> bool {
    forall|q: int|
        0 <= q < PAGE_TABLE_ENTRIES && !(lo <= q < hi) ==> #[trigger] b.tables.pts@[q] == if present(
            a.tables.pd@[q / 1024],
        ) || !present(b.tables.pd@[q / 1024]) {
            a.tables.pts@[q]
        } else {
            0u32
        }
}

/// Frame `x` of the kernel pool holds page `k < cnt` of the run at `v` in `b`.
pub open spec fn is_run_frame(a: KernelMemory, b: KernelMemory, v: u32, cnt: int, x: int) -> bool {
    exists|k: int| 0 <= k < cnt && a.frame_index(run_frame(b, v, k)) == x
}

/// Frame `x` of the kernel pool holds a page table that is new in `b`.
pub open spec fn is_table_frame(a: KernelMemory, b: KernelMemory, x: int) -> bool {
    exists|i: int| 0 <= i < 1024 && new_table(a, b, i) && a.frame_index(table_frame(b, i)) == x
}

/// Pages `0 .. cnt` of the run at `v` are mapped in `b`, read/write and
/// supervisor-only, to distinct kernel frames that were free in `a` and are
/// in use in `b`.
#[verifier::opaque]
pub open spec fn run_mapped(a: KernelMemory, b: KernelMemory, v: u32, cnt: int) -> bool {
    &&& forall|k: int|
        #![trigger run_frame(b, v, k)]
        #![trigger page_of_run(v, k)]
        0 <= k < cnt ==> {
            &&& present(b.tables.pd@[pde_index(page_of_run(v, k))])
            &&& b.tables.pts@[v as int / 4096 + k] == make_entry(run_frame(b, v, k), PAGE_KERNEL_RW)
            &&& a.pools.phy_ker_pool.holds_frame(run_frame(b, v, k))
            &&& run_frame(b, v, k) % 4096 == 0
            &&& !a.phy_bits()[a.frame_index(run_frame(b, v, k))]
            &&& b.phy_bits()[a.frame_index(run_frame(b, v, k))]
        }
    &&& forall|k1: int, k2: int|
        0 <= k1 < k2 < cnt ==> #[trigger] run_frame(b, v, k1) != #[trigger] run_frame(b, v, k2)
}

/// Going from `a` to `b` keeps every frame of the kernel pool in use.
pub open spec fn frames_kept(a: KernelMemory, b: KernelMemory) -> bool {
    forall|x: int| 0 <= x < a.phy_bits().len() && #[trigger] a.phy_bits()[x] ==> b.phy_bits()[x]
}

/// Every frame newly in use in `b` holds a page of the run at `v` or a new
/// page table.
#[verifier::opaque]
pub open spec fn frames_accounted(a: KernelMemory, b: KernelMemory, v: u32, cnt: int) -> bool {
    forall|x: int|
        0 <= x < a.phy_bits().len() && #[trigger] b.phy_bits()[x] && !a.phy_bits()[x] ==> is_run_frame(
            a,
            b,
            v,
            cnt,
            x,
        ) || is_table_frame(a, b, x)
}

/// Going from `a` to `b` keeps every frame in use, and every frame newly in
/// use holds a page of the run at `v` or a new page table.
pub open spec fn frames_grow(a: KernelMemory, b: KernelMemory, v: u32, cnt: int) -> bool {
    &&& frames_kept(a, b)
    &&& frames_accounted(a, b, v, cnt)
}

/// No page of the first `m` of the run at `v` shares a frame with a new page table.
#[verifier::opaque]
pub open spec fn runs_avoid_tables(a: KernelMemory, c: KernelMemory, v: u32, m: int) -> bool {
    forall|k: int, i: int|
        0 <= k < m && 0 <= i < 1024 && new_table(a, c, i) ==> #[trigger] run_frame(c, v, k)
            != #[trigger] table_frame(c, i)
}

/// The fields of the memory state that page allocation leaves alone.
pub open spec fn same_frame(a: KernelMemory, b: KernelMemory) -> bool {
    &&& b.pools.vir_usr_pool == a.pools.vir_usr_pool
    &&& b.pools.phy_usr_pool == a.pools.phy_usr_pool
    &&& b.pools.vir_ker_pool.addr_start == a.pools.vir_ker_pool.addr_start
    &&& b.pools.vir_ker_pool.vir_bitmap.byte_size == a.pools.vir_ker_pool.vir_bitmap.byte_size
    &&& b.pools.phy_ker_pool.addr_start == a.pools.phy_ker_pool.addr_start
    &&& b.pools.phy_ker_pool.pool_size == a.pools.phy_ker_pool.pool_size
    &&& b.pools.phy_ker_pool.phy_bitmap.byte_size == a.pools.phy_ker_pool.phy_bitmap.byte_size
    &&& b.pools.phy_ker_pool.bitmap_addr == a.pools.phy_ker_pool.bitmap_addr
    &&& b.pools.vir_ker_pool.bitmap_addr == a.pools.vir_ker_pool.bitmap_addr
    &&& b.kernel_page_directory_paddr == a.kernel_page_directory_paddr
    &&& b.total_mem == a.total_mem
}

/// The frame holding new page table `i` in `b`.
pub open spec fn table_frame(b: KernelMemory, i: int) -> u32 {
    (b.tables.pd@[i] & 0xffff_f000) as u32
}

/// The state `c` reached from `a` after mapping the first `m` pages of the
/// run of `cnt` pages at `v` (pool index `idx`).
pub open spec fn alloc_progress(a: KernelMemory, c: KernelMemory, v: u32, idx: int, cnt: int, m: int) -> bool {
    &&& a.wf()
    &&& c.pools.wf()
    &&& c.tables.wf()
    &&& same_frame(a, c)
    &&& 0 <= m <= cnt
    &&& v == a.pools.vir_ker_pool.page_addr(idx)
    &&& free_run(a.vir_bits(), idx, cnt)
    &&& c.vir_bits() == set_range(a.vir_bits(), idx, cnt)
    &&& directory_grows(a, c)
    &&& entries_kept_outside(a, c, v as int / 4096, v as int / 4096 + m)
    &&& run_mapped(a, c, v, m)
    &&& frames_grow(a, c, v, m)
    &&& runs_avoid_tables(a, c, v, m)
    &&& m == 0 ==> c.tables@ == a.tables@ && c.phy_bits() == a.phy_bits()
}

proof fn lemma_run_facts(a: KernelMemory, v: u32, idx: int, cnt: int, k: int)
    requires
        a.wf(),
        v == a.pools.vir_ker_pool.page_addr(idx),
        free_run(a.vir_bits(), idx, cnt),
        0 <= k < cnt,
    ensures
        page_of_run(v, k) == a.pools.vir_ker_pool.page_addr(idx + k),
        page_of_run(v, k) as int == v + k * 4096,
        page_of_run(v, k) % 4096 == 0,
        page_of_run(v, k) != 0,
        page_of_run(v, k) as int / 4096 == v as int / 4096 + k,
        pde_index(page_of_run(v, k)) == (v as int / 4096 + k) / 1024,
        v + cnt * 4096 <= RECURSIVE_PAGE_TABLE_BASE,
        !a.tables.is_mapped(page_of_run(v, k)),
        v as int / 4096 + cnt <= PAGE_TABLE_ENTRIES,
{
    let p = page_of_run(v, k);
    assert(a.vir_bits().len() == a.pools.vir_ker_pool.vir_bitmap.total());
    assert(!a.vir_bits()[idx + k]);
    assert(!a.tables.is_mapped(a.pools.vir_ker_pool.page_addr(idx + k) as u32));
    lemma_slot(p);
    assert(pde_index(p) == p as int / 0x40_0000);
    assert((p as int / 4096) / 1024 == p as int / 0x40_0000) by {
        vstd::arithmetic::div_mod::lemma_div_denominator(p as int, 4096, 1024);
    }
    assert(v as int + k * 4096 == (v as int / 4096 + k) * 4096);
}

proof fn lemma_progress_unmapped(a: KernelMemory, c: KernelMemory, v: u32, idx: int, cnt: int, m: int, k: int)
    requires
        alloc_progress(a, c, v, idx, cnt, m),
        m <= k < cnt,
    ensures
        !c.tables.is_mapped(page_of_run(v, k)),
{
    reveal(entries_kept_outside);
    reveal(directory_grows);
    lemma_run_facts(a, v, idx, cnt, k);
    let p = page_of_run(v, k);
    let q = v as int / 4096 + k;
    lemma_slot(p);
    assert(c.tables.pte_of(p) == c.tables.pts@[q]);
    assert(a.tables.pte_of(p) == a.tables.pts@[q]);
    let i = pde_index(p);
    assert(i == q / 1024);
    assert(c.tables.pts@[q] == if present(a.tables.pd@[q / 1024]) || !present(c.tables.pd@[q / 1024]) {
        a.tables.pts@[q]
    } else {
        0u32
    });
    if present(a.tables.pd@[i]) {
        assert(c.tables.pd@[i] == a.tables.pd@[i]);
    } else if present(c.tables.pd@[i]) {
        lemma_zero_not_present();
    }
}


/// `d` is `c` after `map_one_page` mapped page `m` of the run at `v` to `f`.
pub open spec fn step_post(c: KernelMemory, d: KernelMemory, v: u32, m: int, f: u32) -> bool {
    let vaddr = page_of_run(v, m);
    let i = pde_index(vaddr);
    let v0 = c.phy_bits();
    let fi = c.frame_index(f);
    let v1 = v0.update(fi, true);
    let entry = make_entry(f, PAGE_KERNEL_RW);
    &&& d.pools.wf()
    &&& d.tables.wf()
    &&& same_frame(c, d)
    &&& d.pools.vir_ker_pool == c.pools.vir_ker_pool
    &&& c.pools.phy_ker_pool.holds_frame(f)
    &&& f == c.pools.phy_ker_pool.frame_addr(fi)
    &&& f % 4096 == 0
    &&& !v0[fi]
    &&& present(c.tables.pd@[i]) ==> {
        &&& d.phy_bits() == v1
        &&& d.tables.pd@ == c.tables.pd@
        &&& d.tables.pts@ == c.tables.pts@.update(vaddr as int / 4096, entry)
    }
    &&& !present(c.tables.pd@[i]) ==> {
        let t = lowest_free(v1);
        &&& 0 <= t < v1.len()
        &&& !v1[t]
        &&& d.phy_bits() == v1.update(t, true)
        &&& d.tables.pd@ == c.tables.pd@.update(
            i,
            make_entry((c.pools.phy_ker_pool.addr_start + t * 4096) as u32, PAGE_KERNEL_RW),
        )
        &&& d.tables.pts@ == clear_table(c.tables.pts@, i).update(vaddr as int / 4096, entry)
    }
}

#[verifier::rlimit(100)]
proof fn lemma_step_facts(a: KernelMemory, c: KernelMemory, d: KernelMemory, v: u32, idx: int, cnt: int, m: int, f: u32)
    requires
        alloc_progress(a, c, v, idx, cnt, m),
        m < cnt,
        step_post(c, d, v, m, f),
    ensures
        run_frame(d, v, m) == f,
        d.tables.pts@[v as int / 4096 + m] == make_entry(f, PAGE_KERNEL_RW),
        present(d.tables.pd@[pde_index(page_of_run(v, m))]),
        !a.phy_bits()[c.frame_index(f)],
        d.phy_bits()[c.frame_index(f)],
        !c.phy_bits()[c.frame_index(f)],
        forall|x: int| 0 <= x < c.phy_bits().len() && #[trigger] c.phy_bits()[x] ==> d.phy_bits()[x],
        forall|k: int| 0 <= k < m ==> #[trigger] d.tables.pts@[v as int / 4096 + k] == c.tables.pts@[v as int / 4096 + k],
        forall|k: int| 0 <= k < m ==> #[trigger] run_frame(d, v, k) == run_frame(c, v, k),
        forall|k: int| 0 <= k < m ==> present(d.tables.pd@[pde_index(#[trigger] page_of_run(v, k))]),
        forall|j: int| 0 <= j < 1024 && j != pde_index(page_of_run(v, m)) ==> #[trigger] d.tables.pd@[j] == c.tables.pd@[j],
        present(c.tables.pd@[pde_index(page_of_run(v, m))]) ==> d.tables.pd@ == c.tables.pd@ && d.phy_bits() == c.phy_bits().update(c.frame_index(f), true),
        !present(c.tables.pd@[pde_index(page_of_run(v, m))]) ==> {
            let i = pde_index(page_of_run(v, m));
            let t = lowest_free(c.phy_bits().update(c.frame_index(f), true));
            &&& new_table(a, d, i)
            &&& a.frame_index(table_frame(d, i)) == t
            &&& t != c.frame_index(f)
            &&& !c.phy_bits()[t]
            &&& d.phy_bits() == c.phy_bits().update(c.frame_index(f), true).update(t, true)
            &&& c.tables.pd@[i] == a.tables.pd@[i]
        },
{
    reveal(directory_grows);
    reveal(run_mapped);
    let vaddr = page_of_run(v, m);
    lemma_run_facts(a, v, idx, cnt, m);
    let i = pde_index(vaddr);
    let lo = v as int / 4096;
    let fi = c.frame_index(f);
    let v1 = c.phy_bits().update(fi, true);
    lemma_entry_bits(f, PAGE_KERNEL_RW);
    assert(d.tables.pts@[lo + m] == make_entry(f, PAGE_KERNEL_RW));
    if !a.phy_bits()[fi] {
    } else {
        assert(c.phy_bits()[fi]);
    }
    let pd_was = present(c.tables.pd@[i]);
    if !pd_was {
        let t = lowest_free(v1);
        let taddr = (c.pools.phy_ker_pool.addr_start + t * 4096) as u32;
        assert(taddr % 4096 == 0);
        lemma_entry_bits(taddr, PAGE_KERNEL_RW);
        assert(c.frame_index(taddr) == t);
        assert(table_frame(d, i) == taddr);
        assert(c.tables.pd@[i] == a.tables.pd@[i]) by {
            if present(a.tables.pd@[i]) {
                assert(c.tables.pd@[i] == a.tables.pd@[i]);
            } else if c.tables.pd@[i] != a.tables.pd@[i] {
                assert(new_table(a, c, i));
            }
        }
        if a.phy_bits()[t] {
            assert(c.phy_bits()[t]);
        }
        assert(3u32 & 1 == 1) by (bit_vector);
        assert(present(d.tables.pd@[i]));
        assert(a.pools.phy_ker_pool.holds_frame(taddr));
        assert(!a.phy_bits()[a.frame_index(taddr)]);
        assert(d.phy_bits()[a.frame_index(taddr)]);
        assert(new_table(a, d, i));
    }
    assert forall|k: int| 0 <= k < m implies #[trigger] d.tables.pts@[v as int / 4096 + k] == c.tables.pts@[v as int / 4096 + k]
        && present(d.tables.pd@[pde_index(page_of_run(v, k))]) by {
        lemma_run_facts(a, v, idx, cnt, k);
        reveal(run_mapped);
        assert(run_frame(c, v, k) % 4096 == 0);
        assert(present(c.tables.pd@[pde_index(page_of_run(v, k))]));
        if !pd_was {
            assert(pde_index(page_of_run(v, k)) != i);
        }
    }
    assert forall|k: int| 0 <= k < m implies #[trigger] run_frame(d, v, k) == run_frame(c, v, k) by {
        assert(d.tables.pts@[lo + k] == c.tables.pts@[lo + k]);
    }
    assert forall|k: int| 0 <= k < m implies present(d.tables.pd@[pde_index(#[trigger] page_of_run(v, k))]) by {
        assert(d.tables.pts@[lo + k] == c.tables.pts@[lo + k]);
    }
}

proof fn lemma_step_directory(a: KernelMemory, c: KernelMemory, d: KernelMemory, v: u32, idx: int, cnt: int, m: int, f: u32)
    requires
        alloc_progress(a, c, v, idx, cnt, m),
        m < cnt,
        step_post(c, d, v, m, f),
    ensures
        directory_grows(a, d),
{
    reveal(directory_grows);
    lemma_step_facts(a, c, d, v, idx, cnt, m, f);
    let i = pde_index(page_of_run(v, m));
    assert forall|j: int| 0 <= j < 1024 implies if present(a.tables.pd@[j]) {
        #[trigger] d.tables.pd@[j] == a.tables.pd@[j]
    } else {
        d.tables.pd@[j] == a.tables.pd@[j] || new_table(a, d, j)
    } by {
        if j != i || present(c.tables.pd@[i]) {
            assert(d.tables.pd@[j] == c.tables.pd@[j]);
            assert(c.tables.pd@[j] == a.tables.pd@[j] || new_table(a, c, j));
            if !present(a.tables.pd@[j]) && c.tables.pd@[j] != a.tables.pd@[j] {
                assert(new_table(a, c, j));
                assert(d.phy_bits()[a.frame_index(table_frame(c, j))]);
                assert(new_table(a, d, j));
            }
        }
    }
}

#[verifier::rlimit(100)]
proof fn lemma_step_entries(a: KernelMemory, c: KernelMemory, d: KernelMemory, v: u32, idx: int, cnt: int, m: int, f: u32)
    requires
        alloc_progress(a, c, v, idx, cnt, m),
        m < cnt,
        step_post(c, d, v, m, f),
    ensures
        entries_kept_outside(a, d, v as int / 4096, v as int / 4096 + m + 1),
{
    reveal(entries_kept_outside);
    lemma_step_facts(a, c, d, v, idx, cnt, m, f);
    lemma_run_facts(a, v, idx, cnt, m);
    let i = pde_index(page_of_run(v, m));
    let lo = v as int / 4096;
    let pd_was = present(c.tables.pd@[i]);
    assert forall|r: int| 0 <= r < PAGE_TABLE_ENTRIES && !(lo <= r < lo + m + 1) implies #[trigger] d.tables.pts@[r]
        == if present(a.tables.pd@[r / 1024]) || !present(d.tables.pd@[r / 1024]) {
        a.tables.pts@[r]
    } else {
        0u32
    } by {
        assert(c.tables.pts@[r] == if present(a.tables.pd@[r / 1024]) || !present(c.tables.pd@[r / 1024]) {
            a.tables.pts@[r]
        } else {
            0u32
        });
        if !pd_was && r / 1024 == i {
            assert(d.tables.pts@[r] == 0);
        } else {
            assert(d.tables.pts@[r] == c.tables.pts@[r]);
            assert(d.tables.pd@[r / 1024] == c.tables.pd@[r / 1024]);
        }
    }
}

#[verifier::rlimit(100)]
proof fn lemma_step_run(a: KernelMemory, c: KernelMemory, d: KernelMemory, v: u32, idx: int, cnt: int, m: int, f: u32)
    requires
        alloc_progress(a, c, v, idx, cnt, m),
        m < cnt,
        step_post(c, d, v, m, f),
    ensures
        run_mapped(a, d, v, m + 1),
        runs_avoid_tables(a, d, v, m + 1),
{
    reveal(run_mapped);
    reveal(runs_avoid_tables);
    lemma_step_facts(a, c, d, v, idx, cnt, m, f);
    let i = pde_index(page_of_run(v, m));
    let fi = c.frame_index(f);
    assert forall|k: int| #![trigger run_frame(d, v, k)] #![trigger page_of_run(v, k)] 0 <= k < m + 1 implies {
        &&& present(d.tables.pd@[pde_index(page_of_run(v, k))])
        &&& d.tables.pts@[v as int / 4096 + k] == make_entry(run_frame(d, v, k), PAGE_KERNEL_RW)
        &&& a.pools.phy_ker_pool.holds_frame(run_frame(d, v, k))
        &&& run_frame(d, v, k) % 4096 == 0
        &&& !a.phy_bits()[a.frame_index(run_frame(d, v, k))]
        &&& d.phy_bits()[a.frame_index(run_frame(d, v, k))]
    } by {
        if k < m {
            assert(run_frame(d, v, k) == run_frame(c, v, k));
            assert(present(d.tables.pd@[pde_index(page_of_run(v, k))]));
            assert(d.tables.pts@[v as int / 4096 + k] == c.tables.pts@[v as int / 4096 + k]);
            let g = run_frame(c, v, k);
            assert(c.phy_bits()[a.frame_index(g)]);
        }
    }
    assert forall|k1: int, k2: int| 0 <= k1 < k2 < m + 1 implies #[trigger] run_frame(d, v, k1)
        != #[trigger] run_frame(d, v, k2) by {
        assert(run_frame(d, v, k1) == run_frame(c, v, k1));
        if k2 < m {
            assert(run_frame(d, v, k2) == run_frame(c, v, k2));
            assert(run_frame(c, v, k1) != run_frame(c, v, k2));
        } else {
            assert(c.phy_bits()[a.frame_index(run_frame(c, v, k1))]);
        }
    }
    assert forall|k: int, j: int| 0 <= k < m + 1 && 0 <= j < 1024 && new_table(a, d, j) implies #[trigger] run_frame(d, v, k)
        != #[trigger] table_frame(d, j) by {
        if !present(c.tables.pd@[i]) && j == i {
            let t = lowest_free(c.phy_bits().update(fi, true));
            if k < m {
                assert(run_frame(d, v, k) == run_frame(c, v, k));
                assert(c.phy_bits()[a.frame_index(run_frame(c, v, k))]);
            }
        } else {
            assert(d.tables.pd@[j] == c.tables.pd@[j]);
            assert(table_frame(d, j) == table_frame(c, j));
            reveal(directory_grows);
            assert(c.tables.pd@[j] != a.tables.pd@[j]);
            assert(new_table(a, c, j));
            if k < m {
                assert(run_frame(d, v, k) == run_frame(c, v, k));
            } else {
                assert(c.phy_bits()[a.frame_index(table_frame(c, j))]);
            }
        }
    }
}

proof fn lemma_step_frames(a: KernelMemory, c: KernelMemory, d: KernelMemory, v: u32, idx: int, cnt: int, m: int, f: u32)
    requires
        alloc_progress(a, c, v, idx, cnt, m),
        m < cnt,
        step_post(c, d, v, m, f),
    ensures
        frames_grow(a, d, v, m + 1),
{
    reveal(frames_accounted);
    lemma_step_facts(a, c, d, v, idx, cnt, m, f);
    let i = pde_index(page_of_run(v, m));
    let fi = c.frame_index(f);
    let pd_was = present(c.tables.pd@[i]);
    assert forall|x: int| 0 <= x < a.phy_bits().len() && #[trigger] a.phy_bits()[x] implies d.phy_bits()[x] by {
        assert(c.phy_bits()[x]);
    }
    assert forall|x: int|
        0 <= x < a.phy_bits().len() && #[trigger] d.phy_bits()[x] && !a.phy_bits()[x] implies is_run_frame(
        a,
        d,
        v,
        m + 1,
        x,
    ) || is_table_frame(a, d, x) by {
        let t = lowest_free(c.phy_bits().update(fi, true));
        if x == fi {
            assert(a.frame_index(run_frame(d, v, m)) == x);
        } else if !pd_was && x == t {
            assert(a.frame_index(table_frame(d, i)) == x);
        } else {
            assert(c.phy_bits()[x]);
            reveal(frames_accounted);
            assert(is_run_frame(a, c, v, m, x) || is_table_frame(a, c, x));
            if is_run_frame(a, c, v, m, x) {
                let k = choose|k: int| 0 <= k < m && a.frame_index(run_frame(c, v, k)) == x;
                assert(run_frame(d, v, k) == run_frame(c, v, k));
            } else {
                let j = choose|j: int| 0 <= j < 1024 && new_table(a, c, j) && a.frame_index(table_frame(c, j)) == x;
                if !pd_was {
                    assert(j != i);
                }
                assert(d.tables.pd@[j] == c.tables.pd@[j]);
                assert(new_table(a, d, j));
            }
        }
    }
}

proof fn lemma_progress_step(a: KernelMemory, c: KernelMemory, d: KernelMemory, v: u32, idx: int, cnt: int, m: int, f: u32)
    requires
        alloc_progress(a, c, v, idx, cnt, m),
        m < cnt,
        step_post(c, d, v, m, f),
    ensures
        alloc_progress(a, d, v, idx, cnt, m + 1),
{
    lemma_step_directory(a, c, d, v, idx, cnt, m, f);
    lemma_step_entries(a, c, d, v, idx, cnt, m, f);
    lemma_step_run(a, c, d, v, idx, cnt, m, f);
    lemma_step_frames(a, c, d, v, idx, cnt, m, f);
}

/// The lowest index at which a run of `cnt` clear bits starts in `v`
/// (meaningful when one exists).
pub open spec fn lowest_run(v: Seq<bool>, cnt: int) -> int {
    choose|s: int| free_run(v, s, cnt) && forall|t: int| 0 <= t < s ==> !free_run(v, t, cnt)
}

proof fn lemma_lowest_run(v: Seq<bool>, cnt: int, s: int)
    requires
        free_run(v, s, cnt),
        forall|t: int| 0 <= t < s ==> !free_run(v, t, cnt),
    ensures
        lowest_run(v, cnt) == s,
{
    let k = lowest_run(v, cnt);
    assert(free_run(v, k, cnt) && forall|t: int| 0 <= t < k ==> !free_run(v, t, cnt));
}

/// Page `k` of the run at `v` is the first page of the run in a page table
/// whose directory entry in `pd` is not present: mapping it takes a frame
/// for the new table.
pub open spec fn page_needs_table(pd: Seq<u32>, v: u32, k: int) -> bool {
    &&& !present(pd[pde_index(page_of_run(v, k))])
    &&& (k == 0 || pde_index(page_of_run(v, k)) != pde_index(page_of_run(v, k - 1)))
}

/// The kernel frames that mapping the first `n` pages of the run at `v`
/// takes over the page directory `pd`: one per page, and one per page table
/// that has to be created on the way.
pub open spec fn frames_needed(pd: Seq<u32>, v: u32, n: nat) -> nat
    decreases n,
{
    if n == 0 {
        0
    } else {
        frames_needed(pd, v, (n - 1) as nat) + if page_needs_table(pd, v, n - 1) {
            2nat
        } else {
            1nat
        }
    }
}

/// More pages never need fewer frames, and no page needs more than two.
pub proof fn lemma_frames_needed_bounds(pd: Seq<u32>, v: u32, m: nat, n: nat)
    requires
        m <= n,
    ensures
        frames_needed(pd, v, m) <= frames_needed(pd, v, n),
        n <= frames_needed(pd, v, n) <= 2 * n,
    decreases n,
{
    if n > 0 {
        lemma_frames_needed_bounds(pd, v, if m == n { (n - 1) as nat } else { m }, (n - 1) as nat);
    }
}

proof fn lemma_step_need(a: KernelMemory, c: KernelMemory, v: u32, idx: int, cnt: int, m: int)
    requires
        alloc_progress(a, c, v, idx, cnt, m),
        m < cnt,
        forall|i: int|
            0 <= i < 1024 && (m == 0 || i > pde_index(page_of_run(v, m - 1))) ==> #[trigger] c.tables.pd@[i]
                == a.tables.pd@[i],
    ensures
        frames_for_page(c.tables.pd@[pde_index(page_of_run(v, m))]) == if page_needs_table(a.tables.pd@, v, m) {
            2nat
        } else {
            1nat
        },
        m > 0 ==> pde_index(page_of_run(v, m - 1)) <= pde_index(page_of_run(v, m)),
{
    lemma_run_facts(a, v, idx, cnt, m);
    lemma_slot(page_of_run(v, m));
    if m > 0 {
        lemma_run_facts(a, v, idx, cnt, m - 1);
        let q = v as int / 4096 + m;
        vstd::arithmetic::div_mod::lemma_div_is_ordered(q - 1, q, 1024);
        if pde_index(page_of_run(v, m)) == pde_index(page_of_run(v, m - 1)) {
            reveal(run_mapped);
            assert(present(c.tables.pd@[pde_index(page_of_run(v, m - 1))]));
        }
    }
}

/// Going from `a` to `b`, the only lasting change to the tables and frames
/// is new page tables: directory entries present in `a` are kept, entries of
/// tables present in `a` are kept unless they were not present (they may
/// then be cleared), every entry of a new table is clear, and every frame
/// newly in use holds a new table.
pub open spec fn only_tables_added(a: KernelMemory, b: KernelMemory) -> bool {
    &&& directory_grows(a, b)
    &&& forall|q: int|
        0 <= q < PAGE_TABLE_ENTRIES ==> if present(a.tables.pd@[q / 1024]) {
            #[trigger] b.tables.pts@[q] == a.tables.pts@[q] || (!present(a.tables.pts@[q]) && b.tables.pts@[q] == 0)
        } else if present(b.tables.pd@[q / 1024]) {
            b.tables.pts@[q] == 0
        } else {
            b.tables.pts@[q] == a.tables.pts@[q]
        }
    &&& frames_kept(a, b)
    &&& forall|x: int|
        0 <= x < a.phy_bits().len() && #[trigger] b.phy_bits()[x] && !a.phy_bits()[x] ==> is_table_frame(a, b, x)
}

/// `b` is `a` after allocating the run of `cnt` kernel pages at `v`: the
/// lowest run of `cnt` free virtual pages was taken, each page of it is
/// mapped to its own newly used frame, the tables otherwise only gained new
/// page tables, and every frame newly in use holds a page of the run or a
/// new table.
pub open spec fn run_allocated(a: KernelMemory, b: KernelMemory, v: u32, cnt: int) -> bool {
    let idx = (v - a.pools.vir_ker_pool.addr_start) / 4096;
    &&& v >= a.pools.vir_ker_pool.addr_start
    &&& v == a.pools.vir_ker_pool.page_addr(idx)
    &&& free_run(a.vir_bits(), idx, cnt)
    &&& forall|s: int| 0 <= s < idx ==> !free_run(a.vir_bits(), s, cnt)
    &&& b.vir_bits() == set_range(a.vir_bits(), idx, cnt)
    &&& directory_grows(a, b)
    &&& entries_kept_outside(a, b, v as int / 4096, v as int / 4096 + cnt)
    &&& run_mapped(a, b, v, cnt)
    &&& frames_grow(a, b, v, cnt)
}

proof fn lemma_progress_start(a: KernelMemory, c: KernelMemory, v: u32, idx: int, cnt: int)
    requires
        a.wf(),
        c.pools.wf(),
        c.tables.wf(),
        same_frame(a, c),
        0 < cnt,
        v == a.pools.vir_ker_pool.page_addr(idx),
        free_run(a.vir_bits(), idx, cnt),
        c.vir_bits() == set_range(a.vir_bits(), idx, cnt),
        c.tables@ == a.tables@,
        c.phy_bits() == a.phy_bits(),
    ensures
        alloc_progress(a, c, v, idx, cnt, 0),
{
    reveal(directory_grows);
    reveal(entries_kept_outside);
    reveal(run_mapped);
    reveal(frames_accounted);
    reveal(runs_avoid_tables);
    assert(c.tables.pd@ == a.tables.pd@);
    assert(c.tables.pts@ == a.tables.pts@);
}

proof fn lemma_consistent(a: KernelMemory, b: KernelMemory, v: u32, idx: int, lo: int, hi: int)
    requires
        a.wf(),
        b.pools.wf(),
        b.tables.wf(),
        same_frame(a, b),
        v == a.pools.vir_ker_pool.page_addr(idx),
        lo == v as int / 4096,
        lo <= hi,
        directory_grows(a, b),
        entries_kept_outside(a, b, lo, hi),
        forall|i: int|
            0 <= i < a.vir_bits().len() && !#[trigger] b.vir_bits()[i] ==> if idx <= i < idx + (hi - lo) {
                !present(b.tables.pts@[lo + (i - idx)])
            } else {
                !a.vir_bits()[i]
            },
    ensures
        forall|i: int|
            0 <= i < b.pools.vir_ker_pool.vir_bitmap.total() && !b.pools.vir_ker_pool.vir_bitmap@[i]
                ==> !b.tables.is_mapped(#[trigger] b.pools.vir_ker_pool.page_addr(i) as u32),
{
    reveal(directory_grows);
    reveal(entries_kept_outside);
    assert forall|i: int|
        0 <= i < b.pools.vir_ker_pool.vir_bitmap.total() && !b.pools.vir_ker_pool.vir_bitmap@[i] implies !b.tables.is_mapped(
        #[trigger] b.pools.vir_ker_pool.page_addr(i) as u32) by {
        let p = b.pools.vir_ker_pool.page_addr(i) as u32;
        let start = a.pools.vir_ker_pool.addr_start;
        assert(!b.vir_bits()[i]);
        assert(p as int == start + i * 4096);
        lemma_slot(p);
        let q = p as int / 4096;
        assert(q == start / 4096 + i);
        assert(lo == start / 4096 + idx);
        assert(pde_index(p) == q / 1024) by {
            vstd::arithmetic::div_mod::lemma_div_denominator(p as int, 4096, 1024);
        }
        if lo <= q < hi {
            assert(!present(b.tables.pts@[q]));
        } else {
            assert(!a.vir_bits()[i]);
            assert(!a.tables.is_mapped(a.pools.vir_ker_pool.page_addr(i) as u32));
            let j = q / 1024;
            assert(b.tables.pts@[q] == if present(a.tables.pd@[j]) || !present(b.tables.pd@[j]) {
                a.tables.pts@[q]
            } else {
                0u32
            });
            if present(a.tables.pd@[j]) {
                assert(b.tables.pd@[j] == a.tables.pd@[j]);
            } else if present(b.tables.pd@[j]) {
                lemma_zero_not_present();
            }
        }
    }
}

proof fn lemma_wf_unchanged(a: KernelMemory, b: KernelMemory)
    requires
        a.wf(),
        b.pools.wf(),
        b.tables.wf(),
        same_frame(a, b),
        b.tables@ == a.tables@,
        b.vir_bits() == a.vir_bits(),
    ensures
        b.wf(),
{
    assert forall|i: int|
        0 <= i < b.pools.vir_ker_pool.vir_bitmap.total() && !b.pools.vir_ker_pool.vir_bitmap@[i]
            implies !b.tables.is_mapped(#[trigger] b.pools.vir_ker_pool.page_addr(i) as u32) by {
        assert(!a.pools.vir_ker_pool.vir_bitmap@[i]);
        assert(!a.tables.is_mapped(a.pools.vir_ker_pool.page_addr(i) as u32));
        assert(b.tables.pd@ == a.tables.pd@);
        assert(b.tables.pts@ == a.tables.pts@);
    }
}

proof fn lemma_progress_congruent(a: KernelMemory, c: KernelMemory, c2: KernelMemory, v: u32, idx: int, cnt: int, m: int)
    requires
        alloc_progress(a, c, v, idx, cnt, m),
        c2.pools.wf(),
        c2.tables.wf(),
        same_frame(c, c2),
        c2.tables@ == c.tables@,
        c2.phy_bits() == c.phy_bits(),
        c2.vir_bits() == c.vir_bits(),
    ensures
        alloc_progress(a, c2, v, idx, cnt, m),
{
    reveal(directory_grows);
    reveal(entries_kept_outside);
    reveal(run_mapped);
    reveal(frames_accounted);
    reveal(runs_avoid_tables);
    assert(c2.tables.pd@ == c.tables.pd@);
    assert(c2.tables.pts@ == c.tables.pts@);
    assert forall|i: int| 0 <= i < 1024 implies new_table(a, c2, i) == new_table(a, c, i) by {}
    assert forall|k: int| run_frame(c2, v, k) == run_frame(c, v, k) by {}
    assert forall|i: int| table_frame(c2, i) == table_frame(c, i) by {}
    assert forall|x: int| is_run_frame(a, c2, v, m, x) == is_run_frame(a, c, v, m, x) by {}
    assert forall|x: int| is_table_frame(a, c2, x) == is_table_frame(a, c, x) by {
        if is_table_frame(a, c, x) {
            let j = choose|j: int| 0 <= j < 1024 && new_table(a, c, j) && a.frame_index(table_frame(c, j)) == x;
            assert(new_table(a, c2, j));
        }
        if is_table_frame(a, c2, x) {
            let j = choose|j: int| 0 <= j < 1024 && new_table(a, c2, j) && a.frame_index(table_frame(c2, j)) == x;
            assert(new_table(a, c, j));
        }
    }
    assert(directory_grows(a, c2));
    assert(entries_kept_outside(a, c2, v as int / 4096, v as int / 4096 + m));
    assert forall|k: int| #![trigger run_frame(c2, v, k)] #![trigger page_of_run(v, k)] 0 <= k < m implies {
        &&& present(c2.tables.pd@[pde_index(page_of_run(v, k))])
        &&& c2.tables.pts@[v as int / 4096 + k] == make_entry(run_frame(c2, v, k), PAGE_KERNEL_RW)
        &&& a.pools.phy_ker_pool.holds_frame(run_frame(c2, v, k))
        &&& run_frame(c2, v, k) % 4096 == 0
        &&& !a.phy_bits()[a.frame_index(run_frame(c2, v, k))]
        &&& c2.phy_bits()[a.frame_index(run_frame(c2, v, k))]
    } by {
        assert(run_frame(c2, v, k) == run_frame(c, v, k));
        assert(run_frame(c, v, k) % 4096 == 0);
    }
    assert forall|k1: int, k2: int| 0 <= k1 < k2 < m implies #[trigger] run_frame(c2, v, k1)
        != #[trigger] run_frame(c2, v, k2) by {
        assert(run_frame(c2, v, k1) == run_frame(c, v, k1));
        assert(run_frame(c2, v, k2) == run_frame(c, v, k2));
    }
    assert(run_mapped(a, c2, v, m)) by {
        reveal(run_mapped);
    }
    assert(frames_kept(a, c2));
    assert(frames_accounted(a, c2, v, m));
    assert(runs_avoid_tables(a, c2, v, m));
}

proof fn lemma_failure(a: KernelMemory, c: KernelMemory, e: KernelMemory, v: u32, idx: int, cnt: int, m: int)
    requires
        alloc_progress(a, c, v, idx, cnt, m),
        m < cnt,
        e.pools.wf(),
        e.tables.wf(),
        same_frame(c, e),
        e.tables.pd@ == c.tables.pd@,
        e.tables.pts@ == Seq::new(
            c.tables.pts@.len(),
            |q: int| if v as int / 4096 <= q < v as int / 4096 + m { 0u32 } else { c.tables.pts@[q] },
        ),
        e.vir_bits() == Seq::new(
            c.vir_bits().len(),
            |x: int| if idx <= x < idx + cnt { false } else { c.vir_bits()[x] },
        ),
        forall|x: int|
            0 <= x < c.phy_bits().len() ==> #[trigger] e.phy_bits()[x] == (c.phy_bits()[x] && !(exists|k: int|
                0 <= k < m && released_frame(c, v, k, x))),
    ensures
        e.wf(),
        same_frame(a, e),
        e.vir_bits() == a.vir_bits(),
        only_tables_added(a, e),
        m == 0 ==> e.tables@ == a.tables@ && e.phy_bits() == a.phy_bits(),
{
    reveal(directory_grows);
    reveal(entries_kept_outside);
    reveal(run_mapped);
    reveal(frames_accounted);
    reveal(runs_avoid_tables);
    let lo = v as int / 4096;
    assert(e.vir_bits() =~= a.vir_bits()) by {
        assert forall|x: int| 0 <= x < a.vir_bits().len() implies e.vir_bits()[x] == a.vir_bits()[x] by {
            if idx <= x < idx + cnt {
                assert(!a.vir_bits()[x]);
            }
        }
    }
    // released frames are exactly the run frames
    assert forall|k: int, x: int| 0 <= k < m implies #[trigger] released_frame(c, v, k, x) == (a.frame_index(run_frame(c, v, k)) == x) by {
        assert(run_frame(c, v, k) % 4096 == 0);
    }
    assert forall|x: int| 0 <= x < a.phy_bits().len() && #[trigger] a.phy_bits()[x] implies e.phy_bits()[x] by {
        assert(c.phy_bits()[x]);
        if exists|k: int| 0 <= k < m && released_frame(c, v, k, x) {
            let k = choose|k: int| 0 <= k < m && released_frame(c, v, k, x);
            assert(run_frame(c, v, k) % 4096 == 0);
        }
    }
    assert forall|i: int| 0 <= i < 1024 && new_table(a, c, i) implies new_table(a, e, i) by {
        let t = a.frame_index(table_frame(c, i));
        if exists|k: int| 0 <= k < m && released_frame(c, v, k, t) {
            let k = choose|k: int| 0 <= k < m && released_frame(c, v, k, t);
            assert(run_frame(c, v, k) != table_frame(c, i));
            assert(run_frame(c, v, k) % 4096 == 0);
        }
        assert(e.phy_bits()[t]);
    }
    assert forall|x: int|
        0 <= x < a.phy_bits().len() && #[trigger] e.phy_bits()[x] && !a.phy_bits()[x] implies is_table_frame(a, e, x) by {
        assert(c.phy_bits()[x]);
        if is_run_frame(a, c, v, m, x) {
            let k = choose|k: int| 0 <= k < m && a.frame_index(run_frame(c, v, k)) == x;
            assert(run_frame(c, v, k) % 4096 == 0);
            assert(released_frame(c, v, k, x));
        } else {
            assert(is_table_frame(a, c, x));
            let j = choose|j: int| 0 <= j < 1024 && new_table(a, c, j) && a.frame_index(table_frame(c, j)) == x;
            assert(new_table(a, e, j));
        }
    }
    assert forall|q: int| 0 <= q < PAGE_TABLE_ENTRIES implies if present(a.tables.pd@[q / 1024]) {
        #[trigger] e.tables.pts@[q] == a.tables.pts@[q] || (!present(a.tables.pts@[q]) && e.tables.pts@[q] == 0)
    } else if present(e.tables.pd@[q / 1024]) {
        e.tables.pts@[q] == 0
    } else {
        e.tables.pts@[q] == a.tables.pts@[q]
    } by {
        if lo <= q < lo + m {
            let k = q - lo;
            lemma_run_facts(a, v, idx, cnt, k);
            assert(run_frame(c, v, k) % 4096 == 0);
            let p = page_of_run(v, k);
            lemma_slot(p);
            assert(a.tables.pte_of(p) == a.tables.pts@[q]);
        } else {
            assert(c.tables.pts@[q] == if present(a.tables.pd@[q / 1024]) || !present(c.tables.pd@[q / 1024]) {
                a.tables.pts@[q]
            } else {
                0u32
            });
        }
    }
    assert forall|i: int| 0 <= i < 1024 implies if present(a.tables.pd@[i]) {
        #[trigger] e.tables.pd@[i] == a.tables.pd@[i]
    } else {
        e.tables.pd@[i] == a.tables.pd@[i] || new_table(a, e, i)
    } by {
        assert(c.tables.pd@[i] == e.tables.pd@[i]);
        if !present(a.tables.pd@[i]) && c.tables.pd@[i] != a.tables.pd@[i] {
            assert(new_table(a, c, i));
        }
    }
    assert(directory_grows(a, e));
    assert forall|r: int| 0 <= r < PAGE_TABLE_ENTRIES && !(lo <= r < lo + m) implies #[trigger] e.tables.pts@[r]
        == if present(a.tables.pd@[r / 1024]) || !present(e.tables.pd@[r / 1024]) {
        a.tables.pts@[r]
    } else {
        0u32
    } by {
        assert(c.tables.pts@[r] == if present(a.tables.pd@[r / 1024]) || !present(c.tables.pd@[r / 1024]) {
            a.tables.pts@[r]
        } else {
            0u32
        });
    }
    assert(entries_kept_outside(a, e, lo, lo + m));
    assert forall|i: int|
        0 <= i < a.vir_bits().len() && !#[trigger] e.vir_bits()[i] implies if idx <= i < idx + m {
        !present(e.tables.pts@[lo + (i - idx)])
    } else {
        !a.vir_bits()[i]
    } by {
        lemma_zero_not_present();
    }
    lemma_consistent(a, e, v, idx, lo, lo + m);
    if m == 0 {
        assert(e.tables.pts@ =~= a.tables.pts@);
        assert(e.phy_bits() =~= a.phy_bits());
    }
}

/// Reserves `cnt` contiguous kernel virtual pages and maps each to its own
/// kernel frame, read/write and supervisor-only; returns the address of the
/// first page.
///
/// Only the kernel pool can be used: `None` when `cnt` is 0, `pool_flag` is
/// not `PF_KERNEL`, or no run of `cnt` free virtual pages exists, and then
/// nothing changes. When the kernel frames run out part way, every page
/// already mapped is unmapped and its frame returned, and the reserved
/// virtual pages are freed; page tables created on the way are kept. That
/// happens exactly when fewer kernel frames are free than the run at the
/// lowest fit takes: one frame per page, and one per page table that is
/// missing on the way (`frames_needed`), so never while twice `cnt` frames
/// are free.
pub fn page_allocate(mem: &mut KernelMemory, cnt: u32, pool_flag: u32) -> (r: Option<u32>)
    requires
        old(mem).wf(),
    ensures
        final(mem).wf(),
        same_frame(*old(mem), *final(mem)),
        (cnt == 0 || pool_flag != PF_KERNEL || !has_free_run(old(mem).vir_bits(), cnt as int)) ==> {
            &&& r is None
            &&& final(mem).tables@ == old(mem).tables@
            &&& final(mem).phy_bits() == old(mem).phy_bits()
            &&& final(mem).vir_bits() == old(mem).vir_bits()
        },
        r matches Some(v) ==> run_allocated(*old(mem), *final(mem), v, cnt as int),
        r matches Some(v) ==> final(mem).phy_bits() == take_lowest(
            old(mem).phy_bits(),
            frames_needed(old(mem).tables.pd@, v, cnt as nat),
        ),
        r is None ==> final(mem).vir_bits() == old(mem).vir_bits() && only_tables_added(*old(mem), *final(mem)),
        r is None && cnt == 1 ==> final(mem).tables@ == old(mem).tables@ && final(mem).phy_bits() == old(mem).phy_bits(),
        cnt > 0 && pool_flag == PF_KERNEL && has_free_run(old(mem).vir_bits(), cnt as int) ==> (r is Some
            <==> free_count(old(mem).phy_bits()) >= frames_needed(
            old(mem).tables.pd@,
            old(mem).pools.vir_ker_pool.page_addr(lowest_run(old(mem).vir_bits(), cnt as int)) as u32,
            cnt as nat,
        )),
        cnt > 0 && pool_flag == PF_KERNEL && has_free_run(old(mem).vir_bits(), cnt as int) && free_count(
            old(mem).phy_bits(),
        ) >= 2 * cnt ==> r is Some,
{
    let ghost a = *mem;
    if cnt == 0 || pool_flag != PF_KERNEL {
        proof {
            reveal(directory_grows);
            reveal(frames_accounted);
            assert(mem.tables.pd@ == a.tables.pd@);
        }
        return None;
    }
    let vaddr = match vir_allocate(&mut mem.pools, cnt, pool_flag) {
        None => {
            proof {
                reveal(directory_grows);
                reveal(frames_accounted);
                assert(mem.tables.pd@ == a.tables.pd@);
                lemma_wf_unchanged(a, *mem);
            }
            return None;
        },
        Some(v) => v,
    };
    let ghost idx = (vaddr - a.pools.vir_ker_pool.addr_start) / 4096;
    proof {
        lemma_progress_start(a, *mem, vaddr, idx, cnt as int);
        lemma_run_facts(a, vaddr, idx, cnt as int, 0);
        lemma_lowest_run(a.vir_bits(), cnt as int, idx);
    }
    let mut var_vaddr = vaddr;
    let mut mapped_count: u32 = 0;
    while mapped_count < cnt
        invariant
            alloc_progress(a, *mem, vaddr, idx, cnt as int, mapped_count as int),
            var_vaddr as int == vaddr + mapped_count * 4096,
            vaddr + cnt * 4096 <= RECURSIVE_PAGE_TABLE_BASE,
            mem.pools.phy_ker_pool.addr_start % 4096 == 0,
            mem.pools.phy_ker_pool.addr_start > 0,
            forall|s: int| 0 <= s < idx ==> !free_run(a.vir_bits(), s, cnt as int),
            vaddr >= a.pools.vir_ker_pool.addr_start,
            has_free_run(a.vir_bits(), cnt as int),
            pool_flag == PF_KERNEL,
            a == *old(mem),
            free_count(a.phy_bits()) >= 2 * cnt ==> free_count(mem.phy_bits()) >= 2 * (cnt - mapped_count),
            free_count(mem.phy_bits()) + frames_needed(a.tables.pd@, vaddr, mapped_count as nat) == free_count(
                a.phy_bits(),
            ),
            forall|i: int|
                0 <= i < 1024 && (mapped_count == 0 || i > pde_index(page_of_run(vaddr, mapped_count - 1)))
                    ==> #[trigger] mem.tables.pd@[i] == a.tables.pd@[i],
            idx == lowest_run(a.vir_bits(), cnt as int),
            mem.phy_bits() == take_lowest(a.phy_bits(), frames_needed(a.tables.pd@, vaddr, mapped_count as nat)),
        decreases cnt - mapped_count,
    {
        proof {
            lemma_run_facts(a, vaddr, idx, cnt as int, mapped_count as int);
            lemma_progress_unmapped(a, *mem, vaddr, idx, cnt as int, mapped_count as int, mapped_count as int);
            lemma_step_need(a, *mem, vaddr, idx, cnt as int, mapped_count as int);
            lemma_frames_needed_bounds(a.tables.pd@, vaddr, (mapped_count + 1) as nat, cnt as nat);
        }
        let ghost c = *mem;
        match map_one_page(mem, var_vaddr) {
            None => {
                let ghost c2 = *mem;
                proof {
                    assert(free_count(a.phy_bits()) < 2 * cnt);
                    assert(free_count(a.phy_bits()) < frames_needed(a.tables.pd@, vaddr, cnt as nat));
                }
                proof {
                    lemma_progress_congruent(a, c, c2, vaddr, idx, cnt as int, mapped_count as int);
                }
                rollback_kernel_pages(mem, vaddr, mapped_count, cnt);
                proof {
                    lemma_failure(a, c2, *mem, vaddr, idx, cnt as int, mapped_count as int);
                }
                return None;
            },
            Some(f) => {
                proof {
                    let need: nat = if page_needs_table(a.tables.pd@, vaddr, mapped_count as int) { 2 } else { 1 };
                    reveal_with_fuel(take_lowest, 3);
                    assert(mem.phy_bits() == take_lowest(c.phy_bits(), need));
                    lemma_take_lowest_add(a.phy_bits(), frames_needed(a.tables.pd@, vaddr, mapped_count as nat), need);
                    lemma_progress_step(a, c, *mem, vaddr, idx, cnt as int, mapped_count as int, f);
                }
            },
        }
        var_vaddr = var_vaddr + PAGE_SIZE;
        mapped_count = mapped_count + 1;
    }
    proof {
        let lo = vaddr as int / 4096;
        lemma_consistent(a, *mem, vaddr, idx, lo, lo + cnt);
    }
    Some(vaddr)
}

/// What `mem_init` prints: the size of physical memory in hex under a
/// heading, then a line before and after the pools are built.
pub open spec fn mem_init_output(total_mem: u32) -> Seq<u8> {
    memory_heading_msg() + hex_digits(total_mem as nat) + seq![0x0au8] + mem_start_msg() + mem_done_msg()
}

/// Sets up the kernel's memory state at boot: the pools for `total_mem`
/// bytes of physical memory over the active page tables `tables`, and the
/// kernel page directory's physical address taken from the CR3 value `cr3`.
/// The memory size and the progress are printed (see `mem_init_output`).
pub fn mem_init(screen: &mut Screen, cr3: u32, total_mem: u32, tables: PageTables) -> (r: KernelMemory)
    requires
        screen_ok(old(screen)@),
        cr3 & PAGE_ENTRY_ADDRESS_MASK != 0,
        layout_fits(total_mem),
        kernel_range_fits(total_mem),
        tables.wf(),
        forall|i: int|
            0 <= i < kernel_bitmap_bytes_for(total_mem) * 8 ==> !tables.is_mapped(
                #[trigger] (KERNEL_DYNAMIC_START + i * 4096) as u32,
            ),
    ensures
        r.wf(),
        r.kernel_page_directory_paddr == cr3 & PAGE_ENTRY_ADDRESS_MASK,
        r.total_mem == total_mem,
        r.tables == tables,
        fresh_pools(r.pools, total_mem),
        screen_ok(final(screen)@),
        final(screen)@ == chars_step(old(screen)@, mem_init_output(total_mem)),
{
    let ghost s0 = screen@;
    let kernel_page_directory_paddr = cr3 & PAGE_ENTRY_ADDRESS_MASK;
    let heading = memory_heading_text();
    put_bytes(screen, heading.as_slice());
    put_int_hex(screen, total_mem);
    put_char(screen, 0x0a);
    let start = mem_start_text();
    put_bytes(screen, start.as_slice());
    let pools = mem_pool_init(total_mem);
    let done = mem_done_text();
    put_bytes(screen, done.as_slice());
    proof {
        let h = memory_heading_msg();
        let x = hex_digits(total_mem as nat);
        let n = seq![0x0au8];
        lemma_chars_step_single(chars_step(s0, h + x), 0x0a);
        lemma_chars_step_concat(s0, h, x);
        lemma_chars_step_concat(s0, h + x, n);
        lemma_chars_step_concat(s0, h + x + n, mem_start_msg());
        lemma_chars_step_concat(s0, h + x + n + mem_start_msg(), mem_done_msg());
    }
    let r = KernelMemory { pools, tables, kernel_page_directory_paddr, total_mem };
    proof {
        assert forall|i: int|
            0 <= i < r.pools.vir_ker_pool.vir_bitmap.total() && !r.pools.vir_ker_pool.vir_bitmap@[i]
                implies !r.tables.is_mapped(#[trigger] r.pools.vir_ker_pool.page_addr(i) as u32) by {
            assert(r.pools.vir_ker_pool.page_addr(i) == KERNEL_DYNAMIC_START + i * 4096);
        }
    }
    r
}

/// A 32-bit x86 page directory: 1024 entries, occupying one page.
pub struct PageDirectory {
    pub entries: Vec<u32>,
}

/// Errors that can occur while creating a user page directory.
#[derive(Debug, Clone, Copy, PartialEq, Eq)]
pub enum PageDirectoryCreateError {
    /// A kernel page could not be allocated for the new page directory.
    KernelPageAllocationFailed,
}

/// The CR3 value that activates a user page directory living at kernel
/// address `page_directory`, or, for `None`, the kernel's own page
/// directory saved at boot. (Loading it into CR3 is left to the caller.)
pub fn activate_page_directory(mem: &KernelMemory, page_directory: Option<u32>) -> (r: u32)
    requires
        mem.tables.wf(),
        page_directory matches Some(v) ==> mem.tables.translate(v) is Some,
        page_directory is None ==> mem.kernel_page_directory_paddr != 0,
    ensures
        page_directory matches Some(v) ==> r == mem.tables.translate(v)->0 & PAGE_ENTRY_ADDRESS_MASK,
        page_directory is None ==> r == mem.kernel_page_directory_paddr,
{
    match page_directory {
        Some(v) => {
            let p = active_virtual_to_physical(&mem.tables, v);
            match p {
                Some(p) => p & PAGE_ENTRY_ADDRESS_MASK,
                None => {
                    proof {
                        assert(false);
                    }
                    0
                },
            }
        },
        None => mem.kernel_page_directory_paddr,
    }
}

/// The entries of a new user page directory whose own frame is at
/// `paddr`: no user entries, the kernel entries of `current`, and a last
/// entry that maps the directory onto itself, supervisor-only.
pub open spec fn user_directory_entries(current: Seq<u32>, paddr: u32) -> Seq<u32> {
    Seq::new(
        1024,
        |i: int|
            if i < KERNEL_PDE_START {
                0u32
            } else if i < RECURSIVE_PDE_INDEX {
                current[i]
            } else {
                make_entry(paddr, PAGE_KERNEL_RW)
            },
    )
}

proof fn lemma_kernel_rw_entry_bits(p: u32)
    by (bit_vector)
    ensures
        ((p & 0xffff_f000u32) | 3u32) & 0xffff_f000u32 == p & 0xffff_f000u32,
        ((p & 0xffff_f000u32) | 3u32) & 1u32 == 1u32,
        ((p & 0xffff_f000u32) | 3u32) & 2u32 == 2u32,
        ((p & 0xffff_f000u32) | 3u32) & 4u32 == 0u32,
{
}

/// A new user page directory gives the user no mapping at all: its entries
/// 0 to 767 (the lower 3 GiB) are 0, whatever the current directory maps
/// there; entries 768 to 1022 (the kernel's upper 1 GiB) are those of the
/// current directory; and entry 1023 maps the directory's own frame `paddr`
/// present, writable and supervisor-only.
pub proof fn lemma_user_directory_shape(current: Seq<u32>, paddr: u32)
    ensures
        user_directory_entries(current, paddr).len() == 1024,
        forall|i: int| 0 <= i < 768 ==> #[trigger] user_directory_entries(current, paddr)[i] == 0,
        forall|i: int| 768 <= i < 1023 ==> #[trigger] user_directory_entries(current, paddr)[i] == current[i],
        user_directory_entries(current, paddr)[1023] & 0xffff_f000 == paddr & 0xffff_f000,
        user_directory_entries(current, paddr)[1023] & 1 == 1,
        user_directory_entries(current, paddr)[1023] & 2 == 2,
        user_directory_entries(current, paddr)[1023] & 4 == 0,
{
    lemma_kernel_rw_entry_bits(paddr);
}

/// Allocates one kernel page for a new user address space and builds its
/// page directory: entries `[0, 768)` not present, entries `[768, 1023)`
/// shared with the active directory, entry 1023 a supervisor-only recursive
/// mapping of the directory's own frame. Returns the directory's kernel
/// address and contents. When no kernel page can be allocated the error is
/// returned and nothing has changed: that is when no kernel virtual page is
/// free, or fewer kernel frames are free than mapping the lowest free page
/// takes (one, and one more when its page table is missing).
#[verifier::rlimit(80)]
#[verifier::spinoff_prover]
pub fn create_user_page_directory(mem: &mut KernelMemory) -> (r: Result<(u32, PageDirectory), PageDirectoryCreateError>)
    requires
        old(mem).wf(),
    ensures
        final(mem).wf(),
        same_frame(*old(mem), *final(mem)),
        r is Err ==> {
            &&& final(mem).tables@ == old(mem).tables@
            &&& final(mem).phy_bits() == old(mem).phy_bits()
            &&& final(mem).vir_bits() == old(mem).vir_bits()
        },
        r is Ok <==> has_free_run(old(mem).vir_bits(), 1) && free_count(old(mem).phy_bits()) >= frames_needed(
            old(mem).tables.pd@,
            old(mem).pools.vir_ker_pool.page_addr(lowest_run(old(mem).vir_bits(), 1)) as u32,
            1,
        ),
        has_free_run(old(mem).vir_bits(), 1) && free_count(old(mem).phy_bits()) >= 2 ==> r is Ok,
        r matches Ok((v, dir)) ==> {
            &&& run_allocated(*old(mem), *final(mem), v, 1)
            &&& final(mem).phy_bits() == take_lowest(old(mem).phy_bits(), frames_needed(old(mem).tables.pd@, v, 1))
            &&& final(mem).tables.translate(v) == Some(run_frame(*final(mem), v, 0))
            &&& dir.entries@ == user_directory_entries(final(mem).tables.pd@, run_frame(*final(mem), v, 0))
            &&& dir.entries.len() == 1024
            &&& forall|i: int| 0 <= i < 768 ==> #[trigger] dir.entries@[i] == 0
            &&& forall|i: int| 768 <= i < 1023 ==> #[trigger] dir.entries@[i] == final(mem).tables.pd@[i]
            &&& dir.entries@[1023] & 0xffff_f000 == run_frame(*final(mem), v, 0) & 0xffff_f000
        },
{
    let ghost a = *mem;
    let raw_page = page_allocate(mem, 1, PF_KERNEL);
    let vaddr = match raw_page {
        None => {
            return Err(PageDirectoryCreateError::KernelPageAllocationFailed);
        },
        Some(v) => v,
    };
    proof {
        reveal(run_mapped);
        reveal(directory_grows);
        let f = run_frame(*mem, vaddr, 0);
        assert(f % 4096 == 0);
        assert(page_of_run(vaddr, 0) == vaddr);
        lemma_slot(vaddr);
        lemma_mask_low(vaddr);
        lemma_entry_bits(f, PAGE_KERNEL_RW);
        assert(vaddr % 4096 == 0);
        assert((vaddr & 0xfffu32) == 0);
        assert(f | 0u32 == f) by (bit_vector);
        assert(3u32 & 1 == 1) by (bit_vector);
        assert(mem.tables.is_mapped(vaddr));
    }
    let ghost pd0 = mem.tables.pd@;
    let page_directory_paddr = match active_virtual_to_physical(&mem.tables, vaddr) {
        Some(p) => p,
        None => {
            proof {
                assert(false);
            }
            0
        },
    };
    let mut entries: Vec<u32> = Vec::new();
    let mut i: usize = 0;
    while i < PAGE_DIRECTORY_ENTRY_COUNT
        invariant
            mem.tables.wf(),
            i <= 1024,
            entries.len() == i,
            forall|k: int|
                0 <= k < i ==> entries@[k] == user_directory_entries(pd0, page_directory_paddr)[k],
            mem.tables.pd@ == pd0,
        decreases 1024 - i,
    {
        if i < KERNEL_PDE_START {
            entries.push(0);
        } else if i < RECURSIVE_PDE_INDEX {
            entries.push(mem.tables.pd[i]);
        } else {
            entries.push((page_directory_paddr & PAGE_ENTRY_ADDRESS_MASK) | PAGE_KERNEL_RW);
        }
        i = i + 1;
    }
    proof {
        lemma_user_directory_shape(mem.tables.pd@, run_frame(*mem, vaddr, 0));
        assert(entries@ =~= user_directory_entries(mem.tables.pd@, run_frame(*mem, vaddr, 0)));
    }
    Ok((vaddr, PageDirectory { entries }))
}

} // verus!
