use kernel::bitmap::{init_bitmap, Bitmap};
use kernel::vga::Screen;
use kernel::list::{
    list_alloc, list_append_back, list_append_front, list_find, list_init, list_is_empty, list_pop,
    list_pushback, list_pushfront, list_remove, list_rotate_backward, list_rotate_forward, ListArena,
};
use kernel::memory::{
    activate_page_directory, active_virtual_to_physical, create_user_page_directory, get_pde,
    get_pte, mem_init, mem_pool_init, page_align_down, page_align_up, page_allocate, page_register,
    phy_allocate, phy_release, vir_allocate, KernelMemory, MemoryLayout, PageTables, PF_KERNEL,
    PF_USER,
};

fn memory() -> KernelMemory {
    mem_init(&mut Screen::new(), 0x0010_0003, 0x0200_0000, PageTables::new())
}

fn members(a: &ListArena, head: usize) -> Vec<usize> {
    let mut v = Vec::new();
    let mut p = a.nodes[head].next;
    while p != head {
        v.push(p);
        p = a.nodes[p].next;
    }
    v
}

fn members_backward(a: &ListArena, head: usize) -> Vec<usize> {
    let mut v = Vec::new();
    let mut p = a.nodes[head].prev;
    while p != head {
        v.push(p);
        p = a.nodes[p].prev;
    }
    v
}

#[test]
fn bitmap_bits_set_and_clear() {
    let mut b = Bitmap::new(2);
    assert!(!b.test(3));
    assert_eq!(b.set_one(3), 0);
    assert!(b.test(3));
    assert_eq!(b.bits[0], 0x08);
    assert_eq!(b.set_one(9), 0);
    assert_eq!(b.bits[1], 0x02);
    assert_eq!(b.clear_one(3), 0);
    assert!(!b.test(3));
    assert_eq!(b.bits[0], 0);
    assert_eq!(b.set_one(16), -1);
    assert_eq!(b.clear_one(16), -1);
    assert!(!b.test(16));
}

#[test]
fn set_bits_takes_the_first_free_run() {
    let mut b = Bitmap::new(2);
    assert_eq!(b.set_bits(3), 0);
    assert_eq!(b.bits[0], 0x07);
    b.set_one(5);
    assert_eq!(b.set_bits(3), 6);
    assert_eq!(b.set_bits(2), 3);
    assert_eq!(b.bits[0], 0xff);
    assert_eq!(b.bits[1], 0x01);
}

#[test]
fn set_bits_fails_without_room() {
    let mut b = Bitmap::new(1);
    assert_eq!(b.set_bits(0), -1);
    assert_eq!(b.set_bits(9), -1);
    assert_eq!(b.set_bits(8), 0);
    assert_eq!(b.set_bits(1), -1);
    assert_eq!(b.bits[0], 0xff);
}

#[test]
fn init_bitmap_clears_everything() {
    let mut b = Bitmap::new(3);
    b.set_bits(20);
    init_bitmap(&mut b);
    assert!(b.bits.iter().all(|&x| x == 0));
}

#[test]
fn list_push_and_pop_in_order() {
    let mut a = ListArena::new();
    let h = list_alloc(&mut a);
    let x = list_alloc(&mut a);
    let y = list_alloc(&mut a);
    let z = list_alloc(&mut a);
    assert!(list_is_empty(&a, h));
    list_pushback(&mut a, x, h);
    list_pushback(&mut a, y, h);
    list_pushfront(&mut a, z, h);
    assert_eq!(members(&a, h), vec![z, x, y]);
    assert_eq!(members_backward(&a, h), vec![y, x, z]);
    assert!(list_find(&a, h, y));
    assert_eq!(list_pop(&mut a, h), Some(z));
    assert_eq!(list_pop(&mut a, h), Some(x));
    assert!(!list_find(&a, h, x));
    assert_eq!(list_pop(&mut a, h), Some(y));
    assert_eq!(list_pop(&mut a, h), None);
    assert!(list_is_empty(&a, h));
}

#[test]
fn list_remove_and_init() {
    let mut a = ListArena::new();
    let h = list_alloc(&mut a);
    let x = list_alloc(&mut a);
    let y = list_alloc(&mut a);
    list_pushback(&mut a, x, h);
    list_pushback(&mut a, y, h);
    list_remove(&mut a, x);
    assert_eq!(members(&a, h), vec![y]);
    assert_eq!(a.nodes[x].next, x);
    assert_eq!(a.nodes[x].prev, x);
    let k = list_alloc(&mut a);
    list_init(&mut a, k);
    assert!(list_is_empty(&a, k));
}

#[test]
fn list_rotation() {
    let mut a = ListArena::new();
    let h = list_alloc(&mut a);
    let n: Vec<usize> = (0..4).map(|_| list_alloc(&mut a)).collect();
    for &m in &n {
        list_pushback(&mut a, m, h);
    }
    list_rotate_forward(&mut a, h);
    assert_eq!(members(&a, h), vec![n[1], n[2], n[3], n[0]]);
    list_rotate_backward(&mut a, h);
    assert_eq!(members(&a, h), n);
    list_rotate_backward(&mut a, h);
    assert_eq!(members(&a, h), vec![n[3], n[0], n[1], n[2]]);
    let e = list_alloc(&mut a);
    list_rotate_forward(&mut a, e);
    assert!(list_is_empty(&a, e));
}

#[test]
fn list_append_splices_whole_lists() {
    let mut a = ListArena::new();
    let d = list_alloc(&mut a);
    let s = list_alloc(&mut a);
    let n: Vec<usize> = (0..4).map(|_| list_alloc(&mut a)).collect();
    list_pushback(&mut a, n[0], d);
    list_pushback(&mut a, n[1], d);
    list_pushback(&mut a, n[2], s);
    list_pushback(&mut a, n[3], s);
    list_append_back(&mut a, d, s);
    assert_eq!(members(&a, d), vec![n[0], n[1], n[2], n[3]]);
    assert!(list_is_empty(&a, s));
    list_remove(&mut a, n[2]);
    list_remove(&mut a, n[3]);
    list_pushback(&mut a, n[2], s);
    list_pushback(&mut a, n[3], s);
    list_append_front(&mut a, d, s);
    assert_eq!(members(&a, d), vec![n[2], n[3], n[0], n[1]]);
    assert_eq!(members_backward(&a, d), vec![n[1], n[0], n[3], n[2]]);
    assert!(list_is_empty(&a, s));
}

#[test]
fn address_fields() {
    assert_eq!(get_pde(0xc010_0000), 768);
    assert_eq!(get_pte(0xc010_1000), 0x101);
    assert_eq!(get_pde(0xffff_ffff), 1023);
    assert_eq!(get_pte(0xffff_ffff), 1023);
    assert_eq!(page_align_up(1), 4096);
    assert_eq!(page_align_up(4096), 4096);
    assert_eq!(page_align_up(0xffff_f000), 0xffff_f000);
    assert_eq!(page_align_up(0xffff_e001), 0xffff_f000);
    assert_eq!(page_align_up(0), 0);
    assert_eq!(page_align_down(4097), 4096);
    assert_eq!(page_align_down(4095), 0);
}

#[test]
fn layout_for_32_mib() {
    let l = MemoryLayout::from_total_memory(0x0200_0000);
    assert_eq!(l.kernel_physical_start, 0x0020_0000);
    assert_eq!(l.kernel_physical_size, 0x00f0_0000);
    assert_eq!(l.user_physical_start, 0x0110_0000);
    assert_eq!(l.user_physical_size, 0x00f0_0000);
    assert_eq!(l.kernel_bitmap_bytes, 480);
    assert_eq!(l.user_bitmap_bytes, 480);
    assert_eq!(l.kernel_physical_bitmap, 0xc009_a000);
    assert_eq!(l.user_physical_bitmap, 0xc009_a1e0);
    assert_eq!(l.kernel_virtual_bitmap, 0xc009_a3c0);
}

#[test]
fn odd_sized_memory_gives_user_the_larger_half() {
    let l = MemoryLayout::from_total_memory(0x0200_1000);
    assert_eq!(l.kernel_physical_size, 0x00f0_0800);
    assert_eq!(l.user_physical_size, 0x00f0_0800);
    let l = MemoryLayout::from_total_memory(0x0200_0001);
    assert_eq!(l.kernel_physical_size, 0x00f0_0000);
    assert_eq!(l.user_physical_size, 0x00f0_0001);
}

#[test]
fn pools_start_empty() {
    let p = mem_pool_init(0x0200_0000);
    assert_eq!(p.phy_ker_pool.addr_start, 0x0020_0000);
    assert_eq!(p.vir_ker_pool.addr_start, 0xc010_0000);
    assert_eq!(p.vir_usr_pool.vir_bitmap.byte_size, 0);
    assert!(p.phy_ker_pool.phy_bitmap.bits.iter().all(|&b| b == 0));
}

#[test]
fn virtual_and_physical_allocation() {
    let mut p = mem_pool_init(0x0200_0000);
    assert_eq!(vir_allocate(&mut p, 2, PF_KERNEL), Some(0xc010_0000));
    assert_eq!(vir_allocate(&mut p, 1, PF_KERNEL), Some(0xc010_2000));
    assert_eq!(vir_allocate(&mut p, 0, PF_KERNEL), None);
    assert_eq!(vir_allocate(&mut p, 1, PF_USER), None);
    assert_eq!(vir_allocate(&mut p, 4000, PF_KERNEL), None);
    assert_eq!(phy_allocate(&mut p.phy_ker_pool), Some(0x0020_0000));
    assert_eq!(phy_allocate(&mut p.phy_ker_pool), Some(0x0020_1000));
    phy_release(&mut p.phy_ker_pool, 0x0020_0000);
    assert_eq!(phy_allocate(&mut p.phy_ker_pool), Some(0x0020_0000));
    phy_release(&mut p.phy_ker_pool, 0x0020_0800);
    phy_release(&mut p.phy_ker_pool, 0);
    phy_release(&mut p.phy_ker_pool, 0x1000);
    assert_eq!(phy_allocate(&mut p.phy_ker_pool), Some(0x0020_2000));
}

#[test]
fn page_register_maps_a_page() {
    let mut tables = PageTables::new();
    let mut p = mem_pool_init(0x0200_0000);
    assert!(page_register(&mut tables, &mut p.phy_ker_pool, 0x0040_0000, 0x0030_0000, 3));
    assert_eq!(tables.pd[1], 0x0020_0003);
    assert_eq!(active_virtual_to_physical(&tables, 0x0040_0123), Some(0x0030_0123));
    assert!(!page_register(&mut tables, &mut p.phy_ker_pool, 0x0040_0000, 0x0030_1000, 3));
    assert!(!page_register(&mut tables, &mut p.phy_ker_pool, 0x0040_0001, 0x0030_1000, 3));
    assert!(!page_register(&mut tables, &mut p.phy_ker_pool, 0, 0x0030_1000, 3));
    assert!(!page_register(&mut tables, &mut p.phy_ker_pool, 0x0040_1000, 0x0030_1000, 2));
    assert!(page_register(&mut tables, &mut p.phy_ker_pool, 0x0040_1000, 0x0030_1000, 7));
    assert_eq!(active_virtual_to_physical(&tables, 0x0040_1fff), Some(0x0030_1fff));
    assert_eq!(active_virtual_to_physical(&tables, 0x0040_2000), None);
}

#[test]
fn page_allocate_maps_fresh_frames() {
    let mut m = memory();
    let v = page_allocate(&mut m, 2, PF_KERNEL).unwrap();
    assert_eq!(v, 0xc010_0000);
    assert_eq!(active_virtual_to_physical(&m.tables, v), Some(0x0020_0000));
    assert_eq!(active_virtual_to_physical(&m.tables, v + 0x1000), Some(0x0020_2000));
    assert_eq!(m.tables.pd[768], 0x0020_1003);
    assert_eq!(page_allocate(&mut m, 1, PF_KERNEL), Some(0xc010_2000));
    assert_eq!(active_virtual_to_physical(&m.tables, 0xc010_2000), Some(0x0020_3000));
}

#[test]
fn page_allocate_refuses_bad_requests() {
    let mut m = memory();
    assert_eq!(page_allocate(&mut m, 0, PF_KERNEL), None);
    assert_eq!(page_allocate(&mut m, 1, PF_USER), None);
    assert_eq!(page_allocate(&mut m, 3841, PF_KERNEL), None);
    assert_eq!(page_allocate(&mut m, 1, PF_KERNEL), Some(0xc010_0000));
}

#[test]
fn page_directories() {
    let mut m = memory();
    assert_eq!(activate_page_directory(&m, None), 0x0010_0000);
    let (v, dir) = create_user_page_directory(&mut m).unwrap();
    assert_eq!(v, 0xc010_0000);
    assert_eq!(dir.entries.len(), 1024);
    assert!(dir.entries[..768].iter().all(|&e| e == 0));
    assert_eq!(dir.entries[768], m.tables.pd[768]);
    assert_eq!(dir.entries[1023], 0x0020_0003);
    assert_eq!(activate_page_directory(&m, Some(v)), 0x0020_0000);
}

#[test]
fn page_allocate_rolls_back_when_frames_run_out() {
    let mut m = memory();
    for b in m.pools.phy_ker_pool.phy_bitmap.bits.iter_mut() {
        *b = 0xff;
    }
    m.pools.phy_ker_pool.phy_bitmap.bits[0] = 0xfc;
    assert_eq!(page_allocate(&mut m, 2, PF_KERNEL), None);
    assert_eq!(active_virtual_to_physical(&m.tables, 0xc010_0000), None);
    assert_eq!(m.pools.phy_ker_pool.phy_bitmap.bits[0], 0xfe);
    assert!(m.pools.vir_ker_pool.vir_bitmap.bits.iter().all(|&b| b == 0));
    assert_eq!(m.tables.pd[768], 0x0020_1003);
    assert_eq!(page_allocate(&mut m, 1, PF_KERNEL), Some(0xc010_0000));
    assert_eq!(active_virtual_to_physical(&m.tables, 0xc010_0000), Some(0x0020_0000));
}

#[test]
fn page_allocate_succeeds_with_exactly_the_frames_needed() {
    let mut m = memory();
    for b in m.pools.phy_ker_pool.phy_bitmap.bits.iter_mut() {
        *b = 0xff;
    }
    m.pools.phy_ker_pool.phy_bitmap.bits[0] = 0xf8;
    assert_eq!(page_allocate(&mut m, 2, PF_KERNEL), Some(0xc010_0000));
    assert_eq!(m.tables.pd[768], 0x0020_1003);
    assert_eq!(active_virtual_to_physical(&m.tables, 0xc010_1000), Some(0x0020_2000));
    assert_eq!(m.pools.phy_ker_pool.phy_bitmap.bits[0], 0xff);
    assert_eq!(page_allocate(&mut m, 1, PF_KERNEL), None);
}

#[test]
fn pools_for_64_mib_keep_their_bitmap_addresses() {
    let p = mem_pool_init(0x0400_0000);
    assert_eq!(p.phy_ker_pool.addr_start, 0x0020_0000);
    assert_eq!(p.phy_ker_pool.pool_size, 0x01f0_0000);
    assert_eq!(p.phy_ker_pool.phy_bitmap.byte_size, 992);
    assert_eq!(p.phy_ker_pool.bitmap_addr, 0xc009_a000);
    assert_eq!(p.phy_usr_pool.addr_start, 0x0210_0000);
    assert_eq!(p.phy_usr_pool.pool_size, 0x01f0_0000);
    assert_eq!(p.phy_usr_pool.phy_bitmap.byte_size, 992);
    assert_eq!(p.phy_usr_pool.bitmap_addr, 0xc009_a3e0);
    assert_eq!(p.vir_ker_pool.addr_start, 0xc010_0000);
    assert_eq!(p.vir_ker_pool.vir_bitmap.byte_size, 992);
    assert_eq!(p.vir_ker_pool.bitmap_addr, 0xc009_a7c0);
    assert_eq!(p.vir_usr_pool.bitmap_addr, 0);
    assert_eq!(p.vir_usr_pool.vir_bitmap.byte_size, 0);
}

#[test]
fn mem_init_reports_the_memory_size() {
    let mut screen = Screen::new();
    let m = mem_init(&mut screen, 0x0001_0000, 0x0400_0000, PageTables::new());
    assert_eq!(m.total_mem, 0x0400_0000);
    assert_eq!(m.kernel_page_directory_paddr, 0x0001_0000);
    let rows: Vec<String> = (0..4)
        .map(|r| String::from_utf8(screen.cells[r * 80..r * 80 + 80].to_vec()).unwrap().trim_end().to_string())
        .collect();
    assert_eq!(rows, vec!["the total memory is:", "4000000", "mem_init start", "mem_init done"]);
    assert_eq!(screen.cursor, 320);
}
