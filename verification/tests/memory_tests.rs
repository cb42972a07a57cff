use rcore_os::config::{KERNEL_STACK_SIZE, MAX_SYSCALL_NUM, PAGE_SIZE, TRAMPOLINE, TRAP_CONTEXT_BASE};
use rcore_os::mm::{MemorySet, VirtAddr, PERM_R, PERM_U, PERM_W, PTE_V};
use rcore_os::syscall::process::{sys_mmap, sys_munmap, sys_sbrk};
use rcore_os::task::task::{kernel_stack_position, TaskControlBlock, TaskStatus};

const HEAP: usize = 0x20000;

const TRAP_VPN: usize = 0x7ff_fffe;

fn app_space(first_ppn: usize) -> MemorySet {
    let mut ms = MemorySet::new(0x8_0000, first_ppn);
    ms.insert_framed_area(
        VirtAddr::from_usize(TRAP_CONTEXT_BASE),
        VirtAddr::from_usize(TRAMPOLINE),
        PERM_R | PERM_W,
    );
    ms.insert_framed_area(VirtAddr(HEAP), VirtAddr(HEAP), PERM_R | PERM_W | PERM_U);
    ms
}

fn task_with_heap() -> TaskControlBlock {
    let mut kernel = MemorySet::new(0x100, 0x9000);
    TaskControlBlock::new(app_space(0x500), HEAP, 0x1000, 1, &mut kernel, 0x8020_1000, 0x8020_0000)
}

#[test]
fn virt_addr_pages() {
    assert_eq!(VirtAddr(0).ceil(), 0);
    assert_eq!(VirtAddr(0x1000).floor(), 1);
    assert_eq!(VirtAddr(0x1000).ceil(), 1);
    assert_eq!(VirtAddr(0x1001).floor(), 1);
    assert_eq!(VirtAddr(0x1001).ceil(), 2);
    assert!(VirtAddr(0x3000).aligned());
    assert!(!VirtAddr(0x3004).aligned());
    assert_eq!(VirtAddr::from_usize(0x80_0000_1000), VirtAddr(0x1000));
    assert_eq!(VirtAddr::from_usize(0x7f_ffff_f000), VirtAddr(0x7f_ffff_f000));
}

#[test]
fn new_task_is_ready_with_an_empty_heap() {
    let t = task_with_heap();
    assert!(t.task_status == TaskStatus::Ready);
    assert_eq!(t.base_size, HEAP);
    assert_eq!(t.heap_bottom, HEAP);
    assert_eq!(t.program_brk, HEAP);
    assert_eq!(t.syscall_times.len(), MAX_SYSCALL_NUM);
    assert!(t.syscall_times.iter().all(|c| *c == 0));
    assert_eq!(t.task_cx.ra, 0x8020_0000);
    assert_eq!(t.task_cx.sp, TRAMPOLINE - (KERNEL_STACK_SIZE + PAGE_SIZE));
    assert_eq!(t.get_user_token(), (8usize << 60) | 0x8_0000);
}

#[test]
fn new_task_sets_up_trap_context_and_kernel_stack() {
    let mut kernel = MemorySet::new(0x100, 0x9000);
    let mut t = TaskControlBlock::new(app_space(0x500), HEAP, 0x1000, 2, &mut kernel, 0x8020_1000, 0x8020_0000);
    // the trap context page got the first frame of the pool
    assert_eq!(t.memory_set.frame_of(TRAP_VPN), Some(0x500));
    assert_eq!(t.trap_cx_ppn, 0x500);
    let top = TRAMPOLINE - 2 * (KERNEL_STACK_SIZE + PAGE_SIZE);
    {
        let cx = t.get_trap_cx();
        assert_eq!(cx.sepc, 0x1000);
        assert_eq!(cx.x[2], HEAP);
        assert_eq!(cx.x.len(), 32);
        assert!(cx.spp_user);
        assert_eq!(cx.kernel_sp, top);
        assert_eq!(cx.kernel_satp, (8usize << 60) | 0x100);
        assert_eq!(cx.trap_handler, 0x8020_1000);
        cx.x[10] = 7;
    }
    assert_eq!(t.trap_cx.x[10], 7);
    // the kernel stack is mapped readable and writable in the kernel space
    let stack_top_vpn = (top & 0x7f_ffff_ffff) / PAGE_SIZE;
    assert_eq!(kernel.translate(stack_top_vpn - 1), Some(PERM_R | PERM_W | PTE_V));
    assert_eq!(kernel.translate(stack_top_vpn - 2), Some(PERM_R | PERM_W | PTE_V));
    assert_eq!(kernel.translate(stack_top_vpn - 3), None);
    assert_eq!(kernel.translate(stack_top_vpn), None);
    assert_eq!(kernel.frame_of(stack_top_vpn - 2), Some(0x9000));
}

#[test]
fn kernel_stacks_lie_below_the_trampoline() {
    assert_eq!(kernel_stack_position(0), (TRAMPOLINE - KERNEL_STACK_SIZE, TRAMPOLINE));
    let (bottom, top) = kernel_stack_position(2);
    assert_eq!(top, TRAMPOLINE - 2 * (KERNEL_STACK_SIZE + PAGE_SIZE));
    assert_eq!(bottom, top - KERNEL_STACK_SIZE);
}

#[test]
fn mmap_maps_and_munmap_unmaps() {
    let mut t = task_with_heap();
    assert_eq!(sys_mmap(&mut t, 0x1000_0000, 0x2000, 3), 0);
    // frames 0x500 (trap context) and on are taken: the heap area has none
    assert_eq!(t.memory_set.frame_of(0x1_0000), Some(0x501));
    assert_eq!(t.memory_set.frame_of(0x1_0001), Some(0x502));
    assert!(t.vpn_readable(0x1_0000));
    assert!(t.vpn_writeable(0x1_0001));
    assert!(!t.vpn_readable(0x1_0002));
    assert_eq!(t.memory_set.translate(0x1_0000), Some(PERM_R | PERM_W | PERM_U | PTE_V));
    // the same range again overlaps
    assert_eq!(sys_mmap(&mut t, 0x1000_0000, 0x1000, 1), -1);
    assert_eq!(sys_munmap(&mut t, 0x1000_0000, 0x2000), 0);
    assert!(!t.vpn_readable(0x1_0000));
    assert_eq!(t.memory_set.translate(0x1_0001), None);
    // unmapping again finds nothing mapped
    assert_eq!(sys_munmap(&mut t, 0x1000_0000, 0x2000), -1);
    assert_eq!(t.memory_set.frame_of(0x1_0000), None);
    // the range can be mapped again
    assert_eq!(sys_mmap(&mut t, 0x1000_0000, 0x2000, 3), 0);
    assert_eq!(t.memory_set.frame_of(0x1_0000), Some(0x503));
}

#[test]
fn mmap_refuses_bad_arguments() {
    let mut t = task_with_heap();
    assert_eq!(sys_mmap(&mut t, 0x1000_0004, 0x1000, 3), -1);
    assert_eq!(sys_mmap(&mut t, 0x1000_0000, 0x1000, 0), -1);
    assert_eq!(sys_mmap(&mut t, 0x1000_0000, 0x1000, 8), -1);
    assert_eq!(t.memory_set.translate(0x1_0000), None);
    // a length that is not a whole number of pages maps the last page too
    assert_eq!(sys_mmap(&mut t, 0x1000_0000, 0x1001, 1), 0);
    assert!(t.vpn_readable(0x1_0001));
    assert!(!t.vpn_writeable(0x1_0001));
}

#[test]
fn munmap_refuses_unaligned_or_unmapped_ranges() {
    let mut t = task_with_heap();
    assert_eq!(sys_mmap(&mut t, 0x1000_0000, 0x1000, 2), 0);
    assert_eq!(sys_munmap(&mut t, 0x1000_0000, 0x800), -1);
    assert_eq!(sys_munmap(&mut t, 0x1000_0000, 0x2000), -1);
    assert!(t.vpn_writeable(0x1_0000));
}

#[test]
fn sbrk_grows_and_shrinks_the_heap() {
    let mut t = task_with_heap();
    assert_eq!(sys_sbrk(&mut t, 0x1800), HEAP as isize);
    assert_eq!(t.program_brk, HEAP + 0x1800);
    assert!(t.vpn_readable(0x20));
    assert!(t.vpn_writeable(0x21));
    assert!(!t.vpn_readable(0x22));
    assert_eq!(sys_sbrk(&mut t, -0x1000), (HEAP + 0x1800) as isize);
    assert_eq!(t.program_brk, HEAP + 0x800);
    assert!(t.vpn_readable(0x20));
    assert!(!t.vpn_readable(0x21));
    // below the heap bottom
    assert_eq!(sys_sbrk(&mut t, -0x1000), -1);
    assert_eq!(t.program_brk, HEAP + 0x800);
}

#[test]
fn sbrk_without_a_heap_area_fails() {
    let mut ms = MemorySet::new(1, 0x40);
    ms.insert_framed_area(
        VirtAddr::from_usize(TRAP_CONTEXT_BASE),
        VirtAddr::from_usize(TRAMPOLINE),
        PERM_R | PERM_W,
    );
    let mut kernel = MemorySet::new(0x100, 0x9000);
    let mut t = TaskControlBlock::new(ms, HEAP, 0, 0, &mut kernel, 0, 0);
    assert_eq!(sys_sbrk(&mut t, 0x1000), -1);
    assert_eq!(t.program_brk, HEAP);
}

#[test]
fn insert_framed_area_and_overlap_check() {
    let mut t = task_with_heap();
    assert!(t.vpn_no_overlap(VirtAddr(0x5000), VirtAddr(0x7000)));
    t.insert_framed_area(VirtAddr(0x5000), VirtAddr(0x6800), PERM_R | PERM_U);
    assert!(!t.vpn_no_overlap(VirtAddr(0x6000), VirtAddr(0x7000)));
    assert!(t.vpn_no_overlap(VirtAddr(0x7000), VirtAddr(0x8000)));
    assert!(t.vpn_readable(6));
    assert_eq!(t.unmap_user_area(VirtAddr(0x5000), VirtAddr(0x8000)), -1);
    assert_eq!(t.unmap_user_area(VirtAddr(0x5000), VirtAddr(0x7000)), 0);
    assert!(!t.vpn_readable(5));
}

#[test]
fn sbrk_up_then_down_restores_the_heap() {
    let mut t = task_with_heap();
    assert_eq!(sys_sbrk(&mut t, 0x2800), HEAP as isize);
    assert!(t.vpn_readable(0x22));
    assert_eq!(sys_sbrk(&mut t, -0x2800), (HEAP + 0x2800) as isize);
    assert_eq!(t.program_brk, HEAP);
    for vpn in 0x20..0x24 {
        assert!(!t.vpn_readable(vpn));
    }
    assert_eq!(sys_sbrk(&mut t, 0x1000), HEAP as isize);
    assert!(t.vpn_readable(0x20));
}

#[test]
fn mmap_and_munmap_leave_the_rest_of_the_task() {
    let mut t = task_with_heap();
    let status = t.task_status;
    let (base, bottom, brk) = (t.base_size, t.heap_bottom, t.program_brk);
    let (ppn, sepc) = (t.trap_cx_ppn, t.trap_cx.sepc);
    assert_eq!(sys_mmap(&mut t, 0x1000_0000, 0x1000, 3), 0);
    assert_eq!(sys_munmap(&mut t, 0x1000_0000, 0x1000), 0);
    assert_eq!(t.task_status, status);
    assert_eq!((t.base_size, t.heap_bottom, t.program_brk), (base, bottom, brk));
    assert_eq!((t.trap_cx_ppn, t.trap_cx.sepc), (ppn, sepc));
    assert_eq!(t.syscall_times.len(), MAX_SYSCALL_NUM);
}
