//! Constants of the kernel.
use vstd::prelude::*;

verus! {

/// Stack size of a user application.
pub const USER_STACK_SIZE: usize = 4096 * 2;
/// Stack size of a task in the kernel.
pub const KERNEL_STACK_SIZE: usize = 4096 * 2;
/// Size of the kernel heap.
pub const KERNEL_HEAP_SIZE: usize = 0x200_0000;
/// Size of a page: 4 KiB.
pub const PAGE_SIZE: usize = 0x1000;
/// Number of bits of the offset inside a page.
pub const PAGE_SIZE_BITS: usize = 0xc;
/// Virtual address of the trampoline page, the highest page.
pub const TRAMPOLINE: usize = usize::MAX - PAGE_SIZE + 1;
/// Virtual address of the trap context page, just below the trampoline.
pub const TRAP_CONTEXT_BASE: usize = TRAMPOLINE - PAGE_SIZE;
/// Clock frequency.
pub const CLOCK_FREQ: usize = 12500000;
/// End of physical memory.
pub const MEMORY_END: usize = 0x88000000;
/// Number of system call ids whose use is counted per task.
pub const MAX_SYSCALL_NUM: usize = 500;
/// Largest stride value.
pub const STRIDE_MAX: u64 = 0xffff_ffff_ffff_ffff;
/// The stride unit: a task of priority `p` advances by `BIG_STRIDE / p`.
pub const BIG_STRIDE: u64 = 0x1fff_ffff_ffff_ffff;
/// Priority of a new task.
pub const TASK_INIT_PRIORITY: u64 = 16;

} // verus!
