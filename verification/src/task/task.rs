//! The task control block: a task's status, address space, heap and
//! system call counts.
use vstd::prelude::*;
use crate::config::{KERNEL_STACK_SIZE, MAX_SYSCALL_NUM, PAGE_SIZE, TRAMPOLINE, TRAP_CONTEXT_BASE};
use crate::mm::{
    MapArea, MemorySet, VirtAddr, PERM_R, PERM_U, PERM_W, PTE_V, all_mapped, area_from, area_starting_at,
    lemma_append_maps_with_area_perm,
    ceil_spec, floor_spec, frame_range, frames_fit, map_range, none_mapped, sv39, unframe_range,
    unmap_range,
};

verus! {

/// The status of a task.
#[derive(PartialEq, Eq, Structural, Clone, Copy, Debug)]
pub enum TaskStatus {
    /// Not yet set up.
    UnInit,
    /// Ready to run.
    Ready,
    /// Running.
    Running,
    /// Exited.
    Exited,
}

/// The registers a task switch saves: where to return, and the kernel
/// stack pointer.
#[derive(PartialEq, Eq, Structural, Clone, Copy, Debug)]
pub struct TaskContext {
    pub ra: usize,
    pub sp: usize,
}

impl TaskContext {
    /// A context that starts at `trap_return` on the kernel stack whose top
    /// is `kstack_ptr`.
    pub fn goto_trap_return(trap_return: usize, kstack_ptr: usize) -> (r: Self)
        ensures
            r.ra == trap_return,
            r.sp == kstack_ptr,
    {
        TaskContext { ra: trap_return, sp: kstack_ptr }
    }
}

/// The registers saved on a trap: the general registers, whether the trap
/// came from user mode, the return address, and what the trap handler
/// needs of the kernel (its page table, its stack, its own address).
pub struct TrapContext {
    pub x: Vec<usize>,
    pub spp_user: bool,
    pub sepc: usize,
    pub kernel_satp: usize,
    pub kernel_sp: usize,
    pub trap_handler: usize,
}

impl TrapContext {
    /// The context in which an application starts: all registers zero but
    /// the stack pointer `sp`, user mode, execution from `entry`.
    pub fn app_init_context(
        entry: usize,
        sp: usize,
        kernel_satp: usize,
        kernel_sp: usize,
        trap_handler: usize,
    ) -> (r: Self)
        ensures
            r.x@.len() == 32,
            r.x@[2] == sp,
            forall|i: int| 0 <= i < 32 && i != 2 ==> r.x@[i] == 0,
            r.spp_user,
            r.sepc == entry,
            r.kernel_satp == kernel_satp,
            r.kernel_sp == kernel_sp,
            r.trap_handler == trap_handler,
    {
        let mut x: Vec<usize> = Vec::new();
        let mut i: usize = 0;
        while i < 32
            invariant
                i <= 32,
                x@.len() == i,
                forall|k: int| 0 <= k < i ==> x@[k] == 0,
            decreases 32 - i,
        {
            x.push(0);
            i += 1;
        }
        x.set(2, sp);
        TrapContext { x, spp_user: true, sepc: entry, kernel_satp, kernel_sp, trap_handler }
    }
}

/// The page of the trap context in every application's space.
pub open spec fn trap_context_vpn() -> int {
    floor_spec(sv39(TRAP_CONTEXT_BASE as int))
}

/// The kernel stack of application `app_id` fits below the trampoline.
pub open spec fn kernel_stack_fits(app_id: usize) -> bool {
    app_id * (KERNEL_STACK_SIZE + PAGE_SIZE) + KERNEL_STACK_SIZE <= TRAMPOLINE
}

/// Bottom and top of the kernel stack of application `app_id`: the stacks
/// lie below the trampoline, each followed by a guard page.
pub fn kernel_stack_position(app_id: usize) -> (r: (usize, usize))
    requires
        kernel_stack_fits(app_id),
    ensures
        r.1 == TRAMPOLINE - app_id * (KERNEL_STACK_SIZE + PAGE_SIZE),
        r.0 == r.1 - KERNEL_STACK_SIZE,
{
    let top = TRAMPOLINE - app_id * (KERNEL_STACK_SIZE + PAGE_SIZE);
    let bottom = top - KERNEL_STACK_SIZE;
    (bottom, top)
}

/// The task control block of a task.
pub struct TaskControlBlock {
    /// Saved registers of the task.
    pub task_cx: TaskContext,
    /// Status of the task.
    pub task_status: TaskStatus,
    /// Address space of the task.
    pub memory_set: MemorySet,
    /// Frame of the task's trap context.
    pub trap_cx_ppn: usize,
    /// The trap context held in that frame.
    pub trap_cx: TrapContext,
    /// Top of the program that was loaded (the initial user stack top).
    pub base_size: usize,
    /// Bottom of the heap.
    pub heap_bottom: usize,
    /// Program break: the end of the heap.
    pub program_brk: usize,
    /// How many times the task made each system call.
    pub syscall_times: Vec<u32>,
}

impl TaskControlBlock {
    /// The address space is consistent and every system call has a count.
    pub open spec fn wf(&self) -> bool {
        &&& self.memory_set.wf()
        &&& self.syscall_times@.len() == MAX_SYSCALL_NUM
        &&& self.trap_cx.x@.len() == 32
    }

    /// Application `app_id`'s kernel stack can be mapped into
    /// `kernel_space`: its Sv39 page range does not run backwards, none of
    /// its pages is mapped, and the pool has frames for them.
    pub open spec fn kernel_stack_mappable(kernel_space: MemorySet, app_id: usize) -> bool {
        let top = TRAMPOLINE - app_id * (KERNEL_STACK_SIZE + PAGE_SIZE);
        let bottom = top - KERNEL_STACK_SIZE;
        let lo = floor_spec(sv39(bottom));
        let hi = ceil_spec(sv39(top));
        &&& lo <= hi
        &&& none_mapped(kernel_space.page_map(), lo, hi)
        &&& frames_fit(kernel_space.next_frame(), lo, hi)
    }

    /// A ready task of application `app_id`, given what loading its image
    /// gave: the address space `memory_set`, the user stack top `user_sp`
    /// and the entry point `entry_point`. Its heap is empty at `user_sp`.
    /// Its kernel stack is mapped readable and writable into
    /// `kernel_space`; its context returns to `trap_return` on that stack.
    /// Its trap context lives in the frame of the trap context page and
    /// starts the application at `entry_point` on `user_sp` in user mode,
    /// with the kernel's token, the kernel stack top and `trap_handler`.
    pub fn new(
        memory_set: MemorySet,
        user_sp: usize,
        entry_point: usize,
        app_id: usize,
        kernel_space: &mut MemorySet,
        trap_handler: usize,
        trap_return: usize,
    ) -> (r: Self)
        requires
            memory_set.wf(),
            memory_set.frame_map().contains_key(trap_context_vpn() as usize),
            old(kernel_space).wf(),
            kernel_stack_fits(app_id),
            Self::kernel_stack_mappable(*old(kernel_space), app_id),
        ensures
            r.wf(),
            r.task_status == TaskStatus::Ready,
            r.memory_set == memory_set,
            r.trap_cx_ppn == memory_set.frame_map()[trap_context_vpn() as usize],
            ({
                let top = TRAMPOLINE - app_id * (KERNEL_STACK_SIZE + PAGE_SIZE);
                let bottom = top - KERNEL_STACK_SIZE;
                let lo = floor_spec(sv39(bottom));
                let hi = ceil_spec(sv39(top));
                &&& r.task_cx.ra == trap_return
                &&& r.task_cx.sp == top
                &&& final(kernel_space).wf()
                &&& final(kernel_space).root() == old(kernel_space).root()
                &&& final(kernel_space).page_map() == map_range(
                    old(kernel_space).page_map(),
                    lo,
                    hi,
                    PERM_R | PERM_W | PTE_V,
                )
                &&& final(kernel_space).frame_map() == frame_range(
                    old(kernel_space).frame_map(),
                    lo,
                    hi,
                    old(kernel_space).next_frame() as int,
                )
                &&& final(kernel_space).next_frame() == old(kernel_space).next_frame() + (hi - lo)
                &&& final(kernel_space).area_list() == old(kernel_space).area_list().push(
                    MapArea { start_vpn: lo as usize, end_vpn: hi as usize, perm: PERM_R | PERM_W },
                )
                &&& r.trap_cx.x@[2] == user_sp
                &&& forall|i: int| 0 <= i < 32 && i != 2 ==> r.trap_cx.x@[i] == 0
                &&& r.trap_cx.spp_user
                &&& r.trap_cx.sepc == entry_point
                &&& r.trap_cx.kernel_satp == ((8u64 << 60u64) as usize) | old(kernel_space).root()
                &&& r.trap_cx.kernel_sp == top
                &&& r.trap_cx.trap_handler == trap_handler
            }),
            r.base_size == user_sp,
            r.heap_bottom == user_sp,
            r.program_brk == user_sp,
            forall|i: int| 0 <= i < MAX_SYSCALL_NUM ==> r.syscall_times@[i] == 0,
    {
        let trap_va = VirtAddr::from_usize(TRAP_CONTEXT_BASE);
        let trap_cx_ppn = match memory_set.frame_of(trap_va.floor()) {
            Some(ppn) => ppn,
            None => 0,
        };
        let (kernel_stack_bottom, kernel_stack_top) = kernel_stack_position(app_id);
        kernel_space.insert_framed_area(
            VirtAddr::from_usize(kernel_stack_bottom),
            VirtAddr::from_usize(kernel_stack_top),
            PERM_R | PERM_W,
        );
        let mut syscall_times: Vec<u32> = Vec::new();
        let mut i: usize = 0;
        while i < MAX_SYSCALL_NUM
            invariant
                i <= MAX_SYSCALL_NUM,
                syscall_times@.len() == i,
                forall|k: int| 0 <= k < i ==> syscall_times@[k] == 0,
            decreases MAX_SYSCALL_NUM - i,
        {
            syscall_times.push(0);
            i += 1;
        }
        let trap_cx = TrapContext::app_init_context(
            entry_point,
            user_sp,
            kernel_space.token(),
            kernel_stack_top,
            trap_handler,
        );
        TaskControlBlock {
            task_cx: TaskContext::goto_trap_return(trap_return, kernel_stack_top),
            task_status: TaskStatus::Ready,
            memory_set,
            trap_cx_ppn,
            trap_cx,
            base_size: user_sp,
            heap_bottom: user_sp,
            program_brk: user_sp,
            syscall_times,
        }
    }

    /// The task's trap context, to read or change.
    pub fn get_trap_cx(&mut self) -> (r: &mut TrapContext)
        ensures
            *r == old(self).trap_cx,
            final(self).trap_cx == *final(r),
            final(self).trap_cx_ppn == old(self).trap_cx_ppn,
            final(self).memory_set == old(self).memory_set,
            final(self).task_cx == old(self).task_cx,
            final(self).task_status == old(self).task_status,
            final(self).base_size == old(self).base_size,
            final(self).heap_bottom == old(self).heap_bottom,
            final(self).program_brk == old(self).program_brk,
            final(self).syscall_times@ == old(self).syscall_times@,
    {
        &mut self.trap_cx
    }

    /// The token of the task's address space.
    pub fn get_user_token(&self) -> (r: usize)
        ensures
            r == ((8u64 << 60u64) as usize) | self.memory_set.root(),
    {
        self.memory_set.token()
    }

    /// The program break after a change by `size`, computed on `isize`
    /// (a break above `isize::MAX` reads as negative).
    pub open spec fn new_brk(&self, size: i32) -> int {
        self.program_brk as isize as int + size as int
    }

    /// A change of the program break by `size` stays in `isize` and, when
    /// the new break is at or above the heap bottom, the heap area can be
    /// cut down or grown to it.
    pub open spec fn brk_change_fits(&self, size: i32) -> bool {
        let nb = self.new_brk(size);
        &&& isize::MIN <= nb <= isize::MAX
        &&& nb >= self.heap_bottom as isize as int ==> {
            &&& size < 0 ==> self.memory_set.can_shrink(
                VirtAddr(self.heap_bottom),
                VirtAddr(nb as isize as usize),
            )
            &&& size >= 0 ==> self.memory_set.can_append(
                VirtAddr(self.heap_bottom),
                VirtAddr(nb as isize as usize),
            )
        }
    }

    /// What moving the program break by `size` does. When the new break
    /// lies below the heap bottom, nothing changes and the result is `None`.
    /// Otherwise the heap area is cut down (for a negative `size`) or grown
    /// to the new break; if it exists, the break moves and the old break is
    /// returned, else the result is `None`.
    pub open spec fn brk_post(old: Self, new: Self, size: i32, r: Option<usize>) -> bool {
        let nb = old.new_brk(size);
        let start = VirtAddr(old.heap_bottom);
        let end = VirtAddr(nb as isize as usize);
        &&& new.task_cx == old.task_cx
        &&& new.trap_cx == old.trap_cx
        &&& new.trap_cx_ppn == old.trap_cx_ppn
        &&& new.task_status == old.task_status
        &&& new.base_size == old.base_size
        &&& new.heap_bottom == old.heap_bottom
        &&& new.syscall_times@ == old.syscall_times@
        &&& if nb < old.heap_bottom as isize as int {
            r is None && new.memory_set == old.memory_set && new.program_brk == old.program_brk
        } else {
            &&& size < 0 ==> MemorySet::shrink_post(old.memory_set, new.memory_set, start, end, r is Some)
            &&& size >= 0 ==> MemorySet::append_post(old.memory_set, new.memory_set, start, end, r is Some)
            &&& r is Some ==> r == Some(old.program_brk) && new.program_brk == nb as isize as usize
            &&& r is None ==> new.program_brk == old.program_brk
        }
    }

    /// Moves the program break by `size` bytes and returns the old break.
    /// `None`, with nothing changed, when the new break would lie below the
    /// heap bottom or no heap area starts at the heap bottom's page.
    pub fn change_program_brk(&mut self, size: i32) -> (r: Option<usize>)
        requires
            old(self).wf(),
            old(self).brk_change_fits(size),
        ensures
            final(self).wf(),
            Self::brk_post(*old(self), *final(self), size, r),
    {
        let old_break = self.program_brk;
        let new_brk = self.program_brk as isize + size as isize;
        if new_brk < self.heap_bottom as isize {
            return None;
        }
        let result = if size < 0 {
            self.memory_set.shrink_to(VirtAddr(self.heap_bottom), VirtAddr(new_brk as usize))
        } else {
            self.memory_set.append_to(VirtAddr(self.heap_bottom), VirtAddr(new_brk as usize))
        };
        if result {
            self.program_brk = new_brk as usize;
            Some(old_break)
        } else {
            None
        }
    }

    /// Whether page `vpn` is mapped readable.
    pub fn vpn_readable(&self, vpn: usize) -> (r: bool)
        requires
            self.wf(),
        ensures
            r == (self.memory_set.page_map().contains_key(vpn) && self.memory_set.page_map()[vpn]
                & PERM_R != 0),
    {
        if let Some(flags) = self.memory_set.translate(vpn) {
            return flags & PERM_R != 0;
        } else {
            return false;
        }
    }

    /// Whether page `vpn` is mapped writable.
    pub fn vpn_writeable(&self, vpn: usize) -> (r: bool)
        requires
            self.wf(),
        ensures
            r == (self.memory_set.page_map().contains_key(vpn) && self.memory_set.page_map()[vpn]
                & PERM_W != 0),
    {
        if let Some(flags) = self.memory_set.translate(vpn) {
            return flags & PERM_W != 0;
        } else {
            return false;
        }
    }

    /// Maps the pages of `[start_va, end_va)` into the task's space with
    /// permission `permission`.
    pub fn insert_framed_area(&mut self, start_va: VirtAddr, end_va: VirtAddr, permission: u8)
        requires
            old(self).wf(),
            floor_spec(start_va.0) <= ceil_spec(end_va.0),
            none_mapped(old(self).memory_set.page_map(), floor_spec(start_va.0), ceil_spec(end_va.0)),
            frames_fit(old(self).memory_set.next_frame(), floor_spec(start_va.0), ceil_spec(end_va.0)),
        ensures
            final(self).wf(),
            final(self).memory_set.root() == old(self).memory_set.root(),
            final(self).memory_set.page_map() == map_range(
                old(self).memory_set.page_map(),
                floor_spec(start_va.0),
                ceil_spec(end_va.0),
                permission | PTE_V,
            ),
            final(self).memory_set.frame_map() == frame_range(
                old(self).memory_set.frame_map(),
                floor_spec(start_va.0),
                ceil_spec(end_va.0),
                old(self).memory_set.next_frame() as int,
            ),
            final(self).memory_set.next_frame() == old(self).memory_set.next_frame() + (ceil_spec(
                end_va.0,
            ) - floor_spec(start_va.0)),
            final(self).memory_set.area_list() == old(self).memory_set.area_list().push(
                crate::mm::MapArea {
                    start_vpn: floor_spec(start_va.0) as usize,
                    end_vpn: ceil_spec(end_va.0) as usize,
                    perm: permission,
                },
            ),
            final(self).task_cx == old(self).task_cx,
            final(self).trap_cx == old(self).trap_cx,
            final(self).trap_cx_ppn == old(self).trap_cx_ppn,
            final(self).task_status == old(self).task_status,
            final(self).base_size == old(self).base_size,
            final(self).heap_bottom == old(self).heap_bottom,
            final(self).program_brk == old(self).program_brk,
            final(self).syscall_times@ == old(self).syscall_times@,
    {
        self.memory_set.insert_framed_area(start_va, end_va, permission);
    }

    /// Whether no page of `[start_va, end_va)` is mapped in the task's
    /// space.
    pub fn vpn_no_overlap(&self, start_va: VirtAddr, end_va: VirtAddr) -> (r: bool)
        requires
            self.wf(),
        ensures
            r == none_mapped(self.memory_set.page_map(), floor_spec(start_va.0), ceil_spec(end_va.0)),
    {
        self.memory_set.vpn_no_overlap(start_va, end_va)
    }

    /// Unmaps the pages of `[start_va, end_va)` from the task's space: 0
    /// when all of them were mapped, -1 (with nothing changed) otherwise.
    pub fn unmap_user_area(&mut self, start_va: VirtAddr, end_va: VirtAddr) -> (r: isize)
        requires
            old(self).wf(),
        ensures
            final(self).wf(),
            final(self).memory_set.root() == old(self).memory_set.root(),
            final(self).memory_set.area_list() == old(self).memory_set.area_list(),
            final(self).memory_set.next_frame() == old(self).memory_set.next_frame(),
            all_mapped(old(self).memory_set.page_map(), floor_spec(start_va.0), ceil_spec(end_va.0))
                ==> r == 0 && final(self).memory_set.page_map() == unmap_range(
                old(self).memory_set.page_map(),
                floor_spec(start_va.0),
                ceil_spec(end_va.0),
            ) && final(self).memory_set.frame_map() == unframe_range(
                old(self).memory_set.frame_map(),
                floor_spec(start_va.0),
                ceil_spec(end_va.0),
            ),
            !all_mapped(old(self).memory_set.page_map(), floor_spec(start_va.0), ceil_spec(end_va.0))
                ==> r == -1 && final(self).memory_set.page_map() == old(self).memory_set.page_map()
                && final(self).memory_set.frame_map() == old(self).memory_set.frame_map(),
            final(self).task_cx == old(self).task_cx,
            final(self).trap_cx == old(self).trap_cx,
            final(self).trap_cx_ppn == old(self).trap_cx_ppn,
            final(self).task_status == old(self).task_status,
            final(self).base_size == old(self).base_size,
            final(self).heap_bottom == old(self).heap_bottom,
            final(self).program_brk == old(self).program_brk,
            final(self).syscall_times@ == old(self).syscall_times@,
    {
        self.memory_set.unmap_user_area(start_va, end_va)
    }
}

/// Changing the end of an area keeps where areas start, so the search for
/// an area by its first page finds the same one.
pub proof fn lemma_area_from_update(s: Seq<MapArea>, i: int, a: MapArea, vpn: int, k: int)
    requires
        0 <= i < s.len(),
        a.start_vpn == s[i].start_vpn,
    ensures
        area_from(s.update(i, a), vpn, k) == area_from(s, vpn, k),
    decreases s.len() - k,
{
    if 0 <= k < s.len() {
        lemma_area_from_update(s, i, a, vpn, k + 1);
    }
}

/// Moving the program break up by `size` and then down by `size` gives back
/// the break, the page table and the areas, when the heap area ends at the
/// break's page.
pub proof fn lemma_brk_grow_then_shrink_restores(
    t0: TaskControlBlock,
    t1: TaskControlBlock,
    t2: TaskControlBlock,
    size: i32,
    r1: Option<usize>,
    r2: Option<usize>,
)
    requires
        t0.wf(),
        size > 0,
        t0.heap_bottom <= t0.program_brk,
        t0.program_brk + size <= isize::MAX,
        t0.brk_change_fits(size),
        area_starting_at(t0.memory_set.area_list(), floor_spec(t0.heap_bottom)) matches Some(i)
            && t0.memory_set.area_list()[i].end_vpn == ceil_spec(t0.program_brk),
        TaskControlBlock::brk_post(t0, t1, size, r1),
        TaskControlBlock::brk_post(t1, t2, (-size) as i32, r2),
    ensures
        r1 == Some(t0.program_brk),
        r2 == Some((t0.program_brk + size) as usize),
        t2.program_brk == t0.program_brk,
        t2.memory_set.page_map() == t0.memory_set.page_map(),
        t2.memory_set.frame_map() == t0.memory_set.frame_map(),
        t2.memory_set.area_list() == t0.memory_set.area_list(),
{
    t0.memory_set.lemma_frames_cover_pages();
    let pb = t0.program_brk;
    let nb = (pb + size) as usize;
    let start = VirtAddr(t0.heap_bottom);
    let i = area_starting_at(t0.memory_set.area_list(), floor_spec(t0.heap_bottom))->0;
    crate::mm::lemma_area_from_in_range(t0.memory_set.area_list(), floor_spec(t0.heap_bottom), 0);
    let a = t0.memory_set.area_list()[i];
    assert(t0.new_brk(size) == nb);
    assert(r1 is Some);
    assert(t1.program_brk == nb);
    let a1 = MapArea { end_vpn: ceil_spec(nb) as usize, ..a };
    lemma_area_from_update(t0.memory_set.area_list(), i, a1, floor_spec(t0.heap_bottom), 0);
    assert(t1.memory_set.area_list() == t0.memory_set.area_list().update(i, a1));
    assert(area_starting_at(t1.memory_set.area_list(), floor_spec(t0.heap_bottom)) == Some(i));
    assert(t1.new_brk((-size) as i32) == pb);
    assert(r2 is Some);
    assert(t2.memory_set.area_list() =~= t0.memory_set.area_list());
    assert(t2.memory_set.page_map() =~= t0.memory_set.page_map());
    assert(t2.memory_set.frame_map() =~= t0.memory_set.frame_map());
}

/// Moving the program break by `n` and then by `-n`, when both moves
/// succeed, gives back the break: the second move returns the break the
/// first one set, and the heap bottom stays.
pub proof fn lemma_brk_change_undone(
    t0: TaskControlBlock,
    t1: TaskControlBlock,
    t2: TaskControlBlock,
    n: i32,
    b: usize,
    c: usize,
)
    requires
        n != i32::MIN,
        t0.brk_change_fits(n),
        TaskControlBlock::brk_post(t0, t1, n, Some(b)),
        TaskControlBlock::brk_post(t1, t2, (-n) as i32, Some(c)),
    ensures
        b == t0.program_brk,
        c == (b as isize + n as isize) as usize,
        t2.program_brk == t0.program_brk,
        t2.heap_bottom == t0.heap_bottom,
{
    let pb = t0.program_brk;
    let nb = t0.new_brk(n);
    assert(isize::MIN <= nb <= isize::MAX);
    let x = nb as isize;
    assert(t1.program_brk == x as usize);
    assert((x as usize) as isize == x) by (bit_vector);
    assert(t1.new_brk((-n) as i32) == x as int - n as int);
    assert((pb as isize) as usize == pb) by (bit_vector);
}


/// Growing the heap by `size >= 0` returns the old break, and each page it
/// maps carries exactly the heap area's own permission plus the valid bit:
/// the heap area (the first area that starts at the heap bottom's page)
/// keeps its permission and now ends at the new break's page, so a user
/// heap stays user memory. No other page changes, and the heap bottom
/// stays.
pub proof fn lemma_sbrk_grow_keeps_heap_perm(t0: TaskControlBlock, t1: TaskControlBlock, size: i32, b: usize)
    requires
        TaskControlBlock::brk_post(t0, t1, size, Some(b)),
        size >= 0,
    ensures
        b == t0.program_brk,
        t1.heap_bottom == t0.heap_bottom,
        exists|i: int|
            #![trigger t0.memory_set.area_list()[i]]
            0 <= i < t0.memory_set.area_list().len() && t0.memory_set.area_list()[i].start_vpn == floor_spec(
                t0.heap_bottom,
            ) && {
                let a = t0.memory_set.area_list()[i];
                let hi = ceil_spec(t1.program_brk);
                &&& t1.memory_set.area_list()[i].perm == a.perm
                &&& t1.memory_set.area_list()[i].end_vpn == hi
                &&& forall|v: usize|
                    a.end_vpn <= v < hi ==> {
                        &&& #[trigger] t1.memory_set.page_map().contains_key(v)
                        &&& t1.memory_set.page_map()[v] == a.perm | PTE_V
                        &&& (a.perm & PERM_U != 0 ==> t1.memory_set.page_map()[v] & PERM_U != 0)
                    }
                &&& forall|v: usize|
                    !(a.end_vpn <= v < hi) ==> (#[trigger] t1.memory_set.page_map().contains_key(v)
                        == t0.memory_set.page_map().contains_key(v) && (t0.memory_set.page_map().contains_key(v)
                        ==> t1.memory_set.page_map()[v] == t0.memory_set.page_map()[v]))
            },
{
    let nb = t0.new_brk(size);
    lemma_append_maps_with_area_perm(
        t0.memory_set,
        t1.memory_set,
        VirtAddr(t0.heap_bottom),
        VirtAddr(nb as isize as usize),
    );
}

} // verus!
