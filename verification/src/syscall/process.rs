//! Process system calls: memory mapping, the program break, priority,
//! waiting for children and the time.
use vstd::prelude::*;
use crate::config::{BIG_STRIDE, PAGE_SIZE};
use crate::mm::{
    VirtAddr, PERM_R, PERM_U, PERM_W, PERM_X, PTE_V, MapArea, sv39, frames_fit, frame_range, unframe_range, all_mapped, ceil_spec, floor_spec, map_range, none_mapped,
    unmap_range,
};
use crate::task::manager::StrideTask;
use crate::task::task::TaskControlBlock;

verus! {

/// Seconds and microseconds.
#[derive(PartialEq, Eq, Structural, Clone, Copy, Debug)]
pub struct TimeVal {
    pub sec: usize,
    pub usec: usize,
}

/// The `prot` argument of `mmap` names a permission: it is one of 1 to 7
/// (bit 0 readable, bit 1 writable, bit 2 executable).
pub open spec fn prot_valid(prot: usize) -> bool {
    1 <= prot <= 7
}

/// The map permission of a valid `prot`: its bits moved up by one, and
/// user access.
pub open spec fn prot_perm(prot: usize) -> u8 {
    ((2 * prot) as u8) | PERM_U
}

/// `start + len` fits in a `usize`, and when `mmap` gets as far as mapping
/// (aligned start, valid `prot`), the range it computes does not run
/// backwards (the Sv39 end address can wrap below the start) and the
/// task's frame pool has frames for it.
pub open spec fn mmap_fits(task: TaskControlBlock, start: usize, len: usize, prot: usize) -> bool {
    let lo = floor_spec(sv39(start as int));
    let hi = ceil_spec(sv39(start + len));
    &&& start + len <= usize::MAX
    &&& sv39(start as int) % PAGE_SIZE == 0 && prot_valid(prot) ==> {
        &&& lo <= hi
        &&& frames_fit(task.memory_set.next_frame(), lo, hi)
    }
}

/// Everything of the task but its address space stays as it was.
pub open spec fn outside_space_kept(old: TaskControlBlock, new: TaskControlBlock) -> bool {
    &&& new.task_cx == old.task_cx
    &&& new.trap_cx == old.trap_cx
    &&& new.trap_cx_ppn == old.trap_cx_ppn
    &&& new.task_status == old.task_status
    &&& new.base_size == old.base_size
    &&& new.heap_bottom == old.heap_bottom
    &&& new.program_brk == old.program_brk
    &&& new.syscall_times@ == old.syscall_times@
}

/// What `mmap(start, len, prot)` does. With `s` and `e` the Sv39 addresses
/// of `start` and `start + len`: -1, with the space unchanged, when `s` is
/// not page-aligned, `prot` is not one of 1 to 7, or a page of
/// `[floor(s), ceil(e))` is mapped; otherwise those pages are mapped, to
/// the next frames of the task's pool, with the permission that `prot`
/// names, an area is recorded for them, and the result is 0.
pub open spec fn mmap_post(old: TaskControlBlock, new: TaskControlBlock, start: usize, len: usize, prot: usize, r: isize) -> bool {
    let s = sv39(start as int);
    let e = sv39(start + len);
    let lo = floor_spec(s);
    let hi = ceil_spec(e);
    &&& outside_space_kept(old, new)
    &&& if s % PAGE_SIZE != 0 || !prot_valid(prot) || !none_mapped(old.memory_set.page_map(), lo, hi) {
        r == -1 && new.memory_set == old.memory_set
    } else {
        &&& r == 0
        &&& new.memory_set.page_map() == map_range(old.memory_set.page_map(), lo, hi, prot_perm(prot) | PTE_V)
        &&& new.memory_set.frame_map() == frame_range(
            old.memory_set.frame_map(),
            lo,
            hi,
            old.memory_set.next_frame() as int,
        )
        &&& new.memory_set.next_frame() == old.memory_set.next_frame() + (hi - lo)
        &&& new.memory_set.area_list() == old.memory_set.area_list().push(
            MapArea { start_vpn: lo as usize, end_vpn: hi as usize, perm: prot_perm(prot) },
        )
        &&& new.memory_set.root() == old.memory_set.root()
    }
}

/// What `munmap(start, len)` does. With `s` and `e` the Sv39 addresses of
/// `start` and `start + len`: -1, with the page table unchanged, when either
/// is not page-aligned or a page of `[floor(s), ceil(e))` is not mapped;
/// otherwise those pages and their frames are unmapped and the result is
/// 0. The areas, the root and the frame pool stay.
pub open spec fn munmap_post(old: TaskControlBlock, new: TaskControlBlock, start: usize, len: usize, r: isize) -> bool {
    let s = sv39(start as int);
    let e = sv39(start + len);
    &&& new.memory_set.area_list() == old.memory_set.area_list()
    &&& new.memory_set.root() == old.memory_set.root()
    &&& new.memory_set.next_frame() == old.memory_set.next_frame()
    &&& outside_space_kept(old, new)
    &&& if s % PAGE_SIZE != 0 || e % PAGE_SIZE != 0 || !all_mapped(old.memory_set.page_map(), floor_spec(s), ceil_spec(e)) {
        &&& r == -1
        &&& new.memory_set.page_map() == old.memory_set.page_map()
        &&& new.memory_set.frame_map() == old.memory_set.frame_map()
    } else {
        &&& r == 0
        &&& new.memory_set.page_map() == unmap_range(old.memory_set.page_map(), floor_spec(s), ceil_spec(e))
        &&& new.memory_set.frame_map() == unframe_range(old.memory_set.frame_map(), floor_spec(s), ceil_spec(e))
    }
}

/// `mmap` succeeds exactly when `start` is page-aligned, `prot` is one of
/// 1 to 7 and no page of the range is mapped. Then every page of the range
/// gets the access that `prot` names, bit by bit: readable exactly when bit
/// 0 of `prot` is set, writable exactly when bit 1 is, executable exactly
/// when bit 2 is, and always user-accessible and valid. A refused call
/// leaves the address space as it was.
pub proof fn lemma_mmap_grants_prot(
    old: TaskControlBlock,
    new: TaskControlBlock,
    start: usize,
    len: usize,
    prot: usize,
    r: isize,
)
    requires
        mmap_post(old, new, start, len, prot, r),
    ensures
        (r == 0) == (sv39(start as int) % PAGE_SIZE == 0 && 1 <= prot <= 7 && forall|v: usize|
            floor_spec(sv39(start as int)) <= v < ceil_spec(sv39(start + len))
                ==> !#[trigger] old.memory_set.page_map().contains_key(v)),
        r != 0 ==> r == -1 && new.memory_set == old.memory_set,
        r == 0 ==> forall|v: usize|
            floor_spec(sv39(start as int)) <= v < ceil_spec(sv39(start + len)) ==> {
                let f = #[trigger] new.memory_set.page_map()[v];
                &&& new.memory_set.page_map().contains_key(v)
                &&& (f & PERM_R != 0) == (prot & 1 != 0)
                &&& (f & PERM_W != 0) == (prot & 2 != 0)
                &&& (f & PERM_X != 0) == (prot & 4 != 0)
                &&& f & PERM_U != 0
                &&& f & PTE_V != 0
            },
        r == 0 ==> forall|v: usize|
            !(floor_spec(sv39(start as int)) <= v < ceil_spec(sv39(start + len))) ==> (
            #[trigger] new.memory_set.page_map().contains_key(v) == old.memory_set.page_map().contains_key(v)
                && (old.memory_set.page_map().contains_key(v) ==> new.memory_set.page_map()[v]
                == old.memory_set.page_map()[v])),
{
    if r == 0 {
        let f: u8 = ((2 * prot) as u8 | 16u8) | 1u8;
        assert(f == prot_perm(prot) | PTE_V);
        assert(1 <= prot <= 7 ==> {
            let g: u8 = ((2 * prot) as u8 | 16u8) | 1u8;
            &&& (g & 2u8 != 0) == (prot & 1usize != 0)
            &&& (g & 4u8 != 0) == (prot & 2usize != 0)
            &&& (g & 8u8 != 0) == (prot & 4usize != 0)
            &&& g & 16u8 != 0
            &&& g & 1u8 != 0
        }) by (bit_vector);
    }
}

/// `munmap` succeeds exactly when the start and the end are page-aligned
/// and every page of the range is mapped. Then no page of the range is
/// mapped any more, and every other page keeps its mapping; a refused call
/// leaves the page table as it was.
pub proof fn lemma_munmap_clears_range(
    old: TaskControlBlock,
    new: TaskControlBlock,
    start: usize,
    len: usize,
    r: isize,
)
    requires
        munmap_post(old, new, start, len, r),
    ensures
        (r == 0) == (sv39(start as int) % PAGE_SIZE == 0 && sv39(start + len) % PAGE_SIZE == 0 && forall|v: usize|
            floor_spec(sv39(start as int)) <= v < ceil_spec(sv39(start + len))
                ==> #[trigger] old.memory_set.page_map().contains_key(v)),
        r != 0 ==> r == -1 && new.memory_set.page_map() == old.memory_set.page_map(),
        r == 0 ==> forall|v: usize|
            floor_spec(sv39(start as int)) <= v < ceil_spec(sv39(start + len))
                ==> !#[trigger] new.memory_set.page_map().contains_key(v),
        r == 0 ==> forall|v: usize|
            !(floor_spec(sv39(start as int)) <= v < ceil_spec(sv39(start + len))) ==> (
            #[trigger] new.memory_set.page_map().contains_key(v) == old.memory_set.page_map().contains_key(v)
                && (old.memory_set.page_map().contains_key(v) ==> new.memory_set.page_map()[v]
                == old.memory_set.page_map()[v])),
{
}

/// After a successful `mmap(start, len, prot)` whose end is page-aligned,
/// `munmap(start, len)` succeeds and gives back the page table and its
/// frames as they were; no page of the range is mapped any more, and the
/// same `mmap` succeeds again.
pub proof fn lemma_munmap_undoes_mmap(
    t0: TaskControlBlock,
    t1: TaskControlBlock,
    t2: TaskControlBlock,
    start: usize,
    len: usize,
    prot: usize,
    r1: isize,
    r2: isize,
)
    requires
        t0.wf(),
        mmap_post(t0, t1, start, len, prot, r1),
        r1 == 0,
        sv39(start + len) % PAGE_SIZE == 0,
        munmap_post(t1, t2, start, len, r2),
    ensures
        r2 == 0,
        t2.memory_set.page_map() == t0.memory_set.page_map(),
        t2.memory_set.frame_map() == t0.memory_set.frame_map(),
        none_mapped(t2.memory_set.page_map(), floor_spec(sv39(start as int)), ceil_spec(sv39(start + len))),
        forall|t3: TaskControlBlock, r3: isize|
            #[trigger] mmap_post(t2, t3, start, len, prot, r3) ==> r3 == 0,
{
    let lo = floor_spec(sv39(start as int));
    let hi = ceil_spec(sv39(start + len));
    t0.memory_set.lemma_frames_cover_pages();
    assert(all_mapped(t1.memory_set.page_map(), lo, hi));
    assert(t2.memory_set.page_map() =~= t0.memory_set.page_map());
    assert(t2.memory_set.frame_map() =~= t0.memory_set.frame_map());
}

/// Maps `len` bytes from address `start` into the task's space with the
/// permission that `prot` names. -1 when `start` is not page-aligned, when
/// `prot` is not one of 1 to 7, or when a page of the range is already
/// mapped; 0 once the pages are mapped.
pub fn sys_mmap(task: &mut TaskControlBlock, start: usize, len: usize, prot: usize) -> (r: isize)
    requires
        old(task).wf(),
        mmap_fits(*old(task), start, len, prot),
    ensures
        final(task).wf(),
        mmap_post(*old(task), *final(task), start, len, prot, r),
{
    let start_va = VirtAddr::from_usize(start);
    if !start_va.aligned() {
        return -1;
    }
    let end_va = VirtAddr::from_usize(start + len);
    if ((prot & !0x7usize) != 0) || ((prot & 0x7usize) == 0) {
        proof {
            assert(((prot & !7usize) != 0 || (prot & 7usize) == 0) ==> !(1 <= prot <= 7))
                by (bit_vector);
        }
        return -1;
    }
    proof {
        assert(((prot & !7usize) == 0 && (prot & 7usize) != 0) ==> 1 <= prot <= 7) by (bit_vector);
    }
    let bits = (prot as u8) << 1u8;
    proof {
        let p8 = prot as u8;
        assert(p8 == prot);
        assert(1 <= p8 <= 7 ==> (p8 << 1u8) == 2 * p8) by (bit_vector);
    }
    let map_perm = bits | PERM_U;
    if !task.vpn_no_overlap(start_va, end_va) {
        return -1;
    }
    task.insert_framed_area(start_va, end_va, map_perm);
    0
}

/// Unmaps `len` bytes from address `start` out of the task's space. -1 when
/// the start or the end is not page-aligned, or when a page of the range is
/// not mapped (nothing is changed then); 0 once the pages are unmapped.
pub fn sys_munmap(task: &mut TaskControlBlock, start: usize, len: usize) -> (r: isize)
    requires
        old(task).wf(),
        start + len <= usize::MAX,
    ensures
        final(task).wf(),
        munmap_post(*old(task), *final(task), start, len, r),
{
    let start_va = VirtAddr::from_usize(start);
    if !start_va.aligned() {
        return -1;
    }
    let end_va = VirtAddr::from_usize(start + len);
    if !end_va.aligned() {
        return -1;
    }
    task.unmap_user_area(start_va, end_va)
}

/// Moves the program break of the task by `size` bytes and returns the old
/// break, or -1 when the break cannot move (see
/// [`TaskControlBlock::change_program_brk`]).
pub fn sys_sbrk(task: &mut TaskControlBlock, size: i32) -> (r: isize)
    requires
        old(task).wf(),
        old(task).brk_change_fits(size),
    ensures
        final(task).wf(),
        exists|res: Option<usize>|
            {
                &&& #[trigger] TaskControlBlock::brk_post(*old(task), *final(task), size, res)
                &&& r == match res {
                    Some(b) => b as isize,
                    None => -1isize,
                }
            },
{
    match task.change_program_brk(size) {
        Some(old_brk) => old_brk as isize,
        None => -1,
    }
}

/// Sets the task's priority: its pass becomes `BIG_STRIDE / prio` and the
/// call returns `prio`. A priority below 2 is refused with -1. No accepted
/// priority gives a pass above `BIG_STRIDE / 2`.
pub fn sys_set_priority(task: &mut StrideTask, prio: isize) -> (r: isize)
    ensures
        prio < 2 ==> r == -1 && *final(task) == *old(task),
        prio >= 2 ==> {
            &&& r == prio
            &&& final(task).pass == BIG_STRIDE / (prio as u64)
            &&& final(task).pass <= BIG_STRIDE / 2
            &&& final(task).id == old(task).id
            &&& final(task).stride == old(task).stride
        },
{
    if prio < 2 {
        return -1;
    }
    let pass: u64 = BIG_STRIDE / (prio as u64);
    proof {
        let d = prio as u64;
        assert(BIG_STRIDE / d <= BIG_STRIDE / 2) by (nonlinear_arith)
            requires
                d >= 2,
        ;
    }
    task.pass = pass;
    prio
}

/// A child process as its parent sees it.
#[derive(PartialEq, Eq, Structural, Clone, Copy, Debug)]
pub struct ChildProcess {
    pub pid: usize,
    pub is_zombie: bool,
    pub exit_code: i32,
}

/// The outcome of waiting for a child.
#[derive(PartialEq, Eq, Structural, Clone, Copy, Debug)]
pub enum WaitResult {
    /// No child matches: the call returns -1.
    NoChild,
    /// A child matches but none of the matching ones has exited: -2.
    NotExited,
    /// This child had exited and is now removed: the call returns its pid
    /// and stores its exit code.
    Reaped { pid: usize, exit_code: i32 },
}

impl WaitResult {
    /// What the system call returns.
    pub fn code(&self) -> (r: isize)
        ensures
            *self == WaitResult::NoChild ==> r == -1,
            *self == WaitResult::NotExited ==> r == -2,
            self matches WaitResult::Reaped { pid, .. } ==> r == pid as isize,
    {
        match self {
            WaitResult::NoChild => -1,
            WaitResult::NotExited => -2,
            WaitResult::Reaped { pid, .. } => *pid as isize,
        }
    }
}

/// Child `c` is one that `pid` asks for: -1 asks for any child.
pub open spec fn pid_matches(pid: isize, c: ChildProcess) -> bool {
    pid == -1 || pid as usize == c.pid
}

/// Index of the first child, from `i` on, that matches `pid` and has
/// exited.
pub open spec fn first_exited_from(s: Seq<ChildProcess>, pid: isize, i: int) -> Option<int>
    decreases s.len() - i,
{
    if i < 0 || i >= s.len() {
        None
    } else if s[i].is_zombie && pid_matches(pid, s[i]) {
        Some(i)
    } else {
        first_exited_from(s, pid, i + 1)
    }
}

/// What waiting for the child `pid` does to the children `old`, leaving
/// `new`: `NoChild` when no child matches; otherwise the first matching
/// child that has exited is removed and reaped, or `NotExited` when there
/// is none.
pub open spec fn waitpid_post(old: Seq<ChildProcess>, new: Seq<ChildProcess>, pid: isize, r: WaitResult) -> bool {
    &&& !(exists|k: int| 0 <= k < old.len() && pid_matches(pid, #[trigger] old[k])) ==> r
        == WaitResult::NoChild && new == old
    &&& (exists|k: int| 0 <= k < old.len() && pid_matches(pid, #[trigger] old[k])) ==> match first_exited_from(
        old,
        pid,
        0,
    ) {
        Some(i) => r == (WaitResult::Reaped { pid: old[i].pid, exit_code: old[i].exit_code }) && new
            == old.remove(i),
        None => r == WaitResult::NotExited && new == old,
    }
}

/// The first child from `i` on that was asked for by `pid` and had exited:
/// it lies in `s`, it had exited, its pid is `pid` unless `pid` is -1, and
/// no child before it from `i` on is such a one; with none found, no child
/// from `i` on is one.
pub proof fn lemma_first_exited(s: Seq<ChildProcess>, pid: isize, i: int)
    requires
        0 <= i,
    ensures
        first_exited_from(s, pid, i) matches Some(k) ==> {
            &&& i <= k < s.len()
            &&& s[k].is_zombie
            &&& (pid == -1 || s[k].pid == pid as usize)
            &&& forall|j: int|
                i <= j < k ==> !(#[trigger] s[j].is_zombie && (pid == -1 || s[j].pid == pid as usize))
        },
        first_exited_from(s, pid, i) is None ==> forall|j: int|
            i <= j < s.len() ==> !(#[trigger] s[j].is_zombie && (pid == -1 || s[j].pid == pid as usize)),
    decreases s.len() - i,
{
    if i < s.len() {
        lemma_first_exited(s, pid, i + 1);
    }
}

/// Waiting reaps only a child that was asked for and had exited. A reaped
/// child had exited and, unless `pid` is -1, has the pid asked for; every
/// child before it that was asked for was still running; it alone leaves
/// the list. `NoChild` comes exactly when no child has the pid asked for,
/// and `NotExited` only when some has and none of those had exited; both
/// leave the list as it was.
pub proof fn lemma_waitpid_reaps_asked_child(
    old: Seq<ChildProcess>,
    new: Seq<ChildProcess>,
    pid: isize,
    r: WaitResult,
)
    requires
        waitpid_post(old, new, pid, r),
    ensures
        r matches WaitResult::Reaped { pid: q, exit_code: e } ==> {
            &&& pid != -1 ==> q == pid as usize
            &&& exists|i: int|
                #![trigger old[i]]
                0 <= i < old.len() && old[i].pid == q && old[i].exit_code == e && old[i].is_zombie && new
                    == old.remove(i) && forall|j: int|
                    #![trigger old[j]]
                    0 <= j < i ==> !(old[j].is_zombie && (pid == -1 || old[j].pid == pid as usize))
        },
        r == WaitResult::NoChild <==> forall|k: int|
            #![trigger old[k]]
            0 <= k < old.len() ==> !(pid == -1 || old[k].pid == pid as usize),
        r == WaitResult::NoChild ==> new == old,
        r == WaitResult::NotExited ==> {
            &&& new == old
            &&& exists|k: int| #![trigger old[k]] 0 <= k < old.len() && (pid == -1 || old[k].pid == pid as usize)
            &&& forall|k: int|
                #![trigger old[k]]
                0 <= k < old.len() && (pid == -1 || old[k].pid == pid as usize) ==> !old[k].is_zombie
        },
{
    lemma_first_exited(old, pid, 0);
    if exists|k: int| 0 <= k < old.len() && pid_matches(pid, #[trigger] old[k]) {
        let k = choose|k: int| 0 <= k < old.len() && pid_matches(pid, #[trigger] old[k]);
        assert(pid == -1 || old[k].pid == pid as usize);
        if let Some(i) = first_exited_from(old, pid, 0) {
            assert(old[i].pid == old[i].pid);
        } else {
            assert forall|k: int|
                #![trigger old[k]]
                0 <= k < old.len() && (pid == -1 || old[k].pid == pid as usize) implies !old[k].is_zombie by {
                assert(!(old[k].is_zombie && (pid == -1 || old[k].pid == pid as usize)));
            }
        }
    } else {
        assert forall|k: int| #![trigger old[k]] 0 <= k < old.len() implies !(pid == -1 || old[k].pid == pid as usize) by {
            assert(!pid_matches(pid, old[k]));
        }
    }
}

/// Waits for the child `pid` (-1: any child). If no child matches, the
/// result is `NoChild`; if the first matching child that has exited is at
/// index `i`, it is removed and returned; otherwise `NotExited`.
pub fn sys_waitpid(children: &mut Vec<ChildProcess>, pid: isize) -> (r: WaitResult)
    ensures
        waitpid_post(old(children)@, final(children)@, pid, r),
{
    let mut any = false;
    let mut k: usize = 0;
    while k < children.len()
        invariant
            k <= children@.len(),
            children@ == old(children)@,
            any <==> exists|q: int| 0 <= q < k && pid_matches(pid, #[trigger] children@[q]),
        decreases children@.len() - k,
    {
        let hit = pid == -1 || pid as usize == children[k].pid;
        proof {
            assert(hit == pid_matches(pid, children@[k as int]));
            if !hit {
                assert forall|q: int| 0 <= q < k + 1 && pid_matches(pid, #[trigger] children@[q])
                    implies 0 <= q < k by {}
            }
        }
        if hit {
            any = true;
        }
        k += 1;
    }
    if !any {
        return WaitResult::NoChild;
    }
    let mut i: usize = 0;
    while i < children.len()
        invariant
            i <= children@.len(),
            children@ == old(children)@,
            first_exited_from(children@, pid, 0) == first_exited_from(children@, pid, i as int),
        decreases children@.len() - i,
    {
        let c = children[i];
        if c.is_zombie && (pid == -1 || pid as usize == c.pid) {
            let child = children.remove(i);
            return WaitResult::Reaped { pid: child.pid, exit_code: child.exit_code };
        }
        i += 1;
    }
    WaitResult::NotExited
}

/// The time `us` microseconds after boot, in seconds and microseconds.
pub fn time_val_from_us(us: usize) -> (r: TimeVal)
    ensures
        r.sec == us / 1_000_000,
        r.usec == us % 1_000_000,
{
    TimeVal { sec: us / 1_000_000, usec: us % 1_000_000 }
}

/// Reads the time for a user buffer of `buffer_pages` mapped pieces: `None`
/// (the call returns -1) when the buffer is not mapped at all; otherwise the
/// time `us` microseconds after boot, to be copied to the buffer (the call
/// returns 0).
pub fn sys_get_time(buffer_pages: usize, us: usize) -> (r: Option<TimeVal>)
    ensures
        buffer_pages == 0 ==> r is None,
        buffer_pages > 0 ==> r == Some(TimeVal { sec: us / 1_000_000, usec: us % 1_000_000 }),
{
    if buffer_pages == 0 {
        return None;
    }
    Some(time_val_from_us(us))
}

} // verus!
