//! The synchronisation state of a process: its mutexes, semaphores and
//! condition variables, and the tables on which deadlock detection works.
//!
//! Blocking, waking and yielding are the scheduler's work: the operations
//! here change the state and say, by a [`SyncAction`], what the caller must
//! then do with the current task.
use vstd::prelude::*;
use crate::banker::{
    Tables, lemma_held_sum_empty, lemma_held_sum_nonneg, lemma_held_sum_push, lemma_missing_index_shorter,
    lemma_stuck_is_unsafe,
};

verus! {

/// What the caller of a synchronisation operation does next.
#[derive(PartialEq, Eq, Structural, Clone, Copy, Debug)]
pub enum SyncAction {
    /// The system call returns this value at once.
    Done(isize),
    /// The current task blocks; the call returns 0 once it is woken.
    Block,
    /// The current task yields and then issues the same call again.
    Yield,
    /// The task with this id is woken; the call then returns 0.
    Wake(usize),
}

/// A resource that deadlock detection keeps track of.
#[derive(PartialEq, Eq, Structural, Clone, Copy, Debug)]
pub enum ShareResourceType {
    ShareMutex(usize),
    ShareSemaphore(usize),
}

/// A mutex: a spinning one makes a waiter yield and retry, a blocking one
/// queues it.
pub struct MutexState {
    pub blocking: bool,
    pub locked: bool,
    pub wait_queue: Vec<usize>,
}

/// A counting semaphore with the tasks that wait on it.
pub struct SemaphoreState {
    pub count: isize,
    pub wait_queue: Vec<usize>,
}

/// A condition variable with the tasks that wait on it.
pub struct CondvarState {
    pub wait_queue: Vec<usize>,
}

impl MutexState {
    /// An unlocked mutex with nobody waiting.
    pub fn new(blocking: bool) -> (r: Self)
        ensures
            r.blocking == blocking,
            !r.locked,
            r.wait_queue@.len() == 0,
    {
        MutexState { blocking, locked: false, wait_queue: Vec::new() }
    }
}

impl SemaphoreState {
    /// A semaphore that counts `count` with nobody waiting.
    pub fn new(count: isize) -> (r: Self)
        ensures
            r.count == count,
            r.wait_queue@.len() == 0,
    {
        SemaphoreState { count, wait_queue: Vec::new() }
    }
}

impl CondvarState {
    /// A condition variable with nobody waiting.
    pub fn new() -> (r: Self)
        ensures
            r.wait_queue@.len() == 0,
    {
        CondvarState { wait_queue: Vec::new() }
    }
}

/// Index of the first occurrence of `r` in `s` at or after `i`.
pub open spec fn find_from(s: Seq<ShareResourceType>, r: ShareResourceType, i: int) -> Option<int>
    decreases s.len() - i,
{
    if i < 0 || i >= s.len() {
        None
    } else if s[i] == r {
        Some(i)
    } else {
        find_from(s, r, i + 1)
    }
}

/// Index of the first occurrence of `r` in `s`.
pub open spec fn resource_index(s: Seq<ShareResourceType>, r: ShareResourceType) -> Option<int> {
    find_from(s, r, 0)
}

/// Index of the first empty slot of a list of optional objects.
pub open spec fn first_free_from<T>(s: Seq<Option<T>>, i: int) -> Option<int>
    decreases s.len() - i,
{
    if i < 0 || i >= s.len() {
        None
    } else if s[i] is None {
        Some(i)
    } else {
        first_free_from(s, i + 1)
    }
}

/// Index of the first empty slot of a list of optional objects.
pub open spec fn first_free<T>(s: Seq<Option<T>>) -> Option<int> {
    first_free_from(s, 0)
}

/// A first empty slot found from `i` lies in the list and is empty.
pub proof fn lemma_first_free_in_range<T>(s: Seq<Option<T>>, i: int)
    ensures
        first_free_from(s, i) matches Some(k) ==> i <= k < s.len() && s[k] is None,
    decreases s.len() - i,
{
    if 0 <= i < s.len() && s[i] is Some {
        lemma_first_free_in_range(s, i + 1);
    }
}

/// A first index found from `i` holds `r`, lies in the sequence, and no
/// earlier index from `i` holds `r`; with no index from `i` holding `r`,
/// nothing is found.
pub proof fn lemma_find_from_found(s: Seq<ShareResourceType>, r: ShareResourceType, i: int)
    requires
        0 <= i,
    ensures
        find_from(s, r, i) matches Some(k) ==> i <= k < s.len() && s[k] == r && (s.no_duplicates()
            ==> forall|j: int| 0 <= j < s.len() && #[trigger] s[j] == r ==> j == k),
        find_from(s, r, i) is None ==> forall|j: int| i <= j < s.len() ==> #[trigger] s[j] != r,
    decreases s.len() - i,
{
    if i < s.len() && s[i] != r {
        lemma_find_from_found(s, r, i + 1);
    }
}

/// A row of a table as integers.
pub open spec fn row_view(r: Vec<isize>) -> Seq<int> {
    r@.map_values(|x: isize| x as int)
}

/// A table as integers.
pub open spec fn table_view(t: Seq<Vec<isize>>) -> Seq<Seq<int>> {
    t.map_values(|r: Vec<isize>| row_view(r))
}

/// The free amounts as integers.
pub open spec fn amounts_view(a: Seq<isize>) -> Seq<int> {
    a.map_values(|x: isize| x as int)
}

/// Every entry of the tables fits in an `isize`.
pub open spec fn table_fits(t: Tables) -> bool {
    &&& forall|j: int| 0 <= j < t.available.len() ==> isize::MIN <= #[trigger] t.available[j] <= isize::MAX
    &&& forall|i: int, j: int|
        0 <= i < t.need.len() && 0 <= j < t.available.len() ==> {
            &&& #[trigger] t.allocation[i][j] <= isize::MAX
            &&& t.need[i][j] <= isize::MAX
        }
}

/// Giving task `tid` what it asks for keeps every entry in an `isize`.
pub open spec fn grant_fits(t: Tables, tid: int) -> bool {
    forall|j: int|
        0 <= j < t.num_resources() ==> {
            &&& #[trigger] t.allocation[tid][j] + t.need[tid][j] <= isize::MAX
            &&& isize::MIN <= t.available[j] - t.need[tid][j]
        }
}

/// The synchronisation state of one process.
pub struct ProcessSync {
    pub mutex_list: Vec<Option<MutexState>>,
    pub semaphore_list: Vec<Option<SemaphoreState>>,
    pub condvar_list: Vec<Option<CondvarState>>,
    /// The resource that each column of the tables stands for.
    pub share_resources: Vec<ShareResourceType>,
    pub resource_available: Vec<isize>,
    pub resource_allocation: Vec<Vec<isize>>,
    pub resource_need: Vec<Vec<isize>>,
    /// Tasks that wait for a resource under deadlock detection, first first.
    pub resource_wait_queue: Vec<usize>,
    pub enable_deadlock_detect: bool,
    /// Number of tasks of the process.
    pub task_count: usize,
}

impl ProcessSync {
    /// The resource tables as integers.
    pub open spec fn tables(&self) -> Tables {
        Tables {
            available: amounts_view(self.resource_available@),
            allocation: table_view(self.resource_allocation@),
            need: table_view(self.resource_need@),
        }
    }

    /// The tables are consistent: one column per shared resource, one entry
    /// per resource in every row, no negative holding or request; each
    /// resource has one column, for a slot that exists; every waiting task
    /// has a row.
    pub open spec fn wf(&self) -> bool {
        &&& self.share_resources.len() == self.resource_available.len()
        &&& self.tables().wf()
        &&& self.task_count > 0
        &&& self.resource_allocation.len() == 0 ==> self.share_resources.len() == 0
        &&& self.resources_distinct()
        &&& self.waiters_have_rows()
    }

    /// The slot that resource `r` stands for is in its list.
    pub open spec fn slot_exists(&self, r: ShareResourceType) -> bool {
        match r {
            ShareResourceType::ShareMutex(m) => m < self.mutex_list@.len(),
            ShareResourceType::ShareSemaphore(s) => s < self.semaphore_list@.len(),
        }
    }

    /// No resource has two columns, and each column stands for a slot that
    /// exists.
    pub open spec fn resources_distinct(&self) -> bool {
        &&& self.share_resources@.no_duplicates()
        &&& forall|k: int|
            0 <= k < self.share_resources@.len() ==> self.slot_exists(#[trigger] self.share_resources@[k])
    }

    /// Every task that waits for a resource has a row in the tables.
    pub open spec fn waiters_have_rows(&self) -> bool {
        forall|i: int|
            0 <= i < self.resource_wait_queue@.len() ==> #[trigger] self.resource_wait_queue@[i]
                < self.tables().num_tasks()
    }

    /// The column found for `r` is the only one that stands for it, and a
    /// resource whose slot is past the end of its list has none.
    pub proof fn lemma_resource_index_only(&self, r: ShareResourceType)
        requires
            self.wf(),
        ensures
            resource_index(self.share_resources@, r) matches Some(k) ==> forall|j: int|
                0 <= j < self.share_resources@.len() && #[trigger] self.share_resources@[j] == r ==> j == k,
            !self.slot_exists(r) ==> resource_index(self.share_resources@, r) is None,
    {
        lemma_find_from_found(self.share_resources@, r, 0);
    }

    /// How the tables relate to the vectors that hold them.
    pub proof fn lemma_tables_view(&self)
        ensures
            self.tables().available.len() == self.resource_available@.len(),
            self.tables().need.len() == self.resource_need@.len(),
            self.tables().allocation.len() == self.resource_allocation@.len(),
            forall|j: int|
                0 <= j < self.resource_available@.len() ==> #[trigger] self.tables().available[j]
                    == self.resource_available@[j] as int,
            forall|i: int|
                0 <= i < self.resource_need@.len() ==> (#[trigger] self.tables().need[i]).len()
                    == self.resource_need@[i]@.len(),
            forall|i: int|
                0 <= i < self.resource_allocation@.len() ==> (
                #[trigger] self.tables().allocation[i]).len() == self.resource_allocation@[i]@.len(),
            forall|i: int, j: int|
                0 <= i < self.resource_need@.len() && 0 <= j < self.resource_need@[i]@.len()
                    ==> #[trigger] self.tables().need[i][j] == self.resource_need@[i]@[j] as int,
            forall|i: int, j: int|
                0 <= i < self.resource_allocation@.len() && 0 <= j
                    < self.resource_allocation@[i]@.len() ==> #[trigger] self.tables().allocation[i][j]
                    == self.resource_allocation@[i]@[j] as int,
            self.wf() ==> table_fits(self.tables()),
            self.wf() ==> forall|i: int|
                0 <= i < self.resource_need@.len() ==> (#[trigger] self.resource_need@[i])@.len()
                    == self.resource_available@.len(),
            self.wf() ==> forall|i: int|
                0 <= i < self.resource_allocation@.len() ==> (
                #[trigger] self.resource_allocation@[i])@.len() == self.resource_available@.len(),
    {
        if self.wf() {
            assert forall|i: int| 0 <= i < self.resource_need@.len() implies (
            #[trigger] self.resource_need@[i])@.len() == self.resource_available@.len() by {
                assert(self.tables().need[i].len() == self.tables().available.len());
            }
            assert forall|i: int| 0 <= i < self.resource_allocation@.len() implies (
            #[trigger] self.resource_allocation@[i])@.len() == self.resource_available@.len() by {
                assert(self.tables().allocation[i].len() == self.tables().available.len());
            }
        }
    }

    /// Consistency depends only on the tables, the resource list, the
    /// number of tasks, the wait queue and how long the object lists are.
    pub proof fn lemma_wf_kept(old: &Self, new: &Self)
        requires
            old.wf(),
            new.tables() == old.tables(),
            new.share_resources@ == old.share_resources@,
            new.task_count == old.task_count,
            new.mutex_list@.len() >= old.mutex_list@.len(),
            new.semaphore_list@.len() >= old.semaphore_list@.len(),
            new.resource_wait_queue@ == old.resource_wait_queue@,
        ensures
            new.wf(),
    {
        old.lemma_tables_view();
        new.lemma_tables_view();
        assert forall|k: int| 0 <= k < new.share_resources@.len() implies new.slot_exists(
            #[trigger] new.share_resources@[k],
        ) by {
            assert(old.slot_exists(old.share_resources@[k]));
        }
    }

    /// A process with `task_count` tasks and no synchronisation object.
    pub fn new(task_count: usize) -> (r: Self)
        requires
            task_count > 0,
        ensures
            r.wf(),
            r.task_count == task_count,
            r.mutex_list@.len() == 0,
            r.semaphore_list@.len() == 0,
            r.condvar_list@.len() == 0,
            r.share_resources@.len() == 0,
            r.resource_allocation@.len() == 0,
            r.resource_need@.len() == 0,
            r.resource_wait_queue@.len() == 0,
            !r.enable_deadlock_detect,
    {
        ProcessSync {
            mutex_list: Vec::new(),
            semaphore_list: Vec::new(),
            condvar_list: Vec::new(),
            share_resources: Vec::new(),
            resource_available: Vec::new(),
            resource_allocation: Vec::new(),
            resource_need: Vec::new(),
            resource_wait_queue: Vec::new(),
            enable_deadlock_detect: false,
            task_count,
        }
    }

    /// The column of the tables that stands for `r`, if any.
    pub fn get_share_resource_id(&self, r: &ShareResourceType) -> (res: Option<usize>)
        ensures
            res matches Some(i) ==> resource_index(self.share_resources@, *r) == Some(i as int),
            res is None ==> resource_index(self.share_resources@, *r) is None,
    {
        let mut i: usize = 0;
        while i < self.share_resources.len()
            invariant
                i <= self.share_resources@.len(),
                find_from(self.share_resources@, *r, 0) == find_from(self.share_resources@, *r, i as int),
            decreases self.share_resources@.len() - i,
        {
            if self.share_resources[i] == *r {
                return Some(i);
            }
            i += 1;
        }
        None
    }

    /// Takes the first task that waits for a resource.
    pub fn pop_from_wait_queue(&mut self) -> (res: Option<usize>)
        ensures
            old(self).resource_wait_queue@.len() == 0 ==> res is None
                && final(self).resource_wait_queue@ == old(self).resource_wait_queue@,
            old(self).resource_wait_queue@.len() > 0 ==> res == Some(old(self).resource_wait_queue@[0])
                && final(self).resource_wait_queue@ == old(self).resource_wait_queue@.drop_first(),
            final(self).tables() == old(self).tables(),
            final(self).share_resources@ == old(self).share_resources@,
            final(self).mutex_list@ == old(self).mutex_list@,
            final(self).semaphore_list@ == old(self).semaphore_list@,
            final(self).condvar_list@ == old(self).condvar_list@,
            final(self).enable_deadlock_detect == old(self).enable_deadlock_detect,
            final(self).task_count == old(self).task_count,
            old(self).wf() ==> final(self).wf(),
    {
        if self.resource_wait_queue.len() == 0 {
            None
        } else {
            let t = self.resource_wait_queue.remove(0);
            assert(self.resource_wait_queue@ =~= old(self).resource_wait_queue@.drop_first());
            proof {
                if old(self).wf() {
                    old(self).lemma_tables_view();
                    self.lemma_tables_view();
                    assert forall|i: int| 0 <= i < self.resource_wait_queue@.len() implies #[trigger] self.resource_wait_queue@[i]
                        < self.tables().num_tasks() by {
                        assert(old(self).resource_wait_queue@[i + 1] < old(self).tables().num_tasks());
                    }
                }
            }
            Some(t)
        }
    }

    /// The objects, the resource list, the wait queue and the settings are
    /// the same in `self` and `other`; only the tables may differ.
    pub open spec fn same_objects(&self, other: &Self) -> bool {
        &&& self.mutex_list@ == other.mutex_list@
        &&& self.semaphore_list@ == other.semaphore_list@
        &&& self.condvar_list@ == other.condvar_list@
        &&& self.share_resources@ == other.share_resources@
        &&& self.resource_wait_queue@ == other.resource_wait_queue@
        &&& self.enable_deadlock_detect == other.enable_deadlock_detect
        &&& self.task_count == other.task_count
    }

    /// Gives task `tid` all that it asks for: each requested amount moves
    /// from what is free to what the task holds.
    pub fn alloc_resources_to_task(&mut self, tid: usize)
        requires
            old(self).wf(),
            tid < old(self).tables().num_tasks(),
            grant_fits(old(self).tables(), tid as int),
        ensures
            final(self).wf(),
            final(self).tables() == old(self).tables().grant(tid as int),
            final(self).same_objects(old(self)),
    {
        let ghost t = self.tables();
        proof {
            self.lemma_tables_view();
        }
        let m = self.resource_available.len();
        let ghost old_avail = self.resource_available@;
        let ghost old_alloc = self.resource_allocation@;
        let ghost old_need = self.resource_need@;
        let mut j: usize = 0;
        while j < m
            invariant
                old(self).tables() == t,
                old(self).wf(),
                grant_fits(old(self).tables(), tid as int),
                old_avail == old(self).resource_available@,
                old_alloc == old(self).resource_allocation@,
                old_need == old(self).resource_need@,
                self.same_objects(old(self)),
                tid < old_need.len(),
                m == old_avail.len(),
                j <= m,
                self.resource_available@.len() == m,
                self.resource_allocation@.len() == old_alloc.len(),
                self.resource_need@.len() == old_need.len(),
                old_alloc.len() == old_need.len(),
                old_alloc[tid as int]@.len() == m,
                old_need[tid as int]@.len() == m,
                self.resource_allocation@[tid as int]@.len() == m,
                self.resource_need@[tid as int]@.len() == m,
                forall|i: int| 0 <= i < old_alloc.len() && i != tid ==> self.resource_allocation@[i] == old_alloc[i],
                forall|i: int| 0 <= i < old_need.len() && i != tid ==> self.resource_need@[i] == old_need[i],
                forall|q: int| 0 <= q < j ==> self.resource_available@[q] as int == old_avail[q] as int
                    - old_need[tid as int]@[q] as int,
                forall|q: int| j <= q < m ==> self.resource_available@[q] == old_avail[q],
                forall|q: int| 0 <= q < j ==> self.resource_allocation@[tid as int]@[q] as int
                    == old_alloc[tid as int]@[q] as int + old_need[tid as int]@[q] as int,
                forall|q: int| j <= q < m ==> self.resource_allocation@[tid as int]@[q]
                    == old_alloc[tid as int]@[q],
                forall|q: int| 0 <= q < j ==> self.resource_need@[tid as int]@[q] == 0,
                forall|q: int| j <= q < m ==> self.resource_need@[tid as int]@[q] == old_need[tid as int]@[q],
            decreases m - j,
        {
            proof {
                old(self).lemma_tables_view();
                assert(t.allocation[tid as int][j as int] + t.need[tid as int][j as int] <= isize::MAX);
                assert(isize::MIN <= t.available[j as int] - t.need[tid as int][j as int]);
            }
            let need_v = self.resource_need[tid][j];
            let held = self.resource_allocation[tid][j];
            self.resource_allocation[tid][j] = held + need_v;
            let free = self.resource_available[j];
            self.resource_available[j] = free - need_v;
            self.resource_need[tid][j] = 0;
            j += 1;
        }
        proof {
            let g = t.grant(tid as int);
            let nt = self.tables();
            assert(nt.available =~= g.available);
            assert(nt.allocation[tid as int] =~= g.allocation[tid as int]);
            assert(nt.allocation =~= g.allocation);
            assert(nt.need[tid as int] =~= g.need[tid as int]);
            assert(nt.need =~= g.need);
            assert(nt == g);
        }
    }

    /// `self` and `other` agree on everything but the tables and the queue
    /// of tasks that wait for a resource.
    pub open spec fn same_objects_but_queue(&self, other: &Self) -> bool {
        &&& self.mutex_list@ == other.mutex_list@
        &&& self.semaphore_list@ == other.semaphore_list@
        &&& self.condvar_list@ == other.condvar_list@
        &&& self.share_resources@ == other.share_resources@
        &&& self.enable_deadlock_detect == other.enable_deadlock_detect
        &&& self.task_count == other.task_count
    }

    /// The mutex in slot `mid`.
    pub open spec fn mutex_at(&self, mid: int) -> MutexState {
        self.mutex_list@[mid]->0
    }

    /// The semaphore in slot `sid`.
    pub open spec fn semaphore_at(&self, sid: int) -> SemaphoreState {
        self.semaphore_list@[sid]->0
    }

    /// The condition variable in slot `cid`.
    pub open spec fn condvar_at(&self, cid: int) -> CondvarState {
        self.condvar_list@[cid]->0
    }

    /// Slot `mid` holds a mutex.
    pub open spec fn has_mutex(&self, mid: int) -> bool {
        0 <= mid < self.mutex_list@.len() && self.mutex_list@[mid] is Some
    }

    /// Slot `sid` holds a semaphore.
    pub open spec fn has_semaphore(&self, sid: int) -> bool {
        0 <= sid < self.semaphore_list@.len() && self.semaphore_list@[sid] is Some
    }

    /// Slot `cid` holds a condition variable.
    pub open spec fn has_condvar(&self, cid: int) -> bool {
        0 <= cid < self.condvar_list@.len() && self.condvar_list@[cid] is Some
    }

    /// `new` differs from `old` at most in the mutex of slot `mid`, which is
    /// still there.
    pub open spec fn only_mutex_changed(old: &Self, new: &Self, mid: int) -> bool {
        &&& new.mutex_list@.len() == old.mutex_list@.len()
        &&& new.has_mutex(mid)
        &&& forall|k: int| 0 <= k < old.mutex_list@.len() && k != mid ==> new.mutex_list@[k] == old.mutex_list@[k]
        &&& new.mutex_at(mid).blocking == old.mutex_at(mid).blocking
        &&& new.semaphore_list@ == old.semaphore_list@
        &&& new.condvar_list@ == old.condvar_list@
        &&& new.share_resources@ == old.share_resources@
        &&& new.resource_wait_queue@ == old.resource_wait_queue@
        &&& new.enable_deadlock_detect == old.enable_deadlock_detect
        &&& new.task_count == old.task_count
        &&& new.tables() == old.tables()
    }

    /// `new` differs from `old` at most in the semaphore of slot `sid`, which
    /// is still there.
    pub open spec fn only_semaphore_changed(old: &Self, new: &Self, sid: int) -> bool {
        &&& new.semaphore_list@.len() == old.semaphore_list@.len()
        &&& new.has_semaphore(sid)
        &&& forall|k: int|
            0 <= k < old.semaphore_list@.len() && k != sid ==> new.semaphore_list@[k] == old.semaphore_list@[k]
        &&& new.mutex_list@ == old.mutex_list@
        &&& new.condvar_list@ == old.condvar_list@
        &&& new.share_resources@ == old.share_resources@
        &&& new.resource_wait_queue@ == old.resource_wait_queue@
        &&& new.enable_deadlock_detect == old.enable_deadlock_detect
        &&& new.task_count == old.task_count
        &&& new.tables() == old.tables()
    }

    /// What locking the mutex of slot `mid` for task `tid` does.
    pub open spec fn mutex_lock_post(old: Self, new: Self, mid: int, tid: usize, r: SyncAction) -> bool {
        let m = old.mutex_at(mid);
        let m2 = new.mutex_at(mid);
        &&& Self::only_mutex_changed(&old, &new, mid)
        &&& !m.locked ==> r == SyncAction::Done(0) && m2.locked && m2.wait_queue@ == m.wait_queue@
        &&& m.locked && m.blocking ==> r == SyncAction::Block && m2.locked && m2.wait_queue@
            == m.wait_queue@.push(tid)
        &&& m.locked && !m.blocking ==> r == SyncAction::Yield && new.mutex_list@ == old.mutex_list@
    }

    /// What unlocking the mutex of slot `mid` does.
    pub open spec fn mutex_unlock_post(old: Self, new: Self, mid: int, r: SyncAction) -> bool {
        let m = old.mutex_at(mid);
        let m2 = new.mutex_at(mid);
        &&& Self::only_mutex_changed(&old, &new, mid)
        &&& m.blocking && m.wait_queue@.len() > 0 ==> r == SyncAction::Wake(m.wait_queue@[0])
            && m2.locked && m2.wait_queue@ == m.wait_queue@.drop_first()
        &&& !(m.blocking && m.wait_queue@.len() > 0) ==> r == SyncAction::Done(0) && !m2.locked
            && m2.wait_queue@ == m.wait_queue@
    }

    /// What signalling the semaphore of slot `sid` does.
    pub open spec fn semaphore_up_post(old: Self, new: Self, sid: int, r: SyncAction) -> bool {
        let s = old.semaphore_at(sid);
        let s2 = new.semaphore_at(sid);
        &&& Self::only_semaphore_changed(&old, &new, sid)
        &&& s2.count == s.count + 1
        &&& s2.count <= 0 && s.wait_queue@.len() > 0 ==> r == SyncAction::Wake(s.wait_queue@[0])
            && s2.wait_queue@ == s.wait_queue@.drop_first()
        &&& !(s2.count <= 0 && s.wait_queue@.len() > 0) ==> r == SyncAction::Done(0) && s2.wait_queue@
            == s.wait_queue@
    }

    /// What waiting on the semaphore of slot `sid` does for task `tid`.
    pub open spec fn semaphore_down_post(old: Self, new: Self, sid: int, tid: usize, r: SyncAction) -> bool {
        let s = old.semaphore_at(sid);
        let s2 = new.semaphore_at(sid);
        &&& Self::only_semaphore_changed(&old, &new, sid)
        &&& s2.count == s.count - 1
        &&& s2.count < 0 ==> r == SyncAction::Block && s2.wait_queue@ == s.wait_queue@.push(tid)
        &&& s2.count >= 0 ==> r == SyncAction::Done(0) && s2.wait_queue@ == s.wait_queue@
    }

    /// Locks the mutex of slot `mid` for task `tid`: a free mutex is taken at
    /// once; a taken blocking mutex queues the task, which blocks; a taken
    /// spinning mutex makes the task yield and try again.
    pub fn mutex_lock(&mut self, mid: usize, tid: usize) -> (r: SyncAction)
        requires
            old(self).has_mutex(mid as int),
        ensures
            Self::mutex_lock_post(*old(self), *final(self), mid as int, tid, r),
    {
        let slot = self.mutex_list[mid].take();
        let mut m = match slot {
            Some(m) => m,
            None => {
                return SyncAction::Done(0);
            },
        };
        let r = if !m.locked {
            m.locked = true;
            SyncAction::Done(0)
        } else if m.blocking {
            m.wait_queue.push(tid);
            SyncAction::Block
        } else {
            SyncAction::Yield
        };
        self.mutex_list[mid] = Some(m);
        proof {
            if r == SyncAction::Yield {
                assert(self.mutex_list@ =~= old(self).mutex_list@);
            }
        }
        r
    }

    /// Unlocks the mutex of slot `mid`. A blocking mutex with waiters passes
    /// to the first of them, which is woken, and stays locked; otherwise the
    /// mutex becomes free.
    pub fn mutex_unlock(&mut self, mid: usize) -> (r: SyncAction)
        requires
            old(self).has_mutex(mid as int),
            old(self).mutex_at(mid as int).blocking ==> old(self).mutex_at(mid as int).locked,
        ensures
            Self::mutex_unlock_post(*old(self), *final(self), mid as int, r),
    {
        let slot = self.mutex_list[mid].take();
        let mut m = match slot {
            Some(m) => m,
            None => {
                return SyncAction::Done(0);
            },
        };
        let r = if m.blocking && m.wait_queue.len() > 0 {
            let t = m.wait_queue.remove(0);
            assert(m.wait_queue@ =~= old(self).mutex_at(mid as int).wait_queue@.drop_first());
            SyncAction::Wake(t)
        } else {
            m.locked = false;
            SyncAction::Done(0)
        };
        self.mutex_list[mid] = Some(m);
        r
    }

    /// Signals the semaphore of slot `sid`: its count grows by one, and if
    /// tasks were waiting (the count is still not positive) the first of them
    /// is woken.
    pub fn semaphore_up(&mut self, sid: usize) -> (r: SyncAction)
        requires
            old(self).has_semaphore(sid as int),
            old(self).semaphore_at(sid as int).count < isize::MAX,
        ensures
            Self::semaphore_up_post(*old(self), *final(self), sid as int, r),
    {
        let slot = self.semaphore_list[sid].take();
        let mut sem = match slot {
            Some(sem) => sem,
            None => {
                return SyncAction::Done(0);
            },
        };
        sem.count = sem.count + 1;
        let r = if sem.count <= 0 && sem.wait_queue.len() > 0 {
            let t = sem.wait_queue.remove(0);
            assert(sem.wait_queue@ =~= old(self).semaphore_at(sid as int).wait_queue@.drop_first());
            SyncAction::Wake(t)
        } else {
            SyncAction::Done(0)
        };
        self.semaphore_list[sid] = Some(sem);
        r
    }

    /// Waits on the semaphore of slot `sid`: its count drops by one, and if
    /// it is then negative task `tid` is queued and blocks.
    pub fn semaphore_down(&mut self, sid: usize, tid: usize) -> (r: SyncAction)
        requires
            old(self).has_semaphore(sid as int),
            old(self).semaphore_at(sid as int).count > isize::MIN,
        ensures
            Self::semaphore_down_post(*old(self), *final(self), sid as int, tid, r),
    {
        let slot = self.semaphore_list[sid].take();
        let mut sem = match slot {
            Some(sem) => sem,
            None => {
                return SyncAction::Done(0);
            },
        };
        sem.count = sem.count - 1;
        let r = if sem.count < 0 {
            sem.wait_queue.push(tid);
            SyncAction::Block
        } else {
            SyncAction::Done(0)
        };
        self.semaphore_list[sid] = Some(sem);
        r
    }

    /// `new` differs from `old` at most in the condition variable of slot
    /// `cid`, which is still there.
    pub open spec fn only_condvar_changed(old: &Self, new: &Self, cid: int) -> bool {
        &&& new.condvar_list@.len() == old.condvar_list@.len()
        &&& new.has_condvar(cid)
        &&& forall|k: int|
            0 <= k < old.condvar_list@.len() && k != cid ==> new.condvar_list@[k] == old.condvar_list@[k]
        &&& new.mutex_list@ == old.mutex_list@
        &&& new.semaphore_list@ == old.semaphore_list@
        &&& new.share_resources@ == old.share_resources@
        &&& new.resource_wait_queue@ == old.resource_wait_queue@
        &&& new.enable_deadlock_detect == old.enable_deadlock_detect
        &&& new.task_count == old.task_count
        &&& new.tables() == old.tables()
    }

    /// Signals the condition variable of slot `cid`: the first waiting task,
    /// if any, is woken.
    pub fn condvar_signal(&mut self, cid: usize) -> (r: SyncAction)
        requires
            old(self).has_condvar(cid as int),
        ensures
            Self::only_condvar_changed(old(self), final(self), cid as int),
            old(self).condvar_at(cid as int).wait_queue@.len() > 0 ==> r == SyncAction::Wake(
                old(self).condvar_at(cid as int).wait_queue@[0],
            ) && final(self).condvar_at(cid as int).wait_queue@ == old(self).condvar_at(
                cid as int,
            ).wait_queue@.drop_first(),
            old(self).condvar_at(cid as int).wait_queue@.len() == 0 ==> r == SyncAction::Done(0)
                && final(self).condvar_list@ == old(self).condvar_list@,
    {
        let slot = self.condvar_list[cid].take();
        let mut c = match slot {
            Some(c) => c,
            None => {
                return SyncAction::Done(0);
            },
        };
        let r = if c.wait_queue.len() > 0 {
            let t = c.wait_queue.remove(0);
            assert(c.wait_queue@ =~= old(self).condvar_at(cid as int).wait_queue@.drop_first());
            SyncAction::Wake(t)
        } else {
            SyncAction::Done(0)
        };
        self.condvar_list[cid] = Some(c);
        proof {
            if old(self).condvar_at(cid as int).wait_queue@.len() == 0 {
                assert(self.condvar_list@ =~= old(self).condvar_list@);
            }
        }
        r
    }

    /// Queues task `tid` on the condition variable of slot `cid`.
    pub fn condvar_enqueue(&mut self, cid: usize, tid: usize)
        requires
            old(self).has_condvar(cid as int),
        ensures
            Self::only_condvar_changed(old(self), final(self), cid as int),
            final(self).condvar_at(cid as int).wait_queue@ == old(self).condvar_at(
                cid as int,
            ).wait_queue@.push(tid),
    {
        let slot = self.condvar_list[cid].take();
        let mut c = match slot {
            Some(c) => c,
            None => {
                return ;
            },
        };
        c.wait_queue.push(tid);
        self.condvar_list[cid] = Some(c);
    }

    /// Sets resource `rid` up afresh: `amount` units are free and no task
    /// holds or asks for any.
    pub fn reset_resource(&mut self, rid: usize, amount: isize)
        requires
            old(self).wf(),
            rid < old(self).share_resources@.len(),
        ensures
            final(self).wf(),
            final(self).tables() == old(self).tables().reset_column(rid as int, amount as int),
            final(self).same_objects(old(self)),
    {
        proof {
            self.lemma_tables_view();
        }
        let ghost t = self.tables();
        self.resource_available[rid] = amount;
        let n = self.resource_allocation.len();
        let ghost old_alloc = self.resource_allocation@;
        let mut i: usize = 0;
        while i < n
            invariant
                old(self).wf(),
                old(self).tables() == t,
                old_alloc == old(self).resource_allocation@,
                self.same_objects(old(self)),
                n == old_alloc.len(),
                i <= n,
                rid < old(self).resource_available@.len(),
                self.resource_allocation@.len() == n,
                self.resource_need@ == old(self).resource_need@,
                self.resource_available@ == old(self).resource_available@.update(rid as int, amount),
                forall|k: int| 0 <= k < i ==> self.resource_allocation@[k]@ == old_alloc[k]@.update(rid as int, 0),
                forall|k: int| i <= k < n ==> self.resource_allocation@[k] == old_alloc[k],
            decreases n - i,
        {
            proof {
                old(self).lemma_tables_view();
                assert(old_alloc[i as int]@.len() == old(self).resource_available@.len());
            }
            self.resource_allocation[i][rid] = 0;
            i += 1;
        }
        let n2 = self.resource_need.len();
        let ghost old_need = self.resource_need@;
        let mut i: usize = 0;
        while i < n2
            invariant
                old(self).wf(),
                old(self).tables() == t,
                old_need == old(self).resource_need@,
                self.same_objects(old(self)),
                n2 == old_need.len(),
                n == old_alloc.len(),
                i <= n2,
                rid < old(self).resource_available@.len(),
                self.resource_need@.len() == n2,
                self.resource_allocation@.len() == n,
                forall|k: int| 0 <= k < n ==> self.resource_allocation@[k]@ == old_alloc[k]@.update(rid as int, 0),
                self.resource_available@ == old(self).resource_available@.update(rid as int, amount),
                forall|k: int| 0 <= k < i ==> self.resource_need@[k]@ == old_need[k]@.update(rid as int, 0),
                forall|k: int| i <= k < n2 ==> self.resource_need@[k] == old_need[k],
            decreases n2 - i,
        {
            proof {
                old(self).lemma_tables_view();
                assert(old_need[i as int]@.len() == old(self).resource_available@.len());
            }
            self.resource_need[i][rid] = 0;
            i += 1;
        }
        proof {
            let g = t.reset_column(rid as int, amount as int);
            let nt = self.tables();
            assert(nt.available =~= g.available);
            assert forall|k: int| 0 <= k < n implies nt.allocation[k] =~= g.allocation[k] by {}
            assert(nt.allocation =~= g.allocation);
            assert forall|k: int| 0 <= k < n2 implies nt.need[k] =~= g.need[k] by {}
            assert(nt.need =~= g.need);
            assert(nt == g);
            self.lemma_tables_view();
        }
    }

    /// Adds resource `r` with `amount` free units as a new column of the
    /// tables.
    pub fn add_resource(&mut self, r: ShareResourceType, amount: isize)
        requires
            old(self).wf(),
            !old(self).share_resources@.contains(r),
            old(self).slot_exists(r),
        ensures
            final(self).wf(),
            final(self).tables() == old(self).tables().add_column(amount as int, old(self).task_count as nat),
            final(self).share_resources@ == old(self).share_resources@.push(r),
            final(self).mutex_list@ == old(self).mutex_list@,
            final(self).semaphore_list@ == old(self).semaphore_list@,
            final(self).condvar_list@ == old(self).condvar_list@,
            final(self).resource_wait_queue@ == old(self).resource_wait_queue@,
            final(self).enable_deadlock_detect == old(self).enable_deadlock_detect,
            final(self).task_count == old(self).task_count,
    {
        proof {
            self.lemma_tables_view();
        }
        let ghost t = self.tables();
        self.share_resources.push(r);
        self.resource_available.push(amount);
        let ghost old_alloc = self.resource_allocation@;
        let ghost old_need = self.resource_need@;
        if self.resource_allocation.len() == 0 {
            let mut i: usize = 0;
            while i < self.task_count
                invariant
                    self.resource_available@ == old(self).resource_available@.push(amount),
                    self.share_resources@ == old(self).share_resources@.push(r),
                    self.mutex_list@ == old(self).mutex_list@,
                    self.semaphore_list@ == old(self).semaphore_list@,
                    self.condvar_list@ == old(self).condvar_list@,
                    self.resource_wait_queue@ == old(self).resource_wait_queue@,
                    self.enable_deadlock_detect == old(self).enable_deadlock_detect,
                    self.task_count == old(self).task_count,
                    i <= self.task_count,
                    self.resource_allocation@.len() == i,
                    forall|k: int| 0 <= k < i ==> self.resource_allocation@[k]@ == seq![0isize],
                    self.resource_need@ == old_need,
                decreases self.task_count - i,
            {
                let mut row: Vec<isize> = Vec::new();
                row.push(0);
                self.resource_allocation.push(row);
                i += 1;
            }
        } else {
            let n = self.resource_allocation.len();
            let mut i: usize = 0;
            while i < n
                invariant
                    self.resource_available@ == old(self).resource_available@.push(amount),
                    self.share_resources@ == old(self).share_resources@.push(r),
                    self.mutex_list@ == old(self).mutex_list@,
                    self.semaphore_list@ == old(self).semaphore_list@,
                    self.condvar_list@ == old(self).condvar_list@,
                    self.resource_wait_queue@ == old(self).resource_wait_queue@,
                    self.enable_deadlock_detect == old(self).enable_deadlock_detect,
                    self.task_count == old(self).task_count,
                    i <= n,
                    n == old_alloc.len(),
                    self.resource_allocation@.len() == n,
                    forall|k: int| 0 <= k < i ==> self.resource_allocation@[k]@ == old_alloc[k]@.push(0),
                    forall|k: int| i <= k < n ==> self.resource_allocation@[k] == old_alloc[k],
                    self.resource_need@ == old_need,
                decreases n - i,
            {
                self.resource_allocation[i].push(0);
                i += 1;
            }
        }
        let ghost mid_alloc = self.resource_allocation@;
        if self.resource_need.len() == 0 {
            let mut i: usize = 0;
            while i < self.task_count
                invariant
                    self.resource_available@ == old(self).resource_available@.push(amount),
                    self.share_resources@ == old(self).share_resources@.push(r),
                    self.mutex_list@ == old(self).mutex_list@,
                    self.semaphore_list@ == old(self).semaphore_list@,
                    self.condvar_list@ == old(self).condvar_list@,
                    self.resource_wait_queue@ == old(self).resource_wait_queue@,
                    self.enable_deadlock_detect == old(self).enable_deadlock_detect,
                    self.task_count == old(self).task_count,
                    i <= self.task_count,
                    self.resource_need@.len() == i,
                    forall|k: int| 0 <= k < i ==> self.resource_need@[k]@ == seq![0isize],
                    self.resource_allocation@ == mid_alloc,
                decreases self.task_count - i,
            {
                let mut row: Vec<isize> = Vec::new();
                row.push(0);
                self.resource_need.push(row);
                i += 1;
            }
        } else {
            let n = self.resource_need.len();
            let mut i: usize = 0;
            while i < n
                invariant
                    self.resource_available@ == old(self).resource_available@.push(amount),
                    self.share_resources@ == old(self).share_resources@.push(r),
                    self.mutex_list@ == old(self).mutex_list@,
                    self.semaphore_list@ == old(self).semaphore_list@,
                    self.condvar_list@ == old(self).condvar_list@,
                    self.resource_wait_queue@ == old(self).resource_wait_queue@,
                    self.enable_deadlock_detect == old(self).enable_deadlock_detect,
                    self.task_count == old(self).task_count,
                    i <= n,
                    n == old_need.len(),
                    self.resource_need@.len() == n,
                    forall|k: int| 0 <= k < i ==> self.resource_need@[k]@ == old_need[k]@.push(0),
                    forall|k: int| i <= k < n ==> self.resource_need@[k] == old_need[k],
                    self.resource_allocation@ == mid_alloc,
                decreases n - i,
            {
                self.resource_need[i].push(0);
                i += 1;
            }
        }
        proof {
            let g = t.add_column(amount as int, self.task_count as nat);
            let nt = self.tables();
            assert(nt.available =~= g.available);
            assert(nt.allocation.len() == g.allocation.len());
            assert forall|k: int| 0 <= k < nt.allocation.len() implies nt.allocation[k] =~= g.allocation[k] by {}
            assert(nt.allocation =~= g.allocation);
            assert forall|k: int| 0 <= k < nt.need.len() implies nt.need[k] =~= g.need[k] by {}
            assert(nt.need =~= g.need);
            assert(nt == g);
            self.lemma_tables_view();
            assert(self.tables().wf());
        }
    }

    /// Whether a safe order exists for the present tables.
    pub fn is_safety(&self) -> (r: bool)
        requires
            self.wf(),
        ensures
            r == self.tables().is_safe_state(),
    {
        let ghost t = self.tables();
        proof {
            self.lemma_tables_view();
            assert(table_fits(t));
        }
        let n = self.resource_need.len();
        let m = self.resource_available.len();
        let mut work: Vec<i128> = Vec::new();
        let mut j: usize = 0;
        while j < m
            invariant
                t == self.tables(),
                m == t.num_resources(),
                j <= m,
                work@.len() == j,
                forall|k: int| 0 <= k < j ==> work@[k] == t.available[k],
            decreases m - j,
        {
            work.push(self.resource_available[j] as i128);
            j += 1;
        }
        let mut finish: Vec<bool> = Vec::new();
        let mut i: usize = 0;
        while i < n
            invariant
                i <= n,
                finish@.len() == i,
                forall|k: int| 0 <= k < i ==> !finish@[k],
            decreases n - i,
        {
            finish.push(false);
            i += 1;
        }
        let ghost mut order: Seq<int> = Seq::empty();
        proof {
            assert forall|k: int| 0 <= k < m implies work@[k] == t.work(k, order) by {
                lemma_held_sum_empty(t, k, n as nat);
            }
        }
        loop
            invariant
                t == self.tables(),
                self.wf(),
                table_fits(t),
                n == t.num_tasks(),
                m == t.num_resources(),
                work@.len() == m,
                finish@.len() == n,
                t.is_safe_prefix(order),
                order.len() <= n,
                forall|k: int| 0 <= k < n ==> finish@[k] == order.contains(k),
                forall|k: int| 0 <= k < m ==> work@[k] == t.work(k, order),
                forall|k: int|
                    0 <= k < m ==> #[trigger] work@[k] <= (isize::MAX as int) * (1 + order.len()),
            ensures
                forall|k: int| 0 <= k < n && !finish@[k] ==> !#[trigger] t.fits_after(k, order),
            decreases n - order.len(),
        {
            let cand = self.find_runnable(&finish, &work);
            match cand {
                None => {
                    break ;
                },
                Some(c) => {
                    proof {
                        lemma_missing_index_shorter(order, n as int, c as int);
                    }
                    let ghost old_work = work@;
                    let ghost new_order = order.push(c as int);
                    let mut k: usize = 0;
                    while k < m
                        invariant
                            t == self.tables(),
                            self.wf(),
                            table_fits(t),
                            n == t.num_tasks(),
                            m == t.num_resources(),
                            c < n,
                            k <= m,
                            work@.len() == m,
                            order.len() < n,
                            t.is_safe_prefix(order),
                            !order.contains(c as int),
                            new_order == order.push(c as int),
                            old_work.len() == m,
                            forall|q: int| 0 <= q < m ==> old_work[q] == t.work(q, order),
                            forall|q: int|
                                0 <= q < m ==> #[trigger] old_work[q] <= (isize::MAX as int) * (1
                                    + order.len()),
                            forall|q: int| 0 <= q < k ==> work@[q] == t.work(q, new_order),
                            forall|q: int| k <= q < m ==> work@[q] == old_work[q],
                            forall|q: int|
                                0 <= q < k ==> #[trigger] work@[q] <= (isize::MAX as int) * (2
                                    + order.len()),
                        decreases m - k,
                    {
                        proof {
                            self.lemma_tables_view();
                            lemma_held_sum_push(t, k as int, order, c as int, n as nat);
                            lemma_held_sum_nonneg(t, k as int, order, n as nat);
                            assert(0 <= t.allocation[c as int][k as int] <= isize::MAX);
                            assert(t.allocation[c as int][k as int]
                                == self.resource_allocation@[c as int]@[k as int] as int);
                            assert(t.work(k as int, new_order) == old_work[k as int]
                                + t.allocation[c as int][k as int]);
                            assert(isize::MIN <= t.available[k as int]);
                            assert(isize::MIN <= old_work[k as int]);
                            assert((isize::MAX as int) * (2 + order.len()) == (isize::MAX as int) * (1
                                + order.len()) + isize::MAX);
                            assert((isize::MAX as int) * (2 + order.len()) <= (isize::MAX as int) * (
                            usize::MAX + 1)) by (nonlinear_arith)
                                requires
                                    order.len() + 1 <= n,
                                    n <= usize::MAX,
                            ;
                        }
                        let v = work[k] + self.resource_allocation[c][k] as i128;
                        work.set(k, v);
                        k += 1;
                    }
                    finish.set(c, true);
                    proof {
                        assert forall|q: int| 0 <= q < n implies finish@[q] == new_order.contains(
                            q,
                        ) by {
                            if q == c {
                                assert(new_order[order.len() as int] == q);
                            } else {
                                if new_order.contains(q) {
                                    let l = choose|l: int| 0 <= l < new_order.len() && new_order[l] == q;
                                    assert(order[l] == q);
                                }
                                if order.contains(q) {
                                    let l = choose|l: int| 0 <= l < order.len() && order[l] == q;
                                    assert(new_order[l] == q);
                                }
                            }
                        }
                        assert(new_order.take(order.len() as int) =~= order);
                        assert forall|l: int| 0 <= l < new_order.len() implies t.fits_after(
                            #[trigger] new_order[l],
                            new_order.take(l),
                        ) by {
                            if l < order.len() {
                                assert(new_order.take(l) =~= order.take(l));
                                assert(new_order[l] == order[l]);
                            }
                        }
                        order = new_order;
                    }
                },
            }
        }
        let mut i: usize = 0;
        while i < n
            invariant
                t == self.tables(),
                self.wf(),
                n == t.num_tasks(),
                m == t.num_resources(),
                i <= n,
                finish@.len() == n,
                work@.len() == m,
                t.is_safe_prefix(order),
                forall|k: int| 0 <= k < n ==> finish@[k] == order.contains(k),
                forall|k: int| 0 <= k < m ==> work@[k] == t.work(k, order),
                forall|k: int| 0 <= k < i ==> finish@[k],
                forall|k: int| 0 <= k < n && !finish@[k] ==> !#[trigger] t.fits_after(k, order),
            decreases n - i,
        {
            if !finish[i] {
                proof {
                    lemma_stuck_is_unsafe(t, order, i as int);
                }
                return false;
            }
            i += 1;
        }
        proof {
            assert(t.is_safe_order(order));
        }
        true
    }

    /// The first unfinished task whose requests fit in `work`, if any.
    fn find_runnable(&self, finish: &Vec<bool>, work: &Vec<i128>) -> (res: Option<usize>)
        requires
            self.wf(),
            finish@.len() == self.tables().num_tasks(),
            work@.len() == self.tables().num_resources(),
        ensures
            res matches Some(c) ==> c < finish@.len() && !finish@[c as int] && forall|j: int|
                0 <= j < work@.len() ==> self.tables().need[c as int][j] <= work@[j],
            res is None ==> forall|c: int|
                0 <= c < finish@.len() && !finish@[c] ==> exists|j: int|
                    0 <= j < work@.len() && self.tables().need[c][j] > #[trigger] work@[j],
    {
        let ghost t = self.tables();
        proof {
            self.lemma_tables_view();
        }
        let n = self.resource_need.len();
        let m = self.resource_available.len();
        let mut i: usize = 0;
        while i < n
            invariant
                t == self.tables(),
                self.wf(),
                n == t.num_tasks(),
                m == t.num_resources(),
                finish@.len() == n,
                work@.len() == m,
                i <= n,
                forall|c: int|
                    0 <= c < i && !finish@[c] ==> exists|j: int|
                        0 <= j < m && t.need[c][j] > #[trigger] work@[j],
            decreases n - i,
        {
            proof {
                self.lemma_tables_view();
            }
            if !finish[i] {
                let mut fits = true;
                let mut j: usize = 0;
                while j < m
                    invariant
                        t == self.tables(),
                        self.wf(),
                        n == t.num_tasks(),
                        m == t.num_resources(),
                        i < n,
                        work@.len() == m,
                        j <= m,
                        fits ==> forall|q: int| 0 <= q < j ==> t.need[i as int][q] <= work@[q],
                        !fits ==> exists|q: int| 0 <= q < m && t.need[i as int][q] > #[trigger] work@[q],
                    decreases m - j,
                {
                    proof {
                        self.lemma_tables_view();
                    }
                    if self.resource_need[i][j] as i128 > work[j] {
                        fits = false;
                    }
                    j += 1;
                }
                if fits {
                    return Some(i);
                }
            }
            i += 1;
        }
        None
    }
}

} // verus!
