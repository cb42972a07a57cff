//! System calls on mutexes, semaphores and condition variables, with the
//! banker's deadlock avoidance when the process has turned it on.
//!
//! Each call takes the synchronisation state of the current process and the
//! id of the current task, changes the state and returns a [`SyncAction`]:
//! what the scheduler does with the current task, and what the call returns.
use vstd::prelude::*;
use crate::sync::{
    CondvarState, MutexState, ProcessSync, SemaphoreState, ShareResourceType, SyncAction,
    first_free, first_free_from, grant_fits, lemma_first_free_in_range, resource_index,
};

verus! {

/// The return value of a request that deadlock avoidance refuses.
pub const DEADLOCK_REFUSED: isize = -0xdead;

/// The first empty slot of `list`, if any.
pub fn first_free_slot<T>(list: &Vec<Option<T>>) -> (r: Option<usize>)
    ensures
        r matches Some(i) ==> first_free(list@) == Some(i as int),
        r is None ==> first_free(list@) is None,
{
    let mut i: usize = 0;
    while i < list.len()
        invariant
            i <= list@.len(),
            first_free_from(list@, 0) == first_free_from(list@, i as int),
        decreases list@.len() - i,
    {
        if list[i].is_none() {
            return Some(i);
        }
        i += 1;
    }
    None
}

/// Task `tid` may ask for one unit of `res` without an entry leaving
/// `isize`: its row exists, the request can be counted, and a grant that
/// follows fits.
pub open spec fn acquire_fits(p: ProcessSync, tid: usize, res: ShareResourceType) -> bool {
    match resource_index(p.share_resources@, res) {
        None => true,
        Some(rid) => {
            let req = p.tables().request(tid as int, rid);
            &&& tid < p.tables().num_tasks()
            &&& p.tables().need[tid as int][rid] < isize::MAX
            &&& (req.need[tid as int][rid] <= req.available[rid] || (req.is_safe_state() && tid == 0))
                ==> grant_fits(req, tid as int)
        },
    }
}

/// What a request of task `tid` for one unit of `res` does under deadlock
/// avoidance. An unknown resource is refused with -1. Otherwise the request
/// is counted; if what is free covers it, the task gets all it asks for.
/// If not, and the tables with the request are safe, the task waits (the
/// main task, of id 0, is given what it asks for instead); if they are
/// unsafe, the request is withdrawn and refused.
pub open spec fn acquire_post(
    old: ProcessSync,
    new: ProcessSync,
    tid: usize,
    res: ShareResourceType,
    r: SyncAction,
) -> bool {
    match resource_index(old.share_resources@, res) {
        None => r == SyncAction::Done(-1isize) && new.tables() == old.tables() && new.same_objects(&old),
        Some(rid) => {
            let req = old.tables().request(tid as int, rid);
            if req.need[tid as int][rid] <= req.available[rid] {
                &&& r == SyncAction::Done(0)
                &&& new.tables() == req.grant(tid as int)
                &&& new.same_objects(&old)
            } else if req.is_safe_state() {
                if tid != 0 {
                    &&& r == SyncAction::Block
                    &&& new.tables() == req
                    &&& new.resource_wait_queue@ == old.resource_wait_queue@.push(tid)
                    &&& new.same_objects_but_queue(&old)
                } else {
                    &&& r == SyncAction::Done(0)
                    &&& new.tables() == req.grant(0)
                    &&& new.same_objects(&old)
                }
            } else {
                &&& r == SyncAction::Done(DEADLOCK_REFUSED)
                &&& new.tables() == old.tables()
                &&& new.same_objects(&old)
            }
        },
    }
}

/// Freeing one unit of `res` keeps its free amount in an `isize`, and the
/// grant to the first waiting task fits.
pub open spec fn release_fits(p: ProcessSync, res: ShareResourceType) -> bool {
    match resource_index(p.share_resources@, res) {
        None => true,
        Some(rid) => {
            &&& p.tables().available[rid] < isize::MAX
            &&& p.resource_wait_queue@.len() > 0 ==> grant_fits(
                p.tables().release(rid),
                p.resource_wait_queue@[0] as int,
            )
        },
    }
}

/// What freeing one unit of `res` does under deadlock avoidance. An unknown
/// resource gives -1. Otherwise one more unit is free, and the first task
/// that waits, if any, leaves the queue, gets all it asks for and is woken.
pub open spec fn release_post(old: ProcessSync, new: ProcessSync, res: ShareResourceType, r: SyncAction) -> bool {
    match resource_index(old.share_resources@, res) {
        None => r == SyncAction::Done(-1isize) && new.tables() == old.tables() && new.same_objects(&old),
        Some(rid) => {
            if old.resource_wait_queue@.len() == 0 {
                &&& r == SyncAction::Done(0)
                &&& new.tables() == old.tables().release(rid)
                &&& new.same_objects(&old)
            } else {
                let first = old.resource_wait_queue@[0];
                &&& r == SyncAction::Wake(first)
                &&& new.tables() == old.tables().release(rid).grant(first as int)
                &&& new.resource_wait_queue@ == old.resource_wait_queue@.drop_first()
                &&& new.same_objects_but_queue(&old)
            }
        },
    }
}

/// Task `tid` asks for one unit of `res` under deadlock avoidance.
fn acquire(p: &mut ProcessSync, tid: usize, res: ShareResourceType) -> (r: SyncAction)
    requires
        old(p).wf(),
        acquire_fits(*old(p), tid, res),
    ensures
        final(p).wf(),
        acquire_post(*old(p), *final(p), tid, res, r),
{
    let rid = match p.get_share_resource_id(&res) {
        Some(i) => i,
        None => {
            return SyncAction::Done(-1);
        },
    };
    let ghost t = p.tables();
    let ghost req = t.request(tid as int, rid as int);
    proof {
        p.lemma_tables_view();
        assert(rid < p.resource_available@.len()) by {
            assert(crate::sync::find_from(p.share_resources@, res, 0) == Some(rid as int));
            lemma_find_from_in_range(p.share_resources@, res, 0);
        }
    }
    let wanted = p.resource_need[tid][rid] + 1;
    p.resource_need[tid][rid] = wanted;
    proof {
        p.lemma_tables_view();
        let nt = p.tables();
        assert(nt.need[tid as int] =~= req.need[tid as int]);
        assert(nt.need =~= req.need);
        assert(nt.available =~= req.available);
        assert(nt.allocation =~= req.allocation);
        assert(nt == req);
    }
    if wanted <= p.resource_available[rid] {
        p.alloc_resources_to_task(tid);
        return SyncAction::Done(0);
    }
    if p.is_safety() {
        if tid != 0 {
            p.resource_wait_queue.push(tid);
            return SyncAction::Block;
        } else {
            p.alloc_resources_to_task(0);
            return SyncAction::Done(0);
        }
    }
    p.resource_need[tid][rid] = wanted - 1;
    proof {
        p.lemma_tables_view();
        old(p).lemma_tables_view();
        let nt = p.tables();
        assert(nt.need[tid as int] =~= t.need[tid as int]);
        assert(nt.need =~= t.need);
        assert(nt.available =~= t.available);
        assert(nt.allocation =~= t.allocation);
        assert(nt == t);
    }
    SyncAction::Done(DEADLOCK_REFUSED)
}

/// A first index found from `i` lies in the sequence.
pub proof fn lemma_find_from_in_range(s: Seq<ShareResourceType>, r: ShareResourceType, i: int)
    ensures
        crate::sync::find_from(s, r, i) matches Some(k) ==> i <= k < s.len() && s[k] == r,
    decreases s.len() - i,
{
    if 0 <= i < s.len() && s[i] != r {
        lemma_find_from_in_range(s, r, i + 1);
    }
}

/// One unit of `res` is freed under deadlock avoidance.
fn release(p: &mut ProcessSync, res: ShareResourceType) -> (r: SyncAction)
    requires
        old(p).wf(),
        release_fits(*old(p), res),
    ensures
        final(p).wf(),
        release_post(*old(p), *final(p), res, r),
{
    let rid = match p.get_share_resource_id(&res) {
        Some(i) => i,
        None => {
            return SyncAction::Done(-1);
        },
    };
    let ghost t = p.tables();
    proof {
        p.lemma_tables_view();
        lemma_find_from_in_range(p.share_resources@, res, 0);
    }
    let free = p.resource_available[rid] + 1;
    p.resource_available[rid] = free;
    proof {
        p.lemma_tables_view();
        let nt = p.tables();
        let rel = t.release(rid as int);
        assert(nt.available =~= rel.available);
        assert(nt.need =~= rel.need);
        assert(nt.allocation =~= rel.allocation);
        assert(nt == rel);
    }
    match p.pop_from_wait_queue() {
        Some(first) => {
            p.alloc_resources_to_task(first);
            SyncAction::Wake(first)
        },
        None => SyncAction::Done(0),
    }
}

/// The mutex is new: unlocked, of the kind asked for, with nobody waiting.
pub open spec fn is_fresh_mutex(m: MutexState, blocking: bool) -> bool {
    m.blocking == blocking && !m.locked && m.wait_queue@.len() == 0
}

/// The semaphore is new: it counts `count`, with nobody waiting.
pub open spec fn is_fresh_semaphore(s: SemaphoreState, count: isize) -> bool {
    s.count == count && s.wait_queue@.len() == 0
}

/// What creating a mutex does. The first empty slot, if there is one,
/// gets the new mutex; its resource column is set up afresh with one free
/// unit, and the call returns the slot, or -1 when no column stands for it.
/// With no empty slot the mutex is appended, a column with one free unit is
/// added for it, and the call returns its index.
pub open spec fn mutex_create_post(old: ProcessSync, new: ProcessSync, blocking: bool, r: isize) -> bool {
    &&& new.semaphore_list@ == old.semaphore_list@
    &&& new.condvar_list@ == old.condvar_list@
    &&& new.resource_wait_queue@ == old.resource_wait_queue@
    &&& new.enable_deadlock_detect == old.enable_deadlock_detect
    &&& new.task_count == old.task_count
    &&& match first_free(old.mutex_list@) {
        Some(id) => {
            &&& new.mutex_list@.len() == old.mutex_list@.len()
            &&& new.has_mutex(id)
            &&& is_fresh_mutex(new.mutex_at(id), blocking)
            &&& forall|k: int| 0 <= k < old.mutex_list@.len() && k != id ==> new.mutex_list@[k] == old.mutex_list@[k]
            &&& new.share_resources@ == old.share_resources@
            &&& match resource_index(old.share_resources@, ShareResourceType::ShareMutex(id as usize)) {
                Some(rid) => r == id as isize && new.tables() == old.tables().reset_column(rid, 1),
                None => r == -1 && new.tables() == old.tables(),
            }
        },
        None => {
            let id = old.mutex_list@.len();
            &&& new.mutex_list@.len() == id + 1
            &&& new.mutex_list@.take(id as int) == old.mutex_list@
            &&& new.has_mutex(id as int)
            &&& is_fresh_mutex(new.mutex_at(id as int), blocking)
            &&& new.share_resources@ == old.share_resources@.push(ShareResourceType::ShareMutex(id as usize))
            &&& new.tables() == old.tables().add_column(1, old.task_count as nat)
            &&& r == id as isize
        },
    }
}

/// Creates a mutex, blocking or spinning, and returns its id.
pub fn sys_mutex_create(p: &mut ProcessSync, blocking: bool) -> (r: isize)
    requires
        old(p).wf(),
    ensures
        final(p).wf(),
        mutex_create_post(*old(p), *final(p), blocking, r),
{
    match first_free_slot(&p.mutex_list) {
        Some(id) => {
            proof {
                lemma_first_free_in_range(p.mutex_list@, 0);
            }
            p.mutex_list[id] = Some(MutexState::new(blocking));
            match p.get_share_resource_id(&ShareResourceType::ShareMutex(id)) {
                Some(rid) => {
                    proof {
                        lemma_find_from_in_range(p.share_resources@, ShareResourceType::ShareMutex(id), 0);
                    }
                    p.reset_resource(rid, 1);
                    id as isize
                },
                None => -1,
            }
        },
        None => {
            p.mutex_list.push(Some(MutexState::new(blocking)));
            let id = p.mutex_list.len() - 1;
            p.add_resource(ShareResourceType::ShareMutex(id), 1);
            proof {
                assert(p.mutex_list@.take(id as int) =~= old(p).mutex_list@);
            }
            id as isize
        },
    }
}

/// What creating a semaphore that counts `res_count` does: as for a mutex,
/// with `res_count` free units in its column.
pub open spec fn semaphore_create_post(old: ProcessSync, new: ProcessSync, res_count: usize, r: isize) -> bool {
    &&& new.mutex_list@ == old.mutex_list@
    &&& new.condvar_list@ == old.condvar_list@
    &&& new.resource_wait_queue@ == old.resource_wait_queue@
    &&& new.enable_deadlock_detect == old.enable_deadlock_detect
    &&& new.task_count == old.task_count
    &&& match first_free(old.semaphore_list@) {
        Some(id) => {
            &&& new.semaphore_list@.len() == old.semaphore_list@.len()
            &&& new.has_semaphore(id)
            &&& is_fresh_semaphore(new.semaphore_at(id), res_count as isize)
            &&& forall|k: int|
                0 <= k < old.semaphore_list@.len() && k != id ==> new.semaphore_list@[k] == old.semaphore_list@[k]
            &&& new.share_resources@ == old.share_resources@
            &&& match resource_index(old.share_resources@, ShareResourceType::ShareSemaphore(id as usize)) {
                Some(rid) => r == id as isize && new.tables() == old.tables().reset_column(
                    rid,
                    res_count as isize as int,
                ),
                None => r == -1 && new.tables() == old.tables(),
            }
        },
        None => {
            let id = old.semaphore_list@.len();
            &&& new.semaphore_list@.len() == id + 1
            &&& new.semaphore_list@.take(id as int) == old.semaphore_list@
            &&& new.has_semaphore(id as int)
            &&& is_fresh_semaphore(new.semaphore_at(id as int), res_count as isize)
            &&& new.share_resources@ == old.share_resources@.push(ShareResourceType::ShareSemaphore(id as usize))
            &&& new.tables() == old.tables().add_column(res_count as isize as int, old.task_count as nat)
            &&& r == id as isize
        },
    }
}

/// Creates a semaphore that counts `res_count` and returns its id.
pub fn sys_semaphore_create(p: &mut ProcessSync, res_count: usize) -> (r: isize)
    requires
        old(p).wf(),
    ensures
        final(p).wf(),
        semaphore_create_post(*old(p), *final(p), res_count, r),
{
    let count = res_count as isize;
    match first_free_slot(&p.semaphore_list) {
        Some(id) => {
            proof {
                lemma_first_free_in_range(p.semaphore_list@, 0);
            }
            p.semaphore_list[id] = Some(SemaphoreState::new(count));
            match p.get_share_resource_id(&ShareResourceType::ShareSemaphore(id)) {
                Some(rid) => {
                    proof {
                        lemma_find_from_in_range(p.share_resources@, ShareResourceType::ShareSemaphore(id), 0);
                    }
                    p.reset_resource(rid, count);
                    id as isize
                },
                None => -1,
            }
        },
        None => {
            p.semaphore_list.push(Some(SemaphoreState::new(count)));
            let id = p.semaphore_list.len() - 1;
            p.add_resource(ShareResourceType::ShareSemaphore(id), count);
            proof {
                assert(p.semaphore_list@.take(id as int) =~= old(p).semaphore_list@);
            }
            id as isize
        },
    }
}

/// What creating a condition variable does: it takes the first empty slot,
/// or is appended, and the call returns its id.
pub open spec fn condvar_create_post(old: ProcessSync, new: ProcessSync, r: isize) -> bool {
    &&& new.mutex_list@ == old.mutex_list@
    &&& new.semaphore_list@ == old.semaphore_list@
    &&& new.share_resources@ == old.share_resources@
    &&& new.resource_wait_queue@ == old.resource_wait_queue@
    &&& new.enable_deadlock_detect == old.enable_deadlock_detect
    &&& new.task_count == old.task_count
    &&& new.tables() == old.tables()
    &&& match first_free(old.condvar_list@) {
        Some(id) => {
            &&& new.condvar_list@.len() == old.condvar_list@.len()
            &&& new.has_condvar(id)
            &&& new.condvar_at(id).wait_queue@.len() == 0
            &&& forall|k: int| 0 <= k < old.condvar_list@.len() && k != id ==> new.condvar_list@[k] == old.condvar_list@[k]
            &&& r == id as isize
        },
        None => {
            let id = old.condvar_list@.len();
            &&& new.condvar_list@.len() == id + 1
            &&& new.condvar_list@.take(id as int) == old.condvar_list@
            &&& new.has_condvar(id as int)
            &&& new.condvar_at(id as int).wait_queue@.len() == 0
            &&& r == id as isize
        },
    }
}

/// Creates a condition variable and returns its id.
pub fn sys_condvar_create(p: &mut ProcessSync) -> (r: isize)
    requires
        old(p).wf(),
    ensures
        final(p).wf(),
        condvar_create_post(*old(p), *final(p), r),
{
    let id = match first_free_slot(&p.condvar_list) {
        Some(id) => {
            proof {
                lemma_first_free_in_range(p.condvar_list@, 0);
            }
            p.condvar_list[id] = Some(CondvarState::new());
            id
        },
        None => {
            p.condvar_list.push(Some(CondvarState::new()));
            let id = p.condvar_list.len() - 1;
            proof {
                assert(p.condvar_list@.take(id as int) =~= old(p).condvar_list@);
            }
            id
        },
    };
    id as isize
}

/// Task `tid` locks the mutex `mutex_id`. Under deadlock avoidance this is a
/// request for one unit of the mutex's resource; otherwise the mutex itself
/// is locked.
pub fn sys_mutex_lock(p: &mut ProcessSync, tid: usize, mutex_id: usize) -> (r: SyncAction)
    requires
        old(p).wf(),
        old(p).enable_deadlock_detect ==> acquire_fits(*old(p), tid, ShareResourceType::ShareMutex(mutex_id)),
        !old(p).enable_deadlock_detect ==> old(p).has_mutex(mutex_id as int),
    ensures
        final(p).wf(),
        old(p).enable_deadlock_detect ==> acquire_post(
            *old(p),
            *final(p),
            tid,
            ShareResourceType::ShareMutex(mutex_id),
            r,
        ),
        !old(p).enable_deadlock_detect ==> ProcessSync::mutex_lock_post(
            *old(p),
            *final(p),
            mutex_id as int,
            tid,
            r,
        ),
{
    if p.enable_deadlock_detect {
        acquire(p, tid, ShareResourceType::ShareMutex(mutex_id))
    } else {
        let r = p.mutex_lock(mutex_id, tid);
        proof {
            ProcessSync::lemma_wf_kept(old(p), p);
        }
        r
    }
}

/// Unlocks the mutex `mutex_id`. Under deadlock avoidance this frees one
/// unit of the mutex's resource and hands what it can to the first waiting
/// task; otherwise the mutex itself is unlocked.
pub fn sys_mutex_unlock(p: &mut ProcessSync, mutex_id: usize) -> (r: SyncAction)
    requires
        old(p).wf(),
        old(p).enable_deadlock_detect ==> release_fits(*old(p), ShareResourceType::ShareMutex(mutex_id)),
        !old(p).enable_deadlock_detect ==> old(p).has_mutex(mutex_id as int) && (old(p).mutex_at(
            mutex_id as int,
        ).blocking ==> old(p).mutex_at(mutex_id as int).locked),
    ensures
        final(p).wf(),
        old(p).enable_deadlock_detect ==> release_post(
            *old(p),
            *final(p),
            ShareResourceType::ShareMutex(mutex_id),
            r,
        ),
        !old(p).enable_deadlock_detect ==> ProcessSync::mutex_unlock_post(
            *old(p),
            *final(p),
            mutex_id as int,
            r,
        ),
{
    if p.enable_deadlock_detect {
        release(p, ShareResourceType::ShareMutex(mutex_id))
    } else {
        let r = p.mutex_unlock(mutex_id);
        proof {
            ProcessSync::lemma_wf_kept(old(p), p);
        }
        r
    }
}

/// Signals the semaphore `sem_id`. Under deadlock avoidance this frees one
/// unit of the semaphore's resource and hands what it can to the first
/// waiting task; otherwise the semaphore itself is signalled.
pub fn sys_semaphore_up(p: &mut ProcessSync, sem_id: usize) -> (r: SyncAction)
    requires
        old(p).wf(),
        old(p).enable_deadlock_detect ==> release_fits(*old(p), ShareResourceType::ShareSemaphore(sem_id)),
        !old(p).enable_deadlock_detect ==> old(p).has_semaphore(sem_id as int) && old(p).semaphore_at(
            sem_id as int,
        ).count < isize::MAX,
    ensures
        final(p).wf(),
        old(p).enable_deadlock_detect ==> release_post(
            *old(p),
            *final(p),
            ShareResourceType::ShareSemaphore(sem_id),
            r,
        ),
        !old(p).enable_deadlock_detect ==> ProcessSync::semaphore_up_post(
            *old(p),
            *final(p),
            sem_id as int,
            r,
        ),
{
    if p.enable_deadlock_detect {
        release(p, ShareResourceType::ShareSemaphore(sem_id))
    } else {
        let r = p.semaphore_up(sem_id);
        proof {
            ProcessSync::lemma_wf_kept(old(p), p);
        }
        r
    }
}

/// Task `tid` waits on the semaphore `sem_id`. Under deadlock avoidance this
/// is a request for one unit of the semaphore's resource; otherwise the
/// semaphore itself is waited on.
pub fn sys_semaphore_down(p: &mut ProcessSync, tid: usize, sem_id: usize) -> (r: SyncAction)
    requires
        old(p).wf(),
        old(p).enable_deadlock_detect ==> acquire_fits(
            *old(p),
            tid,
            ShareResourceType::ShareSemaphore(sem_id),
        ),
        !old(p).enable_deadlock_detect ==> old(p).has_semaphore(sem_id as int) && old(p).semaphore_at(
            sem_id as int,
        ).count > isize::MIN,
    ensures
        final(p).wf(),
        old(p).enable_deadlock_detect ==> acquire_post(
            *old(p),
            *final(p),
            tid,
            ShareResourceType::ShareSemaphore(sem_id),
            r,
        ),
        !old(p).enable_deadlock_detect ==> ProcessSync::semaphore_down_post(
            *old(p),
            *final(p),
            sem_id as int,
            tid,
            r,
        ),
{
    if p.enable_deadlock_detect {
        acquire(p, tid, ShareResourceType::ShareSemaphore(sem_id))
    } else {
        let r = p.semaphore_down(sem_id, tid);
        proof {
            ProcessSync::lemma_wf_kept(old(p), p);
        }
        r
    }
}

/// Signals the condition variable `condvar_id`: the first task that waits
/// on it, if any, is woken.
pub fn sys_condvar_signal(p: &mut ProcessSync, condvar_id: usize) -> (r: SyncAction)
    requires
        old(p).wf(),
        old(p).has_condvar(condvar_id as int),
    ensures
        final(p).wf(),
        ProcessSync::only_condvar_changed(old(p), final(p), condvar_id as int),
        old(p).condvar_at(condvar_id as int).wait_queue@.len() > 0 ==> r == SyncAction::Wake(
            old(p).condvar_at(condvar_id as int).wait_queue@[0],
        ) && final(p).condvar_at(condvar_id as int).wait_queue@ == old(p).condvar_at(
            condvar_id as int,
        ).wait_queue@.drop_first(),
        old(p).condvar_at(condvar_id as int).wait_queue@.len() == 0 ==> r == SyncAction::Done(0)
            && final(p).condvar_list@ == old(p).condvar_list@,
{
    let r = p.condvar_signal(condvar_id);
    proof {
        ProcessSync::lemma_wf_kept(old(p), p);
    }
    r
}

/// Task `tid` waits on the condition variable `condvar_id`, releasing the
/// mutex `mutex_id`: the mutex is unlocked (which may wake a task, returned
/// as the action), and the task is queued on the condition variable. The
/// caller then blocks the task and, once it is woken, locks the mutex again
/// with [`ProcessSync::mutex_lock`].
pub fn sys_condvar_wait(p: &mut ProcessSync, tid: usize, condvar_id: usize, mutex_id: usize) -> (r: SyncAction)
    requires
        old(p).wf(),
        old(p).has_condvar(condvar_id as int),
        old(p).has_mutex(mutex_id as int),
        old(p).mutex_at(mutex_id as int).blocking ==> old(p).mutex_at(mutex_id as int).locked,
    ensures
        final(p).wf(),
        exists|mid: ProcessSync|
            {
                &&& #[trigger] ProcessSync::mutex_unlock_post(*old(p), mid, mutex_id as int, r)
                &&& ProcessSync::only_condvar_changed(&mid, final(p), condvar_id as int)
                &&& final(p).condvar_at(condvar_id as int).wait_queue@ == mid.condvar_at(
                    condvar_id as int,
                ).wait_queue@.push(tid)
            },
{
    let r = p.mutex_unlock(mutex_id);
    let ghost mid = *p;
    p.condvar_enqueue(condvar_id, tid);
    proof {
        ProcessSync::lemma_wf_kept(old(p), p);
    }
    r
}

/// Turns deadlock avoidance off (0) or on (1); any other value is refused
/// with -1.
pub fn sys_enable_deadlock_detect(p: &mut ProcessSync, enabled: usize) -> (r: isize)
    requires
        old(p).wf(),
    ensures
        final(p).wf(),
        final(p).resource_wait_queue@ == old(p).resource_wait_queue@,
        final(p).tables() == old(p).tables(),
        final(p).mutex_list@ == old(p).mutex_list@,
        final(p).semaphore_list@ == old(p).semaphore_list@,
        final(p).condvar_list@ == old(p).condvar_list@,
        final(p).share_resources@ == old(p).share_resources@,
        final(p).task_count == old(p).task_count,
        enabled == 0 ==> r == 0 && !final(p).enable_deadlock_detect,
        enabled == 1 ==> r == 0 && final(p).enable_deadlock_detect,
        enabled > 1 ==> r == -1 && final(p).enable_deadlock_detect == old(p).enable_deadlock_detect,
{
    match enabled {
        0 => {
            p.enable_deadlock_detect = false;
        },
        1 => {
            p.enable_deadlock_detect = true;
        },
        _ => {
            return -1;
        },
    }
    0
}

/// When a task that goes to sleep at `now_ms` for `ms` milliseconds is to
/// be woken; the caller sets a timer for it and blocks the task, and the
/// call returns 0.
pub fn sys_sleep(now_ms: usize, ms: usize) -> (expire_ms: usize)
    requires
        now_ms + ms <= usize::MAX,
    ensures
        expire_ms == now_ms + ms,
{
    now_ms + ms
}

} // verus!
