//! The ready queue: stride scheduling over two queues.
//!
//! Each ready task carries a stride and a pass; the task with the smallest
//! stride runs next, and its stride grows by its pass each time it is put
//! back. When a stride would overflow, a rewind period starts: tasks whose
//! stride overflows go to the inactive queue, the others to the active one,
//! and a counter records how many tasks were put back during the period.
//! Once the active queue runs dry the queues swap and the period ends; while
//! the counter then runs down, strides in the upper half of their range are
//! reset to zero.
use vstd::prelude::*;
use vstd::multiset::Multiset;
use crate::config::{BIG_STRIDE, STRIDE_MAX, TASK_INIT_PRIORITY};

verus! {

broadcast use {vstd::seq_lib::group_to_multiset_ensures, vstd::multiset::group_multiset_axioms};

/// What the scheduler knows of a ready task: its id, its stride and its
/// pass.
#[derive(PartialEq, Eq, Structural, Clone, Copy, Debug)]
pub struct StrideTask {
    pub id: usize,
    pub stride: u64,
    pub pass: u64,
}

/// `a + b` taken modulo 2^64.
pub open spec fn wrapped_sum(a: u64, b: u64) -> u64 {
    if a + b > u64::MAX {
        (a + b - 0x1_0000_0000_0000_0000int) as u64
    } else {
        (a + b) as u64
    }
}

impl StrideTask {
    /// A task with stride 0 and the pass of the initial priority.
    pub fn new(id: usize) -> (r: Self)
        ensures
            r.id == id,
            r.stride == 0,
            r.pass == BIG_STRIDE / TASK_INIT_PRIORITY,
    {
        StrideTask { id, stride: 0, pass: BIG_STRIDE / TASK_INIT_PRIORITY }
    }

    /// The stride after one more step, modulo 2^64.
    pub open spec fn stepped(self) -> Self {
        StrideTask { stride: wrapped_sum(self.stride, self.pass), ..self }
    }

    /// One more step would overflow the stride.
    pub open spec fn overflows(self) -> bool {
        self.stride + self.pass > u64::MAX
    }

    /// Whether one more step would overflow the stride.
    pub fn stride_overflow(&self) -> (r: bool)
        ensures
            r == self.overflows(),
    {
        self.stride > u64::MAX - self.pass
    }

    /// Advances the stride by the pass, modulo 2^64, and returns the new
    /// stride.
    pub fn stride_add_step(&mut self) -> (r: u64)
        ensures
            *final(self) == old(self).stepped(),
            r == final(self).stride,
    {
        if self.stride > u64::MAX - self.pass {
            self.stride = self.stride - (u64::MAX - self.pass) - 1;
        } else {
            self.stride = self.stride + self.pass;
        }
        self.stride
    }

    /// Resets the stride to zero.
    pub fn stride_clear(&mut self)
        ensures
            *final(self) == (StrideTask { stride: 0, ..*old(self) }),
    {
        self.stride = 0;
    }
}

/// `t` has the smallest stride of `bag`.
pub open spec fn is_min_stride(t: StrideTask, bag: Multiset<StrideTask>) -> bool {
    forall|u: StrideTask| #[trigger] bag.contains(u) ==> t.stride <= u.stride
}

/// The ready queue of the scheduler.
pub struct TaskManager {
    ready_queue_0: Vec<StrideTask>,
    ready_queue_1: Vec<StrideTask>,
    queue_0_active: bool,
    rewind_counter: usize,
    rewind_time: bool,
}

/// The task as it is queued by `add` in the counting-down phase of a
/// rewind: stepped, then reset to zero if the new stride is in the upper
/// half of its range.
pub open spec fn rewound(t: StrideTask) -> StrideTask {
    if t.stepped().stride > STRIDE_MAX / 2 {
        StrideTask { stride: 0, ..t.stepped() }
    } else {
        t.stepped()
    }
}

impl TaskManager {
    /// The tasks of queue 0.
    pub closed spec fn queue_0(&self) -> Multiset<StrideTask> {
        self.ready_queue_0@.to_multiset()
    }

    /// The tasks of queue 1.
    pub closed spec fn queue_1(&self) -> Multiset<StrideTask> {
        self.ready_queue_1@.to_multiset()
    }

    /// Queue 0 is the one tasks are taken from.
    pub closed spec fn is_queue_0_active(&self) -> bool {
        self.queue_0_active
    }

    /// How many tasks were put back since the present rewind began.
    pub closed spec fn rewinds(&self) -> nat {
        self.rewind_counter as nat
    }

    /// A rewind period is under way.
    pub closed spec fn in_rewind(&self) -> bool {
        self.rewind_time
    }

    /// The queue tasks are taken from.
    pub open spec fn active(&self) -> Multiset<StrideTask> {
        if self.is_queue_0_active() {
            self.queue_0()
        } else {
            self.queue_1()
        }
    }

    /// The other queue.
    pub open spec fn inactive(&self) -> Multiset<StrideTask> {
        if self.is_queue_0_active() {
            self.queue_1()
        } else {
            self.queue_0()
        }
    }

    /// All ready tasks.
    pub open spec fn all_tasks(&self) -> Multiset<StrideTask> {
        self.queue_0().add(self.queue_1())
    }

    /// An empty ready queue: queue 0 is active and no rewind is under way.
    pub fn new() -> (r: Self)
        ensures
            r.queue_0() =~= Multiset::empty(),
            r.queue_1() =~= Multiset::empty(),
            r.is_queue_0_active(),
            r.rewinds() == 0,
            !r.in_rewind(),
    {
        TaskManager {
            ready_queue_0: Vec::new(),
            ready_queue_1: Vec::new(),
            queue_0_active: true,
            rewind_counter: 0,
            rewind_time: false,
        }
    }

    /// How many tasks were put back since the present rewind began.
    pub fn rewind_count(&self) -> (r: usize)
        ensures
            r == self.rewinds(),
    {
        self.rewind_counter
    }

    /// Whether a rewind period is under way.
    pub fn rewind_active(&self) -> (r: bool)
        ensures
            r == self.in_rewind(),
    {
        self.rewind_time
    }

    /// `add` cannot overflow its counter.
    pub open spec fn add_fits(&self, task: StrideTask) -> bool {
        task.overflows() || self.in_rewind() ==> self.rewinds() < usize::MAX
    }

    /// What putting `task` back does.
    /// 1. If its stride overflows, a rewind period begins (or goes on), the
    ///    counter grows, and the stepped task goes to the inactive queue.
    /// 2. Otherwise, during a rewind period, the counter grows and the
    ///    stepped task goes to the active queue.
    /// 3. Otherwise, while the counter is not zero, it drops by one, and the
    ///    stepped task, reset to zero if its stride is in the upper half,
    ///    goes to the active queue.
    /// 4. Otherwise the stepped task goes to the active queue.
    pub open spec fn add_post(old: Self, new: Self, task: StrideTask) -> bool {
        &&& new.is_queue_0_active() == old.is_queue_0_active()
        &&& if task.overflows() {
            &&& new.in_rewind()
            &&& new.rewinds() == old.rewinds() + 1
            &&& new.active() == old.active()
            &&& new.inactive() == old.inactive().insert(task.stepped())
        } else if old.in_rewind() {
            &&& new.in_rewind()
            &&& new.rewinds() == old.rewinds() + 1
            &&& new.active() == old.active().insert(task.stepped())
            &&& new.inactive() == old.inactive()
        } else if old.rewinds() > 0 {
            &&& !new.in_rewind()
            &&& new.rewinds() == old.rewinds() - 1
            &&& new.active() == old.active().insert(rewound(task))
            &&& new.inactive() == old.inactive()
        } else {
            &&& !new.in_rewind()
            &&& new.rewinds() == 0
            &&& new.active() == old.active().insert(task.stepped())
            &&& new.inactive() == old.inactive()
        }
    }

    /// What taking the next task does. The task with the smallest stride of
    /// the active queue is taken. If the active queue is empty, the queues
    /// swap, the rewind period ends, and the task with the smallest stride
    /// of the new active queue is taken; `None` when both are empty.
    pub open spec fn fetch_post(old: Self, new: Self, r: Option<StrideTask>) -> bool {
        &&& new.rewinds() == old.rewinds()
        &&& if old.active().len() > 0 {
            &&& new.is_queue_0_active() == old.is_queue_0_active()
            &&& new.in_rewind() == old.in_rewind()
            &&& (r matches Some(t) && old.active().contains(t) && is_min_stride(t, old.active())
                && new.active() == old.active().remove(t))
            &&& new.inactive() == old.inactive()
        } else {
            &&& new.is_queue_0_active() == !old.is_queue_0_active()
            &&& !new.in_rewind()
            &&& new.inactive() == old.active()
            &&& if old.inactive().len() > 0 {
                (r matches Some(t) && old.inactive().contains(t) && is_min_stride(t, old.inactive())
                    && new.active() == old.inactive().remove(t))
            } else {
                r is None && new.active() == old.inactive()
            }
        }
    }

    /// Puts a task back into the ready queue.
    pub fn add(&mut self, task: StrideTask)
        requires
            old(self).add_fits(task),
        ensures
            Self::add_post(*old(self), *final(self), task),
    {
        let mut task = task;
        let overflow = task.stride_overflow();
        if overflow {
            self.rewind_time = true;
            self.rewind_counter = self.rewind_counter + 1;
            task.stride_add_step();
            if self.queue_0_active {
                self.ready_queue_1.push(task);
            } else {
                self.ready_queue_0.push(task);
            }
            return ;
        }
        if self.rewind_time {
            self.rewind_counter = self.rewind_counter + 1;
            task.stride_add_step();
            if self.queue_0_active {
                self.ready_queue_0.push(task);
            } else {
                self.ready_queue_1.push(task);
            }
            return ;
        }
        if self.rewind_counter > 0 {
            self.rewind_counter = self.rewind_counter - 1;
            let stride = task.stride_add_step();
            if stride > STRIDE_MAX / 2 {
                task.stride_clear();
            }
            if self.queue_0_active {
                self.ready_queue_0.push(task);
            } else {
                self.ready_queue_1.push(task);
            }
            return ;
        }
        task.stride_add_step();
        if self.queue_0_active {
            self.ready_queue_0.push(task);
        } else {
            self.ready_queue_1.push(task);
        }
    }

    /// Takes the task with the smallest stride out of `queue`.
    fn pop_min(queue: &mut Vec<StrideTask>) -> (r: Option<StrideTask>)
        ensures
            old(queue)@.len() == 0 ==> r is None && final(queue)@ == old(queue)@,
            old(queue)@.len() > 0 ==> (r matches Some(t) && old(queue)@.to_multiset().contains(t)
                && is_min_stride(t, old(queue)@.to_multiset()) && final(queue)@.to_multiset()
                == old(queue)@.to_multiset().remove(t)),
    {
        if queue.len() == 0 {
            return None;
        }
        let mut best: usize = 0;
        let mut i: usize = 1;
        while i < queue.len()
            invariant
                0 < queue@.len(),
                best < queue@.len(),
                1 <= i <= queue@.len(),
                best < i,
                forall|k: int| 0 <= k < i ==> queue@[best as int].stride <= #[trigger] queue@[k].stride,
            decreases queue@.len() - i,
        {
            if queue[i].stride < queue[best].stride {
                best = i;
            }
            i += 1;
        }
        let ghost s = queue@;
        let t = queue.remove(best);
        proof {
            vstd::seq_lib::to_multiset_remove(s, best as int);
            assert(s[best as int] == t);
            assert forall|u: StrideTask| #[trigger] s.to_multiset().contains(u) implies t.stride
                <= u.stride by {
                assert(s.contains(u));
                let k = choose|k: int| 0 <= k < s.len() && s[k] == u;
                assert(s[best as int].stride <= s[k].stride);
            }
            assert(s.contains(t));
        }
        Some(t)
    }

    /// Takes the next task to run out of the ready queue.
    pub fn fetch(&mut self) -> (r: Option<StrideTask>)
        ensures
            Self::fetch_post(*old(self), *final(self), r),
    {
        let first = if self.queue_0_active {
            Self::pop_min(&mut self.ready_queue_0)
        } else {
            Self::pop_min(&mut self.ready_queue_1)
        };
        match first {
            Some(t) => {
                return Some(t);
            },
            None => {},
        }
        self.queue_0_active = !self.queue_0_active;
        self.rewind_time = false;
        if self.queue_0_active {
            Self::pop_min(&mut self.ready_queue_0)
        } else {
            Self::pop_min(&mut self.ready_queue_1)
        }
    }
}

/// Every two tasks of `bag` have strides at most `bound` apart.
pub open spec fn spread_within(bag: Multiset<StrideTask>, bound: int) -> bool {
    forall|u: StrideTask, v: StrideTask|
        #[trigger] bag.contains(u) && #[trigger] bag.contains(v) ==> u.stride - v.stride <= bound
}

/// Every task of `bag` has a pass of at most `bound`.
pub open spec fn passes_within(bag: Multiset<StrideTask>, bound: int) -> bool {
    forall|u: StrideTask| #[trigger] bag.contains(u) ==> u.pass <= bound
}

/// Outside a rewind, with every pass at most `BIG_STRIDE / 2` and the
/// strides of the ready tasks at most `BIG_STRIDE / 2` apart, taking the
/// next task and putting it back (when its stride does not overflow) keeps
/// the strides at most `BIG_STRIDE / 2` apart, all in the active queue.
pub proof fn lemma_stride_spread_kept(m0: TaskManager, m1: TaskManager, m2: TaskManager, t: StrideTask)
    requires
        m0.rewinds() == 0,
        !m0.in_rewind(),
        m0.inactive().len() == 0,
        spread_within(m0.active(), (BIG_STRIDE / 2) as int),
        passes_within(m0.active(), (BIG_STRIDE / 2) as int),
        TaskManager::fetch_post(m0, m1, Some(t)),
        TaskManager::add_post(m1, m2, t),
        !t.overflows(),
    ensures
        m2.rewinds() == 0,
        !m2.in_rewind(),
        m2.inactive().len() == 0,
        spread_within(m2.active(), (BIG_STRIDE / 2) as int),
        passes_within(m2.active(), (BIG_STRIDE / 2) as int),
{
    let p = (BIG_STRIDE / 2) as int;
    assert(m0.active().len() > 0);
    assert(m0.active().contains(t));
    let t2 = t.stepped();
    assert(t2.stride == t.stride + t.pass);
    assert forall|u: StrideTask| #[trigger] m2.active().contains(u) implies t.stride <= u.stride
        <= t.stride + p && u.pass <= p by {
        if u != t2 {
            assert(m1.active().contains(u));
            assert(m0.active().contains(u));
        }
    }
}

/// Taking the next task gives nothing exactly when no task is ready; a
/// task that is given leaves the ready tasks, and nothing else does.
pub proof fn lemma_fetch_takes_one(m0: TaskManager, m1: TaskManager, r: Option<StrideTask>)
    requires
        TaskManager::fetch_post(m0, m1, r),
    ensures
        r is None <==> m0.all_tasks().len() == 0,
        r matches Some(t) ==> m0.all_tasks().contains(t) && m1.all_tasks() == m0.all_tasks().remove(t),
        r is None ==> m1.all_tasks() == m0.all_tasks(),
{
    if m0.is_queue_0_active() {
        assert(m0.all_tasks() == m0.active().add(m0.inactive()));
    } else {
        assert(m0.all_tasks() =~= m0.active().add(m0.inactive()));
    }
    if m1.is_queue_0_active() {
        assert(m1.all_tasks() == m1.active().add(m1.inactive()));
    } else {
        assert(m1.all_tasks() =~= m1.active().add(m1.inactive()));
    }
    if m0.active().len() > 0 {
        let t = r->0;
        assert(m1.all_tasks() =~= m0.all_tasks().remove(t));
    } else if m0.inactive().len() > 0 {
        let t = r->0;
        assert(m1.all_tasks() =~= m0.all_tasks().remove(t));
    } else {
        assert(m1.all_tasks() =~= m0.all_tasks());
    }
}

/// Putting a task back adds exactly one ready task.
pub proof fn lemma_add_puts_one(m0: TaskManager, m1: TaskManager, t: StrideTask)
    requires
        TaskManager::add_post(m0, m1, t),
    ensures
        m1.all_tasks().len() == m0.all_tasks().len() + 1,
        m1.all_tasks().count(t.stepped()) + m1.all_tasks().count(rewound(t)) > 0,
{
    if m0.is_queue_0_active() {
        assert(m0.all_tasks() == m0.active().add(m0.inactive()));
        assert(m1.all_tasks() == m1.active().add(m1.inactive()));
    } else {
        assert(m0.all_tasks() =~= m0.active().add(m0.inactive()));
        assert(m1.all_tasks() =~= m1.active().add(m1.inactive()));
    }
}

/// A task whose stride overflows when it is put back does not overtake
/// the tasks of the active queue: while that queue is not empty, the next
/// task taken is one that was already in it.
pub proof fn lemma_overflowed_task_waits(
    m0: TaskManager,
    m1: TaskManager,
    m2: TaskManager,
    t: StrideTask,
    r: Option<StrideTask>,
)
    requires
        TaskManager::add_post(m0, m1, t),
        t.overflows(),
        m0.active().len() > 0,
        TaskManager::fetch_post(m1, m2, r),
    ensures
        r matches Some(u) && m0.active().contains(u),
        m2.inactive().contains(t.stepped()),
{
}

/// `q` is how `add` queues task `t`: stepped, or stepped and reset to zero.
pub open spec fn queued_as(t: StrideTask, q: StrideTask) -> bool {
    q == t.stepped() || q == rewound(t)
}

/// `ms` are the states of the ready queue as the tasks `ts` are put back in
/// turn.
pub open spec fn is_put_run(ms: Seq<TaskManager>, ts: Seq<StrideTask>) -> bool {
    &&& ms.len() == ts.len() + 1
    &&& forall|i: int| 0 <= i < ts.len() ==> #[trigger] TaskManager::add_post(ms[i], ms[i + 1], ts[i])
}

/// `ms` are the states of the ready queue as tasks are taken in turn, and
/// `rs` what each take gave.
pub open spec fn is_take_run(ms: Seq<TaskManager>, rs: Seq<Option<StrideTask>>) -> bool {
    &&& ms.len() == rs.len() + 1
    &&& forall|i: int| 0 <= i < rs.len() ==> #[trigger] TaskManager::fetch_post(ms[i], ms[i + 1], rs[i])
}

/// The tasks given by the first `n` takes.
pub open spec fn taken(rs: Seq<Option<StrideTask>>, n: nat) -> Seq<StrideTask> {
    Seq::new(n, |i: int| rs[i]->0)
}

/// Putting a task back adds to the ready tasks exactly its queued form.
pub proof fn lemma_add_queues_one(m0: TaskManager, m1: TaskManager, t: StrideTask) -> (q: StrideTask)
    requires
        TaskManager::add_post(m0, m1, t),
    ensures
        queued_as(t, q),
        m1.all_tasks() == m0.all_tasks().insert(q),
{
    let q = if !t.overflows() && !m0.in_rewind() && m0.rewinds() > 0 {
        rewound(t)
    } else {
        t.stepped()
    };
    if m0.is_queue_0_active() {
        assert(m1.all_tasks() =~= m0.all_tasks().insert(q));
    } else {
        assert(m1.all_tasks() =~= m0.all_tasks().insert(q));
    }
    q
}

/// After a run of puts the ready tasks are those before it and the queued
/// form of each task put, each once.
pub proof fn lemma_put_run(ms: Seq<TaskManager>, ts: Seq<StrideTask>) -> (qs: Seq<StrideTask>)
    requires
        is_put_run(ms, ts),
    ensures
        qs.len() == ts.len(),
        forall|i: int| 0 <= i < ts.len() ==> queued_as(ts[i], #[trigger] qs[i]),
        ms.last().all_tasks() == ms[0].all_tasks().add(qs.to_multiset()),
    decreases ts.len(),
{
    if ts.len() == 0 {
        assert(ms[0].all_tasks().add(Seq::<StrideTask>::empty().to_multiset()) =~= ms[0].all_tasks());
        Seq::empty()
    } else {
        let k = ts.len() - 1;
        let ms2 = ms.drop_last();
        let ts2 = ts.drop_last();
        assert forall|i: int| 0 <= i < ts2.len() implies #[trigger] TaskManager::add_post(
            ms2[i],
            ms2[i + 1],
            ts2[i],
        ) by {
            assert(TaskManager::add_post(ms[i], ms[i + 1], ts[i]));
        }
        let qs2 = lemma_put_run(ms2, ts2);
        assert(TaskManager::add_post(ms[k], ms[k + 1], ts[k]));
        let q = lemma_add_queues_one(ms[k], ms[k + 1], ts[k]);
        let qs = qs2.push(q);
        assert(ms.last() == ms[k + 1]);
        assert(ms.last().all_tasks() =~= ms[0].all_tasks().add(qs.to_multiset()));
        qs
    }
}

/// Taking one more time than there are ready tasks gives every ready task
/// once and then nothing.
pub proof fn lemma_take_run(ms: Seq<TaskManager>, rs: Seq<Option<StrideTask>>)
    requires
        is_take_run(ms, rs),
        rs.len() == ms[0].all_tasks().len() + 1,
    ensures
        forall|i: int| 0 <= i < rs.len() - 1 ==> #[trigger] rs[i] is Some,
        rs[rs.len() - 1] is None,
        taken(rs, (rs.len() - 1) as nat).to_multiset() == ms[0].all_tasks(),
    decreases rs.len(),
{
    let i0: int = 0;
    assert(TaskManager::fetch_post(ms[i0], ms[i0 + 1], rs[i0]));
    lemma_fetch_takes_one(ms[0], ms[1], rs[0]);
    if ms[0].all_tasks().len() == 0 {
        assert(taken(rs, 0) =~= Seq::<StrideTask>::empty());
    } else {
        let t = rs[0]->0;
        let ms2 = ms.drop_first();
        let rs2 = rs.drop_first();
        assert forall|i: int| 0 <= i < rs2.len() implies #[trigger] TaskManager::fetch_post(
            ms2[i],
            ms2[i + 1],
            rs2[i],
        ) by {
            let j = i + 1;
            assert(TaskManager::fetch_post(ms[j], ms[j + 1], rs[j]));
        }
        assert(ms2[0] == ms[1]);
        lemma_take_run(ms2, rs2);
        let n = (rs.len() - 1) as nat;
        assert(taken(rs, n) =~= seq![t] + taken(rs2, (n - 1) as nat));
        vstd::seq_lib::lemma_multiset_commutative(seq![t], taken(rs2, (n - 1) as nat));
        assert(seq![t].to_multiset() =~= Multiset::empty().insert(t)) by {
            vstd::seq_lib::to_multiset_build(Seq::<StrideTask>::empty(), t);
            assert(Seq::<StrideTask>::empty().push(t) =~= seq![t]);
        }
        assert(taken(rs, n).to_multiset() =~= ms[0].all_tasks());
        assert forall|i: int| 0 <= i < rs.len() - 1 implies #[trigger] rs[i] is Some by {
            if i > 0 {
                assert(rs2[i - 1] is Some);
            }
        }
        assert(rs[rs.len() - 1] == rs2[rs2.len() - 1]);
    }
}

/// From an empty ready queue, putting `k` tasks back and then taking `k + 1`
/// times gives each task put exactly once, in its queued form, in some
/// order, and then nothing: no task is lost or doubled, overflow or not.
pub proof fn lemma_puts_then_takes(
    ms: Seq<TaskManager>,
    ts: Seq<StrideTask>,
    ns: Seq<TaskManager>,
    rs: Seq<Option<StrideTask>>,
)
    requires
        is_put_run(ms, ts),
        ms[0].all_tasks().len() == 0,
        is_take_run(ns, rs),
        ns[0] == ms.last(),
        rs.len() == ts.len() + 1,
    ensures
        forall|i: int| 0 <= i < ts.len() ==> #[trigger] rs[i] is Some,
        rs[ts.len() as int] is None,
        exists|qs: Seq<StrideTask>|
            {
                &&& qs.len() == ts.len()
                &&& forall|i: int| 0 <= i < ts.len() ==> queued_as(ts[i], #[trigger] qs[i])
                &&& #[trigger] taken(rs, ts.len()).to_multiset() == qs.to_multiset()
            },
{
    let qs = lemma_put_run(ms, ts);
    assert(ms[0].all_tasks() =~= Multiset::empty());
    assert(ns[0].all_tasks() =~= qs.to_multiset());
    assert(ns[0].all_tasks().len() == ts.len());
    lemma_take_run(ns, rs);
    assert(taken(rs, ts.len()).to_multiset() == qs.to_multiset());
}


/// Putting back a task whose stride does not overflow, outside a rewind
/// period, keeps the period closed and the queues in place. While the
/// counter is not zero it drops by exactly one and the task is queued with
/// its stride advanced by its pass, or with stride 0 when that lands in the
/// upper half of the range; once the counter is zero it stays zero and the
/// task is queued with its stride advanced by its pass.
pub proof fn lemma_add_outside_rewind(m0: TaskManager, m1: TaskManager, t: StrideTask)
    requires
        TaskManager::add_post(m0, m1, t),
        !t.overflows(),
        !m0.in_rewind(),
    ensures
        !m1.in_rewind(),
        m1.is_queue_0_active() == m0.is_queue_0_active(),
        m1.inactive() == m0.inactive(),
        m0.rewinds() > 0 ==> m1.rewinds() + 1 == m0.rewinds(),
        m0.rewinds() == 0 ==> m1.rewinds() == 0,
        m1.active() == m0.active().insert(
            StrideTask {
                id: t.id,
                stride: (if m0.rewinds() > 0 && t.stride + t.pass > STRIDE_MAX / 2 {
                    0
                } else {
                    t.stride + t.pass
                }) as u64,
                pass: t.pass,
            },
        ),
{
}

/// Taking a task keeps the counter, and outside a rewind period the
/// period stays closed.
pub proof fn lemma_fetch_keeps_counter(m0: TaskManager, m1: TaskManager, r: Option<StrideTask>)
    requires
        TaskManager::fetch_post(m0, m1, r),
    ensures
        m1.rewinds() == m0.rewinds(),
        !m0.in_rewind() ==> !m1.in_rewind(),
{
}

/// Outside a rewind period, with the counter at `c`, putting back `c + 1`
/// tasks whose strides do not overflow counts the counter down by one per
/// task to zero; the last task is then queued with its stride advanced by
/// exactly its pass, with no reset, and the counter stays zero.
pub proof fn lemma_countdown_then_plain_step(ms: Seq<TaskManager>, ts: Seq<StrideTask>)
    requires
        is_put_run(ms, ts),
        !ms[0].in_rewind(),
        ts.len() == ms[0].rewinds() + 1,
        forall|i: int| 0 <= i < ts.len() ==> !(#[trigger] ts[i]).overflows(),
    ensures
        forall|i: int| 0 <= i < ts.len() ==> (#[trigger] ms[i]).rewinds() == ms[0].rewinds() - i && !ms[i].in_rewind(),
        ({
            let k = ts.len() - 1;
            &&& ms[k].rewinds() == 0
            &&& ms[k + 1].rewinds() == 0
            &&& !ms[k + 1].in_rewind()
            &&& ms[k + 1].active() == ms[k].active().insert(
                StrideTask { id: ts[k].id, stride: (ts[k].stride + ts[k].pass) as u64, pass: ts[k].pass },
            )
        }),
{
    let c = ms[0].rewinds();
    assert forall|i: int| 0 <= i < ts.len() implies (#[trigger] ms[i]).rewinds() == c - i && !ms[i].in_rewind() by {
        lemma_countdown_prefix(ms, ts, i);
    }
    let k = ts.len() - 1;
    assert(ms[k].rewinds() == c - k);
    assert(TaskManager::add_post(ms[k], ms[k + 1], ts[k]));
    lemma_add_outside_rewind(ms[k], ms[k + 1], ts[k]);
}

/// After the first `i` puts of such a run the counter has dropped by `i`
/// and no rewind period is under way.
proof fn lemma_countdown_prefix(ms: Seq<TaskManager>, ts: Seq<StrideTask>, i: int)
    requires
        is_put_run(ms, ts),
        !ms[0].in_rewind(),
        ts.len() == ms[0].rewinds() + 1,
        forall|j: int| 0 <= j < ts.len() ==> !(#[trigger] ts[j]).overflows(),
        0 <= i < ts.len(),
    ensures
        ms[i].rewinds() == ms[0].rewinds() - i,
        !ms[i].in_rewind(),
    decreases i,
{
    if i > 0 {
        let j = i - 1;
        lemma_countdown_prefix(ms, ts, j);
        assert(TaskManager::add_post(ms[j], ms[j + 1], ts[j]));
        assert(!ts[j].overflows());
        lemma_add_outside_rewind(ms[j], ms[j + 1], ts[j]);
    }
}

} // verus!
