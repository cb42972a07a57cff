//! The mathematical model of the deadlock-avoidance tables (the banker's
//! algorithm): what a safe state is, and the lemmas that show the greedy
//! safety check decides it.
use vstd::prelude::*;
use vstd::set_lib::*;

verus! {

/// The resource tables of a process, as integers: what is free of each
/// resource, what each task holds, and what each task still asks for.
#[verifier::ext_equal]
pub struct Tables {
    pub available: Seq<int>,
    pub allocation: Seq<Seq<int>>,
    pub need: Seq<Seq<int>>,
}

impl Tables {
    /// Number of tasks that have a row in the tables.
    pub open spec fn num_tasks(self) -> nat {
        self.need.len()
    }

    /// Number of resources.
    pub open spec fn num_resources(self) -> nat {
        self.available.len()
    }

    /// Every row has one entry per resource, and no task holds or asks for a
    /// negative amount.
    pub open spec fn wf(self) -> bool {
        &&& self.allocation.len() == self.need.len()
        &&& forall|i: int|
            0 <= i < self.need.len() ==> (#[trigger] self.allocation[i]).len() == self.available.len()
        &&& forall|i: int| 0 <= i < self.need.len() ==> (#[trigger] self.need[i]).len() == self.available.len()
        &&& forall|i: int, j: int|
            0 <= i < self.need.len() && 0 <= j < self.available.len() ==> 0 <= #[trigger] self.allocation[i][j]
        &&& forall|i: int, j: int|
            0 <= i < self.need.len() && 0 <= j < self.available.len() ==> 0 <= #[trigger] self.need[i][j]
    }

    /// What the tasks whose indices `s` holds (among the first `n`) hold of
    /// resource `j` together.
    pub open spec fn held_sum(self, j: int, s: Seq<int>, n: nat) -> int
        decreases n,
    {
        if n == 0 {
            0
        } else {
            self.held_sum(j, s, (n - 1) as nat) + if s.contains(n - 1) {
                self.allocation[n - 1][j]
            } else {
                0
            }
        }
    }

    /// What is free of resource `j` once the tasks of `s` have finished and
    /// given back what they hold.
    pub open spec fn work(self, j: int, s: Seq<int>) -> int {
        self.available[j] + self.held_sum(j, s, self.num_tasks())
    }

    /// Task `i` can run to its end with what is free after the tasks of `s`.
    pub open spec fn fits_after(self, i: int, s: Seq<int>) -> bool {
        forall|j: int| 0 <= j < self.num_resources() ==> self.need[i][j] <= #[trigger] self.work(j, s)
    }

    /// `s` is a sequence of distinct tasks in which each task can finish with
    /// what the tasks before it gave back.
    pub open spec fn is_safe_prefix(self, s: Seq<int>) -> bool {
        &&& s.no_duplicates()
        &&& forall|k: int| 0 <= k < s.len() ==> 0 <= #[trigger] s[k] < self.num_tasks()
        &&& forall|k: int| 0 <= k < s.len() ==> self.fits_after(#[trigger] s[k], s.take(k))
    }

    /// `s` is a safe sequence: every task appears in it, each exactly once,
    /// and each can finish with what the tasks before it gave back.
    pub open spec fn is_safe_order(self, s: Seq<int>) -> bool {
        &&& self.is_safe_prefix(s)
        &&& forall|i: int| 0 <= i < self.num_tasks() ==> #[trigger] s.contains(i)
    }

    /// The state is safe: some order lets every task finish.
    pub open spec fn is_safe_state(self) -> bool {
        exists|s: Seq<int>| self.is_safe_order(s)
    }

    /// The tables after task `tid` asks for one more unit of resource `rid`.
    pub open spec fn request(self, tid: int, rid: int) -> Tables {
        Tables {
            need: self.need.update(tid, self.need[tid].update(rid, self.need[tid][rid] + 1)),
            ..self
        }
    }

    /// The tables after task `tid` is given all it asks for: what it asked
    /// for moves from the free amounts to what it holds.
    pub open spec fn grant(self, tid: int) -> Tables {
        Tables {
            available: Seq::new(
                self.available.len(),
                |j: int| self.available[j] - self.need[tid][j],
            ),
            allocation: self.allocation.update(
                tid,
                Seq::new(self.available.len(), |j: int| self.allocation[tid][j] + self.need[tid][j]),
            ),
            need: self.need.update(tid, Seq::new(self.available.len(), |j: int| 0)),
        }
    }

    /// The tables after resource `rid` is set up afresh: `amount` units are
    /// free and nobody holds or asks for any.
    pub open spec fn reset_column(self, rid: int, amount: int) -> Tables {
        Tables {
            available: self.available.update(rid, amount),
            allocation: Seq::new(self.allocation.len(), |i: int| self.allocation[i].update(rid, 0)),
            need: Seq::new(self.need.len(), |i: int| self.need[i].update(rid, 0)),
        }
    }

    /// The tables after a new resource with `amount` free units is added:
    /// every row gets a zero entry for it, and if there were no rows yet, one
    /// row per task is made.
    pub open spec fn add_column(self, amount: int, task_count: nat) -> Tables {
        if self.allocation.len() == 0 {
            Tables {
                available: self.available.push(amount),
                allocation: Seq::new(task_count, |i: int| seq![0int]),
                need: if self.need.len() == 0 {
                    Seq::new(task_count, |i: int| seq![0int])
                } else {
                    Seq::new(self.need.len(), |i: int| self.need[i].push(0))
                },
            }
        } else {
            Tables {
                available: self.available.push(amount),
                allocation: Seq::new(self.allocation.len(), |i: int| self.allocation[i].push(0)),
                need: if self.need.len() == 0 {
                    Seq::new(task_count, |i: int| seq![0int])
                } else {
                    Seq::new(self.need.len(), |i: int| self.need[i].push(0))
                },
            }
        }
    }

    /// The tables after one more unit of resource `rid` is freed.
    pub open spec fn release(self, rid: int) -> Tables {
        Tables { available: self.available.update(rid, self.available[rid] + 1), ..self }
    }
}

/// Adding one task to a set adds what it holds to the sum.
pub proof fn lemma_held_sum_push(t: Tables, j: int, s: Seq<int>, x: int, n: nat)
    requires
        0 <= x,
        !s.contains(x),
    ensures
        t.held_sum(j, s.push(x), n) == t.held_sum(j, s, n) + if x < n {
            t.allocation[x][j]
        } else {
            0
        },
    decreases n,
{
    if n > 0 {
        lemma_held_sum_push(t, j, s, x, (n - 1) as nat);
        let i = n - 1;
        assert(s.push(x).contains(i) <==> (s.contains(i) || i == x)) by {
            if s.push(x).contains(i) {
                let k = choose|k: int| 0 <= k < s.push(x).len() && s.push(x)[k] == i;
                if k < s.len() {
                    assert(s[k] == i);
                }
            }
            if s.contains(i) {
                let k = choose|k: int| 0 <= k < s.len() && s[k] == i;
                assert(s.push(x)[k] == i);
            }
            if i == x {
                assert(s.push(x)[s.len() as int] == i);
            }
        }
    }
}

/// The sum over a set is no more than the sum over a larger set, since no
/// task holds a negative amount.
pub proof fn lemma_held_sum_monotone(t: Tables, j: int, s1: Seq<int>, s2: Seq<int>, n: nat)
    requires
        t.wf(),
        n <= t.num_tasks(),
        0 <= j < t.num_resources(),
        forall|i: int| 0 <= i < n && #[trigger] s1.contains(i) ==> s2.contains(i),
    ensures
        t.held_sum(j, s1, n) <= t.held_sum(j, s2, n),
    decreases n,
{
    if n > 0 {
        lemma_held_sum_monotone(t, j, s1, s2, (n - 1) as nat);
        assert(0 <= t.allocation[n - 1][j]);
    }
}

/// The sum over the empty set is zero.
pub proof fn lemma_held_sum_empty(t: Tables, j: int, n: nat)
    ensures
        t.held_sum(j, Seq::empty(), n) == 0,
    decreases n,
{
    if n > 0 {
        lemma_held_sum_empty(t, j, (n - 1) as nat);
    }
}

/// Sums of what tasks hold are never negative.
pub proof fn lemma_held_sum_nonneg(t: Tables, j: int, s: Seq<int>, n: nat)
    requires
        t.wf(),
        n <= t.num_tasks(),
        0 <= j < t.num_resources(),
    ensures
        0 <= t.held_sum(j, s, n),
    decreases n,
{
    if n > 0 {
        lemma_held_sum_nonneg(t, j, s, (n - 1) as nat);
        assert(0 <= t.allocation[n - 1][j]);
    }
}

/// A sequence of distinct indices below `n` that misses one of them is
/// shorter than `n`.
pub proof fn lemma_missing_index_shorter(s: Seq<int>, n: int, x: int)
    requires
        s.no_duplicates(),
        forall|k: int| 0 <= k < s.len() ==> 0 <= #[trigger] s[k] < n,
        0 <= x < n,
        !s.contains(x),
    ensures
        s.len() < n,
{
    broadcast use vstd::seq_lib::seq_to_set_is_finite;

    s.unique_seq_to_set();
    lemma_int_range(0, n);
    let with_x = s.to_set().insert(x);
    assert forall|i: int| with_x.contains(i) implies set_int_range(0, n).contains(i) by {
        if i != x {
            assert(s.to_set().contains(i));
            let k = choose|k: int| 0 <= k < s.len() && s[k] == i;
            assert(0 <= s[k] < n);
        }
    }
    lemma_len_subset(with_x, set_int_range(0, n));
    assert(!s.to_set().contains(x));
}

/// The first element of `s` that `o` does not hold.
pub proof fn lemma_first_outside(s: Seq<int>, o: Seq<int>, p: int) -> (k: int)
    requires
        0 <= p < s.len(),
        !o.contains(s[p]),
    ensures
        0 <= k <= p,
        !o.contains(s[k]),
        forall|l: int| 0 <= l < k ==> o.contains(#[trigger] s[l]),
    decreases p,
{
    if exists|l: int| 0 <= l < p && !o.contains(#[trigger] s[l]) {
        let l = choose|l: int| 0 <= l < p && !o.contains(#[trigger] s[l]);
        lemma_first_outside(s, o, l)
    } else {
        p
    }
}

/// When the greedy search is stuck (a task is left and none of those left
/// can finish with what the finished ones gave back), no safe order exists.
pub proof fn lemma_stuck_is_unsafe(t: Tables, order: Seq<int>, x: int)
    requires
        t.wf(),
        t.is_safe_prefix(order),
        0 <= x < t.num_tasks(),
        !order.contains(x),
        forall|i: int|
            0 <= i < t.num_tasks() && !order.contains(i) ==> !#[trigger] t.fits_after(i, order),
    ensures
        !t.is_safe_state(),
{
    if t.is_safe_state() {
        let s = choose|s: Seq<int>| t.is_safe_order(s);
        assert(s.contains(x));
        let p = choose|p: int| 0 <= p < s.len() && s[p] == x;
        let k = lemma_first_outside(s, order, p);
        let prefix = s.take(k);
        assert forall|i: int| 0 <= i < t.num_tasks() && #[trigger] prefix.contains(i) implies order.contains(
            i,
        ) by {
            let l = choose|l: int| 0 <= l < prefix.len() && prefix[l] == i;
            assert(s[l] == i);
        }
        assert(t.fits_after(s[k], prefix));
        assert forall|j: int| 0 <= j < t.num_resources() implies t.need[s[k]][j] <= #[trigger] t.work(
            j,
            order,
        ) by {
            assert(t.need[s[k]][j] <= t.work(j, prefix));
            lemma_held_sum_monotone(t, j, prefix, order, t.num_tasks());
        }
        assert(t.fits_after(s[k], order));
        assert(0 <= s[k] < t.num_tasks());
    }
}

} // verus!
