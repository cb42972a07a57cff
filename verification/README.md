# rcore_os

The decision logic of a small teaching kernel, verified with Verus:

- `task::manager` — stride scheduling over two ready queues, with the
  rewind scheme that keeps overflowing strides in order;
- `task::task` — the task control block: address space, program break,
  system call counts;
- `mm` — virtual addresses, the page table and mapped areas of a task;
- `sync` and `banker` — mutexes, semaphores, condition variables and the
  banker's deadlock avoidance, with a proof that the safety check decides
  whether a safe order of the tasks exists;
- `fs` — open flags, descriptor tables and the root directory's hard links;
- `syscall` — the system calls over that state.

Each operation changes the state and returns what the scheduler must do
next (block, yield, wake a task) or what the call returns. `app/` holds the
global ready queue and the parts of the system calls that switch tasks,
load programs, read the clock or copy to and from user memory.
