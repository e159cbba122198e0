//! Cooperative round-robin task scheduler.
//!
//! A new task's stack is primed so that the first context switch into it
//! pops a zeroed callee-saved register frame (with the entry point in r12
//! and its argument in r13, interrupts enabled in RFLAGS) and "returns"
//! into the trampoline that calls the entry. The register save/restore
//! itself is done by the caller.

use vstd::prelude::*;
use crate::bytes::{le_seq, splice, write_le64};

verus! {

/// Size of each task's stack in bytes.
pub const STACK_SIZE: usize = 4096 * 16;

/// A schedulable task.
pub struct Task {
    pub id: u64,
    /// Saved stack pointer while the task is not running.
    pub rsp: u64,
    /// The task's stack (empty for the task that was running at boot).
    pub stack: Vec<u8>,
}

/// Top of the usable stack: 16-byte aligned, below the last 8 bytes.
pub open spec fn aligned_top(stack_addr: nat) -> nat {
    ((stack_addr + STACK_SIZE - 8) / 16 * 16) as nat
}

/// The primed stack: from `top` down, the trampoline address (popped by
/// `ret`), RFLAGS with IF set, then rbp, rbx, r12 = entry, r13 = arg, r14
/// and r15.
pub open spec fn primed(stack: Seq<u8>, top: int, entry: u64, arg: u64, trampoline: u64) -> Seq<u8> {
    let s1 = splice(stack, top, le_seq(trampoline as nat, 8));
    let s2 = splice(s1, top - 8, le_seq(0x202, 8));
    let s3 = splice(s2, top - 16, le_seq(0, 8));
    let s4 = splice(s3, top - 24, le_seq(0, 8));
    let s5 = splice(s4, top - 32, le_seq(entry as nat, 8));
    let s6 = splice(s5, top - 40, le_seq(arg as nat, 8));
    let s7 = splice(s6, top - 48, le_seq(0, 8));
    splice(s7, top - 56, le_seq(0, 8))
}

impl Task {
    /// A task that will run `entry(arg)` through `trampoline`; `stack` is
    /// its zeroed stack, which lives at address `stack_addr`.
    pub fn new_with_arg(id: u64, entry: u64, arg: u64, trampoline: u64, stack: Vec<u8>, stack_addr: u64) -> (t: Task)
        requires
            stack@.len() == STACK_SIZE,
            stack_addr + STACK_SIZE <= u64::MAX,
        ensures
            t.id == id,
            t.stack@ == primed(stack@, aligned_top(stack_addr as nat) - stack_addr, entry, arg, trampoline),
            t.rsp == aligned_top(stack_addr as nat) - 56,
    {
        let top_raw = stack_addr + STACK_SIZE as u64;
        let aligned = (top_raw - 8) / 16 * 16;
        let off = (aligned - stack_addr) as usize;
        proof {
            assert(aligned == aligned_top(stack_addr as nat));
            assert(aligned - stack_addr <= STACK_SIZE - 8);
            assert(aligned - stack_addr >= STACK_SIZE - 8 - 15);
        }
        let mut s = stack;
        proof {
            crate::bytes::lemma_le_seq_len(trampoline as nat, 8);
            crate::bytes::lemma_le_seq_len(0x202, 8);
            crate::bytes::lemma_le_seq_len(0, 8);
            crate::bytes::lemma_le_seq_len(entry as nat, 8);
            crate::bytes::lemma_le_seq_len(arg as nat, 8);
        }
        write_le64(&mut s, off, trampoline);
        write_le64(&mut s, off - 8, 0x202);
        write_le64(&mut s, off - 16, 0);
        write_le64(&mut s, off - 24, 0);
        write_le64(&mut s, off - 32, entry);
        write_le64(&mut s, off - 40, arg);
        write_le64(&mut s, off - 48, 0);
        write_le64(&mut s, off - 56, 0);
        Task { id, rsp: aligned - 56, stack: s }
    }

    /// A task that will run `entry` (with argument 0).
    pub fn new(id: u64, entry: u64, trampoline: u64, stack: Vec<u8>, stack_addr: u64) -> (t: Task)
        requires
            stack@.len() == STACK_SIZE,
            stack_addr + STACK_SIZE <= u64::MAX,
        ensures
            t.id == id,
            t.stack@ == primed(stack@, aligned_top(stack_addr as nat) - stack_addr, entry, 0, trampoline),
            t.rsp == aligned_top(stack_addr as nat) - 56,
    {
        Task::new_with_arg(id, entry, 0, trampoline, stack, stack_addr)
    }
}

/// The task list and which task runs.
pub struct Scheduler {
    pub tasks: Vec<Task>,
    pub current: usize,
    pub next_id: u64,
}

impl Scheduler {
    pub open spec fn wf(&self) -> bool {
        self.current < self.tasks@.len()
    }

    /// Ids of the tasks, in order.
    pub open spec fn ids(&self) -> Seq<u64> {
        self.tasks@.map_values(|t: Task| t.id)
    }

    /// A fresh id.
    pub fn take_id(&mut self) -> (id: u64)
        requires
            old(self).next_id < u64::MAX,
        ensures
            id == old(self).next_id,
            final(self).next_id == old(self).next_id + 1,
            final(self).tasks@ == old(self).tasks@,
            final(self).current == old(self).current,
    {
        let id = self.next_id;
        self.next_id = self.next_id + 1;
        id
    }

    /// Queue a task behind the others.
    pub fn spawn(&mut self, task: Task) -> (id: u64)
        requires
            old(self).wf(),
        ensures
            final(self).wf(),
            id == task.id,
            final(self).tasks@ == old(self).tasks@.push(task),
            final(self).current == old(self).current,
            final(self).next_id == old(self).next_id,
    {
        let id = task.id;
        self.tasks.push(task);
        id
    }

    /// Round-robin switch: with more than one task, make the next task
    /// current and return (previous, next) indices.
    pub fn switch(&mut self) -> (r: Option<(usize, usize)>)
        requires
            old(self).wf(),
        ensures
            final(self).wf(),
            final(self).tasks@ == old(self).tasks@,
            final(self).next_id == old(self).next_id,
            old(self).tasks@.len() <= 1 ==> r is None && final(self).current == old(self).current,
            old(self).tasks@.len() > 1 ==> r == Some((old(self).current, ((old(self).current + 1) % old(self).tasks@.len() as int) as usize))
                && final(self).current == (old(self).current + 1) % old(self).tasks@.len() as int,
    {
        let n = self.tasks.len();
        if n <= 1 {
            return None;
        }
        let prev = self.current;
        let next = (prev + 1) % n;
        self.current = next;
        Some((prev, next))
    }

    /// Index of the task with id `target`.
    pub fn position(&self, target: u64) -> (r: Option<usize>)
        ensures
            match r {
                Some(i) => i < self.tasks@.len() && self.tasks@[i as int].id == target
                    && forall|j: int| 0 <= j < i ==> self.tasks@[j].id != target,
                None => forall|j: int| 0 <= j < self.tasks@.len() ==> self.tasks@[j].id != target,
            },
    {
        let mut i: usize = 0;
        while i < self.tasks.len()
            invariant
                i <= self.tasks@.len(),
                forall|j: int| 0 <= j < i ==> self.tasks@[j].id != target,
            decreases self.tasks@.len() - i,
        {
            if self.tasks[i].id == target {
                return Some(i);
            }
            i = i + 1;
        }
        None
    }

    /// Take the current task out for good and make task `target` current;
    /// returns the stack pointer to switch to and the removed task, whose
    /// stack is still in use until the switch and must not be freed.
    pub fn abandon_current(&mut self, target: u64) -> (r: (u64, Task))
        requires
            old(self).wf(),
            exists|j: int| 0 <= j < old(self).tasks@.len() && old(self).tasks@[j].id == target,
            old(self).tasks@[old(self).current as int].id != target,
        ensures
            final(self).wf(),
            final(self).tasks@ == old(self).tasks@.remove(old(self).current as int),
            final(self).tasks@[final(self).current as int].id == target,
            r.0 == final(self).tasks@[final(self).current as int].rsp,
            r.1 == old(self).tasks@[old(self).current as int],
            final(self).next_id == old(self).next_id,
    {
        let t = self.position(target);
        let target_idx = match t {
            Some(i) => i,
            None => {
                proof {
                    let j = choose|j: int| 0 <= j < old(self).tasks@.len() && old(self).tasks@[j].id == target;
                    assert(self.tasks@[j].id != target);
                }
                0
            },
        };
        let current = self.current;
        let target_rsp = self.tasks[target_idx].rsp;
        let removed = self.tasks.remove(current);
        let new_idx = if target_idx > current { target_idx - 1 } else { target_idx };
        self.current = new_idx;
        (target_rsp, removed)
    }
}

/// The scheduler at boot: one task, the one already running (it keeps its
/// boot stack), with id 0.
pub fn init() -> (s: Scheduler)
    ensures
        s.wf(),
        s.tasks@.len() == 1,
        s.tasks@[0].id == 0,
        s.tasks@[0].rsp == 0,
        s.current == 0,
        s.next_id == 1,
{
    let placeholder = Task { id: 0, rsp: 0, stack: Vec::new() };
    let mut tasks: Vec<Task> = Vec::new();
    tasks.push(placeholder);
    Scheduler { tasks, current: 0, next_id: 1 }
}


/// The task current after `k` round-robin switches from task `c` of `n`.
pub open spec fn after_switches(c: int, n: int, k: nat) -> int
    decreases k,
{
    if k == 0 { c } else { (after_switches(c, n, (k - 1) as nat) + 1) % n }
}

/// Round robin is fair: `k` switches advance `k` tasks (mod `n`), so every
/// task runs within `n` switches and `n` switches come back to the start.
pub proof fn lemma_round_robin(c: int, n: int, k: nat)
    requires
        0 <= c < n,
    ensures
        after_switches(c, n, k) == (c + k) % n,
        after_switches(c, n, n as nat) == c,
{
    lemma_switches_advance(c, n, k);
    lemma_switches_advance(c, n, n as nat);
    vstd::arithmetic::div_mod::lemma_mod_add_multiples_vanish(c, n);
    vstd::arithmetic::div_mod::lemma_small_mod(c as nat, n as nat);
}

proof fn lemma_switches_advance(c: int, n: int, k: nat)
    requires
        0 <= c < n,
    ensures
        after_switches(c, n, k) == (c + k) % n,
    decreases k,
{
    if k > 0 {
        lemma_switches_advance(c, n, (k - 1) as nat);
        vstd::arithmetic::div_mod::lemma_add_mod_noop_right(1, c + k - 1, n);
    } else {
        vstd::arithmetic::div_mod::lemma_small_mod(c as nat, n as nat);
    }
}

} // verus!
