//! The decisions of a cooperative green-thread scheduler: thread states,
//! round-robin choice of the next ready thread, and the initial stack
//! pointer of a new thread. Thread 0 is the thread that runs the scheduler.
//!
//! Switching stacks and registers is the caller's part: the scheduler says
//! which thread to leave and which to enter.
use vstd::prelude::*;

verus! {

/// State of a green thread.
#[derive(Debug, Clone, Copy, PartialEq, Eq, Structural)]
pub enum ThreadState {
    Ready,
    Running,
    Finished,
}

/// Round-robin search: the first of `current + 1, current + 2, ...` (modulo
/// the number of threads, `current` itself last) whose thread is ready,
/// looking at offsets `step..=len`.
pub open spec fn next_ready_from(states: Seq<ThreadState>, current: int, step: int) -> Option<int>
    decreases states.len() + 1 - step,
{
    if step > states.len() || states.len() == 0 {
        None
    } else if states[(current + step) % (states.len() as int)] == ThreadState::Ready {
        Some((current + step) % (states.len() as int))
    } else {
        next_ready_from(states, current, step + 1)
    }
}

/// The thread that the scheduler picks after `current`.
pub open spec fn next_ready(states: Seq<ThreadState>, current: int) -> Option<int> {
    next_ready_from(states, current, 1)
}

/// Every thread after the first has finished.
pub open spec fn spawned_all_finished(states: Seq<ThreadState>) -> bool {
    forall|i: int| 1 <= i < states.len() ==> #[trigger] states[i] == ThreadState::Finished
}

/// Round-robin scheduler over threads `0..n`; thread 0 runs the scheduler.
pub struct Scheduler {
    states: Vec<ThreadState>,
    current: usize,
}

/// For `0 <= x < 2 * len`, `x % len` is `x` or `x - len`.
proof fn lemma_mod_once(x: int, len: int)
    requires
        len > 0,
        0 <= x < 2 * len,
    ensures
        x % len == if x < len {
            x
        } else {
            x - len
        },
{
    if x < len {
        vstd::arithmetic::div_mod::lemma_fundamental_div_mod_converse(x, len, 0, x);
    } else {
        vstd::arithmetic::div_mod::lemma_fundamental_div_mod_converse(x, len, 1, x - len);
    }
}

impl Scheduler {
    /// The state of every thread, by index.
    pub closed spec fn states(&self) -> Seq<ThreadState> {
        self.states@
    }

    /// The thread that runs now (or last ran).
    pub closed spec fn current(&self) -> int {
        self.current as int
    }

    /// At least the first thread exists, `current` names a thread, and no
    /// other thread is running.
    pub closed spec fn wf(&self) -> bool {
        &&& 1 <= self.states@.len()
        &&& self.current < self.states@.len()
        &&& forall|i: int|
            0 <= i < self.states@.len() && i != self.current ==> #[trigger] self.states@[i]
                != ThreadState::Running
    }

    /// A scheduler whose only thread is the running caller.
    pub fn new() -> (s: Self)
        ensures
            s.wf(),
            s.states() == seq![ThreadState::Running],
            s.current() == 0,
    {
        let mut states = Vec::new();
        states.push(ThreadState::Running);
        Self { states, current: 0 }
    }

    /// Registers a new thread, ready to run; returns its index.
    pub fn spawn(&mut self) -> (id: usize)
        requires
            old(self).wf(),
            old(self).states().len() < usize::MAX,
        ensures
            final(self).wf(),
            id == old(self).states().len(),
            final(self).states() == old(self).states().push(ThreadState::Ready),
            final(self).current() == old(self).current(),
    {
        self.states.push(ThreadState::Ready);
        self.states.len() - 1
    }

    /// Whether every spawned thread (all but thread 0) has finished: the
    /// scheduler loop stops then.
    pub fn all_spawned_finished(&self) -> (done: bool)
        ensures
            done == spawned_all_finished(self.states()),
    {
        let mut i: usize = 1;
        while i < self.states.len()
            invariant
                1 <= i,
                forall|j: int| 1 <= j < i && j < self.states@.len() ==> #[trigger] self.states@[j]
                    == ThreadState::Finished,
            decreases self.states@.len() - i,
        {
            if self.states[i] != ThreadState::Finished {
                return false;
            }
            i = i + 1;
        }
        true
    }

    /// Marks the current thread finished (its entry has returned).
    pub fn finish_current(&mut self)
        requires
            old(self).wf(),
        ensures
            final(self).wf(),
            final(self).current() == old(self).current(),
            final(self).states() == old(self).states().update(
                old(self).current(),
                ThreadState::Finished,
            ),
    {
        self.states.set(self.current, ThreadState::Finished);
    }
}

impl Scheduler {
    /// Picks the next ready thread in round-robin order after the current
    /// one. When there is one, the current thread becomes ready again
    /// (unless it has finished), the picked one becomes running and current,
    /// and the result is `(from, to)`: the caller switches from thread `from`
    /// to thread `to`. When no thread is ready nothing changes.
    pub fn schedule_next(&mut self) -> (switch: Option<(usize, usize)>)
        requires
            old(self).wf(),
        ensures
            final(self).wf(),
            match next_ready(old(self).states(), old(self).current()) {
                None => {
                    &&& switch is None
                    &&& final(self).states() == old(self).states()
                    &&& final(self).current() == old(self).current()
                },
                Some(n) => {
                    &&& switch == Some((old(self).current() as usize, n as usize))
                    &&& final(self).current() == n
                    &&& final(self).states() == old(self).states().update(
                        old(self).current(),
                        if old(self).states()[old(self).current()] == ThreadState::Finished {
                            ThreadState::Finished
                        } else {
                            ThreadState::Ready
                        },
                    ).update(n, ThreadState::Running)
                },
            },
    {
        let len = self.states.len();
        let prev = self.current;
        let rem = len - prev;
        let mut k: usize = 0;
        while k < len
            invariant
                self.wf(),
                self.states@ == old(self).states@,
                self.current == prev,
                prev == old(self).current,
                len == self.states@.len(),
                rem == len - prev,
                k <= len,
                prev < len,
                next_ready(self.states@, prev as int) == next_ready_from(self.states@, prev as int, k + 1),
            decreases len - k,
        {
            let step = k + 1;
            let idx = if step < rem {
                prev + step
            } else {
                step - rem
            };
            proof {
                lemma_mod_once(prev + step, len as int);
            }
            if self.states[idx] == ThreadState::Ready {
                if self.states[prev] != ThreadState::Finished {
                    self.states.set(prev, ThreadState::Ready);
                }
                self.states.set(idx, ThreadState::Running);
                self.current = idx;
                return Some((prev, idx));
            }
            k = k + 1;
        }
        None
    }
}

/// The stack pointer a new thread starts with: 16 bytes of headroom below
/// the top of its stack, rounded down to the 16-byte alignment that the
/// calling convention asks for.
pub fn initial_stack_pointer(stack_top: u64) -> (sp: u64)
    requires
        stack_top >= 16,
    ensures
        sp == (stack_top - 16) as u64 & !15u64,
        sp % 16 == 0,
        stack_top - 31 <= sp <= stack_top - 16,
{
    let below = stack_top - 16;
    let sp = below & !15u64;
    assert(sp % 16 == 0 && sp <= below && below - sp <= 15) by (bit_vector)
        requires
            sp == below & !15u64,
    ;
    sp
}

/// What the round-robin search returns is a ready thread; when it finds
/// none, no thread at all is ready.
pub proof fn lemma_next_ready_sound(states: Seq<ThreadState>, current: int, step: int)
    requires
        0 <= current < states.len(),
        1 <= step,
    ensures
        next_ready_from(states, current, step) matches Some(n) ==> 0 <= n < states.len()
            && states[n] == ThreadState::Ready,
        next_ready_from(states, current, step) is None ==> forall|s: int|
            step <= s <= states.len() ==> #[trigger] states[(current + s) % (states.len() as int)]
                != ThreadState::Ready,
    decreases states.len() + 1 - step,
{
    if step <= states.len() {
        vstd::arithmetic::div_mod::lemma_mod_bound(current + step, states.len() as int);
        if states[(current + step) % (states.len() as int)] != ThreadState::Ready {
            lemma_next_ready_sound(states, current, step + 1);
        }
    }
}

/// When the round-robin search finds no ready thread, none is ready: every
/// thread is the offset `s` in `1..=len` of some step of the search.
pub proof fn lemma_no_ready_thread(states: Seq<ThreadState>, current: int)
    requires
        0 <= current < states.len(),
        next_ready(states, current) is None,
    ensures
        forall|i: int| 0 <= i < states.len() ==> #[trigger] states[i] != ThreadState::Ready,
{
    lemma_next_ready_sound(states, current, 1);
    let len = states.len() as int;
    assert forall|i: int| 0 <= i < len implies #[trigger] states[i] != ThreadState::Ready by {
        let s = if i > current {
            i - current
        } else {
            i - current + len
        };
        assert(1 <= s <= len);
        lemma_mod_once(current + s, len);
        assert((current + s) % len == i);
        assert(states[(current + s) % len] != ThreadState::Ready);
    }
}

/// The scheduler loop, run by thread 0 while no other thread is running,
/// finds a thread to switch to exactly until every spawned thread has
/// finished: all of them have finished if and only if no thread is ready.
pub proof fn lemma_loop_runs_until_all_finished(states: Seq<ThreadState>)
    requires
        1 <= states.len(),
        states[0] != ThreadState::Ready,
        forall|i: int| 1 <= i < states.len() ==> #[trigger] states[i] != ThreadState::Running,
    ensures
        spawned_all_finished(states) <==> next_ready(states, 0) is None,
        spawned_all_finished(states) <==> forall|i: int|
            1 <= i < states.len() ==> #[trigger] states[i] != ThreadState::Ready,
{
    lemma_next_ready_sound(states, 0, 1);
    if next_ready(states, 0) is None {
        lemma_no_ready_thread(states, 0);
    }
    if forall|i: int| 1 <= i < states.len() ==> #[trigger] states[i] != ThreadState::Ready {
        assert forall|i: int| 1 <= i < states.len() implies #[trigger] states[i]
            == ThreadState::Finished by {
            assert(states[i] != ThreadState::Ready);
            assert(states[i] != ThreadState::Running);
        }
    }
}

/// How the stop condition of the scheduler loop moves: a newly spawned
/// (ready) thread keeps the loop going, thread 0's own state never matters,
/// finishing a thread never undoes it, and finishing the last spawned thread
/// that had not finished brings it about.
pub proof fn lemma_all_finished_steps(states: Seq<ThreadState>, i: int, st: ThreadState)
    requires
        1 <= states.len(),
        0 <= i < states.len(),
    ensures
        !spawned_all_finished(states.push(ThreadState::Ready)),
        spawned_all_finished(states.update(0, st)) == spawned_all_finished(states),
        spawned_all_finished(states) ==> spawned_all_finished(
            states.update(i, ThreadState::Finished),
        ),
        (forall|j: int| 1 <= j < states.len() && j != i ==> #[trigger] states[j]
            == ThreadState::Finished) ==> spawned_all_finished(
            states.update(i, ThreadState::Finished),
        ),
        1 <= i && states[i] != ThreadState::Finished ==> !spawned_all_finished(states),
{
    let pushed = states.push(ThreadState::Ready);
    assert(pushed[states.len() as int] == ThreadState::Ready);
    assert(pushed[states.len() as int] != ThreadState::Finished);
    assert(!spawned_all_finished(pushed));
    let z = states.update(0, st);
    assert forall|j: int| 1 <= j < states.len() implies #[trigger] z[j] == states[j] by {}
    if spawned_all_finished(states) {
        assert forall|j: int| 1 <= j < z.len() implies #[trigger] z[j] == ThreadState::Finished by {
            assert(states[j] == ThreadState::Finished);
        }
    }
    if spawned_all_finished(z) {
        assert forall|j: int| 1 <= j < states.len() implies #[trigger] states[j]
            == ThreadState::Finished by {
            assert(z[j] == ThreadState::Finished);
        }
    }
    let u = states.update(i, ThreadState::Finished);
    assert forall|j: int| 1 <= j < states.len() && j != i implies #[trigger] u[j] == states[j] by {}
    if 1 <= i && states[i] != ThreadState::Finished {
        assert(!(states[i] == ThreadState::Finished));
    }
}

} // verus!
