//! Hand-written futures as state machines: each `poll_step` is one poll,
//! giving `Some(output)` when the future is ready and `None` when it is
//! pending (the caller then wakes its waker, as a future must before
//! returning pending).
use vstd::prelude::*;

verus! {

/// What a countdown with `count` left gives on the poll after `polls`
/// earlier polls: ready once `polls` reaches `count`.
pub open spec fn countdown_ready_at(count: u32, polls: nat) -> bool {
    polls >= count
}

/// The count left after `polls` polls.
pub open spec fn countdown_left(count: u32, polls: nat) -> u32 {
    if polls >= count {
        0
    } else {
        (count - polls) as u32
    }
}

/// A countdown: each pending poll takes one off the count; the poll that
/// finds it at zero gives "liftoff!".
pub struct CountDown {
    pub count: u32,
}

impl CountDown {
    /// A countdown from `count`.
    pub fn new(count: u32) -> (c: Self)
        ensures
            c.count == count,
    {
        Self { count }
    }

    /// One poll: ready with "liftoff!" when the count is zero; otherwise
    /// takes one off the count and is pending.
    pub fn poll_step(&mut self) -> (out: Option<&'static str>)
        ensures
            out is Some <==> old(self).count == 0,
            out matches Some(s) ==> s@ == "liftoff!"@,
            final(self).count == countdown_left(old(self).count, 1),
            out is Some <==> countdown_ready_at(old(self).count, 0),
    {
        if self.count == 0 {
            Some("liftoff!")
        } else {
            self.count = self.count - 1;
            None
        }
    }
}

/// A countdown polled again and again is pending exactly `count` times,
/// then ready for good: one more poll after `polls` polls leaves
/// `countdown_left(count, polls + 1)`, and that poll is ready exactly when
/// `polls` has reached `count`.
pub proof fn lemma_countdown_polls(count: u32, polls: nat)
    ensures
        countdown_left(countdown_left(count, polls), 1) == countdown_left(count, polls + 1),
        countdown_ready_at(countdown_left(count, polls), 0) == countdown_ready_at(count, polls),
        countdown_left(count, 0) == count,
{
}

/// A future that is pending on its first poll and ready on every later one.
pub struct YieldOnce {
    yielded: bool,
}

impl YieldOnce {
    /// Whether the first poll has happened.
    pub closed spec fn has_yielded(&self) -> bool {
        self.yielded
    }

    /// A future not polled yet.
    pub fn new() -> (y: Self)
        ensures
            !y.has_yielded(),
    {
        Self { yielded: false }
    }

    /// One poll: pending the first time, ready afterwards.
    pub fn poll_step(&mut self) -> (out: Option<()>)
        ensures
            out is Some <==> old(self).has_yielded(),
            final(self).has_yielded(),
    {
        if self.yielded {
            Some(())
        } else {
            self.yielded = true;
            None
        }
    }
}

} // verus!
