//! The bridge between the wake-up requests of an operator's task and the
//! scheduler's activation of the operator.

use vstd::prelude::*;

verus! {
/// Marks the task as ready when woken, and tells whether the operator has to be activated.
///
/// While the operator is being scheduled it is `active`: a wake-up then only
/// marks the task, since the running invocation will see the mark itself.
/// Activating the operator from within its own invocation would schedule it
/// again without end.
#[derive(Debug)]
pub struct TimelyWaker {
    active: bool,
    task_ready: bool,
}

/// Where the bridge between task and scheduler stands.
pub ghost enum WakeState {
    /// The operator is not being invoked, and nothing has woken the task.
    Idle,
    /// The operator is being invoked. A wake-up now needs no activation;
    /// `woken` tells whether the task is marked as ready.
    Invoking { woken: bool },
    /// The task has been woken, and the operator is waiting to be invoked.
    WakeRequested,
}

impl TimelyWaker {
    /// Where the bridge stands.
    pub open spec fn state(&self) -> WakeState {
        if self.is_active() {
            WakeState::Invoking { woken: self.is_task_ready() }
        } else if self.is_task_ready() {
            WakeState::WakeRequested
        } else {
            WakeState::Idle
        }
    }

    /// Whether the operator is inside an invocation by the scheduler.
    pub closed spec fn is_active(&self) -> bool {
        self.active
    }

    /// Whether the task has been woken since it was last resumed.
    pub closed spec fn is_task_ready(&self) -> bool {
        self.task_ready
    }

    /// The waker of an operator that has not run yet: its task is ready for a first resume.
    pub fn new() -> (waker: TimelyWaker)
        ensures
            !waker.is_active(),
            waker.is_task_ready(),
    {
        TimelyWaker { active: false, task_ready: true }
    }

    /// Wakes the task. Returns whether the scheduler must be asked to activate
    /// the operator, which is the case unless the operator is active already.
    ///
    /// The activation itself may fail when the scheduler has shut down; the
    /// caller ignores that failure.
    pub fn wake_by_ref(&mut self) -> (activate: bool)
        ensures
            final(self).is_task_ready(),
            final(self).is_active() == old(self).is_active(),
            activate == !(old(self).state() is Invoking),
            final(self).state() == (if old(self).state() is Invoking {
                WakeState::Invoking { woken: true }
            } else {
                WakeState::WakeRequested
            }),
    {
        self.task_ready = true;
        !self.active
    }

    /// Whether the task has been woken since it was last resumed.
    pub fn task_ready(&self) -> (ready: bool)
        ensures
            ready == self.is_task_ready(),
    {
        self.task_ready
    }

    /// Whether the operator is inside an invocation by the scheduler.
    pub fn active(&self) -> (active: bool)
        ensures
            active == self.is_active(),
    {
        self.active
    }

    /// Marks the start or the end of an invocation by the scheduler.
    pub(crate) fn set_active(&mut self, active: bool)
        ensures
            final(self).is_active() == active,
            final(self).is_task_ready() == old(self).is_task_ready(),
    {
        self.active = active;
    }

    /// Clears the ready mark, as is done right before the task is resumed.
    pub(crate) fn clear_ready(&mut self)
        ensures
            !final(self).is_task_ready(),
            final(self).is_active() == old(self).is_active(),
    {
        self.task_ready = false;
    }
}
} // verus!
