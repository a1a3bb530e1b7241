//! The interface of an input as the scheduler's side of an operator sees it.
//!
//! An operator holds one queue for each of its inputs and asks three things
//! of it: to accept the input that has been delivered, to take note of a
//! frontier, and to drain what it holds.

use crate::frontier::frontier_elements;
use crate::waker::TimelyWaker;
use timely::progress::Antichain;
use vstd::prelude::*;

verus! {
/// A queue of an input of an operator.
pub trait InputQueue: Sized {
    /// What the queue holds, as far as its behaviour goes.
    type State;

    /// What the queue holds.
    spec fn state(&self) -> Self::State;

    /// Whether the task waits to be woken when an event is queued.
    spec fn waits(state: Self::State) -> bool;

    /// Whether input has been delivered that is not accepted yet.
    spec fn holds_input(state: Self::State) -> bool;

    /// The queue after it has accepted the input that was delivered.
    spec fn accepted(state: Self::State) -> Self::State;

    /// The queue after it has taken note of the frontier `upper`.
    spec fn notified(state: Self::State, upper: Seq<u64>) -> Self::State;

    /// The queue after it has been drained.
    spec fn drained(state: Self::State) -> Self::State;

    /// Who waits on a queue: nobody once a frontier has been announced,
    /// nobody once input has been accepted, and whoever did before where
    /// nothing has come in or the queue has been drained.
    proof fn lemma_waits(state: Self::State, upper: Seq<u64>)
        ensures
            !Self::waits(Self::notified(state, upper)),
            Self::holds_input(Self::notified(state, upper)) == Self::holds_input(state),
            Self::waits(Self::accepted(state)) == (Self::waits(state) && !Self::holds_input(state)),
            Self::waits(Self::drained(state)) == Self::waits(state),
    ;

    /// Accepts all available input into the queue, and wakes a task that
    /// waits if there was any. Returns whether the scheduler has to be asked
    /// to activate the operator.
    fn accept_input(&mut self, waker: &mut TimelyWaker) -> (activate: bool)
        ensures
            final(self).state() == Self::accepted(old(self).state()),
            final(waker).is_active() == old(waker).is_active(),
            final(waker).is_task_ready() == (old(waker).is_task_ready() || (Self::waits(
                old(self).state(),
            ) && Self::holds_input(old(self).state()))),
            activate == (Self::waits(old(self).state()) && Self::holds_input(old(self).state())
                && !old(waker).is_active()),
    ;

    /// Drains all available input and empties the queue.
    fn drain_input(&mut self)
        ensures
            final(self).state() == Self::drained(old(self).state()),
    ;

    /// Registers a frontier notification to be delivered, and wakes a task
    /// that waits. Returns whether the scheduler has to be asked to activate
    /// the operator.
    fn notify_progress(&mut self, upper: Antichain<u64>, waker: &mut TimelyWaker) -> (activate: bool)
        ensures
            final(self).state() == Self::notified(old(self).state(), frontier_elements(upper)),
            final(waker).is_active() == old(waker).is_active(),
            final(waker).is_task_ready() == (old(waker).is_task_ready() || Self::waits(
                old(self).state(),
            )),
            activate == (Self::waits(old(self).state()) && !old(waker).is_active()),
    ;
}

/// A queue of one of two kinds, for operators whose inputs differ in kind.
#[derive(Debug)]
pub enum EitherInput<A, B> {
    Left(A),
    Right(B),
}

/// What a queue of one of two kinds holds.
pub ghost enum EitherState<A, B> {
    Left(A),
    Right(B),
}

impl<A: InputQueue, B: InputQueue> InputQueue for EitherInput<A, B> {
    type State = EitherState<A::State, B::State>;

    open spec fn state(&self) -> Self::State {
        match self {
            EitherInput::Left(queue) => EitherState::Left(queue.state()),
            EitherInput::Right(queue) => EitherState::Right(queue.state()),
        }
    }

    open spec fn waits(state: Self::State) -> bool {
        match state {
            EitherState::Left(state) => A::waits(state),
            EitherState::Right(state) => B::waits(state),
        }
    }

    open spec fn holds_input(state: Self::State) -> bool {
        match state {
            EitherState::Left(state) => A::holds_input(state),
            EitherState::Right(state) => B::holds_input(state),
        }
    }

    open spec fn accepted(state: Self::State) -> Self::State {
        match state {
            EitherState::Left(state) => EitherState::Left(A::accepted(state)),
            EitherState::Right(state) => EitherState::Right(B::accepted(state)),
        }
    }

    open spec fn notified(state: Self::State, upper: Seq<u64>) -> Self::State {
        match state {
            EitherState::Left(state) => EitherState::Left(A::notified(state, upper)),
            EitherState::Right(state) => EitherState::Right(B::notified(state, upper)),
        }
    }

    open spec fn drained(state: Self::State) -> Self::State {
        match state {
            EitherState::Left(state) => EitherState::Left(A::drained(state)),
            EitherState::Right(state) => EitherState::Right(B::drained(state)),
        }
    }

    proof fn lemma_waits(state: Self::State, upper: Seq<u64>) {
        match state {
            EitherState::Left(state) => A::lemma_waits(state, upper),
            EitherState::Right(state) => B::lemma_waits(state, upper),
        }
    }

    fn accept_input(&mut self, waker: &mut TimelyWaker) -> (activate: bool) {
        match self {
            EitherInput::Left(queue) => queue.accept_input(waker),
            EitherInput::Right(queue) => queue.accept_input(waker),
        }
    }

    fn drain_input(&mut self) {
        match self {
            EitherInput::Left(queue) => queue.drain_input(),
            EitherInput::Right(queue) => queue.drain_input(),
        }
    }

    fn notify_progress(&mut self, upper: Antichain<u64>, waker: &mut TimelyWaker) -> (activate: bool) {
        match self {
            EitherInput::Left(queue) => queue.notify_progress(upper, waker),
            EitherInput::Right(queue) => queue.notify_progress(upper, waker),
        }
    }
}

} // verus!
