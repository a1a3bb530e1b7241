//! Operators whose task may fail.
//!
//! A failure is reported on an output of its own, which no input is
//! connected to. The task that failed is then taken to be suspended for
//! good: the operator stays alive, and holds its frontier, until the
//! shutdown button has been pressed by all workers.

use crate::button::Button;
use crate::builder::OperatorBuilder;
use crate::connection::{Capability, OutputIndex};
use crate::queue::InputQueue;
use crate::input::Poll;
use crate::operator::{elements_of, DriverState, Operator, Scheduled};
use crate::output::AsyncOutputHandle;
use crate::waker::TimelyWaker;
use timely::progress::Antichain;
use vstd::prelude::*;

verus! {
/// An operator with an error output beside its other outputs.
pub struct FallibleOperator<Q: InputQueue, R, E> {
    operator: Operator<Q, R>,
    error_output: AsyncOutputHandle<E>,
    /// The capability for the error output, until an error has been reported.
    error_cap: Option<Capability>,
}

/// What the end of an invocation of a fallible operator hands on.
pub struct Flushed<R, E> {
    /// Whether the operator is to be scheduled again.
    pub reschedule: bool,
    /// What each output had buffered.
    pub outputs: Vec<Vec<(u64, R)>>,
    /// What the error output had buffered.
    pub errors: Vec<(u64, E)>,
}

impl<Q: InputQueue, R, E> FallibleOperator<Q, R, E> {
    /// The operator that the task runs in.
    pub closed spec fn inner(&self) -> Operator<Q, R> {
        self.operator
    }

    /// The handle of the error output.
    pub closed spec fn error_output(&self) -> AsyncOutputHandle<E> {
        self.error_output
    }

    /// Whether the task has failed, and is suspended for good.
    pub closed spec fn wedged(&self) -> bool {
        self.error_cap is None
    }

    /// The operator is in order, and the error output comes after the other
    /// outputs, holds nothing between the invocations, and has its
    /// capability at the minimum time while there is one.
    pub closed spec fn wf(&self) -> bool {
        &&& self.operator.wf()
        &&& self.error_output.spec_index() == self.operator.outputs().len()
        &&& self.error_output.buffered() == Seq::<(u64, E)>::empty()
        &&& self.error_cap matches Some(cap) ==> cap == (Capability {
            time: 0,
            output: self.error_output.spec_index(),
        })
    }

    /// A fallible operator around `operator`, with an error output that holds nothing yet.
    pub(crate) fn assemble(operator: Operator<Q, R>) -> (fallible: Self)
        requires
            operator.wf(),
        ensures
            fallible.wf(),
            fallible.inner() == operator,
            !fallible.wedged(),
            fallible.error_output().spec_index() == operator.outputs().len(),
            fallible.error_output().buffered() == Seq::<(u64, E)>::empty(),
    {
        let index = operator.output_count();
        FallibleOperator {
            operator,
            error_output: AsyncOutputHandle::new(index),
            error_cap: Some(Capability::new(0, index)),
        }
    }

    /// What holds of a fallible operator that is in order: the operator
    /// that the task runs in is in order, and the error output, which comes
    /// after the other outputs, is flushed.
    pub proof fn lemma_in_order(&self)
        requires
            self.wf(),
        ensures
            self.inner().wf(),
            self.error_output().spec_index() == self.inner().outputs().len(),
            self.error_output().buffered() == Seq::<(u64, E)>::empty(),
    {
    }

    /// Invokes the operator as [`Operator::schedule`] does. The error
    /// output needs no flush: an error is flushed at the end of the resume
    /// that came to it.
    pub fn schedule(&mut self, waker: &mut TimelyWaker, new_frontiers: &Vec<Antichain<u64>>) -> (done:
        Scheduled<R>)
        requires
            old(self).wf(),
            !old(self).inner().polling(),
            new_frontiers.len() == old(self).inner().inputs().len(),
        ensures
            final(self).wf(),
            final(self).wedged() == old(self).wedged(),
            final(self).error_output() == old(self).error_output(),
            old(self).inner().schedules(
                *old(waker),
                elements_of(new_frontiers@),
                &final(self).inner(),
                *final(waker),
                done.step,
                done.flushed,
            ),
    {
        self.operator.schedule(waker, new_frontiers)
    }

    /// Ends the invocation in which the task has been resumed, with what the
    /// task came to.
    ///
    /// A task that fails has its error buffered on the error output, at the
    /// minimum time, and the capability for that output is given up. The
    /// task is from then on taken to be suspended, whatever is reported of
    /// it: it is neither resumed to an end nor dropped before the shutdown
    /// button stops the operator. All outputs are flushed, the error output
    /// last.
    pub fn resumed(&mut self, outcome: Poll<Result<(), E>>) -> (end: Flushed<R, E>)
        requires
            old(self).wf(),
            old(self).inner().polling(),
        ensures
            final(self).wf(),
            ({
                let fails = !old(self).wedged() && outcome matches Poll::Ready(Err(_));
                let completes = !old(self).wedged() && outcome matches Poll::Ready(Ok(_));
                &&& final(self).wedged() == (old(self).wedged() || fails)
                &&& end.errors@ == (if fails {
                    seq![(0u64, outcome->Ready_0->Err_0)]
                } else {
                    Seq::empty()
                })
                &&& old(self).inner().ends_resume(
                    completes,
                    &final(self).inner(),
                    end.reschedule,
                    end.outputs@,
                )
            }),
            final(self).error_output().buffered() == Seq::<(u64, E)>::empty(),
            final(self).error_output().spec_index() == old(self).error_output().spec_index(),
            final(self).error_output().outstanding_bytes() == old(
                self,
            ).error_output().outstanding_bytes(),
    {
        let wedged = self.error_cap.is_none();
        let completed = match outcome {
            Poll::Ready(Err(err)) => {
                match self.error_cap.take() {
                    Some(error_cap) => {
                        self.error_output.give(&error_cap, err);
                    },
                    None => {},
                }
                false
            },
            Poll::Ready(Ok(_)) => !wedged,
            Poll::Pending => false,
        };
        let (reschedule, outputs) = self.operator.resumed(completed);
        let errors = self.error_output.cease();
        Flushed { reschedule, outputs, errors }
    }

    /// The operator that the task runs in: its inputs, its outputs, its waker and its button.
    pub fn operator(&mut self) -> (operator: &mut Operator<Q, R>)
        requires
            old(self).wf(),
        ensures
            *operator == old(self).inner(),
            final(self).inner() == *final(operator),
            final(self).wedged() == old(self).wedged(),
            final(self).error_output() == old(self).error_output(),
            final(operator).wf() && final(operator).outputs().len() == old(
                self,
            ).inner().outputs().len() ==> final(self).wf(),
    {
        &mut self.operator
    }

    /// Whether the task has failed, and is suspended for good.
    pub fn is_wedged(&self) -> (wedged: bool)
        ensures
            wedged == self.wedged(),
    {
        self.error_cap.is_none()
    }
}

impl<Q: InputQueue, R> OperatorBuilder<Q, R> {
    /// Creates a fallible operator, and returns it with its waker, with one
    /// capability for each output but the error output, at the minimum time,
    /// and with the shutdown button.
    ///
    /// The error output is declared last, after all outputs of the builder.
    /// If the task comes to an error, the error is emitted on it and the
    /// operator waits until the shutdown button has been pressed.
    pub fn build_fallible<E>(self) -> (built: BuiltFallible<Q, R, E>)
        requires
            self.wf(),
        ensures
            built.operator.wf(),
            !built.operator.wedged(),
            built.operator.error_output().spec_index() == self.outputs().len(),
            built.operator.error_output().buffered() == Seq::<(u64, E)>::empty(),
            built.operator.inner().inputs() == self.inputs(),
            built.operator.inner().frontiers() == self.frontiers(),
            built.operator.inner().outputs() == self.outputs(),
            built.operator.inner().shutdown_handle() == self.shutdown_handle(),
            built.operator.inner().state() == DriverState::Running,
            !built.operator.inner().polling(),
            built.waker == self.waker(),
            built.capabilities.len() == self.outputs().len(),
            forall|k: int|
                0 <= k < built.capabilities.len() ==> #[trigger] built.capabilities[k] == (
                Capability { time: 0, output: k as usize }),
            built.button == self.shutdown_button(),
    {
        let built = self.build();
        BuiltFallible {
            operator: FallibleOperator::assemble(built.operator),
            waker: built.waker,
            capabilities: built.capabilities,
            button: built.button,
        }
    }
}

/// What building a fallible operator gives.
pub struct BuiltFallible<Q: InputQueue, R, E> {
    /// The operator, for the scheduler to invoke.
    pub operator: FallibleOperator<Q, R, E>,
    /// The waker of the operator's task.
    pub waker: TimelyWaker,
    /// One capability for each output but the error output, at the minimum time.
    pub capabilities: Vec<Capability>,
    /// The shutdown button of this worker.
    pub button: Button,
}
} // verus!
