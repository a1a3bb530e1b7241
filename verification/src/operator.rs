//! The routine that the scheduler invokes for an asynchronous operator.

use crate::button::{Button, ButtonHandle};
use crate::connection::OutputIndex;
use crate::frontier::{
    frontier_clone, frontier_elements, frontier_less_than, frontier_to_vec, less_than,
};
use crate::output::AsyncOutputHandle;
use crate::queue::InputQueue;
use crate::waker::TimelyWaker;
use timely::progress::Antichain;
use vstd::prelude::*;

verus! {
/// Where an operator is in its life.
#[derive(Clone, Copy, Debug, PartialEq, Eq, Structural)]
pub enum DriverState {
    /// The task is there, and is resumed when it has been woken.
    Running,
    /// The task has been dropped, and what the inputs hold is being discarded.
    Draining,
    /// The inputs have been drained. The operator asks not to be scheduled again.
    Stopped,
}

/// An asynchronous operator as the scheduler sees it.
///
/// It holds a queue of type `Q` for each of its inputs, and an output
/// handle for records of type `R` for each of its outputs.
pub struct Operator<Q: InputQueue, R> {
    input_frontiers: Vec<Antichain<u64>>,
    input_queues: Vec<Q>,
    outputs: Vec<AsyncOutputHandle<R>>,
    shutdown_handle: ButtonHandle,
    state: DriverState,
    /// Whether the task is being resumed.
    polling: bool,
}

/// The elements of each of `frontiers`.
pub open spec fn elements_of(frontiers: Seq<Antichain<u64>>) -> Seq<Seq<u64>> {
    Seq::new(frontiers.len(), |i: int| frontier_elements(frontiers[i]))
}

/// What the scheduler's invocation of an operator comes to.
#[derive(Clone, Copy, Debug, PartialEq, Eq, Structural)]
pub enum Step {
    /// The task has to be resumed once; its outcome is then reported with
    /// [`Operator::resumed`], which ends the invocation.
    Resume,
    /// The invocation is over, and the operator asks to be scheduled again or not.
    Done { reschedule: bool },
}

/// What an invocation hands back.
#[derive(Debug)]
pub struct Scheduled<R> {
    /// What the invocation comes to.
    pub step: Step,
    /// What each output had buffered, where the invocation has flushed the
    /// outputs itself.
    pub flushed: Option<Vec<Vec<(u64, R)>>>,
}

/// Whether an invocation flushes the outputs itself: where this worker's
/// button is not pressed and the task is not resumed. Where the task is
/// resumed, the end of the resume flushes them; where the button is
/// pressed, the invocation returns before it gets to the outputs.
pub open spec fn flushes(pressed: bool, decision: Decision) -> bool {
    !pressed && !(decision is Resume)
}

/// What an invocation decides once all input has been taken in.
pub ghost enum Decision {
    /// Drop the task, drain the inputs and stop.
    Stop,
    /// Keep the operator alive without touching the task, until all workers agree to stop.
    Wait,
    /// Resume the task.
    Resume,
    /// Leave the task suspended: nothing has woken it.
    Idle,
}

/// The decision of an invocation.
///
/// A worker whose button is pressed stops once all workers have pressed
/// theirs, and waits until then. Otherwise a task that is there is resumed
/// if it has been woken, and an operator whose task is gone stops.
pub open spec fn decide(pressed: bool, all_pressed: bool, running: bool, woken: bool) -> Decision {
    if pressed {
        if all_pressed {
            Decision::Stop
        } else {
            Decision::Wait
        }
    } else if running {
        if woken {
            Decision::Resume
        } else {
            Decision::Idle
        }
    } else {
        Decision::Stop
    }
}

/// The frontier that an input knows after the scheduler has reported
/// `reported`: the reported one if it is beyond the known one, which
/// therefore never moves back.
pub open spec fn advanced(known: Seq<u64>, reported: Seq<u64>) -> Seq<u64> {
    if less_than(known, reported) {
        reported
    } else {
        known
    }
}

/// The queue of an input after an invocation has taken in the reported
/// frontier and the delivered input: first the frontier, if it has
/// advanced, then the input.
pub open spec fn taken_in<Q: InputQueue>(
    before: Q::State,
    known: Seq<u64>,
    reported: Seq<u64>,
) -> Q::State {
    Q::accepted(
        if less_than(known, reported) {
            Q::notified(before, reported)
        } else {
            before
        },
    )
}

/// Whether taking in the reported frontier and the delivered input wakes the task.
pub open spec fn wakes<Q: InputQueue>(before: Q::State, known: Seq<u64>, reported: Seq<u64>) -> bool {
    Q::waits(before) && (less_than(known, reported) || Q::holds_input(before))
}

/// Whether taking in wakes the task on one of the first `upto` inputs.
pub open spec fn any_wakes<Q: InputQueue>(
    inputs: Seq<Q>,
    known: Seq<Seq<u64>>,
    reported: Seq<Seq<u64>>,
    upto: int,
) -> bool {
    exists|i: int|
        0 <= i < upto && #[trigger] wakes::<Q>(inputs[i].state(), known[i], reported[i])
}

/// `after` is `before` once an invocation has taken in the reported
/// frontier and the delivered input and, where it `drained` the input,
/// has discarded what was queued.
pub open spec fn input_scheduled<Q: InputQueue>(
    before: Q,
    known: Seq<u64>,
    reported: Seq<u64>,
    drained: bool,
    after: Q,
) -> bool {
    after.state() == (if drained {
        Q::drained(taken_in::<Q>(before.state(), known, reported))
    } else {
        taken_in::<Q>(before.state(), known, reported)
    })
}

/// `after` is `before` with nothing queued and nothing delivered.
pub open spec fn input_drained<Q: InputQueue>(before: Q, after: Q) -> bool {
    after.state() == Q::drained(before.state())
}

/// `after` is `before` with nothing buffered, and `flushed` is what was buffered.
pub open spec fn output_flushed<R>(
    before: AsyncOutputHandle<R>,
    after: AsyncOutputHandle<R>,
    flushed: Seq<(u64, R)>,
) -> bool {
    &&& flushed == before.buffered()
    &&& after.buffered() == Seq::<(u64, R)>::empty()
    &&& after.spec_index() == before.spec_index()
    &&& after.outstanding_bytes() == before.outstanding_bytes()
}

impl<Q: InputQueue, R> Operator<Q, R> {
    /// The handles of the inputs.
    pub closed spec fn inputs(&self) -> Seq<Q> {
        self.input_queues@
    }

    /// The frontier that each input knows.
    pub closed spec fn frontiers(&self) -> Seq<Seq<u64>> {
        elements_of(self.input_frontiers@)
    }

    /// The handles of the outputs.
    pub closed spec fn outputs(&self) -> Seq<AsyncOutputHandle<R>> {
        self.outputs@
    }

    /// The handle of the shutdown button.
    pub closed spec fn shutdown_handle(&self) -> ButtonHandle {
        self.shutdown_handle
    }

    /// Where the operator is in its life.
    pub closed spec fn state(&self) -> DriverState {
        self.state
    }

    /// Whether the task is being resumed.
    pub closed spec fn polling(&self) -> bool {
        self.polling
    }

    /// Every input has a known frontier, the button is in order, and only
    /// a task that is there is being resumed.
    pub closed spec fn wf(&self) -> bool {
        &&& self.input_frontiers@.len() == self.input_queues@.len()
        &&& self.shutdown_handle.wf()
        &&& self.state != DriverState::Draining
        &&& self.polling ==> self.state == DriverState::Running
    }

    /// The operator with the given parts, whose task is there and is not being resumed.
    pub(crate) fn assemble(
        input_frontiers: Vec<Antichain<u64>>,
        input_queues: Vec<Q>,
        outputs: Vec<AsyncOutputHandle<R>>,
        shutdown_handle: ButtonHandle,
    ) -> (operator: Self)
        requires
            input_frontiers.len() == input_queues.len(),
            shutdown_handle.wf(),
        ensures
            operator.wf(),
            operator.inputs() == input_queues@,
            operator.frontiers() == elements_of(input_frontiers@),
            operator.outputs() == outputs@,
            operator.shutdown_handle() == shutdown_handle,
            operator.state() == DriverState::Running,
            !operator.polling(),
    {
        Operator {
            input_frontiers,
            input_queues,
            outputs,
            shutdown_handle,
            state: DriverState::Running,
            polling: false,
        }
    }

    /// What holds of an operator that is in order.
    pub proof fn lemma_in_order(&self)
        requires
            self.wf(),
        ensures
            self.frontiers().len() == self.inputs().len(),
            self.shutdown_handle().wf(),
            self.state() != DriverState::Draining,
            self.polling() ==> self.state() == DriverState::Running,
    {
    }

    /// Whether an invocation with the `reported` frontiers takes the operator
    /// from `self` to `after`, and its waker from `waker` to `waker_after`,
    /// and comes to `step`.
    ///
    /// Every input takes in its reported frontier and its delivered batches,
    /// and is drained where the invocation decides to stop. Every output is
    /// flushed, and `flushed` holds what it had buffered, unless the task is
    /// resumed or this worker's button is pressed; the outputs are then left
    /// as they are. The button's broadcasts are counted if this worker has
    /// pressed its button, and not looked at otherwise.
    pub open spec fn schedules(
        &self,
        waker: TimelyWaker,
        reported: Seq<Seq<u64>>,
        after: &Self,
        waker_after: TimelyWaker,
        step: Step,
        flushed: Option<Vec<Vec<(u64, R)>>>,
    ) -> bool {
        let pressed = self.shutdown_handle().is_local_pressed();
        let woken = waker.is_task_ready() || any_wakes(
            self.inputs(),
            self.frontiers(),
            reported,
            self.inputs().len() as int,
        );
        let decision = decide(
            pressed,
            self.shutdown_handle().complete(),
            self.state() == DriverState::Running,
            woken,
        );
        &&& after.outputs().len() == self.outputs().len()
        &&& if flushes(pressed, decision) {
            &&& flushed is Some
            &&& flushed->0.len() == self.outputs().len()
            &&& forall|k: int|
                #![trigger flushed->0[k]]
                #![trigger after.outputs()[k]]
                0 <= k < self.outputs().len() ==> output_flushed(
                    self.outputs()[k],
                    after.outputs()[k],
                    flushed->0[k]@,
                )
        } else {
            &&& flushed is None
            &&& after.outputs() == self.outputs()
        }
        &&& after.inputs().len() == self.inputs().len()
        &&& after.frontiers().len() == self.inputs().len()
        &&& forall|i: int|
            0 <= i < self.inputs().len() ==> #[trigger] after.frontiers()[i] == advanced(
                self.frontiers()[i],
                reported[i],
            )
        &&& forall|i: int|
            0 <= i < self.inputs().len() ==> input_scheduled(
                self.inputs()[i],
                self.frontiers()[i],
                reported[i],
                decision is Stop,
                #[trigger] after.inputs()[i],
            )
        &&& step == (match decision {
            Decision::Stop => Step::Done { reschedule: false },
            Decision::Wait => Step::Done { reschedule: true },
            Decision::Resume => Step::Resume,
            Decision::Idle => Step::Done { reschedule: true },
        })
        &&& after.state() == (if decision is Stop {
            DriverState::Stopped
        } else {
            self.state()
        })
        &&& after.polling() == (decision is Resume)
        &&& waker_after.is_task_ready() == (woken && !(decision is Resume))
        &&& !waker_after.is_active()
        &&& after.shutdown_handle().is_local_pressed() == pressed
        &&& after.shutdown_handle().peers() == self.shutdown_handle().peers()
        &&& if pressed {
            &&& after.shutdown_handle().counted() == self.shutdown_handle().counted()
                + self.shutdown_handle().arrived()
            &&& after.shutdown_handle().arrived() == 0
        } else {
            after.shutdown_handle() == self.shutdown_handle()
        }
    }

    /// Whether the end of an invocation in which the task has been resumed
    /// takes the operator from `self` to `after` and hands on `flushed`.
    ///
    /// Every output is flushed. A task that has `completed` is dropped, and
    /// the inputs are drained; otherwise the inputs are left as they are.
    pub open spec fn ends_resume(
        &self,
        completed: bool,
        after: &Self,
        reschedule: bool,
        flushed: Seq<Vec<(u64, R)>>,
    ) -> bool {
        &&& !after.polling()
        &&& reschedule == !completed
        &&& after.state() == (if completed {
            DriverState::Stopped
        } else {
            DriverState::Running
        })
        &&& flushed.len() == self.outputs().len()
        &&& after.outputs().len() == self.outputs().len()
        &&& forall|k: int|
            #![trigger flushed[k]]
            #![trigger after.outputs()[k]]
            0 <= k < self.outputs().len() ==> output_flushed(
                self.outputs()[k],
                after.outputs()[k],
                flushed[k]@,
            )
        &&& after.inputs().len() == self.inputs().len()
        &&& completed ==> forall|i: int|
            0 <= i < self.inputs().len() ==> input_drained(
                self.inputs()[i],
                #[trigger] after.inputs()[i],
            )
        &&& !completed ==> after.inputs() == self.inputs()
        &&& after.frontiers() == self.frontiers()
        &&& after.shutdown_handle() == self.shutdown_handle()
    }

    /// Takes in, for each input, the frontier that the scheduler reports and
    /// the batches that it has delivered.
    fn take_in(&mut self, waker: &mut TimelyWaker, new_frontiers: &Vec<Antichain<u64>>)
        requires
            old(self).wf(),
            new_frontiers.len() == old(self).inputs().len(),
        ensures
            final(self).wf(),
            final(self).inputs().len() == old(self).inputs().len(),
            final(self).frontiers().len() == old(self).inputs().len(),
            forall|i: int|
                0 <= i < old(self).inputs().len() ==> #[trigger] final(self).frontiers()[i]
                    == advanced(old(self).frontiers()[i], frontier_elements(new_frontiers[i])),
            forall|i: int|
                0 <= i < old(self).inputs().len() ==> input_scheduled(
                    old(self).inputs()[i],
                    old(self).frontiers()[i],
                    frontier_elements(new_frontiers[i]),
                    false,
                    #[trigger] final(self).inputs()[i],
                ),
            !final(waker).is_active(),
            final(waker).is_task_ready() == (old(waker).is_task_ready() || any_wakes(
                old(self).inputs(),
                old(self).frontiers(),
                Seq::new(new_frontiers.len() as nat, |i: int| frontier_elements(new_frontiers[i])),
                old(self).inputs().len() as int,
            )),
            final(self).outputs() == old(self).outputs(),
            final(self).shutdown_handle() == old(self).shutdown_handle(),
            final(self).state() == old(self).state(),
            final(self).polling() == old(self).polling(),
    {
        let ghost reported = Seq::new(
            new_frontiers.len() as nat,
            |i: int| frontier_elements(new_frontiers[i]),
        );
        let ghost inputs = self.inputs();
        let ghost known = self.frontiers();
        let ghost ready = waker.is_task_ready();
        waker.set_active(true);
        let count = self.input_queues.len();
        let mut i: usize = 0;
        while i < count
            invariant
                i <= count,
                count == inputs.len(),
                new_frontiers.len() == count,
                self.input_queues@.len() == count,
                self.input_frontiers@.len() == count,
                known.len() == count,
                known == old(self).frontiers(),
                inputs == old(self).inputs(),
                reported == Seq::new(
                    new_frontiers.len() as nat,
                    |i: int| frontier_elements(new_frontiers[i]),
                ),
                waker.is_active(),
                waker.is_task_ready() == (ready || any_wakes(
                    inputs,
                    known,
                    reported,
                    i as int,
                )),
                forall|j: int|
                    0 <= j < i ==> frontier_elements(#[trigger] self.input_frontiers@[j])
                        == advanced(known[j], reported[j]),
                forall|j: int|
                    0 <= j < i ==> input_scheduled(
                        inputs[j],
                        known[j],
                        reported[j],
                        false,
                        #[trigger] self.input_queues@[j],
                    ),
                forall|j: int|
                    i <= j < count ==> frontier_elements(#[trigger] self.input_frontiers@[j])
                        == known[j],
                forall|j: int| i <= j < count ==> #[trigger] self.input_queues@[j] == inputs[j],
                self.outputs == old(self).outputs,
                self.shutdown_handle == old(self).shutdown_handle,
                self.state == old(self).state,
                self.polling == old(self).polling,
            decreases count - i,
        {
            // First, discover if there are any frontier notifications.
            if frontier_less_than(&self.input_frontiers[i], &new_frontiers[i]) {
                self.input_queues[i].notify_progress(
                    frontier_clone(&new_frontiers[i]),
                    waker,
                );
                self.input_frontiers[i] = frontier_clone(&new_frontiers[i]);
            }
            // Then accept all input into the queue.
            self.input_queues[i].accept_input(waker);
            proof {
                let here = i as int;
                Q::lemma_waits(inputs[here].state(), reported[here]);
                assert(any_wakes(inputs, known, reported, here + 1) == (any_wakes(
                    inputs,
                    known,
                    reported,
                    here,
                ) || wakes::<Q>(inputs[here].state(), known[here], reported[here]))) by {
                    if any_wakes(inputs, known, reported, here + 1) {
                        let w = choose|w: int|
                            0 <= w < here + 1 && #[trigger] wakes::<Q>(
                                inputs[w].state(),
                                known[w],
                                reported[w],
                            );
                        if w < here {
                            assert(any_wakes(inputs, known, reported, here));
                        }
                    }
                }
            }
            i += 1;
        }
        waker.set_active(false);
    }

    /// Discards what the inputs hold.
    fn drain(&mut self)
        requires
            old(self).input_frontiers@.len() == old(self).input_queues@.len(),
        ensures
            final(self).inputs().len() == old(self).inputs().len(),
            forall|i: int|
                0 <= i < old(self).inputs().len() ==> input_drained(
                    old(self).inputs()[i],
                    #[trigger] final(self).inputs()[i],
                ),
            final(self).input_frontiers == old(self).input_frontiers,
            final(self).outputs == old(self).outputs,
            final(self).shutdown_handle == old(self).shutdown_handle,
            final(self).state == DriverState::Stopped,
            final(self).polling == old(self).polling,
    {
        self.state = DriverState::Draining;
        let count = self.input_queues.len();
        let mut i: usize = 0;
        while i < count
            invariant
                i <= count,
                self.input_queues@.len() == count,
                old(self).input_queues@.len() == count,
                forall|j: int|
                    0 <= j < i ==> input_drained(
                        old(self).input_queues@[j],
                        #[trigger] self.input_queues@[j],
                    ),
                forall|j: int|
                    i <= j < count ==> #[trigger] self.input_queues@[j] == old(
                        self,
                    ).input_queues@[j],
                self.input_frontiers == old(self).input_frontiers,
                self.outputs == old(self).outputs,
                self.shutdown_handle == old(self).shutdown_handle,
                self.polling == old(self).polling,
            decreases count - i,
        {
            self.input_queues[i].drain_input();
            i += 1;
        }
        self.state = DriverState::Stopped;
    }

    /// Invokes the operator, as the scheduler does whenever the operator is
    /// activated, with the frontier that the scheduler reports for each input.
    ///
    /// The invocation first takes in all input, so that it is on record
    /// before the task gets to run. It then decides as [`decide`] says. The
    /// task is resumed at most once: where the invocation comes to
    /// [`Step::Resume`], the operator is marked as resuming its task, and the
    /// task is not marked as woken any more.
    ///
    /// The outputs are flushed in every invocation that gets to the task,
    /// whether the task is resumed or not: by the invocation itself where
    /// the task is left alone or is gone, by [`Operator::resumed`] where it
    /// is resumed. An invocation of a worker whose button is pressed returns
    /// before it gets to the task, and leaves the outputs as they are.
    pub fn schedule(&mut self, waker: &mut TimelyWaker, new_frontiers: &Vec<Antichain<u64>>) -> (done:
        Scheduled<R>)
        requires
            old(self).wf(),
            !old(self).polling(),
            new_frontiers.len() == old(self).inputs().len(),
        ensures
            final(self).wf(),
            old(self).schedules(
                *old(waker),
                elements_of(new_frontiers@),
                final(self),
                *final(waker),
                done.step,
                done.flushed,
            ),
    {
        self.take_in(waker, new_frontiers);
        // If our worker pressed the button we stop resuming the task, and
        // drain the inputs once all workers have pressed theirs.
        if self.shutdown_handle.local_pressed() {
            if self.shutdown_handle.all_pressed() {
                self.drain();
                Scheduled { step: Step::Done { reschedule: false }, flushed: None }
            } else {
                Scheduled { step: Step::Done { reschedule: true }, flushed: None }
            }
        } else {
            match self.state {
                DriverState::Running => {
                    if waker.task_ready() {
                        waker.clear_ready();
                        self.polling = true;
                        Scheduled { step: Step::Resume, flushed: None }
                    } else {
                        // Flush all the outputs before exiting.
                        let flushed = self.flush();
                        Scheduled { step: Step::Done { reschedule: true }, flushed: Some(flushed) }
                    }
                },
                _ => {
                    let flushed = self.flush();
                    // The task is gone: keep draining all inputs.
                    self.drain();
                    Scheduled { step: Step::Done { reschedule: false }, flushed: Some(flushed) }
                },
            }
        }
    }

    /// Flushes all outputs, and gives what each of them had buffered.
    fn flush(&mut self) -> (flushed: Vec<Vec<(u64, R)>>)
        ensures
            flushed.len() == old(self).outputs().len(),
            final(self).outputs().len() == old(self).outputs().len(),
            forall|k: int|
                0 <= k < old(self).outputs().len() ==> output_flushed(
                    old(self).outputs()[k],
                    final(self).outputs()[k],
                    (#[trigger] flushed[k])@,
                ),
            final(self).wf() == old(self).wf(),
            final(self).frontiers() == old(self).frontiers(),
            final(self).inputs() == old(self).inputs(),
            final(self).shutdown_handle() == old(self).shutdown_handle(),
            final(self).state() == old(self).state(),
            final(self).polling() == old(self).polling(),
    {
        let mut flushed: Vec<Vec<(u64, R)>> = Vec::new();
        let count = self.outputs.len();
        let mut k: usize = 0;
        while k < count
            invariant
                k <= count,
                flushed.len() == k,
                self.outputs@.len() == count,
                old(self).outputs@.len() == count,
                forall|j: int|
                    0 <= j < k ==> output_flushed(
                        old(self).outputs@[j],
                        self.outputs@[j],
                        (#[trigger] flushed[j])@,
                    ),
                forall|j: int|
                    k <= j < count ==> #[trigger] self.outputs@[j] == old(self).outputs@[j],
                self.input_frontiers == old(self).input_frontiers,
                self.input_queues == old(self).input_queues,
                self.shutdown_handle == old(self).shutdown_handle,
                self.state == old(self).state,
                self.polling == old(self).polling,
            decreases count - k,
        {
            let batch = self.outputs[k].cease();
            flushed.push(batch);
            k += 1;
        }
        flushed
    }

    /// Ends the invocation in which the task has been resumed, with whether
    /// the task has completed.
    ///
    /// All outputs are flushed, whether the task made progress or not. A
    /// task that has completed is dropped and the inputs are drained, with no
    /// need for the other workers to agree; the operator then asks not to be
    /// scheduled again. Returns whether the operator is to be scheduled
    /// again, and what each output had buffered.
    pub fn resumed(&mut self, completed: bool) -> (end: (bool, Vec<Vec<(u64, R)>>))
        requires
            old(self).wf(),
            old(self).polling(),
        ensures
            final(self).wf(),
            old(self).ends_resume(completed, final(self), end.0, end.1@),
    {
        self.polling = false;
        // Flush all the outputs before exiting.
        let flushed = self.flush();
        if completed {
            // We're done with the task, so we keep draining all inputs.
            self.drain();
            (false, flushed)
        } else {
            // The operator needs to be kept alive if the task is pending.
            (true, flushed)
        }
    }

    /// Presses the shutdown button of this worker. Returns the number of
    /// workers that the message `true` has to be sent to.
    pub fn press(&mut self, button: &mut Button) -> (broadcasts: usize)
        requires
            old(self).wf(),
        ensures
            final(self).wf(),
            broadcasts == old(button).unsent(),
            final(button).unsent() == 0,
            final(self).shutdown_handle().is_local_pressed(),
            final(self).shutdown_handle().peers() == old(self).shutdown_handle().peers(),
            final(self).shutdown_handle().counted() == old(self).shutdown_handle().counted(),
            final(self).shutdown_handle().arrived() == old(self).shutdown_handle().arrived(),
            final(self).inputs() == old(self).inputs(),
            final(self).frontiers() == old(self).frontiers(),
            final(self).outputs() == old(self).outputs(),
            final(self).state() == old(self).state(),
            final(self).polling() == old(self).polling(),
    {
        button.press(&mut self.shutdown_handle)
    }

    /// Records the broadcast of a shutdown button that some worker has
    /// pressed. Returns whether it was taken: no more broadcasts are taken
    /// than there are workers.
    pub fn deliver_press(&mut self) -> (taken: bool)
        requires
            old(self).wf(),
        ensures
            final(self).wf(),
            taken == !old(self).shutdown_handle().complete(),
            final(self).shutdown_handle().arrived() == old(self).shutdown_handle().arrived() + (
            if taken {
                1nat
            } else {
                0nat
            }),
            final(self).shutdown_handle().counted() == old(self).shutdown_handle().counted(),
            final(self).shutdown_handle().peers() == old(self).shutdown_handle().peers(),
            final(self).shutdown_handle().is_local_pressed() == old(
                self,
            ).shutdown_handle().is_local_pressed(),
            final(self).inputs() == old(self).inputs(),
            final(self).frontiers() == old(self).frontiers(),
            final(self).outputs() == old(self).outputs(),
            final(self).state() == old(self).state(),
            final(self).polling() == old(self).polling(),
    {
        if self.shutdown_handle.is_complete() {
            false
        } else {
            proof {
                self.shutdown_handle.lemma_bounded();
            }
            self.shutdown_handle.deliver(true);
            true
        }
    }

    /// The handle of an input, for the task to drain and for the scheduler to deliver to.
    pub fn input(&mut self, input: usize) -> (handle: &mut Q)
        requires
            old(self).wf(),
            input < old(self).inputs().len(),
        ensures
            *handle == old(self).inputs()[input as int],
            final(self).inputs() == old(self).inputs().update(input as int, *final(handle)),
            final(self).wf(),
            final(self).frontiers() == old(self).frontiers(),
            final(self).outputs() == old(self).outputs(),
            final(self).shutdown_handle() == old(self).shutdown_handle(),
            final(self).state() == old(self).state(),
            final(self).polling() == old(self).polling(),
    {
        &mut self.input_queues[input]
    }

    /// The handle of an output, for the task to emit records with.
    pub fn output(&mut self, output: usize) -> (handle: &mut AsyncOutputHandle<R>)
        requires
            old(self).wf(),
            output < old(self).outputs().len(),
        ensures
            *handle == old(self).outputs()[output as int],
            final(self).outputs() == old(self).outputs().update(output as int, *final(handle)),
            final(self).wf(),
            final(self).frontiers() == old(self).frontiers(),
            final(self).inputs() == old(self).inputs(),
            final(self).shutdown_handle() == old(self).shutdown_handle(),
            final(self).state() == old(self).state(),
            final(self).polling() == old(self).polling(),
    {
        &mut self.outputs[output]
    }

    /// The frontier that an input knows.
    pub fn frontier(&self, input: usize) -> (elements: Vec<u64>)
        requires
            self.wf(),
            input < self.inputs().len(),
        ensures
            elements@ == self.frontiers()[input as int],
    {
        frontier_to_vec(&self.input_frontiers[input])
    }

    /// Where the operator is in its life.
    pub fn driver_state(&self) -> (state: DriverState)
        ensures
            state == self.state(),
    {
        self.state
    }

    /// Whether the task is being resumed.
    pub fn is_polling(&self) -> (polling: bool)
        ensures
            polling == self.polling(),
    {
        self.polling
    }

    /// The number of inputs.
    pub fn input_count(&self) -> (count: usize)
        ensures
            count == self.inputs().len(),
    {
        self.input_queues.len()
    }

    /// The number of outputs.
    pub fn output_count(&self) -> (count: usize)
        ensures
            count == self.outputs().len(),
    {
        self.outputs.len()
    }
}

/// The frontier that an input knows after the scheduler has reported
/// `reports`, one after the other, to an input that knew `known`.
pub open spec fn known_after(known: Seq<u64>, reports: Seq<Seq<u64>>) -> Seq<u64>
    decreases reports.len(),
{
    if reports.len() == 0 {
        known
    } else {
        advanced(known_after(known, reports.drop_last()), reports.last())
    }
}

/// The frontiers that the task is told of when the scheduler reports
/// `reports`, one after the other, to an input that knew `known`: each
/// report that is beyond what the input knew when it came.
pub open spec fn announced(known: Seq<u64>, reports: Seq<Seq<u64>>) -> Seq<Seq<u64>>
    decreases reports.len(),
{
    if reports.len() == 0 {
        Seq::empty()
    } else if less_than(known_after(known, reports.drop_last()), reports.last()) {
        announced(known, reports.drop_last()).push(reports.last())
    } else {
        announced(known, reports.drop_last())
    }
}

/// The frontiers that the task is told of never move back.
///
/// Whatever the scheduler reports for an input, and in whatever order: the
/// first frontier that the task is told of is beyond the one the input
/// started with, each later one is beyond the one before it, and the input
/// knows the last of them.
pub proof fn lemma_frontiers_advance(known: Seq<u64>, reports: Seq<Seq<u64>>)
    ensures
        announced(known, reports).len() > 0 ==> less_than(known, announced(known, reports)[0]),
        forall|i: int|
            0 <= i < announced(known, reports).len() - 1 ==> less_than(
                #[trigger] announced(known, reports)[i],
                announced(known, reports)[i + 1],
            ),
        known_after(known, reports) == (if announced(known, reports).len() > 0 {
            announced(known, reports).last()
        } else {
            known
        }),
    decreases reports.len(),
{
    if reports.len() > 0 {
        let earlier = reports.drop_last();
        lemma_frontiers_advance(known, earlier);
    }
}

/// A task that has been resumed is not resumed again before it is woken.
///
/// If an invocation resumes the task, the task does not complete, and
/// nothing wakes it before or during the next invocation, then the next
/// invocation leaves the task suspended.
pub proof fn lemma_resumed_once<Q: InputQueue, R>(
    before: Operator<Q, R>,
    waker: TimelyWaker,
    reported: Seq<Seq<u64>>,
    resuming: Operator<Q, R>,
    unwoken: TimelyWaker,
    flushed: Seq<Vec<(u64, R)>>,
    suspended: Operator<Q, R>,
    next: Seq<Seq<u64>>,
    after: Operator<Q, R>,
    waker_after: TimelyWaker,
    step: Step,
    flushed_next: Option<Vec<Vec<(u64, R)>>>,
)
    requires
        before.schedules(waker, reported, &resuming, unwoken, Step::Resume, None),
        resuming.ends_resume(false, &suspended, true, flushed),
        suspended.schedules(unwoken, next, &after, waker_after, step, flushed_next),
        !any_wakes(suspended.inputs(), suspended.frontiers(), next, suspended.inputs().len() as int),
    ensures
        resuming.polling(),
        !unwoken.is_task_ready(),
        step != Step::Resume,
        !after.polling(),
{
}

/// A worker that has pressed its button stops when a broadcast from every
/// worker has come in, and not before.
///
/// With the button pressed and the task still there, an invocation stops
/// the operator if as many broadcasts have come in as there are workers.
/// Otherwise it leaves the task alone and asks to be scheduled again.
pub proof fn lemma_stops_when_all_pressed<Q: InputQueue, R>(
    before: Operator<Q, R>,
    waker: TimelyWaker,
    reported: Seq<Seq<u64>>,
    after: Operator<Q, R>,
    waker_after: TimelyWaker,
    step: Step,
    flushed: Option<Vec<Vec<(u64, R)>>>,
)
    requires
        before.wf(),
        before.state() == DriverState::Running,
        before.shutdown_handle().is_local_pressed(),
        before.schedules(waker, reported, &after, waker_after, step, flushed),
    ensures
        before.shutdown_handle().counted() + before.shutdown_handle().arrived()
            <= before.shutdown_handle().peers(),
        (after.state() == DriverState::Stopped) <==> before.shutdown_handle().counted()
            + before.shutdown_handle().arrived() == before.shutdown_handle().peers(),
        step == (Step::Done { reschedule: after.state() != DriverState::Stopped }),
        !after.polling(),
        flushed is None,
        after.outputs() == before.outputs(),
{
    before.lemma_in_order();
    before.shutdown_handle().lemma_bounded();
}

/// A worker without peers stops on its own press.
///
/// With one worker, the button pressed and the broadcast of that press come
/// in, the next invocation stops the operator.
pub proof fn lemma_single_worker_stops<Q: InputQueue, R>(
    before: Operator<Q, R>,
    waker: TimelyWaker,
    reported: Seq<Seq<u64>>,
    after: Operator<Q, R>,
    waker_after: TimelyWaker,
    step: Step,
    flushed: Option<Vec<Vec<(u64, R)>>>,
)
    requires
        before.wf(),
        before.shutdown_handle().peers() == 1,
        before.shutdown_handle().is_local_pressed(),
        before.shutdown_handle().counted() + before.shutdown_handle().arrived() >= 1,
        before.schedules(waker, reported, &after, waker_after, step, flushed),
    ensures
        after.state() == DriverState::Stopped,
        step == (Step::Done { reschedule: false }),
{
    before.lemma_in_order();
    before.shutdown_handle().lemma_bounded();
}

/// The outputs are flushed in every invocation that gets to the task.
///
/// With the button of this worker not pressed, an invocation that does not
/// resume the task leaves every output with nothing buffered, and hands on
/// what each had buffered. So does the end of a resume, whether the task
/// has completed or not.
pub proof fn lemma_flushed_in_every_cycle<Q: InputQueue, R>(
    before: Operator<Q, R>,
    waker: TimelyWaker,
    reported: Seq<Seq<u64>>,
    after: Operator<Q, R>,
    waker_after: TimelyWaker,
    step: Step,
    flushed: Option<Vec<Vec<(u64, R)>>>,
    completed: bool,
    ended: Operator<Q, R>,
    reschedule: bool,
    flushed_at_end: Seq<Vec<(u64, R)>>,
)
    requires
        !before.shutdown_handle().is_local_pressed(),
        before.schedules(waker, reported, &after, waker_after, step, flushed),
        step == Step::Resume ==> after.ends_resume(completed, &ended, reschedule, flushed_at_end),
    ensures
        step != Step::Resume ==> flushed is Some && forall|k: int|
            0 <= k < before.outputs().len() ==> (#[trigger] flushed->0[k])@
                == before.outputs()[k].buffered() && after.outputs()[k].buffered() == Seq::<
                (u64, R),
            >::empty(),
        step == Step::Resume ==> flushed is None && after.outputs() == before.outputs()
            && forall|k: int|
            0 <= k < before.outputs().len() ==> (#[trigger] flushed_at_end[k])@
                == after.outputs()[k].buffered() && ended.outputs()[k].buffered() == Seq::<
                (u64, R),
            >::empty(),
{
    if step != Step::Resume {
        assert forall|k: int| 0 <= k < before.outputs().len() implies (#[trigger] flushed->0[k])@
            == before.outputs()[k].buffered() && after.outputs()[k].buffered() == Seq::<
            (u64, R),
        >::empty() by {
            assert(output_flushed(before.outputs()[k], after.outputs()[k], flushed->0[k]@));
        }
    } else {
        assert forall|k: int| 0 <= k < before.outputs().len() implies (#[trigger] flushed_at_end[k])@
            == after.outputs()[k].buffered() && ended.outputs()[k].buffered() == Seq::<
            (u64, R),
        >::empty() by {
            assert(output_flushed(after.outputs()[k], ended.outputs()[k], flushed_at_end[k]@));
        }
    }
}

} // verus!
