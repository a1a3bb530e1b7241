//! Declaring the inputs and outputs of an asynchronous operator.

use crate::button::{button, Button, ButtonHandle};
use crate::connection::{
    summary_for, Capability, ConnectedToMany, ConnectedToOne, Disconnected, InputCapability,
    InputConnection, OutputIndex,
};
use crate::frontier::{frontier_elements, frontier_from_elem};
use crate::input::{AsyncInputHandle, EventView};
use crate::operator::{elements_of, DriverState, Operator};
use crate::output::AsyncOutputHandle;
use crate::queue::InputQueue;
use crate::waker::TimelyWaker;
use timely::progress::Antichain;
use vstd::prelude::*;

verus! {
/// Builds async operators with generic shape.
///
/// All inputs have queues of type `Q`; all outputs carry records of type
/// `R`.
pub struct OperatorBuilder<Q: InputQueue, R> {
    name: String,
    /// The waker set up to activate this operator when woken.
    operator_waker: TimelyWaker,
    /// The currently known upper frontier of each of the input handles.
    input_frontiers: Vec<Antichain<u64>>,
    /// Input queues for each of the declared inputs of the operator.
    input_queues: Vec<Q>,
    /// The handles of the declared outputs, which are flushed each time the task has been resumed.
    outputs: Vec<AsyncOutputHandle<R>>,
    /// A handle to check whether all workers have pressed the shutdown button.
    shutdown_handle: ButtonHandle,
    /// A button to coordinate shutdown of this operator among workers.
    shutdown_button: Button,
}

impl<Q: InputQueue, R> OperatorBuilder<Q, R> {
    /// The name that the operator was given.
    pub closed spec fn name(&self) -> Seq<char> {
        self.name@
    }

    /// The handles of the inputs declared so far.
    pub closed spec fn inputs(&self) -> Seq<Q> {
        self.input_queues@
    }

    /// The known frontier of each input declared so far.
    pub closed spec fn frontiers(&self) -> Seq<Seq<u64>> {
        elements_of(self.input_frontiers@)
    }

    /// The handles of the outputs declared so far.
    pub closed spec fn outputs(&self) -> Seq<AsyncOutputHandle<R>> {
        self.outputs@
    }

    /// The handle of the shutdown button.
    pub closed spec fn shutdown_handle(&self) -> ButtonHandle {
        self.shutdown_handle
    }

    /// The shutdown button.
    pub closed spec fn shutdown_button(&self) -> Button {
        self.shutdown_button
    }

    /// The waker of the operator.
    pub closed spec fn waker(&self) -> TimelyWaker {
        self.operator_waker
    }

    /// Every input has a known frontier, each output has its position as
    /// its index, and the button is in order.
    pub closed spec fn wf(&self) -> bool {
        &&& self.input_frontiers@.len() == self.input_queues@.len()
        &&& self.shutdown_handle.wf()
        &&& forall|k: int| 0 <= k < self.outputs@.len() ==> (#[trigger] self.outputs@[k]).spec_index() == k
    }

    /// What holds of a builder that is in order: every input has a known
    /// frontier, every output has its position as its index, and the button
    /// is in order.
    pub proof fn lemma_in_order(&self)
        requires
            self.wf(),
        ensures
            self.frontiers().len() == self.inputs().len(),
            self.shutdown_handle().wf(),
            forall|k: int|
                0 <= k < self.outputs().len() ==> (#[trigger] self.outputs()[k]).spec_index() == k,
    {
    }

    /// Allocates a new generic async operator builder for a worker among `peers` workers.
    pub fn new(name: String, peers: usize) -> (builder: Self)
        ensures
            builder.wf(),
            builder.name() == name@,
            builder.inputs().len() == 0,
            builder.frontiers().len() == 0,
            builder.outputs().len() == 0,
            builder.waker().is_task_ready(),
            !builder.waker().is_active(),
            builder.shutdown_handle().peers() == peers,
            builder.shutdown_handle().counted() == 0,
            builder.shutdown_handle().arrived() == 0,
            !builder.shutdown_handle().is_local_pressed(),
            builder.shutdown_button().unsent() == peers,
    {
        let operator_waker = TimelyWaker::new();
        let (shutdown_handle, shutdown_button) = button(peers);
        OperatorBuilder {
            name,
            operator_waker,
            input_frontiers: Vec::new(),
            input_queues: Vec::new(),
            outputs: Vec::new(),
            shutdown_handle,
            shutdown_button,
        }
    }

    /// Adds a new input with the given queue, returning the index of the
    /// input. The input starts with the minimum frontier.
    pub fn new_input(&mut self, queue: Q) -> (index: usize)
        requires
            old(self).wf(),
        ensures
            final(self).wf(),
            index == old(self).inputs().len(),
            final(self).inputs() == old(self).inputs().push(queue),
            final(self).frontiers() == old(self).frontiers().push(seq![0u64]),
            final(self).name() == old(self).name(),
            final(self).outputs() == old(self).outputs(),
            final(self).waker() == old(self).waker(),
            final(self).shutdown_handle() == old(self).shutdown_handle(),
            final(self).shutdown_button() == old(self).shutdown_button(),
    {
        let ghost frontiers = self.frontiers();
        self.input_frontiers.push(frontier_from_elem(0));
        let index = self.input_queues.len();
        self.input_queues.push(queue);
        proof {
            assert(self.frontiers() =~= frontiers.push(seq![0u64]));
        }
        index
    }

    /// Adds a new output, returning its index.
    pub fn new_output(&mut self) -> (index: usize)
        requires
            old(self).wf(),
        ensures
            final(self).wf(),
            index == old(self).outputs().len(),
            final(self).outputs().len() == old(self).outputs().len() + 1,
            final(self).outputs().take(index as int) == old(self).outputs(),
            final(self).outputs()[index as int].spec_index() == index,
            final(self).outputs()[index as int].buffered() == Seq::<(u64, R)>::empty(),
            final(self).outputs()[index as int].outstanding_bytes() == 0,
            final(self).name() == old(self).name(),
            final(self).inputs() == old(self).inputs(),
            final(self).frontiers() == old(self).frontiers(),
            final(self).waker() == old(self).waker(),
            final(self).shutdown_handle() == old(self).shutdown_handle(),
            final(self).shutdown_button() == old(self).shutdown_button(),
    {
        let index = self.outputs.len();
        self.outputs.push(AsyncOutputHandle::new(index));
        index
    }

    /// The number of outputs declared so far.
    pub fn output_count(&self) -> (count: usize)
        ensures
            count == self.outputs().len(),
    {
        self.outputs.len()
    }

    /// Creates the operator, and returns it with its waker, with one
    /// capability for each output, at the minimum time, and with the
    /// shutdown button.
    ///
    /// The capabilities are for the task. The button, when pressed by all
    /// workers, causes the task to be dropped and the inputs to be drained.
    pub fn build(self) -> (built: Built<Q, R>)
        requires
            self.wf(),
        ensures
            built.operator.wf(),
            built.operator.inputs() == self.inputs(),
            built.operator.frontiers() == self.frontiers(),
            built.operator.outputs() == self.outputs(),
            built.operator.shutdown_handle() == self.shutdown_handle(),
            built.operator.state() == DriverState::Running,
            !built.operator.polling(),
            built.waker == self.waker(),
            built.capabilities.len() == self.outputs().len(),
            forall|k: int|
                0 <= k < built.capabilities.len() ==> #[trigger] built.capabilities[k] == (
                Capability { time: 0, output: k as usize }),
            built.button == self.shutdown_button(),
    {
        let mut capabilities: Vec<Capability> = Vec::new();
        let count = self.outputs.len();
        let mut k: usize = 0;
        while k < count
            invariant
                k <= count,
                capabilities.len() == k,
                forall|j: int|
                    0 <= j < k ==> #[trigger] capabilities[j] == (Capability {
                        time: 0,
                        output: j as usize,
                    }),
            decreases count - k,
        {
            capabilities.push(Capability::new(0, k));
            k += 1;
        }
        let operator = Operator::assemble(
            self.input_frontiers,
            self.input_queues,
            self.outputs,
            self.shutdown_handle,
        );
        Built { operator, waker: self.operator_waker, capabilities, button: self.shutdown_button }
    }
}

/// What building an operator gives.
pub struct Built<Q: InputQueue, R> {
    /// The operator, for the scheduler to invoke.
    pub operator: Operator<Q, R>,
    /// The waker of the operator's task.
    pub waker: TimelyWaker,
    /// One capability for each output, at the minimum time.
    pub capabilities: Vec<Capability>,
    /// The shutdown button of this worker.
    pub button: Button,
}

impl<C: InputConnection, D, R> OperatorBuilder<AsyncInputHandle<C, D>, R> {
    /// Whether `after` is `self` with one more input, which has the given
    /// `connection`, the index `index`, the minimum frontier and nothing
    /// queued, and whether `summary` describes the connection for the outputs
    /// declared so far.
    pub open spec fn adds_input(
        &self,
        connection: C,
        after: &Self,
        index: usize,
        summary: Seq<Antichain<u64>>,
    ) -> bool {
        &&& after.name() == self.name()
        &&& after.outputs() == self.outputs()
        &&& after.waker() == self.waker()
        &&& after.shutdown_handle() == self.shutdown_handle()
        &&& after.shutdown_button() == self.shutdown_button()
        &&& index == self.inputs().len()
        &&& after.inputs().len() == self.inputs().len() + 1
        &&& after.inputs().take(index as int) == self.inputs()
        &&& after.inputs()[index as int].connection() == connection
        &&& after.inputs()[index as int].events() == Seq::<EventView<C::Capability, D>>::empty()
        &&& after.inputs()[index as int].delivered() == Seq::<(InputCapability, D)>::empty()
        &&& !after.inputs()[index as int].waiting()
        &&& !after.inputs()[index as int].is_done()
        &&& after.frontiers() == self.frontiers().push(seq![0u64])
        &&& summary.len() == self.outputs().len()
        &&& forall|output: int|
            0 <= output < summary.len() ==> frontier_elements(#[trigger] summary[output])
                == summary_for(connection.connects(output))
    }

    /// Adds a new input with connection information, returning the index of
    /// the input and the summary of its connection, one frontier for each
    /// output declared so far.
    ///
    /// The input starts with the minimum frontier and with nothing queued.
    pub fn new_input_connection(&mut self, connection: C) -> (added: (usize, Vec<Antichain<u64>>))
        requires
            old(self).wf(),
            connection.fits(old(self).outputs().len() as int),
        ensures
            final(self).wf(),
            old(self).adds_input(connection, final(self), added.0, added.1@),
    {
        let outputs = self.outputs.len();
        let summary = connection.describe(outputs);
        let ghost before = self.inputs();
        let index = self.new_input(AsyncInputHandle::new(connection));
        proof {
            assert(self.inputs().take(index as int) =~= before);
        }
        (index, summary)
    }
}

impl<D, R> OperatorBuilder<AsyncInputHandle<ConnectedToOne, D>, R> {
    /// Adds a new input that is connected to the specified output, returning
    /// the index of the input and the summary of its connection.
    pub fn new_input_for<O: OutputIndex>(&mut self, output: &O) -> (added: (
        usize,
        Vec<Antichain<u64>>,
    ))
        requires
            old(self).wf(),
            output.spec_index() < old(self).outputs().len(),
        ensures
            final(self).wf(),
            old(self).adds_input(
                ConnectedToOne(output.spec_index()),
                final(self),
                added.0,
                added.1@,
            ),
    {
        let index = output.index();
        self.new_input_connection(ConnectedToOne(index))
    }
}

impl<const N: usize, D, R> OperatorBuilder<AsyncInputHandle<ConnectedToMany<N>, D>, R> {
    /// Adds a new input that is connected to the specified outputs, returning
    /// the index of the input and the summary of its connection.
    pub fn new_input_for_many(&mut self, outputs: [usize; N]) -> (added: (
        usize,
        Vec<Antichain<u64>>,
    ))
        requires
            old(self).wf(),
            forall|k: int| 0 <= k < N ==> #[trigger] outputs[k] < old(self).outputs().len(),
        ensures
            final(self).wf(),
            old(self).adds_input(ConnectedToMany(outputs), final(self), added.0, added.1@),
    {
        self.new_input_connection(ConnectedToMany(outputs))
    }
}

impl<D, R> OperatorBuilder<AsyncInputHandle<Disconnected, D>, R> {
    /// Adds a new input that is not connected to any output, returning the
    /// index of the input and the summary of its connection.
    pub fn new_disconnected_input(&mut self) -> (added: (usize, Vec<Antichain<u64>>))
        requires
            old(self).wf(),
        ensures
            final(self).wf(),
            old(self).adds_input(Disconnected, final(self), added.0, added.1@),
    {
        self.new_input_connection(Disconnected)
    }
}
} // verus!
