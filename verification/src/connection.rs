//! How an input of an operator is tied to its outputs.
//!
//! A connection decides which capability the operator's task receives with
//! each batch of input, and which summary the scheduler is given for the
//! input, one antichain for each output.

use crate::frontier::{frontier_elements, frontier_empty, frontier_from_elem};
use timely::progress::Antichain;
use vstd::prelude::*;

verus! {
/// The right to hold back an input's frontier at a time, as it comes with a batch of input.
///
/// A capability is held by one owner at a time, and is not copied.
#[derive(Debug, PartialEq, Eq, Structural)]
pub struct InputCapability {
    pub time: u64,
}

impl InputCapability {
    /// The capability that comes with input at `time`.
    pub fn new(time: u64) -> (cap: InputCapability)
        ensures
            cap.time() == time,
    {
        InputCapability { time }
    }

    /// The time of the input that the capability came with.
    pub open spec fn spec_time(&self) -> u64 {
        self.time
    }

    /// The time of the input that the capability came with.
    #[verifier::when_used_as_spec(spec_time)]
    pub fn time(&self) -> (time: u64)
        ensures
            time == self.time(),
    {
        self.time
    }
}

/// The right to produce records on one output, at a time or later.
///
/// A capability is held by one owner at a time, and is not copied. Letting
/// go of it gives up the right for good.
#[derive(Debug, PartialEq, Eq, Structural)]
pub struct Capability {
    pub time: u64,
    pub output: usize,
}

impl Capability {
    /// The capability for `output` at `time`.
    pub fn new(time: u64, output: usize) -> (cap: Capability)
        ensures
            cap.time() == time,
            cap.output() == output,
    {
        Capability { time, output }
    }

    /// The earliest time at which the holder may still produce.
    pub open spec fn spec_time(&self) -> u64 {
        self.time
    }

    /// The earliest time at which the holder may still produce.
    #[verifier::when_used_as_spec(spec_time)]
    pub fn time(&self) -> (time: u64)
        ensures
            time == self.time(),
    {
        self.time
    }

    /// The output that the capability is for.
    pub open spec fn spec_output(&self) -> usize {
        self.output
    }

    /// The output that the capability is for.
    #[verifier::when_used_as_spec(spec_output)]
    pub fn output(&self) -> (output: usize)
        ensures
            output == self.output(),
    {
        self.output
    }

    /// A capability for the same output at a later time, beside this one.
    pub fn delayed(&self, time: u64) -> (cap: Capability)
        requires
            self.time() <= time,
        ensures
            cap.time() == time,
            cap.output() == self.output(),
    {
        Capability { time, output: self.output }
    }

    /// Gives up the right to produce before `time`.
    pub fn downgrade(&mut self, time: u64)
        requires
            old(self).time() <= time,
        ensures
            final(self).time() == time,
            final(self).output() == old(self).output(),
    {
        self.time = time;
    }
}

/// What the summary of an input holds for one output: the zero step where
/// the input is connected to it, nothing where it is not.
pub open spec fn summary_for(connected: bool) -> Seq<u64> {
    if connected {
        seq![0u64]
    } else {
        Seq::<u64>::empty()
    }
}

/// The connection behaviour between an input of an operator and zero or more of its outputs.
pub trait InputConnection {
    /// The capability that the task receives with each batch of this input.
    type Capability;

    /// Whether the connection can be described for an operator with `outputs` outputs.
    spec fn fits(&self, outputs: int) -> bool;

    /// Whether the input is connected to `output`.
    spec fn connects(&self, output: int) -> bool;

    /// The capability that the task receives for `input_cap`.
    spec fn accepted(&self, input_cap: InputCapability) -> Self::Capability;

    /// The summary of the connection for an operator with `outputs` outputs.
    fn describe(&self, outputs: usize) -> (summary: Vec<Antichain<u64>>)
        requires
            self.fits(outputs as int),
        ensures
            summary.len() == outputs,
            forall|output: int|
                0 <= output < outputs ==> frontier_elements(#[trigger] summary[output])
                    == summary_for(self.connects(output)),
    ;

    /// Turns the capability of an input batch into the one the task receives.
    fn accept(&self, input_cap: InputCapability) -> (cap: Self::Capability)
        ensures
            cap == self.accepted(input_cap),
    ;
}

/// `outputs` frontiers without elements.
fn disconnected_summary(outputs: usize) -> (summary: Vec<Antichain<u64>>)
    ensures
        summary.len() == outputs,
        forall|output: int|
            0 <= output < outputs ==> frontier_elements(#[trigger] summary[output])
                == Seq::<u64>::empty(),
{
    let mut summary: Vec<Antichain<u64>> = Vec::new();
    let mut output: usize = 0;
    while output < outputs
        invariant
            output <= outputs,
            summary.len() == output,
            forall|k: int|
                0 <= k < output ==> frontier_elements(#[trigger] summary[k]) == Seq::<u64>::empty(),
        decreases outputs - output,
    {
        summary.push(frontier_empty());
        output += 1;
    }
    summary
}

/// A marker type representing a disconnected input.
#[derive(Clone, Copy, Debug)]
pub struct Disconnected;

impl InputConnection for Disconnected {
    type Capability = u64;

    open spec fn fits(&self, outputs: int) -> bool {
        true
    }

    open spec fn connects(&self, output: int) -> bool {
        false
    }

    open spec fn accepted(&self, input_cap: InputCapability) -> u64 {
        input_cap.time()
    }

    fn describe(&self, outputs: usize) -> (summary: Vec<Antichain<u64>>) {
        disconnected_summary(outputs)
    }

    fn accept(&self, input_cap: InputCapability) -> (cap: u64) {
        input_cap.time()
    }
}

/// A marker type representing an input connected to exactly one output.
#[derive(Clone, Copy, Debug)]
pub struct ConnectedToOne(pub usize);

impl InputConnection for ConnectedToOne {
    type Capability = Capability;

    open spec fn fits(&self, outputs: int) -> bool {
        self.0 < outputs
    }

    open spec fn connects(&self, output: int) -> bool {
        output == self.0
    }

    open spec fn accepted(&self, input_cap: InputCapability) -> Capability {
        Capability { time: input_cap.time(), output: self.0 }
    }

    fn describe(&self, outputs: usize) -> (summary: Vec<Antichain<u64>>) {
        let mut summary = disconnected_summary(outputs);
        summary.set(self.0, frontier_from_elem(0));
        summary
    }

    fn accept(&self, input_cap: InputCapability) -> (cap: Capability) {
        Capability::new(input_cap.time(), self.0)
    }
}

/// `caps` holds, index by index, the capability at `time` for the output that `outputs` lists.
pub open spec fn capabilities_match<const N: usize>(
    caps: [Capability; N],
    outputs: [usize; N],
    time: u64,
) -> bool {
    forall|k: int| 0 <= k < N ==> #[trigger] caps[k] == (Capability { time, output: outputs[k] })
}

/// `caps` with its first `upto` places set to the capabilities at `time`
/// for the outputs that `outputs` lists there.
pub open spec fn replicated<const N: usize>(
    caps: [Capability; N],
    outputs: [usize; N],
    time: u64,
    upto: nat,
) -> [Capability; N]
    decreases upto,
{
    if upto == 0 {
        caps
    } else {
        vstd::array::spec_array_update(
            replicated(caps, outputs, time, (upto - 1) as nat),
            upto - 1,
            Capability { time, output: outputs[upto - 1] },
        )
    }
}

/// The places of [`replicated`]: the first `upto` hold the capabilities for
/// the listed outputs, the others are as they were.
pub proof fn lemma_replicated<const N: usize>(
    caps: [Capability; N],
    outputs: [usize; N],
    time: u64,
    upto: nat,
)
    requires
        upto <= N,
    ensures
        forall|k: int|
            0 <= k < N ==> #[trigger] replicated(caps, outputs, time, upto)[k] == (if k < upto {
                Capability { time, output: outputs[k] }
            } else {
                caps[k]
            }),
    decreases upto,
{
    if upto > 0 {
        lemma_replicated(caps, outputs, time, (upto - 1) as nat);
        let before = replicated(caps, outputs, time, (upto - 1) as nat);
        let after = replicated(caps, outputs, time, upto);
        assert(after@ == before@.update(upto - 1, Capability { time, output: outputs[upto - 1] }));
        assert forall|k: int| 0 <= k < N implies #[trigger] after[k] == (if k < upto {
            Capability { time, output: outputs[k] }
        } else {
            caps[k]
        }) by {
            assert(after[k] == after@[k]);
            assert(before[k] == before@[k]);
        }
    }
}

/// `time` on each of `outputs`, in the order of `outputs`.
///
/// This is `<[usize; N]>::map` with the constructor of [`Capability`] as its
/// closure: one capability for each index of the array, none added or left out.
#[verifier::external_body]
fn capabilities_for<const N: usize>(outputs: &[usize; N], time: u64) -> (caps: [Capability; N])
    ensures
        capabilities_match(caps, *outputs, time),
{
    outputs.map(|output| Capability::new(time, output))
}

/// A marker type representing an input connected to many outputs.
#[derive(Clone, Copy, Debug)]
pub struct ConnectedToMany<const N: usize>(pub [usize; N]);

impl<const N: usize> ConnectedToMany<N> {
    /// The capabilities that the task receives: one for each listed output,
    /// in the order of the list, each at the time of the input.
    pub proof fn lemma_accepted(&self, input_cap: InputCapability)
        ensures
            capabilities_match(self.accepted(input_cap), self.0, input_cap.time()),
    {
        lemma_replicated(arbitrary(), self.0, input_cap.time(), N as nat);
    }

    /// Whether `output` is among the first `upto` outputs that the connection lists.
    pub open spec fn lists(&self, output: int, upto: int) -> bool {
        exists|k: int| 0 <= k < upto && k < N && #[trigger] self.0[k] == output
    }
}

impl<const N: usize> InputConnection for ConnectedToMany<N> {
    type Capability = [Capability; N];

    open spec fn fits(&self, outputs: int) -> bool {
        forall|k: int| 0 <= k < N ==> #[trigger] self.0[k] < outputs
    }

    open spec fn connects(&self, output: int) -> bool {
        self.lists(output, N as int)
    }

    open spec fn accepted(&self, input_cap: InputCapability) -> [Capability; N] {
        replicated(arbitrary(), self.0, input_cap.time(), N as nat)
    }

    fn describe(&self, outputs: usize) -> (summary: Vec<Antichain<u64>>) {
        let mut summary = disconnected_summary(outputs);
        let mut k: usize = 0;
        while k < N
            invariant
                k <= N,
                self.fits(outputs as int),
                summary.len() == outputs,
                forall|output: int|
                    0 <= output < outputs ==> frontier_elements(#[trigger] summary[output])
                        == summary_for(self.lists(output, k as int)),
            decreases N - k,
        {
            let output = self.0[k];
            summary.set(output, frontier_from_elem(0));
            proof {
                assert forall|o: int| 0 <= o < outputs implies frontier_elements(
                    #[trigger] summary[o],
                ) == summary_for(self.lists(o, k + 1)) by {
                    assert(self.lists(o, k + 1) == (self.lists(o, k as int) || o == output));
                }
            }
            k += 1;
        }
        summary
    }

    fn accept(&self, input_cap: InputCapability) -> (cap: [Capability; N]) {
        let cap = capabilities_for(&self.0, input_cap.time());
        proof {
            self.lemma_accepted(input_cap);
            assert(cap =~= self.accepted(input_cap));
        }
        cap
    }
}

/// Gives the index of an output of an operator.
pub trait OutputIndex {
    /// The output index of this handle.
    spec fn spec_index(&self) -> usize;

    /// The output index of this handle.
    fn index(&self) -> (index: usize)
        ensures
            index == self.spec_index(),
    ;
}

/// An index of an output stands for the output.
impl OutputIndex for usize {
    open spec fn spec_index(&self) -> usize {
        *self
    }

    fn index(&self) -> (index: usize) {
        *self
    }
}
} // verus!
