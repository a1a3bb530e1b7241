//! The queue that turns the scheduler's delivery of input into events that a
//! task can drain, and the handle through which the task drains it.

use crate::connection::{InputCapability, InputConnection};
use crate::frontier::{frontier_elements, frontier_is_empty};
use crate::queue::InputQueue;
use crate::waker::TimelyWaker;
use std::collections::VecDeque;
use timely::progress::Antichain;
use vstd::prelude::*;

verus! {
/// An event of an input stream.
#[derive(Debug)]
pub enum Event<C, D> {
    /// A data event.
    Data(C, D),
    /// A progress event.
    Progress(Antichain<u64>),
}

/// An event with its frontier given by the elements it holds.
pub ghost enum EventView<C, D> {
    Data(C, D),
    Progress(Seq<u64>),
}

impl<C, D> View for Event<C, D> {
    type V = EventView<C, D>;

    open spec fn view(&self) -> EventView<C, D> {
        match self {
            Event::Data(cap, data) => EventView::Data(*cap, *data),
            Event::Progress(frontier) => EventView::Progress(frontier_elements(*frontier)),
        }
    }
}

/// The queue after a frontier has been announced: the announcement replaces
/// a progress event at the back, which the task has not seen yet, and is
/// appended otherwise.
pub open spec fn with_progress<C, D>(queue: Seq<EventView<C, D>>, upper: Seq<u64>) -> Seq<
    EventView<C, D>,
> {
    if queue.len() > 0 && queue.last() is Progress {
        queue.drop_last().push(EventView::Progress(upper))
    } else {
        queue.push(EventView::Progress(upper))
    }
}

/// The data events for `batches`, each with the capability that `connection` makes of its own.
pub open spec fn data_events<C: InputConnection, D>(
    connection: C,
    batches: Seq<(InputCapability, D)>,
) -> Seq<EventView<C::Capability, D>> {
    Seq::new(
        batches.len(),
        |i: int| EventView::Data(connection.accepted(batches[i].0), batches[i].1),
    )
}

/// What a poll for the next event of an input gives.
#[derive(Debug)]
pub enum Poll<T> {
    /// The result is there.
    Ready(T),
    /// Nothing is queued; the task has been registered to be woken.
    Pending,
}

/// Async handle to an operator's input stream.
///
/// It holds both ends of the input: the batches that the scheduler has
/// delivered and that have not been accepted yet, and the queue of events
/// that the task drains.
pub struct AsyncInputHandle<C: InputConnection, D> {
    queue: VecDeque<Event<C::Capability, D>>,
    /// Whether the task waits to be woken when an event is queued.
    waker: bool,
    /// Whether this handle has finished producing data.
    done: bool,
    connection: C,
    handle: VecDeque<(InputCapability, D)>,
}

impl<C: InputConnection, D> AsyncInputHandle<C, D> {
    /// The events that are queued for the task, oldest first.
    pub closed spec fn events(&self) -> Seq<EventView<C::Capability, D>> {
        self.queue@.map_values(|event: Event<C::Capability, D>| event@)
    }

    /// The batches that the scheduler has delivered and that are not accepted yet.
    pub closed spec fn delivered(&self) -> Seq<(InputCapability, D)> {
        self.handle@
    }

    /// Whether the task waits to be woken when an event is queued.
    pub closed spec fn waiting(&self) -> bool {
        self.waker
    }

    /// Whether the task has seen the empty frontier on this input.
    pub closed spec fn is_done(&self) -> bool {
        self.done
    }

    /// The connection of this input to the outputs.
    pub closed spec fn connection(&self) -> C {
        self.connection
    }

    /// A handle for an input with the given connection, with nothing delivered or queued.
    pub fn new(connection: C) -> (handle: Self)
        ensures
            handle.events() == Seq::<EventView<C::Capability, D>>::empty(),
            handle.delivered() == Seq::<(InputCapability, D)>::empty(),
            !handle.waiting(),
            !handle.is_done(),
            handle.connection() == connection,
    {
        let handle = AsyncInputHandle {
            queue: VecDeque::new(),
            waker: false,
            done: false,
            connection,
            handle: VecDeque::new(),
        };
        handle
    }

    /// Records a batch that the scheduler delivers for this input.
    pub fn deliver(&mut self, cap: InputCapability, data: D)
        ensures
            final(self).delivered() == old(self).delivered().push((cap, data)),
            final(self).events() == old(self).events(),
            final(self).waiting() == old(self).waiting(),
            final(self).is_done() == old(self).is_done(),
            final(self).connection() == old(self).connection(),
    {
        self.handle.push_back((cap, data));
    }

    /// Accepts all available input into the queue.
    ///
    /// Every delivered batch becomes a data event, in the order of delivery
    /// and with the capability that the connection makes of its own. A task
    /// that waits is woken if any batch was there. Returns whether the
    /// scheduler has to be asked to activate the operator.
    pub fn accept_input(&mut self, waker: &mut TimelyWaker) -> (activate: bool)
        ensures
            final(self).events() == old(self).events() + data_events(
                old(self).connection(),
                old(self).delivered(),
            ),
            final(self).delivered() == Seq::<(InputCapability, D)>::empty(),
            final(self).is_done() == old(self).is_done(),
            final(self).connection() == old(self).connection(),
            final(waker).is_active() == old(waker).is_active(),
            old(self).delivered().len() > 0 && old(self).waiting() ==> {
                &&& !final(self).waiting()
                &&& final(waker).is_task_ready()
                &&& activate == !old(waker).is_active()
            },
            !(old(self).delivered().len() > 0 && old(self).waiting()) ==> {
                &&& final(self).waiting() == old(self).waiting()
                &&& final(waker).is_task_ready() == old(waker).is_task_ready()
                &&& !activate
            },
    {
        let ghost batches = self.handle@;
        let ghost before = self.events();
        let ghost connection = self.connection;
        let mut new_data = false;
        let ghost mut taken: int = 0;
        loop
            invariant
                0 <= taken <= batches.len(),
                self.handle@ == batches.skip(taken),
                self.events() == before + data_events(connection, batches.take(taken)),
                self.connection == connection,
                self.done == old(self).done,
                self.waker == old(self).waker,
                new_data == (taken > 0),
            ensures
                taken == batches.len(),
            decreases batches.len() - taken,
        {
            let next = self.handle.pop_front();
            match next {
                None => {
                    break ;
                },
                Some((cap, data)) => {
                    new_data = true;
                    let ghost queued = self.events();
                    let cap = self.connection.accept(cap);
                    self.queue.push_back(Event::Data(cap, data));
                    proof {
                        let event = EventView::Data(
                            connection.accepted(batches[taken].0),
                            batches[taken].1,
                        );
                        assert(self.events() =~= queued.push(event));
                        assert(data_events(connection, batches.take(taken + 1)) =~= data_events(
                            connection,
                            batches.take(taken),
                        ).push(event));
                        taken = taken + 1;
                    }
                },
            }
        }
        if new_data && self.waker {
            self.waker = false;
            waker.wake_by_ref()
        } else {
            false
        }
    }

    /// Drains all available input and empties the queue.
    pub fn drain_input(&mut self)
        ensures
            final(self).events() == Seq::<EventView<C::Capability, D>>::empty(),
            final(self).delivered() == Seq::<(InputCapability, D)>::empty(),
            final(self).waiting() == old(self).waiting(),
            final(self).is_done() == old(self).is_done(),
            final(self).connection() == old(self).connection(),
    {
        self.queue.clear();
        self.handle.clear();
    }

    /// Registers a frontier notification to be delivered.
    ///
    /// Two consecutive progress events are consolidated into one if the
    /// task has not seen the earlier one: only the latest frontier matters to
    /// it, and the queue does not grow while the task looks elsewhere. A task
    /// that waits is woken. Returns whether the scheduler has to be asked to
    /// activate the operator.
    pub fn notify_progress(&mut self, upper: Antichain<u64>, waker: &mut TimelyWaker) -> (activate:
        bool)
        ensures
            final(self).events() == with_progress(old(self).events(), frontier_elements(upper)),
            final(self).delivered() == old(self).delivered(),
            final(self).is_done() == old(self).is_done(),
            final(self).connection() == old(self).connection(),
            !final(self).waiting(),
            final(waker).is_active() == old(waker).is_active(),
            old(self).waiting() ==> final(waker).is_task_ready() && activate == !old(
                waker,
            ).is_active(),
            !old(self).waiting() ==> final(waker).is_task_ready() == old(waker).is_task_ready()
                && !activate,
    {
        match self.queue.pop_back() {
            Some(Event::Progress(_)) => {},
            Some(Event::Data(cap, data)) => {
                self.queue.push_back(Event::Data(cap, data));
            },
            None => {},
        }
        self.queue.push_back(Event::Progress(upper));
        if self.waker {
            self.waker = false;
            waker.wake_by_ref()
        } else {
            false
        }
    }

    /// Takes the oldest queued event, if there is one.
    ///
    /// Once the task has taken a progress event with the empty frontier, the
    /// input is done.
    pub fn next_sync(&mut self) -> (event: Option<Event<C::Capability, D>>)
        ensures
            old(self).events().len() == 0 ==> event is None && final(self).events() == old(
                self,
            ).events() && final(self).is_done() == old(self).is_done(),
            old(self).events().len() > 0 ==> {
                &&& event is Some
                &&& event->0@ == old(self).events()[0]
                &&& final(self).events() == old(self).events().skip(1)
                &&& final(self).is_done() == match old(self).events()[0] {
                    EventView::Data(_, _) => old(self).is_done(),
                    EventView::Progress(frontier) => frontier.len() == 0,
                }
            },
            final(self).delivered() == old(self).delivered(),
            final(self).waiting() == old(self).waiting(),
            final(self).connection() == old(self).connection(),
    {
        match self.queue.pop_front() {
            None => None,
            Some(Event::Data(cap, data)) => {
                Some(Event::Data(cap, data))
            },
            Some(Event::Progress(frontier)) => {
                self.done = frontier_is_empty(&frontier);
                Some(Event::Progress(frontier))
            },
        }
    }

    /// Whether an event is queued. If none is, the task is registered to be
    /// woken when one arrives; if one is, the next call of [`Self::next_sync`]
    /// gives an event.
    pub fn poll_ready(&mut self) -> (ready: bool)
        ensures
            ready == (old(self).events().len() > 0),
            final(self).waiting() == (if ready {
                old(self).waiting()
            } else {
                true
            }),
            final(self).events() == old(self).events(),
            final(self).delivered() == old(self).delivered(),
            final(self).is_done() == old(self).is_done(),
            final(self).connection() == old(self).connection(),
    {
        if self.queue.len() == 0 {
            self.waker = true;
            false
        } else {
            true
        }
    }

    /// Polls the input as a stream of events: the end of the stream once the
    /// input is done, the oldest queued event if there is one, and otherwise
    /// nothing yet, with the task registered to be woken.
    pub fn poll_next(&mut self) -> (next: Poll<Option<Event<C::Capability, D>>>)
        ensures
            old(self).is_done() ==> next == Poll::Ready(None::<Event<C::Capability, D>>)
                && *final(self) == *old(self),
            !old(self).is_done() && old(self).events().len() == 0 ==> {
                &&& next is Pending
                &&& final(self).waiting()
                &&& final(self).events() == old(self).events()
                &&& !final(self).is_done()
            },
            !old(self).is_done() && old(self).events().len() > 0 ==> {
                &&& next matches Poll::Ready(Some(event))
                &&& event@ == old(self).events()[0]
                &&& final(self).events() == old(self).events().skip(1)
                &&& final(self).waiting() == old(self).waiting()
                &&& final(self).is_done() == match old(self).events()[0] {
                    EventView::Data(_, _) => false,
                    EventView::Progress(frontier) => frontier.len() == 0,
                }
            },
            final(self).delivered() == old(self).delivered(),
            final(self).connection() == old(self).connection(),
    {
        if self.done {
            return Poll::Ready(None);
        }
        if !self.poll_ready() {
            return Poll::Pending;
        }
        Poll::Ready(self.next_sync())
    }

    /// The bounds on the number of events that the stream will still give:
    /// at least those that are queued.
    pub fn size_hint(&self) -> (bounds: (usize, Option<usize>))
        ensures
            bounds.0 == self.events().len(),
            bounds.1 is None,
    {
        (self.queue.len(), None)
    }

    /// Whether the task has seen the empty frontier on this input.
    pub fn done(&self) -> (done: bool)
        ensures
            done == self.is_done(),
    {
        self.done
    }
}

/// What an input handle holds.
pub ghost struct InputState<C: InputConnection, D> {
    /// The events that are queued for the task, oldest first.
    pub events: Seq<EventView<C::Capability, D>>,
    /// The batches that the scheduler has delivered and that are not accepted yet.
    pub delivered: Seq<(InputCapability, D)>,
    /// Whether the task waits to be woken when an event is queued.
    pub waiting: bool,
    /// Whether the task has seen the empty frontier on this input.
    pub done: bool,
    /// The connection of this input to the outputs.
    pub connection: C,
}

impl<C: InputConnection, D> InputQueue for AsyncInputHandle<C, D> {
    type State = InputState<C, D>;

    open spec fn state(&self) -> InputState<C, D> {
        InputState {
            events: self.events(),
            delivered: self.delivered(),
            waiting: self.waiting(),
            done: self.is_done(),
            connection: self.connection(),
        }
    }

    open spec fn waits(state: InputState<C, D>) -> bool {
        state.waiting
    }

    open spec fn holds_input(state: InputState<C, D>) -> bool {
        state.delivered.len() > 0
    }

    open spec fn accepted(state: InputState<C, D>) -> InputState<C, D> {
        InputState {
            events: state.events + data_events(state.connection, state.delivered),
            delivered: Seq::empty(),
            waiting: state.waiting && state.delivered.len() == 0,
            done: state.done,
            connection: state.connection,
        }
    }

    open spec fn notified(state: InputState<C, D>, upper: Seq<u64>) -> InputState<C, D> {
        InputState {
            events: with_progress(state.events, upper),
            delivered: state.delivered,
            waiting: false,
            done: state.done,
            connection: state.connection,
        }
    }

    open spec fn drained(state: InputState<C, D>) -> InputState<C, D> {
        InputState {
            events: Seq::empty(),
            delivered: Seq::empty(),
            waiting: state.waiting,
            done: state.done,
            connection: state.connection,
        }
    }

    proof fn lemma_waits(state: InputState<C, D>, upper: Seq<u64>) {
    }

    fn accept_input(&mut self, waker: &mut TimelyWaker) -> (activate: bool) {
        AsyncInputHandle::accept_input(self, waker)
    }

    fn drain_input(&mut self) {
        AsyncInputHandle::drain_input(self)
    }

    fn notify_progress(&mut self, upper: Antichain<u64>, waker: &mut TimelyWaker) -> (activate: bool) {
        AsyncInputHandle::notify_progress(self, upper, waker)
    }
}

/// What happens to the queue of an input, one move at a time.
pub ghost enum Move<C, D> {
    /// Input is accepted: these events are appended.
    Accept(Seq<EventView<C, D>>),
    /// A frontier is announced.
    Notify(Seq<u64>),
    /// The task takes the oldest event, if there is one.
    Take,
}

/// The queue of an input, and the events that the task has taken from it, oldest first.
pub ghost struct Trace<C, D> {
    pub queue: Seq<EventView<C, D>>,
    pub taken: Seq<EventView<C, D>>,
}

impl<C, D> Trace<C, D> {
    /// All events that the task has taken or will take, if nothing more happens.
    pub open spec fn stream(self) -> Seq<EventView<C, D>> {
        self.taken + self.queue
    }

    /// The trace after one more move.
    pub open spec fn after(self, step: Move<C, D>) -> Trace<C, D> {
        match step {
            Move::Accept(events) => Trace { queue: self.queue + events, taken: self.taken },
            Move::Notify(upper) => Trace {
                queue: with_progress(self.queue, upper),
                taken: self.taken,
            },
            Move::Take => if self.queue.len() > 0 {
                Trace { queue: self.queue.skip(1), taken: self.taken.push(self.queue[0]) }
            } else {
                self
            },
        }
    }
}

/// The trace of an input after `moves`, from an empty queue.
pub open spec fn run<C, D>(moves: Seq<Move<C, D>>) -> Trace<C, D>
    decreases moves.len(),
{
    if moves.len() == 0 {
        Trace { queue: Seq::empty(), taken: Seq::empty() }
    } else {
        run(moves.drop_last()).after(moves.last())
    }
}

/// The events that arrive with `moves`, in the order of arrival.
pub open spec fn arrivals<C, D>(moves: Seq<Move<C, D>>) -> Seq<EventView<C, D>>
    decreases moves.len(),
{
    if moves.len() == 0 {
        Seq::empty()
    } else {
        arrivals(moves.drop_last()) + (match moves.last() {
            Move::Accept(events) => events,
            Move::Notify(upper) => seq![EventView::Progress(upper)],
            Move::Take => Seq::empty(),
        })
    }
}

/// Those of `events` that are flagged, in their order.
pub open spec fn kept<C, D>(events: Seq<EventView<C, D>>, flags: Seq<bool>) -> Seq<EventView<C, D>>
    decreases events.len(),
{
    if events.len() == 0 || flags.len() != events.len() {
        Seq::empty()
    } else if flags.last() {
        kept(events.drop_last(), flags.drop_last()).push(events.last())
    } else {
        kept(events.drop_last(), flags.drop_last())
    }
}

/// Whether `flags` leave out nothing of `arrived` but progress events that
/// another progress event follows at once.
pub open spec fn collapses<C, D>(arrived: Seq<EventView<C, D>>, flags: Seq<bool>) -> bool {
    &&& flags.len() == arrived.len()
    &&& forall|i: int|
        0 <= i < arrived.len() && !#[trigger] flags[i] ==> arrived[i] is Progress && i + 1
            < arrived.len() && arrived[i + 1] is Progress
}

/// The data of `events`, in their order.
pub open spec fn data_of<C, D>(events: Seq<EventView<C, D>>) -> Seq<(C, D)>
    decreases events.len(),
{
    if events.len() == 0 {
        Seq::empty()
    } else {
        match events.last() {
            EventView::Data(cap, data) => data_of(events.drop_last()).push((cap, data)),
            EventView::Progress(_) => data_of(events.drop_last()),
        }
    }
}

proof fn lemma_kept_all<C, D>(events: Seq<EventView<C, D>>, flags: Seq<bool>, more: Seq<EventView<C, D>>)
    requires
        flags.len() == events.len(),
    ensures
        kept(events + more, flags + Seq::new(more.len(), |i: int| true)) == kept(events, flags)
            + more,
    decreases more.len(),
{
    let trues = Seq::new(more.len(), |i: int| true);
    if more.len() > 0 {
        let fewer = more.drop_last();
        lemma_kept_all(events, flags, fewer);
        assert((events + more).drop_last() =~= events + fewer);
        assert((flags + trues).drop_last() =~= flags + Seq::new(fewer.len(), |i: int| true));
    }
}

proof fn lemma_data_of_append<C, D>(events: Seq<EventView<C, D>>, more: Seq<EventView<C, D>>)
    ensures
        data_of(events + more) == data_of(events) + data_of(more),
    decreases more.len(),
{
    if more.len() > 0 {
        lemma_data_of_append(events, more.drop_last());
        assert((events + more).drop_last() =~= events + more.drop_last());
        match more.last() {
            EventView::Data(cap, data) => {
                assert((data_of(events) + data_of(more.drop_last())).push((cap, data))
                    =~= data_of(events) + data_of(more));
            },
            EventView::Progress(_) => {},
        }
    }
}

/// What holds of a trace after each move, with the flags that show it.
proof fn lemma_trace<C, D>(moves: Seq<Move<C, D>>) -> (flags: Seq<bool>)
    ensures
        collapses(arrivals(moves), flags),
        run(moves).stream() == kept(arrivals(moves), flags),
        arrivals(moves).len() > 0 ==> flags.last(),
        run(moves).queue.len() > 0 ==> arrivals(moves).len() > 0 && run(moves).queue.last()
            == arrivals(moves).last(),
    decreases moves.len(),
{
    if moves.len() == 0 {
        let flags = Seq::<bool>::empty();
        flags
    } else {
        let earlier = moves.drop_last();
        let before = lemma_trace(earlier);
        let trace = run(earlier);
        let arrived = arrivals(earlier);
        match moves.last() {
            Move::Accept(events) => {
                let flags = before + Seq::new(events.len(), |i: int| true);
                lemma_kept_all(arrived, before, events);
                flags
            },
            Move::Notify(upper) => {
                if trace.queue.len() > 0 && trace.queue.last() is Progress {
                    let last = arrived.len() - 1;
                    let flags = before.update(last, false).push(true);
                    assert(arrivals(moves).drop_last() =~= arrived);
                    assert(flags.drop_last() =~= before.update(last, false));
                    assert(before.update(last, false).drop_last() =~= before.drop_last());
                    assert(kept(arrived, before) == kept(
                        arrived.drop_last(),
                        before.drop_last(),
                    ).push(arrived.last()));
                    assert(kept(arrived.drop_last(), before.drop_last())
                        =~= trace.stream().drop_last());
                    assert(kept(arrived, before.update(last, false)) == kept(
                        arrived.drop_last(),
                        before.drop_last(),
                    ));
                    flags
                } else {
                    let flags = before.push(true);
                    assert(arrivals(moves).drop_last() =~= arrived);
                    assert(flags.drop_last() =~= before);
                    flags
                }
            },
            Move::Take => {
                before
            },
        }
    }
}

/// The task sees the events of an input in the order in which they arrived.
///
/// Whatever is accepted, announced and taken, and in whatever order: the
/// events that the task has taken, followed by those that are still queued,
/// are the events that arrived, in their order, without some progress events
/// that another progress event followed at once. No data event is left out,
/// and neither is the event that arrived last.
pub proof fn lemma_order_preserved<C, D>(moves: Seq<Move<C, D>>)
    ensures
        exists|flags: Seq<bool>| #[trigger]
            collapses(arrivals(moves), flags) && run(moves).stream() == kept(
                arrivals(moves),
                flags,
            ),
{
    let flags = lemma_trace(moves);
    assert(collapses(arrivals(moves), flags));
}

proof fn lemma_kept_data<C, D>(events: Seq<EventView<C, D>>, flags: Seq<bool>)
    requires
        flags.len() == events.len(),
        forall|i: int| 0 <= i < events.len() && !#[trigger] flags[i] ==> events[i] is Progress,
    ensures
        data_of(kept(events, flags)) == data_of(events),
    decreases events.len(),
{
    if events.len() > 0 {
        let fewer = events.drop_last();
        let fewer_flags = flags.drop_last();
        lemma_kept_data(fewer, fewer_flags);
        if flags.last() {
            assert(kept(events, flags).drop_last() =~= kept(fewer, fewer_flags));
        }
    }
}

/// The data that the task has taken, followed by the data that is still
/// queued, is the data that was accepted, in the order of acceptance.
pub proof fn lemma_data_in_order<C, D>(moves: Seq<Move<C, D>>)
    ensures
        data_of(run(moves).taken) + data_of(run(moves).queue) == data_of(arrivals(moves)),
{
    let flags = lemma_trace(moves);
    lemma_kept_data(arrivals(moves), flags);
    lemma_data_of_append(run(moves).taken, run(moves).queue);
}

/// Whether every event that `moves` accept is a data event.
pub open spec fn accepts_data<C, D>(moves: Seq<Move<C, D>>) -> bool {
    forall|i: int, j: int|
        #![trigger moves[i]->Accept_0[j]]
        0 <= i < moves.len() && moves[i] is Accept && 0 <= j < moves[i]->Accept_0.len()
            ==> moves[i]->Accept_0[j] is Data
}

/// Whether no progress event of `queue` follows another at once.
pub open spec fn collapsed<C, D>(queue: Seq<EventView<C, D>>) -> bool {
    forall|i: int|
        0 <= i < queue.len() - 1 && #[trigger] queue[i] is Progress ==> !(queue[i + 1] is Progress)
}

/// The queue never holds two progress events in a row.
///
/// Where input is accepted as data events, whatever is accepted, announced
/// and taken, and in whatever order: between two progress events that are
/// queued there is a data event.
pub proof fn lemma_progress_collapsed<C, D>(moves: Seq<Move<C, D>>)
    requires
        accepts_data(moves),
    ensures
        collapsed(run(moves).queue),
    decreases moves.len(),
{
    if moves.len() > 0 {
        let earlier = moves.drop_last();
        assert(accepts_data(earlier)) by {
            assert forall|i: int, j: int|
                #![trigger earlier[i]->Accept_0[j]]
                0 <= i < earlier.len() && earlier[i] is Accept && 0 <= j
                    < earlier[i]->Accept_0.len() implies earlier[i]->Accept_0[j] is Data by {
                assert(moves[i]->Accept_0[j] is Data);
            }
        }
        lemma_progress_collapsed(earlier);
        let before = run(earlier).queue;
        let after = run(moves).queue;
        match moves.last() {
            Move::Accept(events) => {
                assert forall|i: int|
                    0 <= i < after.len() - 1 && #[trigger] after[i] is Progress implies !(after[i
                        + 1] is Progress) by {
                    if i + 1 >= before.len() {
                        assert(moves[moves.len() - 1]->Accept_0[i + 1 - before.len()] is Data);
                    } else {
                        assert(before[i] is Progress);
                    }
                }
            },
            Move::Notify(upper) => {
                assert forall|i: int|
                    0 <= i < after.len() - 1 && #[trigger] after[i] is Progress implies !(after[i
                        + 1] is Progress) by {
                    if i + 1 < after.len() - 1 || (before.len() > 0 && before.last() is Progress) {
                        assert(before[i] is Progress);
                    }
                }
            },
            Move::Take => {
                if before.len() > 0 {
                    assert forall|i: int|
                        0 <= i < after.len() - 1 && #[trigger] after[i] is Progress implies !(
                        after[i + 1] is Progress) by {
                        assert(before[i + 1] is Progress);
                    }
                }
            },
        }
    }
}

} // verus!
