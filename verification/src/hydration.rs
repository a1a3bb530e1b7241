//! Sequential dataflow hydration support for replicas.
//!
//! Sequential hydration enforces a "hydration concurrency" that limits how
//! many dataflows may be hydrating at the same time. It does so by delaying
//! the delivery of `Schedule` commands to the replica: a collection that is
//! scheduled is queued, and its command is sent on when capacity is free.

use crate::frontier::{
    frontier_clone, frontier_elements, frontier_is_empty, frontier_less_than, less_than,
};
use std::collections::{BTreeMap, VecDeque};
use timely::progress::Antichain;
use vstd::prelude::*;

verus! {
/// The state of a watched collection.
#[derive(Clone, Copy, Debug, PartialEq, Eq, Structural)]
pub enum State {
    /// Collection has been created and is waiting for a `Schedule` command.
    Created,
    /// The collection has received a `Schedule` command and has been added to the hydration queue,
    /// waiting for hydration capacity.
    QueuedForHydration,
    /// Collection is hydrating and waiting for hydration to complete.
    Hydrating,
}

/// Information about a watched collection.
#[derive(Debug)]
pub struct Collection {
    /// The as-of frontier at collection creation.
    as_of: Antichain<u64>,
    /// The current state of the collection.
    state: State,
}

/// What is known of a collection, with its frontier given by its elements.
pub ghost struct CollectionView {
    pub as_of: Seq<u64>,
    pub state: State,
}

impl View for Collection {
    type V = CollectionView;

    closed spec fn view(&self) -> CollectionView {
        CollectionView { as_of: frontier_elements(self.as_of), state: self.state }
    }
}

impl Collection {
    /// Create a new `Collection`.
    pub fn new(as_of: Antichain<u64>) -> (collection: Self)
        ensures
            collection@ == (CollectionView {
                as_of: frontier_elements(as_of),
                state: State::Created,
            }),
    {
        Collection { as_of, state: State::Created }
    }

    /// Advance this collection's state to `Scheduled`.
    pub fn set_scheduled(&mut self)
        ensures
            final(self)@ == (CollectionView {
                as_of: old(self)@.as_of,
                state: State::QueuedForHydration,
            }),
    {
        self.state = State::QueuedForHydration;
    }

    /// Advance this collection's state to hydrating.
    pub fn set_hydrating(&mut self)
        ensures
            final(self)@ == (CollectionView { as_of: old(self)@.as_of, state: State::Hydrating }),
    {
        self.state = State::Hydrating;
    }

    /// The current state of the collection.
    pub fn state(&self) -> (state: State)
        ensures
            state == self@.state,
    {
        self.state
    }
}

/// What a compute command tells the hydration client.
#[derive(Debug)]
pub enum ComputeCommand {
    /// A dataflow is created, which exports the given collections as of the given frontier.
    CreateDataflow { export_ids: Vec<u64>, as_of: Option<Antichain<u64>>, transient: bool },
    /// A collection is allowed to hydrate.
    Schedule(u64),
    /// A collection may be compacted up to the frontier; it is dropped where the frontier is empty.
    AllowCompaction { id: u64, frontier: Antichain<u64> },
    /// Any other command.
    Other,
}

/// What a compute response tells the hydration client.
#[derive(Debug)]
pub enum ComputeResponse {
    /// The frontiers of a collection, with the output frontier if it is reported.
    Frontiers { id: u64, output_frontier: Option<Antichain<u64>> },
    /// Any other response.
    Other,
}

/// A compute command, with its frontiers given by their elements.
pub ghost enum CommandView {
    CreateDataflow { export_ids: Seq<u64>, as_of: Option<Seq<u64>>, transient: bool },
    Schedule(u64),
    AllowCompaction { id: u64, frontier: Seq<u64> },
    Other,
}

impl View for ComputeCommand {
    type V = CommandView;

    open spec fn view(&self) -> CommandView {
        match self {
            ComputeCommand::CreateDataflow { export_ids, as_of, transient } => {
                CommandView::CreateDataflow {
                    export_ids: export_ids@,
                    as_of: match as_of {
                        Some(as_of) => Some(frontier_elements(*as_of)),
                        None => None,
                    },
                    transient: *transient,
                }
            },
            ComputeCommand::Schedule(id) => CommandView::Schedule(*id),
            ComputeCommand::AllowCompaction { id, frontier } => CommandView::AllowCompaction {
                id: *id,
                frontier: frontier_elements(*frontier),
            },
            ComputeCommand::Other => CommandView::Other,
        }
    }
}

/// A compute response, with its frontier given by its elements.
pub ghost enum ResponseView {
    Frontiers { id: u64, output_frontier: Option<Seq<u64>> },
    Other,
}

impl View for ComputeResponse {
    type V = ResponseView;

    open spec fn view(&self) -> ResponseView {
        match self {
            ComputeResponse::Frontiers { id, output_frontier } => ResponseView::Frontiers {
                id: *id,
                output_frontier: match output_frontier {
                    Some(frontier) => Some(frontier_elements(*frontier)),
                    None => None,
                },
            },
            ComputeResponse::Other => ResponseView::Other,
        }
    }
}

/// The collections that are watched and the queue of those that await hydration.
pub ghost struct Watched {
    pub collections: Map<u64, CollectionView>,
    pub queue: Seq<u64>,
}

/// The collections that are hydrating.
pub open spec fn hydrating(collections: Map<u64, CollectionView>) -> Set<u64> {
    Set::new(|id: u64| collections.contains_key(id) && collections[id].state is Hydrating)
}

impl Watched {
    /// The next collection of the queue starts to hydrate, if capacity is
    /// free and it is still watched; a collection that is not watched any
    /// more leaves the queue.
    pub open spec fn hydrate(self, capacity: int) -> Watched
        decreases self.queue.len(),
    {
        if hydrating(self.collections).len() >= capacity || self.queue.len() == 0 {
            self
        } else {
            self.started().hydrate(capacity)
        }
    }

    /// The collections whose `Schedule` commands are sent on by
    /// [`Watched::hydrate`], in the order of the commands.
    pub open spec fn scheduled(self, capacity: int) -> Seq<u64>
        decreases self.queue.len(),
    {
        if hydrating(self.collections).len() >= capacity || self.queue.len() == 0 {
            Seq::empty()
        } else if self.collections.contains_key(self.queue[0]) {
            seq![self.queue[0]] + self.started().scheduled(capacity)
        } else {
            self.started().scheduled(capacity)
        }
    }

    /// What is watched once a command has been taken note of, before
    /// anything starts to hydrate.
    ///
    /// A dataflow that is not transient has its one export watched, as
    /// created. A `Schedule` command for a watched collection queues the
    /// collection. A collection that may be compacted to the empty frontier
    /// has been dropped and is not watched any more.
    pub open spec fn noted(self, cmd: CommandView) -> Watched {
        match cmd {
            CommandView::CreateDataflow { export_ids, as_of, transient } => if !transient
                && export_ids.len() == 1 && as_of is Some {
                Watched {
                    collections: self.collections.insert(
                        export_ids[0],
                        CollectionView { as_of: as_of->0, state: State::Created },
                    ),
                    queue: self.queue,
                }
            } else {
                self
            },
            CommandView::Schedule(id) => if self.collections.contains_key(id) {
                Watched {
                    collections: self.collections.insert(
                        id,
                        CollectionView {
                            as_of: self.collections[id].as_of,
                            state: State::QueuedForHydration,
                        },
                    ),
                    queue: self.queue.push(id),
                }
            } else {
                self
            },
            CommandView::AllowCompaction { id, frontier } => if frontier.len() == 0 {
                Watched { collections: self.collections.remove(id), queue: self.queue }
            } else {
                self
            },
            CommandView::Other => self,
        }
    }

    /// Whether a command is sent on at once: every command but a
    /// `Schedule` command for a watched collection, which is held back.
    pub open spec fn forwards(self, cmd: CommandView) -> bool {
        !(cmd matches CommandView::Schedule(id) && self.collections.contains_key(id))
    }

    /// Whether a response tells that a watched collection has hydrated: its
    /// output frontier is beyond its as-of frontier, or is empty.
    pub open spec fn tells_hydrated(self, resp: ResponseView) -> bool {
        resp matches ResponseView::Frontiers { id, output_frontier: Some(frontier) }
            && self.collections.contains_key(id) && (less_than(
            self.collections[id].as_of,
            frontier,
        ) || frontier.len() == 0)
    }

    /// What is watched once a response has been observed: a collection
    /// that has hydrated is not watched any more and, if it was hydrating,
    /// makes room for others.
    pub open spec fn observed(self, resp: ResponseView, capacity: int) -> Watched {
        if self.tells_hydrated(resp) {
            let id = resp->Frontiers_id;
            let rest = Watched { collections: self.collections.remove(id), queue: self.queue };
            if self.collections[id].state is Hydrating {
                rest.hydrate(capacity)
            } else {
                rest
            }
        } else {
            self
        }
    }

    /// The collections for which a `Schedule` command is sent when a
    /// response is observed: those that start to hydrate in the room that
    /// was made, or the collection itself if its command was held back.
    pub open spec fn answered(self, resp: ResponseView, capacity: int) -> Seq<u64> {
        if self.tells_hydrated(resp) {
            let id = resp->Frontiers_id;
            let rest = Watched { collections: self.collections.remove(id), queue: self.queue };
            match self.collections[id].state {
                State::Created => Seq::empty(),
                State::QueuedForHydration => seq![id],
                State::Hydrating => rest.scheduled(capacity),
            }
        } else {
            Seq::empty()
        }
    }

    /// What is watched once the first collection of the queue has left it
    /// and, where it is watched, hydrates.
    pub open spec fn started(self) -> Watched
        recommends
            self.queue.len() > 0,
    {
        let id = self.queue[0];
        Watched {
            collections: if self.collections.contains_key(id) {
                self.collections.insert(
                    id,
                    CollectionView { as_of: self.collections[id].as_of, state: State::Hydrating },
                )
            } else {
                self.collections
            },
            queue: self.queue.skip(1),
        }
    }
}

/// A collection that starts or stops hydrating changes the number of
/// hydrating collections by one; any other change leaves it as it is.
proof fn lemma_hydrating_insert(collections: Map<u64, CollectionView>, id: u64, to: CollectionView)
    requires
        collections.dom().finite(),
    ensures
        hydrating(collections).finite(),
        hydrating(collections.insert(id, to)).len() == hydrating(collections).len() - (if hydrating(
            collections,
        ).contains(id) {
            1int
        } else {
            0int
        }) + (if to.state is Hydrating {
            1int
        } else {
            0int
        }),
{
    let before = hydrating(collections);
    let after = hydrating(collections.insert(id, to));
    vstd::set_lib::lemma_len_subset(before, collections.dom());
    if to.state is Hydrating {
        assert(after =~= before.insert(id));
    } else {
        assert(after =~= before.remove(id));
    }
}

/// A collection that is not watched any more does not hydrate any more.
proof fn lemma_hydrating_remove(collections: Map<u64, CollectionView>, id: u64)
    requires
        collections.dom().finite(),
    ensures
        hydrating(collections).finite(),
        hydrating(collections.remove(id)).len() == hydrating(collections).len() - (if hydrating(
            collections,
        ).contains(id) {
            1int
        } else {
            0int
        }),
{
    let before = hydrating(collections);
    vstd::set_lib::lemma_len_subset(before, collections.dom());
    assert(hydrating(collections.remove(id)) =~= before.remove(id));
}

/// Hydration stays within the capacity, and leaves none of it unused.
///
/// Letting collections start to hydrate never takes the number of
/// hydrating collections beyond the capacity, unless it was beyond it
/// before. Afterwards the capacity is used up or the queue is empty. A
/// `Schedule` command is sent for no more collections than were queued.
pub proof fn lemma_hydrate_within_capacity(watched: Watched, capacity: int)
    requires
        watched.collections.dom().finite(),
    ensures
        hydrating(watched.hydrate(capacity).collections).len() <= capacity || hydrating(
            watched.hydrate(capacity).collections,
        ).len() == hydrating(watched.collections).len(),
        hydrating(watched.collections).len() <= hydrating(
            watched.hydrate(capacity).collections,
        ).len(),
        hydrating(watched.hydrate(capacity).collections).len() >= capacity || watched.hydrate(
            capacity,
        ).queue.len() == 0,
        watched.scheduled(capacity).len() + watched.hydrate(capacity).queue.len()
            <= watched.queue.len(),
    decreases watched.queue.len(),
{
    if hydrating(watched.collections).len() < capacity && watched.queue.len() > 0 {
        let id = watched.queue[0];
        let next = watched.started();
        if watched.collections.contains_key(id) {
            lemma_hydrating_insert(
                watched.collections,
                id,
                CollectionView { as_of: watched.collections[id].as_of, state: State::Hydrating },
            );
        }
        lemma_hydrate_within_capacity(next, capacity);
    }
}

/// A client enforcing sequential dataflow hydration.
#[derive(Debug)]
pub struct SequentialHydration {
    /// The collections that are watched.
    ///
    /// Entries are inserted in response to observed `CreateDataflow` commands.
    /// Entries are removed in response to `Frontiers` commands that report collection
    /// hydration, or in response to `AllowCompaction` commands that specify the empty frontier.
    collections: BTreeMap<u64, Collection>,
    /// A queue of scheduled collections that are awaiting hydration.
    hydration_queue: VecDeque<u64>,
    /// The number of collections that are hydrating.
    hydration_count: usize,
}

/// What the client asks to be sent to the wrapped client.
#[derive(Debug)]
pub struct Sends {
    /// Whether the command that was absorbed is sent on.
    pub forward: bool,
    /// The collections for which a `Schedule` command is sent, in this order.
    pub schedule: Vec<u64>,
}

impl SequentialHydration {
    /// The collections that are watched and the queue of those that await
    /// hydration. The count of hydrating collections that the client keeps
    /// beside them is, for a client in order, the number of the watched
    /// collections that hydrate.
    pub closed spec fn watched(&self) -> Watched {
        Watched {
            collections: self.collections@.map_values(|collection: Collection| collection@),
            queue: self.hydration_queue@,
        }
    }

    /// The count of hydrating collections is that of the watched collections that hydrate.
    pub closed spec fn wf(&self) -> bool {
        self.hydration_count == hydrating(self.watched().collections).len()
    }

    /// Only finitely many collections are watched.
    pub proof fn lemma_finite(&self)
        ensures
            self.watched().collections.dom().finite(),
    {
        assert(self.watched().collections.dom() =~= self.collections@.dom());
    }

    /// Create a new `SequentialHydration` client, which watches nothing yet.
    pub fn new() -> (client: Self)
        ensures
            client.wf(),
            client.watched().collections == Map::<u64, CollectionView>::empty(),
            client.watched().queue == Seq::<u64>::empty(),
    {
        let client = SequentialHydration {
            collections: BTreeMap::new(),
            hydration_queue: VecDeque::new(),
            hydration_count: 0,
        };
        proof {
            assert(hydrating(client.watched().collections) =~= Set::<u64>::empty());
        }
        client
    }

    /// Return the number of hydrating collections.
    pub fn hydration_count(&self) -> (count: usize)
        requires
            self.wf(),
        ensures
            count == hydrating(self.watched().collections).len(),
    {
        self.hydration_count
    }

    /// The number of collections that await hydration.
    pub fn queue_size(&self) -> (size: usize)
        ensures
            size == self.watched().queue.len(),
    {
        self.hydration_queue.len()
    }

    /// Watches `collection` under `id`, in place of what was watched under it.
    fn watch(&mut self, id: u64, collection: Collection)
        requires
            old(self).wf(),
            !(collection@.state is Hydrating) || hydrating(old(self).watched().collections).contains(
                id,
            ) || old(self).hydration_count < usize::MAX,
        ensures
            final(self).wf(),
            final(self).watched().collections == old(self).watched().collections.insert(
                id,
                collection@,
            ),
            final(self).watched().queue == old(self).watched().queue,
    {
        let ghost before = self.watched().collections;
        proof {
            self.lemma_finite();
            lemma_hydrating_insert(before, id, collection@);
        }
        let starts = match collection.state {
            State::Hydrating => true,
            _ => false,
        };
        let stopped = match self.collections.insert(id, collection) {
            Some(previous) => match previous.state {
                State::Hydrating => true,
                _ => false,
            },
            None => false,
        };
        proof {
            assert(self.watched().collections =~= before.insert(id, collection@));
        }
        if stopped && !starts {
            self.hydration_count -= 1;
        } else if starts && !stopped {
            self.hydration_count += 1;
        }
    }

    /// Stops watching what is watched under `id`, and gives it back.
    fn unwatch(&mut self, id: u64) -> (removed: Option<Collection>)
        requires
            old(self).wf(),
        ensures
            final(self).wf(),
            final(self).watched().collections == old(self).watched().collections.remove(id),
            final(self).watched().queue == old(self).watched().queue,
            match removed {
                Some(collection) => old(self).watched().collections.contains_key(id) && old(
                    self,
                ).watched().collections[id] == collection@,
                None => !old(self).watched().collections.contains_key(id),
            },
    {
        let ghost before = self.watched().collections;
        proof {
            self.lemma_finite();
            lemma_hydrating_remove(before, id);
        }
        let removed = self.collections.remove(&id);
        proof {
            assert(self.watched().collections =~= before.remove(id));
        }
        match &removed {
            Some(collection) => match collection.state {
                State::Hydrating => {
                    self.hydration_count -= 1;
                },
                _ => {},
            },
            None => {},
        }
        removed
    }

    /// Allow hydration based on the available capacity.
    ///
    /// Collections leave the queue, in its order, as long as fewer
    /// collections hydrate than `capacity` says. Returns the collections for
    /// which a `Schedule` command is to be sent, in this order.
    pub fn hydrate_collections(&mut self, capacity: usize) -> (schedule: Vec<u64>)
        requires
            old(self).wf(),
        ensures
            final(self).wf(),
            final(self).watched() == old(self).watched().hydrate(capacity as int),
            schedule@ == old(self).watched().scheduled(capacity as int),
    {
        let mut schedule: Vec<u64> = Vec::new();
        let ghost start = self.watched();
        proof {
            assert(schedule@ + start.scheduled(capacity as int) =~= start.scheduled(
                capacity as int,
            ));
        }
        while self.hydration_count < capacity
            invariant
                self.wf(),
                self.watched().hydrate(capacity as int) == start.hydrate(capacity as int),
                schedule@ + self.watched().scheduled(capacity as int) == start.scheduled(
                    capacity as int,
                ),
            ensures
                hydrating(self.watched().collections).len() >= capacity
                    || self.watched().queue.len() == 0,
            decreases self.hydration_queue@.len(),
        {
            let ghost now = self.watched();
            let ghost sent = schedule@;
            proof {
                self.lemma_finite();
            }
            let Some(id) = self.hydration_queue.pop_front() else {
                // Hydration queue is empty.
                break ;
            };
            match self.unwatch(id) {
                None => {
                    // Collection has already been dropped.
                    proof {
                        assert(self.watched().collections =~= now.collections);
                    }
                },
                Some(mut collection) => {
                    schedule.push(id);
                    collection.set_hydrating();
                    proof {
                        lemma_hydrating_remove(now.collections, id);
                    }
                    self.watch(id, collection);
                    proof {
                        assert(self.watched().collections =~= now.started().collections);
                        assert(schedule@ + now.started().scheduled(capacity as int) =~= sent
                            + now.scheduled(capacity as int));
                    }
                },
            }
        }
        schedule
    }

    /// Absorb a command, and tell what is to be sent to the wrapped client:
    /// the command itself unless it is held back, then a `Schedule` command
    /// for each collection that starts to hydrate.
    ///
    /// Sequential hydration is enforced only for dataflows that are not
    /// transient. Such a dataflow has exactly one export and an as-of
    /// frontier.
    pub fn absorb_command(&mut self, cmd: &ComputeCommand, capacity: usize) -> (sends: Sends)
        requires
            old(self).wf(),
            cmd matches ComputeCommand::CreateDataflow { export_ids, as_of, transient } ==> *transient
                || (export_ids.len() == 1 && as_of is Some),
        ensures
            final(self).wf(),
            final(self).watched() == old(self).watched().noted(cmd@).hydrate(capacity as int),
            sends.forward == old(self).watched().forwards(cmd@),
            sends.schedule@ == old(self).watched().noted(cmd@).scheduled(capacity as int),
    {
        // Whether to forward this command to the wrapped client.
        let mut forward = true;
        let ghost before = self.watched();
        match cmd {
            ComputeCommand::CreateDataflow { export_ids, as_of, transient } => {
                if !*transient {
                    let id = export_ids[0];
                    match as_of {
                        Some(as_of) => {
                            self.watch(id, Collection::new(frontier_clone(as_of)));
                        },
                        None => {},
                    }
                }
            },
            ComputeCommand::Schedule(id) => {
                match self.unwatch(*id) {
                    Some(mut collection) => {
                        self.hydration_queue.push_back(*id);
                        collection.set_scheduled();
                        self.watch(*id, collection);
                        forward = false;
                        proof {
                            assert(self.watched().collections =~= before.noted(
                                cmd@,
                            ).collections);
                        }
                    },
                    None => {
                        proof {
                            assert(self.watched().collections =~= before.collections);
                        }
                    },
                }
            },
            ComputeCommand::AllowCompaction { id, frontier } => {
                if frontier_is_empty(frontier) {
                    // The collection was dropped by the controller. Remove it
                    // from the watched state to ensure we don't produce any more
                    // commands for it.
                    let _ = self.unwatch(*id);
                }
            },
            ComputeCommand::Other => {},
        }
        // Schedule collections that are ready now.
        let schedule = self.hydrate_collections(capacity);
        Sends { forward, schedule }
    }

    /// Observe a response, and tell for which collections a `Schedule`
    /// command is to be sent to the wrapped client.
    ///
    /// A collection counts as hydrated even if its `Schedule` command has
    /// been held back so far. The command is then still sent, to keep the
    /// communication predictable.
    pub fn observe_response(&mut self, resp: &ComputeResponse, capacity: usize) -> (schedule: Vec<
        u64,
    >)
        requires
            old(self).wf(),
        ensures
            final(self).wf(),
            final(self).watched() == old(self).watched().observed(resp@, capacity as int),
            schedule@ == old(self).watched().answered(resp@, capacity as int),
    {
        let ghost before = self.watched();
        match resp {
            ComputeResponse::Frontiers { id, output_frontier: Some(frontier) } => {
                match self.unwatch(*id) {
                    Some(collection) => {
                        let hydrated = frontier_less_than(&collection.as_of, frontier);
                        if hydrated || frontier_is_empty(frontier) {
                            match collection.state {
                                State::Created => {
                                    // We haven't seen a `Schedule` command yet, so
                                    // no obligations to send one either.
                                    Vec::new()
                                },
                                State::QueuedForHydration => {
                                    // We are holding back the `Schedule` command
                                    // for this collection. Send it now.
                                    let mut schedule = Vec::new();
                                    schedule.push(*id);
                                    schedule
                                },
                                State::Hydrating => {
                                    // We freed some hydration capacity and may be
                                    // able to start hydrating new collections.
                                    self.hydrate_collections(capacity)
                                },
                            }
                        } else {
                            proof {
                                self.lemma_finite();
                                lemma_hydrating_remove(before.collections, *id);
                            }
                            self.watch(*id, collection);
                            proof {
                                assert(self.watched().collections =~= before.collections);
                            }
                            Vec::new()
                        }
                    },
                    None => {
                        proof {
                            assert(self.watched().collections =~= before.collections);
                        }
                        Vec::new()
                    },
                }
            },
            _ => Vec::new(),
        }
    }
}
} // verus!
