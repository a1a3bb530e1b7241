use async_operators::hydration::{
    Collection, ComputeCommand, ComputeResponse, SequentialHydration, State,
};
use timely::progress::Antichain;

fn create(id: u64, as_of: u64) -> ComputeCommand {
    ComputeCommand::CreateDataflow {
        export_ids: vec![id],
        as_of: Some(Antichain::from_elem(as_of)),
        transient: false,
    }
}

fn frontiers(id: u64, frontier: Option<Antichain<u64>>) -> ComputeResponse {
    ComputeResponse::Frontiers { id, output_frontier: frontier }
}

#[test]
fn collection_moves_through_its_states() {
    let mut collection = Collection::new(Antichain::from_elem(3));
    assert_eq!(collection.state(), State::Created);
    collection.set_scheduled();
    assert_eq!(collection.state(), State::QueuedForHydration);
    collection.set_hydrating();
    assert_eq!(collection.state(), State::Hydrating);
}

#[test]
fn new_client_watches_nothing() {
    let mut client = SequentialHydration::new();
    assert_eq!(client.hydration_count(), 0);
    assert_eq!(client.queue_size(), 0);
    assert_eq!(client.hydrate_collections(4), Vec::<u64>::new());
}

#[test]
fn create_is_forwarded_and_schedule_is_held_back_without_capacity() {
    let mut client = SequentialHydration::new();
    let sends = client.absorb_command(&create(1, 0), 0);
    assert!(sends.forward);
    assert!(sends.schedule.is_empty());
    let sends = client.absorb_command(&ComputeCommand::Schedule(1), 0);
    assert!(!sends.forward);
    assert!(sends.schedule.is_empty());
    assert_eq!(client.queue_size(), 1);
    assert_eq!(client.hydration_count(), 0);
    // Capacity comes: the command is sent now.
    assert_eq!(client.hydrate_collections(1), vec![1]);
    assert_eq!(client.hydration_count(), 1);
    assert_eq!(client.queue_size(), 0);
}

#[test]
fn schedule_with_capacity_is_sent_at_once_by_the_client() {
    let mut client = SequentialHydration::new();
    client.absorb_command(&create(1, 0), 2);
    let sends = client.absorb_command(&ComputeCommand::Schedule(1), 2);
    // The command itself is held back; the client sends its own.
    assert!(!sends.forward);
    assert_eq!(sends.schedule, vec![1]);
    assert_eq!(client.hydration_count(), 1);
}

#[test]
fn schedule_of_an_unknown_collection_is_forwarded() {
    let mut client = SequentialHydration::new();
    let sends = client.absorb_command(&ComputeCommand::Schedule(9), 1);
    assert!(sends.forward);
    assert!(sends.schedule.is_empty());
    assert_eq!(client.queue_size(), 0);
}

#[test]
fn transient_dataflows_are_not_watched() {
    let mut client = SequentialHydration::new();
    let transient = ComputeCommand::CreateDataflow {
        export_ids: vec![1, 2],
        as_of: None,
        transient: true,
    };
    assert!(client.absorb_command(&transient, 1).forward);
    // Its schedule command is forwarded like that of any unknown collection.
    assert!(client.absorb_command(&ComputeCommand::Schedule(1), 1).forward);
    assert_eq!(client.hydration_count(), 0);
}

#[test]
fn other_commands_are_forwarded() {
    let mut client = SequentialHydration::new();
    let sends = client.absorb_command(&ComputeCommand::Other, 1);
    assert!(sends.forward);
    assert!(sends.schedule.is_empty());
}

#[test]
fn hydration_is_sequential_in_the_order_of_scheduling() {
    let mut client = SequentialHydration::new();
    for id in [3, 1, 2] {
        client.absorb_command(&create(id, 0), 1);
    }
    assert_eq!(client.absorb_command(&ComputeCommand::Schedule(3), 1).schedule, vec![3]);
    assert!(client.absorb_command(&ComputeCommand::Schedule(1), 1).schedule.is_empty());
    assert!(client.absorb_command(&ComputeCommand::Schedule(2), 1).schedule.is_empty());
    assert_eq!(client.hydration_count(), 1);
    assert_eq!(client.queue_size(), 2);
    // Progress that is not beyond the as-of does not tell of hydration.
    let none = client.observe_response(&frontiers(3, Some(Antichain::from_elem(0))), 1);
    assert!(none.is_empty());
    assert_eq!(client.hydration_count(), 1);
    // No output frontier: nothing to learn.
    assert!(client.observe_response(&frontiers(3, None), 1).is_empty());
    assert!(client.observe_response(&ComputeResponse::Other, 1).is_empty());
    // 3 has hydrated: 1 is next.
    assert_eq!(client.observe_response(&frontiers(3, Some(Antichain::from_elem(1))), 1), vec![1]);
    assert_eq!(client.hydration_count(), 1);
    assert_eq!(client.queue_size(), 1);
    // The empty frontier tells of hydration too.
    assert_eq!(client.observe_response(&frontiers(1, Some(Antichain::new())), 1), vec![2]);
    assert_eq!(client.observe_response(&frontiers(2, Some(Antichain::from_elem(5))), 1), vec![]);
    assert_eq!(client.hydration_count(), 0);
    // Nothing is watched any more.
    assert!(client.observe_response(&frontiers(2, Some(Antichain::from_elem(6))), 1).is_empty());
}

#[test]
fn capacity_lets_several_collections_hydrate() {
    let mut client = SequentialHydration::new();
    for id in 1..=4 {
        client.absorb_command(&create(id, 0), 0);
        client.absorb_command(&ComputeCommand::Schedule(id), 0);
    }
    assert_eq!(client.queue_size(), 4);
    assert_eq!(client.hydrate_collections(3), vec![1, 2, 3]);
    assert_eq!(client.hydration_count(), 3);
    assert_eq!(client.hydrate_collections(3), Vec::<u64>::new());
    // Lower capacity stops no collection.
    assert_eq!(client.hydrate_collections(1), Vec::<u64>::new());
    assert_eq!(client.hydration_count(), 3);
    assert_eq!(client.hydrate_collections(10), vec![4]);
    assert_eq!(client.queue_size(), 0);
}

#[test]
fn hydration_of_a_collection_that_was_never_scheduled() {
    let mut client = SequentialHydration::new();
    client.absorb_command(&create(1, 2), 1);
    // The replica did not wait for the schedule command.
    assert!(client.observe_response(&frontiers(1, Some(Antichain::from_elem(3))), 1).is_empty());
    // The collection is not watched any more: a late schedule is forwarded.
    assert!(client.absorb_command(&ComputeCommand::Schedule(1), 1).forward);
}

#[test]
fn hydration_of_a_queued_collection_sends_its_command() {
    let mut client = SequentialHydration::new();
    client.absorb_command(&create(1, 0), 0);
    client.absorb_command(&create(2, 0), 0);
    client.absorb_command(&ComputeCommand::Schedule(1), 0);
    client.absorb_command(&ComputeCommand::Schedule(2), 0);
    assert_eq!(client.observe_response(&frontiers(1, Some(Antichain::from_elem(1))), 0), vec![1]);
    // It stays in the queue until capacity comes, and is then skipped.
    assert_eq!(client.queue_size(), 2);
    assert_eq!(client.hydrate_collections(1), vec![2]);
    assert_eq!(client.queue_size(), 0);
}

#[test]
fn dropped_collections_free_their_capacity() {
    let mut client = SequentialHydration::new();
    for id in 1..=3 {
        client.absorb_command(&create(id, 0), 1);
        client.absorb_command(&ComputeCommand::Schedule(id), 1);
    }
    assert_eq!(client.hydration_count(), 1);
    // Compaction to a frontier that is not empty drops nothing.
    let keep = ComputeCommand::AllowCompaction { id: 1, frontier: Antichain::from_elem(4) };
    let sends = client.absorb_command(&keep, 1);
    assert!(sends.forward);
    assert!(sends.schedule.is_empty());
    // The queued 2 is dropped; then the hydrating 1, which makes room for 3.
    let drop_2 = ComputeCommand::AllowCompaction { id: 2, frontier: Antichain::new() };
    let sends = client.absorb_command(&drop_2, 1);
    assert!(sends.forward);
    assert!(sends.schedule.is_empty());
    let drop_1 = ComputeCommand::AllowCompaction { id: 1, frontier: Antichain::new() };
    let sends = client.absorb_command(&drop_1, 1);
    assert!(sends.forward);
    assert_eq!(sends.schedule, vec![3]);
    assert_eq!(client.hydration_count(), 1);
    assert_eq!(client.queue_size(), 0);
}

#[test]
fn creating_a_collection_again_starts_it_over() {
    let mut client = SequentialHydration::new();
    client.absorb_command(&create(1, 0), 1);
    client.absorb_command(&ComputeCommand::Schedule(1), 1);
    assert_eq!(client.hydration_count(), 1);
    client.absorb_command(&create(1, 5), 1);
    assert_eq!(client.hydration_count(), 0);
    // The new as-of counts.
    assert!(client.observe_response(&frontiers(1, Some(Antichain::from_elem(5))), 1).is_empty());
    assert_eq!(client.absorb_command(&ComputeCommand::Schedule(1), 1).schedule, vec![1]);
}
