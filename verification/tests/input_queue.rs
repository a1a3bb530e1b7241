use async_operators::connection::{
    Capability, ConnectedToMany, ConnectedToOne, Disconnected, InputCapability,
};
use async_operators::input::{AsyncInputHandle, Event, Poll};
use async_operators::waker::TimelyWaker;
use timely::progress::Antichain;

fn data(event: Option<Event<Capability, Vec<u64>>>) -> (Capability, Vec<u64>) {
    match event {
        Some(Event::Data(cap, data)) => (cap, data),
        other => panic!("expected data, got {:?}", other),
    }
}

fn progress<C: std::fmt::Debug, D: std::fmt::Debug>(event: Option<Event<C, D>>) -> Vec<u64> {
    match event {
        Some(Event::Progress(frontier)) => frontier.elements().to_vec(),
        other => panic!("expected progress, got {:?}", other),
    }
}

#[test]
fn new_handle_is_empty() {
    let mut handle: AsyncInputHandle<ConnectedToOne, Vec<u64>> =
        AsyncInputHandle::new(ConnectedToOne(0));
    assert!(handle.next_sync().is_none());
    assert!(!handle.done());
    assert_eq!(handle.size_hint(), (0, None));
}

#[test]
fn accepted_batches_keep_their_order() {
    let mut waker = TimelyWaker::new();
    let mut handle: AsyncInputHandle<ConnectedToOne, Vec<u64>> =
        AsyncInputHandle::new(ConnectedToOne(2));
    handle.deliver(InputCapability::new(3), vec![1, 2]);
    handle.deliver(InputCapability::new(4), vec![3]);
    // Nothing is queued before the input is accepted.
    assert_eq!(handle.size_hint(), (0, None));
    assert!(!handle.accept_input(&mut waker));
    assert_eq!(handle.size_hint(), (2, None));
    assert_eq!(data(handle.next_sync()), (Capability::new(3, 2), vec![1, 2]));
    assert_eq!(data(handle.next_sync()), (Capability::new(4, 2), vec![3]));
    assert!(handle.next_sync().is_none());
}

#[test]
fn disconnected_input_gives_the_time() {
    let mut waker = TimelyWaker::new();
    let mut handle: AsyncInputHandle<Disconnected, u64> = AsyncInputHandle::new(Disconnected);
    handle.deliver(InputCapability::new(7), 70);
    handle.accept_input(&mut waker);
    match handle.next_sync() {
        Some(Event::Data(time, data)) => {
            assert_eq!(time, 7);
            assert_eq!(data, 70);
        }
        other => panic!("expected data, got {:?}", other),
    }
}

#[test]
fn input_for_many_outputs_gives_one_capability_each() {
    let mut waker = TimelyWaker::new();
    let mut handle: AsyncInputHandle<ConnectedToMany<3>, u64> =
        AsyncInputHandle::new(ConnectedToMany([4, 0, 2]));
    handle.deliver(InputCapability::new(9), 1);
    handle.accept_input(&mut waker);
    match handle.next_sync() {
        Some(Event::Data(caps, _)) => {
            assert_eq!(
                caps,
                [Capability::new(9, 4), Capability::new(9, 0), Capability::new(9, 2)]
            );
        }
        other => panic!("expected data, got {:?}", other),
    }
}

#[test]
fn consecutive_progress_is_collapsed_to_the_latest() {
    let mut waker = TimelyWaker::new();
    let mut handle: AsyncInputHandle<ConnectedToOne, Vec<u64>> =
        AsyncInputHandle::new(ConnectedToOne(0));
    handle.notify_progress(Antichain::from_elem(1), &mut waker);
    handle.notify_progress(Antichain::from_elem(2), &mut waker);
    handle.notify_progress(Antichain::from_elem(5), &mut waker);
    assert_eq!(handle.size_hint(), (1, None));
    assert_eq!(progress(handle.next_sync()), vec![5]);
    assert!(handle.next_sync().is_none());
}

#[test]
fn progress_after_data_is_not_collapsed_into_earlier_progress() {
    let mut waker = TimelyWaker::new();
    let mut handle: AsyncInputHandle<ConnectedToOne, Vec<u64>> =
        AsyncInputHandle::new(ConnectedToOne(0));
    handle.notify_progress(Antichain::from_elem(1), &mut waker);
    handle.deliver(InputCapability::new(1), vec![10]);
    handle.accept_input(&mut waker);
    handle.notify_progress(Antichain::from_elem(2), &mut waker);
    handle.notify_progress(Antichain::from_elem(3), &mut waker);
    assert_eq!(handle.size_hint(), (3, None));
    assert_eq!(progress(handle.next_sync()), vec![1]);
    assert_eq!(data(handle.next_sync()), (Capability::new(1, 0), vec![10]));
    assert_eq!(progress(handle.next_sync()), vec![3]);
    assert!(handle.next_sync().is_none());
}

#[test]
fn progress_that_was_taken_is_not_replaced() {
    let mut waker = TimelyWaker::new();
    let mut handle: AsyncInputHandle<ConnectedToOne, Vec<u64>> =
        AsyncInputHandle::new(ConnectedToOne(0));
    handle.notify_progress(Antichain::from_elem(1), &mut waker);
    assert_eq!(progress(handle.next_sync()), vec![1]);
    handle.notify_progress(Antichain::from_elem(2), &mut waker);
    assert_eq!(progress(handle.next_sync()), vec![2]);
}

#[test]
fn empty_frontier_finishes_the_input() {
    let mut waker = TimelyWaker::new();
    let mut handle: AsyncInputHandle<ConnectedToOne, Vec<u64>> =
        AsyncInputHandle::new(ConnectedToOne(0));
    handle.notify_progress(Antichain::from_elem(4), &mut waker);
    assert_eq!(progress(handle.next_sync()), vec![4]);
    assert!(!handle.done());
    handle.notify_progress(Antichain::new(), &mut waker);
    assert_eq!(progress(handle.next_sync()), Vec::<u64>::new());
    assert!(handle.done());
    // The stream has ended: polling gives the end without suspending.
    assert!(matches!(handle.poll_next(), Poll::Ready(None)));
}

#[test]
fn done_is_set_by_the_frontier_that_was_taken_last() {
    let mut waker = TimelyWaker::new();
    let mut handle: AsyncInputHandle<ConnectedToOne, Vec<u64>> =
        AsyncInputHandle::new(ConnectedToOne(0));
    handle.notify_progress(Antichain::new(), &mut waker);
    assert_eq!(progress(handle.next_sync()), Vec::<u64>::new());
    assert!(handle.done());
    handle.notify_progress(Antichain::from_elem(4), &mut waker);
    assert_eq!(progress(handle.next_sync()), vec![4]);
    assert!(!handle.done());
}

#[test]
fn poll_ready_registers_the_task_on_an_empty_queue() {
    let mut waker = TimelyWaker::new();
    let mut handle: AsyncInputHandle<ConnectedToOne, Vec<u64>> =
        AsyncInputHandle::new(ConnectedToOne(0));
    assert!(!handle.poll_ready());
    // The task waits: input that arrives wakes it, and asks for an
    // activation since the operator is not being invoked.
    handle.deliver(InputCapability::new(0), vec![1]);
    assert!(handle.accept_input(&mut waker));
    assert!(waker.task_ready());
    assert!(handle.poll_ready());
    // The registration is used up.
    handle.deliver(InputCapability::new(0), vec![2]);
    assert!(!handle.accept_input(&mut waker));
}

#[test]
fn accepting_nothing_wakes_nobody() {
    let mut waker = TimelyWaker::new();
    let mut handle: AsyncInputHandle<ConnectedToOne, Vec<u64>> =
        AsyncInputHandle::new(ConnectedToOne(0));
    assert!(!handle.poll_ready());
    assert!(!handle.accept_input(&mut waker));
    // The task still waits, so a frontier wakes it.
    assert!(handle.notify_progress(Antichain::from_elem(1), &mut waker));
}

#[test]
fn progress_does_not_wake_a_task_that_does_not_wait() {
    let mut waker = TimelyWaker::new();
    let mut handle: AsyncInputHandle<ConnectedToOne, Vec<u64>> =
        AsyncInputHandle::new(ConnectedToOne(0));
    assert!(!handle.notify_progress(Antichain::from_elem(1), &mut waker));
}

#[test]
fn poll_next_takes_events_in_order() {
    let mut waker = TimelyWaker::new();
    let mut handle: AsyncInputHandle<ConnectedToOne, Vec<u64>> =
        AsyncInputHandle::new(ConnectedToOne(1));
    assert!(matches!(handle.poll_next(), Poll::Pending));
    handle.deliver(InputCapability::new(0), vec![5]);
    handle.accept_input(&mut waker);
    handle.notify_progress(Antichain::from_elem(1), &mut waker);
    match handle.poll_next() {
        Poll::Ready(event) => assert_eq!(data(event), (Capability::new(0, 1), vec![5])),
        Poll::Pending => panic!("an event is queued"),
    }
    match handle.poll_next() {
        Poll::Ready(event) => assert_eq!(progress(event), vec![1]),
        Poll::Pending => panic!("an event is queued"),
    }
    assert!(matches!(handle.poll_next(), Poll::Pending));
}

#[test]
fn drain_discards_what_is_queued_and_delivered() {
    let mut waker = TimelyWaker::new();
    let mut handle: AsyncInputHandle<ConnectedToOne, Vec<u64>> =
        AsyncInputHandle::new(ConnectedToOne(0));
    handle.deliver(InputCapability::new(0), vec![1]);
    handle.accept_input(&mut waker);
    handle.notify_progress(Antichain::from_elem(1), &mut waker);
    handle.deliver(InputCapability::new(1), vec![2]);
    handle.drain_input();
    assert_eq!(handle.size_hint(), (0, None));
    assert!(handle.next_sync().is_none());
    // What had been delivered is gone too.
    handle.accept_input(&mut waker);
    assert!(handle.next_sync().is_none());
}

#[test]
fn waker_marks_the_task_and_asks_for_activation() {
    let mut waker = TimelyWaker::new();
    assert!(waker.task_ready());
    assert!(!waker.active());
    assert!(waker.wake_by_ref());
    assert!(waker.task_ready());
    // Waking twice asks twice; the mark stays.
    assert!(waker.wake_by_ref());
    assert!(waker.task_ready());
}
